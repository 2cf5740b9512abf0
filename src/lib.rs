pub mod text;
pub mod path;
pub mod kconfig;
pub mod files;
pub mod cli;
pub mod version;
