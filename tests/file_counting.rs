use kernel_counter::files::{FileCounter, FileType};

fn lines(v: &[&str]) -> Vec<String> {
    v.iter().map(|l| l.to_string()).collect()
}

#[test]
fn extensions_map_to_kinds() {
    assert_eq!(FileType::from_extension("cpp"), FileType::TypeC);
    assert_eq!(FileType::from_extension("hpp"), FileType::TypeH);
    assert_eq!(FileType::from_extension("rs"), FileType::TypeRust);
    assert_eq!(FileType::from_extension("S"), FileType::TypeAsm);
    assert_eq!(FileType::from_extension("py"), FileType::TypePython);
    assert_eq!(FileType::from_extension("txt"), FileType::TypeOther);
}

#[test]
fn special_names_map_to_kinds() {
    assert_eq!(FileType::from_filename("Makfile"), FileType::TypeM);
    assert_eq!(FileType::from_filename("Kconfig"), FileType::TypeK);
    assert_eq!(FileType::from_filename("README"), FileType::TypeOther);
    assert_eq!(FileType::from_file_name("Makefile"), FileType::TypeM);
    assert_eq!(FileType::from_file_name("head.S"), FileType::TypeAsm);
    assert_eq!(FileType::from_file_name("setup.py"), FileType::TypePython);
    assert_eq!(FileType::from_file_name("COPYING"), FileType::TypeOther);
}

#[test]
fn lines_are_classified() {
    let r = FileCounter::count_lines(&lines(&[
        "",
        "   ",
        "// c",
        "/* d */",
        " * e",
        "#include <x.h>",
        "; asm",
        "int x;",
    ]));
    assert_eq!(r, (2, 5, 1));
}

#[test]
fn search_adds_to_kind() {
    let mut fc = FileCounter::new(
        "riscv".to_string(),
        "6.9.5".to_string(),
        "/opt/linux-6.9.5/arch/riscv".to_string(),
    );
    fc.search("a.c", &lines(&["int a;", "", "// x"]));
    fc.search("b.cc", &lines(&["int b;"]));
    fc.search("Kconfig", &lines(&["config A"]));
    let c = fc.stat(FileType::TypeC);
    assert_eq!((c.files, c.blank, c.comment, c.code), (2, 1, 1, 2));
    assert_eq!(fc.stat(FileType::TypeK).files, 1);
    assert_eq!(fc.stat(FileType::TypeH).files, 0);
    assert_eq!(fc.dir_path(), "/opt/linux-6.9.5/arch/riscv");
}

#[test]
fn counter_from_parts() {
    let fc = FileCounter::from((
        "x86".to_string(),
        "6.1.0".to_string(),
        "/src/linux-6.1.0/arch/x86".to_string(),
    ));
    assert_eq!(fc.arch_name(), "x86");
    assert_eq!(fc.kernel_version(), "6.1.0");
    assert_eq!(fc.dir_path(), "/src/linux-6.1.0/arch/x86");
    assert_eq!(fc.stat(FileType::TypeOther).files, 0);
}
