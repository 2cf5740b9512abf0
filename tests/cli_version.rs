use kernel_counter::cli::{parse_bool, parse_bool_lower};
use kernel_counter::version::fetch_kernel_version;

#[test]
fn booleans_in_any_case() {
    assert_eq!(parse_bool("YES"), Ok(true));
    assert_eq!(parse_bool("t"), Ok(true));
    assert_eq!(parse_bool("1"), Ok(true));
    assert_eq!(parse_bool("False"), Ok(false));
    assert_eq!(parse_bool("N"), Ok(false));
    assert_eq!(parse_bool("0"), Ok(false));
}

#[test]
fn bad_boolean_names_input() {
    assert_eq!(parse_bool("Maybe"), Err("invalid value for a boolean: Maybe".to_string()));
    assert_eq!(parse_bool_lower("maybe", "Maybe"), Err("invalid value for a boolean: Maybe".to_string()));
    assert_eq!(parse_bool_lower("yes", "YES"), Ok(true));
}

#[test]
fn version_from_makefile() {
    let lines: Vec<String> = [
        "# SPDX-License-Identifier: GPL-2.0",
        "VERSION = 6",
        "PATCHLEVEL = 9",
        "SUBLEVEL = 5",
        "EXTRAVERSION =",
        "NAME = Hurr durr I'ma ninja sloth",
    ]
    .iter()
    .map(|l| l.to_string())
    .collect();
    assert_eq!(fetch_kernel_version(&lines), Some("6.9.5".to_string()));
}

#[test]
fn version_missing_part() {
    let lines: Vec<String> = ["VERSION = 6", "# SUBLEVEL = 1", "PATCHLEVEL = 1"]
        .iter()
        .map(|l| l.to_string())
        .collect();
    assert_eq!(fetch_kernel_version(&lines), None);
}
