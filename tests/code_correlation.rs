use kernel_counter::kconfig::{is_code_file, KconfigCounter, KconfigScan};

fn counter_with(names: &[&str]) -> KconfigCounter {
    let mut kc = KconfigCounter::new(
        "riscv".to_string(),
        "6.9.5".to_string(),
        "/opt/linux-6.9.5/arch/riscv/Kconfig".to_string(),
    );
    let mut scan = KconfigScan::new();
    for n in names {
        kc.parse_kconfig(&mut scan, &format!("config {}", n));
    }
    kc
}

fn lines(text: &str) -> Vec<String> {
    text.split('\n').map(|l| l.to_string()).collect()
}

#[test]
fn nested_unknown_guard_stays_in_snippet() {
    let mut kc = counter_with(&["FOO"]);
    let open = kc.parse_code(&lines(
        "#ifdef CONFIG_FOO\nint x;\n#ifdef CONFIG_UNKNOWN\ny();\n#endif\n#endif",
    ));
    assert_eq!(open, 0);
    assert_eq!(
        kc.stat("FOO").unwrap().code_snippets,
        vec!["#ifdef CONFIG_FOO\nint x;\n#ifdef CONFIG_UNKNOWN\ny();\n#endif\n#endif\n".to_string()]
    );
    assert!(kc.stat("UNKNOWN").is_none());
    assert_eq!(kc.total_code_lines(), 6);
}

#[test]
fn known_guard_inside_unknown_guard_is_not_recorded() {
    let mut kc = counter_with(&["FOO"]);
    let open = kc.parse_code(&lines("#ifdef CONFIG_BAR\n#ifdef CONFIG_FOO\na();\n#endif\n#endif"));
    assert_eq!(open, 0);
    assert!(kc.stat("FOO").unwrap().code_snippets.is_empty());
    assert_eq!(kc.total_code_lines(), 0);
}

#[test]
fn unterminated_guard_is_dropped_and_reported() {
    let mut kc = counter_with(&["FOO"]);
    let open = kc.parse_code(&lines("#ifdef CONFIG_FOO\nint x;\n#ifdef CONFIG_FOO\n#endif"));
    assert_eq!(open, 1);
    assert!(kc.stat("FOO").unwrap().code_snippets.is_empty());
    assert_eq!(kc.total_code_lines(), 0);
}

#[test]
fn stray_endif_is_ignored() {
    let mut kc = counter_with(&["FOO"]);
    let open = kc.parse_code(&lines("#endif\n#ifdef CONFIG_FOO\nz;\n#endif\nw;"));
    assert_eq!(open, 0);
    assert_eq!(kc.stat("FOO").unwrap().code_snippets, vec!["#ifdef CONFIG_FOO\nz;\n#endif\n".to_string()]);
    assert_eq!(kc.total_code_lines(), 3);
}

#[test]
fn snippets_accumulate_over_files() {
    let mut kc = counter_with(&["FOO", "BAR"]);
    kc.parse_code(&lines("  #ifdef CONFIG_BAR\nb;\n#endif\n#ifdef CONFIG_FOO\n#endif"));
    assert_eq!(kc.analyze_code("x.h", &lines("#ifdef CONFIG_BAR\nc;\n#endif")), Some(0));
    assert_eq!(kc.analyze_code("x.S", &lines("#ifdef CONFIG_BAR\nd;\n#endif")), None);
    assert_eq!(
        kc.stat("BAR").unwrap().code_snippets,
        vec![
            "  #ifdef CONFIG_BAR\nb;\n#endif\n".to_string(),
            "#ifdef CONFIG_BAR\nc;\n#endif\n".to_string()
        ]
    );
    assert_eq!(kc.stat("FOO").unwrap().code_snippets, vec!["#ifdef CONFIG_FOO\n#endif\n".to_string()]);
    assert_eq!(kc.total_code_lines(), 8);
}

#[test]
fn code_files_are_c_and_headers() {
    assert!(is_code_file("main.c"));
    assert!(is_code_file("a.b.h"));
    assert!(!is_code_file("main.cc"));
    assert!(!is_code_file(".c"));
    assert!(!is_code_file("Makefile"));
}
