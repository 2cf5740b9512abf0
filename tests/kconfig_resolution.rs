use kernel_counter::kconfig::{KconfigComponentType, KconfigCounter, KconfigScan};

const ENTRY: &str = "/opt/linux-6.9.5/arch/riscv/Kconfig";

fn counter() -> KconfigCounter {
    KconfigCounter::new("riscv".to_string(), "6.9.5".to_string(), ENTRY.to_string())
}

fn feed(kc: &mut KconfigCounter, lines: &[&str]) -> Vec<String> {
    let mut scan = KconfigScan::new();
    let mut sources = Vec::new();
    for line in lines {
        if let Some(target) = kc.parse_kconfig(&mut scan, line) {
            sources.push(target);
        }
    }
    sources
}

#[test]
fn single_bool_component() {
    let mut kc = counter();
    let sources = feed(&mut kc, &["config FOO", "\tbool", "\tdefault y"]);
    assert!(sources.is_empty());
    assert_eq!(kc.total_components(), 1);
    let st = kc.stat("FOO").unwrap();
    assert_eq!(st.value_type, KconfigComponentType::Bool);
    assert_eq!(st.default_value, vec!["y".to_string()]);
    assert_eq!(st.count, 1);
}

#[test]
fn component_accumulates_across_sourced_files() {
    let mut kc = counter();
    let sources = feed(
        &mut kc,
        &["config BAR", "\tdepends on BAZ", "", "source \"arch/riscv/Kconfig.sub\""],
    );
    assert_eq!(sources, vec!["/opt/linux-6.9.5/arch/riscv/Kconfig.sub".to_string()]);
    assert!(kc.enter_source(&sources[0]));
    feed(&mut kc, &["config BAR", "\tselect QUX"]);
    assert_eq!(kc.total_components(), 1);
    let st = kc.stat("BAR").unwrap();
    assert_eq!(st.depend, vec!["BAZ".to_string()]);
    assert_eq!(st.select, vec!["QUX".to_string()]);
    assert_eq!(st.count, 2);
    assert_eq!(kc.code_dir_list(), vec!["/opt/linux-6.9.5/arch/riscv".to_string()]);
}

#[test]
fn count_matches_header_lines() {
    let mut kc = counter();
    feed(&mut kc, &["config A", "config B", "config A"]);
    feed(&mut kc, &["config A", "# config A", "menuconfig A"]);
    assert_eq!(kc.stat("A").unwrap().count, 3);
    assert_eq!(kc.stat("B").unwrap().count, 1);
    assert_eq!(kc.component_names(), vec!["A".to_string(), "B".to_string()]);
}

#[test]
fn def_bool_replaces_defaults() {
    let mut kc = counter();
    feed(&mut kc, &["config X", "\tdefault m", "\tdefault n if Y", "\tdef_bool y"]);
    let st = kc.stat("X").unwrap();
    assert_eq!(st.default_value, vec!["y".to_string()]);
    assert_eq!(st.value_type, KconfigComponentType::Bool);
}

#[test]
fn new_component_takes_value_type() {
    let mut kc = counter();
    feed(&mut kc, &["config N", "\tint \"count\"", "\tdefault 4 if A"]);
    let st = kc.stat("N").unwrap();
    assert_eq!(st.value_type, KconfigComponentType::Value);
    assert_eq!(st.default_value, vec!["4 if A".to_string()]);
}

#[test]
fn attributes_without_component_are_ignored() {
    let mut kc = counter();
    feed(&mut kc, &["\tbool", "\tdefault y", "\tselect Q", "\tdepends on R"]);
    assert_eq!(kc.total_components(), 0);
    assert!(kc.stat("Q").is_none());
}

#[test]
fn bare_config_after_blank_line_switches_component() {
    let mut kc = counter();
    feed(&mut kc, &["config FOO", "config BAR", "", "config\tFOO", "\tdefault 1"]);
    assert_eq!(kc.stat("FOO").unwrap().default_value, vec!["1".to_string()]);
    assert!(kc.stat("BAR").unwrap().default_value.is_empty());
    assert_eq!(kc.stat("FOO").unwrap().count, 1);
}

#[test]
fn bare_config_without_blank_line_is_ignored() {
    let mut kc = counter();
    feed(&mut kc, &["config FOO", "config BAR", "config\tFOO", "\tdefault 1"]);
    assert!(kc.stat("FOO").unwrap().default_value.is_empty());
    assert_eq!(kc.stat("BAR").unwrap().default_value, vec!["1".to_string()]);
}

#[test]
fn source_outside_arch_is_not_entered() {
    let mut kc = counter();
    let sources = feed(&mut kc, &["source \"drivers/Kconfig\""]);
    assert_eq!(sources, vec!["/opt/linux-6.9.5/drivers/Kconfig".to_string()]);
    assert!(!kc.enter_source(&sources[0]));
    assert!(kc.code_dir_list().is_empty());
}

#[test]
fn check_all_enters_every_source() {
    let mut kc = counter();
    kc.set_check_all();
    assert!(kc.enter_source("/opt/linux-6.9.5/drivers/Kconfig"));
    assert!(kc.enter_source("/opt/linux-6.9.5/drivers/net/Kconfig"));
    assert!(kc.enter_source("/opt/linux-6.9.5/drivers/Kconfig.debug"));
    assert_eq!(
        kc.code_dir_list(),
        vec!["/opt/linux-6.9.5/drivers".to_string(), "/opt/linux-6.9.5/drivers/net".to_string()]
    );
}

#[test]
fn candidate_dirs_are_parents_of_entered_files() {
    let mut kc = counter();
    let entered = [
        "/opt/linux-6.9.5/arch/riscv/kvm/Kconfig",
        "/opt/linux-6.9.5/arch/riscv/Kconfig.socs",
    ];
    for p in entered {
        assert!(kc.enter_source(p));
    }
    for d in kc.code_dir_list() {
        assert!(entered.iter().any(|p| p.rsplit_once('/').unwrap().0 == d));
    }
    assert_eq!(kc.code_dir_list().len(), 2);
}

#[test]
fn source_paths_start_at_kernel_root() {
    let mut kc = KconfigCounter::new(
        "x86".to_string(),
        "6.1.0".to_string(),
        "/src/linux-6.1.0/arch/x86/Kconfig".to_string(),
    );
    let sources = feed(&mut kc, &["  source \"arch/x86/Kconfig.cpu\"  "]);
    assert_eq!(sources, vec!["/src/linux-6.1.0/arch/x86/Kconfig.cpu".to_string()]);
    assert_eq!(kc.kernel_version(), "6.1.0");
    assert_eq!(kc.arch_name(), "x86");
}

#[test]
fn source_without_kernel_root_climbs_to_top() {
    let mut kc = KconfigCounter::new(
        "x86".to_string(),
        "6.1.0".to_string(),
        "/src/tree/arch/x86/Kconfig".to_string(),
    );
    let sources = feed(&mut kc, &["source \"arch/x86/Kconfig.cpu\""]);
    assert_eq!(sources, vec!["/arch/x86/Kconfig.cpu".to_string()]);
}

#[test]
fn comment_and_blank_lines_do_nothing() {
    let mut kc = counter();
    let sources = feed(&mut kc, &["# source \"arch/x\"", "", "   ", "#config Z"]);
    assert!(sources.is_empty());
    assert_eq!(kc.total_components(), 0);
}
