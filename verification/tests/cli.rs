//! The command line and its help.
use zftop::cli::{parse_args, DEFAULT_SOURCE, HELP};

fn args(list: &[&str]) -> Vec<String> {
    list.iter().map(|s| s.to_string()).collect()
}

#[test]
fn help_documents_pools_tree_controls() {
    let stdout = HELP;
    let lines: Vec<&str> = stdout.lines().collect();

    let pools_start = lines
        .iter()
        .position(|line| line.trim() == "(Pools tree)")
        .unwrap_or_else(|| panic!("missing Pools tree section: {stdout}"));
    let pools_detail_start = lines
        .iter()
        .position(|line| line.trim() == "(Pools detail)")
        .unwrap_or_else(|| panic!("missing Pools detail section: {stdout}"));
    let datasets_start = lines
        .iter()
        .position(|line| line.trim() == "(Datasets tree)")
        .unwrap_or_else(|| panic!("missing Datasets tree section: {stdout}"));

    assert!(
        pools_start < pools_detail_start && pools_detail_start < datasets_start,
        "Pools tree/detail sections should come before Datasets tree: {stdout}"
    );

    let pools_tree_block = lines[pools_start..pools_detail_start].join("\n");
    assert!(
        pools_tree_block.contains("Select row"),
        "Pools tree help should describe row selection: {pools_tree_block}"
    );
    assert!(
        pools_tree_block.contains("Jump to first / last visible"),
        "Pools tree help should describe visible-row Home/End behavior: {pools_tree_block}"
    );
    assert!(
        pools_tree_block.contains("Expand selected pool"),
        "Pools tree help should document pool expansion: {pools_tree_block}"
    );
    assert!(
        pools_tree_block.contains("Collapse selected pool, or jump to parent pool"),
        "Pools tree help should document collapse / parent-jump behavior: {pools_tree_block}"
    );

    let pools_detail_block = lines[pools_detail_start..datasets_start].join("\n");
    assert!(
        pools_detail_block.contains("Return to tree"),
        "Pools detail help should describe returning to the tree: {pools_detail_block}"
    );
    assert!(
        !stdout.contains("(Pools list)"),
        "stale list wording should be gone: {stdout}"
    );
    assert!(
        !stdout.contains("Select pool"),
        "stale pool-only selection wording should be gone: {stdout}"
    );
}

#[test]
fn defaults_without_arguments() {
    for list in [args(&[]), args(&["zftop"])] {
        let o = parse_args(&list);
        assert_eq!(o.source, DEFAULT_SOURCE);
        assert_eq!(o.source, "/proc/spl/kstat/zfs/arcstats");
        assert_eq!(o.meminfo, None);
        assert_eq!(o.interval_ms, 1000);
        assert!(!o.help);
    }
}

#[test]
fn all_options() {
    let o = parse_args(&args(&[
        "zftop", "--source", "a", "--meminfo", "m", "-n", "500", "--help",
    ]));
    assert_eq!(o.source, "a");
    assert_eq!(o.meminfo.as_deref(), Some("m"));
    assert_eq!(o.interval_ms, 500);
    assert!(o.help);
    assert_eq!(parse_args(&args(&["zftop", "--interval", "2000"])).interval_ms, 2000);
}

#[test]
fn later_options_win() {
    let o = parse_args(&args(&["zftop", "--source", "a", "--source", "b", "-n", "1", "-n", "2"]));
    assert_eq!(o.source, "b");
    assert_eq!(o.interval_ms, 2);
}

#[test]
fn value_is_not_taken_for_an_option() {
    let o = parse_args(&args(&["zftop", "--source", "--help", "--meminfo", "--source"]));
    assert_eq!(o.source, "--help");
    assert_eq!(o.meminfo.as_deref(), Some("--source"));
    assert!(!o.help);
}

#[test]
fn missing_value_and_unknown_option_are_passed_over() {
    let o = parse_args(&args(&["zftop", "--colour", "x", "--source"]));
    assert_eq!(o.source, DEFAULT_SOURCE);
    assert_eq!(parse_args(&args(&["--help"])).help, false);
}

#[test]
fn interval_that_is_no_number_is_passed_over() {
    assert_eq!(parse_args(&args(&["zftop", "-n", "soon"])).interval_ms, 1000);
    assert_eq!(parse_args(&args(&["zftop", "-n", "-5"])).interval_ms, 1000);
    assert_eq!(parse_args(&args(&["zftop", "-n", "0"])).interval_ms, 0);
}
