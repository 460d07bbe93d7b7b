use rusty_ui::crates::{upgrade_crate, upgrade_finished};

#[test]
fn an_upgrade_is_cargo_add_at_the_version() {
    let plan = upgrade_crate("serde", "1.0.200", false).expect("a plan");
    assert_eq!(plan.program, "cargo");
    assert_eq!(plan.args, vec!["add".to_string(), "serde@1.0.200".to_string()]);
    assert_eq!(plan.display, "cargo add serde@1.0.200");
    assert_eq!(plan.rationale, "crates.upgrade-rationale");
    assert!(plan.warning.is_none());
}

#[test]
fn no_upgrade_while_a_tool_runs_or_without_a_version() {
    assert!(upgrade_crate("serde", "1.0.200", true).is_none());
    assert!(upgrade_crate("serde", "", false).is_none());
}

#[test]
fn only_a_clean_exit_refreshes() {
    assert!(upgrade_finished(Some(0)));
    assert!(!upgrade_finished(Some(101)));
    assert!(!upgrade_finished(None));
}
