use rusty_ui::lsp::{
    apply_lsp_event, begin_repaint, completion_verdict, dismiss_completion, hint_lines, hints_cover,
    hover_card, is_rust_path, land_repaint, latest_ask, request_completion, schedule_pulse,
    semantic_covers, semantic_lines, worst_at, CompletionAsk, DiagSeverity, EditPulse,
    EditRange, FileDiagnostic, Follow, HealthLevel, HintSet, LspEvent, LspState, LspStatus,
    Verdict, repaint_landed, PaintSlot, Repainted, ask_fixes, attach_fixes, actions_landed, pulse_due, save_due,
    FixesLanded,
};

fn diag(severity: DiagSeverity, line: u32, from: u32, to: u32) -> FileDiagnostic {
    FileDiagnostic {
        severity,
        message: format!("{severity:?} at {from}..{to}"),
        source: None,
        code: None,
        start_line: line,
        start_col: from,
        end_line: line,
        end_col: to,
    }
}

fn covering_cases() {
    let diagnostics = [diag(DiagSeverity::Error, 3, 4, 9)];
    assert!(worst_at(&diagnostics, 3, 4).is_some(), "the first column is inside");
    assert!(worst_at(&diagnostics, 3, 8).is_some());
    assert!(worst_at(&diagnostics, 3, 9).is_none());
    assert!(worst_at(&diagnostics, 3, 3).is_none());
    assert!(worst_at(&diagnostics, 2, 5).is_none(), "another line entirely");
}

fn outranking_cases() {
    let warning_first = [diag(DiagSeverity::Warning, 1, 0, 10), diag(DiagSeverity::Error, 1, 2, 6)];
    let error_first = [diag(DiagSeverity::Error, 1, 2, 6), diag(DiagSeverity::Warning, 1, 0, 10)];
    for diagnostics in [warning_first, error_first] {
        let found = worst_at(&diagnostics, 1, 4).expect("one covers this");
        assert!(matches!(found.severity, DiagSeverity::Error), "the warning won at column 4");
    }
}

fn warning_cases() {
    let diagnostics = [diag(DiagSeverity::Warning, 1, 0, 10), diag(DiagSeverity::Error, 1, 2, 6)];
    let found = worst_at(&diagnostics, 1, 8).expect("the warning covers this");
    assert!(matches!(found.severity, DiagSeverity::Warning));
}

#[test]
fn lsp_only_a_diagnostic_covering_the_position_counts() {
    covering_cases();
}

#[test]
fn hover_only_a_diagnostic_covering_the_position_counts() {
    covering_cases();
}

#[test]
fn lsp_an_error_outranks_a_warning_at_the_same_place() {
    outranking_cases();
}

#[test]
fn hover_an_error_outranks_a_warning_at_the_same_place() {
    outranking_cases();
}

#[test]
fn lsp_a_warning_still_shows_where_no_error_covers_it() {
    warning_cases();
}

#[test]
fn hover_a_warning_still_shows_where_no_error_covers_it() {
    warning_cases();
}

/// A span over several lines covers the lines between.
#[test]
fn a_span_over_lines_covers_what_is_between() {
    let mut d = diag(DiagSeverity::Warning, 2, 7, 0);
    d.end_line = 4;
    d.end_col = 1;
    let diagnostics = [d];
    assert!(worst_at(&diagnostics, 3, 0).is_some());
    assert!(worst_at(&diagnostics, 2, 6).is_none());
    assert!(worst_at(&diagnostics, 4, 1).is_none());
}

#[test]
fn only_rust_is_announced() {
    assert!(is_rust_path("src/main.rs"));
    assert!(!is_rust_path(".git/info/exclude"));
    assert!(!is_rust_path("rs"));
}

#[test]
fn a_long_file_is_asked_about_around_the_lines_drawn() {
    assert_eq!(semantic_lines(2000, 10, 50), None);
    assert_eq!(semantic_lines(5000, 100, 150), Some((0, 550)));
    assert_eq!(semantic_lines(5000, 1000, 4900), Some((600, 5000)));
    assert_eq!(hint_lines(2000, 10, 50), (0, 2000));
    assert_eq!(hint_lines(5000, 1000, 1100), (600, 1500));
    assert!(semantic_covers(100, None, 0, 100));
    assert!(semantic_covers(5000, Some((600, 1500)), 700, 800));
    assert!(!semantic_covers(5000, Some((600, 1500)), 500, 800));
    assert!(!semantic_covers(5000, None, 0, 1));
    let set = HintSet { path: "a.rs".to_string(), first: 0, end: 100 };
    assert!(hints_cover(Some("a.rs"), 5000, Some(&set), 10, 20));
    assert!(!hints_cover(Some("b.rs"), 50, Some(&set), 10, 20));
    assert!(!hints_cover(Some("a.rs"), 5000, Some(&set), 10, 200));
    assert!(hints_cover(Some("a.rs"), 50, Some(&set), 10, 200));
}

#[test]
fn only_the_word_being_typed_gets_its_completions() {
    let mut ask = CompletionAsk { count: 0, anchor: None };
    assert_eq!(request_completion(&mut ask, false, "a.rs", 1, 4), None, "no server, no ask");
    let first = request_completion(&mut ask, true, "a.rs", 1, 4).unwrap();
    let second = request_completion(&mut ask, true, "a.rs", 1, 4).unwrap();
    assert_eq!(latest_ask(&ask), Some(second));
    assert_eq!(completion_verdict(&ask, "a.rs", 1, 4, Some("a.rs"), first, Some(3), None, true), Verdict::Show);
    assert_eq!(completion_verdict(&ask, "a.rs", 1, 4, Some("a.rs"), first, Some(3), Some(second), true), Verdict::Drop);
    assert_eq!(completion_verdict(&ask, "a.rs", 1, 4, Some("a.rs"), first, Some(0), None, true), Verdict::Drop);
    assert_eq!(completion_verdict(&ask, "a.rs", 1, 4, Some("a.rs"), second, Some(0), None, true), Verdict::Clear);
    assert_eq!(completion_verdict(&ask, "a.rs", 1, 4, Some("a.rs"), second, None, None, true), Verdict::Retry);
    assert_eq!(completion_verdict(&ask, "a.rs", 1, 4, Some("a.rs"), second, None, None, false), Verdict::Drop);
    assert_eq!(completion_verdict(&ask, "a.rs", 1, 5, Some("a.rs"), second, Some(3), None, true), Verdict::Drop);
    assert_eq!(completion_verdict(&ask, "a.rs", 1, 4, Some("b.rs"), second, Some(3), None, true), Verdict::Drop);
    dismiss_completion(&mut ask);
    assert_eq!(latest_ask(&ask), None);
    assert_eq!(completion_verdict(&ask, "a.rs", 1, 4, Some("a.rs"), second, Some(3), None, true), Verdict::Drop);
}

#[test]
fn a_later_keystroke_supersedes_the_pulse() {
    let mut pulse = EditPulse { generation: 7, save_generation: 2, occurrences: true };
    let first = schedule_pulse(&mut pulse, true, true);
    assert_eq!(first.pulse, 8);
    assert_eq!(first.save, Some(3));
    assert!(!pulse.occurrences);
    let second = schedule_pulse(&mut pulse, false, true);
    assert_eq!(second.pulse, 9);
    assert_eq!(second.save, None);
    assert_ne!(pulse.generation, first.pulse);
}

#[test]
fn one_repaint_is_out_at_a_time() {
    let mut slot = None;
    assert!(begin_repaint(&mut slot, 1, "a.rs"));
    assert!(!begin_repaint(&mut slot, 2, "a.rs"));
    assert!(slot.as_ref().unwrap().again);
    assert!(land_repaint(&mut slot, 2).is_none(), "not the one in flight");
    let landed = land_repaint(&mut slot, 1).expect("the one in flight");
    assert!(landed.again);
    assert!(slot.is_none());
}

#[test]
fn a_hover_card_puts_the_problem_above_the_type() {
    let mut problem = diag(DiagSeverity::Error, 1, 2, 6);
    problem.code = Some("E0425".to_string());
    problem.message = "cannot find value".to_string();
    let card = hover_card("a.rs", 1, 3, Some("a.rs"), Some(&problem), Some("fn x()"), None).unwrap();
    assert_eq!(card.text, "**error[E0425]**\n\ncannot find value\n\n---\n\nfn x()");
    assert_eq!(card.range, EditRange { start_line: 1, start_col: 2, end_line: 1, end_col: 6 });
    let card = hover_card("a.rs", 1, 3, Some("a.rs"), None, Some("fn x()"), None).unwrap();
    assert_eq!(card.text, "fn x()");
    assert_eq!(card.range, EditRange { start_line: 1, start_col: 3, end_line: 1, end_col: 4 });
    assert!(hover_card("a.rs", 1, 3, Some("a.rs"), None, None, None).is_none());
    assert!(hover_card("a.rs", 1, 3, Some("b.rs"), None, Some("fn x()"), None).is_none(), "the file changed");
    assert!(hover_card("a.rs", 1, 3, None, None, Some("fn x()"), None).is_none());
}

#[test]
fn the_server_s_word_on_a_file_replaces_the_last() {
    let mut state = LspState { status: LspStatus::Starting, health: None, progress: None, diagnostics: Vec::new() };
    let follow = apply_lsp_event(&mut state, LspEvent::Ready);
    assert_eq!(state.status, LspStatus::Ready);
    assert!(matches!(follow.as_slice(), [Follow::AnnounceOpenFiles]));
    apply_lsp_event(&mut state, LspEvent::Diagnostics { path: "a.rs".to_string(), items: vec![diag(DiagSeverity::Error, 1, 0, 1)] });
    apply_lsp_event(&mut state, LspEvent::Diagnostics { path: "b.rs".to_string(), items: vec![diag(DiagSeverity::Warning, 1, 0, 1)] });
    apply_lsp_event(&mut state, LspEvent::Diagnostics { path: "a.rs".to_string(), items: vec![diag(DiagSeverity::Hint, 2, 0, 1), diag(DiagSeverity::Hint, 3, 0, 1)] });
    assert_eq!(state.diagnostics.len(), 2);
    assert_eq!(state.diagnostics[0].items.len(), 2);
    apply_lsp_event(&mut state, LspEvent::Diagnostics { path: "a.rs".to_string(), items: Vec::new() });
    assert_eq!(state.diagnostics.len(), 1);
    assert_eq!(state.diagnostics[0].path, "b.rs");

    let said = apply_lsp_event(&mut state, LspEvent::Health { level: HealthLevel::Warning, message: Some("no crate".to_string()) });
    assert!(matches!(said.as_slice(), [Follow::Warn(t)] if t == "rust-analyzer: no crate"));
    let again = apply_lsp_event(&mut state, LspEvent::Health { level: HealthLevel::Warning, message: Some("no crate".to_string()) });
    assert!(again.is_empty(), "said once");
    apply_lsp_event(&mut state, LspEvent::Health { level: HealthLevel::Healthy, message: None });
    assert!(state.health.is_none());

    let missing = apply_lsp_event(&mut state, LspEvent::Unavailable { message: "not found".to_string(), install: Some("rustup component add rust-analyzer".to_string()) });
    assert_eq!(state.status, LspStatus::Missing);
    assert!(matches!(missing.as_slice(), [Follow::Warn(a), Follow::Say(b)] if a == "not found" && b == "$ rustup component add rust-analyzer"));

    state.status = LspStatus::Ready;
    state.progress = Some("indexing".to_string());
    apply_lsp_event(&mut state, LspEvent::Exited);
    assert_eq!(state.status, LspStatus::Off);
    assert!(state.progress.is_none());
}

#[test]
fn a_landed_repaint_is_placed_reset_or_dropped() {
    let ask = PaintSlot { serial: 4, path: "src/main.rs".to_string(), again: true };
    assert_eq!(repaint_landed(&ask, true, Some("src/main.rs"), true), Repainted::Placed { again: true });
    assert_eq!(repaint_landed(&ask, true, Some("src/main.rs"), false), Repainted::Reset);
    assert_eq!(repaint_landed(&ask, false, Some("src/main.rs"), true), Repainted::Dropped { again: true });
    assert_eq!(repaint_landed(&ask, true, Some("src/lib.rs"), true), Repainted::Dropped { again: true });
    let quiet = PaintSlot { serial: 5, path: "src/main.rs".to_string(), again: false };
    assert_eq!(repaint_landed(&quiet, true, None, true), Repainted::Dropped { again: false });
}

#[test]
fn of_a_burst_of_keys_only_the_last_pulse_and_write_are_due() {
    let mut pulse = EditPulse { generation: 0, save_generation: 0, occurrences: false };
    let a = schedule_pulse(&mut pulse, true, true);
    let b = schedule_pulse(&mut pulse, true, true);
    let c = schedule_pulse(&mut pulse, true, true);
    assert!(!pulse_due(&pulse, a.pulse) && !pulse_due(&pulse, b.pulse) && pulse_due(&pulse, c.pulse));
    assert!(!save_due(&pulse, a.save.unwrap(), "a.rs", Some("a.rs")));
    assert!(!save_due(&pulse, b.save.unwrap(), "a.rs", Some("a.rs")));
    assert!(save_due(&pulse, c.save.unwrap(), "a.rs", Some("a.rs")));
    assert!(!save_due(&pulse, c.save.unwrap(), "a.rs", Some("b.rs")), "another file is on screen");
    assert_eq!(pulse.generation, 3);
}

#[test]
fn fixes_grow_onto_the_card_that_asked_for_them() {
    let problem = diag(DiagSeverity::Error, 1, 2, 6);
    assert!(ask_fixes(Some(&problem)));
    assert!(!ask_fixes(None));
    let mut card = hover_card("a.rs", 1, 3, Some("a.rs"), Some(&problem), None, None);
    assert!(card.as_ref().unwrap().fixes.is_empty());
    attach_fixes(&mut card, "a.rs", 1, 4, vec!["Import".to_string()]);
    assert!(card.as_ref().unwrap().fixes.is_empty(), "the pointer moved on");
    attach_fixes(&mut card, "a.rs", 1, 3, Vec::new());
    assert!(card.as_ref().unwrap().fixes.is_empty(), "none offered");
    attach_fixes(&mut card, "a.rs", 1, 3, vec!["Implement missing members".to_string()]);
    assert_eq!(card.as_ref().unwrap().fixes, vec!["Implement missing members".to_string()]);
    let mut none = None;
    attach_fixes(&mut none, "a.rs", 1, 3, vec!["Import".to_string()]);
    assert!(none.is_none());
}

#[test]
fn quick_fixes_at_the_caret_show_say_none_or_drop() {
    assert_eq!(actions_landed(Some("a.rs"), "a.rs", 2), FixesLanded::Show);
    assert_eq!(actions_landed(Some("a.rs"), "a.rs", 0), FixesLanded::NoFixes);
    assert_eq!(actions_landed(Some("b.rs"), "a.rs", 2), FixesLanded::Dropped);
    assert_eq!(actions_landed(None, "a.rs", 2), FixesLanded::Dropped);
}
