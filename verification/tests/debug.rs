use rusty_ui::debug::{absorb_update, removal_number, start_session, update_is_current, toggle_breakpoint, Breakpoint, DebugWatch, Frame, Placed};

fn bp(file: &str, line: u32) -> Breakpoint {
    Breakpoint { file: file.to_string(), line }
}

fn lines(list: &[Breakpoint]) -> Vec<(String, u32)> {
    list.iter().map(|b| (b.file.clone(), b.line)).collect()
}

#[test]
fn a_breakpoint_toggles() {
    let mut list = vec![bp("a.rs", 3)];
    assert!(!toggle_breakpoint(&mut list, "a.rs".to_string(), 7));
    assert_eq!(lines(&list), [("a.rs".to_string(), 3), ("a.rs".to_string(), 7)]);
    assert!(toggle_breakpoint(&mut list, "a.rs".to_string(), 7));
    assert_eq!(lines(&list), [("a.rs".to_string(), 3)], "toggled twice, as it was");
}

#[test]
fn a_removed_breakpoint_is_cleared_by_the_debugger_s_number() {
    let placed = [Placed { file: "a.rs".to_string(), line: 3, requested: None, number: Some(2) }];
    assert_eq!(removal_number(&placed, "a.rs", 3, true), Some(2));
    assert_eq!(removal_number(&placed, "a.rs", 3, false), None);
    assert_eq!(removal_number(&placed, "b.rs", 3, true), None);
}

#[test]
fn the_dot_follows_where_the_debugger_put_it_and_stops_reveal_once() {
    let mut watch = DebugWatch { placed: false, stopped_at: None };
    let mut list = vec![bp("a.rs", 3), bp("b.rs", 9)];
    let moved = [Placed { file: "a.rs".to_string(), line: 5, requested: Some(3), number: Some(1) }];
    let frame = Frame { address: "0x10".to_string(), file: Some("a.rs".to_string()), line: Some(5) };
    let first = absorb_update(&mut watch, &mut list, true, false, &moved, Some(&frame));
    assert!(first.place_standing);
    assert_eq!(lines(&list), [("a.rs".to_string(), 5), ("b.rs".to_string(), 9)]);
    assert!(matches!(first.reveal, Some((f, 5)) if f == "a.rs"));
    let again = absorb_update(&mut watch, &mut list, true, false, &[], Some(&frame));
    assert!(!again.place_standing, "placed once");
    assert!(again.reveal.is_none(), "not newly stopped");
    absorb_update(&mut watch, &mut list, true, true, &[], None);
    assert!(watch.stopped_at.is_none());
    let third = absorb_update(&mut watch, &mut list, true, false, &[], Some(&frame));
    assert!(third.reveal.is_some(), "stopped again in the same place");
}

#[test]
fn a_replaced_session_s_late_updates_are_dropped() {
    let mut epoch = 4;
    let first = start_session(&mut epoch);
    let second = start_session(&mut epoch);
    assert_eq!((first, second, epoch), (5, 6, 6));
    assert!(update_is_current(epoch, second));
    assert!(!update_is_current(epoch, first));
}
