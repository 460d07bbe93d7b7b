use rusty_ui::calls::{
    hierarchy_answered, hierarchy_direction, Call, CallItem, CallTree, CallsView, Location, Openness, Place,
};

fn place(path: &str, line: u32) -> Place {
    Place {
        location: Location { path: path.to_string(), line, col: 4, external: false },
        end_col: 8,
        text: String::new(),
    }
}

fn item(name: &str, path: &str, line: u32) -> CallItem {
    CallItem {
        name: name.to_string(),
        kind: "function".to_string(),
        detail: None,
        place: place(path, line),
        item: format!("{{\"name\":\"{name}\"}}"),
    }
}

fn call(name: &str, path: &str, line: u32, at: u32) -> Call {
    Call { item: item(name, path, line), sites: vec![place(path, at)] }
}

/// One line per row: indentation for depth, then the name.
fn drawn(tree: &CallTree) -> Vec<String> {
    tree.rows
        .iter()
        .map(|row| format!("{}{}", "  ".repeat(row.depth as usize), row.call.item.name))
        .collect()
}

fn tree() -> CallTree {
    CallTree::new(7, item("gain", "src/lib.rs", 0), true)
}

#[test]
fn opening_a_row_asks_once_and_puts_its_calls_under_it() {
    let mut tree = tree();
    assert_eq!(tree.open(0).as_deref(), Some("{\"name\":\"gain\"}"));
    assert_eq!(tree.open(0), None, "already being asked");
    tree.answer(0, vec![call("main", "src/main.rs", 0, 2), call("step", "src/lib.rs", 4, 6)]);
    assert_eq!(drawn(&tree), ["gain", "  step", "  main"]);
    assert_eq!(tree.rows[0].open, Openness::Open);
    assert_eq!(tree.open(0), None, "already open");
}

/// An answer finds the row that asked by its number, wherever it is now.
#[test]
fn an_answer_lands_on_its_row_after_the_rows_above_it_moved() {
    let mut tree = tree();
    tree.open(0);
    tree.answer(0, vec![call("a", "src/a.rs", 0, 1), call("b", "src/b.rs", 0, 1)]);
    let b = tree.rows[2].id;
    let a = tree.rows[1].id;
    assert!(tree.open(b).is_some());
    tree.open(a);
    tree.answer(a, vec![call("a1", "src/a.rs", 9, 10)]);
    tree.answer(b, vec![call("b1", "src/b.rs", 9, 10)]);
    assert_eq!(drawn(&tree), ["gain", "  a", "    a1", "  b", "    b1"]);
}

#[test]
fn closing_a_row_takes_everything_under_it_and_nothing_beside_it() {
    let mut tree = tree();
    tree.open(0);
    tree.answer(0, vec![call("a", "src/a.rs", 0, 1), call("b", "src/b.rs", 0, 1)]);
    let a = tree.rows[1].id;
    tree.open(a);
    tree.answer(a, vec![call("a1", "src/a.rs", 9, 10)]);
    let a1 = tree.rows[2].id;
    tree.open(a1);
    tree.answer(a1, vec![call("a2", "src/a.rs", 20, 21)]);
    assert_eq!(drawn(&tree), ["gain", "  a", "    a1", "      a2", "  b"]);
    tree.close(a);
    assert_eq!(drawn(&tree), ["gain", "  a", "  b"]);
    assert_eq!(tree.rows[1].open, Openness::Closed);
    assert!(tree.open(a).is_some());
}

/// Closed while its answer was on the way, a row stays closed; an ask that
/// failed can be made again.
#[test]
fn a_late_answer_does_not_reopen_a_closed_row() {
    let mut tree = tree();
    tree.open(0);
    tree.close(0);
    tree.answer(0, vec![call("main", "src/main.rs", 0, 2)]);
    assert_eq!(drawn(&tree), ["gain"]);
    assert_eq!(tree.rows[0].open, Openness::Closed);

    tree.open(0);
    tree.failed(0);
    assert_eq!(tree.rows[0].open, Openness::Closed);
    assert!(tree.open(0).is_some());
    tree.answer(99, vec![call("x", "src/x.rs", 0, 0)]);
    assert_eq!(drawn(&tree), ["gain"], "no row 99");
}

/// A function that calls itself turns up under itself, and says so; one of
/// the same name elsewhere is not a recursion.
#[test]
fn a_function_under_itself_is_a_recursion() {
    let mut tree = tree();
    tree.open(0);
    tree.answer(0, vec![call("gain", "src/lib.rs", 0, 3), call("step", "src/lib.rs", 5, 6)]);
    let step = tree.rows[2].id;
    tree.open(step);
    tree.answer(step, vec![call("gain", "src/other.rs", 0, 7)]);
    assert_eq!(drawn(&tree), ["gain", "  gain", "  step", "    gain"]);
    assert!(!tree.recursive(0));
    assert!(tree.recursive(1));
    assert!(!tree.recursive(2));
    assert!(!tree.recursive(3), "another file's gain");
}

/// Closing a row and opening it again asks the server again, and the rows
/// it held are gone until the answer lands.
#[test]
fn a_closed_row_asks_again_when_reopened() {
    let mut tree = tree();
    tree.open(0);
    tree.answer(0, vec![call("a", "src/a.rs", 0, 1)]);
    tree.close(0);
    assert_eq!(tree.rows.len(), 1);
    assert_eq!(tree.open(0).as_deref(), Some("{\"name\":\"gain\"}"));
    assert_eq!(tree.rows[0].open, Openness::Asking);
}

/// Rows are numbered once: a new answer never reuses a number.
#[test]
fn row_numbers_are_never_reused() {
    let mut tree = tree();
    tree.open(0);
    tree.answer(0, vec![call("a", "src/a.rs", 0, 1)]);
    let first = tree.rows[1].id;
    tree.close(0);
    tree.open(0);
    tree.answer(0, vec![call("a", "src/a.rs", 0, 1)]);
    assert_ne!(tree.rows[1].id, first);
}

#[test]
fn a_row_goes_to_where_its_call_is_made_and_to_its_function() {
    let mut tree = tree();
    tree.open(0);
    tree.answer(0, vec![Call { item: item("main", "src/main.rs", 0), sites: vec![place("src/main.rs", 7), place("src/main.rs", 9)] }]);
    let main = tree.rows[1].id;
    let site = tree.call_site(main).expect("listed");
    assert_eq!((site.path.as_str(), site.line), ("src/main.rs", 7));
    let called = tree.called_place(main).expect("listed");
    assert_eq!((called.path.as_str(), called.line), ("src/main.rs", 0));
    // The first row made no call: it goes to its function.
    let root = tree.call_site(0).expect("listed");
    assert_eq!((root.path.as_str(), root.line), ("src/lib.rs", 0));
    assert!(tree.call_site(99).is_none());
}

#[test]
fn a_row_s_sites_are_named_by_caller_and_callee() {
    let mut tree = tree();
    tree.open(0);
    tree.answer(0, vec![Call { item: item("main", "src/main.rs", 0), sites: vec![place("src/main.rs", 7), place("src/main.rs", 9)] }]);
    let main = tree.rows[1].id;
    // Calls in: `main` calls `gain`.
    let list = tree.sites(main).expect("a row under the root");
    assert_eq!((list.caller.as_str(), list.callee.as_str()), ("main", "gain"));
    assert_eq!(list.places.iter().map(|p| p.location.line).collect::<Vec<_>>(), vec![7, 9]);
    assert!(tree.sites(0).is_none(), "the first row is under nothing");

    let mut out = CallTree::new(8, item("gain", "src/lib.rs", 0), false);
    out.open(0);
    out.answer(0, vec![call("clamp", "src/lib.rs", 20, 3)]);
    let clamp = out.rows[1].id;
    let list = out.sites(clamp).expect("a row under the root");
    assert_eq!((list.caller.as_str(), list.callee.as_str()), ("gain", "clamp"));
}

#[test]
fn turning_a_tree_starts_again_from_its_function() {
    let mut tree = tree();
    tree.open(0);
    tree.answer(0, vec![call("main", "src/main.rs", 0, 2)]);
    assert!(tree.turned(true, 9).is_none(), "already reads that way");
    let out = tree.turned(false, 9).expect("the other way");
    assert_eq!(drawn(&out), ["gain"]);
    assert!(!out.incoming);
    assert_eq!(out.serial, 9);
}

#[test]
fn a_hierarchy_answer_counts_only_for_the_ask_that_is_out() {
    let mut view = CallsView::Asking(3);
    assert!(hierarchy_direction(&view));
    hierarchy_answered(&mut view, 2, true, Some(item("old", "src/a.rs", 0)), "old".to_string());
    assert!(matches!(view, CallsView::Asking(3)));
    hierarchy_answered(&mut view, 3, false, None, "x".to_string());
    assert!(matches!(&view, CallsView::NoFunction(w) if w == "x"));

    let mut view = CallsView::Asking(4);
    hierarchy_answered(&mut view, 4, false, Some(item("gain", "src/lib.rs", 0)), String::new());
    match &view {
        CallsView::Tree(t) => {
            assert_eq!(drawn(t), ["gain"]);
            assert!(!t.incoming);
            assert!(!hierarchy_direction(&view));
        }
        _ => panic!("a tree"),
    }
}
