use rusty_ui::math::{
    load_math_sheet, own_work, select_math_row, set_math_row, sheet_still_wanted, toggle_math_row, SheetLoad,
};

fn rows(list: &[&str]) -> Vec<String> {
    list.iter().map(|r| r.to_string()).collect()
}

#[test]
fn a_project_s_sheet_is_read_once() {
    assert!(matches!(load_math_sheet(Some("/p"), Some("/p"), true), SheetLoad::Keep));
    assert!(matches!(load_math_sheet(Some("/q"), Some("/p"), true), SheetLoad::Ask(r) if r == "/q"));
    assert!(matches!(load_math_sheet(Some("/q"), None, false), SheetLoad::Keep));
    assert!(matches!(load_math_sheet(None, Some("/p"), true), SheetLoad::Forget));
    assert!(matches!(load_math_sheet(None, None, true), SheetLoad::Keep));
    assert!(sheet_still_wanted(Some("/q"), "/q"));
    assert!(!sheet_still_wanted(Some("/r"), "/q"));
    assert!(!sheet_still_wanted(None, "/q"));
}

#[test]
fn only_a_real_change_to_a_row_counts() {
    let mut sheet = rows(&["q = 1", "v = 2"]);
    assert!(!set_math_row(&mut sheet, 0, "q = 1"));
    assert!(set_math_row(&mut sheet, 1, "v = 3"));
    assert_eq!(sheet, rows(&["q = 1", "v = 3"]));
    assert!(!set_math_row(&mut sheet, 5, "x"));
    assert_eq!(sheet.len(), 2);
}

#[test]
fn a_row_past_the_list_is_shown_until_toggled() {
    let mut hidden = vec![false];
    toggle_math_row(&mut hidden, 3);
    assert_eq!(hidden, vec![false, false, false, true]);
    toggle_math_row(&mut hidden, 0);
    assert_eq!(hidden, vec![true, false, false, true]);
    toggle_math_row(&mut hidden, 3);
    assert_eq!(hidden, vec![true, false, false, false]);
}

#[test]
fn only_rows_nobody_else_has_are_asked_about() {
    let examples = vec![rows(&["q = quat(1, 0, 0, 0)"]), rows(&["v = vec3(1, 2, 3)"])];
    assert!(own_work(&rows(&["my = 1"]), &examples));
    assert!(!own_work(&rows(&["v = vec3(1, 2, 3)"]), &examples), "an example is nobody's work");
    assert!(!own_work(&rows(&["", "  "]), &examples), "blank rows are no work");
    assert!(!own_work(&Vec::new(), &examples));
}

#[test]
fn selecting_again_moves_nothing() {
    let mut selected = None;
    assert!(select_math_row(&mut selected, Some(2)));
    assert_eq!(selected, Some(2));
    assert!(!select_math_row(&mut selected, Some(2)));
    assert!(select_math_row(&mut selected, None));
    assert_eq!(selected, None);
}

#[test]
fn toggling_a_row_twice_leaves_it_as_it_was() {
    let mut hidden = vec![true, false, true];
    toggle_math_row(&mut hidden, 1);
    toggle_math_row(&mut hidden, 1);
    assert_eq!(hidden, vec![true, false, true]);
}
