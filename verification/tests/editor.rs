use rusty_ui::editor::{
    activate_tab, clear_editor_transients, close_tab, close_under, schedule_search, search_due, search_wanted, Caret,
    Transients, drop_moved, follow_move, front_parked, rekey, Activation, Keyed, Screen,
    close_in_strip, follow_paths, host_is_mac, host_is_windows, neighbour_after_close, open_beside,
    reset_group, restore_order, retarget, settle_groups, split_active, tabs_key, tabs_under,
    toggle_tree, FindBar, Group, Layout, Strip,
};
use rusty_ui::save::{GroupDocs, OpenDoc, ParkedTab};

fn tabs(names: &[&str]) -> Vec<String> {
    names.iter().map(|n| n.to_string()).collect()
}

fn next_tab_case() {
    let strip = tabs(&["a.rs", "b.rs", "c.rs"]);
    assert_eq!(neighbour_after_close(&strip, "b.rs").as_deref(), Some("c.rs"));
}

fn last_tab_case() {
    let strip = tabs(&["a.rs", "b.rs"]);
    assert_eq!(neighbour_after_close(&strip, "b.rs").as_deref(), Some("a.rs"));
}

fn only_tab_case() {
    let strip = tabs(&["a.rs"]);
    assert_eq!(neighbour_after_close(&strip, "a.rs"), None);
}

fn missing_tab_case() {
    let strip = tabs(&["a.rs"]);
    assert_eq!(neighbour_after_close(&strip, "zz.rs"), None);
}

fn moved_path_case() {
    assert_eq!(
        retarget("src/main.rs", "src", "firmware/src", true).as_deref(),
        Some("firmware/src/main.rs")
    );
    assert_eq!(retarget("src", "src", "firmware/src", true).as_deref(), Some("firmware/src"));
    assert_eq!(retarget("src2/a.rs", "src", "firmware/src", true), None);
    assert_eq!(retarget("a.rs", "a.rs", "lib/b.rs", false).as_deref(), Some("lib/b.rs"));
    assert_eq!(retarget("a.rs/x", "a.rs", "b.rs", false), None);
    assert_eq!(retarget("README.md", "src", "firmware/src", true), None);
}

#[test]
fn controller_the_next_tab_inherits_the_screen() {
    next_tab_case();
}

#[test]
fn editor_the_next_tab_inherits_the_screen() {
    next_tab_case();
}

#[test]
fn mod_the_next_tab_inherits_the_screen() {
    next_tab_case();
}

#[test]
fn controller_the_last_tab_falls_back_to_the_previous() {
    last_tab_case();
}

#[test]
fn editor_the_last_tab_falls_back_to_the_previous() {
    last_tab_case();
}

#[test]
fn mod_the_last_tab_falls_back_to_the_previous() {
    last_tab_case();
}

#[test]
fn controller_closing_the_only_tab_leaves_nothing() {
    only_tab_case();
}

#[test]
fn editor_closing_the_only_tab_leaves_nothing() {
    only_tab_case();
}

#[test]
fn mod_closing_the_only_tab_leaves_nothing() {
    only_tab_case();
}

#[test]
fn controller_closing_a_tab_not_in_the_strip_is_a_no_op() {
    missing_tab_case();
}

#[test]
fn editor_closing_a_tab_not_in_the_strip_is_a_no_op() {
    missing_tab_case();
}

#[test]
fn mod_closing_a_tab_not_in_the_strip_is_a_no_op() {
    missing_tab_case();
}

/// A directory takes everything under it; a file takes only itself; and
/// `src2` is not under `src`, however the prefix reads.
#[test]
fn editor_a_moved_path_carries_what_is_under_it_and_nothing_beside_it() {
    moved_path_case();
}

#[test]
fn mod_a_moved_path_carries_what_is_under_it_and_nothing_beside_it() {
    moved_path_case();
}

/// A move renames every remembered path it took along, and nothing else.
#[test]
fn a_move_renames_the_tabs_it_took_along() {
    let mut list = tabs(&["src/main.rs", "src2/a.rs", "src", "README.md"]);
    follow_paths(&mut list, "src", "firmware/src", true);
    assert_eq!(list, tabs(&["firmware/src/main.rs", "src2/a.rs", "firmware/src", "README.md"]));
}

/// The tabs a deleted directory takes with it.
#[test]
fn a_deleted_directory_takes_its_tabs() {
    let strip = tabs(&["src/main.rs", "src2/a.rs", "src/lib.rs"]);
    assert_eq!(tabs_under(&strip, "src", true), tabs(&["src/main.rs", "src/lib.rs"]));
    assert_eq!(tabs_under(&strip, "src/lib.rs", false), tabs(&["src/lib.rs"]));
}

/// Closing the tab on screen names its neighbour; closing one behind it
/// names nothing. Either way the tab and its parked editor go.
#[test]
fn closing_a_tab_removes_it_and_its_parked_editor() {
    let mut strip = Strip { tabs: tabs(&["a.rs", "b.rs", "c.rs"]), parked: tabs(&["a.rs", "c.rs"]) };
    assert_eq!(close_in_strip(&mut strip, "a.rs", true).as_deref(), Some("b.rs"));
    assert_eq!(strip.tabs, tabs(&["b.rs", "c.rs"]));
    assert_eq!(strip.parked, tabs(&["c.rs"]));
    assert_eq!(close_in_strip(&mut strip, "c.rs", false), None);
    assert_eq!(strip.tabs, tabs(&["b.rs"]));
}

/// A remembered strip reopens in order, the active one last.
#[test]
fn the_active_tab_is_reopened_last() {
    let strip = tabs(&["a.rs", "b.rs", "c.rs"]);
    assert_eq!(restore_order(&strip, Some("b.rs")), tabs(&["a.rs", "c.rs", "b.rs"]));
    assert_eq!(restore_order(&strip, None), strip);
    assert_eq!(tabs_key("/p"), "rusty.tabs./p");
}

/// The split never shows an empty pane on the left with the work on the
/// right, and closes when the right has nothing.
#[test]
fn an_empty_group_closes_the_split() {
    let mut layout = Layout { split: false, focus: Group::First, tree_hidden: false };
    assert_eq!(open_beside(&mut layout), Group::Second);
    assert!(layout.split);

    let mut first = Strip { tabs: Vec::new(), parked: Vec::new() };
    let mut second = Strip { tabs: tabs(&["b.rs"]), parked: tabs(&["c.rs"]) };
    let front = settle_groups(&mut layout, &mut first, &mut second, Some("b.rs".to_string()));
    assert_eq!(front.as_deref(), Some("b.rs"));
    assert!(!layout.split);
    assert_eq!(layout.focus, Group::First);
    assert_eq!(first.tabs, tabs(&["b.rs"]));
    assert_eq!(first.parked, tabs(&["c.rs"]));
    assert!(second.tabs.is_empty() && second.parked.is_empty());

    let mut layout = Layout { split: true, focus: Group::Second, tree_hidden: true };
    let mut first = Strip { tabs: tabs(&["a.rs"]), parked: Vec::new() };
    let mut second = Strip { tabs: Vec::new(), parked: Vec::new() };
    assert_eq!(settle_groups(&mut layout, &mut first, &mut second, None), None);
    assert!(!layout.split);
    assert!(layout.tree_hidden);
}

#[test]
fn the_split_button_opens_the_left_file_on_the_right() {
    let mut layout = Layout { split: false, focus: Group::First, tree_hidden: false };
    assert_eq!(split_active(&mut layout, None), None);
    assert!(!layout.split);
    assert_eq!(split_active(&mut layout, Some("a.rs".to_string())).as_deref(), Some("a.rs"));
    assert!(layout.split);
    assert_eq!(layout.focus, Group::Second);
    assert!(toggle_tree(&mut layout));
    assert!(!toggle_tree(&mut layout));
}

#[test]
fn a_reset_group_holds_nothing() {
    let mut strip = Strip { tabs: tabs(&["a.rs"]), parked: tabs(&["a.rs"]) };
    let mut find = FindBar { open: true, replace_open: true, query: "x".to_string(), index: 3 };
    let mut screen = Screen {
        document: Some(OpenDoc {
            path: "src/main.rs".to_string(),
            text: String::new(),
            read_only: false,
            expansion: false,
            language: None,
        }),
        draft: "fn main".to_string(),
        reveal: Some(rusty_ui::calls::Location { path: "src/main.rs".to_string(), line: 1, col: 0, external: false }),
        histories: tabs(&["src/main.rs"]),
        transients: Transients {
            folds: vec![3, 9],
            completion: Some(vec!["println!".to_string()]),
            signature: Some("fn f(a: u8)".to_string()),
            hover: None,
            cursors: vec![Caret { line: 2, col: 1 }],
        },
    };
    reset_group(&mut strip, &mut find, &mut screen);
    assert!(screen.document.is_none() && screen.draft.is_empty() && screen.reveal.is_none());
    assert!(screen.histories.is_empty());
    let t = &screen.transients;
    assert!(t.folds.is_empty() && t.completion.is_none() && t.signature.is_none());
    assert!(t.hover.is_none() && t.cursors.is_empty());
    assert!(strip.tabs.is_empty() && strip.parked.is_empty());
    assert!(!find.open && !find.replace_open && find.query.is_empty());
    assert_eq!(find.index, 0);
}

#[test]
fn the_host_is_read_off_the_platform() {
    assert!(host_is_windows("Win32"));
    assert!(!host_is_windows("MacIntel"));
    assert!(host_is_mac("MacIntel"));
    assert!(!host_is_mac("Linux x86_64"));
}

fn open_doc(path: &str, text: &str) -> OpenDoc {
    OpenDoc { path: path.to_string(), text: text.to_string(), read_only: false, expansion: false, language: None }
}

fn parked_tab(path: &str, on_disk: &str, draft: &str) -> ParkedTab {
    ParkedTab { document: open_doc(path, on_disk), draft: draft.to_string() }
}

#[test]
fn a_click_fronts_a_parked_tab_and_reads_one_never_clicked() {
    let parked = vec![parked_tab("b.rs", "x", "x")];
    assert_eq!(activate_tab(Some("a.rs"), &parked, "a.rs"), Activation::Nothing);
    assert_eq!(activate_tab(Some("a.rs"), &parked, "b.rs"), Activation::Front);
    assert_eq!(activate_tab(Some("a.rs"), &parked, "c.rs"), Activation::Open);
    assert_eq!(activate_tab(None, &parked, "b.rs"), Activation::Front);
}

#[test]
fn a_fronted_tab_leaves_the_parked_list_and_asks_for_what_it_lacks() {
    let mut parked = vec![parked_tab("a.rs", "1", "1"), parked_tab("b.rs", "x", "y")];
    let mut library = parked_tab("lib.rs", "old", "new");
    library.document.read_only = true;
    parked.push(library);

    let f = front_parked(&mut parked, "b.rs").expect("parked");
    assert_eq!(f.tab.draft, "y");
    assert!(f.pulse && f.paint);
    assert_eq!(parked.iter().map(|t| t.document.path.as_str()).collect::<Vec<_>>(), vec!["a.rs", "lib.rs"]);

    let clean = front_parked(&mut parked, "a.rs").expect("parked");
    assert!(!clean.pulse && clean.paint);
    let lib = front_parked(&mut parked, "lib.rs").expect("parked");
    assert!(!lib.pulse && !lib.paint);
    assert!(front_parked(&mut parked, "a.rs").is_none());
    assert!(parked.is_empty());
}

#[test]
fn closing_unsaved_work_asks_first_unless_the_other_side_holds_it() {
    let parked = vec![parked_tab("b.rs", "x", "y"), parked_tab("c.rs", "z", "z")];
    let front = Some(open_doc("a.rs", "1"));
    // The tab on screen, by its draft.
    assert!(close_tab(Some("a.rs"), &front, "2", &parked, "a.rs", false));
    assert!(!close_tab(Some("a.rs"), &front, "1", &parked, "a.rs", false));
    assert!(!close_tab(Some("a.rs"), &front, "2", &parked, "a.rs", true));
    // A parked tab, by its own.
    assert!(close_tab(Some("a.rs"), &front, "1", &parked, "b.rs", false));
    assert!(!close_tab(Some("a.rs"), &front, "1", &parked, "c.rs", false));
    assert!(!close_tab(Some("a.rs"), &front, "1", &parked, "nowhere.rs", false));
    let mut library = open_doc("lib.rs", "old");
    library.read_only = true;
    assert!(!close_tab(Some("lib.rs"), &Some(library), "new", &parked, "lib.rs", false));
}

#[test]
fn a_move_renames_every_document_and_tells_the_server_once_per_file() {
    let mut groups = vec![
        GroupDocs {
            document: Some(open_doc("src/gpio/pin.rs", "a")),
            draft: "a2".to_string(),
            parked: vec![parked_tab("src/gpio/mod.rs", "m", "m2"), parked_tab("src/main.rs", "x", "x")],
        },
        GroupDocs {
            // The same file on the other side.
            document: Some(open_doc("src/gpio/pin.rs", "a")),
            draft: "a2".to_string(),
            parked: vec![parked_tab("src/gpio2/x.rs", "y", "y")],
        },
    ];
    let told = follow_move(&mut groups, "src/gpio", "src/io", true);
    let told: Vec<(String, String, String)> = told.into_iter().map(|r| (r.old, r.new, r.text)).collect();
    assert_eq!(
        told,
        vec![
            ("src/gpio/mod.rs".to_string(), "src/io/mod.rs".to_string(), "m2".to_string()),
            ("src/gpio/pin.rs".to_string(), "src/io/pin.rs".to_string(), "a2".to_string()),
        ]
    );
    assert_eq!(groups[0].document.as_ref().map(|d| d.path.as_str()), Some("src/io/pin.rs"));
    assert_eq!(groups[0].parked[0].document.path, "src/io/mod.rs");
    assert_eq!(groups[0].parked[0].draft, "m2");
    assert_eq!(groups[0].parked[1].document.path, "src/main.rs");
    assert_eq!(groups[1].document.as_ref().map(|d| d.path.as_str()), Some("src/io/pin.rs"));
    // Not under the folder that moved: a prefix is not a parent.
    assert_eq!(groups[1].parked[0].document.path, "src/gpio2/x.rs");
    assert_eq!(groups[1].draft, "a2");
}

#[test]
fn closing_under_a_gone_folder_leaves_every_other_tab() {
    let mut strips = vec![
        Strip { tabs: tabs(&["src/gpio/pin.rs", "src/main.rs", "src/gpio"]), parked: tabs(&["src/gpio/pin.rs"]) },
        Strip { tabs: tabs(&["src/gpio2/x.rs", "src/gpio/mod.rs"]), parked: tabs(&["src/gpio2/x.rs"]) },
    ];
    close_under(&mut strips, "src/gpio", true);
    assert_eq!(strips[0].tabs, tabs(&["src/main.rs"]));
    assert!(strips[0].parked.is_empty());
    assert_eq!(strips[1].tabs, tabs(&["src/gpio2/x.rs"]));
    assert_eq!(strips[1].parked, tabs(&["src/gpio2/x.rs"]));
    // A file: only itself.
    close_under(&mut strips, "src/main.rs", false);
    assert!(strips[0].tabs.is_empty());
}

#[test]
fn histories_follow_a_move_and_cached_pictures_under_it_go() {
    let histories = vec![
        Keyed { path: "src/gpio/pin.rs".to_string(), value: 3 },
        Keyed { path: "src/main.rs".to_string(), value: 7 },
    ];
    let moved = rekey(histories, "src/gpio", "src/io", true);
    assert_eq!(moved.iter().map(|k| (k.path.as_str(), k.value)).collect::<Vec<_>>(), vec![("src/io/pin.rs", 3), ("src/main.rs", 7)]);
    let images = vec![
        Keyed { path: "assets/logo.png".to_string(), value: "a" },
        Keyed { path: "img/logo.png".to_string(), value: "b" },
    ];
    let kept = drop_moved(images, "assets", "img", true);
    assert_eq!(kept.iter().map(|k| k.path.as_str()).collect::<Vec<_>>(), vec!["img/logo.png"]);
}

#[test]
fn another_document_drops_what_belonged_to_the_last() {
    let mut t = Transients {
        folds: vec![1],
        completion: None,
        signature: Some("fn f()".to_string()),
        hover: None,
        cursors: vec![Caret { line: 0, col: 0 }],
    };
    clear_editor_transients(&mut t);
    assert!(t.folds.is_empty() && t.signature.is_none() && t.cursors.is_empty());
}

#[test]
fn only_the_latest_search_runs_and_a_blank_one_clears() {
    let mut generation = 0;
    let first = schedule_search(&mut generation);
    let second = schedule_search(&mut generation);
    assert!(!search_due(generation, first));
    assert!(search_due(generation, second));
    assert!(search_wanted("gpio"));
    assert!(!search_wanted("  \t"));
}
