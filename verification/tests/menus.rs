use rusty_ui::command::{in_order, Action, DockTab, Item, Requires, Theme};
use rusty_ui::devices::Chip;
use rusty_ui::menus::{chip_name, menus, project_menu, view_menu, DockEntry, PanelInfo};

fn actions(items: &[Item], out: &mut Vec<Action>) {
    for item in items {
        match item {
            Item::Entry { action, .. } => out.push(*action),
            Item::Submenu { items, .. } => actions(items, out),
            Item::Separator => {}
        }
    }
}

fn panels() -> Vec<PanelInfo> {
    vec![
        PanelInfo { id: "files", title: "Files".to_string(), hidden: false, needs_project: true },
        PanelInfo { id: "git", title: "Git".to_string(), hidden: false, needs_project: true },
        PanelInfo { id: "toolchain", title: "Environment".to_string(), hidden: false, needs_project: false },
        PanelInfo { id: "wizard", title: "New project".to_string(), hidden: true, needs_project: false },
    ]
}

fn dock() -> Vec<DockEntry> {
    [DockTab::Output, DockTab::Terminal, DockTab::Debug, DockTab::Calls]
        .into_iter()
        .map(|tab| DockEntry { tab, label: format!("{tab:?}") })
        .collect()
}

/// Every row the flat View menu had is still in it, and its top level is
/// short enough to be a menu.
#[test]
fn the_view_menu_folds_without_losing_a_row() {
    let menu = view_menu(&|_| None, &panels(), &dock());
    assert!(menu.len() <= 12, "{} rows at the top", menu.len());

    let mut reached = Vec::new();
    actions(&menu, &mut reached);
    let mut wanted = vec![
        Action::OpenPalette,
        Action::QuickOpen,
        Action::GoToLine,
        Action::GoToSymbolInFile,
        Action::GoToSymbolInWorkspace,
        Action::FindReferences,
        Action::GoToImplementations,
        Action::GoToTypeDefinition,
        Action::ShowCallHierarchy,
        Action::ExpandMacro,
        Action::NavBack,
        Action::NavForward,
        Action::SwitchEditor,
        Action::ResetLayout,
        Action::ToggleVim,
        Action::ToggleTree,
        Action::SplitEditor,
        Action::ToggleBoard,
        Action::ToggleDock,
    ];
    wanted.extend([Theme::System, Theme::Light, Theme::Dark].into_iter().map(Action::SetTheme));
    wanted.extend(panels().into_iter().filter(|p| !p.hidden).map(|p| Action::ShowPanel(p.id)));
    wanted.extend(dock().into_iter().map(|d| Action::ShowDock(d.tab)));
    for action in wanted {
        assert!(reached.contains(&action), "{action:?} fell out of View");
    }
    assert!(!reached.contains(&Action::ShowPanel("wizard")), "a hidden panel stays off the menu");
}

/// The debugger's verbs are in the Project menu with their keys, live
/// exactly when the transport's buttons are.
#[test]
fn the_project_menu_carries_the_debugger_with_its_keys() {
    let keys = |action| match action {
        Action::Pause => Some("F6".to_string()),
        Action::StepOver => Some("F10".to_string()),
        Action::StepInto => Some("F11".to_string()),
        Action::StepOut => Some("Shift+F11".to_string()),
        _ => None,
    };
    let menu = project_menu(&keys);
    let row = |wanted: Action| {
        menu.iter()
            .find_map(|item| match item {
                Item::Entry { action, shortcut, condition, .. } if *action == wanted => Some((shortcut.clone(), *condition)),
                _ => None,
            })
            .unwrap_or_else(|| panic!("{wanted:?} is not in the Project menu"))
    };
    for step in [Action::StepOver, Action::StepInto, Action::StepOut] {
        let (shortcut, condition) = row(step);
        assert_eq!(shortcut, keys(step), "{step:?} shows its key");
        assert_eq!(condition, Requires::DebugStopped, "{step:?}");
    }
    assert_eq!(row(Action::Pause), (keys(Action::Pause), Requires::DebugRunning));
}

/// The Vim switch stays on the top level.
#[test]
fn the_vim_switch_is_not_in_a_flyout() {
    assert!(view_menu(&|_| None, &panels(), &dock())
        .iter()
        .any(|item| matches!(item, Item::Entry { action: Action::ToggleVim, .. })));
}

/// The bar is six menus; the recents flyout is there only when there are
/// recent projects, and lists at most eight.
#[test]
fn the_bar_lists_the_recent_projects_when_there_are_any() {
    let chips = vec![Chip { id: "esp32c3".to_string(), name: "ESP32-C3".to_string(), flashers: Vec::new() }];
    let none = menus(&|_| None, &chips, &["esp32c3", "esp32"], &[], &panels(), &dock(), "https://i", "https://r");
    assert_eq!(none.len(), 6);
    assert_eq!(none[0].title, "menu.bar.file");
    assert_eq!(none[5].title, "menu.bar.help");
    assert_eq!(none[0].items.len(), 8);
    let Item::Submenu { items: chips_row, .. } = &none[0].items[3] else {
        panic!("the playground flyout");
    };
    assert!(matches!(&chips_row[0], Item::Entry { label, .. } if label == "ESP32-C3"));
    assert!(matches!(&chips_row[1], Item::Entry { label, .. } if label == "ESP32"), "the id in capitals");

    let recents: Vec<String> = (0..10).map(|n| format!("/p/project{n}")).collect();
    let some = menus(&|_| None, &chips, &[], &recents, &panels(), &dock(), "https://i", "https://r");
    assert_eq!(some[0].items.len(), 9);
    let Item::Submenu { items, .. } = &some[0].items[4] else {
        panic!("the recents flyout");
    };
    assert_eq!(items.len(), 8);
    assert!(matches!(&items[2], Item::Entry { action: Action::OpenRecent(2), label, .. } if label == "project2 — /p/project2"));
    assert_eq!(chip_name(&chips, "esp32s3"), "ESP32S3");
}

/// Edit's rows carry the editor's own keys.
#[test]
fn the_edit_menu_shows_the_editor_s_keys() {
    let bar = menus(&|_| Some("K".to_string()), &[], &[], &[], &[], &[], "https://i", "https://r");
    assert!(matches!(&bar[1].items[0], Item::Entry { action: Action::Undo, shortcut: Some(k), .. } if k == "Ctrl+Z"));
    assert!(matches!(&bar[1].items[7], Item::Entry { action: Action::ShowPanel("search"), shortcut: Some(k), .. } if k == "K"));
}

#[test]
fn in_order_is_a_subsequence_test() {
    let v = |s: &str| s.chars().collect::<Vec<char>>();
    assert!(in_order(&v("flsh"), &v("flash")));
    assert!(!in_order(&v("hsalf"), &v("flash")));
    assert!(in_order(&v(""), &v("")));
}
