use rusty_ui::command::{Action, DockTab, Theme};
use rusty_ui::devices::{Chip, Flasher};
use rusty_ui::menus::{DockEntry, PanelInfo};
use rusty_ui::palette::{all, Command, ThemeEntry, Title};

fn panels() -> Vec<PanelInfo> {
    vec![
        PanelInfo { id: "files", title: "Files".to_string(), hidden: false, needs_project: true },
        PanelInfo { id: "toolchain", title: "Environment".to_string(), hidden: false, needs_project: false },
    ]
}

fn chips() -> Vec<Chip> {
    vec![Chip { id: "esp32c3".to_string(), name: "ESP32-C3".to_string(), flashers: vec![Flasher::Espflash] }]
}

fn dock() -> Vec<DockEntry> {
    vec![
        DockEntry { tab: DockTab::Output, label: "Output".to_string() },
        DockEntry { tab: DockTab::Terminal, label: "Terminal".to_string() },
    ]
}

fn themes() -> Vec<ThemeEntry> {
    vec![
        ThemeEntry { theme: Theme::Light, label: "Light".to_string() },
        ThemeEntry { theme: Theme::Dark, label: "Dark".to_string() },
    ]
}

fn chord(action: Action) -> Option<String> {
    match action {
        Action::Build => Some("Ctrl+B".to_string()),
        Action::OpenProject => Some("Ctrl+O".to_string()),
        Action::ShowPanel("files") => Some("Ctrl+Shift+E".to_string()),
        Action::ToggleVim => Some("never shown".to_string()),
        _ => None,
    }
}

fn palette(has_project: bool, in_playground: bool) -> Vec<Command> {
    all(&chord, &panels(), has_project, &chips(), &["esp32c3", "rp2040"], in_playground, &dock(), &themes())
}

fn find(rows: &[Command], action: Action) -> &Command {
    rows.iter().find(|c| c.action == action).expect("row is listed")
}

#[test]
fn a_panel_that_needs_a_project_stays_listed_and_says_why() {
    let rows = palette(false, false);
    let files = find(&rows, Action::ShowPanel("files"));
    match &files.title {
        Title::KeyWith { key, arg } => {
            assert_eq!(key, "panel.needs-project");
            assert_eq!(arg, "Files");
        }
        _ => panic!("a blocked panel names its reason"),
    }
    assert_eq!(files.group, "palette.group-panels");
    assert_eq!(files.shortcut.as_deref(), Some("Ctrl+Shift+E"));

    let open = palette(true, false);
    match &find(&open, Action::ShowPanel("files")).title {
        Title::Text(t) => assert_eq!(t, "Files"),
        _ => panic!("an open project's panel is listed by its title"),
    }
    match &find(&rows, Action::ShowPanel("toolchain")).title {
        Title::Text(t) => assert_eq!(t, "Environment"),
        _ => panic!("a panel that needs nothing is listed by its title"),
    }
}

#[test]
fn panels_come_first_and_the_settings_last() {
    let rows = palette(true, false);
    assert_eq!(rows[0].action, Action::ShowPanel("files"));
    assert_eq!(rows[1].action, Action::ShowPanel("toolchain"));
    assert_eq!(rows[2].action, Action::OpenProject);
    assert_eq!(rows[3].action, Action::CloneRepository);
    let last = rows.last().expect("rows");
    assert_eq!(last.action, Action::OpenSettings);
    assert_eq!(last.group, "palette.group-settings");
}

#[test]
fn the_playground_rows_appear_only_in_a_playground() {
    let outside = palette(true, false);
    assert!(outside.iter().all(|c| c.action != Action::ResetPlayground && c.action != Action::KeepPlayground));
    let inside = palette(true, true);
    assert_eq!(inside.len(), outside.len() + 2);
    let reset = inside.iter().position(|c| c.action == Action::ResetPlayground).expect("reset");
    assert_eq!(inside[reset + 1].action, Action::KeepPlayground);
    assert_eq!(inside[reset + 2].action, Action::RefreshProject);
}

#[test]
fn a_playground_row_names_its_chip() {
    let rows = palette(true, false);
    match &find(&rows, Action::OpenPlayground("esp32c3")).title {
        Title::KeyWith { key, arg } => {
            assert_eq!(key, "palette.playground");
            assert_eq!(arg, "ESP32-C3");
        }
        _ => panic!("a playground row names its chip"),
    }
    // A chip the table does not know is called by its id, upper-cased.
    match &find(&rows, Action::OpenPlayground("rp2040")).title {
        Title::KeyWith { arg, .. } => assert_eq!(arg, "RP2040"),
        _ => panic!("a playground row names its chip"),
    }
    assert!(find(&rows, Action::OpenPlayground("esp32c3")).shortcut.is_none());
}

#[test]
fn keys_come_from_the_lookup_and_only_where_a_row_shows_one() {
    let rows = palette(true, false);
    assert_eq!(find(&rows, Action::Build).shortcut.as_deref(), Some("Ctrl+B"));
    assert_eq!(find(&rows, Action::OpenProject).shortcut.as_deref(), Some("Ctrl+O"));
    assert!(find(&rows, Action::Test).shortcut.is_none());
    // The vim toggle never shows a key, whatever the lookup says.
    assert!(find(&rows, Action::ToggleVim).shortcut.is_none());
    assert_eq!(find(&rows, Action::Build).group, "palette.group-project");
    match &find(&rows, Action::Build).title {
        Title::Key(k) => assert_eq!(k, "menu.project.build"),
        _ => panic!("a verb is listed by its key"),
    }
}

#[test]
fn every_dock_tab_and_every_theme_is_listed() {
    let rows = palette(true, false);
    for (tab, label) in [(DockTab::Output, "Output"), (DockTab::Terminal, "Terminal")] {
        let row = find(&rows, Action::ShowDock(tab));
        assert_eq!(row.group, "palette.group-view");
        match &row.title {
            Title::KeyWith { key, arg } => {
                assert_eq!(key, "palette.show-dock");
                assert_eq!(arg, label);
            }
            _ => panic!("a dock row names its tab"),
        }
    }
    for (theme, label) in [(Theme::Light, "Light"), (Theme::Dark, "Dark")] {
        let row = find(&rows, Action::SetTheme(theme));
        assert_eq!(row.group, "palette.group-settings");
        match &row.title {
            Title::KeyWith { key, arg } => {
                assert_eq!(key, "palette.theme");
                assert_eq!(arg, label);
            }
            _ => panic!("a theme row names its theme"),
        }
    }
    assert!(rows.iter().all(|c| c.action != Action::SetTheme(Theme::System)));
}

#[test]
fn the_palette_has_a_row_for_each_thing_listed() {
    // Two panels, the project's twenty-two with two chips, the view's
    // twenty-one with two tabs, and the settings' three with two themes.
    assert_eq!(palette(true, false).len(), 2 + 22 + 21 + 3);
}
