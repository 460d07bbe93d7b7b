use rusty_ui::places::PlaceQuery;
use rusty_ui::command::{
    entry, entry_when, project_entry, recent_label, run, Action, Effect, Item, Now, Requires, Situation,
};
use rusty_ui::devices::DeviceAction;
use rusty_ui::menus::PanelInfo;

fn subsequence_cases() {
    assert!(rusty_ui::command::matches("flsh", "Flash"));
    assert!(rusty_ui::command::matches("gtov", "Go to Overview"));
    assert!(rusty_ui::command::matches("", "anything"));
    assert!(rusty_ui::command::matches("MEM", "Memory"), "case is ignored");

    assert!(!rusty_ui::command::matches("xyz", "Flash"));
    // Order matters — otherwise every query matches everything.
    assert!(!rusty_ui::command::matches("hsalf", "Flash"));
}

#[test]
fn command_subsequence_matching_is_what_a_palette_does() {
    subsequence_cases();
}

#[test]
fn mod_subsequence_matching_is_what_a_palette_does() {
    subsequence_cases();
}

fn project_row_cases() {
    let Item::Entry { condition, .. } = project_entry(Action::Undo, "Undo", None) else {
        panic!("not an entry");
    };
    assert_eq!(condition, Requires::Project);

    let Item::Entry { condition, .. } = entry(Action::Undo, "Undo", None) else {
        panic!("not an entry");
    };
    assert_eq!(condition, Requires::Nothing, "a plain row asks nothing");
}

/// Rows that ask for a project keep asking.
#[test]
fn command_a_project_row_still_requires_a_project() {
    project_row_cases();
}

#[test]
fn menus_a_project_row_still_requires_a_project() {
    project_row_cases();
}

fn back_and_forward_cases() {
    let rows = [
        entry_when(Requires::NavBack, Action::NavBack, "Back", None),
        entry_when(Requires::NavForward, Action::NavForward, "Forward", None),
    ];
    for row in rows {
        let Item::Entry { condition, .. } = row else {
            panic!("not an entry");
        };
        assert_ne!(
            condition,
            Requires::Nothing,
            "a navigation row with no condition is lit over an empty history",
        );
    }
}

/// The View menu offers Back and Forward, and each says when it applies.
#[test]
fn command_back_and_forward_are_conditional_rows() {
    back_and_forward_cases();
}

#[test]
fn menus_back_and_forward_are_conditional_rows() {
    back_and_forward_cases();
}

/// A recents entry is the folder, then where it is; trailing separators
/// do not make the folder's name empty.
#[test]
fn a_recent_project_is_named_by_its_folder() {
    assert_eq!(recent_label("/home/me/firmware"), "firmware — /home/me/firmware");
    assert_eq!(recent_label("C:\\work\\blinky\\"), "blinky — C:\\work\\blinky\\");
    assert_eq!(recent_label("plain"), "plain — plain");
}

/// A row's condition is read off the situation.
#[test]
fn a_condition_is_met_exactly_when_the_situation_says() {
    let idle = Situation {
        has_project: true,
        in_playground: false,
        debug_stopped: false,
        debug_running: true,
        can_go_back: false,
        can_go_forward: true,
    };
    assert!(Requires::Nothing.met(&idle));
    assert!(Requires::Project.met(&idle));
    assert!(!Requires::Playground.met(&idle));
    assert!(!Requires::DebugStopped.met(&idle));
    assert!(Requires::DebugRunning.met(&idle));
    assert!(!Requires::NavBack.met(&idle));
    assert!(Requires::NavForward.met(&idle));
}

/// Lowercasing is by Unicode, not ASCII alone.
#[test]
fn matching_folds_more_than_ascii() {
    assert!(rusty_ui::command::matches("ö", "Öl"));
    assert!(!rusty_ui::command::matches("ö", "Ol"));
}

fn registry() -> Vec<PanelInfo> {
    vec![
        PanelInfo { id: "files", title: "Files".to_string(), hidden: false, needs_project: true },
        PanelInfo { id: "toolchain", title: "Environment".to_string(), hidden: false, needs_project: false },
    ]
}

fn now(has_project: bool) -> Now {
    Now { has_project, session_running: false, debugging: false, dock_open: true, vim_on: false }
}

#[test]
fn project_work_waits_for_a_project() {
    let panels = registry();
    assert!(matches!(run(Action::Build, &now(false), &panels, &[]), Effect::Nothing));
    assert!(matches!(run(Action::Build, &now(true), &panels, &[]), Effect::Build));
    assert!(matches!(run(Action::Debug, &now(true), &panels, &[]), Effect::Simulate { debug: true }));
    assert!(matches!(run(Action::Run, &now(true), &panels, &[]), Effect::Simulate { debug: false }));
    assert!(matches!(run(Action::FlashOnly, &now(true), &panels, &[]), Effect::Device(DeviceAction::FlashOnly)));
    assert!(matches!(run(Action::GoToLine, &now(false), &panels, &[]), Effect::Nothing));
    assert!(matches!(run(Action::GoToLine, &now(true), &panels, &[]), Effect::QuickOpen { seed: ":" }));
    assert!(matches!(run(Action::GoToSymbolInWorkspace, &now(true), &panels, &[]), Effect::QuickOpen { seed: "#" }));
    // Opening a project needs none.
    assert!(matches!(run(Action::OpenProject, &now(false), &panels, &[]), Effect::ChooseProject));
}

#[test]
fn stop_stops_only_what_runs() {
    let panels = registry();
    assert!(matches!(run(Action::Stop, &now(true), &panels, &[]), Effect::Nothing));
    let mut debugging = now(false);
    debugging.debugging = true;
    assert!(matches!(run(Action::Stop, &debugging, &panels, &[]), Effect::StopAnything));
    let mut running = now(false);
    running.session_running = true;
    assert!(matches!(run(Action::Stop, &running, &panels, &[]), Effect::StopAnything));
}

#[test]
fn a_blocked_or_unknown_panel_is_not_shown() {
    let panels = registry();
    assert!(matches!(run(Action::ShowPanel("files"), &now(false), &panels, &[]), Effect::Nothing));
    assert!(matches!(run(Action::ShowPanel("files"), &now(true), &panels, &[]), Effect::ShowPanel("files")));
    assert!(matches!(run(Action::ShowPanel("toolchain"), &now(false), &panels, &[]), Effect::ShowPanel("toolchain")));
    assert!(matches!(run(Action::ShowPanel("nowhere"), &now(true), &panels, &[]), Effect::Nothing));
    assert!(matches!(run(Action::ShowPanel("assistant"), &now(false), &panels, &[]), Effect::OpenAssistant));
}

#[test]
fn a_recent_is_opened_only_when_listed() {
    let panels = registry();
    let recents = vec!["/a".to_string(), "/b".to_string()];
    match run(Action::OpenRecent(1), &now(false), &panels, &recents) {
        Effect::OpenRecent(path) => assert_eq!(path, "/b"),
        _ => panic!("the second recent opens"),
    }
    assert!(matches!(run(Action::OpenRecent(2), &now(false), &panels, &recents), Effect::Nothing));
}

#[test]
fn toggles_flip_what_is_there_and_keys_go_to_the_editor() {
    let panels = registry();
    assert!(matches!(run(Action::ToggleDock, &now(true), &panels, &[]), Effect::SetDockOpen(false)));
    assert!(matches!(run(Action::ToggleVim, &now(true), &panels, &[]), Effect::SetVim(true)));
    assert!(matches!(
        run(Action::Rename, &now(true), &panels, &[]),
        Effect::EditorKey { key: "F2", ctrl: false, shift: false }
    ));
    assert!(matches!(
        run(Action::Undo, &now(true), &panels, &[]),
        Effect::EditorKey { key: "z", ctrl: true, shift: false }
    ));
    assert!(matches!(run(Action::Cut, &now(true), &panels, &[]), Effect::EditorCommand("cut")));
    assert!(matches!(run(Action::StepOut, &now(true), &panels, &[]), Effect::DebugVerb("out")));
    assert!(matches!(
        run(Action::GoToTypeDefinition, &now(true), &panels, &[]),
        Effect::FindPlaces(PlaceQuery::TypeDefinition)
    ));
    assert!(matches!(run(Action::SwitchEditorBack, &now(true), &panels, &[]), Effect::SwitchEditor { back: true }));
}
