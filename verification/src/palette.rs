//! The palette's rows: every action available right now, under its
//! heading and with its key. Titles are translation keys, with the text a
//! key takes when it has one; the window translates them.

use vstd::prelude::*;

use crate::command::{Action, Theme};
use crate::devices::Chip;
use crate::menus::{chip_name, chip_name_of, DockEntry, PanelInfo};
use crate::text::owned;

verus! {

/// What a palette row is called: a text as it is, a translation key, or a
/// key with the one text it names.
pub enum Title {
    Text(String),
    Key(String),
    KeyWith { key: String, arg: String },
}

/// One row in the palette.
pub struct Command {
    pub action: Action,
    pub title: Title,
    /// The heading it appears under, as a translation key.
    pub group: String,
    /// `None` for anything without a binding.
    pub shortcut: Option<String>,
}

/// A theme, with what it is called.
pub struct ThemeEntry {
    pub theme: Theme,
    pub label: String,
}

/// A title as the contracts speak of it: the key (or text) and the text
/// it names, if any.
pub enum TitleView {
    Text(Seq<char>),
    Key(Seq<char>),
    KeyWith(Seq<char>, Seq<char>),
}

/// A palette row as the contracts speak of it.
pub struct CommandRow {
    pub action: Action,
    pub title: TitleView,
    pub group: Seq<char>,
    pub keyed: bool,
}

/// Whether a command is the row described, its key the one `chord` gives
/// its action when it shows one.
pub open spec fn is_command<F: Fn(Action) -> Option<String>>(c: Command, row: CommandRow, chord: F) -> bool {
    &&& c.action == row.action
    &&& c.group@ == row.group
    &&& match (c.title, row.title) {
        (Title::Text(t), TitleView::Text(v)) => t@ == v,
        (Title::Key(t), TitleView::Key(v)) => t@ == v,
        (Title::KeyWith { key, arg }, TitleView::KeyWith(k, a)) => key@ == k && arg@ == a,
        _ => false,
    }
    &&& if row.keyed {
        chord.ensures((c.action,), c.shortcut)
    } else {
        c.shortcut is None
    }
}

/// Whether the palette is the rows described, in order.
pub open spec fn are_commands<F: Fn(Action) -> Option<String>>(cs: Seq<Command>, rows: Seq<CommandRow>, chord: F) -> bool {
    &&& cs.len() == rows.len()
    &&& forall|i: int| 0 <= i < cs.len() ==> is_command(#[trigger] cs[i], rows[i], chord)
}

fn push_command<F: Fn(Action) -> Option<String>>(out: &mut Vec<Command>, c: Command, Ghost(rows): Ghost<Seq<CommandRow>>, Ghost(row): Ghost<CommandRow>, chord: &F)
    requires
        are_commands(old(out)@, rows, *chord),
        is_command(c, row, *chord),
    ensures
        are_commands(final(out)@, rows.push(row), *chord),
{
    out.push(c);
    assert forall|i: int| 0 <= i < final(out)@.len() implies is_command(#[trigger] final(out)@[i], rows.push(row)[i], *chord) by {
        if i < old(out)@.len() {
            assert(final(out)@[i] == old(out)@[i]);
        }
    }
}

fn keyed_command<F: Fn(Action) -> Option<String>>(action: Action, title: &str, group: &str, chord: &F) -> (c: Command)
    requires
        forall|a: Action| chord.requires((a,)),
    ensures
        is_command(c, CommandRow { action, title: TitleView::Key(title@), group: group@, keyed: true }, *chord),
{
    Command { action, title: Title::Key(owned(title)), group: owned(group), shortcut: chord(action) }
}

fn plain_command<F: Fn(Action) -> Option<String>>(action: Action, title: &str, group: &str, chord: &F) -> (c: Command)
    ensures
        is_command(c, CommandRow { action, title: TitleView::Key(title@), group: group@, keyed: false }, *chord),
{
    Command { action, title: Title::Key(owned(title)), group: owned(group), shortcut: None }
}

/// A row of the project's heading.
pub open spec fn project_row(action: Action, title: Seq<char>, keyed: bool) -> CommandRow {
    CommandRow { action, title: TitleView::Key(title), group: "palette.group-project"@, keyed }
}

/// A row of the view's heading.
pub open spec fn view_row(action: Action, title: Seq<char>, keyed: bool) -> CommandRow {
    CommandRow { action, title: TitleView::Key(title), group: "palette.group-view"@, keyed }
}

/// Every panel, as the registry lists it — a panel that needs a project
/// while none is open stays listed and says why.
pub open spec fn panel_rows(panels: Seq<PanelInfo>, has_project: bool) -> Seq<CommandRow> {
    panels.map_values(|p: PanelInfo| CommandRow {
        action: Action::ShowPanel(p.id),
        title: if p.needs_project && !has_project {
            TitleView::KeyWith("panel.needs-project"@, p.title@)
        } else {
            TitleView::Text(p.title@)
        },
        group: "palette.group-panels"@,
        keyed: true,
    })
}

/// The project's heading: open, clone, a playground per chip, the open
/// playground's two rows when in one, the upkeep, and every verb.
pub open spec fn project_rows(chips: Seq<Chip>, playground: Seq<&'static str>, in_playground: bool) -> Seq<CommandRow> {
    seq![
        project_row(Action::OpenProject, "menu.file.open-project"@, true),
        project_row(Action::CloneRepository, "menu.file.clone"@, true),
    ] + playground.map_values(|c: &'static str| CommandRow {
        action: Action::OpenPlayground(c),
        title: TitleView::KeyWith("palette.playground"@, chip_name_of(chips, c@)),
        group: "palette.group-project"@,
        keyed: false,
    }) + (if in_playground {
        seq![
            project_row(Action::ResetPlayground, "menu.file.playground-reset"@, false),
            project_row(Action::KeepPlayground, "menu.file.playground-keep"@, false),
        ]
    } else {
        Seq::empty()
    }) + seq![
        project_row(Action::RefreshProject, "menu.project.recheck"@, true),
        project_row(Action::RefreshToolchain, "menu.project.rescan-toolchain"@, false),
        project_row(Action::ReloadCatalog, "menu.project.reload-catalogue"@, false),
        project_row(Action::Build, "menu.project.build"@, true),
        project_row(Action::Test, "menu.project.test"@, true),
        project_row(Action::Run, "menu.project.run"@, true),
        project_row(Action::Debug, "menu.project.debug"@, true),
        project_row(Action::Stop, "menu.project.stop"@, true),
        project_row(Action::Restart, "menu.project.restart"@, true),
        project_row(Action::Pause, "debugger.pause"@, true),
        project_row(Action::StepOver, "debugger.step-over"@, true),
        project_row(Action::StepInto, "debugger.step-into"@, true),
        project_row(Action::StepOut, "debugger.step-out"@, true),
        project_row(Action::Flash, "menu.device.flash"@, true),
        project_row(Action::FlashOnly, "menu.device.flash-only"@, true),
        project_row(Action::Monitor, "menu.device.monitor"@, true),
        project_row(Action::PickDevice, "menu.device.pick"@, true),
        project_row(Action::ScanDevices, "menu.device.rescan"@, true),
    ]
}

/// The view's heading: the dock and its every tab, the layout, the editor
/// switches, the finders and the places.
pub open spec fn view_rows(dock: Seq<DockEntry>) -> Seq<CommandRow> {
    seq![view_row(Action::ToggleDock, "palette.toggle-dock"@, true)] + dock.map_values(|d: DockEntry| CommandRow {
        action: Action::ShowDock(d.tab),
        title: TitleView::KeyWith("palette.show-dock"@, d.label@),
        group: "palette.group-view"@,
        keyed: false,
    }) + seq![
        view_row(Action::ResetLayout, "menu.view.reset-layout"@, false),
        view_row(Action::NavBack, "menu.view.back"@, true),
        view_row(Action::NavForward, "menu.view.forward"@, true),
        view_row(Action::SwitchEditor, "menu.view.switch-editor"@, true),
        view_row(Action::SwitchEditorBack, "menu.view.switch-editor-back"@, true),
        view_row(Action::ToggleVim, "menu.view.vim"@, false),
        view_row(Action::QuickOpen, "menu.view.quick-open"@, true),
        view_row(Action::GoToLine, "menu.view.go-to-line"@, true),
        view_row(Action::GoToSymbolInFile, "menu.view.symbol-in-file"@, true),
        view_row(Action::GoToSymbolInWorkspace, "menu.view.symbol-in-workspace"@, true),
        view_row(Action::FindReferences, "menu.view.references"@, true),
        view_row(Action::GoToImplementations, "menu.view.implementations"@, true),
        view_row(Action::GoToTypeDefinition, "menu.view.type-definition"@, true),
        view_row(Action::ShowCallHierarchy, "menu.view.call-hierarchy"@, true),
        view_row(Action::ExpandMacro, "menu.view.expand-macro"@, true),
        view_row(Action::ToggleTree, "menu.view.toggle-tree"@, true),
        view_row(Action::SplitEditor, "menu.view.split"@, true),
        view_row(Action::ToggleBoard, "menu.view.board-beside"@, true),
    ]
}

/// The settings' heading: every theme, and the settings themselves.
pub open spec fn settings_rows(themes: Seq<ThemeEntry>) -> Seq<CommandRow> {
    themes.map_values(|t: ThemeEntry| CommandRow {
        action: Action::SetTheme(t.theme),
        title: TitleView::KeyWith("palette.theme"@, t.label@),
        group: "palette.group-settings"@,
        keyed: false,
    }) + seq![
        CommandRow {
            action: Action::OpenSettings,
            title: TitleView::Key("palette.settings"@),
            group: "palette.group-settings"@,
            keyed: true,
        },
    ]
}

/// Everything the palette offers, in order.
pub open spec fn palette_rows(
    panels: Seq<PanelInfo>,
    has_project: bool,
    chips: Seq<Chip>,
    playground: Seq<&'static str>,
    in_playground: bool,
    dock: Seq<DockEntry>,
    themes: Seq<ThemeEntry>,
) -> Seq<CommandRow> {
    panel_rows(panels, has_project) + project_rows(chips, playground, in_playground) + view_rows(dock)
        + settings_rows(themes)
}

fn append_commands<F: Fn(Action) -> Option<String>>(
    out: &mut Vec<Command>,
    more: Vec<Command>,
    Ghost(ra): Ghost<Seq<CommandRow>>,
    Ghost(rb): Ghost<Seq<CommandRow>>,
    chord: &F,
)
    requires
        are_commands(old(out)@, ra, *chord),
        are_commands(more@, rb, *chord),
    ensures
        are_commands(final(out)@, ra + rb, *chord),
{
    let ghost a = out@;
    let ghost b = more@;
    let mut more = more;
    out.append(&mut more);
    assert(final(out)@ =~= a + b);
    assert forall|i: int| 0 <= i < final(out)@.len() implies is_command(#[trigger] final(out)@[i], (ra + rb)[i], *chord) by {
        if i < a.len() {
            assert(final(out)@[i] == a[i]);
        } else {
            assert(final(out)@[i] == b[i - a.len()]);
        }
    }
}

fn panel_commands<F: Fn(Action) -> Option<String>>(chord: &F, panels: &[PanelInfo], has_project: bool) -> (out: Vec<Command>)
    requires
        forall|a: Action| chord.requires((a,)),
    ensures
        are_commands(out@, panel_rows(panels@, has_project), *chord),
{
    let ghost rows = panel_rows(panels@, has_project);
    let mut out: Vec<Command> = Vec::new();
    let mut i: usize = 0;
    while i < panels.len()
        invariant
            i <= panels.len(),
            forall|a: Action| chord.requires((a,)),
            rows == panel_rows(panels@, has_project),
            are_commands(out@, rows.take(i as int), *chord),
        decreases panels.len() - i,
    {
        let p = &panels[i];
        let title = if p.needs_project && !has_project {
            Title::KeyWith { key: owned("panel.needs-project"), arg: owned(p.title.as_str()) }
        } else {
            Title::Text(owned(p.title.as_str()))
        };
        let c = Command {
            action: Action::ShowPanel(p.id),
            title,
            group: owned("palette.group-panels"),
            shortcut: chord(Action::ShowPanel(p.id)),
        };
        push_command(&mut out, c, Ghost(rows.take(i as int)), Ghost(rows[i as int]), chord);
        assert(rows.take(i as int).push(rows[i as int]) =~= rows.take(i + 1));
        i = i + 1;
    }
    assert(rows.take(panels.len() as int) =~= rows);
    out
}

fn playground_commands<F: Fn(Action) -> Option<String>>(chord: &F, chips: &[Chip], playground: &[&'static str]) -> (out: Vec<Command>)
    ensures
        are_commands(
            out@,
            playground@.map_values(|c: &'static str| CommandRow {
                action: Action::OpenPlayground(c),
                title: TitleView::KeyWith("palette.playground"@, chip_name_of(chips@, c@)),
                group: "palette.group-project"@,
                keyed: false,
            }),
            *chord,
        ),
{
    let ghost rows = playground@.map_values(|c: &'static str| CommandRow {
        action: Action::OpenPlayground(c),
        title: TitleView::KeyWith("palette.playground"@, chip_name_of(chips@, c@)),
        group: "palette.group-project"@,
        keyed: false,
    });
    let mut out: Vec<Command> = Vec::new();
    let mut k: usize = 0;
    while k < playground.len()
        invariant
            k <= playground.len(),
            rows == playground@.map_values(|c: &'static str| CommandRow {
                action: Action::OpenPlayground(c),
                title: TitleView::KeyWith("palette.playground"@, chip_name_of(chips@, c@)),
                group: "palette.group-project"@,
                keyed: false,
            }),
            are_commands(out@, rows.take(k as int), *chord),
        decreases playground.len() - k,
    {
        let chip = playground[k];
        let name = chip_name(chips, chip);
        let c = Command {
            action: Action::OpenPlayground(chip),
            title: Title::KeyWith { key: owned("palette.playground"), arg: name },
            group: owned("palette.group-project"),
            shortcut: None,
        };
        push_command(&mut out, c, Ghost(rows.take(k as int)), Ghost(rows[k as int]), chord);
        assert(rows.take(k as int).push(rows[k as int]) =~= rows.take(k + 1));
        k = k + 1;
    }
    assert(rows.take(playground.len() as int) =~= rows);
    out
}

/// The project's fixed rows after the playgrounds: the upkeep, then every
/// verb with its key.
pub open spec fn project_tail() -> Seq<CommandRow> {
    seq![
        project_row(Action::RefreshProject, "menu.project.recheck"@, true),
        project_row(Action::RefreshToolchain, "menu.project.rescan-toolchain"@, false),
        project_row(Action::ReloadCatalog, "menu.project.reload-catalogue"@, false),
        project_row(Action::Build, "menu.project.build"@, true),
        project_row(Action::Test, "menu.project.test"@, true),
        project_row(Action::Run, "menu.project.run"@, true),
        project_row(Action::Debug, "menu.project.debug"@, true),
        project_row(Action::Stop, "menu.project.stop"@, true),
        project_row(Action::Restart, "menu.project.restart"@, true),
        project_row(Action::Pause, "debugger.pause"@, true),
        project_row(Action::StepOver, "debugger.step-over"@, true),
        project_row(Action::StepInto, "debugger.step-into"@, true),
        project_row(Action::StepOut, "debugger.step-out"@, true),
        project_row(Action::Flash, "menu.device.flash"@, true),
        project_row(Action::FlashOnly, "menu.device.flash-only"@, true),
        project_row(Action::Monitor, "menu.device.monitor"@, true),
        project_row(Action::PickDevice, "menu.device.pick"@, true),
        project_row(Action::ScanDevices, "menu.device.rescan"@, true),
    ]
}

fn project_commands<F: Fn(Action) -> Option<String>>(chord: &F, chips: &[Chip], playground: &[&'static str], in_playground: bool) -> (out: Vec<Command>)
    requires
        forall|a: Action| chord.requires((a,)),
    ensures
        are_commands(out@, project_rows(chips@, playground@, in_playground), *chord),
{
    let g = "palette.group-project";
    let ghost head = seq![
        project_row(Action::OpenProject, "menu.file.open-project"@, true),
        project_row(Action::CloneRepository, "menu.file.clone"@, true),
    ];
    let mut out: Vec<Command> = Vec::new();
    push_command(&mut out, keyed_command(Action::OpenProject, "menu.file.open-project", g, chord), Ghost(head.take(0)), Ghost(head[0]), chord);
    push_command(&mut out, keyed_command(Action::CloneRepository, "menu.file.clone", g, chord), Ghost(head.take(1)), Ghost(head[1]), chord);
    assert(head.take(2) =~= head);
    let chips_rows = playground_commands(chord, chips, playground);
    let ghost pg = playground@.map_values(|c: &'static str| CommandRow {
        action: Action::OpenPlayground(c),
        title: TitleView::KeyWith("palette.playground"@, chip_name_of(chips@, c@)),
        group: "palette.group-project"@,
        keyed: false,
    });
    append_commands(&mut out, chips_rows, Ghost(head), Ghost(pg), chord);
    let ghost open = if in_playground {
        seq![
            project_row(Action::ResetPlayground, "menu.file.playground-reset"@, false),
            project_row(Action::KeepPlayground, "menu.file.playground-keep"@, false),
        ]
    } else {
        Seq::<CommandRow>::empty()
    };
    let mut kept: Vec<Command> = Vec::new();
    if in_playground {
        push_command(&mut kept, plain_command(Action::ResetPlayground, "menu.file.playground-reset", g, chord), Ghost(open.take(0)), Ghost(open[0]), chord);
        push_command(&mut kept, plain_command(Action::KeepPlayground, "menu.file.playground-keep", g, chord), Ghost(open.take(1)), Ghost(open[1]), chord);
        assert(open.take(2) =~= open);
    }
    append_commands(&mut out, kept, Ghost(head + pg), Ghost(open), chord);
    let ghost t = project_tail();
    let mut tail: Vec<Command> = Vec::new();
    push_command(&mut tail, keyed_command(Action::RefreshProject, "menu.project.recheck", g, chord), Ghost(t.take(0)), Ghost(t[0]), chord);
    push_command(&mut tail, plain_command(Action::RefreshToolchain, "menu.project.rescan-toolchain", g, chord), Ghost(t.take(1)), Ghost(t[1]), chord);
    push_command(&mut tail, plain_command(Action::ReloadCatalog, "menu.project.reload-catalogue", g, chord), Ghost(t.take(2)), Ghost(t[2]), chord);
    push_command(&mut tail, keyed_command(Action::Build, "menu.project.build", g, chord), Ghost(t.take(3)), Ghost(t[3]), chord);
    push_command(&mut tail, keyed_command(Action::Test, "menu.project.test", g, chord), Ghost(t.take(4)), Ghost(t[4]), chord);
    push_command(&mut tail, keyed_command(Action::Run, "menu.project.run", g, chord), Ghost(t.take(5)), Ghost(t[5]), chord);
    push_command(&mut tail, keyed_command(Action::Debug, "menu.project.debug", g, chord), Ghost(t.take(6)), Ghost(t[6]), chord);
    push_command(&mut tail, keyed_command(Action::Stop, "menu.project.stop", g, chord), Ghost(t.take(7)), Ghost(t[7]), chord);
    push_command(&mut tail, keyed_command(Action::Restart, "menu.project.restart", g, chord), Ghost(t.take(8)), Ghost(t[8]), chord);
    push_command(&mut tail, keyed_command(Action::Pause, "debugger.pause", g, chord), Ghost(t.take(9)), Ghost(t[9]), chord);
    push_command(&mut tail, keyed_command(Action::StepOver, "debugger.step-over", g, chord), Ghost(t.take(10)), Ghost(t[10]), chord);
    push_command(&mut tail, keyed_command(Action::StepInto, "debugger.step-into", g, chord), Ghost(t.take(11)), Ghost(t[11]), chord);
    push_command(&mut tail, keyed_command(Action::StepOut, "debugger.step-out", g, chord), Ghost(t.take(12)), Ghost(t[12]), chord);
    push_command(&mut tail, keyed_command(Action::Flash, "menu.device.flash", g, chord), Ghost(t.take(13)), Ghost(t[13]), chord);
    push_command(&mut tail, keyed_command(Action::FlashOnly, "menu.device.flash-only", g, chord), Ghost(t.take(14)), Ghost(t[14]), chord);
    push_command(&mut tail, keyed_command(Action::Monitor, "menu.device.monitor", g, chord), Ghost(t.take(15)), Ghost(t[15]), chord);
    push_command(&mut tail, keyed_command(Action::PickDevice, "menu.device.pick", g, chord), Ghost(t.take(16)), Ghost(t[16]), chord);
    push_command(&mut tail, keyed_command(Action::ScanDevices, "menu.device.rescan", g, chord), Ghost(t.take(17)), Ghost(t[17]), chord);
    assert(t.take(18) =~= t);
    append_commands(&mut out, tail, Ghost(head + pg + open), Ghost(t), chord);
    assert(head + pg + open + t =~= project_rows(chips@, playground@, in_playground));
    out
}

/// The view's fixed rows after the dock's tabs.
pub open spec fn view_tail() -> Seq<CommandRow> {
    seq![
        view_row(Action::ResetLayout, "menu.view.reset-layout"@, false),
        view_row(Action::NavBack, "menu.view.back"@, true),
        view_row(Action::NavForward, "menu.view.forward"@, true),
        view_row(Action::SwitchEditor, "menu.view.switch-editor"@, true),
        view_row(Action::SwitchEditorBack, "menu.view.switch-editor-back"@, true),
        view_row(Action::ToggleVim, "menu.view.vim"@, false),
        view_row(Action::QuickOpen, "menu.view.quick-open"@, true),
        view_row(Action::GoToLine, "menu.view.go-to-line"@, true),
        view_row(Action::GoToSymbolInFile, "menu.view.symbol-in-file"@, true),
        view_row(Action::GoToSymbolInWorkspace, "menu.view.symbol-in-workspace"@, true),
        view_row(Action::FindReferences, "menu.view.references"@, true),
        view_row(Action::GoToImplementations, "menu.view.implementations"@, true),
        view_row(Action::GoToTypeDefinition, "menu.view.type-definition"@, true),
        view_row(Action::ShowCallHierarchy, "menu.view.call-hierarchy"@, true),
        view_row(Action::ExpandMacro, "menu.view.expand-macro"@, true),
        view_row(Action::ToggleTree, "menu.view.toggle-tree"@, true),
        view_row(Action::SplitEditor, "menu.view.split"@, true),
        view_row(Action::ToggleBoard, "menu.view.board-beside"@, true),
    ]
}

fn view_commands<F: Fn(Action) -> Option<String>>(chord: &F, dock: &[DockEntry]) -> (out: Vec<Command>)
    requires
        forall|a: Action| chord.requires((a,)),
    ensures
        are_commands(out@, view_rows(dock@), *chord),
{
    let g = "palette.group-view";
    let ghost head = seq![view_row(Action::ToggleDock, "palette.toggle-dock"@, true)];
    let mut out: Vec<Command> = Vec::new();
    push_command(&mut out, keyed_command(Action::ToggleDock, "palette.toggle-dock", g, chord), Ghost(head.take(0)), Ghost(head[0]), chord);
    assert(head.take(1) =~= head);
    let ghost tabs = dock@.map_values(|d: DockEntry| CommandRow {
        action: Action::ShowDock(d.tab),
        title: TitleView::KeyWith("palette.show-dock"@, d.label@),
        group: "palette.group-view"@,
        keyed: false,
    });
    let mut tab_rows: Vec<Command> = Vec::new();
    let mut k: usize = 0;
    while k < dock.len()
        invariant
            k <= dock.len(),
            tabs == dock@.map_values(|d: DockEntry| CommandRow {
                action: Action::ShowDock(d.tab),
                title: TitleView::KeyWith("palette.show-dock"@, d.label@),
                group: "palette.group-view"@,
                keyed: false,
            }),
            are_commands(tab_rows@, tabs.take(k as int), *chord),
        decreases dock.len() - k,
    {
        let d = &dock[k];
        let c = Command {
            action: Action::ShowDock(d.tab),
            title: Title::KeyWith { key: owned("palette.show-dock"), arg: owned(d.label.as_str()) },
            group: owned("palette.group-view"),
            shortcut: None,
        };
        push_command(&mut tab_rows, c, Ghost(tabs.take(k as int)), Ghost(tabs[k as int]), chord);
        assert(tabs.take(k as int).push(tabs[k as int]) =~= tabs.take(k + 1));
        k = k + 1;
    }
    assert(tabs.take(dock.len() as int) =~= tabs);
    append_commands(&mut out, tab_rows, Ghost(head), Ghost(tabs), chord);
    let ghost t = view_tail();
    let mut tail: Vec<Command> = Vec::new();
    push_command(&mut tail, plain_command(Action::ResetLayout, "menu.view.reset-layout", g, chord), Ghost(t.take(0)), Ghost(t[0]), chord);
    push_command(&mut tail, keyed_command(Action::NavBack, "menu.view.back", g, chord), Ghost(t.take(1)), Ghost(t[1]), chord);
    push_command(&mut tail, keyed_command(Action::NavForward, "menu.view.forward", g, chord), Ghost(t.take(2)), Ghost(t[2]), chord);
    push_command(&mut tail, keyed_command(Action::SwitchEditor, "menu.view.switch-editor", g, chord), Ghost(t.take(3)), Ghost(t[3]), chord);
    push_command(&mut tail, keyed_command(Action::SwitchEditorBack, "menu.view.switch-editor-back", g, chord), Ghost(t.take(4)), Ghost(t[4]), chord);
    push_command(&mut tail, plain_command(Action::ToggleVim, "menu.view.vim", g, chord), Ghost(t.take(5)), Ghost(t[5]), chord);
    push_command(&mut tail, keyed_command(Action::QuickOpen, "menu.view.quick-open", g, chord), Ghost(t.take(6)), Ghost(t[6]), chord);
    push_command(&mut tail, keyed_command(Action::GoToLine, "menu.view.go-to-line", g, chord), Ghost(t.take(7)), Ghost(t[7]), chord);
    push_command(&mut tail, keyed_command(Action::GoToSymbolInFile, "menu.view.symbol-in-file", g, chord), Ghost(t.take(8)), Ghost(t[8]), chord);
    push_command(&mut tail, keyed_command(Action::GoToSymbolInWorkspace, "menu.view.symbol-in-workspace", g, chord), Ghost(t.take(9)), Ghost(t[9]), chord);
    push_command(&mut tail, keyed_command(Action::FindReferences, "menu.view.references", g, chord), Ghost(t.take(10)), Ghost(t[10]), chord);
    push_command(&mut tail, keyed_command(Action::GoToImplementations, "menu.view.implementations", g, chord), Ghost(t.take(11)), Ghost(t[11]), chord);
    push_command(&mut tail, keyed_command(Action::GoToTypeDefinition, "menu.view.type-definition", g, chord), Ghost(t.take(12)), Ghost(t[12]), chord);
    push_command(&mut tail, keyed_command(Action::ShowCallHierarchy, "menu.view.call-hierarchy", g, chord), Ghost(t.take(13)), Ghost(t[13]), chord);
    push_command(&mut tail, keyed_command(Action::ExpandMacro, "menu.view.expand-macro", g, chord), Ghost(t.take(14)), Ghost(t[14]), chord);
    push_command(&mut tail, keyed_command(Action::ToggleTree, "menu.view.toggle-tree", g, chord), Ghost(t.take(15)), Ghost(t[15]), chord);
    push_command(&mut tail, keyed_command(Action::SplitEditor, "menu.view.split", g, chord), Ghost(t.take(16)), Ghost(t[16]), chord);
    push_command(&mut tail, keyed_command(Action::ToggleBoard, "menu.view.board-beside", g, chord), Ghost(t.take(17)), Ghost(t[17]), chord);
    assert(t.take(18) =~= t);
    append_commands(&mut out, tail, Ghost(head + tabs), Ghost(t), chord);
    assert(head + tabs + t =~= view_rows(dock@));
    out
}

fn settings_commands<F: Fn(Action) -> Option<String>>(chord: &F, themes: &[ThemeEntry]) -> (out: Vec<Command>)
    requires
        forall|a: Action| chord.requires((a,)),
    ensures
        are_commands(out@, settings_rows(themes@), *chord),
{
    let ghost rows = settings_rows(themes@);
    let mut out: Vec<Command> = Vec::new();
    let mut k: usize = 0;
    while k < themes.len()
        invariant
            k <= themes.len(),
            forall|a: Action| chord.requires((a,)),
            rows == settings_rows(themes@),
            are_commands(out@, rows.take(k as int), *chord),
        decreases themes.len() - k,
    {
        let t = &themes[k];
        let c = Command {
            action: Action::SetTheme(t.theme),
            title: Title::KeyWith { key: owned("palette.theme"), arg: owned(t.label.as_str()) },
            group: owned("palette.group-settings"),
            shortcut: None,
        };
        push_command(&mut out, c, Ghost(rows.take(k as int)), Ghost(rows[k as int]), chord);
        assert(rows.take(k as int).push(rows[k as int]) =~= rows.take(k + 1));
        k = k + 1;
    }
    let n = themes.len();
    let c = Command {
        action: Action::OpenSettings,
        title: Title::Key(owned("palette.settings")),
        group: owned("palette.group-settings"),
        shortcut: chord(Action::OpenSettings),
    };
    push_command(&mut out, c, Ghost(rows.take(n as int)), Ghost(rows[n as int]), chord);
    assert(rows.take(n as int).push(rows[n as int]) =~= rows);
    out
}

/// Everything available right now: the panels from the registry — a
/// blocked one listed, saying why — then the project's actions, the view's
/// and the settings', each with the key `chord` gives it where it has one.
pub fn all<F: Fn(Action) -> Option<String>>(
    chord: &F,
    panels: &[PanelInfo],
    has_project: bool,
    chips: &[Chip],
    playground: &[&'static str],
    in_playground: bool,
    dock: &[DockEntry],
    themes: &[ThemeEntry],
) -> (out: Vec<Command>)
    requires
        forall|a: Action| chord.requires((a,)),
    ensures
        are_commands(
            out@,
            palette_rows(panels@, has_project, chips@, playground@, in_playground, dock@, themes@),
            *chord,
        ),
{
    let mut out = panel_commands(chord, panels, has_project);
    let ghost a = panel_rows(panels@, has_project);
    let ghost b = project_rows(chips@, playground@, in_playground);
    let ghost c = view_rows(dock@);
    let ghost d = settings_rows(themes@);
    append_commands(&mut out, project_commands(chord, chips, playground, in_playground), Ghost(a), Ghost(b), chord);
    append_commands(&mut out, view_commands(chord, dock), Ghost(a + b), Ghost(c), chord);
    append_commands(&mut out, settings_commands(chord, themes), Ghost(a + b + c), Ghost(d), chord);
    out
}

} // verus!
