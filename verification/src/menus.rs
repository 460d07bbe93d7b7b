//! The Project and View menus: the same actions as the palette and the
//! keys, in the shape a menu reads. Labels are translation keys; the
//! window translates them.

use vstd::prelude::*;

use crate::command::{entry_when, recent_label, recent_label_of, Action, DockTab, Item, Requires, Theme};
use crate::devices::{chip_from, Chip};
use crate::text::{owned, same_text};

verus! {

/// The key a menu row shows: the one the lookup gives its action, a fixed
/// one, or none.
pub enum Key {
    Chord,
    Fixed(Seq<char>),
    NoKey,
}

/// A menu row as the contracts speak of it: an entry's action, label,
/// condition and key; a flyout's label; or a separator.
pub enum Row {
    Entry(Action, Seq<char>, Requires, Key),
    Submenu(Seq<char>),
    Separator,
}

/// Whether an item is the row described: for an entry, its action, label
/// and condition, and the key `chord` gives the action when it shows one,
/// no key otherwise.
pub open spec fn is_row<F: Fn(Action) -> Option<String>>(item: Item, row: Row, chord: F) -> bool {
    match (item, row) {
        (Item::Entry { action, label, shortcut, condition }, Row::Entry(a, l, c, keyed)) => {
            &&& action == a
            &&& label@ == l
            &&& condition == c
            &&& match keyed {
                Key::Chord => chord.ensures((action,), shortcut),
                Key::Fixed(k) => shortcut matches Some(t) && t@ == k,
                Key::NoKey => shortcut is None,
            }
        },
        (Item::Submenu { label, .. }, Row::Submenu(l)) => label@ == l,
        (Item::Separator, Row::Separator) => true,
        _ => false,
    }
}

/// Whether a menu is the rows described, in order.
pub open spec fn are_rows<F: Fn(Action) -> Option<String>>(items: Seq<Item>, rows: Seq<Row>, chord: F) -> bool {
    &&& items.len() == rows.len()
    &&& forall|i: int| 0 <= i < items.len() ==> is_row(#[trigger] items[i], rows[i], chord)
}

/// An entry with the key the lookup gives its action.
fn keyed<F: Fn(Action) -> Option<String>>(needs: Requires, action: Action, key: &str, chord: &F) -> (item: Item)
    requires
        forall|a: Action| chord.requires((a,)),
    ensures
        is_row(item, Row::Entry(action, key@, needs, Key::Chord), *chord),
{
    let shortcut = chord(action);
    entry_when(needs, action, key, shortcut)
}

/// An entry with no key.
fn plain<F: Fn(Action) -> Option<String>>(needs: Requires, action: Action, key: &str, chord: &F) -> (item: Item)
    ensures
        is_row(item, Row::Entry(action, key@, needs, Key::NoKey), *chord),
{
    entry_when(needs, action, key, None)
}

/// A flyout.
fn flyout<F: Fn(Action) -> Option<String>>(key: &str, items: Vec<Item>, chord: &F) -> (item: Item)
    ensures
        is_row(item, Row::Submenu(key@), *chord),
        item matches Item::Submenu { items: inner, .. } && inner == items,
{
    Item::Submenu { label: key.to_owned(), items }
}

/// A list with one more row at its end.
fn put<F: Fn(Action) -> Option<String>>(items: &mut Vec<Item>, item: Item, Ghost(rows): Ghost<Seq<Row>>, Ghost(row): Ghost<Row>, chord: &F)
    requires
        are_rows(old(items)@, rows, *chord),
        is_row(item, row, *chord),
    ensures
        final(items)@ == old(items)@.push(item),
        are_rows(final(items)@, rows.push(row), *chord),
{
    items.push(item);
    assert forall|i: int| 0 <= i < final(items)@.len() implies is_row(#[trigger] final(items)@[i], rows.push(row)[i], *chord) by {
        if i < old(items)@.len() {
            assert(final(items)@[i] == old(items)@[i]);
        }
    }
}

// ---------------------------------------------------------------------------
// Project
// ---------------------------------------------------------------------------

/// The Project menu's rows: the verbs first, then the debugger's with their
/// keys — live exactly when the transport's buttons are, the steps while
/// stopped and Pause while running — then the project's upkeep, and the C
/// interop flyout.
pub open spec fn project_rows() -> Seq<Row> {
    seq![
        Row::Entry(Action::Build, "menu.project.build"@, Requires::Project, Key::Chord),
        Row::Entry(Action::Test, "menu.project.test"@, Requires::Project, Key::Chord),
        Row::Separator,
        Row::Entry(Action::Run, "menu.project.run"@, Requires::Project, Key::Chord),
        Row::Entry(Action::Debug, "menu.project.debug"@, Requires::Project, Key::Chord),
        Row::Entry(Action::Stop, "menu.project.stop"@, Requires::Project, Key::Chord),
        Row::Entry(Action::Restart, "menu.project.restart"@, Requires::Project, Key::Chord),
        Row::Separator,
        Row::Entry(Action::Pause, "debugger.pause"@, Requires::DebugRunning, Key::Chord),
        Row::Entry(Action::StepOver, "debugger.step-over"@, Requires::DebugStopped, Key::Chord),
        Row::Entry(Action::StepInto, "debugger.step-into"@, Requires::DebugStopped, Key::Chord),
        Row::Entry(Action::StepOut, "debugger.step-out"@, Requires::DebugStopped, Key::Chord),
        Row::Separator,
        Row::Entry(Action::RefreshProject, "menu.project.recheck"@, Requires::Project, Key::Chord),
        Row::Entry(Action::RefreshToolchain, "menu.project.rescan-toolchain"@, Requires::Nothing, Key::NoKey),
        Row::Entry(Action::ReloadCatalog, "menu.project.reload-catalogue"@, Requires::Nothing, Key::NoKey),
        Row::Separator,
        Row::Submenu("menu.project.c-interop"@),
    ]
}

/// The C interop flyout: the two directions people need, named as
/// directions rather than as tools.
pub open spec fn interop_rows() -> Seq<Row> {
    seq![
        Row::Entry(Action::ScaffoldC("rust-calls-c"), "menu.project.rust-calls-c"@, Requires::Project, Key::NoKey),
        Row::Entry(Action::ScaffoldC("c-calls-rust"), "menu.project.c-calls-rust"@, Requires::Project, Key::NoKey),
    ]
}

/// The Project menu, with the keys `chord` gives each action.
pub fn project_menu<F: Fn(Action) -> Option<String>>(chord: &F) -> (items: Vec<Item>)
    requires
        forall|a: Action| chord.requires((a,)),
    ensures
        are_rows(items@, project_rows(), *chord),
        items@.last() matches Item::Submenu { items: inner, .. } && are_rows(inner@, interop_rows(), *chord),
{
    let ghost rows = project_rows();
    let mut items: Vec<Item> = Vec::new();
    put(&mut items, keyed(Requires::Project, Action::Build, "menu.project.build", chord), Ghost(rows.take(0)), Ghost(rows[0]), chord);
    put(&mut items, keyed(Requires::Project, Action::Test, "menu.project.test", chord), Ghost(rows.take(1)), Ghost(rows[1]), chord);
    put(&mut items, Item::Separator, Ghost(rows.take(2)), Ghost(rows[2]), chord);
    put(&mut items, keyed(Requires::Project, Action::Run, "menu.project.run", chord), Ghost(rows.take(3)), Ghost(rows[3]), chord);
    put(&mut items, keyed(Requires::Project, Action::Debug, "menu.project.debug", chord), Ghost(rows.take(4)), Ghost(rows[4]), chord);
    put(&mut items, keyed(Requires::Project, Action::Stop, "menu.project.stop", chord), Ghost(rows.take(5)), Ghost(rows[5]), chord);
    put(&mut items, keyed(Requires::Project, Action::Restart, "menu.project.restart", chord), Ghost(rows.take(6)), Ghost(rows[6]), chord);
    put(&mut items, Item::Separator, Ghost(rows.take(7)), Ghost(rows[7]), chord);
    put(&mut items, keyed(Requires::DebugRunning, Action::Pause, "debugger.pause", chord), Ghost(rows.take(8)), Ghost(rows[8]), chord);
    put(&mut items, keyed(Requires::DebugStopped, Action::StepOver, "debugger.step-over", chord), Ghost(rows.take(9)), Ghost(rows[9]), chord);
    put(&mut items, keyed(Requires::DebugStopped, Action::StepInto, "debugger.step-into", chord), Ghost(rows.take(10)), Ghost(rows[10]), chord);
    put(&mut items, keyed(Requires::DebugStopped, Action::StepOut, "debugger.step-out", chord), Ghost(rows.take(11)), Ghost(rows[11]), chord);
    put(&mut items, Item::Separator, Ghost(rows.take(12)), Ghost(rows[12]), chord);
    put(&mut items, keyed(Requires::Project, Action::RefreshProject, "menu.project.recheck", chord), Ghost(rows.take(13)), Ghost(rows[13]), chord);
    put(&mut items, plain(Requires::Nothing, Action::RefreshToolchain, "menu.project.rescan-toolchain", chord), Ghost(rows.take(14)), Ghost(rows[14]), chord);
    put(&mut items, plain(Requires::Nothing, Action::ReloadCatalog, "menu.project.reload-catalogue", chord), Ghost(rows.take(15)), Ghost(rows[15]), chord);
    put(&mut items, Item::Separator, Ghost(rows.take(16)), Ghost(rows[16]), chord);
    let ghost inner_rows = interop_rows();
    let mut interop: Vec<Item> = Vec::new();
    put(&mut interop, plain(Requires::Project, Action::ScaffoldC("rust-calls-c"), "menu.project.rust-calls-c", chord), Ghost(inner_rows.take(0)), Ghost(inner_rows[0]), chord);
    put(&mut interop, plain(Requires::Project, Action::ScaffoldC("c-calls-rust"), "menu.project.c-calls-rust", chord), Ghost(inner_rows.take(1)), Ghost(inner_rows[1]), chord);
    assert(inner_rows.take(2) =~= inner_rows);
    put(&mut items, flyout("menu.project.c-interop", interop, chord), Ghost(rows.take(17)), Ghost(rows[17]), chord);
    assert(rows.take(18) =~= rows);
    items
}

// ---------------------------------------------------------------------------
// View
// ---------------------------------------------------------------------------

/// A panel of the rail, as the registry lists it.
pub struct PanelInfo {
    pub id: &'static str,
    pub title: String,
    /// Kept off the rail and out of the menu.
    pub hidden: bool,
    pub needs_project: bool,
}

/// A tab of the dock, with what the strip calls it.
pub struct DockEntry {
    pub tab: DockTab,
    pub label: String,
}

/// Whether an item is a flyout holding the rows described.
pub open spec fn is_flyout<F: Fn(Action) -> Option<String>>(item: Item, rows: Seq<Row>, chord: F) -> bool {
    item matches Item::Submenu { items: inner, .. } && are_rows(inner@, rows, chord)
}

/// The View menu's top level, folded the way VSCode's is: the two finders,
/// one flyout per kind of thing, and the Vim switch — not in a flyout,
/// where it was once looked for and not found.
pub open spec fn view_rows() -> Seq<Row> {
    seq![
        Row::Entry(Action::OpenPalette, "menu.view.palette"@, Requires::Nothing, Key::Chord),
        Row::Entry(Action::QuickOpen, "menu.view.quick-open"@, Requires::Project, Key::Chord),
        Row::Separator,
        Row::Submenu("menu.view.go"@),
        Row::Submenu("menu.view.appearance"@),
        Row::Submenu("menu.view.layout"@),
        Row::Separator,
        Row::Submenu("menu.view.panels"@),
        Row::Submenu("menu.view.panel-below"@),
        Row::Separator,
        Row::Entry(Action::ToggleVim, "menu.view.vim"@, Requires::Nothing, Key::NoKey),
    ]
}

/// Where to go: the finders, the language server's places, and Back and
/// Forward, each saying when it applies.
pub open spec fn go_rows() -> Seq<Row> {
    seq![
        Row::Entry(Action::GoToLine, "menu.view.go-to-line"@, Requires::Project, Key::Chord),
        Row::Entry(Action::GoToSymbolInFile, "menu.view.symbol-in-file"@, Requires::Project, Key::Chord),
        Row::Entry(Action::GoToSymbolInWorkspace, "menu.view.symbol-in-workspace"@, Requires::Project, Key::Chord),
        Row::Separator,
        Row::Entry(Action::FindReferences, "menu.view.references"@, Requires::Project, Key::Chord),
        Row::Entry(Action::GoToImplementations, "menu.view.implementations"@, Requires::Project, Key::Chord),
        Row::Entry(Action::GoToTypeDefinition, "menu.view.type-definition"@, Requires::Project, Key::Chord),
        Row::Entry(Action::ShowCallHierarchy, "menu.view.call-hierarchy"@, Requires::Project, Key::Chord),
        Row::Entry(Action::ExpandMacro, "menu.view.expand-macro"@, Requires::Project, Key::Chord),
        Row::Separator,
        Row::Entry(Action::NavBack, "menu.view.back"@, Requires::NavBack, Key::Chord),
        Row::Entry(Action::NavForward, "menu.view.forward"@, Requires::NavForward, Key::Chord),
        Row::Entry(Action::SwitchEditor, "menu.view.switch-editor"@, Requires::Project, Key::Chord),
    ]
}

/// How it looks: the three themes.
pub open spec fn appearance_rows() -> Seq<Row> {
    seq![
        Row::Entry(Action::SetTheme(Theme::System), "menu.view.theme-system"@, Requires::Nothing, Key::NoKey),
        Row::Entry(Action::SetTheme(Theme::Light), "menu.view.theme-light"@, Requires::Nothing, Key::NoKey),
        Row::Entry(Action::SetTheme(Theme::Dark), "menu.view.theme-dark"@, Requires::Nothing, Key::NoKey),
    ]
}

/// How the window is laid out.
pub open spec fn layout_rows() -> Seq<Row> {
    seq![
        Row::Entry(Action::ToggleTree, "menu.view.toggle-tree"@, Requires::Project, Key::Chord),
        Row::Entry(Action::SplitEditor, "menu.view.split"@, Requires::Project, Key::Chord),
        Row::Entry(Action::ToggleBoard, "menu.view.board-beside"@, Requires::Project, Key::Chord),
        Row::Separator,
        Row::Entry(Action::ResetLayout, "menu.view.reset-layout"@, Requires::Nothing, Key::NoKey),
    ]
}

/// The rail's panels, as the registry lists them, less the hidden ones.
pub open spec fn rail_rows(panels: Seq<PanelInfo>) -> Seq<Row>
    decreases panels.len(),
{
    if panels.len() == 0 {
        Seq::empty()
    } else {
        let before = rail_rows(panels.drop_last());
        let p = panels.last();
        if p.hidden {
            before
        } else {
            before.push(
                Row::Entry(
                    Action::ShowPanel(p.id),
                    p.title@,
                    if p.needs_project {
                        Requires::Project
                    } else {
                        Requires::Nothing
                    },
                    Key::Chord,
                ),
            )
        }
    }
}

/// The dock's tabs, one row each.
pub open spec fn dock_rows(dock: Seq<DockEntry>) -> Seq<Row> {
    dock.map_values(|d: DockEntry| Row::Entry(Action::ShowDock(d.tab), d.label@, Requires::Nothing, Key::NoKey))
}

/// The panel below: its switch, and its tabs.
pub open spec fn below_rows(dock: Seq<DockEntry>) -> Seq<Row> {
    seq![
        Row::Entry(Action::ToggleDock, "menu.view.toggle-panel-below"@, Requires::Nothing, Key::Chord),
        Row::Separator,
    ] + dock_rows(dock)
}

/// The View menu, with the keys `chord` gives each action, the rail's
/// panels as the registry lists them and the dock's tabs.
pub fn view_menu<F: Fn(Action) -> Option<String>>(chord: &F, panels: &[PanelInfo], dock: &[DockEntry]) -> (items: Vec<Item>)
    requires
        forall|a: Action| chord.requires((a,)),
    ensures
        are_rows(items@, view_rows(), *chord),
        is_flyout(items@[3], go_rows(), *chord),
        is_flyout(items@[4], appearance_rows(), *chord),
        is_flyout(items@[5], layout_rows(), *chord),
        is_flyout(items@[7], rail_rows(panels@), *chord),
        is_flyout(items@[8], below_rows(dock@), *chord),
{
    let ghost g = go_rows();
    let mut go: Vec<Item> = Vec::new();
    put(&mut go, keyed(Requires::Project, Action::GoToLine, "menu.view.go-to-line", chord), Ghost(g.take(0)), Ghost(g[0]), chord);
    put(&mut go, keyed(Requires::Project, Action::GoToSymbolInFile, "menu.view.symbol-in-file", chord), Ghost(g.take(1)), Ghost(g[1]), chord);
    put(&mut go, keyed(Requires::Project, Action::GoToSymbolInWorkspace, "menu.view.symbol-in-workspace", chord), Ghost(g.take(2)), Ghost(g[2]), chord);
    put(&mut go, Item::Separator, Ghost(g.take(3)), Ghost(g[3]), chord);
    put(&mut go, keyed(Requires::Project, Action::FindReferences, "menu.view.references", chord), Ghost(g.take(4)), Ghost(g[4]), chord);
    put(&mut go, keyed(Requires::Project, Action::GoToImplementations, "menu.view.implementations", chord), Ghost(g.take(5)), Ghost(g[5]), chord);
    put(&mut go, keyed(Requires::Project, Action::GoToTypeDefinition, "menu.view.type-definition", chord), Ghost(g.take(6)), Ghost(g[6]), chord);
    put(&mut go, keyed(Requires::Project, Action::ShowCallHierarchy, "menu.view.call-hierarchy", chord), Ghost(g.take(7)), Ghost(g[7]), chord);
    put(&mut go, keyed(Requires::Project, Action::ExpandMacro, "menu.view.expand-macro", chord), Ghost(g.take(8)), Ghost(g[8]), chord);
    put(&mut go, Item::Separator, Ghost(g.take(9)), Ghost(g[9]), chord);
    put(&mut go, keyed(Requires::NavBack, Action::NavBack, "menu.view.back", chord), Ghost(g.take(10)), Ghost(g[10]), chord);
    put(&mut go, keyed(Requires::NavForward, Action::NavForward, "menu.view.forward", chord), Ghost(g.take(11)), Ghost(g[11]), chord);
    put(&mut go, keyed(Requires::Project, Action::SwitchEditor, "menu.view.switch-editor", chord), Ghost(g.take(12)), Ghost(g[12]), chord);
    assert(g.take(13) =~= g);

    let ghost ap = appearance_rows();
    let mut appearance: Vec<Item> = Vec::new();
    put(&mut appearance, plain(Requires::Nothing, Action::SetTheme(Theme::System), "menu.view.theme-system", chord), Ghost(ap.take(0)), Ghost(ap[0]), chord);
    put(&mut appearance, plain(Requires::Nothing, Action::SetTheme(Theme::Light), "menu.view.theme-light", chord), Ghost(ap.take(1)), Ghost(ap[1]), chord);
    put(&mut appearance, plain(Requires::Nothing, Action::SetTheme(Theme::Dark), "menu.view.theme-dark", chord), Ghost(ap.take(2)), Ghost(ap[2]), chord);
    assert(ap.take(3) =~= ap);

    let ghost lr = layout_rows();
    let mut layout: Vec<Item> = Vec::new();
    put(&mut layout, keyed(Requires::Project, Action::ToggleTree, "menu.view.toggle-tree", chord), Ghost(lr.take(0)), Ghost(lr[0]), chord);
    put(&mut layout, keyed(Requires::Project, Action::SplitEditor, "menu.view.split", chord), Ghost(lr.take(1)), Ghost(lr[1]), chord);
    put(&mut layout, keyed(Requires::Project, Action::ToggleBoard, "menu.view.board-beside", chord), Ghost(lr.take(2)), Ghost(lr[2]), chord);
    put(&mut layout, Item::Separator, Ghost(lr.take(3)), Ghost(lr[3]), chord);
    put(&mut layout, plain(Requires::Nothing, Action::ResetLayout, "menu.view.reset-layout", chord), Ghost(lr.take(4)), Ghost(lr[4]), chord);
    assert(lr.take(5) =~= lr);

    let mut rail: Vec<Item> = Vec::new();
    let mut i: usize = 0;
    while i < panels.len()
        invariant
            i <= panels.len(),
            forall|a: Action| chord.requires((a,)),
            are_rows(rail@, rail_rows(panels@.take(i as int)), *chord),
        decreases panels.len() - i,
    {
        proof {
            assert(panels@.take(i + 1).drop_last() =~= panels@.take(i as int));
            assert(panels@.take(i + 1).last() == panels@[i as int]);
        }
        let p = &panels[i];
        if !p.hidden {
            let needs = if p.needs_project {
                Requires::Project
            } else {
                Requires::Nothing
            };
            let ghost row = Row::Entry(Action::ShowPanel(p.id), p.title@, needs, Key::Chord);
            let item = keyed(needs, Action::ShowPanel(p.id), p.title.as_str(), chord);
            put(&mut rail, item, Ghost(rail_rows(panels@.take(i as int))), Ghost(row), chord);
        }
        i = i + 1;
    }
    assert(panels@.take(panels.len() as int) =~= panels@);

    let ghost br = below_rows(dock@);
    let mut below: Vec<Item> = Vec::new();
    put(&mut below, keyed(Requires::Nothing, Action::ToggleDock, "menu.view.toggle-panel-below", chord), Ghost(br.take(0)), Ghost(br[0]), chord);
    put(&mut below, Item::Separator, Ghost(br.take(1)), Ghost(br[1]), chord);
    let mut k: usize = 0;
    while k < dock.len()
        invariant
            k <= dock.len(),
            br == below_rows(dock@),
            are_rows(below@, br.take(k + 2), *chord),
        decreases dock.len() - k,
    {
        let d = &dock[k];
        assert(br[k + 2] == Row::Entry(Action::ShowDock(d.tab), d.label@, Requires::Nothing, Key::NoKey));
        put(&mut below, plain(Requires::Nothing, Action::ShowDock(d.tab), d.label.as_str(), chord), Ghost(br.take(k + 2)), Ghost(br[k + 2]), chord);
        assert(br.take(k + 2).push(br[k + 2]) =~= br.take(k + 3));
        k = k + 1;
    }
    assert(br.take(dock.len() + 2) =~= br);

    let ghost v = view_rows();
    let mut items: Vec<Item> = Vec::new();
    put(&mut items, keyed(Requires::Nothing, Action::OpenPalette, "menu.view.palette", chord), Ghost(v.take(0)), Ghost(v[0]), chord);
    put(&mut items, keyed(Requires::Project, Action::QuickOpen, "menu.view.quick-open", chord), Ghost(v.take(1)), Ghost(v[1]), chord);
    put(&mut items, Item::Separator, Ghost(v.take(2)), Ghost(v[2]), chord);
    put(&mut items, flyout("menu.view.go", go, chord), Ghost(v.take(3)), Ghost(v[3]), chord);
    put(&mut items, flyout("menu.view.appearance", appearance, chord), Ghost(v.take(4)), Ghost(v[4]), chord);
    put(&mut items, flyout("menu.view.layout", layout, chord), Ghost(v.take(5)), Ghost(v[5]), chord);
    put(&mut items, Item::Separator, Ghost(v.take(6)), Ghost(v[6]), chord);
    put(&mut items, flyout("menu.view.panels", rail, chord), Ghost(v.take(7)), Ghost(v[7]), chord);
    put(&mut items, flyout("menu.view.panel-below", below, chord), Ghost(v.take(8)), Ghost(v[8]), chord);
    put(&mut items, Item::Separator, Ghost(v.take(9)), Ghost(v[9]), chord);
    put(&mut items, plain(Requires::Nothing, Action::ToggleVim, "menu.view.vim", chord), Ghost(v.take(10)), Ghost(v[10]), chord);
    assert(v.take(11) =~= v);
    items
}

// ---------------------------------------------------------------------------
// The menu bar
// ---------------------------------------------------------------------------

/// `str::to_uppercase`: what Unicode's case mapping makes of a text.
pub uninterp spec fn uppercase_of(s: Seq<char>) -> Seq<char>;

/// `str::to_uppercase`. The contract names the mapping and says nothing
/// more of it.
#[verifier::external_body]
fn uppercase(s: &str) -> (out: String)
    ensures
        out@ == uppercase_of(s@),
{
    s.to_uppercase()
}

/// A chip as people call it: the catalogue's name for it, or its id in
/// capitals before the catalogue has arrived.
pub open spec fn chip_name_of(chips: Seq<Chip>, chip: Seq<char>) -> Seq<char> {
    match chip_from(chips, chip, 0) {
        Some(i) => chips[i].name@,
        None => uppercase_of(chip),
    }
}

/// A chip as people call it — `ESP32-C3` for `esp32c3`.
pub fn chip_name(chips: &[Chip], chip: &str) -> (name: String)
    ensures
        name@ == chip_name_of(chips@, chip@),
{
    let mut i: usize = 0;
    while i < chips.len()
        invariant
            i <= chips.len(),
            chip_from(chips@, chip@, 0) == chip_from(chips@, chip@, i as int),
        decreases chips.len() - i,
    {
        if same_text(chips[i].id.as_str(), chip) {
            return owned(chips[i].name.as_str());
        }
        i = i + 1;
    }
    uppercase(chip)
}

/// A menu of the bar.
pub struct Menu {
    pub title: String,
    pub items: Vec<Item>,
}

/// An entry with a key of its own, whatever the lookup says.
fn fixed<F: Fn(Action) -> Option<String>>(needs: Requires, action: Action, key: &str, shortcut: &str, chord: &F) -> (item: Item)
    ensures
        is_row(item, Row::Entry(action, key@, needs, Key::Fixed(shortcut@)), *chord),
{
    entry_when(needs, action, key, Some(owned(shortcut)))
}

/// How many recent projects the File menu lists.
pub const RECENTS_SHOWN: usize = 8;

/// The playground flyout: one row per chip that has a playground, then its
/// example back and keeping it as a project, both only in a playground.
pub open spec fn playground_rows(chips: Seq<Chip>, playground: Seq<&'static str>) -> Seq<Row> {
    playground.map_values(
        |c: &'static str| Row::Entry(Action::OpenPlayground(c), chip_name_of(chips, c@), Requires::Nothing, Key::NoKey),
    ) + seq![
        Row::Separator,
        Row::Entry(Action::ResetPlayground, "menu.file.playground-reset"@, Requires::Playground, Key::NoKey),
        Row::Entry(Action::KeepPlayground, "menu.file.playground-keep"@, Requires::Playground, Key::NoKey),
    ]
}

/// The recent projects, newest first, at most eight, each named by its
/// folder and then where it is.
pub open spec fn recent_rows(recents: Seq<String>) -> Seq<Row> {
    Seq::new(
        if recents.len() < RECENTS_SHOWN {
            recents.len()
        } else {
            RECENTS_SHOWN as nat
        },
        |i: int| Row::Entry(Action::OpenRecent(i as usize), recent_label_of(recents[i]@), Requires::Nothing, Key::NoKey),
    )
}

/// The File menu: the three ways to have something to work on, the recent
/// projects when there are any, the settings, and the way out.
pub open spec fn file_rows(recents: Seq<String>) -> Seq<Row> {
    seq![
        Row::Entry(Action::ShowPanel("wizard"), "menu.file.new-project"@, Requires::Nothing, Key::NoKey),
        Row::Entry(Action::OpenProject, "menu.file.open-project"@, Requires::Nothing, Key::Chord),
        Row::Entry(Action::CloneRepository, "menu.file.clone"@, Requires::Nothing, Key::Chord),
        Row::Submenu("menu.file.playground"@),
    ] + (if recents.len() > 0 {
        seq![Row::Submenu("menu.file.open-recent"@)]
    } else {
        Seq::empty()
    }) + seq![
        Row::Separator,
        Row::Entry(Action::OpenSettings, "menu.file.settings"@, Requires::Nothing, Key::Chord),
        Row::Separator,
        Row::Entry(Action::CloseWindow, "menu.file.exit"@, Requires::Nothing, Key::NoKey),
    ]
}

/// The Edit menu: the editor's own keys, the search, and the comment toggle
/// and rename where VSCode's Edit menu keeps them.
pub open spec fn edit_rows() -> Seq<Row> {
    seq![
        Row::Entry(Action::Undo, "menu.edit.undo"@, Requires::Project, Key::Fixed("Ctrl+Z"@)),
        Row::Entry(Action::Redo, "menu.edit.redo"@, Requires::Project, Key::Fixed("Ctrl+Y"@)),
        Row::Separator,
        Row::Entry(Action::Cut, "menu.edit.cut"@, Requires::Project, Key::Fixed("Ctrl+X"@)),
        Row::Entry(Action::Copy, "menu.edit.copy"@, Requires::Project, Key::Fixed("Ctrl+C"@)),
        Row::Entry(Action::Paste, "menu.edit.paste"@, Requires::Project, Key::Fixed("Ctrl+V"@)),
        Row::Separator,
        Row::Entry(Action::ShowPanel("search"), "menu.edit.search"@, Requires::Project, Key::Chord),
        Row::Separator,
        Row::Entry(Action::ToggleComment, "menu.edit.comment"@, Requires::Project, Key::Chord),
        Row::Entry(Action::Rename, "menu.edit.rename"@, Requires::Project, Key::Chord),
    ]
}

/// The Device menu: the three verbs, the picker, a rescan, and the memory
/// panel.
pub open spec fn device_rows() -> Seq<Row> {
    seq![
        Row::Entry(Action::Flash, "menu.device.flash"@, Requires::Project, Key::Chord),
        Row::Entry(Action::FlashOnly, "menu.device.flash-only"@, Requires::Project, Key::Chord),
        Row::Entry(Action::Monitor, "menu.device.monitor"@, Requires::Project, Key::Chord),
        Row::Separator,
        Row::Entry(Action::PickDevice, "menu.device.pick"@, Requires::Project, Key::NoKey),
        Row::Entry(Action::ScanDevices, "menu.device.rescan"@, Requires::Nothing, Key::NoKey),
        Row::Separator,
        Row::Entry(Action::ShowPanel("memory"), "menu.device.memory"@, Requires::Project, Key::NoKey),
    ]
}

/// The Help menu: the environment check first, the update check beside
/// it, the shortcuts and the assistant, and somewhere to send a bug.
pub open spec fn help_rows(issues: &'static str, releases: &'static str) -> Seq<Row> {
    seq![
        Row::Entry(Action::CheckEnvironment, "menu.help.check-environment"@, Requires::Nothing, Key::NoKey),
        Row::Entry(Action::CheckUpdates, "menu.help.check-updates"@, Requires::Nothing, Key::NoKey),
        Row::Separator,
        Row::Entry(Action::OpenSettings, "menu.help.shortcuts"@, Requires::Nothing, Key::NoKey),
        Row::Entry(Action::ShowPanel("assistant"), "menu.help.assistant"@, Requires::Nothing, Key::NoKey),
        Row::Separator,
        Row::Entry(Action::OpenUrl(issues), "menu.help.report"@, Requires::Nothing, Key::NoKey),
        Row::Entry(Action::OpenUrl(releases), "menu.help.releases"@, Requires::Nothing, Key::NoKey),
    ]
}

fn file_menu<F: Fn(Action) -> Option<String>>(chord: &F, chips: &[Chip], playground: &[&'static str], recents: &[String]) -> (items: Vec<Item>)
    requires
        forall|a: Action| chord.requires((a,)),
    ensures
        are_rows(items@, file_rows(recents@), *chord),
        is_flyout(items@[3], playground_rows(chips@, playground@), *chord),
        recents@.len() > 0 ==> is_flyout(items@[4], recent_rows(recents@), *chord),
{
    let ghost pr = playground_rows(chips@, playground@);
    let mut flyout_items: Vec<Item> = Vec::new();
    let mut i: usize = 0;
    while i < playground.len()
        invariant
            i <= playground.len(),
            pr == playground_rows(chips@, playground@),
            are_rows(flyout_items@, pr.take(i as int), *chord),
        decreases playground.len() - i,
    {
        let chip = playground[i];
        let name = chip_name(chips, chip);
        assert(pr[i as int] == Row::Entry(Action::OpenPlayground(chip), chip_name_of(chips@, chip@), Requires::Nothing, Key::NoKey));
        put(&mut flyout_items, plain(Requires::Nothing, Action::OpenPlayground(chip), name.as_str(), chord), Ghost(pr.take(i as int)), Ghost(pr[i as int]), chord);
        assert(pr.take(i as int).push(pr[i as int]) =~= pr.take(i + 1));
        i = i + 1;
    }
    let n = playground.len();
    put(&mut flyout_items, Item::Separator, Ghost(pr.take(n as int)), Ghost(pr[n as int]), chord);
    put(&mut flyout_items, plain(Requires::Playground, Action::ResetPlayground, "menu.file.playground-reset", chord), Ghost(pr.take(n + 1)), Ghost(pr[n + 1]), chord);
    put(&mut flyout_items, plain(Requires::Playground, Action::KeepPlayground, "menu.file.playground-keep", chord), Ghost(pr.take(n + 2)), Ghost(pr[n + 2]), chord);
    assert(pr.take(n + 3) =~= pr);

    let ghost fr = file_rows(recents@);
    let mut items: Vec<Item> = Vec::new();
    put(&mut items, plain(Requires::Nothing, Action::ShowPanel("wizard"), "menu.file.new-project", chord), Ghost(fr.take(0)), Ghost(fr[0]), chord);
    put(&mut items, keyed(Requires::Nothing, Action::OpenProject, "menu.file.open-project", chord), Ghost(fr.take(1)), Ghost(fr[1]), chord);
    put(&mut items, keyed(Requires::Nothing, Action::CloneRepository, "menu.file.clone", chord), Ghost(fr.take(2)), Ghost(fr[2]), chord);
    put(&mut items, flyout("menu.file.playground", flyout_items, chord), Ghost(fr.take(3)), Ghost(fr[3]), chord);
    let mut at: usize = 4;
    if recents.len() > 0 {
        let ghost rr = recent_rows(recents@);
        let shown = if recents.len() < RECENTS_SHOWN {
            recents.len()
        } else {
            RECENTS_SHOWN
        };
        let mut recent_items: Vec<Item> = Vec::new();
        let mut k: usize = 0;
        while k < shown
            invariant
                k <= shown,
                shown <= recents.len(),
                shown == rr.len(),
                rr == recent_rows(recents@),
                are_rows(recent_items@, rr.take(k as int), *chord),
            decreases shown - k,
        {
            let label = recent_label(recents[k].as_str());
            put(&mut recent_items, plain(Requires::Nothing, Action::OpenRecent(k), label.as_str(), chord), Ghost(rr.take(k as int)), Ghost(rr[k as int]), chord);
            assert(rr.take(k as int).push(rr[k as int]) =~= rr.take(k + 1));
            k = k + 1;
        }
        assert(rr.take(shown as int) =~= rr);
        put(&mut items, flyout("menu.file.open-recent", recent_items, chord), Ghost(fr.take(4)), Ghost(fr[4]), chord);
        at = 5;
    }
    put(&mut items, Item::Separator, Ghost(fr.take(at as int)), Ghost(fr[at as int]), chord);
    put(&mut items, keyed(Requires::Nothing, Action::OpenSettings, "menu.file.settings", chord), Ghost(fr.take(at + 1)), Ghost(fr[at + 1]), chord);
    put(&mut items, Item::Separator, Ghost(fr.take(at + 2)), Ghost(fr[at + 2]), chord);
    put(&mut items, plain(Requires::Nothing, Action::CloseWindow, "menu.file.exit", chord), Ghost(fr.take(at + 3)), Ghost(fr[at + 3]), chord);
    assert(fr.take(at + 4) =~= fr);
    items
}

fn edit_menu<F: Fn(Action) -> Option<String>>(chord: &F) -> (items: Vec<Item>)
    requires
        forall|a: Action| chord.requires((a,)),
    ensures
        are_rows(items@, edit_rows(), *chord),
{
    let ghost r = edit_rows();
    let mut items: Vec<Item> = Vec::new();
    put(&mut items, fixed(Requires::Project, Action::Undo, "menu.edit.undo", "Ctrl+Z", chord), Ghost(r.take(0)), Ghost(r[0]), chord);
    put(&mut items, fixed(Requires::Project, Action::Redo, "menu.edit.redo", "Ctrl+Y", chord), Ghost(r.take(1)), Ghost(r[1]), chord);
    put(&mut items, Item::Separator, Ghost(r.take(2)), Ghost(r[2]), chord);
    put(&mut items, fixed(Requires::Project, Action::Cut, "menu.edit.cut", "Ctrl+X", chord), Ghost(r.take(3)), Ghost(r[3]), chord);
    put(&mut items, fixed(Requires::Project, Action::Copy, "menu.edit.copy", "Ctrl+C", chord), Ghost(r.take(4)), Ghost(r[4]), chord);
    put(&mut items, fixed(Requires::Project, Action::Paste, "menu.edit.paste", "Ctrl+V", chord), Ghost(r.take(5)), Ghost(r[5]), chord);
    put(&mut items, Item::Separator, Ghost(r.take(6)), Ghost(r[6]), chord);
    put(&mut items, keyed(Requires::Project, Action::ShowPanel("search"), "menu.edit.search", chord), Ghost(r.take(7)), Ghost(r[7]), chord);
    put(&mut items, Item::Separator, Ghost(r.take(8)), Ghost(r[8]), chord);
    put(&mut items, keyed(Requires::Project, Action::ToggleComment, "menu.edit.comment", chord), Ghost(r.take(9)), Ghost(r[9]), chord);
    put(&mut items, keyed(Requires::Project, Action::Rename, "menu.edit.rename", chord), Ghost(r.take(10)), Ghost(r[10]), chord);
    assert(r.take(11) =~= r);
    items
}

fn device_menu<F: Fn(Action) -> Option<String>>(chord: &F) -> (items: Vec<Item>)
    requires
        forall|a: Action| chord.requires((a,)),
    ensures
        are_rows(items@, device_rows(), *chord),
{
    let ghost r = device_rows();
    let mut items: Vec<Item> = Vec::new();
    put(&mut items, keyed(Requires::Project, Action::Flash, "menu.device.flash", chord), Ghost(r.take(0)), Ghost(r[0]), chord);
    put(&mut items, keyed(Requires::Project, Action::FlashOnly, "menu.device.flash-only", chord), Ghost(r.take(1)), Ghost(r[1]), chord);
    put(&mut items, keyed(Requires::Project, Action::Monitor, "menu.device.monitor", chord), Ghost(r.take(2)), Ghost(r[2]), chord);
    put(&mut items, Item::Separator, Ghost(r.take(3)), Ghost(r[3]), chord);
    put(&mut items, plain(Requires::Project, Action::PickDevice, "menu.device.pick", chord), Ghost(r.take(4)), Ghost(r[4]), chord);
    put(&mut items, plain(Requires::Nothing, Action::ScanDevices, "menu.device.rescan", chord), Ghost(r.take(5)), Ghost(r[5]), chord);
    put(&mut items, Item::Separator, Ghost(r.take(6)), Ghost(r[6]), chord);
    put(&mut items, plain(Requires::Project, Action::ShowPanel("memory"), "menu.device.memory", chord), Ghost(r.take(7)), Ghost(r[7]), chord);
    assert(r.take(8) =~= r);
    items
}

fn help_menu<F: Fn(Action) -> Option<String>>(chord: &F, issues: &'static str, releases: &'static str) -> (items: Vec<Item>)
    ensures
        are_rows(items@, help_rows(issues, releases), *chord),
{
    let ghost r = help_rows(issues, releases);
    let mut items: Vec<Item> = Vec::new();
    put(&mut items, plain(Requires::Nothing, Action::CheckEnvironment, "menu.help.check-environment", chord), Ghost(r.take(0)), Ghost(r[0]), chord);
    put(&mut items, plain(Requires::Nothing, Action::CheckUpdates, "menu.help.check-updates", chord), Ghost(r.take(1)), Ghost(r[1]), chord);
    put(&mut items, Item::Separator, Ghost(r.take(2)), Ghost(r[2]), chord);
    put(&mut items, plain(Requires::Nothing, Action::OpenSettings, "menu.help.shortcuts", chord), Ghost(r.take(3)), Ghost(r[3]), chord);
    put(&mut items, plain(Requires::Nothing, Action::ShowPanel("assistant"), "menu.help.assistant", chord), Ghost(r.take(4)), Ghost(r[4]), chord);
    put(&mut items, Item::Separator, Ghost(r.take(5)), Ghost(r[5]), chord);
    put(&mut items, plain(Requires::Nothing, Action::OpenUrl(issues), "menu.help.report", chord), Ghost(r.take(6)), Ghost(r[6]), chord);
    put(&mut items, plain(Requires::Nothing, Action::OpenUrl(releases), "menu.help.releases", chord), Ghost(r.take(7)), Ghost(r[7]), chord);
    assert(r.take(8) =~= r);
    items
}

/// The menu bar's titles, in order.
pub open spec fn bar_titles() -> Seq<Seq<char>> {
    seq![
        "menu.bar.file"@,
        "menu.bar.edit"@,
        "menu.bar.project"@,
        "menu.bar.view"@,
        "menu.bar.device"@,
        "menu.bar.help"@,
    ]
}

/// The menu bar: File, Edit, Project, View, Device and Help, each the rows
/// described for it — the same actions as the palette and the keys, so a
/// menu item cannot come to mean something its shortcut does not.
/// `playground` lists the chips that have a playground, `recents` the
/// projects opened lately, newest first; `issues` and `releases` are where
/// a bug is sent and where releases are.
pub fn menus<F: Fn(Action) -> Option<String>>(
    chord: &F,
    chips: &[Chip],
    playground: &[&'static str],
    recents: &[String],
    panels: &[PanelInfo],
    dock: &[DockEntry],
    issues: &'static str,
    releases: &'static str,
) -> (bar: Vec<Menu>)
    requires
        forall|a: Action| chord.requires((a,)),
    ensures
        bar@.len() == 6,
        forall|i: int| 0 <= i < 6 ==> #[trigger] bar@[i].title@ == bar_titles()[i],
        are_rows(bar@[0].items@, file_rows(recents@), *chord),
        is_flyout(bar@[0].items@[3], playground_rows(chips@, playground@), *chord),
        recents@.len() > 0 ==> is_flyout(bar@[0].items@[4], recent_rows(recents@), *chord),
        are_rows(bar@[1].items@, edit_rows(), *chord),
        are_rows(bar@[2].items@, project_rows(), *chord),
        bar@[2].items@.last() matches Item::Submenu { items: inner, .. } && are_rows(inner@, interop_rows(), *chord),
        are_rows(bar@[3].items@, view_rows(), *chord),
        is_flyout(bar@[3].items@[3], go_rows(), *chord),
        is_flyout(bar@[3].items@[4], appearance_rows(), *chord),
        is_flyout(bar@[3].items@[5], layout_rows(), *chord),
        is_flyout(bar@[3].items@[7], rail_rows(panels@), *chord),
        is_flyout(bar@[3].items@[8], below_rows(dock@), *chord),
        are_rows(bar@[4].items@, device_rows(), *chord),
        are_rows(bar@[5].items@, help_rows(issues, releases), *chord),
{
    let mut bar: Vec<Menu> = Vec::new();
    bar.push(Menu { title: owned("menu.bar.file"), items: file_menu(chord, chips, playground, recents) });
    bar.push(Menu { title: owned("menu.bar.edit"), items: edit_menu(chord) });
    bar.push(Menu { title: owned("menu.bar.project"), items: project_menu(chord) });
    bar.push(Menu { title: owned("menu.bar.view"), items: view_menu(chord, panels, dock) });
    bar.push(Menu { title: owned("menu.bar.device"), items: device_menu(chord) });
    bar.push(Menu { title: owned("menu.bar.help"), items: help_menu(chord, issues, releases) });
    bar
}

// ---------------------------------------------------------------------------
// What the labels name
// ---------------------------------------------------------------------------

/// What each fixed menu label names: the action a row with that label
/// carries. A table of its own, apart from the menus' row lists; the help
/// menu's two links go to the project's pages, `issues` and `releases`.
pub open spec fn names_action(label: Seq<char>, a: Action, issues: &'static str, releases: &'static str) -> bool {
    ||| label == "menu.project.build"@ && a == Action::Build
    ||| label == "menu.project.test"@ && a == Action::Test
    ||| label == "menu.project.run"@ && a == Action::Run
    ||| label == "menu.project.debug"@ && a == Action::Debug
    ||| label == "menu.project.stop"@ && a == Action::Stop
    ||| label == "menu.project.restart"@ && a == Action::Restart
    ||| label == "debugger.pause"@ && a == Action::Pause
    ||| label == "debugger.step-over"@ && a == Action::StepOver
    ||| label == "debugger.step-into"@ && a == Action::StepInto
    ||| label == "debugger.step-out"@ && a == Action::StepOut
    ||| label == "menu.project.recheck"@ && a == Action::RefreshProject
    ||| label == "menu.project.rescan-toolchain"@ && a == Action::RefreshToolchain
    ||| label == "menu.project.reload-catalogue"@ && a == Action::ReloadCatalog
    ||| label == "menu.project.rust-calls-c"@ && a == Action::ScaffoldC("rust-calls-c")
    ||| label == "menu.project.c-calls-rust"@ && a == Action::ScaffoldC("c-calls-rust")
    ||| label == "menu.view.palette"@ && a == Action::OpenPalette
    ||| label == "menu.view.quick-open"@ && a == Action::QuickOpen
    ||| label == "menu.view.vim"@ && a == Action::ToggleVim
    ||| label == "menu.view.go-to-line"@ && a == Action::GoToLine
    ||| label == "menu.view.symbol-in-file"@ && a == Action::GoToSymbolInFile
    ||| label == "menu.view.symbol-in-workspace"@ && a == Action::GoToSymbolInWorkspace
    ||| label == "menu.view.references"@ && a == Action::FindReferences
    ||| label == "menu.view.implementations"@ && a == Action::GoToImplementations
    ||| label == "menu.view.type-definition"@ && a == Action::GoToTypeDefinition
    ||| label == "menu.view.call-hierarchy"@ && a == Action::ShowCallHierarchy
    ||| label == "menu.view.expand-macro"@ && a == Action::ExpandMacro
    ||| label == "menu.view.back"@ && a == Action::NavBack
    ||| label == "menu.view.forward"@ && a == Action::NavForward
    ||| label == "menu.view.switch-editor"@ && a == Action::SwitchEditor
    ||| label == "menu.view.theme-system"@ && a == Action::SetTheme(Theme::System)
    ||| label == "menu.view.theme-light"@ && a == Action::SetTheme(Theme::Light)
    ||| label == "menu.view.theme-dark"@ && a == Action::SetTheme(Theme::Dark)
    ||| label == "menu.view.toggle-tree"@ && a == Action::ToggleTree
    ||| label == "menu.view.split"@ && a == Action::SplitEditor
    ||| label == "menu.view.board-beside"@ && a == Action::ToggleBoard
    ||| label == "menu.view.reset-layout"@ && a == Action::ResetLayout
    ||| label == "menu.view.toggle-panel-below"@ && a == Action::ToggleDock
    ||| label == "menu.file.playground-reset"@ && a == Action::ResetPlayground
    ||| label == "menu.file.playground-keep"@ && a == Action::KeepPlayground
    ||| label == "menu.file.new-project"@ && a == Action::ShowPanel("wizard")
    ||| label == "menu.file.open-project"@ && a == Action::OpenProject
    ||| label == "menu.file.clone"@ && a == Action::CloneRepository
    ||| label == "menu.file.settings"@ && a == Action::OpenSettings
    ||| label == "menu.file.exit"@ && a == Action::CloseWindow
    ||| label == "menu.edit.undo"@ && a == Action::Undo
    ||| label == "menu.edit.redo"@ && a == Action::Redo
    ||| label == "menu.edit.cut"@ && a == Action::Cut
    ||| label == "menu.edit.copy"@ && a == Action::Copy
    ||| label == "menu.edit.paste"@ && a == Action::Paste
    ||| label == "menu.edit.search"@ && a == Action::ShowPanel("search")
    ||| label == "menu.edit.comment"@ && a == Action::ToggleComment
    ||| label == "menu.edit.rename"@ && a == Action::Rename
    ||| label == "menu.device.flash"@ && a == Action::Flash
    ||| label == "menu.device.flash-only"@ && a == Action::FlashOnly
    ||| label == "menu.device.monitor"@ && a == Action::Monitor
    ||| label == "menu.device.pick"@ && a == Action::PickDevice
    ||| label == "menu.device.rescan"@ && a == Action::ScanDevices
    ||| label == "menu.device.memory"@ && a == Action::ShowPanel("memory")
    ||| label == "menu.help.check-environment"@ && a == Action::CheckEnvironment
    ||| label == "menu.help.check-updates"@ && a == Action::CheckUpdates
    ||| label == "menu.help.shortcuts"@ && a == Action::OpenSettings
    ||| label == "menu.help.assistant"@ && a == Action::ShowPanel("assistant")
    ||| label == "menu.help.report"@ && a == Action::OpenUrl(issues)
    ||| label == "menu.help.releases"@ && a == Action::OpenUrl(releases)
}

/// Every entry of a list of rows carries the action its label names.
pub open spec fn labels_name_actions(rows: Seq<Row>, issues: &'static str, releases: &'static str) -> bool {
    forall|i: int| 0 <= i < rows.len() ==> match #[trigger] rows[i] {
        Row::Entry(a, l, _, _) => names_action(l, a, issues, releases),
        _ => true,
    }
}

/// Every entry of the menu bar with a fixed label carries the action that
/// label names: clicking a row does what it says. The rows named by what
/// the user has — panels, tabs, chips, recent projects — are the others.
pub proof fn lemma_labels_name_their_actions(
    recents: Seq<String>,
    chips: Seq<Chip>,
    playground: Seq<&'static str>,
    dock: Seq<DockEntry>,
    issues: &'static str,
    releases: &'static str,
)
    ensures
        labels_name_actions(project_rows(), issues, releases),
        labels_name_actions(interop_rows(), issues, releases),
        labels_name_actions(view_rows(), issues, releases),
        labels_name_actions(go_rows(), issues, releases),
        labels_name_actions(appearance_rows(), issues, releases),
        labels_name_actions(layout_rows(), issues, releases),
        labels_name_actions(file_rows(recents), issues, releases),
        labels_name_actions(edit_rows(), issues, releases),
        labels_name_actions(device_rows(), issues, releases),
        labels_name_actions(help_rows(issues, releases), issues, releases),
        labels_name_actions(below_rows(dock).take(2), issues, releases),
        labels_name_actions(playground_rows(chips, playground).skip(playground.len() as int), issues, releases),
{
    assert(below_rows(dock).take(2) =~= seq![
        Row::Entry(Action::ToggleDock, "menu.view.toggle-panel-below"@, Requires::Nothing, Key::Chord),
        Row::Separator,
    ]);
    assert(playground_rows(chips, playground).skip(playground.len() as int) =~= seq![
        Row::Separator,
        Row::Entry(Action::ResetPlayground, "menu.file.playground-reset"@, Requires::Playground, Key::NoKey),
        Row::Entry(Action::KeepPlayground, "menu.file.playground-keep"@, Requires::Playground, Key::NoKey),
    ]);
}

} // verus!
