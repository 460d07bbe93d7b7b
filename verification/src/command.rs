//! Everything the user can ask for, in one list, and the rows the menus and
//! the palette show for it.
//!
//! The palette and the keyboard shortcuts run the *same* actions. Written
//! twice they drift: a shortcut keeps working after the menu item it mirrors
//! has changed, and only one of them gets fixed.

use vstd::prelude::*;

use crate::devices::DeviceAction;
use crate::menus::PanelInfo;
use crate::places::PlaceQuery;
use crate::text::{chars_of, owned, same_text, string_of};

verus! {

/// How the window looks.
#[derive(Clone, Copy, PartialEq, Eq, Debug, Structural)]
pub enum Theme {
    System,
    Light,
    Dark,
}

/// A tab of the dock below the editor.
#[derive(Clone, Copy, PartialEq, Eq, Debug, Structural)]
pub enum DockTab {
    Output,
    Terminal,
    Debug,
    Calls,
}

/// Something the user can ask for, from the palette, a menu or a key.
#[derive(Clone, Copy, PartialEq, Eq, Debug)]
pub enum Action {
    ShowPanel(&'static str),
    OpenProject,
    /// The clone dialog: a URL, a folder, and a project at the end of it.
    CloneRepository,
    RefreshProject,
    RefreshToolchain,
    ReloadCatalog,
    ScanDevices,
    Build,
    Test,
    /// In the simulator.
    Run,
    Debug,
    Stop,
    /// The running simulation stopped and started again with the code on
    /// screen.
    Restart,
    /// The debugger's own verbs, on VS Code's keys: F6, F10, F11 and
    /// Shift+F11.
    Pause,
    StepOver,
    StepInto,
    StepOut,
    /// A chip's playground, opened: code beside the board, no project to
    /// make first.
    OpenPlayground(&'static str),
    ResetPlayground,
    KeepPlayground,
    /// The simulated board beside the editor, or not.
    ToggleBoard,
    /// Build, write the image to the chosen device, and stay attached.
    Flash,
    /// Build and write the image, and stop there.
    FlashOnly,
    /// Attach to the chosen device without writing anything.
    Monitor,
    PickDevice,
    /// Open the nth entry of the recents list.
    OpenRecent(usize),
    Undo,
    Redo,
    Cut,
    Copy,
    Paste,
    ToggleDock,
    ShowDock(DockTab),
    OpenPalette,
    QuickOpen,
    GoToSymbolInFile,
    GoToSymbolInWorkspace,
    GoToLine,
    FindReferences,
    GoToImplementations,
    GoToTypeDefinition,
    ShowCallHierarchy,
    ExpandMacro,
    ToggleTree,
    SplitEditor,
    OpenSettings,
    CheckEnvironment,
    CheckUpdates,
    SetTheme(Theme),
    ResetLayout,
    /// Scaffold C interop, in whichever direction.
    ScaffoldC(&'static str),
    CloseWindow,
    ToggleVim,
    NavBack,
    NavForward,
    SwitchEditor,
    SwitchEditorBack,
    ToggleComment,
    Rename,
    OpenUrl(&'static str),
}

/// When a menu row is available.
///
/// Greying out rather than hiding, which is this project's menu convention:
/// present but unavailable says "this exists, and here is when"; hidden says
/// nothing at all.
#[derive(Clone, Copy, PartialEq, Eq, Debug, Structural)]
pub enum Requires {
    Nothing,
    /// A project open.
    Project,
    /// Somewhere to go back or forward to.
    NavBack,
    NavForward,
    /// A playground open.
    Playground,
    /// A debug session stopped, for the steps; one running, for Pause.
    DebugStopped,
    DebugRunning,
}

/// What the workbench can say about itself when a row asks.
#[derive(Clone, Copy, PartialEq, Eq, Debug, Structural)]
pub struct Situation {
    pub has_project: bool,
    pub in_playground: bool,
    pub debug_stopped: bool,
    pub debug_running: bool,
    pub can_go_back: bool,
    pub can_go_forward: bool,
}

/// Whether a row's condition holds in a situation.
pub open spec fn requirement_met(r: Requires, s: Situation) -> bool {
    match r {
        Requires::Nothing => true,
        Requires::Project => s.has_project,
        Requires::Playground => s.in_playground,
        Requires::DebugStopped => s.debug_stopped,
        Requires::DebugRunning => s.debug_running,
        Requires::NavBack => s.can_go_back,
        Requires::NavForward => s.can_go_forward,
    }
}

impl Requires {
    pub fn met(self, situation: &Situation) -> (b: bool)
        ensures
            b == requirement_met(self, *situation),
    {
        match self {
            Requires::Nothing => true,
            Requires::Project => situation.has_project,
            Requires::Playground => situation.in_playground,
            Requires::DebugStopped => situation.debug_stopped,
            Requires::DebugRunning => situation.debug_running,
            Requires::NavBack => situation.can_go_back,
            Requires::NavForward => situation.can_go_forward,
        }
    }
}

/// One row in a menu.
#[derive(Debug)]
pub enum Item {
    Entry { action: Action, label: String, shortcut: Option<String>, condition: Requires },
    /// A flyout, the list kept out of the way until asked for.
    Submenu { label: String, items: Vec<Item> },
    Separator,
}

/// When a row can be used; a flyout or a separator is no row of its own.
pub open spec fn row_condition(item: Item) -> Option<Requires> {
    match item {
        Item::Entry { condition: r, .. } => Some(r),
        _ => None,
    }
}

/// A row available when `needs` says.
pub fn entry_when(needs: Requires, action: Action, label: &str, shortcut: Option<String>) -> (item:
    Item)
    ensures
        item matches Item::Entry { action: a, label: l, shortcut: s, .. } && a == action && l@
            == label@ && s == shortcut,
        row_condition(item) == Some(needs),
{
    Item::Entry { action, label: label.to_owned(), shortcut, condition: needs }
}

/// A row that is always available.
pub fn entry(action: Action, label: &str, shortcut: Option<String>) -> (item: Item)
    ensures
        item matches Item::Entry { action: a, label: l, shortcut: s, .. } && a == action && l@
            == label@ && s == shortcut,
        row_condition(item) == Some(Requires::Nothing),
{
    entry_when(Requires::Nothing, action, label, shortcut)
}

/// A row that needs a project open.
pub fn project_entry(action: Action, label: &str, shortcut: Option<String>) -> (item: Item)
    ensures
        item matches Item::Entry { action: a, label: l, shortcut: s, .. } && a == action && l@
            == label@ && s == shortcut,
        row_condition(item) == Some(Requires::Project),
{
    entry_when(Requires::Project, action, label, shortcut)
}

// ---------------------------------------------------------------------------
// The palette's matching
// ---------------------------------------------------------------------------

/// What `char::to_lowercase` yields for a character: one or more
/// characters, by Unicode's case mapping.
pub uninterp spec fn lowercase_of(c: char) -> Seq<char>;

/// `char::to_lowercase`, collected: the characters Unicode lowercases `c`
/// to. The contract names that mapping and says nothing more of it.
#[verifier::external_body]
fn lowercase(c: char) -> (out: Vec<char>)
    ensures
        out@ == lowercase_of(c),
{
    c.to_lowercase().collect()
}

/// A text lowercased a character at a time, as `flat_map(char::to_lowercase)`
/// yields it.
pub open spec fn lower(s: Seq<char>) -> Seq<char>
    decreases s.len(),
{
    if s.len() == 0 {
        Seq::empty()
    } else {
        lower(s.drop_last()) + lowercase_of(s.last())
    }
}

/// `a` appears in `b` in order, not necessarily together: some increasing
/// choice of positions in `b` spells `a`.
pub open spec fn is_subsequence(a: Seq<char>, b: Seq<char>) -> bool {
    exists|pos: Seq<int>| embeds(pos, a, b)
}

pub open spec fn embeds(pos: Seq<int>, a: Seq<char>, b: Seq<char>) -> bool {
    &&& pos.len() == a.len()
    &&& forall|i: int| 0 <= i < pos.len() ==> 0 <= #[trigger] pos[i] < b.len() && b[pos[i]]
        == a[i]
    &&& forall|i: int, j: int| 0 <= i < j < pos.len() ==> pos[i] < pos[j]
}

/// Matching the way a palette does: taking each character of `b` in turn,
/// and the next one of `a` whenever it is that character.
pub open spec fn greedy(a: Seq<char>, b: Seq<char>) -> bool
    decreases b.len(),
{
    if a.len() == 0 {
        true
    } else if b.len() == 0 {
        false
    } else if a[0] == b[0] {
        greedy(a.drop_first(), b.drop_first())
    } else {
        greedy(a, b.drop_first())
    }
}

proof fn lemma_greedy_embeds(a: Seq<char>, b: Seq<char>)
    requires
        greedy(a, b),
    ensures
        is_subsequence(a, b),
    decreases b.len(),
{
    if a.len() == 0 {
        assert(embeds(Seq::empty(), a, b));
    } else if a[0] == b[0] {
        lemma_greedy_embeds(a.drop_first(), b.drop_first());
        let p = choose|p: Seq<int>| embeds(p, a.drop_first(), b.drop_first());
        let q = seq![0int] + p.map_values(|x: int| x + 1);
        assert forall|i: int| 0 <= i < q.len() implies 0 <= #[trigger] q[i] < b.len() && b[q[i]]
            == a[i] by {
            if i > 0 {
                assert(q[i] == p[i - 1] + 1);
            }
        }
        assert forall|i: int, j: int| 0 <= i < j < q.len() implies q[i] < q[j] by {
            if i > 0 {
                assert(q[i] == p[i - 1] + 1);
            }
            assert(q[j] == p[j - 1] + 1);
            assert(p[j - 1] >= 0);
        }
        assert(embeds(q, a, b));
    } else {
        lemma_greedy_embeds(a, b.drop_first());
        let p = choose|p: Seq<int>| embeds(p, a, b.drop_first());
        let q = p.map_values(|x: int| x + 1);
        assert forall|i: int| 0 <= i < q.len() implies 0 <= #[trigger] q[i] < b.len() && b[q[i]]
            == a[i] by {
            assert(q[i] == p[i] + 1);
        }
        assert forall|i: int, j: int| 0 <= i < j < q.len() implies q[i] < q[j] by {
            assert(q[i] == p[i] + 1);
            assert(q[j] == p[j] + 1);
        }
        assert(embeds(q, a, b));
    }
}

proof fn lemma_embeds_greedy(a: Seq<char>, b: Seq<char>, pos: Seq<int>)
    requires
        embeds(pos, a, b),
    ensures
        greedy(a, b),
    decreases b.len(),
{
    if a.len() == 0 {
    } else {
        // `b` is not empty: it holds where `a` starts.
        assert(0 <= pos[0] < b.len());
        if a[0] == b[0] {
            // The rest of `a` sits after position 0.
            let p = pos.drop_first().map_values(|x: int| x - 1);
            assert forall|i: int| 0 <= i < p.len() implies 0 <= #[trigger] p[i] < b.len() - 1
                && b.drop_first()[p[i]] == a.drop_first()[i] by {
                assert(pos[0] < pos[i + 1]);
                assert(p[i] == pos[i + 1] - 1);
            }
            assert forall|i: int, j: int| 0 <= i < j < p.len() implies p[i] < p[j] by {
                assert(pos[i + 1] < pos[j + 1]);
            }
            assert(embeds(p, a.drop_first(), b.drop_first()));
            lemma_embeds_greedy(a.drop_first(), b.drop_first(), p);
        } else {
            // Position 0 is not where `a` starts, so every position moves down one.
            assert(pos[0] != 0);
            let p = pos.map_values(|x: int| x - 1);
            assert forall|i: int| 0 <= i < p.len() implies 0 <= #[trigger] p[i] < b.len() - 1
                && b.drop_first()[p[i]] == a[i] by {
                if i > 0 {
                    assert(pos[0] < pos[i]);
                }
                assert(p[i] == pos[i] - 1);
            }
            assert forall|i: int, j: int| 0 <= i < j < p.len() implies p[i] < p[j] by {
                assert(pos[i] < pos[j]);
            }
            assert(embeds(p, a, b.drop_first()));
            lemma_embeds_greedy(a, b.drop_first(), p);
        }
    }
}

/// Matching greedily finds exactly the subsequences.
pub proof fn lemma_greedy_is_subsequence(a: Seq<char>, b: Seq<char>)
    ensures
        greedy(a, b) <==> is_subsequence(a, b),
{
    if greedy(a, b) {
        lemma_greedy_embeds(a, b);
    }
    if is_subsequence(a, b) {
        let pos = choose|pos: Seq<int>| embeds(pos, a, b);
        lemma_embeds_greedy(a, b, pos);
    }
}

fn lowered(v: &Vec<char>) -> (out: Vec<char>)
    ensures
        out@ == lower(v@),
{
    let mut out: Vec<char> = Vec::new();
    let mut i: usize = 0;
    while i < v.len()
        invariant
            i <= v.len(),
            out@ == lower(v@.take(i as int)),
        decreases v.len() - i,
    {
        let l = lowercase(v[i]);
        let mut k: usize = 0;
        let ghost start = out@;
        while k < l.len()
            invariant
                k <= l.len(),
                out@ == start + l@.take(k as int),
            decreases l.len() - k,
        {
            out.push(l[k]);
            k = k + 1;
            assert(out@ =~= start + l@.take(k as int));
        }
        assert(v@.take(i + 1).drop_last() =~= v@.take(i as int));
        assert(l@.take(l.len() as int) =~= l@);
        i = i + 1;
    }
    assert(v@.take(v.len() as int) =~= v@);
    out
}

/// Whether the characters of `needle` appear in `haystack` in order —
/// what the palette asks of two texts once both are lowercased.
pub fn in_order(needle: &Vec<char>, haystack: &Vec<char>) -> (r: bool)
    ensures
        r == is_subsequence(needle@, haystack@),
{
    let a = needle;
    let b = haystack;
    proof {
        lemma_greedy_is_subsequence(a@, b@);
    }
    let mut i: usize = 0;
    let mut j: usize = 0;
    assert(a@.skip(0) =~= a@);
    assert(b@.skip(0) =~= b@);
    while i < a.len() && j < b.len()
        invariant
            i <= a.len(),
            j <= b.len(),
            greedy(a@, b@) == greedy(a@.skip(i as int), b@.skip(j as int)),
        decreases b.len() - j,
    {
        assert(a@.skip(i as int)[0] == a@[i as int]);
        assert(b@.skip(j as int)[0] == b@[j as int]);
        assert(a@.skip(i as int).drop_first() =~= a@.skip(i + 1));
        assert(b@.skip(j as int).drop_first() =~= b@.skip(j + 1));
        if a[i] == b[j] {
            i = i + 1;
        }
        j = j + 1;
    }
    i == a.len()
}

/// Whether `needle` appears in `haystack` in order, ignoring case.
///
/// Subsequence rather than substring, which is what a palette is expected to
/// do: "flsh" should find "Flash", and "gtov" should find "Go to Overview".
pub fn matches(needle: &str, haystack: &str) -> (r: bool)
    ensures
        r == is_subsequence(lower(needle@), lower(haystack@)),
{
    let a = lowered(&chars_of(needle));
    let b = lowered(&chars_of(haystack));
    in_order(&a, &b)
}

// ---------------------------------------------------------------------------
// Labels
// ---------------------------------------------------------------------------

/// A path separator, either way round.
pub open spec fn is_separator(c: char) -> bool {
    c == '/' || c == '\\'
}

/// A path with its trailing separators dropped.
pub open spec fn trim_separators(s: Seq<char>) -> Seq<char>
    decreases s.len(),
{
    if s.len() > 0 && is_separator(s.last()) {
        trim_separators(s.drop_last())
    } else {
        s
    }
}

/// What follows the last separator, or all of it when there is none.
pub open spec fn last_component(s: Seq<char>) -> Seq<char>
    decreases s.len(),
{
    if s.len() == 0 {
        s
    } else if is_separator(s.last()) {
        Seq::empty()
    } else {
        last_component(s.drop_last()).push(s.last())
    }
}

/// A recents entry as a menu label: the folder, then where it is.
pub open spec fn recent_label_of(path: Seq<char>) -> Seq<char> {
    last_component(trim_separators(path)) + " — "@ + path
}

/// A recents entry as a menu label: the folder, then where it is — two
/// projects both named `firmware` are told apart by the rest of the path.
pub fn recent_label(path: &str) -> (label: String)
    ensures
        label@ == recent_label_of(path@),
{
    let v = chars_of(path);
    let mut end = v.len();
    assert(v@.take(end as int) =~= v@);
    while end > 0 && (v[end - 1] == '/' || v[end - 1] == '\\')
        invariant
            end <= v.len(),
            trim_separators(v@) == trim_separators(v@.take(end as int)),
        decreases end,
    {
        assert(v@.take(end as int).drop_last() =~= v@.take(end - 1));
        end = end - 1;
    }
    let ghost trimmed = v@.take(end as int);
    assert(trim_separators(trimmed) == trimmed) by {
        if end > 0 {
            assert(trimmed.last() == v@[end - 1]);
        }
    }
    let mut start = end;
    while start > 0 && !(v[start - 1] == '/' || v[start - 1] == '\\')
        invariant
            start <= end <= v.len(),
            trimmed == v@.take(end as int),
            last_component(trimmed) == last_component(v@.take(start as int)) + v@.subrange(
                start as int,
                end as int,
            ),
        decreases start,
    {
        let ghost t = v@.take(start as int);
        assert(t.drop_last() =~= v@.take(start - 1));
        assert(v@.subrange(start - 1, end as int) =~= seq![v@[start - 1]] + v@.subrange(
            start as int,
            end as int,
        ));
        assert(last_component(t) == last_component(t.drop_last()).push(t.last()));
        assert(last_component(t.drop_last()).push(t.last()) + v@.subrange(start as int, end as int)
            =~= last_component(t.drop_last()) + v@.subrange(start - 1, end as int));
        start = start - 1;
    }
    proof {
        let t = v@.take(start as int);
        if start > 0 {
            assert(t.last() == v@[start - 1]);
            assert(last_component(t) =~= Seq::<char>::empty());
        } else {
            assert(t =~= Seq::<char>::empty());
        }
    }
    let mut out: Vec<char> = Vec::new();
    let mut k = start;
    while k < end
        invariant
            start <= k <= end <= v.len(),
            out@ == v@.subrange(start as int, k as int),
        decreases end - k,
    {
        out.push(v[k]);
        k = k + 1;
        assert(out@ =~= v@.subrange(start as int, k as int));
    }
    let dash = chars_of(" — ");
    let mut i: usize = 0;
    let ghost name = out@;
    while i < dash.len()
        invariant
            i <= dash.len(),
            out@ == name + dash@.take(i as int),
        decreases dash.len() - i,
    {
        out.push(dash[i]);
        i = i + 1;
        assert(out@ =~= name + dash@.take(i as int));
    }
    assert(dash@.take(dash.len() as int) =~= dash@);
    let mut i: usize = 0;
    let ghost head = out@;
    while i < v.len()
        invariant
            i <= v.len(),
            out@ == head + v@.take(i as int),
        decreases v.len() - i,
    {
        out.push(v[i]);
        i = i + 1;
        assert(out@ =~= head + v@.take(i as int));
    }
    assert(v@.take(v.len() as int) =~= v@);
    assert(name =~= last_component(trim_separators(v@)));
    string_of(&out)
}

/// What the workbench can say about itself when an action is carried out.
#[derive(Clone, Copy, PartialEq, Eq, Debug, Structural)]
pub struct Now {
    pub has_project: bool,
    /// A tool is running on the dock's session.
    pub session_running: bool,
    /// A debug session exists, stopped or running.
    pub debugging: bool,
    pub dock_open: bool,
    pub vim_on: bool,
}

/// What carrying out an action comes to.
pub enum Effect {
    /// Nothing: the action does not apply now.
    Nothing,
    /// Probe the tools again, then show the environment page.
    CheckEnvironment,
    Build,
    Test,
    /// Start the simulator, under the debugger or not.
    Simulate { debug: bool },
    StopAnything,
    RestartSimulation,
    /// One of the debugger's verbs: `pause`, `over`, `into` or `out`.
    DebugVerb(&'static str),
    OpenPlayground(&'static str),
    ResetPlayground,
    KeepPlayground,
    ToggleBoard,
    Device(DeviceAction),
    /// Scan for devices and open the picker.
    PickDevice,
    CheckUpdates,
    OpenAssistant,
    ShowPanel(&'static str),
    ChooseProject,
    OpenCloneDialog,
    /// Open this recent project.
    OpenRecent(String),
    /// A keydown sent to the focused editor, as the keyboard would.
    EditorKey { key: &'static str, ctrl: bool, shift: bool },
    /// A document editing command run against the focused editor.
    EditorCommand(&'static str),
    /// Read the clipboard and insert what it holds into the focused editor.
    Paste,
    RefreshProject,
    RefreshToolchain,
    LoadCatalog,
    ScanDevices,
    SetDockOpen(bool),
    ShowDock(DockTab),
    OpenPalette,
    /// The quick-open box, with what it starts with.
    QuickOpen { seed: &'static str },
    FindPlaces(PlaceQuery),
    ShowCallHierarchy,
    ExpandMacro,
    ToggleTree,
    SplitEditor,
    OpenSettings,
    CloseWindow,
    OpenUrl(&'static str),
    NavBack,
    NavForward,
    /// Switch editors and commit at once: the tap.
    SwitchEditor { back: bool },
    SetVim(bool),
    SetTheme(Theme),
    ScaffoldC(&'static str),
    /// Every divider back to its default, and the dock's strip too.
    ResetLayout,
}

/// The index of the first panel at or after `k` with this id.
pub open spec fn panel_from(panels: Seq<PanelInfo>, id: Seq<char>, k: int) -> Option<int>
    decreases panels.len() - k,
{
    if k < 0 || k >= panels.len() {
        None
    } else if panels[k].id@ == id {
        Some(k)
    } else {
        panel_from(panels, id, k + 1)
    }
}

/// Whether the registry lists the panel and it can be shown now: a panel
/// that needs a project while none is open cannot.
pub open spec fn panel_allowed(panels: Seq<PanelInfo>, id: Seq<char>, has_project: bool) -> bool {
    match panel_from(panels, id, 0) {
        Some(k) => !panels[k].needs_project || has_project,
        None => false,
    }
}

/// What an action comes to, given the workbench now. Project work waits
/// for a project; Stop only stops what runs.
pub open spec fn is_effect(e: Effect, action: Action, now: Now, panels: Seq<PanelInfo>, recents: Seq<String>) -> bool {
    let p = now.has_project;
    match action {
        Action::CheckEnvironment => e == Effect::CheckEnvironment,
        Action::Build => e == (if p { Effect::Build } else { Effect::Nothing }),
        Action::Test => e == (if p { Effect::Test } else { Effect::Nothing }),
        Action::Run => e == (if p { Effect::Simulate { debug: false } } else { Effect::Nothing }),
        Action::Debug => e == (if p { Effect::Simulate { debug: true } } else { Effect::Nothing }),
        Action::Stop => e == (if now.session_running || now.debugging { Effect::StopAnything } else { Effect::Nothing }),
        Action::Restart => e == (if p { Effect::RestartSimulation } else { Effect::Nothing }),
        Action::Pause => e == Effect::DebugVerb("pause"),
        Action::StepOver => e == Effect::DebugVerb("over"),
        Action::StepInto => e == Effect::DebugVerb("into"),
        Action::StepOut => e == Effect::DebugVerb("out"),
        Action::OpenPlayground(chip) => e == Effect::OpenPlayground(chip),
        Action::ResetPlayground => e == Effect::ResetPlayground,
        Action::KeepPlayground => e == Effect::KeepPlayground,
        Action::ToggleBoard => e == (if p { Effect::ToggleBoard } else { Effect::Nothing }),
        Action::Flash => e == (if p { Effect::Device(DeviceAction::Flash) } else { Effect::Nothing }),
        Action::FlashOnly => e == (if p { Effect::Device(DeviceAction::FlashOnly) } else { Effect::Nothing }),
        Action::Monitor => e == (if p { Effect::Device(DeviceAction::Monitor) } else { Effect::Nothing }),
        Action::PickDevice => e == (if p { Effect::PickDevice } else { Effect::Nothing }),
        Action::CheckUpdates => e == Effect::CheckUpdates,
        Action::ShowPanel(id) => if id@ == "assistant"@ {
            e == Effect::OpenAssistant
        } else if panel_allowed(panels, id@, p) {
            e == Effect::ShowPanel(id)
        } else {
            e == Effect::Nothing
        },
        Action::OpenProject => e == Effect::ChooseProject,
        Action::CloneRepository => e == Effect::OpenCloneDialog,
        Action::OpenRecent(index) => if index < recents.len() {
            e matches Effect::OpenRecent(path) && path@ == recents[index as int]@
        } else {
            e == Effect::Nothing
        },
        Action::Undo => e == Effect::EditorKey { key: "z", ctrl: true, shift: false },
        Action::Redo => e == Effect::EditorKey { key: "y", ctrl: true, shift: false },
        Action::Cut => e == Effect::EditorCommand("cut"),
        Action::Copy => e == Effect::EditorCommand("copy"),
        Action::Paste => e == Effect::Paste,
        Action::RefreshProject => e == Effect::RefreshProject,
        Action::RefreshToolchain => e == Effect::RefreshToolchain,
        Action::ReloadCatalog => e == Effect::LoadCatalog,
        Action::ScanDevices => e == Effect::ScanDevices,
        Action::ToggleDock => e == Effect::SetDockOpen(!now.dock_open),
        Action::ShowDock(tab) => e == Effect::ShowDock(tab),
        Action::OpenPalette => e == Effect::OpenPalette,
        Action::QuickOpen => e == (if p { Effect::QuickOpen { seed: "" } } else { Effect::Nothing }),
        Action::GoToLine => e == (if p { Effect::QuickOpen { seed: ":" } } else { Effect::Nothing }),
        Action::GoToSymbolInFile => e == (if p { Effect::QuickOpen { seed: "@" } } else { Effect::Nothing }),
        Action::GoToSymbolInWorkspace => e == (if p { Effect::QuickOpen { seed: "#" } } else { Effect::Nothing }),
        Action::FindReferences => e == Effect::FindPlaces(PlaceQuery::References),
        Action::GoToImplementations => e == Effect::FindPlaces(PlaceQuery::Implementations),
        Action::GoToTypeDefinition => e == Effect::FindPlaces(PlaceQuery::TypeDefinition),
        Action::ShowCallHierarchy => e == Effect::ShowCallHierarchy,
        Action::ExpandMacro => e == Effect::ExpandMacro,
        Action::ToggleTree => e == Effect::ToggleTree,
        Action::SplitEditor => e == Effect::SplitEditor,
        Action::OpenSettings => e == Effect::OpenSettings,
        Action::CloseWindow => e == Effect::CloseWindow,
        Action::OpenUrl(url) => e == Effect::OpenUrl(url),
        Action::ToggleComment => e == Effect::EditorKey { key: "/", ctrl: true, shift: false },
        Action::Rename => e == Effect::EditorKey { key: "F2", ctrl: false, shift: false },
        Action::NavBack => e == Effect::NavBack,
        Action::NavForward => e == Effect::NavForward,
        Action::SwitchEditor => e == Effect::SwitchEditor { back: false },
        Action::SwitchEditorBack => e == Effect::SwitchEditor { back: true },
        Action::ToggleVim => e == Effect::SetVim(!now.vim_on),
        Action::SetTheme(theme) => e == Effect::SetTheme(theme),
        Action::ScaffoldC(direction) => e == Effect::ScaffoldC(direction),
        Action::ResetLayout => e == Effect::ResetLayout,
    }
}

fn project_only(p: bool, e: Effect) -> (r: Effect)
    ensures
        r == (if p { e } else { Effect::Nothing }),
{
    if p { e } else { Effect::Nothing }
}

/// Whether the registry lets this panel be shown now.
fn panel_shown(panels: &[PanelInfo], id: &str, has_project: bool) -> (r: bool)
    ensures
        r == panel_allowed(panels@, id@, has_project),
{
    let mut i: usize = 0;
    while i < panels.len()
        invariant
            i <= panels.len(),
            panel_from(panels@, id@, 0) == panel_from(panels@, id@, i as int),
        decreases panels.len() - i,
    {
        if same_text(panels[i].id, id) {
            assert(panel_from(panels@, id@, i as int) == Some(i as int));
            return !panels[i].needs_project || has_project;
        }
        i = i + 1;
    }
    false
}

/// Carry out an action: what it comes to, given the workbench now, the
/// panels the registry lists and the recent projects.
pub fn run(action: Action, now: &Now, panels: &[PanelInfo], recents: &[String]) -> (e: Effect)
    ensures
        is_effect(e, action, *now, panels@, recents@),
{
    let p = now.has_project;
    match action {
        Action::CheckEnvironment => Effect::CheckEnvironment,
        Action::Build => project_only(p, Effect::Build),
        Action::Test => project_only(p, Effect::Test),
        Action::Run => project_only(p, Effect::Simulate { debug: false }),
        Action::Debug => project_only(p, Effect::Simulate { debug: true }),
        Action::Stop => {
            if now.session_running || now.debugging {
                Effect::StopAnything
            } else {
                Effect::Nothing
            }
        },
        Action::Restart => project_only(p, Effect::RestartSimulation),
        Action::Pause => Effect::DebugVerb("pause"),
        Action::StepOver => Effect::DebugVerb("over"),
        Action::StepInto => Effect::DebugVerb("into"),
        Action::StepOut => Effect::DebugVerb("out"),
        Action::OpenPlayground(chip) => Effect::OpenPlayground(chip),
        Action::ResetPlayground => Effect::ResetPlayground,
        Action::KeepPlayground => Effect::KeepPlayground,
        Action::ToggleBoard => project_only(p, Effect::ToggleBoard),
        Action::Flash => project_only(p, Effect::Device(DeviceAction::Flash)),
        Action::FlashOnly => project_only(p, Effect::Device(DeviceAction::FlashOnly)),
        Action::Monitor => project_only(p, Effect::Device(DeviceAction::Monitor)),
        Action::PickDevice => project_only(p, Effect::PickDevice),
        Action::CheckUpdates => Effect::CheckUpdates,
        Action::ShowPanel(id) => {
            if same_text(id, "assistant") {
                Effect::OpenAssistant
            } else if panel_shown(panels, id, p) {
                Effect::ShowPanel(id)
            } else {
                Effect::Nothing
            }
        },
        Action::OpenProject => Effect::ChooseProject,
        Action::CloneRepository => Effect::OpenCloneDialog,
        Action::OpenRecent(index) => {
            if index < recents.len() {
                Effect::OpenRecent(owned(recents[index].as_str()))
            } else {
                Effect::Nothing
            }
        },
        Action::Undo => Effect::EditorKey { key: "z", ctrl: true, shift: false },
        Action::Redo => Effect::EditorKey { key: "y", ctrl: true, shift: false },
        Action::Cut => Effect::EditorCommand("cut"),
        Action::Copy => Effect::EditorCommand("copy"),
        Action::Paste => Effect::Paste,
        Action::RefreshProject => Effect::RefreshProject,
        Action::RefreshToolchain => Effect::RefreshToolchain,
        Action::ReloadCatalog => Effect::LoadCatalog,
        Action::ScanDevices => Effect::ScanDevices,
        Action::ToggleDock => Effect::SetDockOpen(!now.dock_open),
        Action::ShowDock(tab) => Effect::ShowDock(tab),
        Action::OpenPalette => Effect::OpenPalette,
        Action::QuickOpen => project_only(p, Effect::QuickOpen { seed: "" }),
        Action::GoToLine => project_only(p, Effect::QuickOpen { seed: ":" }),
        Action::GoToSymbolInFile => project_only(p, Effect::QuickOpen { seed: "@" }),
        Action::GoToSymbolInWorkspace => project_only(p, Effect::QuickOpen { seed: "#" }),
        Action::FindReferences => Effect::FindPlaces(PlaceQuery::References),
        Action::GoToImplementations => Effect::FindPlaces(PlaceQuery::Implementations),
        Action::GoToTypeDefinition => Effect::FindPlaces(PlaceQuery::TypeDefinition),
        Action::ShowCallHierarchy => Effect::ShowCallHierarchy,
        Action::ExpandMacro => Effect::ExpandMacro,
        Action::ToggleTree => Effect::ToggleTree,
        Action::SplitEditor => Effect::SplitEditor,
        Action::OpenSettings => Effect::OpenSettings,
        Action::CloseWindow => Effect::CloseWindow,
        Action::OpenUrl(url) => Effect::OpenUrl(url),
        Action::ToggleComment => Effect::EditorKey { key: "/", ctrl: true, shift: false },
        Action::Rename => Effect::EditorKey { key: "F2", ctrl: false, shift: false },
        Action::NavBack => Effect::NavBack,
        Action::NavForward => Effect::NavForward,
        Action::SwitchEditor => Effect::SwitchEditor { back: false },
        Action::SwitchEditorBack => Effect::SwitchEditor { back: true },
        Action::ToggleVim => Effect::SetVim(!now.vim_on),
        Action::SetTheme(theme) => Effect::SetTheme(theme),
        Action::ScaffoldC(direction) => Effect::ScaffoldC(direction),
        Action::ResetLayout => Effect::ResetLayout,
    }
}

} // verus!
