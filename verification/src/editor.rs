//! The editor's strips of tabs, its two groups, and the paths that follow
//! an entry when it moves on disk.
//!
//! Parking is the load-bearing idea here. A tab that leaves the screen keeps
//! its draft, its caret and its history, so coming back to it is coming back
//! to where you were rather than to the top of the file.

use vstd::prelude::*;

use crate::calls::Location;
use crate::lsp::HoverCard;
use crate::save::{GroupDocs, OpenDoc, ParkedTab};
use crate::text::{chars_of, concat, is_blank, owned, same_text, trim, slice_of, string_of, starts_with, texts};

verus! {

// ---------------------------------------------------------------------------
// Paths that move
// ---------------------------------------------------------------------------

/// Where a path went when `from` moved to `to`: a file is the path itself; a
/// directory is the path and everything under it.
pub open spec fn retarget_of(path: Seq<char>, from: Seq<char>, to: Seq<char>, is_dir: bool) -> Option<
    Seq<char>,
> {
    if path == from {
        Some(to)
    } else if is_dir && from.is_prefix_of(path) && path.len() > from.len() && path[from.len() as int]
        == '/' {
        Some(to + path.skip(from.len() as int))
    } else {
        None
    }
}

/// Where a moved or renamed path went, for everything that holds paths.
///
/// A file is the path itself; a directory is the path and everything under
/// it, so `src` → `firmware/src` takes `src/main.rs` along. `None` for a
/// path the move did not touch — `src2/a.rs` is not under `src`, which is
/// why the separator is checked and not just the prefix.
pub fn retarget(path: &str, from: &str, to: &str, is_dir: bool) -> (r: Option<String>)
    ensures
        match retarget_of(path@, from@, to@, is_dir) {
            Some(p) => r is Some && r->0@ == p,
            None => r is None,
        },
{
    if same_text(path, from) {
        return Some(owned(to));
    }
    if !is_dir {
        return None;
    }
    let p = chars_of(path);
    let f = chars_of(from);
    if !starts_with(&p, &f) || p.len() <= f.len() || p[f.len()] != '/' {
        return None;
    }
    let rest = slice_of(&p, f.len(), p.len());
    assert(rest@ =~= p@.skip(f@.len() as int));
    let t = chars_of(to);
    let mut out = t.clone();
    let mut i: usize = 0;
    while i < rest.len()
        invariant
            i <= rest.len(),
            out@ == t@ + rest@.take(i as int),
        decreases rest.len() - i,
    {
        out.push(rest[i]);
        i = i + 1;
        assert(out@ =~= t@ + rest@.take(i as int));
    }
    assert(rest@.take(rest.len() as int) =~= rest@);
    Some(string_of(&out))
}

/// Moving back undoes a move: whatever a move of `from` to `to` took
/// along, a move of `to` back to `from` brings back to where it was.
pub proof fn lemma_move_back(path: Seq<char>, from: Seq<char>, to: Seq<char>, is_dir: bool)
    ensures
        retarget_of(path, from, to, is_dir) matches Some(moved) ==> retarget_of(moved, to, from, is_dir)
            == Some(path),
{
    if let Some(moved) = retarget_of(path, from, to, is_dir) {
        if path != from {
            let rest = path.skip(from.len() as int);
            assert(moved == to + rest);
            assert(moved.skip(to.len() as int) =~= rest);
            assert(to.is_prefix_of(moved)) by {
                assert(moved.subrange(0, to.len() as int) =~= to);
            }
            assert(moved[to.len() as int] == rest[0]);
            assert(rest[0] == path[from.len() as int]);
            assert(from + rest =~= path) by {
                assert(path.subrange(0, from.len() as int) =~= from);
            }
        }
    }
}

/// Every path in a list, moved along with `from` where it was under it.
pub open spec fn moved_list(list: Seq<String>, from: Seq<char>, to: Seq<char>, is_dir: bool) -> Seq<
    Seq<char>,
> {
    list.map_values(
        |p: String|
            match retarget_of(p@, from, to, is_dir) {
                Some(q) => q,
                None => p@,
            },
    )
}

/// Rename every path in a list that the move took along: the expanded
/// folders, the tabs, the source-view choices.
pub fn follow_paths(list: &mut Vec<String>, from: &str, to: &str, is_dir: bool)
    ensures
        texts(final(list)@) == moved_list(old(list)@, from@, to@, is_dir),
{
    let ghost before = list@;
    let mut i: usize = 0;
    while i < list.len()
        invariant
            i <= list.len(),
            list.len() == before.len(),
            forall|k: int| i <= k < list.len() ==> #[trigger] list@[k] == before[k],
            forall|k: int|
                0 <= k < i ==> #[trigger] list@[k]@ == moved_list(before, from@, to@, is_dir)[k],
        decreases list.len() - i,
    {
        if let Some(new) = retarget(list[i].as_str(), from, to, is_dir) {
            list.set(i, new);
        }
        i = i + 1;
    }
    assert(texts(list@) =~= moved_list(before, from@, to@, is_dir));
}

/// The tabs that go with a path that is gone: it, and everything under it
/// when it was a directory.
pub fn tabs_under(tabs: &Vec<String>, path: &str, is_dir: bool) -> (doomed: Vec<String>)
    ensures
        texts(doomed@) == texts(tabs@).filter(
            |t: Seq<char>| retarget_of(t, path@, Seq::empty(), is_dir) is Some,
        ),
{
    let ghost keep = |t: Seq<char>| retarget_of(t, path@, Seq::empty(), is_dir) is Some;
    let mut doomed: Vec<String> = Vec::new();
    let mut i: usize = 0;
    while i < tabs.len()
        invariant
            i <= tabs.len(),
            keep == (|t: Seq<char>| retarget_of(t, path@, Seq::empty(), is_dir) is Some),
            texts(doomed@) == texts(tabs@).take(i as int).filter(keep),
        decreases tabs.len() - i,
    {
        let hit = retarget(tabs[i].as_str(), path, "", is_dir);
        proof {
            reveal_strlit("");
            assert(""@ =~= Seq::<char>::empty());
        }
        let ghost prev = doomed@;
        if hit.is_some() {
            doomed.push(tabs[i].clone());
        }
        proof {
            let s = texts(tabs@).take(i + 1);
            assert(s.drop_last() =~= texts(tabs@).take(i as int));
            assert(s.last() == tabs@[i as int]@);
            assert(s.filter(keep) == s.drop_last().filter(keep) + (if keep(s.last()) {
                seq![s.last()]
            } else {
                Seq::empty()
            })) by {
                s.drop_last().lemma_filter_push(s.last(), keep);
                assert(s.drop_last().push(s.last()) =~= s);
            }
            assert(texts(doomed@) =~= texts(tabs@).take(i + 1).filter(keep));
        }
        i = i + 1;
    }
    assert(texts(tabs@).take(tabs.len() as int) =~= texts(tabs@));
    doomed
}

// ---------------------------------------------------------------------------
// The strip of tabs
// ---------------------------------------------------------------------------

/// The first tab that names `path`.
pub open spec fn tab_index_from(tabs: Seq<String>, path: Seq<char>, k: int) -> Option<int>
    decreases tabs.len() - k,
{
    if k < 0 || k >= tabs.len() {
        None
    } else if tabs[k]@ == path {
        Some(k)
    } else {
        tab_index_from(tabs, path, k + 1)
    }
}

pub open spec fn tab_index(tabs: Seq<String>, path: Seq<char>) -> Option<int> {
    tab_index_from(tabs, path, 0)
}

/// Which tab takes the screen when this one closes: the one after it, else
/// the one before, else nothing.
pub open spec fn neighbour_of(tabs: Seq<String>, closing: Seq<char>) -> Option<String> {
    match tab_index(tabs, closing) {
        Some(at) => if at + 1 < tabs.len() {
            Some(tabs[at + 1])
        } else if at >= 1 {
            Some(tabs[at - 1])
        } else {
            None
        },
        None => None,
    }
}

fn position_of(tabs: &Vec<String>, path: &str) -> (r: Option<usize>)
    ensures
        r matches Some(i) ==> tab_index(tabs@, path@) == Some(i as int) && i < tabs.len(),
        r is None ==> tab_index(tabs@, path@) is None,
{
    let mut k: usize = 0;
    while k < tabs.len() && !same_text(tabs[k].as_str(), path)
        invariant
            k <= tabs.len(),
            tab_index(tabs@, path@) == tab_index_from(tabs@, path@, k as int),
        decreases tabs.len() - k,
    {
        k = k + 1;
    }
    if k < tabs.len() {
        Some(k)
    } else {
        None
    }
}

/// Which tab takes the screen when this one closes: the one after it, else
/// the one before, else nothing.
pub fn neighbour_after_close(tabs: &Vec<String>, closing: &str) -> (r: Option<String>)
    ensures
        r == neighbour_of(tabs@, closing@),
{
    let at = match position_of(tabs, closing) {
        Some(at) => at,
        None => return None,
    };
    if at + 1 < tabs.len() {
        Some(tabs[at + 1].clone())
    } else if at >= 1 {
        Some(tabs[at - 1].clone())
    } else {
        None
    }
}

/// A list without every entry that names `path`.
pub open spec fn without(list: Seq<String>, path: Seq<char>) -> Seq<String> {
    list.filter(|t: String| t@ != path)
}

fn remove_all(list: &mut Vec<String>, path: &str)
    ensures
        final(list)@ == without(old(list)@, path@),
{
    let ghost before = list@;
    let ghost keep = |t: String| t@ != path@;
    let mut out: Vec<String> = Vec::new();
    let mut i: usize = 0;
    while i < list.len()
        invariant
            i <= list.len(),
            list@ == before,
            keep == (|t: String| t@ != path@),
            out@ == before.take(i as int).filter(keep),
        decreases list.len() - i,
    {
        let ghost prev = out@;
        if !same_text(list[i].as_str(), path) {
            out.push(list[i].clone());
        }
        proof {
            let s = before.take(i + 1);
            assert(s.drop_last() =~= before.take(i as int));
            s.drop_last().lemma_filter_push(s.last(), keep);
            assert(s.drop_last().push(s.last()) =~= s);
        }
        i = i + 1;
    }
    assert(before.take(before.len() as int) =~= before);
    *list = out;
}

/// The tabs of one group, and which of them are parked behind the one on
/// screen.
pub struct Strip {
    pub tabs: Vec<String>,
    pub parked: Vec<String>,
}

/// The close itself, for one group's strip: the tab and its parked editor
/// go, and when it was the one on screen its neighbour is named to take
/// the screen.
pub fn close_in_strip(strip: &mut Strip, path: &str, is_active: bool) -> (next: Option<String>)
    ensures
        next == (if is_active {
            neighbour_of(old(strip).tabs@, path@)
        } else {
            None
        }),
        final(strip).tabs@ == without(old(strip).tabs@, path@),
        final(strip).parked@ == without(old(strip).parked@, path@),
{
    let next = if is_active {
        neighbour_after_close(&strip.tabs, path)
    } else {
        None
    };
    remove_all(&mut strip.tabs, path);
    remove_all(&mut strip.parked, path);
    next
}

/// Every text but `a`.
pub open spec fn other_than(a: Seq<char>) -> spec_fn(Seq<char>) -> bool {
    |t: Seq<char>| t != a
}

/// The order a remembered strip is reopened in: every tab but the active
/// one as it stood, then the active one, so that it ends up on screen.
pub open spec fn reopen_order(tabs: Seq<String>, active: Option<Seq<char>>) -> Seq<Seq<char>> {
    match active {
        Some(a) => texts(tabs).filter(other_than(a)).push(a),
        None => texts(tabs),
    }
}

/// Reopen the tabs the project had last time: in strip order, the active
/// one last.
pub fn restore_order(tabs: &Vec<String>, active: Option<&str>) -> (order: Vec<String>)
    ensures
        texts(order@) == reopen_order(tabs@, match active {
            Some(a) => Some(a@),
            None => None,
        }),
{
    let mut order: Vec<String> = Vec::new();
    let mut i: usize = 0;
    let ghost act: Option<Seq<char>> = match active {
        Some(a) => Some(a@),
        None => None,
    };
    let ghost keep = |t: Seq<char>| act matches Some(a) ==> t != a;
    while i < tabs.len()
        invariant
            i <= tabs.len(),
            act == (match active {
                Some(a) => Some(a@),
                None => None,
            }),
            keep == (|t: Seq<char>| act matches Some(a) ==> t != a),
            texts(order@) == texts(tabs@).take(i as int).filter(keep),
            act is None ==> texts(order@) == texts(tabs@).take(i as int),
        decreases tabs.len() - i,
    {
        let skip = match active {
            Some(a) => same_text(tabs[i].as_str(), a),
            None => false,
        };
        if !skip {
            order.push(tabs[i].clone());
        }
        proof {
            let s = texts(tabs@).take(i + 1);
            assert(s.drop_last() =~= texts(tabs@).take(i as int));
            assert(s.last() == tabs@[i as int]@);
            s.drop_last().lemma_filter_push(s.last(), keep);
            assert(s.drop_last().push(s.last()) =~= s);
            assert(texts(order@) =~= s.filter(keep));
            if act is None {
                assert(texts(order@) =~= s);
            }
        }
        i = i + 1;
    }
    assert(texts(tabs@).take(tabs.len() as int) =~= texts(tabs@));
    match active {
        Some(a) => {
            let ghost before = order@;
            order.push(owned(a));
            proof {
                assert(texts(order@) =~= texts(before).push(a@));
                assert(texts(before) == texts(tabs@).filter(keep));
                assert(act == Some(a@));
                assert(texts(tabs@).filter(keep) =~= texts(tabs@).filter(other_than(a@))) by {
                    assert(keep =~= other_than(a@));
                }
                assert(texts(order@) =~= reopen_order(tabs@, Some(a@)));
            }
        },
        None => {
        },
    }
    order
}

/// Where a project's strip is remembered.
pub fn tabs_key(root: &str) -> (key: String)
    ensures
        key@ == "rusty.tabs."@ + root@,
{
    concat("rusty.tabs.", root)
}

// ---------------------------------------------------------------------------
// Two groups
// ---------------------------------------------------------------------------

/// The left and the right editor group.
#[derive(Clone, Copy, PartialEq, Eq, Debug, Structural)]
pub enum Group {
    First,
    Second,
}

/// How the editor is laid out.
#[derive(Clone, Copy, PartialEq, Eq, Debug, Structural)]
pub struct Layout {
    /// Two groups side by side.
    pub split: bool,
    /// The group keys go to.
    pub focus: Group,
    /// The file tree folded away.
    pub tree_hidden: bool,
}

/// Open a file in the right-hand group — VS Code's "Open to the Side" —
/// splitting the editor if it is not split yet. "Beside" is the right group
/// from *either* side: the group to open the file in comes back.
pub fn open_beside(layout: &mut Layout) -> (group: Group)
    ensures
        group == Group::Second,
        *final(layout) == (Layout { split: true, focus: Group::Second, ..*old(layout) }),
{
    layout.split = true;
    layout.focus = Group::Second;
    Group::Second
}

/// The left strip's split button and Ctrl+\: the left group's file opens on
/// the right as well. The path to open beside comes back, or nothing when
/// the left group has no file in front.
pub fn split_active(layout: &mut Layout, first_active: Option<String>) -> (path: Option<String>)
    ensures
        path == first_active,
        *final(layout) == (if first_active is Some {
            Layout { split: true, focus: Group::Second, ..*old(layout) }
        } else {
            *old(layout)
        }),
{
    match first_active {
        Some(path) => {
            open_beside(layout);
            Some(path)
        },
        None => None,
    }
}

/// Fold the file tree away or bring it back; the new state comes back, to
/// be remembered.
pub fn toggle_tree(layout: &mut Layout) -> (hidden: bool)
    ensures
        hidden == !old(layout).tree_hidden,
        *final(layout) == (Layout { tree_hidden: hidden, ..*old(layout) }),
{
    let hidden = !layout.tree_hidden;
    layout.tree_hidden = hidden;
    hidden
}

/// After a group lost a file. A second group with nothing left closes; a
/// first group with nothing left while the second has files takes them, so
/// the split never shows an empty pane on the left with the work on the
/// right, and never outlives having two things to compare. The path the
/// first group should bring to the front, when it took the second's files,
/// comes back.
pub fn settle_groups(
    layout: &mut Layout,
    first: &mut Strip,
    second: &mut Strip,
    second_active: Option<String>,
) -> (front: Option<String>)
    ensures
        final(layout).split ==> final(first).tabs@.len() > 0 && final(second).tabs@.len() > 0,
        final(layout).tree_hidden == old(layout).tree_hidden,
        if !old(layout).split {
            &&& *final(layout) == *old(layout)
            &&& final(first).tabs@ == old(first).tabs@ && final(first).parked@ == old(first).parked@
            &&& final(second).tabs@ == old(second).tabs@ && final(second).parked@ == old(
                second,
            ).parked@
            &&& front is None
        } else if old(second).tabs@.len() == 0 {
            &&& !final(layout).split && final(layout).focus == Group::First
            &&& final(first).tabs@ == old(first).tabs@ && final(first).parked@ == old(first).parked@
            &&& final(second).tabs@ == old(second).tabs@ && final(second).parked@ == old(
                second,
            ).parked@
            &&& front is None
        } else if old(first).tabs@.len() == 0 {
            &&& !final(layout).split && final(layout).focus == Group::First
            &&& final(first).tabs@ == old(second).tabs@ && final(first).parked@ == old(
                second,
            ).parked@
            &&& final(second).tabs@.len() == 0 && final(second).parked@.len() == 0
            &&& front == second_active
        } else {
            &&& *final(layout) == *old(layout)
            &&& final(first).tabs@ == old(first).tabs@ && final(first).parked@ == old(first).parked@
            &&& final(second).tabs@ == old(second).tabs@ && final(second).parked@ == old(
                second,
            ).parked@
            &&& front is None
        },
{
    if !layout.split {
        return None;
    }
    if second.tabs.len() == 0 {
        layout.split = false;
        layout.focus = Group::First;
        None
    } else if first.tabs.len() == 0 {
        std::mem::swap(&mut first.tabs, &mut second.tabs);
        std::mem::swap(&mut first.parked, &mut second.parked);
        second.parked = Vec::new();
        layout.split = false;
        layout.focus = Group::First;
        second_active
    } else {
        None
    }
}

/// What a group's find bar holds.
pub struct FindBar {
    pub open: bool,
    pub replace_open: bool,
    pub query: String,
    pub index: usize,
}

/// A caret of the editor, by line and column.
pub struct Caret {
    pub line: u32,
    pub col: u32,
}

/// What the editor holds about the document on screen only, and drops when
/// another comes: folds describe *this* document's lines, and the popups
/// and extra carets are about *this* text.
pub struct Transients {
    /// The folded lines.
    pub folds: Vec<u32>,
    /// The completion list showing, by label.
    pub completion: Option<Vec<String>>,
    /// The signature help showing.
    pub signature: Option<String>,
    pub hover: Option<HoverCard>,
    /// The carets besides the main one.
    pub cursors: Vec<Caret>,
}

/// Nothing about the document on screen left over.
pub open spec fn is_clear(t: Transients) -> bool {
    &&& t.folds@.len() == 0
    &&& t.completion is None
    &&& t.signature is None
    &&& t.hover is None
    &&& t.cursors@.len() == 0
}

/// Drop what belongs to the document on screen: its folds, the completion
/// list, signature help, the hover card and the extra carets.
pub fn clear_editor_transients(t: &mut Transients)
    ensures
        is_clear(*final(t)),
{
    t.folds = Vec::new();
    t.completion = None;
    t.signature = None;
    t.hover = None;
    t.cursors = Vec::new();
}

/// What a group shows besides its strip: the document on screen and its
/// draft, the line a jump asked to reveal, the paths that have an undo
/// history, and what belongs to the document on screen.
pub struct Screen {
    pub document: Option<OpenDoc>,
    pub draft: String,
    pub reveal: Option<Location>,
    /// Keyed by path — and the next project has a `src/main.rs` too.
    pub histories: Vec<String>,
    pub transients: Transients,
}

/// Forget everything a group holds: the project is changing under it. The
/// strip, the parked editors and every undo history go, nothing is on
/// screen — no folds, popups or extra carets either — nothing is to be
/// revealed, and the find bar closes empty.
pub fn reset_group(strip: &mut Strip, find: &mut FindBar, screen: &mut Screen)
    ensures
        final(strip).tabs@.len() == 0,
        final(strip).parked@.len() == 0,
        !final(find).open,
        !final(find).replace_open,
        final(find).query@.len() == 0,
        final(find).index == 0,
        final(screen).document is None,
        final(screen).draft@.len() == 0,
        final(screen).reveal is None,
        final(screen).histories@.len() == 0,
        is_clear(final(screen).transients),
{
    strip.tabs = Vec::new();
    strip.parked = Vec::new();
    find.open = false;
    find.replace_open = false;
    find.query = String::new();
    find.index = 0;
    screen.document = None;
    screen.draft = String::new();
    screen.reveal = None;
    screen.histories = Vec::new();
    clear_editor_transients(&mut screen.transients);
}

// ---------------------------------------------------------------------------
// The host
// ---------------------------------------------------------------------------

/// Whether the platform the WebView reports is Windows, for the words that
/// differ: Explorer or Finder, the Recycle Bin or the Trash.
pub fn host_is_windows(platform: &str) -> (b: bool)
    ensures
        b == "Win"@.is_prefix_of(platform@),
{
    starts_with(&chars_of(platform), &chars_of("Win"))
}

/// Whether the platform the WebView reports is a Mac.
pub fn host_is_mac(platform: &str) -> (b: bool)
    ensures
        b == "Mac"@.is_prefix_of(platform@),
{
    starts_with(&chars_of(platform), &chars_of("Mac"))
}

// ---------------------------------------------------------------------------
// Fronting and closing a tab
// ---------------------------------------------------------------------------

/// The first parked tab at or after `k` whose document is at `path`.
pub open spec fn parked_from(parked: Seq<ParkedTab>, path: Seq<char>, k: int) -> Option<int>
    decreases parked.len() - k,
{
    if k < 0 || k >= parked.len() {
        None
    } else if parked[k].document.path@ == path {
        Some(k)
    } else {
        parked_from(parked, path, k + 1)
    }
}

proof fn lemma_parked_from_found(parked: Seq<ParkedTab>, path: Seq<char>, k: int)
    requires
        0 <= k,
    ensures
        parked_from(parked, path, k) matches Some(i) ==> k <= i < parked.len() && parked[i].document.path@ == path
            && forall|j: int| k <= j < i ==> parked[j].document.path@ != path,
        parked_from(parked, path, k) is None ==> forall|j: int| k <= j < parked.len() ==> parked[j].document.path@ != path,
    decreases parked.len() - k,
{
    if k < parked.len() && parked[k].document.path@ != path {
        lemma_parked_from_found(parked, path, k + 1);
    }
}

/// Where the parked tab at `path` is, if one is.
fn parked_index(parked: &Vec<ParkedTab>, path: &str) -> (r: Option<usize>)
    ensures
        match parked_from(parked@, path@, 0) {
            Some(i) => 0 <= i < parked.len() && r == Some(i as usize),
            None => r is None,
        },
{
    proof {
        lemma_parked_from_found(parked@, path@, 0);
    }
    let mut i: usize = 0;
    while i < parked.len()
        invariant
            i <= parked.len(),
            parked_from(parked@, path@, 0) == parked_from(parked@, path@, i as int),
        decreases parked.len() - i,
    {
        if same_text(parked[i].document.path.as_str(), path) {
            assert(parked_from(parked@, path@, i as int) == Some(i as int));
            return Some(i);
        }
        i = i + 1;
    }
    None
}

/// What a click on a tab comes to.
#[derive(Clone, Copy, PartialEq, Eq, Debug, Structural)]
pub enum Activation {
    /// It is already on screen.
    Nothing,
    /// Its editor is parked: park the one on screen and front it.
    Front,
    /// Listed with no parked editor — restored last session and never
    /// clicked since: read it, as a click in the tree would.
    Open,
}

/// Front an already open tab: nothing when it is on screen, its parked
/// editor when it has one, and otherwise a read of the file.
pub fn activate_tab(active: Option<&str>, parked: &Vec<ParkedTab>, path: &str) -> (a: Activation)
    ensures
        a == (if active matches Some(p) && p@ == path@ {
            Activation::Nothing
        } else if parked_from(parked@, path@, 0) is Some {
            Activation::Front
        } else {
            Activation::Open
        }),
{
    let on_screen = match active {
        Some(p) => same_text(p, path),
        None => false,
    };
    if on_screen {
        Activation::Nothing
    } else if parked_index(parked, path).is_some() {
        Activation::Front
    } else {
        Activation::Open
    }
}

/// A parked editor brought onto the screen, and what it asks for then.
pub struct Fronted {
    pub tab: ParkedTab,
    /// An edited draft's parked highlight may be a pulse behind.
    pub pulse: bool,
    /// Colours and hints are asked for anything that is ours to edit.
    pub paint: bool,
}

/// Move the parked editor at `path` onto the screen: it leaves the parked
/// list, and comes back with what it should ask for. `None` when nothing
/// is parked there, and the list is left alone.
pub fn front_parked(parked: &mut Vec<ParkedTab>, path: &str) -> (r: Option<Fronted>)
    ensures
        match parked_from(old(parked)@, path@, 0) {
            Some(i) => r matches Some(f) && f.tab == old(parked)@[i] && final(parked)@ == old(parked)@.remove(i)
                && f.pulse == (f.tab.draft@ != f.tab.document.text@ && !f.tab.document.read_only)
                && f.paint == !f.tab.document.read_only,
            None => r is None && final(parked)@ == old(parked)@,
        },
{
    match parked_index(parked, path) {
        Some(i) => {
            let tab = parked.remove(i);
            let dirty = !same_text(tab.draft.as_str(), tab.document.text.as_str());
            let read_only = tab.document.read_only;
            Some(Fronted { tab, pulse: dirty && !read_only, paint: !read_only })
        },
        None => None,
    }
}

/// Whether the tab at `path` holds work not on disk: the one on screen by
/// its draft, a parked one by its own.
pub open spec fn tab_dirty(
    is_active: bool,
    document: Option<OpenDoc>,
    draft: Seq<char>,
    parked: Seq<ParkedTab>,
    path: Seq<char>,
) -> bool {
    if is_active {
        document matches Some(d) && !d.read_only && draft != d.text@
    } else {
        match parked_from(parked, path, 0) {
            Some(i) => !parked[i].document.read_only && parked[i].draft@ != parked[i].document.text@,
            None => false,
        }
    }
}

/// Close a tab: whether to ask before discarding unsaved work. Open on the
/// other side too, the draft is not going anywhere, and nothing is asked.
pub fn close_tab(
    active: Option<&str>,
    document: &Option<OpenDoc>,
    draft: &str,
    parked: &Vec<ParkedTab>,
    path: &str,
    other_holds: bool,
) -> (ask: bool)
    ensures
        ask == (tab_dirty(
            active matches Some(p) && p@ == path@,
            *document,
            draft@,
            parked@,
            path@,
        ) && !other_holds),
{
    let is_active = match active {
        Some(p) => same_text(p, path),
        None => false,
    };
    let dirty = if is_active {
        match document {
            Some(d) => !d.read_only && !same_text(draft, d.text.as_str()),
            None => false,
        }
    } else {
        match parked_index(parked, path) {
            Some(i) => !parked[i].document.read_only && !same_text(parked[i].draft.as_str(), parked[i].document.text.as_str()),
            None => false,
        }
    };
    dirty && !other_holds
}

// ---------------------------------------------------------------------------
// Documents that move
// ---------------------------------------------------------------------------

/// Where a path is after the move: moved along, or where it was.
pub open spec fn moved_to(p: Seq<char>, from: Seq<char>, to: Seq<char>, is_dir: bool) -> Seq<char> {
    match retarget_of(p, from, to, is_dir) {
        Some(q) => q,
        None => p,
    }
}

/// A document that moved: closed under its old name and opened under its
/// new one, with the text the editor holds for it.
pub struct Reopened {
    pub old: String,
    pub new: String,
    pub text: String,
}

/// A move as the contracts speak of it.
pub struct ReopenView {
    pub old: Seq<char>,
    pub new: Seq<char>,
    pub text: Seq<char>,
}

pub open spec fn reopen_views(r: Seq<Reopened>) -> Seq<ReopenView> {
    r.map_values(|x: Reopened| ReopenView { old: x.old@, new: x.new@, text: x.text@ })
}

/// `new` is `old` with its path moved along; nothing else changes.
pub open spec fn doc_moved(new: OpenDoc, old: OpenDoc, from: Seq<char>, to: Seq<char>, is_dir: bool) -> bool {
    &&& new.path@ == moved_to(old.path@, from, to, is_dir)
    &&& new.text == old.text
    &&& new.read_only == old.read_only
    &&& new.expansion == old.expansion
    &&& new.language == old.language
}

/// A group after the move: every document in it, in front or parked,
/// under its new name; the drafts as they were.
pub open spec fn group_moved(new: GroupDocs, old: GroupDocs, from: Seq<char>, to: Seq<char>, is_dir: bool) -> bool {
    &&& new.draft == old.draft
    &&& match (new.document, old.document) {
        (Some(n), Some(o)) => doc_moved(n, o, from, to, is_dir),
        (None, None) => true,
        _ => false,
    }
    &&& new.parked.len() == old.parked.len()
    &&& forall|j: int| 0 <= j < new.parked.len() ==> {
        &&& (#[trigger] new.parked@[j]).draft == old.parked@[j].draft
        &&& doc_moved(new.parked@[j].document, old.parked@[j].document, from, to, is_dir)
    }
}

/// The parked tabs the move took along, in order.
pub open spec fn tabs_reopened(tabs: Seq<ParkedTab>, from: Seq<char>, to: Seq<char>, is_dir: bool) -> Seq<ReopenView>
    decreases tabs.len(),
{
    if tabs.len() == 0 {
        Seq::empty()
    } else {
        let r = tabs_reopened(tabs.drop_last(), from, to, is_dir);
        let t = tabs.last();
        match retarget_of(t.document.path@, from, to, is_dir) {
            Some(q) => r.push(ReopenView { old: t.document.path@, new: q, text: t.draft@ }),
            None => r,
        }
    }
}

/// What moved in one group: its parked tabs, then the document in front.
pub open spec fn group_reopened(g: GroupDocs, from: Seq<char>, to: Seq<char>, is_dir: bool) -> Seq<ReopenView> {
    tabs_reopened(g.parked@, from, to, is_dir) + match g.document {
        Some(d) => match retarget_of(d.path@, from, to, is_dir) {
            Some(q) => seq![ReopenView { old: d.path@, new: q, text: g.draft@ }],
            None => Seq::empty(),
        },
        None => Seq::empty(),
    }
}

/// What moved, group by group.
pub open spec fn groups_reopened(groups: Seq<GroupDocs>, from: Seq<char>, to: Seq<char>, is_dir: bool) -> Seq<ReopenView>
    decreases groups.len(),
{
    if groups.len() == 0 {
        Seq::empty()
    } else {
        groups_reopened(groups.drop_last(), from, to, is_dir) + group_reopened(groups.last(), from, to, is_dir)
    }
}

pub open spec fn has_old(s: Seq<ReopenView>, old: Seq<char>) -> bool {
    exists|k: int| 0 <= k < s.len() && #[trigger] s[k].old == old
}

/// Each old name once, where it first comes: a file open on both sides
/// moved once.
pub open spec fn first_each(s: Seq<ReopenView>) -> Seq<ReopenView>
    decreases s.len(),
{
    if s.len() == 0 {
        Seq::empty()
    } else {
        let w = first_each(s.drop_last());
        if has_old(w, s.last().old) {
            w
        } else {
            w.push(s.last())
        }
    }
}

/// Tell of one document that moved, unless its old name was told of
/// already.
fn announce(found: &mut Vec<Reopened>, was: &str, now: &str, text: &str, Ghost(done): Ghost<Seq<ReopenView>>)
    requires
        reopen_views(old(found)@) == first_each(done),
    ensures
        reopen_views(final(found)@) == first_each(done.push(ReopenView { old: was@, new: now@, text: text@ })),
{
    let ghost item = ReopenView { old: was@, new: now@, text: text@ };
    assert(done.push(item).drop_last() =~= done);
    let mut i: usize = 0;
    let mut seen = false;
    while i < found.len()
        invariant
            i <= found.len(),
            seen == exists|k: int| 0 <= k < i && #[trigger] found@[k].old@ == was@,
        decreases found.len() - i,
    {
        if same_text(found[i].old.as_str(), was) {
            seen = true;
        }
        i = i + 1;
    }
    proof {
        let v = reopen_views(found@);
        if seen {
            let k = choose|k: int| 0 <= k < found.len() && #[trigger] found@[k].old@ == was@;
            assert(v[k].old == was@);
        } else {
            assert forall|k: int| 0 <= k < v.len() implies #[trigger] v[k].old != was@ by {
                assert(v[k].old == found@[k].old@);
            }
        }
    }
    if !seen {
        let ghost before = found@;
        found.push(Reopened { old: owned(was), new: owned(now), text: owned(text) });
        assert(reopen_views(found@) =~= reopen_views(before).push(item));
    }
}

fn moved_doc(doc: OpenDoc, path: String) -> (out: OpenDoc)
    ensures
        out.path == path,
        out.text == doc.text,
        out.read_only == doc.read_only,
        out.expansion == doc.expansion,
        out.language == doc.language,
{
    OpenDoc { path, text: doc.text, read_only: doc.read_only, expansion: doc.expansion, language: doc.language }
}

fn move_tabs(
    tabs: Vec<ParkedTab>,
    from: &str,
    to: &str,
    is_dir: bool,
    found: &mut Vec<Reopened>,
    Ghost(done): Ghost<Seq<ReopenView>>,
) -> (out: Vec<ParkedTab>)
    requires
        reopen_views(old(found)@) == first_each(done),
    ensures
        out.len() == tabs.len(),
        forall|j: int| 0 <= j < out.len() ==> {
            &&& (#[trigger] out@[j]).draft == tabs@[j].draft
            &&& doc_moved(out@[j].document, tabs@[j].document, from@, to@, is_dir)
        },
        reopen_views(final(found)@) == first_each(done + tabs_reopened(tabs@, from@, to@, is_dir)),
{
    let ghost old = tabs@;
    let mut rest = tabs;
    let mut out: Vec<ParkedTab> = Vec::new();
    let ghost mut seen = done;
    assert(done + tabs_reopened(old.take(0), from@, to@, is_dir) =~= done);
    while rest.len() > 0
        invariant
            out.len() + rest.len() == old.len(),
            forall|j: int| 0 <= j < out.len() ==> {
                &&& (#[trigger] out@[j]).draft == old[j].draft
                &&& doc_moved(out@[j].document, old[j].document, from@, to@, is_dir)
            },
            forall|j: int| 0 <= j < rest.len() ==> #[trigger] rest@[j] == old[out.len() + j],
            seen == done + tabs_reopened(old.take(out.len() as int), from@, to@, is_dir),
            reopen_views(found@) == first_each(seen),
        decreases rest.len(),
    {
        let ghost before = rest@;
        let ghost n = out.len() as int;
        let t = rest.remove(0);
        assert(t == old[n]);
        assert forall|j: int| 0 <= j < rest.len() implies #[trigger] rest@[j] == old[out.len() + 1 + j] by {
            assert(rest@[j] == before[j + 1]);
        }
        assert(old.take(n + 1).drop_last() =~= old.take(n));
        assert(old.take(n + 1).last() == t);
        let ParkedTab { document, draft } = t;
        let document = match retarget(document.path.as_str(), from, to, is_dir) {
            Some(new) => {
                announce(found, document.path.as_str(), new.as_str(), draft.as_str(), Ghost(seen));
                proof {
                    let item = ReopenView { old: document.path@, new: new@, text: draft@ };
                    assert(done + tabs_reopened(old.take(n + 1), from@, to@, is_dir) =~= seen.push(item));
                    seen = seen.push(item);
                }
                moved_doc(document, new)
            },
            None => {
                proof {
                    assert(done + tabs_reopened(old.take(n + 1), from@, to@, is_dir) =~= seen);
                }
                document
            },
        };
        out.push(ParkedTab { document, draft });
    }
    assert(old.take(old.len() as int) =~= old);
    out
}

/// Move every document with a path that moved on disk: each one in front
/// and every parked tab, in every group, is under its new name, with its
/// draft as it was. The answer is what to close under its old name and
/// open under its new one with the server — once per file, where it is
/// first met, a file open on both sides having moved once. The tab lists
/// and the other lists of paths follow through `follow_paths`, the undo
/// histories through `rekey`, and cached pictures under the path go
/// through `drop_moved`.
pub fn follow_move(groups: &mut Vec<GroupDocs>, from: &str, to: &str, is_dir: bool) -> (reopened: Vec<Reopened>)
    ensures
        final(groups).len() == old(groups).len(),
        forall|i: int| 0 <= i < final(groups).len() ==> group_moved(#[trigger] final(groups)@[i], old(groups)@[i], from@, to@, is_dir),
        reopen_views(reopened@) == first_each(groups_reopened(old(groups)@, from@, to@, is_dir)),
{
    let mut rest: Vec<GroupDocs> = Vec::new();
    std::mem::swap(groups, &mut rest);
    let ghost old = rest@;
    let mut found: Vec<Reopened> = Vec::new();
    assert(reopen_views(found@) =~= first_each(groups_reopened(old.take(0), from@, to@, is_dir)));
    while rest.len() > 0
        invariant
            groups.len() + rest.len() == old.len(),
            forall|j: int| 0 <= j < groups.len() ==> group_moved(#[trigger] groups@[j], old[j], from@, to@, is_dir),
            forall|j: int| 0 <= j < rest.len() ==> #[trigger] rest@[j] == old[groups.len() + j],
            reopen_views(found@) == first_each(groups_reopened(old.take(groups.len() as int), from@, to@, is_dir)),
        decreases rest.len(),
    {
        let ghost before = rest@;
        let ghost n = groups.len() as int;
        let g = rest.remove(0);
        assert(g == old[n]);
        assert forall|j: int| 0 <= j < rest.len() implies #[trigger] rest@[j] == old[groups.len() + 1 + j] by {
            assert(rest@[j] == before[j + 1]);
        }
        let ghost start = groups_reopened(old.take(n), from@, to@, is_dir);
        let GroupDocs { document, draft, parked } = g;
        let parked = move_tabs(parked, from, to, is_dir, &mut found, Ghost(start));
        let ghost mid = start + tabs_reopened(g.parked@, from@, to@, is_dir);
        let document = match document {
            Some(d) => match retarget(d.path.as_str(), from, to, is_dir) {
                Some(new) => {
                    announce(&mut found, d.path.as_str(), new.as_str(), draft.as_str(), Ghost(mid));
                    proof {
                        assert(mid.push(ReopenView { old: d.path@, new: new@, text: draft@ }) =~= start + group_reopened(g, from@, to@, is_dir));
                    }
                    Some(moved_doc(d, new))
                },
                None => {
                    proof {
                        assert(mid =~= start + group_reopened(g, from@, to@, is_dir));
                    }
                    Some(d)
                },
            },
            None => {
                proof {
                    assert(mid =~= start + group_reopened(g, from@, to@, is_dir));
                }
                None
            },
        };
        proof {
            assert(old.take(n + 1).drop_last() =~= old.take(n));
            assert(old.take(n + 1).last() == g);
        }
        groups.push(GroupDocs { document, draft, parked });
    }
    assert(old.take(old.len() as int) =~= old);
    found
}

/// What a move announces, for every list of documents moved: no old name
/// twice; every announcement is one of the moves; and every document that
/// moved has its old name announced.
pub proof fn lemma_each_move_announced_once(s: Seq<ReopenView>)
    ensures
        forall|i: int, j: int|
            0 <= i < j < first_each(s).len() ==> #[trigger] first_each(s)[i].old != #[trigger] first_each(s)[j].old,
        forall|k: int| 0 <= k < first_each(s).len() ==> s.contains(#[trigger] first_each(s)[k]),
        forall|i: int| 0 <= i < s.len() ==> has_old(first_each(s), #[trigger] s[i].old),
    decreases s.len(),
{
    if s.len() == 0 {
        assert(first_each(s) =~= Seq::<ReopenView>::empty());
    } else {
        let rest = s.drop_last();
        lemma_each_move_announced_once(rest);
        let w = first_each(rest);
        assert forall|k: int| 0 <= k < first_each(s).len() implies s.contains(#[trigger] first_each(s)[k]) by {
            if k < w.len() {
                assert(first_each(s)[k] == w[k]);
                let i = choose|i: int| 0 <= i < rest.len() && rest[i] == w[k];
                assert(s[i] == rest[i]);
            } else {
                assert(s[s.len() - 1] == s.last());
            }
        }
        assert forall|i: int| 0 <= i < s.len() implies has_old(first_each(s), #[trigger] s[i].old) by {
            if i < rest.len() {
                assert(s[i] == rest[i]);
                assert(has_old(w, rest[i].old));
                let k = choose|k: int| 0 <= k < w.len() && #[trigger] w[k].old == rest[i].old;
                assert(first_each(s)[k] == w[k]);
            } else if !has_old(w, s.last().old) {
                assert(first_each(s)[w.len() as int] == s.last());
            }
        }
    }
}

// ---------------------------------------------------------------------------
// Entries kept by path, and closing under a path
// ---------------------------------------------------------------------------

/// Something the editor keeps by path: an undo history, a cached picture.
pub struct Keyed<V> {
    pub path: String,
    pub value: V,
}

/// Whether the move of `from` to `to` takes `path` along.
pub open spec fn moves(path: Seq<char>, from: Seq<char>, to: Seq<char>, is_dir: bool) -> bool {
    retarget_of(path, from, to, is_dir) is Some
}

/// Re-key what is kept by path — the undo histories — along with a move:
/// each entry under its new name, its value untouched.
pub fn rekey<V>(entries: Vec<Keyed<V>>, from: &str, to: &str, is_dir: bool) -> (out: Vec<Keyed<V>>)
    ensures
        out.len() == entries.len(),
        forall|i: int| 0 <= i < out.len() ==> {
            &&& (#[trigger] out@[i]).path@ == moved_to(entries@[i].path@, from@, to@, is_dir)
            &&& out@[i].value == entries@[i].value
        },
{
    let ghost orig = entries@;
    let mut rest = entries;
    let mut out: Vec<Keyed<V>> = Vec::new();
    while rest.len() > 0
        invariant
            out.len() + rest.len() == orig.len(),
            forall|j: int| 0 <= j < out.len() ==> {
                &&& (#[trigger] out@[j]).path@ == moved_to(orig[j].path@, from@, to@, is_dir)
                &&& out@[j].value == orig[j].value
            },
            forall|j: int| 0 <= j < rest.len() ==> #[trigger] rest@[j] == orig[out.len() + j],
        decreases rest.len(),
    {
        let ghost before = rest@;
        let e = rest.remove(0);
        assert(e == orig[out.len() as int]);
        assert forall|j: int| 0 <= j < rest.len() implies #[trigger] rest@[j] == orig[out.len() + 1 + j] by {
            assert(rest@[j] == before[j + 1]);
        }
        let Keyed { path, value } = e;
        let path = match retarget(path.as_str(), from, to, is_dir) {
            Some(new) => new,
            None => path,
        };
        out.push(Keyed { path, value });
    }
    out
}

/// Drop what is kept by path under a path that moved — the cached
/// pictures: the next look reads them again.
pub fn drop_moved<V>(entries: Vec<Keyed<V>>, from: &str, to: &str, is_dir: bool) -> (out: Vec<Keyed<V>>)
    ensures
        out@ == entries@.filter(|e: Keyed<V>| !moves(e.path@, from@, to@, is_dir)),
{
    let ghost orig = entries@;
    let ghost keep = |e: Keyed<V>| !moves(e.path@, from@, to@, is_dir);
    let mut rest = entries;
    let mut out: Vec<Keyed<V>> = Vec::new();
    let mut n: usize = 0;
    let total = rest.len();
    assert(orig.take(0).filter(keep) =~= Seq::<Keyed<V>>::empty());
    while rest.len() > 0
        invariant
            n + rest.len() == total,
            total == orig.len(),
            keep == (|e: Keyed<V>| !moves(e.path@, from@, to@, is_dir)),
            out@ == orig.take(n as int).filter(keep),
            forall|j: int| 0 <= j < rest.len() ==> #[trigger] rest@[j] == orig[n + j],
        decreases rest.len(),
    {
        let ghost before = rest@;
        let e = rest.remove(0);
        assert(e == orig[n as int]);
        assert forall|j: int| 0 <= j < rest.len() implies #[trigger] rest@[j] == orig[n + 1 + j] by {
            assert(rest@[j] == before[j + 1]);
        }
        let gone = retarget(e.path.as_str(), from, to, is_dir).is_some();
        if !gone {
            out.push(e);
        }
        proof {
            let s = orig.take(n + 1);
            assert(s.drop_last() =~= orig.take(n as int));
            assert(s.last() == orig[n as int]);
            s.drop_last().lemma_filter_push(s.last(), keep);
            assert(s.drop_last().push(s.last()) =~= s);
        }
        n = n + 1;
    }
    assert(orig.take(n as int) =~= orig);
    out
}

/// Whether a tab is at or under a path that is gone.
pub open spec fn is_under(tab: Seq<char>, path: Seq<char>, is_dir: bool) -> bool {
    retarget_of(tab, path, Seq::empty(), is_dir) is Some
}

/// A list without what is at or under a path that is gone.
pub open spec fn outside(list: Seq<String>, path: Seq<char>, is_dir: bool) -> Seq<String> {
    list.filter(|t: String| !is_under(t@, path, is_dir))
}

fn drop_under(list: Vec<String>, path: &str, is_dir: bool) -> (out: Vec<String>)
    ensures
        out@ == outside(list@, path@, is_dir),
{
    let ghost keep = |t: String| !is_under(t@, path@, is_dir);
    let mut out: Vec<String> = Vec::new();
    let mut i: usize = 0;
    while i < list.len()
        invariant
            i <= list.len(),
            keep == (|t: String| !is_under(t@, path@, is_dir)),
            out@ == list@.take(i as int).filter(keep),
        decreases list.len() - i,
    {
        if retarget(list[i].as_str(), path, "", is_dir).is_none() {
            out.push(list[i].clone());
        }
        proof {
            let s = list@.take(i + 1);
            assert(s.drop_last() =~= list@.take(i as int));
            s.drop_last().lemma_filter_push(s.last(), keep);
            assert(s.drop_last().push(s.last()) =~= s);
        }
        i = i + 1;
    }
    assert(list@.take(list.len() as int) =~= list@);
    out
}

/// Close every tab at or under a path that is gone, in every group —
/// without asking: the question was asked about the file, and a draft of a
/// deleted file has nowhere left to be saved. Every other tab stays where
/// it was.
pub fn close_under(strips: &mut Vec<Strip>, path: &str, is_dir: bool)
    ensures
        final(strips).len() == old(strips).len(),
        forall|i: int| 0 <= i < final(strips).len() ==> {
            &&& (#[trigger] final(strips)@[i]).tabs@ == outside(old(strips)@[i].tabs@, path@, is_dir)
            &&& final(strips)@[i].parked@ == outside(old(strips)@[i].parked@, path@, is_dir)
        },
{
    let mut rest: Vec<Strip> = Vec::new();
    std::mem::swap(strips, &mut rest);
    let ghost orig = rest@;
    while rest.len() > 0
        invariant
            strips.len() + rest.len() == orig.len(),
            forall|j: int| 0 <= j < strips.len() ==> {
                &&& (#[trigger] strips@[j]).tabs@ == outside(orig[j].tabs@, path@, is_dir)
                &&& strips@[j].parked@ == outside(orig[j].parked@, path@, is_dir)
            },
            forall|j: int| 0 <= j < rest.len() ==> #[trigger] rest@[j] == orig[strips.len() + j],
        decreases rest.len(),
    {
        let ghost before = rest@;
        let s = rest.remove(0);
        assert(s == orig[strips.len() as int]);
        assert forall|j: int| 0 <= j < rest.len() implies #[trigger] rest@[j] == orig[strips.len() + 1 + j] by {
            assert(rest@[j] == before[j + 1]);
        }
        let Strip { tabs, parked } = s;
        strips.push(Strip { tabs: drop_under(tabs, path, is_dir), parked: drop_under(parked, path, is_dir) });
    }
}

/// What closing under a path leaves: no strip or parked editor holds
/// anything under it, and every other tab is still where it was.
pub proof fn lemma_nothing_left_under(list: Seq<String>, path: Seq<char>, is_dir: bool)
    ensures
        forall|k: int| 0 <= k < outside(list, path, is_dir).len()
            ==> !is_under(#[trigger] outside(list, path, is_dir)[k]@, path, is_dir),
        forall|k: int| 0 <= k < list.len() && !is_under(#[trigger] list[k]@, path, is_dir)
            ==> outside(list, path, is_dir).contains(list[k]),
{
    let keep = |t: String| !is_under(t@, path, is_dir);
    list.filter_lemma(keep);
    assert forall|k: int| 0 <= k < list.len() && !is_under(#[trigger] list[k]@, path, is_dir) implies outside(list, path, is_dir).contains(list[k]) by {
        assert(keep(list[k]));
    }
}

// ---------------------------------------------------------------------------
// Searching the project
// ---------------------------------------------------------------------------

/// The query changed: a search numbered one more is scheduled, and any
/// scheduled before it is superseded.
pub fn schedule_search(generation: &mut u64) -> (mine: u64)
    requires
        *old(generation) < u64::MAX,
    ensures
        *final(generation) == *old(generation) + 1,
        mine == *final(generation),
{
    *generation = *generation + 1;
    *generation
}

/// Whether the search numbered `mine` is still the latest asked for — when
/// its timer fires, and again when its answer lands: an answer about a
/// query nobody is asking any more is dropped.
pub fn search_due(generation: u64, mine: u64) -> (due: bool)
    ensures
        due == (generation == mine),
{
    generation == mine
}

/// Whether a query is searched for: a blank one clears the results instead.
pub fn search_wanted(query: &str) -> (ask: bool)
    ensures
        ask == (trim(query@).len() > 0),
{
    !is_blank(query)
}

} // verus!
