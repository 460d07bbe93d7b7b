//! A call hierarchy as the dock's Calls tab draws it: the function asked
//! about, and the calls into or out of it a level at a time, each level
//! asked of the server when its row is opened.
//!
//! A flat list of rows rather than a tree of nodes: a row's calls follow it
//! one level deeper, so drawing is one pass, closing a row is removing the
//! run below it, and a row is found by the number it was given, not by where
//! it is — an answer lands on the row that asked even when rows above it
//! were opened or closed while it was on the way.

use vstd::prelude::*;

use crate::text::{chars_of, owned};

verus! {

broadcast use vstd::seq_lib::group_to_multiset_ensures;

/// A place in a file, as the language server names it.
#[derive(Clone, PartialEq, Eq, Debug)]
pub struct Location {
    pub path: String,
    pub line: u32,
    pub col: u32,
    /// Outside the project: a dependency's source or the sysroot.
    pub external: bool,
}

/// A span on one line, with the text it covers.
#[derive(Clone, PartialEq, Eq, Debug)]
pub struct Place {
    pub location: Location,
    pub end_col: u32,
    pub text: String,
}

/// A function the server can be asked about.
#[derive(Clone, PartialEq, Eq, Debug)]
pub struct CallItem {
    pub name: String,
    pub kind: String,
    pub detail: Option<String>,
    pub place: Place,
    /// The server's own description of it, handed back to ask for its calls.
    pub item: String,
}

/// A function, and where the calls between it and the row above are made.
#[derive(Clone, PartialEq, Eq, Debug)]
pub struct Call {
    pub item: CallItem,
    pub sites: Vec<Place>,
}

/// Whether a row's own calls are showing.
#[derive(Clone, Copy, Debug, PartialEq, Eq, Structural)]
pub enum Openness {
    Closed,
    /// Asked for and not answered yet.
    Asking,
    Open,
}

/// One function in the hierarchy, and the calls that brought it there.
#[derive(Clone, Debug, PartialEq, Eq)]
pub struct CallRow {
    /// Its number in this tree, never reused.
    pub id: u64,
    /// 0 for the function asked about.
    pub depth: u32,
    /// The function, and where the calls between it and the row above are.
    /// The first row's has no sites: nothing above it called anything.
    pub call: Call,
    pub open: Openness,
}

/// The number the next row is given: above every number given so far.
#[derive(Clone, Debug, PartialEq, Eq)]
pub struct NextId {
    value: u64,
}

impl View for NextId {
    type V = u64;

    closed spec fn view(&self) -> u64 {
        self.value
    }
}

/// Who calls a function, or what it calls, as far down as anybody opened.
#[derive(Clone, Debug, PartialEq, Eq)]
pub struct CallTree {
    /// Which ask made this tree. An answer carries the number of the tree it
    /// was asked for, so one landing after another hierarchy was started is
    /// dropped rather than put in a tree that never asked.
    pub serial: u64,
    /// Calls in — who calls it — or calls out — what it calls.
    pub incoming: bool,
    /// In the order drawn; the first is the function asked about.
    pub rows: Vec<CallRow>,
    pub next: NextId,
}

// ---------------------------------------------------------------------------
// Specifications
// ---------------------------------------------------------------------------

/// The first row that has this number.
pub open spec fn index_from(rows: Seq<CallRow>, id: u64, k: int) -> Option<int>
    decreases rows.len() - k,
{
    if k < 0 || k >= rows.len() {
        None
    } else if rows[k].id == id {
        Some(k)
    } else {
        index_from(rows, id, k + 1)
    }
}

pub open spec fn index_of_id(rows: Seq<CallRow>, id: u64) -> Option<int> {
    index_from(rows, id, 0)
}

/// Where the run of rows under the row at `at` ends: the first row after it
/// that is no deeper, or the end.
pub open spec fn end_from(rows: Seq<CallRow>, at: int, k: int) -> int
    decreases rows.len() - k,
{
    if k >= rows.len() {
        rows.len() as int
    } else if rows[k].depth <= rows[at].depth {
        k
    } else {
        end_from(rows, at, k + 1)
    }
}

pub open spec fn subtree_end(rows: Seq<CallRow>, at: int) -> int {
    end_from(rows, at, at + 1)
}

pub open spec fn with_open(row: CallRow, open: Openness) -> CallRow {
    CallRow { open, ..row }
}

/// A tree as every operation keeps it: the function asked about first, at
/// depth 0 and numbered 0; every other row below it and at most one level
/// deeper than the row above; only an open row with rows under it; every
/// number distinct and below the next.
pub open spec fn tree_wf(rows: Seq<CallRow>, next: u64) -> bool {
    &&& rows.len() >= 1
    &&& rows[0].id == 0
    &&& rows[0].depth == 0
    &&& forall|i: int| 1 <= i < rows.len() ==> #[trigger] rows[i].depth >= 1
    &&& forall|i: int| 0 <= i < rows.len() - 1 ==> #[trigger] rows[i + 1].depth <= rows[i].depth + 1
    &&& forall|i: int|
        0 <= i < rows.len() - 1 && #[trigger] rows[i + 1].depth > rows[i].depth ==> rows[i].open
            == Openness::Open
    &&& forall|i: int| 0 <= i < rows.len() ==> #[trigger] rows[i].id < next
    &&& forall|i: int, j: int| 0 <= i < j < rows.len() ==> rows[i].id != rows[j].id
}

impl CallTree {
    pub open spec fn wf(&self) -> bool {
        tree_wf(self.rows@, self.next@)
    }
}

/// Where a call is first made, as the key rows are ordered by.
pub struct SiteKey {
    pub external: bool,
    pub path: Seq<char>,
    pub line: u32,
    pub col: u32,
}

pub open spec fn site_key(call: Call) -> SiteKey {
    let at = if call.sites@.len() > 0 {
        call.sites@[0].location
    } else {
        call.item.place.location
    };
    SiteKey { external: at.external, path: at.path@, line: at.line, col: at.col }
}

/// Text in code-point order, a shorter text before any it begins: the order
/// of Rust's strings, whose UTF-8 bytes compare the same way.
pub open spec fn text_lt(a: Seq<char>, b: Seq<char>) -> bool
    decreases a.len(),
{
    if a.len() == 0 {
        b.len() > 0
    } else if b.len() == 0 {
        false
    } else if a[0] != b[0] {
        a[0] < b[0]
    } else {
        text_lt(a.drop_first(), b.drop_first())
    }
}

/// `(external, path, line, col)` compared in turn, `false` before `true`.
pub open spec fn key_lt(a: SiteKey, b: SiteKey) -> bool {
    ||| (!a.external && b.external)
    ||| (a.external == b.external && text_lt(a.path, b.path))
    ||| (a.external == b.external && a.path == b.path && a.line < b.line)
    ||| (a.external == b.external && a.path == b.path && a.line == b.line && a.col < b.col)
}

pub open spec fn call_le(a: Call, b: Call) -> bool {
    !key_lt(site_key(b), site_key(a))
}

/// In the order of where each call is first made.
pub open spec fn sorted_by_site(s: Seq<Call>) -> bool {
    forall|i: int, j: int| 0 <= i < j < s.len() ==> call_le(s[i], s[j])
}

/// The rows an answer adds under a row at `depth`, numbered from `next`.
pub open spec fn answer_rows(calls: Seq<Call>, next: u64, depth: u32) -> Seq<CallRow> {
    Seq::new(
        calls.len(),
        |n: int| CallRow { id: (next + n) as u64, depth: (depth + 1) as u32, call: calls[n], open: Openness::Closed },
    )
}

/// Two items name one function when they are the same name in the same
/// place — the server's descriptions of it may differ in what they carry.
pub open spec fn same_function(a: CallItem, b: CallItem) -> bool {
    &&& a.name@ == b.name@
    &&& a.place.location.path@ == b.place.location.path@
    &&& a.place.location.line == b.place.location.line
    &&& a.place.location.col == b.place.location.col
    &&& a.place.location.external == b.place.location.external
}

/// Row `k` is on the branch above row `index`: above it, and shallower than
/// every row between them and the row itself.
pub open spec fn on_branch(rows: Seq<CallRow>, index: int, k: int) -> bool {
    &&& 0 <= k < index < rows.len()
    &&& forall|m: int| k < m <= index ==> #[trigger] rows[m].depth > rows[k].depth
}

/// The function at `index` is already open above it on its own branch.
pub open spec fn is_recursion(rows: Seq<CallRow>, index: int) -> bool {
    exists|k: int| on_branch(rows, index, k) && same_function(rows[k].call.item, rows[index].call.item)
}

// ---------------------------------------------------------------------------
// Ordering lemmas
// ---------------------------------------------------------------------------

proof fn lemma_text_lt_irreflexive(a: Seq<char>)
    ensures
        !text_lt(a, a),
    decreases a.len(),
{
    if a.len() > 0 {
        lemma_text_lt_irreflexive(a.drop_first());
    }
}

proof fn lemma_text_lt_transitive(a: Seq<char>, b: Seq<char>, c: Seq<char>)
    requires
        text_lt(a, b),
        text_lt(b, c),
    ensures
        text_lt(a, c),
    decreases a.len(),
{
    if a.len() > 0 && b.len() > 0 && c.len() > 0 {
        if a[0] == b[0] && b[0] == c[0] {
            lemma_text_lt_transitive(a.drop_first(), b.drop_first(), c.drop_first());
        }
    }
}

proof fn lemma_text_lt_total(a: Seq<char>, b: Seq<char>)
    ensures
        a == b || text_lt(a, b) || text_lt(b, a),
    decreases a.len(),
{
    if a.len() > 0 && b.len() > 0 && a[0] == b[0] {
        lemma_text_lt_total(a.drop_first(), b.drop_first());
        if a.drop_first() == b.drop_first() {
            assert(a =~= seq![a[0]] + a.drop_first());
            assert(b =~= seq![b[0]] + b.drop_first());
        }
    } else if a.len() == 0 && b.len() == 0 {
        assert(a =~= b);
    }
}

proof fn lemma_text_lt_asymmetric(a: Seq<char>, b: Seq<char>)
    requires
        text_lt(a, b),
    ensures
        !text_lt(b, a),
{
    if text_lt(b, a) {
        lemma_text_lt_transitive(a, b, a);
        lemma_text_lt_irreflexive(a);
    }
}

/// The order of keys is transitive where it does not strictly descend.
pub(crate) proof fn lemma_keys_transitive(x: SiteKey, y: SiteKey, z: SiteKey)
    requires
        !key_lt(y, x),
        !key_lt(z, y),
    ensures
        !key_lt(z, x),
{
    lemma_text_lt_total(x.path, y.path);
    lemma_text_lt_total(y.path, z.path);
    lemma_text_lt_total(x.path, z.path);
    if key_lt(z, x) {
        if text_lt(z.path, x.path) && x.path != y.path && y.path != z.path {
            if text_lt(y.path, x.path) {
                lemma_text_lt_asymmetric(y.path, x.path);
            }
            if text_lt(z.path, y.path) {
                lemma_text_lt_asymmetric(z.path, y.path);
            }
            if text_lt(x.path, y.path) && text_lt(y.path, z.path) {
                lemma_text_lt_transitive(x.path, y.path, z.path);
                lemma_text_lt_asymmetric(x.path, z.path);
            }
        }
        if text_lt(z.path, x.path) && x.path == y.path {
            lemma_text_lt_asymmetric(z.path, x.path);
        }
        if text_lt(z.path, x.path) && y.path == z.path {
            lemma_text_lt_asymmetric(z.path, x.path);
        }
        if x.path == z.path && x.path != y.path {
            if text_lt(x.path, y.path) {
                lemma_text_lt_asymmetric(x.path, y.path);
            }
        }
    }
}

/// A key strictly before another is not after it.
pub(crate) proof fn lemma_keys_asymmetric(x: SiteKey, y: SiteKey)
    requires
        key_lt(x, y),
    ensures
        !key_lt(y, x),
{
    if text_lt(x.path, y.path) {
        lemma_text_lt_asymmetric(x.path, y.path);
    }
    if x.path == y.path {
        lemma_text_lt_irreflexive(x.path);
    }
}

proof fn lemma_key_le_transitive(a: Call, b: Call, c: Call)
    requires
        call_le(a, b),
        call_le(b, c),
    ensures
        call_le(a, c),
{
    lemma_keys_transitive(site_key(a), site_key(b), site_key(c));
}

proof fn lemma_key_lt_le(a: Call, b: Call)
    requires
        key_lt(site_key(a), site_key(b)),
    ensures
        call_le(a, b),
{
    lemma_keys_asymmetric(site_key(a), site_key(b));
}

// ---------------------------------------------------------------------------
// Shape lemmas
// ---------------------------------------------------------------------------

proof fn lemma_index_from(rows: Seq<CallRow>, id: u64, k: int)
    ensures
        index_from(rows, id, k) matches Some(i) ==> k <= i < rows.len() && 0 <= i && rows[i].id
            == id,
    decreases rows.len() - k,
{
    if !(k < 0 || k >= rows.len()) && rows[k].id != id {
        lemma_index_from(rows, id, k + 1);
    }
}

proof fn lemma_end_from(rows: Seq<CallRow>, at: int, k: int)
    requires
        0 <= at < k,
    ensures
        k <= end_from(rows, at, k) <= rows.len() || (k > rows.len() && end_from(rows, at, k)
            == rows.len()),
        end_from(rows, at, k) < rows.len() ==> rows[end_from(rows, at, k)].depth
            <= rows[at].depth,
        forall|m: int| k <= m < end_from(rows, at, k) ==> #[trigger] rows[m].depth > rows[at].depth,
    decreases rows.len() - k,
{
    if k < rows.len() && rows[k].depth > rows[at].depth {
        lemma_end_from(rows, at, k + 1);
    }
}

proof fn lemma_update_open_wf(rows: Seq<CallRow>, next: u64, at: int, open: Openness)
    requires
        tree_wf(rows, next),
        0 <= at < rows.len(),
        open == Openness::Open || rows[at].open != Openness::Open,
    ensures
        tree_wf(rows.update(at, with_open(rows[at], open)), next),
{
    let r = rows.update(at, with_open(rows[at], open));
    assert forall|i: int| 0 <= i < r.len() implies r[i].id == rows[i].id && r[i].depth
        == rows[i].depth by {}
    assert forall|i: int| 1 <= i < r.len() implies #[trigger] r[i].depth >= 1 by {
        assert(r[i].depth == rows[i].depth);
    }
    assert forall|i: int| 0 <= i < r.len() - 1 implies #[trigger] r[i + 1].depth <= r[i].depth
        + 1 by {
        assert(r[i + 1].depth == rows[i + 1].depth);
        assert(rows[i + 1].depth <= rows[i].depth + 1);
    }
    assert forall|i: int| 0 <= i < r.len() implies #[trigger] r[i].id < next by {
        assert(r[i].id == rows[i].id);
    }
    assert forall|i: int|
        0 <= i < r.len() - 1 && #[trigger] r[i + 1].depth > r[i].depth implies r[i].open
            == Openness::Open by {
        assert(r[i + 1].depth == rows[i + 1].depth && r[i].depth == rows[i].depth);
        if i != at {
            assert(r[i] == rows[i]);
        }
    }
    assert forall|i: int, j: int| 0 <= i < j < r.len() implies r[i].id != r[j].id by {
        assert(r[i].id == rows[i].id && r[j].id == rows[j].id);
    }
}

proof fn lemma_close_wf(rows: Seq<CallRow>, next: u64, at: int)
    requires
        tree_wf(rows, next),
        0 <= at < rows.len(),
    ensures
        tree_wf(
            rows.take(at) + seq![with_open(rows[at], Openness::Closed)] + rows.skip(
                subtree_end(rows, at),
            ),
            next,
        ),
        at < subtree_end(rows, at) <= rows.len(),
{
    lemma_end_from(rows, at, at + 1);
    let end = subtree_end(rows, at);
    let r = rows.take(at) + seq![with_open(rows[at], Openness::Closed)] + rows.skip(end);
    let m = end - at - 1;
    assert forall|i: int| 0 <= i < r.len() implies (i <= at ==> r[i].id == rows[i].id && r[i].depth
        == rows[i].depth) && (i > at ==> r[i] == rows[i + m]) by {}
    assert forall|i: int| 1 <= i < r.len() implies #[trigger] r[i].depth >= 1 by {
        if i <= at {
            assert(r[i].depth == rows[i].depth);
        } else {
            assert(r[i] == rows[i + m]);
        }
    }
    assert forall|i: int| 0 <= i < r.len() - 1 implies #[trigger] r[i + 1].depth <= r[i].depth
        + 1 by {
        if i < at {
            assert(r[i + 1].depth == rows[i + 1].depth && r[i].depth == rows[i].depth);
            assert(rows[i + 1].depth <= rows[i].depth + 1);
        } else if i > at {
            assert(r[i] == rows[i + m] && r[i + 1] == rows[i + 1 + m]);
            assert(rows[i + m + 1].depth <= rows[i + m].depth + 1);
        } else {
            assert(r[i + 1] == rows[end]);
            assert(r[i].depth == rows[at].depth);
        }
    }
    assert forall|i: int| 0 <= i < r.len() implies #[trigger] r[i].id < next by {
        if i <= at {
            assert(r[i].id == rows[i].id);
        } else {
            assert(r[i] == rows[i + m]);
        }
    }
    assert forall|i: int|
        0 <= i < r.len() - 1 && #[trigger] r[i + 1].depth > r[i].depth implies r[i].open
            == Openness::Open by {
        if i < at {
            assert(r[i] == rows[i] && r[i + 1].depth == rows[i + 1].depth);
            assert(rows[i + 1].depth > rows[i].depth);
        } else if i > at {
            assert(r[i] == rows[i + m] && r[i + 1] == rows[i + 1 + m]);
            assert(rows[(i + m) + 1].depth > rows[i + m].depth);
        } else {
            assert(r[i + 1] == rows[end]);
            assert(r[i].depth == rows[at].depth);
        }
    }
    assert forall|i: int, j: int| 0 <= i < j < r.len() implies r[i].id != r[j].id by {
        let oi = if i <= at {
            i
        } else {
            i + m
        };
        let oj = if j <= at {
            j
        } else {
            j + m
        };
        assert(r[i].id == rows[oi].id);
        assert(r[j].id == rows[oj].id);
    }
}

proof fn lemma_answer_wf(rows: Seq<CallRow>, next: u64, at: int, placed: Seq<Call>)
    requires
        tree_wf(rows, next),
        0 <= at < rows.len(),
        rows[at].depth < u32::MAX,
        next + placed.len() <= u64::MAX,
        rows[at].open != Openness::Open,
    ensures
        tree_wf(
            rows.take(at) + seq![with_open(rows[at], Openness::Open)] + answer_rows(
                placed,
                next,
                rows[at].depth,
            ) + rows.skip(at + 1),
            (next + placed.len()) as u64,
        ),
{
    let n = placed.len() as int;
    let d = rows[at].depth;
    let added = answer_rows(placed, next, d);
    let r = rows.take(at) + seq![with_open(rows[at], Openness::Open)] + added + rows.skip(at + 1);
    let nx = (next + n) as u64;
    assert forall|i: int| 0 <= i < r.len() implies (i <= at ==> r[i].id == rows[i].id && r[i].depth
        == rows[i].depth) && (at < i <= at + n ==> r[i] == added[i - at - 1]) && (i > at + n
        ==> r[i] == rows[i - n]) by {}
    assert forall|i: int| 1 <= i < r.len() implies #[trigger] r[i].depth >= 1 by {
        if i <= at {
            assert(r[i].depth == rows[i].depth);
        } else if i > at + n {
            assert(r[i] == rows[i - n]);
        } else {
            assert(r[i] == added[i - at - 1]);
        }
    }
    assert forall|i: int| 0 <= i < r.len() - 1 implies #[trigger] r[i + 1].depth <= r[i].depth
        + 1 by {
        if i < at {
            assert(r[i].depth == rows[i].depth && r[i + 1].depth == rows[i + 1].depth);
            assert(rows[i + 1].depth <= rows[i].depth + 1);
        } else if i > at + n {
            assert(r[i] == rows[i - n] && r[i + 1] == rows[i + 1 - n]);
            assert(rows[i - n + 1].depth <= rows[i - n].depth + 1);
        } else if i == at + n {
            assert(r[i + 1] == rows[at + 1]);
            assert(rows[at + 1].depth <= rows[at].depth + 1);
            if n > 0 {
                assert(r[i] == added[n - 1]);
            }
        } else {
            assert(r[i + 1] == added[i - at]);
            if i > at {
                assert(r[i] == added[i - at - 1]);
            }
        }
    }
    assert forall|i: int| 0 <= i < r.len() implies #[trigger] r[i].id < nx by {
        if i <= at {
            assert(r[i].id == rows[i].id);
        } else if i > at + n {
            assert(r[i] == rows[i - n]);
        } else {
            assert(r[i] == added[i - at - 1]);
        }
    }
    assert forall|i: int|
        0 <= i < r.len() - 1 && #[trigger] r[i + 1].depth > r[i].depth implies r[i].open
            == Openness::Open by {
        if i < at {
            assert(r[i] == rows[i] && r[i + 1].depth == rows[i + 1].depth);
            assert(rows[i + 1].depth > rows[i].depth);
        } else if i > at + n {
            assert(r[i] == rows[i - n] && r[i + 1] == rows[i + 1 - n]);
            assert(rows[(i - n) + 1].depth > rows[i - n].depth);
        } else if i == at + n {
            assert(r[i + 1] == rows[at + 1]);
            if n > 0 {
                assert(r[i] == added[n - 1]);
                assert(rows[at + 1].depth <= rows[at].depth) by {
                    if rows[at + 1].depth > rows[at].depth {
                        assert(rows[at].open == Openness::Open);
                    }
                }
            }
        } else if i > at {
            assert(r[i + 1] == added[i - at]);
            assert(r[i] == added[i - at - 1]);
        }
    }
    assert forall|i: int, j: int| 0 <= i < j < r.len() implies r[i].id != r[j].id by {
        if i <= at || i > at + n {
            let oi = if i <= at {
                i
            } else {
                i - n
            };
            assert(r[i].id == rows[oi].id);
            if j <= at || j > at + n {
                let oj = if j <= at {
                    j
                } else {
                    j - n
                };
                assert(r[j].id == rows[oj].id);
            } else {
                assert(r[j] == added[j - at - 1]);
            }
        } else {
            assert(r[i] == added[i - at - 1]);
            if j <= at || j > at + n {
                let oj = if j <= at {
                    j
                } else {
                    j - n
                };
                assert(r[j].id == rows[oj].id);
            } else {
                assert(r[j] == added[j - at - 1]);
            }
        }
    }
}

// ---------------------------------------------------------------------------
// Laws
// ---------------------------------------------------------------------------

proof fn lemma_end_from_stops(rows: Seq<CallRow>, at: int, k: int, stop: int)
    requires
        0 <= at < k <= stop <= rows.len(),
        forall|m: int| k <= m < stop ==> #[trigger] rows[m].depth > rows[at].depth,
        stop == rows.len() || rows[stop].depth <= rows[at].depth,
    ensures
        end_from(rows, at, k) == stop,
    decreases stop - k,
{
    if k < stop {
        lemma_end_from_stops(rows, at, k + 1, stop);
    }
}

proof fn lemma_index_from_first(rows: Seq<CallRow>, id: u64, k: int, at: int)
    requires
        0 <= k <= at < rows.len(),
        rows[at].id == id,
        forall|m: int| k <= m < at ==> #[trigger] rows[m].id != id,
    ensures
        index_from(rows, id, k) == Some(at),
    decreases at - k,
{
    if k < at {
        lemma_index_from_first(rows, id, k + 1, at);
    }
}

/// Opening a closed row, answering it and closing it again leaves the rows
/// as they were: closing takes away exactly what the answer put under it.
pub proof fn lemma_close_undoes_open(rows: Seq<CallRow>, next: u64, at: int, placed: Seq<Call>)
    requires
        tree_wf(rows, next),
        0 <= at < rows.len(),
        rows[at].open == Openness::Closed,
        rows[at].depth < u32::MAX,
        next + placed.len() <= u64::MAX,
    ensures
        ({
            let asked = rows.update(at, with_open(rows[at], Openness::Asking));
            let answered = asked.take(at) + seq![with_open(asked[at], Openness::Open)]
                + answer_rows(placed, next, asked[at].depth) + asked.skip(at + 1);
            answered.take(at) + seq![with_open(answered[at], Openness::Closed)] + answered.skip(
                subtree_end(answered, at),
            ) == rows
        }),
{
    let asked = rows.update(at, with_open(rows[at], Openness::Asking));
    let d = rows[at].depth;
    let added = answer_rows(placed, next, d);
    let answered = asked.take(at) + seq![with_open(asked[at], Openness::Open)] + added + asked.skip(
        at + 1,
    );
    let n = placed.len() as int;
    assert forall|m: int| at + 1 <= m < at + 1 + n implies #[trigger] answered[m].depth
        > answered[at].depth by {
        assert(answered[m] == added[m - at - 1]);
    }
    if at + 1 + n < answered.len() {
        assert(answered[at + 1 + n] == rows[at + 1]);
        if rows[at + 1].depth > rows[at].depth {
            assert(rows[at].open == Openness::Open);
        }
    }
    lemma_end_from_stops(answered, at, at + 1, at + 1 + n);
    let back = answered.take(at) + seq![with_open(answered[at], Openness::Closed)] + answered.skip(
        at + 1 + n,
    );
    assert(with_open(answered[at], Openness::Closed) == rows[at]);
    assert(back =~= rows);
}

/// A closed row stays where it was, under its number and closed: opening it
/// again asks about it again.
pub proof fn lemma_closed_row_asks_again(rows: Seq<CallRow>, next: u64, at: int)
    requires
        tree_wf(rows, next),
        0 <= at < rows.len(),
    ensures
        ({
            let closed = rows.take(at) + seq![with_open(rows[at], Openness::Closed)] + rows.skip(
                subtree_end(rows, at),
            );
            &&& index_of_id(closed, rows[at].id) == Some(at)
            &&& closed[at].open == Openness::Closed
            &&& closed[at].call == rows[at].call
        }),
{
    lemma_close_wf(rows, next, at);
    let closed = rows.take(at) + seq![with_open(rows[at], Openness::Closed)] + rows.skip(
        subtree_end(rows, at),
    );
    assert forall|m: int| 0 <= m < at implies #[trigger] closed[m].id != rows[at].id by {
        assert(closed[m] == rows[m]);
    }
    lemma_index_from_first(closed, rows[at].id, 0, at);
}

/// Every row an answer adds has a number no row had before it.
pub proof fn lemma_answer_numbers_are_new(rows: Seq<CallRow>, next: u64, depth: u32, placed: Seq<Call>)
    requires
        tree_wf(rows, next),
        next + placed.len() <= u64::MAX,
    ensures
        forall|i: int, j: int|
            0 <= i < rows.len() && 0 <= j < placed.len() ==> #[trigger] rows[i].id
                != #[trigger] answer_rows(placed, next, depth)[j].id,
{
    assert forall|i: int, j: int|
        0 <= i < rows.len() && 0 <= j < placed.len() implies #[trigger] rows[i].id
            != #[trigger] answer_rows(placed, next, depth)[j].id by {
        assert(rows[i].id < next);
    }
}

// ---------------------------------------------------------------------------
// Executable parts
// ---------------------------------------------------------------------------

pub(crate) fn text_less(a: &String, b: &String) -> (r: bool)
    ensures
        r == text_lt(a@, b@),
{
    let x = chars_of(a.as_str());
    let y = chars_of(b.as_str());
    let mut i: usize = 0;
    assert(a@.skip(0) =~= a@);
    assert(b@.skip(0) =~= b@);
    while i < x.len() && i < y.len() && x[i] == y[i]
        invariant
            i <= x.len(),
            i <= y.len(),
            x@ == a@,
            y@ == b@,
            text_lt(a@, b@) == text_lt(a@.skip(i as int), b@.skip(i as int)),
        decreases x.len() - i,
    {
        assert(a@.skip(i as int).drop_first() =~= a@.skip(i + 1));
        assert(b@.skip(i as int).drop_first() =~= b@.skip(i + 1));
        i = i + 1;
    }
    if i == x.len() {
        i < y.len()
    } else if i == y.len() {
        false
    } else {
        assert(a@.skip(i as int)[0] == x@[i as int]);
        assert(b@.skip(i as int)[0] == y@[i as int]);
        x[i] < y[i]
    }
}

fn first_location(call: &Call) -> (at: &Location)
    ensures
        site_key(*call) == (SiteKey {
            external: at.external,
            path: at.path@,
            line: at.line,
            col: at.col,
        }),
{
    if call.sites.len() > 0 {
        &call.sites[0].location
    } else {
        &call.item.place.location
    }
}

/// Whether `a` is made strictly before `b`.
fn site_before(a: &Call, b: &Call) -> (r: bool)
    ensures
        r == key_lt(site_key(*a), site_key(*b)),
{
    let x = first_location(a);
    let y = first_location(b);
    if x.external != y.external {
        return !x.external;
    }
    if text_less(&x.path, &y.path) {
        return true;
    }
    if x.path != y.path {
        return false;
    }
    if x.line != y.line {
        return x.line < y.line;
    }
    x.col < y.col
}

/// `x` put into an ordered list after everything it does not come strictly
/// before: equal items keep the order they arrived in.
pub open spec fn insert_by<T>(s: Seq<T>, x: T, lt: spec_fn(T, T) -> bool) -> Seq<T>
    decreases s.len(),
{
    if s.len() == 0 {
        seq![x]
    } else if lt(x, s.last()) {
        insert_by(s.drop_last(), x, lt).push(s.last())
    } else {
        s.push(x)
    }
}

/// A list ordered by `lt`, stably: each item inserted in turn.
pub open spec fn sorted_by<T>(s: Seq<T>, lt: spec_fn(T, T) -> bool) -> Seq<T>
    decreases s.len(),
{
    if s.len() == 0 {
        Seq::empty()
    } else {
        insert_by(sorted_by(s.drop_last(), lt), s.last(), lt)
    }
}

/// Inserting into a list whose tail from `j` all comes after `x` leaves
/// that tail where it is, after `x`.
pub(crate) proof fn lemma_insert_split<T>(p: Seq<T>, x: T, j: int, lt: spec_fn(T, T) -> bool)
    requires
        0 <= j <= p.len(),
        forall|k: int| j <= k < p.len() ==> lt(x, #[trigger] p[k]),
    ensures
        insert_by(p, x, lt) == insert_by(p.take(j), x, lt) + p.skip(j),
    decreases p.len(),
{
    if j == p.len() {
        assert(p.take(j) =~= p);
        assert(p.skip(j) =~= Seq::<T>::empty());
        assert(insert_by(p, x, lt) + p.skip(j) =~= insert_by(p, x, lt));
    } else {
        let q = p.drop_last();
        assert(lt(x, p[p.len() - 1]));
        lemma_insert_split(q, x, j, lt);
        assert(q.take(j) =~= p.take(j));
        assert(insert_by(q.take(j), x, lt) + q.skip(j) + seq![p.last()] =~= insert_by(p.take(j), x, lt) + p.skip(j));
    }
}

/// Where the inner scan stopped: `x` goes right after position `j`.
pub(crate) proof fn lemma_insert_at<T>(p: Seq<T>, x: T, j: int, lt: spec_fn(T, T) -> bool)
    requires
        0 <= j <= p.len(),
        forall|k: int| j <= k < p.len() ==> lt(x, #[trigger] p[k]),
        j > 0 ==> !lt(x, p[j - 1]),
    ensures
        insert_by(p, x, lt) == p.take(j).push(x) + p.skip(j),
{
    lemma_insert_split(p, x, j, lt);
    if j > 0 {
        assert(p.take(j).last() == p[j - 1]);
    } else {
        assert(p.take(0) =~= Seq::<T>::empty());
    }
}

/// The order of calls by site: `a` strictly before `b`.
pub open spec fn site_lt() -> spec_fn(Call, Call) -> bool {
    |a: Call, b: Call| key_lt(site_key(a), site_key(b))
}

/// Calls in the order rows are drawn in: by where each call is first made.
fn sort_by_site(calls: Vec<Call>) -> (out: Vec<Call>)
    ensures
        out@.to_multiset() == calls@.to_multiset(),
        sorted_by_site(out@),
        out@ == sorted_by(calls@, site_lt()),
{
    let ghost orig = calls@;
    let mut v = calls;
    let n = v.len();
    if n == 0 {
        assert(orig =~= Seq::<Call>::empty());
        return v;
    }
    assert(orig.take(1).drop_last() =~= Seq::<Call>::empty());
    assert(sorted_by(orig.take(1).drop_last(), site_lt()) =~= Seq::<Call>::empty());
    assert(orig.take(1).last() == orig[0]);
    assert(insert_by(Seq::<Call>::empty(), orig[0], site_lt()) =~= seq![orig[0]]);
    assert(v@.take(1) =~= sorted_by(orig.take(1), site_lt()));
    assert(v@.skip(1) =~= orig.skip(1));
    let mut i: usize = 1;
    while i < n
        invariant
            1 <= i <= n,
            v.len() == n,
            orig.len() == n,
            v@.to_multiset() == orig.to_multiset(),
            sorted_by_site(v@.take(i as int)),
            v@.take(i as int) == sorted_by(orig.take(i as int), site_lt()),
            v@.skip(i as int) == orig.skip(i as int),
        decreases n - i,
    {
        let ghost before = v@;
        let x = v.remove(i);
        let mut j: usize = i;
        while j > 0 && site_before(&x, &v[j - 1])
            invariant
                0 <= j <= i,
                i < n,
                v.len() == n - 1,
                v@ == before.remove(i as int),
                x == before[i as int],
                forall|k: int| j <= k < i ==> key_lt(site_key(x), #[trigger] site_key(v@[k])),
            decreases j,
        {
            j = j - 1;
        }
        v.insert(j, x);
        proof {
            let s = v@.take(i + 1);
            let p = before.take(i as int);
            assert(x == orig[i as int]) by {
                assert(before.skip(i as int)[0] == orig.skip(i as int)[0]);
            }
            assert forall|k: int| j <= k < p.len() implies (site_lt())(x, #[trigger] p[k]) by {
                assert(p[k] == before.remove(i as int)[k]);
            }
            if j > 0 {
                assert(p[j - 1] == before.remove(i as int)[j - 1]);
            }
            lemma_insert_at(p, x, j as int, site_lt());
            assert(orig.take(i + 1).drop_last() =~= orig.take(i as int));
            assert(orig.take(i + 1).last() == orig[i as int]);
            assert(s =~= p.take(j as int).push(x) + p.skip(j as int));
            assert(v@.skip(i + 1) =~= orig.skip(i + 1)) by {
                assert forall|k: int| 0 <= k < v@.skip(i + 1).len() implies #[trigger] v@.skip(i + 1)[k] == orig.skip(i + 1)[k] by {
                    assert(v@.skip(i + 1)[k] == before[i + 1 + k]);
                    assert(before.skip(i as int)[1 + k] == orig.skip(i as int)[1 + k]);
                }
            }
            assert forall|a: int, b: int| 0 <= a < b < s.len() implies call_le(s[a], s[b]) by {
                if b < j {
                    assert(s[a] == p[a] && s[b] == p[b]);
                } else if a < j && b == j {
                    // everything before the gap is at most what sits just before it
                    assert(s[a] == p[a]);
                    assert(s[j - 1] == p[j - 1]);
                    if a < j - 1 {
                        assert(call_le(p[a], p[j - 1]));
                    }
                    assert(!key_lt(site_key(x), site_key(p[j - 1])));
                    if a < j - 1 {
                        lemma_key_le_transitive(p[a], p[j - 1], x);
                    }
                } else if a < j && b > j {
                    assert(s[a] == p[a] && s[b] == p[b - 1]);
                } else if a == j {
                    assert(s[b] == p[b - 1]);
                    assert(before.remove(i as int)[b - 1] == p[b - 1]);
                    lemma_key_lt_le(x, p[b - 1]);
                } else {
                    assert(s[a] == p[a - 1] && s[b] == p[b - 1]);
                }
            }
        }
        i = i + 1;
    }
    assert(v@.take(n as int) =~= v@);
    assert(orig.take(n as int) =~= orig);
    v
}

fn same_item(a: &CallItem, b: &CallItem) -> (r: bool)
    ensures
        r == same_function(*a, *b),
{
    a.name == b.name && a.place.location.path == b.place.location.path && a.place.location.line
        == b.place.location.line && a.place.location.col == b.place.location.col
        && a.place.location.external == b.place.location.external
}

impl CallTree {
    fn index_of(&self, id: u64) -> (r: Option<usize>)
        ensures
            r matches Some(i) ==> index_of_id(self.rows@, id) == Some(i as int) && i
                < self.rows.len() && self.rows@[i as int].id == id,
            r is None ==> index_of_id(self.rows@, id) is None,
    {
        let mut k: usize = 0;
        while k < self.rows.len() && self.rows[k].id != id
            invariant
                k <= self.rows.len(),
                index_of_id(self.rows@, id) == index_from(self.rows@, id, k as int),
            decreases self.rows.len() - k,
        {
            k = k + 1;
        }
        if k < self.rows.len() {
            Some(k)
        } else {
            None
        }
    }

    /// Set one row's openness.
    fn set_open(&mut self, at: usize, open: Openness)
        requires
            at < old(self).rows@.len(),
        ensures
            final(self).rows@ == old(self).rows@.update(at as int, with_open(old(self).rows@[at as int], open)),
            final(self).serial == old(self).serial,
            final(self).incoming == old(self).incoming,
            final(self).next == old(self).next,
    {
        let mut row = self.rows.remove(at);
        row.open = open;
        self.rows.insert(at, row);
        assert(self.rows@ =~= old(self).rows@.update(at as int, with_open(old(self).rows@[at as int], open)));
    }

    /// A tree holding only the function asked about, not yet opened.
    pub fn new(serial: u64, root: CallItem, incoming: bool) -> (t: CallTree)
        ensures
            t.wf(),
            t.serial == serial,
            t.incoming == incoming,
            t.rows@.len() == 1,
            t.rows@[0].id == 0,
            t.rows@[0].depth == 0,
            t.rows@[0].call.item == root,
            t.rows@[0].call.sites@.len() == 0,
            t.rows@[0].open == Openness::Closed,
            t.next@ == 1,
    {
        let mut rows = Vec::new();
        rows.push(
            CallRow {
                id: 0,
                depth: 0,
                call: Call { item: root, sites: Vec::new() },
                open: Openness::Closed,
            },
        );
        CallTree { serial, incoming, rows, next: NextId { value: 1 } }
    }

    /// The function the tree is about.
    pub fn root(&self) -> (r: &CallItem)
        requires
            self.wf(),
        ensures
            *r == self.rows@[0].call.item,
    {
        &self.rows[0].call.item
    }

    /// Start opening a row. The server's description of its function comes
    /// back to be asked about, or nothing when there is nothing to ask — the
    /// row is gone, already open, or already being asked about.
    pub fn open(&mut self, id: u64) -> (r: Option<String>)
        requires
            old(self).wf(),
        ensures
            final(self).wf(),
            final(self).serial == old(self).serial,
            final(self).incoming == old(self).incoming,
            final(self).next == old(self).next,
            match index_of_id(old(self).rows@, id) {
                Some(at) => if old(self).rows@[at].open == Openness::Closed {
                    &&& r == Some(old(self).rows@[at].call.item.item)
                    &&& final(self).rows@ == old(self).rows@.update(
                        at,
                        with_open(old(self).rows@[at], Openness::Asking),
                    )
                } else {
                    r is None && final(self).rows@ == old(self).rows@
                },
                None => r is None && final(self).rows@ == old(self).rows@,
            },
    {
        let Some(at) = self.index_of(id) else {
            return None;
        };
        if self.rows[at].open != Openness::Closed {
            return None;
        }
        let item = self.rows[at].call.item.item.clone();
        proof {
            lemma_update_open_wf(self.rows@, self.next@, at as int, Openness::Asking);
        }
        self.set_open(at, Openness::Asking);
        Some(item)
    }

    /// An ask that failed: the row is closed again, to be opened again.
    pub fn failed(&mut self, id: u64)
        requires
            old(self).wf(),
        ensures
            final(self).wf(),
            final(self).serial == old(self).serial,
            final(self).incoming == old(self).incoming,
            final(self).next == old(self).next,
            match index_of_id(old(self).rows@, id) {
                Some(at) => if old(self).rows@[at].open == Openness::Asking {
                    final(self).rows@ == old(self).rows@.update(
                        at,
                        with_open(old(self).rows@[at], Openness::Closed),
                    )
                } else {
                    final(self).rows@ == old(self).rows@
                },
                None => final(self).rows@ == old(self).rows@,
            },
    {
        if let Some(at) = self.index_of(id) {
            if self.rows[at].open == Openness::Asking {
                proof {
                    lemma_update_open_wf(self.rows@, self.next@, at as int, Openness::Closed);
                }
                self.set_open(at, Openness::Closed);
            }
        }
    }

    /// The calls a row asked for, put under it — sorted by where each call
    /// is made, which for calls out of one function is the order it makes
    /// them in. Dropped when the row went, or was closed while they were on
    /// the way: an answer opening a row somebody had just closed would be
    /// the row reopening itself.
    pub fn answer(&mut self, id: u64, calls: Vec<Call>)
        requires
            old(self).wf(),
            index_of_id(old(self).rows@, id) matches Some(at) ==> (old(self).rows@[at].open == Openness::Asking
                ==> old(self).next@ + calls@.len() <= u64::MAX && old(self).rows@[at].depth < u32::MAX),
        ensures
            final(self).wf(),
            final(self).serial == old(self).serial,
            final(self).incoming == old(self).incoming,
            match index_of_id(old(self).rows@, id) {
                Some(at) => if old(self).rows@[at].open == Openness::Asking {
                    let placed = sorted_by(calls@, site_lt());
                    &&& final(self).next@ == old(self).next@ + calls@.len()
                    &&& placed.to_multiset() == calls@.to_multiset()
                    &&& sorted_by_site(placed)
                    &&& final(self).rows@ == old(self).rows@.take(at) + seq![
                        with_open(old(self).rows@[at], Openness::Open),
                    ] + answer_rows(placed, old(self).next@, old(self).rows@[at].depth)
                        + old(self).rows@.skip(at + 1)
                } else {
                    final(self).rows@ == old(self).rows@ && final(self).next == old(self).next
                },
                None => final(self).rows@ == old(self).rows@ && final(self).next == old(
                    self,
                ).next,
            },
    {
        let Some(at) = self.index_of(id) else {
            return;
        };
        if self.rows[at].open != Openness::Asking {
            return;
        }
        let ghost old_rows = self.rows@;
        let ghost next0 = self.next@;
        let sorted = sort_by_site(calls);
        let ghost placed = sorted@;
        assert(placed.len() == calls@.len()) by {
            assert(placed.to_multiset().len() == calls@.to_multiset().len());
        }
        let depth = self.rows[at].depth + 1;
        let n = sorted.len();
        let mut added: Vec<CallRow> = Vec::new();
        let mut sorted = sorted;
        let mut k: usize = 0;
        let base = self.next.value;
        // Taken off the back and put in order: the numbers follow the order
        // the calls are drawn in.
        let mut rest: Vec<Call> = Vec::new();
        while sorted.len() > 0
            invariant
                sorted@ + rest@ == placed,
            decreases sorted.len(),
        {
            let c = sorted.pop().unwrap();
            rest.insert(0, c);
            assert(sorted@ + rest@ =~= placed);
        }
        assert(rest@ =~= placed);
        while rest.len() > 0
            invariant
                k + rest@.len() == n,
                n == placed.len(),
                base == next0,
                base + n <= u64::MAX,
                depth == old_rows[at as int].depth + 1,
                rest@ == placed.skip(k as int),
                added@ == answer_rows(placed, next0, old_rows[at as int].depth).take(k as int),
            decreases rest.len(),
        {
            let c = rest.remove(0);
            added.push(CallRow { id: base + k as u64, depth, call: c, open: Openness::Closed });
            assert(rest@ =~= placed.skip(k + 1));
            k = k + 1;
            assert(added@ =~= answer_rows(placed, next0, old_rows[at as int].depth).take(k as int));
        }
        assert(added@ =~= answer_rows(placed, next0, old_rows[at as int].depth));
        self.next = NextId { value: base + n as u64 };
        self.set_open(at, Openness::Open);
        let mut tail = self.rows.split_off(at + 1);
        self.rows.append(&mut added);
        self.rows.append(&mut tail);
        proof {
            let new_rows = answer_rows(placed, next0, old_rows[at as int].depth);
            assert(self.rows@ =~= old_rows.take(at as int) + seq![
                with_open(old_rows[at as int], Openness::Open),
            ] + new_rows + old_rows.skip(at + 1));
            lemma_answer_wf(old_rows, next0, at as int, placed);
        }
    }

    /// Close a row: everything below it that is deeper goes.
    #[verifier::rlimit(40)]
    pub fn close(&mut self, id: u64)
        requires
            old(self).wf(),
        ensures
            final(self).wf(),
            final(self).serial == old(self).serial,
            final(self).incoming == old(self).incoming,
            final(self).next == old(self).next,
            match index_of_id(old(self).rows@, id) {
                Some(at) => final(self).rows@ == old(self).rows@.take(at) + seq![
                    with_open(old(self).rows@[at], Openness::Closed),
                ] + old(self).rows@.skip(subtree_end(old(self).rows@, at)),
                None => final(self).rows@ == old(self).rows@,
            },
    {
        let Some(at) = self.index_of(id) else {
            return;
        };
        let ghost old_rows = self.rows@;
        let depth = self.rows[at].depth;
        let mut end = at + 1;
        while end < self.rows.len() && self.rows[end].depth > depth
            invariant
                at < end <= self.rows.len(),
                self.rows@ == old_rows,
                depth == old_rows[at as int].depth,
                subtree_end(old_rows, at as int) == end_from(old_rows, at as int, end as int),
            decreases self.rows.len() - end,
        {
            end = end + 1;
        }
        let mut tail = self.rows.split_off(at + 1);
        let mut kept = tail.split_off(end - (at + 1));
        self.rows.append(&mut kept);
        self.set_open(at, Openness::Closed);
        proof {
            lemma_close_wf(old_rows, self.next@, at as int);
            assert(self.rows@ =~= old_rows.take(at as int) + seq![
                with_open(old_rows[at as int], Openness::Closed),
            ] + old_rows.skip(end as int));
        }
    }

    /// Whether the row at `index` is a function already open above it on its
    /// own branch — a recursion, which opens as deep as anybody cares to
    /// click, and says so rather than looking like new callers.
    pub fn recursive(&self, index: usize) -> (r: bool)
        ensures
            r == (index < self.rows@.len() && is_recursion(self.rows@, index as int)),
    {
        if index >= self.rows.len() {
            return false;
        }
        let ghost rows = self.rows@;
        let row = &self.rows[index];
        let mut depth = row.depth;
        let mut k = index;
        // `depth` is the shallowest row from `k` down to the row asked about.
        while k > 0
            invariant
                k <= index < rows.len(),
                rows == self.rows@,
                *row == rows[index as int],
                forall|m: int| k <= m <= index ==> #[trigger] rows[m].depth >= depth,
                exists|m: int| k <= m <= index && #[trigger] rows[m].depth == depth,
                forall|b: int|
                    k <= b < index && on_branch(rows, index as int, b) ==> !same_function(
                        #[trigger] rows[b].call.item,
                        row.call.item,
                    ),
            decreases k,
        {
            let above = &self.rows[k - 1];
            if above.depth < depth {
                proof {
                    assert forall|m: int| k - 1 < m <= index implies #[trigger] rows[m].depth
                        > rows[k - 1].depth by {}
                }
                if same_item(&above.call.item, &row.call.item) {
                    assert(on_branch(rows, index as int, k - 1));
                    return true;
                }
                depth = above.depth;
            } else {
                proof {
                    let w = choose|m: int| k <= m <= index && #[trigger] rows[m].depth == depth;
                    assert(!on_branch(rows, index as int, k - 1)) by {
                        assert(rows[w].depth <= rows[k - 1].depth);
                    }
                }
            }
            k = k - 1;
        }
        false
    }
}

// ---------------------------------------------------------------------------
// Where a row goes
// ---------------------------------------------------------------------------

/// Two locations name the same place.
pub open spec fn same_location(a: Location, b: Location) -> bool {
    a.path@ == b.path@ && a.line == b.line && a.col == b.col && a.external == b.external
}

/// Two places are the same span with the same text.
pub open spec fn same_place(a: Place, b: Place) -> bool {
    same_location(a.location, b.location) && a.end_col == b.end_col && a.text@ == b.text@
}

/// Two items describe the same function in the same words.
pub open spec fn copied_item(a: CallItem, b: CallItem) -> bool {
    &&& a.name@ == b.name@
    &&& a.kind@ == b.kind@
    &&& match (a.detail, b.detail) {
        (Some(x), Some(y)) => x@ == y@,
        (None, None) => true,
        _ => false,
    }
    &&& same_place(a.place, b.place)
    &&& a.item@ == b.item@
}

/// Where a call is first made: its first site, or — for the first row,
/// which made no call — its function.
pub open spec fn first_site(call: Call) -> Location {
    if call.sites@.len() > 0 {
        call.sites@[0].location
    } else {
        call.item.place.location
    }
}

/// The row a row is under: the nearest above it that is shallower.
pub open spec fn parent_from(rows: Seq<CallRow>, at: int, k: int) -> Option<int>
    decreases k + 1,
{
    if k < 0 || k >= rows.len() {
        None
    } else if rows[k].depth < rows[at].depth {
        Some(k)
    } else {
        parent_from(rows, at, k - 1)
    }
}

proof fn lemma_parent_from(rows: Seq<CallRow>, at: int, k: int)
    requires
        k < rows.len(),
    ensures
        parent_from(rows, at, k) matches Some(p) ==> 0 <= p <= k && rows[p].depth < rows[at].depth,
    decreases k + 1,
{
    if k >= 0 && rows[k].depth >= rows[at].depth {
        lemma_parent_from(rows, at, k - 1);
    }
}

fn copy_location(l: &Location) -> (out: Location)
    ensures
        same_location(out, *l),
{
    Location { path: owned(l.path.as_str()), line: l.line, col: l.col, external: l.external }
}

fn copy_place(p: &Place) -> (out: Place)
    ensures
        same_place(out, *p),
{
    Place { location: copy_location(&p.location), end_col: p.end_col, text: owned(p.text.as_str()) }
}

fn copy_places(v: &Vec<Place>) -> (out: Vec<Place>)
    ensures
        out.len() == v.len(),
        forall|i: int| 0 <= i < out.len() ==> same_place(#[trigger] out@[i], v@[i]),
{
    let mut out: Vec<Place> = Vec::new();
    let mut i: usize = 0;
    while i < v.len()
        invariant
            i <= v.len(),
            out.len() == i,
            forall|k: int| 0 <= k < i ==> same_place(#[trigger] out@[k], v@[k]),
        decreases v.len() - i,
    {
        out.push(copy_place(&v[i]));
        i = i + 1;
    }
    out
}

fn copy_item(c: &CallItem) -> (out: CallItem)
    ensures
        copied_item(out, *c),
{
    let detail = match &c.detail {
        Some(d) => Some(owned(d.as_str())),
        None => None,
    };
    CallItem {
        name: owned(c.name.as_str()),
        kind: owned(c.kind.as_str()),
        detail,
        place: copy_place(&c.place),
        item: owned(c.item.as_str()),
    }
}

/// Every place a row's calls are made, for the finder, with the two names
/// its title takes.
pub struct SitesList {
    pub caller: String,
    pub callee: String,
    pub places: Vec<Place>,
}

impl CallTree {
    /// Where a row's call is made — in the caller, which is the row for
    /// calls in and the row above it for calls out. The first row made no
    /// call, so it goes to its function.
    pub fn call_site(&self, id: u64) -> (at: Option<Location>)
        ensures
            match index_of_id(self.rows@, id) {
                Some(i) => at matches Some(l) && same_location(l, first_site(self.rows@[i].call)),
                None => at is None,
            },
    {
        match self.index_of(id) {
            Some(i) => {
                let call = &self.rows[i].call;
                if call.sites.len() > 0 {
                    Some(copy_location(&call.sites[0].location))
                } else {
                    Some(copy_location(&call.item.place.location))
                }
            },
            None => None,
        }
    }

    /// Where a row's function itself is.
    pub fn called_place(&self, id: u64) -> (at: Option<Location>)
        ensures
            match index_of_id(self.rows@, id) {
                Some(i) => at matches Some(l) && same_location(l, self.rows@[i].call.item.place.location),
                None => at is None,
            },
    {
        match self.index_of(id) {
            Some(i) => Some(copy_location(&self.rows[i].call.item.place.location)),
            None => None,
        }
    }

    /// Every place a row's calls are made — for a row calling more than
    /// once, whose click can go to only the first — named by its caller and
    /// its callee: the row and the one it is under, in the order the tree
    /// reads. Nothing for a row not in the tree, or the first, which is
    /// under nothing.
    pub fn sites(&self, id: u64) -> (list: Option<SitesList>)
        ensures
            match index_of_id(self.rows@, id) {
                Some(i) => match parent_from(self.rows@, i, i - 1) {
                    Some(p) => list matches Some(l) && {
                        let (caller, callee) = if self.incoming {
                            (self.rows@[i].call.item.name@, self.rows@[p].call.item.name@)
                        } else {
                            (self.rows@[p].call.item.name@, self.rows@[i].call.item.name@)
                        };
                        &&& l.caller@ == caller
                        &&& l.callee@ == callee
                        &&& l.places.len() == self.rows@[i].call.sites.len()
                        &&& forall|k: int| 0 <= k < l.places.len()
                            ==> same_place(#[trigger] l.places@[k], self.rows@[i].call.sites@[k])
                    },
                    None => list is None,
                },
                None => list is None,
            },
    {
        let at = match self.index_of(id) {
            Some(i) => i,
            None => return None,
        };
        let depth = self.rows[at].depth;
        let mut k: usize = at;
        while k > 0 && self.rows[k - 1].depth >= depth
            invariant
                k <= at < self.rows.len(),
                depth == self.rows@[at as int].depth,
                parent_from(self.rows@, at as int, at - 1) == parent_from(self.rows@, at as int, k - 1),
            decreases k,
        {
            k = k - 1;
        }
        if k == 0 {
            return None;
        }
        let p = k - 1;
        let row = &self.rows[at];
        let parent = &self.rows[p];
        let (caller, callee) = if self.incoming {
            (owned(row.call.item.name.as_str()), owned(parent.call.item.name.as_str()))
        } else {
            (owned(parent.call.item.name.as_str()), owned(row.call.item.name.as_str()))
        };
        Some(SitesList { caller, callee, places: copy_places(&row.call.sites) })
    }

    /// The same function's calls the other way: a new tree from the
    /// function, under a new number — nothing when it already reads that
    /// way.
    pub fn turned(&self, incoming: bool, serial: u64) -> (t: Option<CallTree>)
        requires
            self.wf(),
        ensures
            self.incoming == incoming ==> t is None,
            self.incoming != incoming ==> (t matches Some(t) && t.wf() && t.serial == serial
                && t.incoming == incoming && t.rows@.len() == 1 && copied_item(t.rows@[0].call.item, self.rows@[0].call.item)
                && t.rows@[0].call.sites@.len() == 0),
    {
        if self.incoming == incoming {
            return None;
        }
        Some(CallTree::new(serial, copy_item(self.root()), incoming))
    }
}

/// What the Calls tab shows.
pub enum CallsView {
    /// Nothing asked yet.
    Nothing,
    /// The ask with this number is out.
    Asking(u64),
    Tree(CallTree),
    /// The caret was on no function; the word it was on.
    NoFunction(String),
}

/// Which way a new hierarchy reads: calls in first, as VS Code opens it, or
/// whichever way the last one was being read.
pub fn hierarchy_direction(view: &CallsView) -> (incoming: bool)
    ensures
        incoming == (match *view {
            CallsView::Tree(t) => t.incoming,
            _ => true,
        }),
{
    match view {
        CallsView::Tree(t) => t.incoming,
        _ => true,
    }
}

/// The server answered the ask numbered `serial`: its first function is
/// the tree's root — read the way asked — or, with none, the word the caret
/// was on is named. An answer to an ask no longer out changes nothing.
pub fn hierarchy_answered(view: &mut CallsView, serial: u64, incoming: bool, root: Option<CallItem>, word: String)
    ensures
        !(*old(view) matches CallsView::Asking(s) && s == serial) ==> *final(view) == *old(view),
        (*old(view) matches CallsView::Asking(s) && s == serial) ==> match root {
            Some(r) => *final(view) matches CallsView::Tree(t) && t.wf() && t.serial == serial && t.incoming == incoming
                && t.rows@.len() == 1 && t.rows@[0].call.item == r,
            None => *final(view) == CallsView::NoFunction(word),
        },
{
    let asking = match view {
        CallsView::Asking(s) => *s == serial,
        _ => false,
    };
    if !asking {
        return;
    }
    match root {
        Some(r) => {
            *view = CallsView::Tree(CallTree::new(serial, r, incoming));
        },
        None => {
            *view = CallsView::NoFunction(word);
        },
    }
}

} // verus!
