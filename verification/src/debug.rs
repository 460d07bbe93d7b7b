//! The debugger's side of the editor: the standing breakpoints, and what a
//! session's state updates change in them and on screen.

use vstd::prelude::*;

use crate::text::{owned, same_text, text_of};

verus! {

/// A breakpoint the editor keeps: a file and a zero-based line.
pub struct Breakpoint {
    pub file: String,
    pub line: u32,
}

/// Whether a breakpoint is at `file`, `line`.
pub open spec fn at(b: Breakpoint, file: Seq<char>, line: u32) -> bool {
    b.file@ == file && b.line == line
}

/// Every breakpoint but the ones at `file`, `line`.
pub open spec fn not_at(file: Seq<char>, line: u32) -> spec_fn(Breakpoint) -> bool {
    |b: Breakpoint| !at(b, file, line)
}

/// Whether the list holds a breakpoint at `file`, `line`.
pub open spec fn has_breakpoint(list: Seq<Breakpoint>, file: Seq<char>, line: u32) -> bool {
    exists|k: int| 0 <= k < list.len() && at(#[trigger] list[k], file, line)
}

/// Toggle a breakpoint: one there goes — every copy of it — and one not
/// there is added at the end. The answer says whether it was there.
pub fn toggle_breakpoint(list: &mut Vec<Breakpoint>, file: String, line: u32) -> (existed: bool)
    ensures
        existed == has_breakpoint(old(list)@, file@, line),
        existed ==> final(list)@ == old(list)@.filter(not_at(file@, line)),
        !existed ==> final(list)@ == old(list)@.push(Breakpoint { file: file, line: line }),
{
    let ghost before = list@;
    let ghost keep = not_at(file@, line);
    let mut existed = false;
    let mut i: usize = 0;
    let ghost mut j: int = 0;
    while i < list.len()
        invariant
            0 <= j <= before.len(),
            keep == not_at(file@, line),
            list@ == before.take(j).filter(keep) + before.skip(j),
            i == before.take(j).filter(keep).len(),
            existed == has_breakpoint(before.take(j), file@, line),
        decreases list.len() - i,
    {
        proof {
            assert(before.take(j + 1).drop_last() =~= before.take(j));
            before.take(j).lemma_filter_push(before[j], keep);
            assert(before.take(j).push(before[j]) =~= before.take(j + 1));
            assert(list@[i as int] == before[j]);
            assert(before.skip(j).drop_first() =~= before.skip(j + 1));
            if has_breakpoint(before.take(j), file@, line) {
                let k = choose|k: int| 0 <= k < before.take(j).len() && at(#[trigger] before.take(j)[k], file@, line);
                assert(before.take(j + 1)[k] == before.take(j)[k]);
            }
            if has_breakpoint(before.take(j + 1), file@, line) && !at(before[j], file@, line) {
                let k = choose|k: int| 0 <= k < before.take(j + 1).len() && at(#[trigger] before.take(j + 1)[k], file@, line);
                assert(before.take(j)[k] == before.take(j + 1)[k]);
            }
            if at(before[j], file@, line) {
                assert(before.take(j + 1)[j] == before[j]);
            }
        }
        if list[i].line == line && same_text(list[i].file.as_str(), file.as_str()) {
            list.remove(i);
            existed = true;
            proof {
                assert(list@ =~= before.take(j + 1).filter(keep) + before.skip(j + 1));
                j = j + 1;
            }
        } else {
            proof {
                assert(list@ =~= before.take(j + 1).filter(keep) + before.skip(j + 1));
                j = j + 1;
            }
            i = i + 1;
        }
    }
    proof {
        assert(before.take(j) =~= before);
        assert(list@ =~= before.filter(keep));
    }
    if !existed {
        proof {
            lemma_filter_keeps_all(before, keep);
        }
        list.push(Breakpoint { file, line });
    }
    existed
}

proof fn lemma_filter_keeps_all<A>(s: Seq<A>, keep: spec_fn(A) -> bool)
    requires
        forall|k: int| 0 <= k < s.len() ==> keep(#[trigger] s[k]),
    ensures
        s.filter(keep) == s,
    decreases s.len(),
{
    reveal(Seq::filter);
    if s.len() > 0 {
        lemma_filter_keeps_all(s.drop_last(), keep);
        assert(s.drop_last().push(s.last()) =~= s);
    }
}

/// Toggling a breakpoint that is not there, and toggling it again, leaves
/// the list as it was.
pub proof fn lemma_toggle_twice(list: Seq<Breakpoint>, file: String, line: u32)
    requires
        !has_breakpoint(list, file@, line),
    ensures
        list.push(Breakpoint { file: file, line: line }).filter(not_at(file@, line)) == list,
{
    let keep = not_at(file@, line);
    list.lemma_filter_push(Breakpoint { file: file, line: line }, keep);
    assert forall|k: int| 0 <= k < list.len() implies keep(#[trigger] list[k]) by {
        if !keep(list[k]) {
            assert(at(list[k], file@, line));
        }
    }
    lemma_filter_keeps_all(list, keep);
}

/// A breakpoint as the running debugger placed it: where it landed, where
/// it was asked for, and the debugger's number for it.
pub struct Placed {
    pub file: String,
    pub line: u32,
    pub requested: Option<u32>,
    pub number: Option<u32>,
}

/// The first placed breakpoint at or after `k` at `file`, `line`.
pub open spec fn placed_from(placed: Seq<Placed>, file: Seq<char>, line: u32, k: int) -> Option<int>
    decreases placed.len() - k,
{
    if k < 0 || k >= placed.len() {
        None
    } else if placed[k].file@ == file && placed[k].line == line {
        Some(k)
    } else {
        placed_from(placed, file, line, k + 1)
    }
}

/// What the running debugger is told of a toggled breakpoint: to clear it
/// by its own number when it was there and the debugger numbered it; to
/// place it otherwise.
pub fn removal_number(placed: &[Placed], file: &str, line: u32, existed: bool) -> (remove: Option<u32>)
    ensures
        remove == (if existed {
            match placed_from(placed@, file@, line, 0) {
                Some(k) => placed@[k].number,
                None => None,
            }
        } else {
            None
        }),
{
    if !existed {
        return None;
    }
    let mut k: usize = 0;
    while k < placed.len()
        invariant
            k <= placed.len(),
            existed,
            placed_from(placed@, file@, line, 0) == placed_from(placed@, file@, line, k as int),
        decreases placed.len() - k,
    {
        if placed[k].line == line && same_text(placed[k].file.as_str(), file) {
            return placed[k].number;
        }
        k = k + 1;
    }
    None
}

// ---------------------------------------------------------------------------
// A session's updates
// ---------------------------------------------------------------------------

/// The first breakpoint at or after `k` at `file`, `line`.
pub open spec fn standing_from(list: Seq<Breakpoint>, file: Seq<char>, line: u32, k: int) -> Option<int>
    decreases list.len() - k,
{
    if k < 0 || k >= list.len() {
        None
    } else if at(list[k], file, line) {
        Some(k)
    } else {
        standing_from(list, file, line, k + 1)
    }
}

proof fn lemma_standing_from(list: Seq<Breakpoint>, file: Seq<char>, line: u32, k: int)
    requires
        0 <= k,
    ensures
        standing_from(list, file, line, k) matches Some(i) ==> k <= i < list.len() && list[i].file@ == file
            && list[i].line == line,
    decreases list.len() - k,
{
    if k < list.len() && !at(list[k], file, line) {
        lemma_standing_from(list, file, line, k + 1);
    }
}

/// The list after the debugger moved one breakpoint: one asked for on a
/// line with no code lands on the next line that has some, and the dot
/// follows it.
pub open spec fn follow_one(list: Seq<Breakpoint>, p: Placed) -> Seq<Breakpoint> {
    match p.requested {
        Some(asked) if asked != p.line => match standing_from(list, p.file@, asked, 0) {
            Some(k) => list.update(k, Breakpoint { line: p.line, ..list[k] }),
            None => list,
        },
        _ => list,
    }
}

/// The list after every breakpoint the debugger moved is followed, in turn.
pub open spec fn follow_all(list: Seq<Breakpoint>, placed: Seq<Placed>) -> Seq<Breakpoint>
    decreases placed.len(),
{
    if placed.len() == 0 {
        list
    } else {
        follow_one(follow_all(list, placed.drop_last()), placed.last())
    }
}

fn follow_moved(list: &mut Vec<Breakpoint>, p: &Placed)
    ensures
        final(list)@ == follow_one(old(list)@, *p),
{
    let asked = match p.requested {
        Some(asked) => asked,
        None => {
            return;
        },
    };
    if asked == p.line {
        return;
    }
    proof {
        lemma_standing_from(list@, p.file@, asked, 0);
    }
    let mut k: usize = 0;
    while k < list.len()
        invariant
            k <= list.len(),
            list@ == old(list)@,
            asked != p.line,
            p.requested == Some(asked),
            standing_from(list@, p.file@, asked, 0) == standing_from(list@, p.file@, asked, k as int),
        decreases list.len() - k,
    {
        if list[k].line == asked && same_text(list[k].file.as_str(), p.file.as_str()) {
            let b = list.remove(k);
            list.insert(k, Breakpoint { file: b.file, line: p.line });
            assert(list@ =~= old(list)@.update(k as int, Breakpoint { line: p.line, ..old(list)@[k as int] }));
            return;
        }
        k = k + 1;
    }
}

/// A frame of the stopped program's stack.
pub struct Frame {
    pub address: String,
    pub file: Option<String>,
    pub line: Option<u32>,
}

/// What one session remembers between its updates: whether the standing
/// breakpoints have been placed, and where it last stopped.
pub struct DebugWatch {
    pub placed: bool,
    pub stopped_at: Option<String>,
}

/// A new debug session: its number, above every one before, so a replaced
/// session's late updates are told apart.
pub fn start_session(epoch: &mut u64) -> (mine: u64)
    requires
        *old(epoch) < u64::MAX,
    ensures
        *final(epoch) == *old(epoch) + 1,
        mine == *final(epoch),
{
    *epoch = *epoch + 1;
    *epoch
}

/// Whether an update belongs to the session running now: one from a
/// session replaced since is dropped.
pub fn update_is_current(epoch: u64, mine: u64) -> (current: bool)
    ensures
        current == (epoch == mine),
{
    epoch == mine
}

/// What an update sets off: placing the standing breakpoints and running —
/// once, when the debugger first attaches — and moving the editor to where
/// the program newly stopped.
pub struct Absorbed {
    pub place_standing: bool,
    pub reveal: Option<(String, u32)>,
}

/// Absorb one state update of the running session. The standing list is
/// placed once the debugger has attached; breakpoints the debugger moved
/// are followed; and the editor goes to where the program stopped only when
/// it has newly stopped — cleared while running, so stopping twice in the
/// same place still reveals.
pub fn absorb_update(
    watch: &mut DebugWatch,
    list: &mut Vec<Breakpoint>,
    attached: bool,
    running: bool,
    placed: &[Placed],
    top: Option<&Frame>,
) -> (r: Absorbed)
    ensures
        r.place_standing == (attached && !old(watch).placed),
        final(watch).placed == (old(watch).placed || attached),
        final(list)@ == follow_all(old(list)@, placed@),
        running ==> final(watch).stopped_at is None && r.reveal is None,
        !running ==> match top {
            None => final(watch).stopped_at == old(watch).stopped_at && r.reveal is None,
            Some(frame) => if text_of(old(watch).stopped_at) == Some(frame.address@) {
                final(watch).stopped_at == old(watch).stopped_at && r.reveal is None
            } else {
                &&& text_of(final(watch).stopped_at) == Some(frame.address@)
                &&& match (frame.file, frame.line) {
                    (Some(f), Some(l)) => r.reveal matches Some((rf, rl)) && rf@ == f@ && rl == l,
                    _ => r.reveal is None,
                }
            },
        },
{
    let place_standing = attached && !watch.placed;
    if place_standing {
        watch.placed = true;
    }
    let mut i: usize = 0;
    while i < placed.len()
        invariant
            i <= placed.len(),
            list@ == follow_all(old(list)@, placed@.take(i as int)),
        decreases placed.len() - i,
    {
        proof {
            assert(placed@.take(i + 1).drop_last() =~= placed@.take(i as int));
            assert(placed@.take(i + 1).last() == placed@[i as int]);
        }
        follow_moved(list, &placed[i]);
        i = i + 1;
    }
    assert(placed@.take(placed.len() as int) =~= placed@);
    let mut go_to: Option<(String, u32)> = None;
    if running {
        watch.stopped_at = None;
    } else {
        match top {
            Some(frame) => {
                let arrived = match &watch.stopped_at {
                    Some(last) => !same_text(last.as_str(), frame.address.as_str()),
                    None => true,
                };
                if arrived {
                    watch.stopped_at = Some(owned(frame.address.as_str()));
                    match (&frame.file, frame.line) {
                        (Some(f), Some(l)) => {
                            go_to = Some((owned(f.as_str()), l));
                        },
                        _ => {},
                    }
                }
            },
            None => {},
        }
    }
    Absorbed { place_standing, reveal: go_to }
}

/// Following a breakpoint the debugger moved changes only the breakpoint
/// that was asked for in that file on that line: it lands on the line the
/// debugger chose, in the same file, and every breakpoint in another file,
/// or on another line, stays exactly where it was. The list keeps its
/// length.
pub proof fn lemma_follow_moves_only_its_own(list: Seq<Breakpoint>, p: Placed)
    ensures
        follow_one(list, p).len() == list.len(),
        forall|k: int|
            0 <= k < list.len() && (#[trigger] follow_one(list, p)[k]).file@ != p.file@
                ==> follow_one(list, p)[k] == list[k],
        forall|k: int|
            0 <= k < list.len() && follow_one(list, p)[k] != #[trigger] list[k] ==> {
                &&& p.requested matches Some(asked)
                &&& list[k].file@ == p.file@
                &&& list[k].line == asked
                &&& follow_one(list, p)[k].file == list[k].file
                &&& follow_one(list, p)[k].line == p.line
            },
{
    lemma_standing_from(list, p.file@, match p.requested { Some(a) => a, None => 0 }, 0);
}

} // verus!
