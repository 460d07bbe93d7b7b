//! The language server's side of the editor: which files it is told about,
//! which lines it is asked to colour, which of its answers still count, and
//! what its notifications change.

use vstd::prelude::*;

use crate::text::{chars_of, concat, occurs, owned, same_text, text_of};

verus! {

// ---------------------------------------------------------------------------
// Which files, which lines
// ---------------------------------------------------------------------------

/// Files longer than this are asked for their colours and hints around the
/// lines on screen rather than whole.
pub const SEMANTIC_WHOLE_LINES: u32 = 3000;

/// How many lines either side of the drawn ones such a request covers.
pub const SEMANTIC_MARGIN: u32 = 400;

/// A Rust source file: the only kind rust-analyzer is ever told about.
pub open spec fn is_rust(path: Seq<char>) -> bool {
    ".rs"@.is_suffix_of(path)
}

/// Whether a path is a Rust source file.
pub fn is_rust_path(path: &str) -> (b: bool)
    ensures
        b == is_rust(path@),
{
    let chars = chars_of(path);
    let suffix = chars_of(".rs");
    if suffix.len() > chars.len() {
        return false;
    }
    let at = chars.len() - suffix.len();
    let r = occurs(&chars, &suffix, at);
    proof {
        if r {
            assert(path@.subrange(at as int, at + suffix@.len()) == ".rs"@);
        }
        if is_rust(path@) {
            assert(path@.subrange(at as int, at + suffix@.len()) =~= ".rs"@);
        }
    }
    r
}

/// `a - b`, or zero.
pub open spec fn minus_or_zero(a: u32, b: u32) -> u32 {
    if a >= b {
        (a - b) as u32
    } else {
        0
    }
}

/// The lines around the drawn ones `from..to`, held to the file.
pub open spec fn around(count: u32, from: u32, to: u32) -> (u32, u32) {
    let end = if to + SEMANTIC_MARGIN > u32::MAX {
        u32::MAX
    } else {
        (to + SEMANTIC_MARGIN) as u32
    };
    (minus_or_zero(from, SEMANTIC_MARGIN), if end < count {
        end
    } else {
        count
    })
}

fn around_exec(count: u32, from: u32, to: u32) -> (lines: (u32, u32))
    ensures
        lines == around(count, from, to),
{
    let first = from.saturating_sub(SEMANTIC_MARGIN);
    let end = to.saturating_add(SEMANTIC_MARGIN);
    (first, if end < count {
        end
    } else {
        count
    })
}

/// The lines a file's semantic colours are asked for: all of them (`None`)
/// for a short file, the drawn ones `from..to` and a margin either side for
/// a long one.
pub fn semantic_lines(count: u32, from: u32, to: u32) -> (lines: Option<(u32, u32)>)
    ensures
        count <= SEMANTIC_WHOLE_LINES ==> lines is None,
        count > SEMANTIC_WHOLE_LINES ==> lines == Some(around(count, from, to)),
{
    if count > SEMANTIC_WHOLE_LINES {
        Some(around_exec(count, from, to))
    } else {
        None
    }
}

/// The lines a file's inlay hints are asked for: the whole file when it is
/// short, as its colours are.
pub fn hint_lines(count: u32, from: u32, to: u32) -> (lines: (u32, u32))
    ensures
        count <= SEMANTIC_WHOLE_LINES ==> lines == (0u32, count),
        count > SEMANTIC_WHOLE_LINES ==> lines == around(count, from, to),
{
    if count > SEMANTIC_WHOLE_LINES {
        around_exec(count, from, to)
    } else {
        (0, count)
    }
}

/// Whether the semantic colours on hand cover document lines `from..to` —
/// always, for a file short enough to be asked about whole.
pub fn semantic_covers(count: u32, lines: Option<(u32, u32)>, from: u32, to: u32) -> (b: bool)
    ensures
        b == (count <= SEMANTIC_WHOLE_LINES || (lines matches Some((first, end)) && first <= from
            && to <= end)),
{
    count <= SEMANTIC_WHOLE_LINES || match lines {
        Some((first, end)) => first <= from && to <= end,
        None => false,
    }
}

/// The lines a long file is asked about cover the lines drawn: an answer
/// to the ask covers what was on screen when it was made.
pub proof fn lemma_asked_lines_cover_the_drawn(count: u32, from: u32, to: u32)
    requires
        from <= to <= count,
    ensures
        count <= SEMANTIC_WHOLE_LINES || ({
            let (first, end) = around(count, from, to);
            first <= from && to <= end
        }),
{
}

/// The inlay hints on hand: for which file, and over which lines.
pub struct HintSet {
    pub path: String,
    pub first: u32,
    pub end: u32,
}

/// Whether the hints on hand cover document lines `from..to` of the file
/// on screen — any answer, for a file short enough to be asked about whole.
pub fn hints_cover(active: Option<&str>, count: u32, hints: Option<&HintSet>, from: u32, to: u32) -> (b: bool)
    ensures
        b == (hints matches Some(set) && active matches Some(p) && set.path@ == p@ && (count
            <= SEMANTIC_WHOLE_LINES || (set.first <= from && to <= set.end))),
{
    match (hints, active) {
        (Some(set), Some(p)) => same_text(set.path.as_str(), p) && (count <= SEMANTIC_WHOLE_LINES
            || (set.first <= from && to <= set.end)),
        _ => false,
    }
}

// ---------------------------------------------------------------------------
// Completion: which answer still counts
// ---------------------------------------------------------------------------

/// Where a completion was asked: the file, the line, and the column the
/// word being typed starts at.
pub struct Anchor {
    pub path: String,
    pub line: u32,
    pub word_start: u32,
}

/// Every ask is numbered; the anchor is the word it is about, while one is
/// in force.
pub struct CompletionAsk {
    pub count: u64,
    pub anchor: Option<Anchor>,
}

/// The ask in force, by number.
pub open spec fn latest_of(ask: CompletionAsk) -> Option<u64> {
    match ask.anchor {
        Some(_) => Some(ask.count),
        None => None,
    }
}

/// Ask what could complete the word that starts at `word_start` on `line`:
/// a new number, anchored to that word. Nothing while the server is not
/// ready.
pub fn request_completion(ask: &mut CompletionAsk, ready: bool, path: &str, line: u32, word_start: u32) -> (asked: Option<u64>)
    requires
        old(ask).count < u64::MAX,
    ensures
        !ready ==> asked is None && *final(ask) == *old(ask),
        ready ==> {
            &&& final(ask).count == old(ask).count + 1
            &&& asked == Some(final(ask).count)
            &&& final(ask).anchor matches Some(a) && a.path@ == path@ && a.line == line && a.word_start
                == word_start
        },
{
    if !ready {
        return None;
    }
    ask.count = ask.count + 1;
    ask.anchor = Some(Anchor { path: owned(path), line, word_start });
    Some(ask.count)
}

/// Close the popup and forget every answer on its way: the caret has left
/// the word, or the text moved under it.
pub fn dismiss_completion(ask: &mut CompletionAsk)
    requires
        old(ask).count < u64::MAX,
    ensures
        final(ask).count == old(ask).count + 1,
        final(ask).anchor is None,
{
    ask.count = ask.count + 1;
    ask.anchor = None;
}

/// The latest ask, while one is in force.
pub fn latest_ask(ask: &CompletionAsk) -> (latest: Option<u64>)
    ensures
        latest == latest_of(*ask),
{
    match ask.anchor {
        Some(_) => Some(ask.count),
        None => None,
    }
}

/// What becomes of an answer to a completion ask.
#[derive(Clone, Copy, PartialEq, Eq, Debug, Structural)]
pub enum Verdict {
    /// Dropped: its word is no longer the one being typed, its file is not
    /// the one on screen, or something newer is showing.
    Drop,
    /// Shown.
    Show,
    /// The popup closes: nothing completes the newest ask's word.
    Clear,
    /// Asked once more: it failed, and it is still the latest.
    Retry,
}

/// Whether an ask's anchor is the one in force.
pub open spec fn anchored(ask: CompletionAsk, path: Seq<char>, line: u32, word_start: u32) -> bool {
    ask.anchor matches Some(a) && a.path@ == path && a.line == line && a.word_start == word_start
}

/// What becomes of an answer to ask number `asked`, about the word at
/// `path`, `line`, `word_start`. `items` is how many completions came back,
/// `None` when the ask failed; `showing` is the number of the ask whose
/// answer is on screen; `retry` says whether this ask may still be made
/// once more.
pub open spec fn verdict_of(
    ask: CompletionAsk,
    path: Seq<char>,
    line: u32,
    word_start: u32,
    active: Option<Seq<char>>,
    asked: u64,
    items: Option<nat>,
    showing: Option<u64>,
    retry: bool,
) -> Verdict {
    if !anchored(ask, path, line, word_start) || active != Some(path) {
        Verdict::Drop
    } else {
        match items {
            Some(n) => if showing matches Some(s) && s > asked {
                Verdict::Drop
            } else if n == 0 {
                if latest_of(ask) == Some(asked) {
                    Verdict::Clear
                } else {
                    Verdict::Drop
                }
            } else {
                Verdict::Show
            },
            None => if retry && latest_of(ask) == Some(asked) {
                Verdict::Retry
            } else {
                Verdict::Drop
            },
        }
    }
}

/// What becomes of an answer to a completion ask: shown while its word is
/// still the word being typed and nothing newer is showing; an empty one
/// closes the popup only when it answers the newest ask; a failed one is
/// asked once more while it is the latest.
pub fn completion_verdict(
    ask: &CompletionAsk,
    path: &str,
    line: u32,
    word_start: u32,
    active: Option<&str>,
    asked: u64,
    items: Option<usize>,
    showing: Option<u64>,
    retry: bool,
) -> (v: Verdict)
    ensures
        v == verdict_of(
            *ask,
            path@,
            line,
            word_start,
            match active {
                Some(a) => Some(a@),
                None => None,
            },
            asked,
            match items {
                Some(n) => Some(n as nat),
                None => None,
            },
            showing,
            retry,
        ),
{
    let still = match &ask.anchor {
        Some(a) => same_text(a.path.as_str(), path) && a.line == line && a.word_start == word_start,
        None => false,
    };
    let here = match active {
        Some(a) => same_text(a, path),
        None => false,
    };
    if !still || !here {
        return Verdict::Drop;
    }
    let latest = latest_ask(ask);
    match items {
        Some(n) => {
            let newer = match showing {
                Some(s) => s > asked,
                None => false,
            };
            if newer {
                Verdict::Drop
            } else if n == 0 {
                if latest == Some(asked) {
                    Verdict::Clear
                } else {
                    Verdict::Drop
                }
            } else {
                Verdict::Show
            }
        },
        None => {
            if retry && latest == Some(asked) {
                Verdict::Retry
            } else {
                Verdict::Drop
            }
        },
    }
}

/// A dismissal drops every answer still on its way.
pub proof fn lemma_dismissed_answers_drop(
    ask: CompletionAsk,
    path: Seq<char>,
    line: u32,
    word_start: u32,
    active: Option<Seq<char>>,
    asked: u64,
    items: Option<nat>,
    showing: Option<u64>,
    retry: bool,
)
    requires
        ask.anchor is None,
    ensures
        verdict_of(ask, path, line, word_start, active, asked, items, showing, retry) == Verdict::Drop,
{
}

/// Only the newest ask may close the popup or be asked again: an answer to
/// an older one is shown or dropped.
pub proof fn lemma_only_the_latest_clears(
    ask: CompletionAsk,
    path: Seq<char>,
    line: u32,
    word_start: u32,
    active: Option<Seq<char>>,
    asked: u64,
    items: Option<nat>,
    showing: Option<u64>,
    retry: bool,
)
    requires
        asked != ask.count,
    ensures
        verdict_of(ask, path, line, word_start, active, asked, items, showing, retry) == Verdict::Drop
            || verdict_of(ask, path, line, word_start, active, asked, items, showing, retry)
            == Verdict::Show,
{
}

// ---------------------------------------------------------------------------
// What typing sets off
// ---------------------------------------------------------------------------

/// The counters that let only the last of a burst of keystrokes act.
pub struct EditPulse {
    /// The re-highlight and the sync with the server.
    pub generation: u64,
    /// The write, when auto-save is on.
    pub save_generation: u64,
    /// Whether marks of where the name under the caret occurs are showing.
    pub occurrences: bool,
}

/// What one edit schedules: the pulse with this number, and the write with
/// that number when auto-save is on and a file is open.
pub struct Scheduled {
    pub pulse: u64,
    pub save: Option<u64>,
}

/// One edit's schedule, as `schedule_pulse` makes it: the pulse numbered
/// one more, the write numbered one more when it is wanted (`save`), and
/// the marks of where a name occurs gone.
pub open spec fn schedule_step(a: EditPulse, b: EditPulse, save: bool) -> bool {
    &&& b.generation == a.generation + 1
    &&& b.save_generation == if save { a.save_generation + 1 } else { a.save_generation as int }
    &&& !b.occurrences
}

/// A burst of edits: each state one schedule after the one before, with
/// `saves[i]` whether step `i` wanted a write.
pub open spec fn is_burst(states: Seq<EditPulse>, saves: Seq<bool>) -> bool {
    &&& states.len() == saves.len() + 1
    &&& forall|i: int| 0 <= i < saves.len() ==> schedule_step(#[trigger] states[i], states[i + 1], saves[i])
}

/// How many steps of a burst wanted a write.
pub open spec fn saves_in(saves: Seq<bool>) -> nat
    decreases saves.len(),
{
    if saves.len() == 0 {
        0
    } else {
        saves_in(saves.drop_last()) + if saves.last() { 1nat } else { 0nat }
    }
}

proof fn lemma_burst_numbers(states: Seq<EditPulse>, saves: Seq<bool>)
    requires
        is_burst(states, saves),
    ensures
        states.last().generation == states[0].generation + saves.len(),
        states.last().save_generation == states[0].save_generation + saves_in(saves),
    decreases saves.len(),
{
    if saves.len() > 0 {
        let s2 = states.drop_last();
        let v2 = saves.drop_last();
        assert forall|i: int| 0 <= i < v2.len() implies schedule_step(#[trigger] s2[i], s2[i + 1], v2[i]) by {
            assert(schedule_step(states[i], states[i + 1], saves[i]));
        }
        lemma_burst_numbers(s2, v2);
        assert(schedule_step(states[saves.len() - 1], states[saves.len() as int], saves[saves.len() - 1]));
    }
}

proof fn lemma_burst_grows(states: Seq<EditPulse>, saves: Seq<bool>, i: int)
    requires
        is_burst(states, saves),
        0 <= i <= saves.len(),
    ensures
        states[i].generation == states[0].generation + i,
        states.last().generation >= states[i].generation + (saves.len() - i),
        states.last().save_generation >= states[i].save_generation,
    decreases saves.len() - i,
{
    if i < saves.len() {
        lemma_burst_grows(states, saves, i + 1);
        assert(schedule_step(states[i], states[i + 1], saves[i]));
    } else {
        lemma_burst_numbers(states, saves);
    }
    if i > 0 {
        lemma_burst_prefix(states, saves, i);
    }
}

proof fn lemma_burst_prefix(states: Seq<EditPulse>, saves: Seq<bool>, i: int)
    requires
        is_burst(states, saves),
        0 <= i <= saves.len(),
    ensures
        states[i].generation == states[0].generation + i,
    decreases i,
{
    if i > 0 {
        lemma_burst_prefix(states, saves, i - 1);
        assert(schedule_step(states[i - 1], states[i], saves[i - 1]));
    }
}

/// Of a burst of edits, only the last acts: every pulse scheduled before the
/// last is no longer due once the burst is over, and the last one is; the
/// pulses are numbered one by one. Writes the same way: a write scheduled
/// before the last wanted one is no longer due, so auto-save runs at most
/// once for the whole burst.
pub proof fn lemma_only_the_last_of_a_burst_acts(states: Seq<EditPulse>, saves: Seq<bool>)
    requires
        is_burst(states, saves),
        saves.len() > 0,
    ensures
        states.last().generation == states[0].generation + saves.len(),
        forall|i: int| 1 <= i < saves.len() ==> #[trigger] states[i].generation != states.last().generation,
        states.last().save_generation == states[0].save_generation + saves_in(saves),
        forall|i: int, j: int|
            0 <= i < j < saves.len() && #[trigger] saves[i] && #[trigger] saves[j]
                ==> states[i + 1].save_generation != states.last().save_generation,
{
    lemma_burst_numbers(states, saves);
    assert forall|i: int| 1 <= i < saves.len() implies #[trigger] states[i].generation != states.last().generation by {
        lemma_burst_prefix(states, saves, i);
    }
    assert forall|i: int, j: int|
        0 <= i < j < saves.len() && #[trigger] saves[i] && #[trigger] saves[j]
            implies states[i + 1].save_generation != states.last().save_generation by {
        lemma_save_mono(states, saves, i + 1, j);
        assert(schedule_step(states[j], states[j + 1], saves[j]));
        lemma_burst_grows(states, saves, j + 1);
    }
}

proof fn lemma_save_mono(states: Seq<EditPulse>, saves: Seq<bool>, a: int, b: int)
    requires
        is_burst(states, saves),
        0 <= a <= b <= saves.len(),
    ensures
        states[a].save_generation <= states[b].save_generation,
    decreases b - a,
{
    if a < b {
        lemma_save_mono(states, saves, a, b - 1);
        assert(schedule_step(states[b - 1], states[b], saves[b - 1]));
    }
}

/// An edit was made. The marks of where a name occurs go — they are about
/// the text before it — and the pulse is scheduled; so is the write, when
/// auto-save is on and a file is open. Each is numbered, so a later edit
/// supersedes it.
pub fn schedule_pulse(pulse: &mut EditPulse, auto_save: bool, file_open: bool) -> (s: Scheduled)
    requires
        old(pulse).generation < u64::MAX,
        old(pulse).save_generation < u64::MAX,
    ensures
        schedule_step(*old(pulse), *final(pulse), auto_save && file_open),
        !final(pulse).occurrences,
        final(pulse).generation == old(pulse).generation + 1,
        s.pulse == final(pulse).generation,
        (auto_save && file_open) ==> final(pulse).save_generation == old(pulse).save_generation + 1
            && s.save == Some(final(pulse).save_generation),
        !(auto_save && file_open) ==> final(pulse).save_generation == old(pulse).save_generation
            && s.save is None,
{
    pulse.occurrences = false;
    pulse.generation = pulse.generation + 1;
    let save = if auto_save && file_open {
        pulse.save_generation = pulse.save_generation + 1;
        Some(pulse.save_generation)
    } else {
        None
    };
    Scheduled { pulse: pulse.generation, save }
}

/// Whether the pulse numbered `generation` is still the last one asked for.
pub fn pulse_due(pulse: &EditPulse, generation: u64) -> (b: bool)
    ensures
        b == (pulse.generation == generation),
{
    pulse.generation == generation
}

/// Whether the write numbered `generation` is still the last one asked
/// for, and its file still the one on screen.
pub fn save_due(pulse: &EditPulse, generation: u64, scheduled_for: &str, active: Option<&str>) -> (b: bool)
    ensures
        b == (pulse.save_generation == generation && (active matches Some(a) && a@ == scheduled_for@)),
{
    pulse.save_generation == generation && match active {
        Some(a) => same_text(a, scheduled_for),
        None => false,
    }
}

/// The repaint in flight, one per group.
pub struct PaintSlot {
    pub serial: u64,
    pub path: String,
    /// Edits were made while it was out: ask again when it lands.
    pub again: bool,
}

/// Ask for the lines the edits since the last repaint changed — unless one
/// ask is already out, which is then marked to ask again when it lands.
/// The answer says whether this one goes out.
pub fn begin_repaint(slot: &mut Option<PaintSlot>, serial: u64, path: &str) -> (sent: bool)
    ensures
        sent == (*old(slot) is None),
        sent ==> (*final(slot) matches Some(p) && p.serial == serial && p.path@ == path@ && !p.again),
        !sent ==> (*final(slot) matches Some(p) && p.again && p.serial == old(slot)->0.serial
            && p.path == old(slot)->0.path),
{
    match slot {
        Some(ask) => {
            ask.again = true;
            false
        },
        None => {
            *slot = Some(PaintSlot { serial, path: owned(path), again: false });
            true
        },
    }
}

/// A repaint's answer landed: it counts only when it is the one in flight,
/// which it then no longer is.
pub fn land_repaint(slot: &mut Option<PaintSlot>, serial: u64) -> (landed: Option<PaintSlot>)
    ensures
        (*old(slot) matches Some(p) && p.serial == serial) ==> landed == *old(slot) && *final(slot) is None,
        !(*old(slot) matches Some(p) && p.serial == serial) ==> landed is None && *final(slot) == *old(slot),
{
    let ours = match slot {
        Some(ask) => ask.serial == serial,
        None => false,
    };
    if ours {
        slot.take()
    } else {
        None
    }
}

/// Whether a card's fixes are asked for: only where there is a problem —
/// that is where a fix exists, and the reason somebody hovers a red line.
pub fn ask_fixes(problem: Option<&FileDiagnostic>) -> (ask: bool)
    ensures
        ask == (problem is Some),
{
    problem.is_some()
}

/// The fixes asked for a card at `path`, `line`, `col` came: they grow onto
/// the card that is up only if it is still that card and they are not
/// none; otherwise nothing changes.
pub fn attach_fixes(card: &mut Option<HoverCard>, path: &str, line: u32, col: u32, fixes: Vec<String>)
    ensures
        (fixes@.len() > 0 && (*old(card) matches Some(c) && c.path@ == path@ && c.line == line && c.col == col))
            ==> (*final(card) matches Some(n) && n.fixes@ == fixes@ && {
            let o = old(card)->0;
            n.path == o.path && n.range == o.range && n.text == o.text && n.line == o.line && n.col == o.col
        }),
        !(fixes@.len() > 0 && (*old(card) matches Some(c) && c.path@ == path@ && c.line == line && c.col == col))
            ==> *final(card) == *old(card),
{
    if fixes.len() == 0 {
        return;
    }
    let same = match card {
        Some(c) => same_text(c.path.as_str(), path) && c.line == line && c.col == col,
        None => false,
    };
    if same {
        match card {
            Some(c) => {
                c.fixes = fixes;
            },
            None => {},
        }
    }
}

/// What the quick fixes asked for at the caret (Ctrl+.) come to.
#[derive(Clone, Copy, PartialEq, Eq, Debug, Structural)]
pub enum FixesLanded {
    /// Another file is on screen now: dropped.
    Dropped,
    /// None offered: the dock says so.
    NoFixes,
    /// Shown.
    Show,
}

/// The quick fixes asked for at `path` landed, `count` of them.
pub fn actions_landed(active: Option<&str>, path: &str, count: usize) -> (r: FixesLanded)
    ensures
        r == (if !(active matches Some(a) && a@ == path@) {
            FixesLanded::Dropped
        } else if count == 0 {
            FixesLanded::NoFixes
        } else {
            FixesLanded::Show
        }),
{
    let here = match active {
        Some(a) => same_text(a, path),
        None => false,
    };
    if !here {
        FixesLanded::Dropped
    } else if count == 0 {
        FixesLanded::NoFixes
    } else {
        FixesLanded::Show
    }
}

/// What a repaint that landed comes to.
#[derive(Clone, Copy, PartialEq, Eq, Debug, Structural)]
pub enum Repainted {
    /// The lines went on screen where those lines now are; ask again when
    /// edits were made while it was out.
    Placed { again: bool },
    /// The lines were not the text line for line, which no edit should
    /// allow: start again from plain text, all of it stale, and ask for
    /// the whole file.
    Reset,
    /// Failed, or its file was parked or closed while it was out: the
    /// painting on screen stays; ask again when edits were made meanwhile.
    Dropped { again: bool },
}

/// The repaint `ask` landed: whether the answer came (`answered`), the
/// file on screen now, and — when the answer was for that file — whether
/// its lines fitted the text (`placed`).
pub fn repaint_landed(ask: &PaintSlot, answered: bool, active: Option<&str>, placed: bool) -> (r: Repainted)
    ensures
        r == (if answered && (active matches Some(a) && a@ == ask.path@) {
            if placed { Repainted::Placed { again: ask.again } } else { Repainted::Reset }
        } else {
            Repainted::Dropped { again: ask.again }
        }),
{
    let here = match active {
        Some(a) => same_text(a, ask.path.as_str()),
        None => false,
    };
    if answered && here {
        if placed {
            Repainted::Placed { again: ask.again }
        } else {
            Repainted::Reset
        }
    } else {
        Repainted::Dropped { again: ask.again }
    }
}

// ---------------------------------------------------------------------------
// Problems under the pointer
// ---------------------------------------------------------------------------

/// How bad a diagnostic is.
#[derive(Clone, Copy, PartialEq, Eq, Debug, Structural)]
pub enum DiagSeverity {
    Error,
    Warning,
    Information,
    Hint,
}

/// One diagnostic in one file: a half-open span from its start to its end.
pub struct FileDiagnostic {
    pub severity: DiagSeverity,
    pub message: String,
    pub source: Option<String>,
    pub code: Option<String>,
    pub start_line: u32,
    pub start_col: u32,
    pub end_line: u32,
    pub end_col: u32,
}

/// Whether `(line, col)` is at or after `(l, c)`, line first.
pub open spec fn at_or_after(line: u32, col: u32, l: u32, c: u32) -> bool {
    line > l || (line == l && col >= c)
}

/// Whether a diagnostic's span covers a position. Half-open: the end column
/// is where the squiggle stops.
pub open spec fn covers(d: FileDiagnostic, line: u32, col: u32) -> bool {
    at_or_after(line, col, d.start_line, d.start_col) && !at_or_after(line, col, d.end_line, d.end_col)
}

/// Whether a diagnostic counts in a search: it covers the position, and is
/// an error when only errors are wanted.
pub open spec fn counts(d: FileDiagnostic, line: u32, col: u32, errors_only: bool) -> bool {
    covers(d, line, col) && (!errors_only || d.severity == DiagSeverity::Error)
}

/// The first diagnostic in `k..hi` that counts.
pub open spec fn first_counting(ds: Seq<FileDiagnostic>, line: u32, col: u32, errors_only: bool, k: int, hi: int) -> Option<int>
    decreases hi - k,
{
    if k < 0 || k >= hi || k >= ds.len() {
        None
    } else if counts(ds[k], line, col, errors_only) {
        Some(k)
    } else {
        first_counting(ds, line, col, errors_only, k + 1, hi)
    }
}

/// The diagnostic under a position among the first `hi`, worst first: the
/// first error covering it, or else the first diagnostic covering it.
pub open spec fn worst_in(ds: Seq<FileDiagnostic>, line: u32, col: u32, hi: int) -> Option<int> {
    match first_counting(ds, line, col, true, 0, hi) {
        Some(i) => Some(i),
        None => first_counting(ds, line, col, false, 0, hi),
    }
}

proof fn lemma_first_counting_grow(ds: Seq<FileDiagnostic>, line: u32, col: u32, errors_only: bool, k: int, hi: int)
    requires
        0 <= k <= hi < ds.len(),
    ensures
        first_counting(ds, line, col, errors_only, k, hi + 1) == match first_counting(
            ds,
            line,
            col,
            errors_only,
            k,
            hi,
        ) {
            Some(j) => Some(j),
            None => if counts(ds[hi], line, col, errors_only) {
                Some(hi)
            } else {
                None
            },
        },
    decreases hi - k,
{
    reveal_with_fuel(first_counting, 2);
    if k < hi && !counts(ds[k], line, col, errors_only) {
        lemma_first_counting_grow(ds, line, col, errors_only, k + 1, hi);
    }
}

proof fn lemma_first_counting_found(ds: Seq<FileDiagnostic>, line: u32, col: u32, errors_only: bool, k: int, hi: int)
    requires
        0 <= k,
    ensures
        first_counting(ds, line, col, errors_only, k, hi) matches Some(j) ==> k <= j < hi && j
            < ds.len() && counts(ds[j], line, col, errors_only),
        first_counting(ds, line, col, errors_only, k, hi) is None ==> forall|j: int|
            k <= j < hi && j < ds.len() ==> !counts(#[trigger] ds[j], line, col, errors_only),
    decreases hi - k,
{
    if k < hi && k < ds.len() && !counts(ds[k], line, col, errors_only) {
        lemma_first_counting_found(ds, line, col, errors_only, k + 1, hi);
    }
}

fn covers_exec(d: &FileDiagnostic, line: u32, col: u32) -> (b: bool)
    ensures
        b == covers(*d, line, col),
{
    let after_start = line > d.start_line || (line == d.start_line && col >= d.start_col);
    let before_end = line < d.end_line || (line == d.end_line && col < d.end_col);
    after_start && before_end
}

/// The diagnostic under a position, worst first. Errors outrank warnings at
/// the same spot: two squiggles overlap often, and the one that stops the
/// build is the one being asked about.
pub fn worst_at(diagnostics: &[FileDiagnostic], line: u32, col: u32) -> (found: Option<&FileDiagnostic>)
    ensures
        match worst_in(diagnostics@, line, col, diagnostics@.len() as int) {
            Some(i) => found == Some(&diagnostics@[i]),
            None => found is None,
        },
{
    let ghost ds = diagnostics@;
    let mut found: Option<usize> = None;
    let mut i: usize = 0;
    while i < diagnostics.len()
        invariant
            ds == diagnostics@,
            i <= diagnostics.len(),
            match found {
                Some(b) => worst_in(ds, line, col, i as int) == Some(b as int) && b < i,
                None => worst_in(ds, line, col, i as int) is None,
            },
        decreases diagnostics.len() - i,
    {
        proof {
            lemma_first_counting_grow(ds, line, col, true, 0, i as int);
            lemma_first_counting_grow(ds, line, col, false, 0, i as int);
            lemma_first_counting_found(ds, line, col, true, 0, i as int);
            lemma_first_counting_found(ds, line, col, false, 0, i as int);
        }
        let d = &diagnostics[i];
        if covers_exec(d, line, col) {
            let better = match found {
                None => true,
                Some(b) => d.severity == DiagSeverity::Error && diagnostics[b].severity
                    != DiagSeverity::Error,
            };
            if better {
                found = Some(i);
            }
        }
        i = i + 1;
    }
    match found {
        Some(b) => Some(&diagnostics[b]),
        None => None,
    }
}

/// A span of text: from a start to an end, half-open.
#[derive(Clone, Copy, PartialEq, Eq, Debug, Structural)]
pub struct EditRange {
    pub start_line: u32,
    pub start_col: u32,
    pub end_line: u32,
    pub end_col: u32,
}

/// What a hover card says and over which span.
pub struct HoverCard {
    pub path: String,
    pub range: EditRange,
    pub text: String,
    pub line: u32,
    pub col: u32,
    /// What the server offers to do about the problem, by title: asked for
    /// after the card is up, and grown onto it when they come.
    pub fixes: Vec<String>,
}

/// The word a card's heading gives a severity.
pub open spec fn severity_label(s: DiagSeverity) -> Seq<char> {
    match s {
        DiagSeverity::Error => "error"@,
        DiagSeverity::Warning => "warning"@,
        _ => "note"@,
    }
}

/// A card's text: the problem first — its severity and code in bold, then
/// its message — a rule, and then what the server says about the name.
pub open spec fn hover_text_of(problem: Option<FileDiagnostic>, info: Option<Seq<char>>) -> Seq<char> {
    let head = match problem {
        Some(p) => {
            let title = match p.code {
                Some(c) => "**"@ + severity_label(p.severity) + "["@ + c@ + "]**\n\n"@,
                None => "**"@ + severity_label(p.severity) + "**\n\n"@,
            };
            title + p.message@ + if info is Some {
                "\n\n---\n\n"@
            } else {
                Seq::empty()
            }
        },
        None => Seq::empty(),
    };
    head + match info {
        Some(t) => t,
        None => Seq::empty(),
    }
}

/// The span a card is measured against: the problem's own, else the one
/// the server gave, else just the cell under the pointer.
pub open spec fn hover_range_of(problem: Option<FileDiagnostic>, info_range: Option<EditRange>, line: u32, col: u32) -> EditRange {
    match (problem, info_range) {
        (Some(p), _) => EditRange {
            start_line: p.start_line,
            start_col: p.start_col,
            end_line: p.end_line,
            end_col: p.end_col,
        },
        (None, Some(r)) => r,
        (None, None) => EditRange {
            start_line: line,
            start_col: col,
            end_line: line,
            end_col: (col + 1) as u32,
        },
    }
}

fn append(s: String, t: &str) -> (out: String)
    ensures
        out@ == s@ + t@,
{
    concat(s.as_str(), t)
}

/// The hover card for a position: the problem there, if any, above what the
/// server says about the name. No card when neither has anything to say,
/// or when the answer lands after the file on screen (`active`) changed.
pub fn hover_card(
    path: &str,
    line: u32,
    col: u32,
    active: Option<&str>,
    problem: Option<&FileDiagnostic>,
    info: Option<&str>,
    info_range: Option<EditRange>,
) -> (card: Option<HoverCard>)
    requires
        problem is None && info_range is None ==> col < u32::MAX,
    ensures
        (problem is None && info is None) ==> card is None,
        !(active matches Some(a) && a@ == path@) ==> card is None,
        card matches Some(c) ==> c.fixes@.len() == 0,
        !(problem is None && info is None) && (active matches Some(a) && a@ == path@) ==> (card matches Some(c) && c.path@ == path@ && c.line
            == line && c.col == col && c.text@ == hover_text_of(
            match problem {
                Some(p) => Some(*p),
                None => None,
            },
            match info {
                Some(t) => Some(t@),
                None => None,
            },
        ) && c.range == hover_range_of(
            match problem {
                Some(p) => Some(*p),
                None => None,
            },
            info_range,
            line,
            col,
        )),
{
    if problem.is_none() && info.is_none() {
        return None;
    }
    let here = match active {
        Some(a) => same_text(a, path),
        None => false,
    };
    if !here {
        return None;
    }
    let mut text = String::new();
    match problem {
        Some(p) => {
            let label = match p.severity {
                DiagSeverity::Error => "error",
                DiagSeverity::Warning => "warning",
                _ => "note",
            };
            text = append(text, "**");
            text = append(text, label);
            match &p.code {
                Some(c) => {
                    text = append(text, "[");
                    text = append(text, c.as_str());
                    text = append(text, "]**\n\n");
                },
                None => {
                    text = append(text, "**\n\n");
                },
            }
            text = append(text, p.message.as_str());
            if info.is_some() {
                text = append(text, "\n\n---\n\n");
            }
        },
        None => {},
    }
    match info {
        Some(t) => {
            text = append(text, t);
        },
        None => {},
    }
    proof {
        let pv = match problem {
            Some(p) => Some(*p),
            None => None,
        };
        let iv = match info {
            Some(t) => Some(t@),
            None => None,
        };
        assert(text@ =~= hover_text_of(pv, iv));
    }
    let range = match (problem, info_range) {
        (Some(p), _) => EditRange {
            start_line: p.start_line,
            start_col: p.start_col,
            end_line: p.end_line,
            end_col: p.end_col,
        },
        (None, Some(r)) => r,
        (None, None) => EditRange { start_line: line, start_col: col, end_line: line, end_col: col + 1 },
    };
    Some(HoverCard { path: owned(path), range, text, line, col, fixes: Vec::new() })
}

// ---------------------------------------------------------------------------
// What the server says
// ---------------------------------------------------------------------------

/// Where the server stands.
#[derive(Clone, Copy, PartialEq, Eq, Debug, Structural)]
pub enum LspStatus {
    Off,
    Starting,
    Ready,
    Missing,
}

/// How well the server says it is doing.
#[derive(Clone, Copy, PartialEq, Eq, Debug, Structural)]
pub enum HealthLevel {
    Healthy,
    Warning,
    Error,
}

/// A verdict of the server on itself, short of fine.
pub struct Health {
    pub level: HealthLevel,
    pub message: Option<String>,
}

/// The problems in one file.
pub struct FileProblems {
    pub path: String,
    pub items: Vec<FileDiagnostic>,
}

/// What is known of the running server.
pub struct LspState {
    pub status: LspStatus,
    pub health: Option<Health>,
    pub progress: Option<String>,
    pub diagnostics: Vec<FileProblems>,
}

/// A notification from the server.
#[allow(inconsistent_fields)]
pub enum LspEvent {
    Ready,
    Unavailable { message: String, install: Option<String> },
    Diagnostics { path: String, items: Vec<FileDiagnostic> },
    Progress { text: Option<String> },
    Health { level: HealthLevel, message: Option<String> },
    Refresh,
    Exited,
}

/// What a notification sets off beyond the state.
pub enum Follow {
    /// Tell the server about every file open in a group, and ask for its
    /// colours and hints.
    AnnounceOpenFiles,
    /// A warning in the dock.
    Warn(String),
    /// A plain line in the dock.
    Say(String),
    /// Ask again for every open file's colours and hints once the refreshes
    /// stop for a moment.
    RefreshSoon,
}

/// A follow-up as the contracts speak of it.
pub enum FollowView {
    AnnounceOpenFiles,
    Warn(Seq<char>),
    Say(Seq<char>),
    RefreshSoon,
}

/// The follow-ups, as the contracts speak of them.
pub open spec fn follows_view(f: Seq<Follow>) -> Seq<FollowView> {
    f.map_values(|x: Follow| match x {
        Follow::AnnounceOpenFiles => FollowView::AnnounceOpenFiles,
        Follow::Warn(t) => FollowView::Warn(t@),
        Follow::Say(t) => FollowView::Say(t@),
        Follow::RefreshSoon => FollowView::RefreshSoon,
    })
}

/// A health verdict as the contracts speak of it.
pub open spec fn health_view(h: Option<Health>) -> Option<(HealthLevel, Option<Seq<char>>)> {
    match h {
        Some(h) => Some((h.level, text_of(h.message))),
        None => None,
    }
}

/// The first entry at or after `k` for `path`.
pub open spec fn problems_from(v: Seq<FileProblems>, path: Seq<char>, k: int) -> Option<int>
    decreases v.len() - k,
{
    if k < 0 || k >= v.len() {
        None
    } else if v[k].path@ == path {
        Some(k)
    } else {
        problems_from(v, path, k + 1)
    }
}

/// The problems known in a file; `None` when it has none.
pub open spec fn problems_for(v: Seq<FileProblems>, path: Seq<char>) -> Option<Seq<FileDiagnostic>> {
    match problems_from(v, path, 0) {
        Some(i) => Some(v[i].items@),
        None => None,
    }
}

/// Each file appears once, and never with an empty list.
pub open spec fn problems_wf(v: Seq<FileProblems>) -> bool {
    &&& forall|a: int, b: int| 0 <= a < b < v.len() ==> #[trigger] v[a].path@ != #[trigger] v[b].path@
    &&& forall|a: int| 0 <= a < v.len() ==> #[trigger] v[a].items@.len() > 0
}

proof fn lemma_problems_from(v: Seq<FileProblems>, path: Seq<char>, k: int)
    requires
        0 <= k,
    ensures
        problems_from(v, path, k) matches Some(i) ==> k <= i < v.len() && v[i].path@ == path && forall|
            m: int,
        | k <= m < i ==> #[trigger] v[m].path@ != path,
        problems_from(v, path, k) is None ==> forall|m: int| k <= m < v.len() ==> #[trigger] v[m].path@ != path,
    decreases v.len() - k,
{
    if k < v.len() && v[k].path@ != path {
        lemma_problems_from(v, path, k + 1);
    }
}

/// The first index holding `path`, from a description of it.
proof fn lemma_problems_from_is(v: Seq<FileProblems>, path: Seq<char>, i: Option<int>)
    requires
        i matches Some(j) ==> 0 <= j < v.len() && v[j].path@ == path && forall|m: int|
            0 <= m < j ==> #[trigger] v[m].path@ != path,
        i is None ==> forall|m: int| 0 <= m < v.len() ==> #[trigger] v[m].path@ != path,
    ensures
        problems_from(v, path, 0) == i,
{
    lemma_problems_from(v, path, 0);
    match problems_from(v, path, 0) {
        Some(j) => {
            if let Some(k) = i {
                if k < j {
                    assert(v[k].path@ != path);
                }
                if j < k {
                    assert(v[j].path@ != path);
                }
            }
        },
        None => {
            if let Some(k) = i {
                assert(v[k].path@ != path);
            }
        },
    }
}

fn find_problems(v: &Vec<FileProblems>, path: &str) -> (r: Option<usize>)
    ensures
        match r {
            Some(i) => problems_from(v@, path@, 0) == Some(i as int) && i < v.len(),
            None => problems_from(v@, path@, 0) is None,
        },
{
    proof {
        lemma_problems_from(v@, path@, 0);
    }
    let mut i: usize = 0;
    while i < v.len()
        invariant
            i <= v.len(),
            problems_from(v@, path@, 0) == problems_from(v@, path@, i as int),
        decreases v.len() - i,
    {
        if same_text(v[i].path.as_str(), path) {
            return Some(i);
        }
        i = i + 1;
    }
    None
}

/// Record what the server says about one file: its list replaces the one
/// known, and an empty list means the file has no problems.
#[verifier::spinoff_prover]
pub fn set_problems(v: &mut Vec<FileProblems>, path: String, items: Vec<FileDiagnostic>)
    requires
        problems_wf(old(v)@),
    ensures
        problems_wf(final(v)@),
        problems_for(final(v)@, path@) == (if items@.len() == 0 {
            None
        } else {
            Some(items@)
        }),
        forall|p: Seq<char>| p != path@ ==> #[trigger] problems_for(final(v)@, p) == problems_for(old(v)@, p),
{
    let ghost before = v@;
    let ghost key = path@;
    let ghost list = items@;
    proof {
        lemma_problems_from(before, key, 0);
    }
    match find_problems(v, path.as_str()) {
        Some(i) => {
            if items.len() == 0 {
                v.remove(i);
                proof {
                    assert forall|p: Seq<char>| p != key implies #[trigger] problems_for(v@, p) == problems_for(before, p) by {
                        lemma_problems_from(before, p, 0);
                        match problems_from(before, p, 0) {
                            Some(j) => {
                                let jj = if j < i { j } else { j - 1 };
                                assert(v@[jj].path@ == p);
                                lemma_problems_from_is(v@, p, Some(jj));
                            },
                            None => {
                                lemma_problems_from_is(v@, p, None);
                            },
                        }
                    }
                    assert forall|m: int| 0 <= m < v@.len() implies #[trigger] v@[m].path@ != key by {
                        if m < i {
                            assert(v@[m] == before[m]);
                        } else {
                            assert(v@[m] == before[m + 1]);
                        }
                    }
                    lemma_problems_from_is(v@, key, None);
                }
            } else {
                v.set(i, FileProblems { path, items });
                proof {
                    assert forall|p: Seq<char>| p != key implies #[trigger] problems_for(v@, p) == problems_for(before, p) by {
                        lemma_problems_from(before, p, 0);
                        match problems_from(before, p, 0) {
                            Some(j) => {
                                lemma_problems_from_is(v@, p, Some(j));
                            },
                            None => {
                                lemma_problems_from_is(v@, p, None);
                            },
                        }
                    }
                    lemma_problems_from_is(v@, key, Some(i as int));
                }
            }
        },
        None => {
            if items.len() > 0 {
                v.push(FileProblems { path, items });
                proof {
                    assert forall|p: Seq<char>| p != key implies #[trigger] problems_for(v@, p) == problems_for(before, p) by {
                        lemma_problems_from(before, p, 0);
                        match problems_from(before, p, 0) {
                            Some(j) => {
                                lemma_problems_from_is(v@, p, Some(j));
                            },
                            None => {
                                lemma_problems_from_is(v@, p, None);
                            },
                        }
                    }
                    lemma_problems_from_is(v@, key, Some(before.len() as int));
                }
            }
        },
    }
}

/// What the server said, absorbed: the status it reports, its problems per
/// file, its progress and its health; and what that sets off. Health is
/// said in the dock once, when it changes — the server repeats itself on
/// every change.
pub fn apply_lsp_event(state: &mut LspState, event: LspEvent) -> (follow: Vec<Follow>)
    requires
        problems_wf(old(state).diagnostics@),
    ensures
        problems_wf(final(state).diagnostics@),
        match event {
            LspEvent::Ready => {
                &&& final(state).status == LspStatus::Ready
                &&& final(state).health is None
                &&& final(state).progress == old(state).progress
                &&& final(state).diagnostics == old(state).diagnostics
                &&& follows_view(follow@) == seq![FollowView::AnnounceOpenFiles]
            },
            LspEvent::Unavailable { message, install } => {
                &&& final(state).status == LspStatus::Missing
                &&& final(state).health == old(state).health
                &&& final(state).progress == old(state).progress
                &&& final(state).diagnostics == old(state).diagnostics
                &&& follows_view(follow@) == seq![FollowView::Warn(message@)] + match install {
                    Some(i) => seq![FollowView::Say("$ "@ + i@)],
                    None => Seq::empty(),
                }
            },
            LspEvent::Diagnostics { path, items } => {
                &&& final(state).status == old(state).status
                &&& final(state).health == old(state).health
                &&& final(state).progress == old(state).progress
                &&& problems_for(final(state).diagnostics@, path@) == (if items@.len() == 0 {
                    None
                } else {
                    Some(items@)
                })
                &&& forall|p: Seq<char>|
                    p != path@ ==> #[trigger] problems_for(final(state).diagnostics@, p)
                        == problems_for(old(state).diagnostics@, p)
                &&& follow@.len() == 0
            },
            LspEvent::Progress { text } => {
                &&& final(state).status == old(state).status
                &&& final(state).health == old(state).health
                &&& final(state).progress == text
                &&& final(state).diagnostics == old(state).diagnostics
                &&& follow@.len() == 0
            },
            LspEvent::Health { level, message } => {
                let next = if level != HealthLevel::Healthy {
                    Some((level, text_of(message)))
                } else {
                    None
                };
                &&& final(state).status == old(state).status
                &&& final(state).progress == old(state).progress
                &&& final(state).diagnostics == old(state).diagnostics
                &&& health_view(final(state).health) == next
                &&& follows_view(follow@) == match next {
                    Some((_, Some(t))) if health_view(old(state).health) != next => seq![
                        FollowView::Warn("rust-analyzer: "@ + t),
                    ],
                    _ => Seq::empty(),
                }
            },
            LspEvent::Refresh => {
                &&& final(state).status == old(state).status
                &&& final(state).health == old(state).health
                &&& final(state).progress == old(state).progress
                &&& final(state).diagnostics == old(state).diagnostics
                &&& follows_view(follow@) == seq![FollowView::RefreshSoon]
            },
            LspEvent::Exited => {
                &&& final(state).status == (if old(state).status == LspStatus::Ready {
                    LspStatus::Off
                } else {
                    old(state).status
                })
                &&& final(state).health is None
                &&& final(state).progress is None
                &&& final(state).diagnostics == old(state).diagnostics
                &&& follow@.len() == 0
            },
        },
{
    let mut follow: Vec<Follow> = Vec::new();
    match event {
        LspEvent::Ready => {
            state.status = LspStatus::Ready;
            state.health = None;
            follow.push(Follow::AnnounceOpenFiles);
            assert(follows_view(follow@) =~= seq![FollowView::AnnounceOpenFiles]);
        },
        LspEvent::Unavailable { message, install } => {
            state.status = LspStatus::Missing;
            let ghost said = message@;
            follow.push(Follow::Warn(message));
            match install {
                Some(i) => {
                    let line = concat("$ ", i.as_str());
                    follow.push(Follow::Say(line));
                    assert(follows_view(follow@) =~= seq![FollowView::Warn(said)] + seq![
                        FollowView::Say("$ "@ + i@),
                    ]);
                },
                None => {
                    assert(follows_view(follow@) =~= seq![FollowView::Warn(said)] + Seq::empty());
                },
            }
        },
        LspEvent::Diagnostics { path, items } => {
            set_problems(&mut state.diagnostics, path, items);
        },
        LspEvent::Progress { text } => {
            state.progress = text;
        },
        LspEvent::Health { level, message } => {
            let ghost msg = text_of(message);
            let changed = match &state.health {
                None => level != HealthLevel::Healthy,
                Some(h) => {
                    if level == HealthLevel::Healthy {
                        true
                    } else if h.level != level {
                        true
                    } else {
                        match (&h.message, &message) {
                            (Some(a), Some(b)) => !same_text(a.as_str(), b.as_str()),
                            (None, None) => false,
                            _ => true,
                        }
                    }
                },
            };
            if changed {
                if level != HealthLevel::Healthy {
                    match &message {
                        Some(t) => {
                            let line = concat("rust-analyzer: ", t.as_str());
                            follow.push(Follow::Warn(line));
                            assert(follows_view(follow@) =~= seq![
                                FollowView::Warn("rust-analyzer: "@ + t@),
                            ]);
                        },
                        None => {},
                    }
                    state.health = Some(Health { level, message });
                } else {
                    state.health = None;
                }
            }
            proof {
                if !changed {
                    assert(follows_view(follow@) =~= Seq::empty());
                }
                if changed && level != HealthLevel::Healthy && msg is None {
                    assert(follows_view(follow@) =~= Seq::empty());
                }
                if changed && level == HealthLevel::Healthy {
                    assert(follows_view(follow@) =~= Seq::empty());
                }
            }
        },
        LspEvent::Refresh => {
            follow.push(Follow::RefreshSoon);
            assert(follows_view(follow@) =~= seq![FollowView::RefreshSoon]);
        },
        LspEvent::Exited => {
            state.progress = None;
            state.health = None;
            if state.status == LspStatus::Ready {
                state.status = LspStatus::Off;
            }
        },
    }
    follow
}

/// A card's heading names its problem's own severity: a warning's card
/// begins `**warning`, an error's `**error`, anything else's `**note` —
/// three different words.
pub proof fn lemma_card_names_the_severity(p: FileDiagnostic, info: Option<Seq<char>>)
    ensures
        p.severity == DiagSeverity::Warning ==> "**warning"@.is_prefix_of(hover_text_of(Some(p), info)),
        p.severity == DiagSeverity::Error ==> "**error"@.is_prefix_of(hover_text_of(Some(p), info)),
        !(p.severity == DiagSeverity::Warning || p.severity == DiagSeverity::Error) ==> "**note"@.is_prefix_of(
            hover_text_of(Some(p), info),
        ),
        severity_label(DiagSeverity::Warning) != severity_label(DiagSeverity::Error),
        !"**error"@.is_prefix_of(hover_text_of(Some(p), info)) || !"**warning"@.is_prefix_of(hover_text_of(Some(p), info)),
{
    reveal_strlit("**");
    reveal_strlit("warning");
    reveal_strlit("error");
    reveal_strlit("note");
    reveal_strlit("**warning");
    reveal_strlit("**error");
    reveal_strlit("**note");
    let t = hover_text_of(Some(p), info);
    let label = severity_label(p.severity);
    let title = match p.code {
        Some(c) => "**"@ + label + "["@ + c@ + "]**\n\n"@,
        None => "**"@ + label + "**\n\n"@,
    };
    let head = title + p.message@ + if info is Some { "\n\n---\n\n"@ } else { Seq::empty() };
    let tail = match info { Some(x) => x, None => Seq::<char>::empty() };
    assert(t == head + tail);
    assert(t.subrange(0, (2 + label.len()) as int) =~= "**"@ + label) by {
        assert forall|i: int| 0 <= i < 2 + label.len() implies t[i] == ("**"@ + label)[i] by {
            assert(t[i] == head[i]);
            assert(head[i] == title[i]);
        }
    }
    if p.severity == DiagSeverity::Warning {
        assert("**warning"@ =~= "**"@ + label);
    } else if p.severity == DiagSeverity::Error {
        assert("**error"@ =~= "**"@ + label);
    } else {
        assert("**note"@ =~= "**"@ + label);
    }
    assert("warning"@.len() == 7 && "error"@.len() == 5);
    assert(severity_label(DiagSeverity::Warning).len() != severity_label(DiagSeverity::Error).len());
    if "**error"@.is_prefix_of(t) && "**warning"@.is_prefix_of(t) {
        assert(t[2] == 'e');
        assert(t[2] == 'w');
    }
}

} // verus!
