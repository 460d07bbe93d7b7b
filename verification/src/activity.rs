//! What the workbench is doing right now, and how the last thing it did
//! went — the first item in the status bar.
//!
//! While something runs it says what, and how far it has got
//! (`Building · esp-hal · 12 s`); when it stops it says how that went
//! (`Build succeeded · 12.4 s · 85.3 KB flash`) and keeps saying it until
//! the next run replaces it. Every line a session prints goes to
//! [`Activity::observe`] and the exit code to [`Activity::finish`].
//!
//! Times are whole milliseconds since the epoch, as the host's clock gives
//! them.

use vstd::prelude::*;

use crate::text::{
    lemma_trim_start_prefix, after_last, after_last_of, chars_of, find, find_in, first_word, first_word_of,
    parse_u32, parse_u32_of, same, slice_of, starts_with, string_of, trim, trim_start,
    trimmed, trimmed_start, text_of,
};

verus! {

/// What kind of work a session is — decided by the output channel it
/// streams under, which every runner already names.
#[derive(Clone, Copy, PartialEq, Eq, Debug, Structural)]
pub enum Kind {
    Build,
    Test,
    Flash,
    Monitor,
    Simulate,
    /// A simulation booted frozen for the debugger.
    Debug,
    Install,
    /// The serial link the Plot panel's tunables ride on.
    Link,
    /// Anything else run through the dock — a git write, a typed command.
    Command,
}

/// The kind a channel name stands for.
pub open spec fn kind_of_channel(channel: Seq<char>) -> Kind {
    if channel == "build"@ {
        Kind::Build
    } else if channel == "test"@ {
        Kind::Test
    } else if channel == "flash"@ {
        Kind::Flash
    } else if channel == "monitor"@ {
        Kind::Monitor
    } else if channel == "simulate"@ {
        Kind::Simulate
    } else if channel == "tools"@ {
        Kind::Install
    } else if channel == "link"@ {
        Kind::Link
    } else {
        Kind::Command
    }
}

pub open spec fn is_open_ended(kind: Kind) -> bool {
    kind == Kind::Monitor || kind == Kind::Simulate || kind == Kind::Debug || kind == Kind::Link
}

/// Whether `v` holds exactly the characters of `lit`.
fn is_lit(v: &Vec<char>, lit: &str) -> (r: bool)
    ensures
        r == (v@ == lit@),
{
    let l = chars_of(lit);
    same(v, &l)
}

impl Kind {
    pub fn of_channel(channel: &str) -> (k: Kind)
        ensures
            k == kind_of_channel(channel@),
    {
        let c = chars_of(channel);
        if is_lit(&c, "build") {
            Kind::Build
        } else if is_lit(&c, "test") {
            Kind::Test
        } else if is_lit(&c, "flash") {
            Kind::Flash
        } else if is_lit(&c, "monitor") {
            Kind::Monitor
        } else if is_lit(&c, "simulate") {
            Kind::Simulate
        } else if is_lit(&c, "tools") {
            Kind::Install
        } else if is_lit(&c, "link") {
            Kind::Link
        } else {
            Kind::Command
        }
    }

    /// Runs until somebody stops it rather than until it is done. Its end is
    /// not a verdict — a monitor that was closed did not fail — so only a
    /// non-zero exit it reached by itself is worth reporting.
    pub fn open_ended(self) -> (b: bool)
        ensures
            b == is_open_ended(self),
    {
        match self {
            Kind::Monitor | Kind::Simulate | Kind::Debug | Kind::Link => true,
            _ => false,
        }
    }
}

// ---------------------------------------------------------------------------
// Reading cargo's lines
// ---------------------------------------------------------------------------

/// Whether a line could matter to [`Activity::observe`] at all.
pub open spec fn is_relevant(line: Seq<char>) -> bool {
    let t = trim_start(line);
    ||| "Compiling "@.is_prefix_of(t)
    ||| "Finished "@.is_prefix_of(t)
    ||| "warning: "@.is_prefix_of(t)
    ||| "error: could not compile"@.is_prefix_of(t)
    ||| "test result: "@.is_prefix_of(t)
    ||| "Flashing has completed"@.is_prefix_of(t)
}

/// The crate a cargo line says it is compiling.
pub open spec fn compiling_of(line: Seq<char>) -> Option<Seq<char>> {
    let t = trim_start(line);
    if "Compiling "@.is_prefix_of(t) {
        first_word(t.skip("Compiling "@.len() as int))
    } else {
        None
    }
}

/// The number written just before `word`: `due to 2 previous errors` is 2.
pub open spec fn number_before(text: Seq<char>, word: Seq<char>) -> Option<u32> {
    match find(text, word) {
        Some(at) => parse_u32(after_last(text.take(at), ' ')),
        None => None,
    }
}

/// The counts cargo states itself, as `(unit, errors, warnings)`, read off
/// its summary lines.
pub open spec fn tally_of(line: Seq<char>) -> Option<(Seq<char>, u32, u32)> {
    let t = trim(line);
    let failed = "error: could not compile "@;
    let warned = "warning: "@;
    if failed.is_prefix_of(t) {
        let rest = t.skip(failed.len() as int);
        let unit = match find(rest, " due to "@) {
            Some(i) => rest.take(i),
            None => rest,
        };
        let errors = match number_before(rest, " previous error"@) {
            Some(n) => n,
            None => 1,
        };
        let warnings = match number_before(rest, " warning"@) {
            Some(n) => n,
            None => 0,
        };
        Some((unit, errors, warnings))
    } else if warned.is_prefix_of(t) {
        let rest = t.skip(warned.len() as int);
        match find(rest, " generated "@) {
            Some(i) => match first_word(rest.skip(i + " generated "@.len())) {
                Some(w) => match parse_u32(w) {
                    Some(n) => Some((rest.take(i), 0u32, n)),
                    None => None,
                },
                None => None,
            },
            None => None,
        }
    } else {
        None
    }
}

/// A test binary's closing line, as `(passed, failed)`.
pub open spec fn test_result_of(line: Seq<char>) -> Option<(u32, u32)> {
    let t = trim(line);
    let head = "test result: "@;
    if head.is_prefix_of(t) {
        let rest = t.skip(head.len() as int);
        match (number_before(rest, " passed"@), number_before(rest, " failed"@)) {
            (Some(p), Some(f)) => Some((p, f)),
            _ => None,
        }
    } else {
        None
    }
}

/// The line after which the image is on the chip.
pub open spec fn is_flashed(line: Seq<char>) -> bool {
    let t = trim(line);
    "Flashing has completed"@.is_prefix_of(t) || "Finished in "@.is_prefix_of(t)
}

/// cargo saying it is done compiling.
pub open spec fn is_finished_line(line: Seq<char>) -> bool {
    "Finished `"@.is_prefix_of(trim_start(line))
}

/// Whether a line could matter to [`Activity::observe`] at all — a cheap
/// look before anything is copied, since a simulation or a monitor prints
/// thousands of lines a second and none of them is about the activity.
pub fn relevant(line: &str) -> (b: bool)
    ensures
        b == is_relevant(line@),
{
    let v = chars_of(line);
    let t = trimmed_start(&v);
    starts_with(&t, &chars_of("Compiling ")) || starts_with(&t, &chars_of("Finished "))
        || starts_with(&t, &chars_of("warning: ")) || starts_with(
        &t,
        &chars_of("error: could not compile"),
    ) || starts_with(&t, &chars_of("test result: ")) || starts_with(
        &t,
        &chars_of("Flashing has completed"),
    )
}

fn compiling_chars(v: &Vec<char>) -> (r: Option<Vec<char>>)
    ensures
        match compiling_of(v@) {
            Some(name) => r is Some && r->0@ == name,
            None => r is None,
        },
{
    let t = trimmed_start(v);
    let head = chars_of("Compiling ");
    if !starts_with(&t, &head) {
        return None;
    }
    let rest = slice_of(&t, head.len(), t.len());
    assert(rest@ =~= t@.skip(head@.len() as int));
    first_word_of(&rest)
}

/// The crate a cargo line says it is compiling: `   Compiling esp-hal
/// v1.1.2` names `esp-hal`.
pub fn compiling(line: &str) -> (r: Option<String>)
    ensures
        match compiling_of(line@) {
            Some(name) => r is Some && r->0@ == name,
            None => r is None,
        },
{
    let v = chars_of(line);
    match compiling_chars(&v) {
        Some(name) => Some(string_of(&name)),
        None => None,
    }
}

fn number_before_chars(text: &Vec<char>, word: &Vec<char>) -> (r: Option<u32>)
    ensures
        r == number_before(text@, word@),
{
    match find_in(text, word) {
        Some(at) => {
            let head = slice_of(text, 0, at);
            assert(head@ =~= text@.take(at as int));
            let last = after_last_of(&head, ' ');
            parse_u32_of(&last)
        },
        None => None,
    }
}

fn tally_chars(v: &Vec<char>) -> (r: Option<(Vec<char>, u32, u32)>)
    ensures
        match (r, tally_of(v@)) {
            (Some((u, e, w)), Some((tu, te, tw))) => u@ == tu && e == te && w == tw,
            (None, None) => true,
            _ => false,
        },
{
    let t = trimmed(v);
    let failed = chars_of("error: could not compile ");
    let warned = chars_of("warning: ");
    if starts_with(&t, &failed) {
        let rest = slice_of(&t, failed.len(), t.len());
        assert(rest@ =~= t@.skip(failed@.len() as int));
        let unit = match find_in(&rest, &chars_of(" due to ")) {
            Some(i) => {
                let u = slice_of(&rest, 0, i);
                assert(u@ =~= rest@.take(i as int));
                u
            },
            None => rest.clone(),
        };
        let errors = match number_before_chars(&rest, &chars_of(" previous error")) {
            Some(n) => n,
            None => 1,
        };
        let warnings = match number_before_chars(&rest, &chars_of(" warning")) {
            Some(n) => n,
            None => 0,
        };
        Some((unit, errors, warnings))
    } else if starts_with(&t, &warned) {
        let rest = slice_of(&t, warned.len(), t.len());
        assert(rest@ =~= t@.skip(warned@.len() as int));
        let generated = chars_of(" generated ");
        match find_in(&rest, &generated) {
            Some(i) => {
                let after = slice_of(&rest, i + generated.len(), rest.len());
                assert(after@ =~= rest@.skip(i + generated@.len()));
                match first_word_of(&after) {
                    Some(w) => match parse_u32_of(&w) {
                        Some(n) => {
                            let unit = slice_of(&rest, 0, i);
                            assert(unit@ =~= rest@.take(i as int));
                            Some((unit, 0, n))
                        },
                        None => None,
                    },
                    None => None,
                }
            },
            None => None,
        }
    } else {
        None
    }
}

/// The counts cargo states itself, as `(unit, errors, warnings)`.
///
/// Read off its summary lines — ``warning: `app` (bin "app") generated 3
/// warnings`` and ``error: could not compile `app` (bin "app") due to 2
/// previous errors; 3 warnings emitted`` — rather than by counting lines
/// that start with `error`: one diagnostic spans a dozen lines. The unit is
/// the part that names what was compiled, which both lines about one crate
/// share.
pub fn tally(line: &str) -> (r: Option<(String, u32, u32)>)
    ensures
        match (r, tally_of(line@)) {
            (Some((u, e, w)), Some((tu, te, tw))) => u@ == tu && e == te && w == tw,
            (None, None) => true,
            _ => false,
        },
{
    let v = chars_of(line);
    match tally_chars(&v) {
        Some((unit, e, w)) => Some((string_of(&unit), e, w)),
        None => None,
    }
}

fn test_result_chars(v: &Vec<char>) -> (r: Option<(u32, u32)>)
    ensures
        r == test_result_of(v@),
{
    let t = trimmed(v);
    let head = chars_of("test result: ");
    if !starts_with(&t, &head) {
        return None;
    }
    let rest = slice_of(&t, head.len(), t.len());
    assert(rest@ =~= t@.skip(head@.len() as int));
    let passed = number_before_chars(&rest, &chars_of(" passed"));
    let failed = number_before_chars(&rest, &chars_of(" failed"));
    match (passed, failed) {
        (Some(p), Some(f)) => Some((p, f)),
        _ => None,
    }
}

/// A test binary's closing line, as `(passed, failed)`: `test result: ok.
/// 12 passed; 0 failed; …`.
pub fn test_result(line: &str) -> (r: Option<(u32, u32)>)
    ensures
        r == test_result_of(line@),
{
    let v = chars_of(line);
    test_result_chars(&v)
}

fn flashed_chars(v: &Vec<char>) -> (b: bool)
    ensures
        b == is_flashed(v@),
{
    let t = trimmed(v);
    starts_with(&t, &chars_of("Flashing has completed")) || starts_with(
        &t,
        &chars_of("Finished in "),
    )
}

/// The line after which the image is on the chip: espflash's own
/// announcement, or probe-rs finishing its download.
pub fn flashed(line: &str) -> (b: bool)
    ensures
        b == is_flashed(line@),
{
    let v = chars_of(line);
    flashed_chars(&v)
}

// ---------------------------------------------------------------------------
// The activity and its verdict
// ---------------------------------------------------------------------------

/// What an image costs the chip.
#[derive(Clone, Copy, PartialEq, Eq, Debug, Structural)]
pub struct Size {
    pub flash: u64,
    pub ram: u64,
    pub ram_capacity: Option<u32>,
}

/// How the last one ended.
#[derive(Clone, PartialEq, Debug)]
pub struct Outcome {
    pub kind: Kind,
    pub ok: bool,
    pub took_ms: i64,
    /// The exit code, when a failure has one worth naming.
    pub code: Option<i32>,
    pub errors: u32,
    pub warnings: u32,
    pub passed: u32,
    pub failed: u32,
    pub target: Option<String>,
    /// What the image a successful build produced costs the chip, once the
    /// analysis of it has landed.
    pub size: Option<Size>,
}

/// Something running now.
#[derive(Clone, PartialEq, Debug)]
pub struct Activity {
    pub kind: Kind,
    /// When it started; the bar counts from it.
    pub started: i64,
    /// What it is on at the moment: the crate being compiled.
    pub step: Option<String>,
    /// Where it is going: the port a flash writes to, the command a
    /// `Command` runs.
    pub target: Option<String>,
    pub errors: u32,
    pub warnings: u32,
    /// Tests, summed over every test binary's `test result:` line.
    pub passed: u32,
    pub failed: u32,
    /// cargo's counts per unit, as `(unit, errors, warnings)`: a crate that
    /// fails says its warnings twice — `generated 1 warning` and then
    /// `…; 1 warning emitted` — so they are kept by unit and not summed
    /// line by line.
    pub counted: Tallies,
}

/// cargo's counts, one entry per unit, in the order the units were first
/// seen.
#[derive(Clone, PartialEq, Debug)]
pub struct Tallies {
    units: Vec<(String, u32, u32)>,
}

/// cargo's counts for one unit.
pub struct Counted {
    pub unit: Seq<char>,
    pub errors: u32,
    pub warnings: u32,
}

/// An activity as the contracts speak of it.
pub struct ActivityView {
    pub kind: Kind,
    pub started: int,
    pub step: Option<Seq<char>>,
    pub target: Option<Seq<char>>,
    pub errors: int,
    pub warnings: int,
    pub passed: int,
    pub failed: int,
    pub tallies: Seq<Counted>,
}

/// An outcome as the contracts speak of it.
pub struct OutcomeView {
    pub kind: Kind,
    pub ok: bool,
    pub took_ms: int,
    pub code: Option<i32>,
    pub errors: int,
    pub warnings: int,
    pub passed: int,
    pub failed: int,
    pub target: Option<Seq<char>>,
    pub size: Option<Size>,
}

impl View for Outcome {
    type V = OutcomeView;

    open spec fn view(&self) -> OutcomeView {
        OutcomeView {
            kind: self.kind,
            ok: self.ok,
            took_ms: self.took_ms as int,
            code: self.code,
            errors: self.errors as int,
            warnings: self.warnings as int,
            passed: self.passed as int,
            failed: self.failed as int,
            target: text_of(self.target),
            size: self.size,
        }
    }
}

pub open spec fn outcome_view(o: Option<Outcome>) -> Option<OutcomeView> {
    match o {
        Some(o) => Some(o@),
        None => None,
    }
}

impl View for Tallies {
    type V = Seq<Counted>;

    closed spec fn view(&self) -> Seq<Counted> {
        self.units@.map_values(
            |x: (String, u32, u32)| Counted { unit: x.0@, errors: x.1, warnings: x.2 },
        )
    }
}

impl View for Activity {
    type V = ActivityView;

    open spec fn view(&self) -> ActivityView {
        ActivityView {
            kind: self.kind,
            started: self.started as int,
            step: text_of(self.step),
            target: text_of(self.target),
            errors: self.errors as int,
            warnings: self.warnings as int,
            passed: self.passed as int,
            failed: self.failed as int,
            tallies: self.counted@,
        }
    }
}

pub open spec fn sum_errors(t: Seq<Counted>) -> int
    decreases t.len(),
{
    if t.len() == 0 {
        0
    } else {
        sum_errors(t.drop_last()) + t.last().errors
    }
}

pub open spec fn sum_warnings(t: Seq<Counted>) -> int
    decreases t.len(),
{
    if t.len() == 0 {
        0
    } else {
        sum_warnings(t.drop_last()) + t.last().warnings
    }
}

/// The first place at or after `i` a unit's counts are kept.
pub open spec fn unit_index_from(t: Seq<Counted>, unit: Seq<char>, i: int) -> Option<int>
    decreases t.len() - i,
{
    if i < 0 || i >= t.len() {
        None
    } else if t[i].unit == unit {
        Some(i)
    } else {
        unit_index_from(t, unit, i + 1)
    }
}

/// Where a unit's counts are kept, if it has been seen.
pub open spec fn unit_index(t: Seq<Counted>, unit: Seq<char>) -> Option<int> {
    unit_index_from(t, unit, 0)
}

pub open spec fn max_u32(a: u32, b: u32) -> u32 {
    if a >= b {
        a
    } else {
        b
    }
}

/// The counts after cargo has said `(unit, errors, warnings)`: the larger
/// of what was known and what is said, for a unit seen before; a new entry
/// at the end otherwise.
pub open spec fn merged(t: Seq<Counted>, unit: Seq<char>, errors: u32, warnings: u32) -> Seq<
    Counted,
> {
    match unit_index(t, unit) {
        Some(i) => t.update(
            i,
            Counted {
                unit,
                errors: max_u32(t[i].errors, errors),
                warnings: max_u32(t[i].warnings, warnings),
            },
        ),
        None => t.push(Counted { unit, errors, warnings }),
    }
}

/// Every unit is kept once.
pub open spec fn distinct_units(t: Seq<Counted>) -> bool {
    forall|i: int, j: int| 0 <= i < j < t.len() ==> t[i].unit != t[j].unit
}

/// An activity's counts are cargo's, summed over the units it has seen.
pub open spec fn counts_agree(a: ActivityView) -> bool {
    &&& a.errors == sum_errors(a.tallies)
    &&& a.warnings == sum_warnings(a.tallies)
    &&& distinct_units(a.tallies)
}

/// What one printed line does to an activity, and the verdict it is, when
/// it is one.
pub open spec fn observe_spec(a: ActivityView, line: Seq<char>, now: int) -> (
    ActivityView,
    Option<OutcomeView>,
) {
    match compiling_of(line) {
        Some(name) => (ActivityView { step: Some(name), ..a }, None),
        None => if is_finished_line(line) {
            (ActivityView { step: None, ..a }, None)
        } else {
            match tally_of(line) {
                Some((unit, e, w)) => {
                    let t = merged(a.tallies, unit, e, w);
                    (
                        ActivityView {
                            tallies: t,
                            errors: sum_errors(t),
                            warnings: sum_warnings(t),
                            ..a
                        },
                        None,
                    )
                },
                None => match test_result_of(line) {
                    Some((p, f)) => (
                        ActivityView { passed: a.passed + p, failed: a.failed + f, ..a },
                        None,
                    ),
                    None => if a.kind == Kind::Flash && is_flashed(line) {
                        (
                            ActivityView { kind: Kind::Monitor, started: now, step: None, ..a },
                            Some(
                                OutcomeView {
                                    kind: Kind::Flash,
                                    ok: true,
                                    took_ms: now - a.started,
                                    code: None,
                                    errors: 0,
                                    warnings: 0,
                                    passed: 0,
                                    failed: 0,
                                    target: a.target,
                                    size: None,
                                },
                            ),
                        )
                    } else {
                        (a, None)
                    },
                },
            }
        },
    }
}

/// The counts a line leaves fit the status bar's integers, and so does the
/// time a flash took.
pub open spec fn observe_fits(a: ActivityView, line: Seq<char>, now: int) -> bool {
    let b = observe_spec(a, line, now).0;
    &&& b.errors <= u32::MAX
    &&& b.warnings <= u32::MAX
    &&& b.passed <= u32::MAX
    &&& b.failed <= u32::MAX
    &&& observe_spec(a, line, now).1 is Some ==> i64::MIN <= now - a.started <= i64::MAX
}

/// The verdict when the process exits.
pub open spec fn finish_spec(a: ActivityView, code: Option<i32>, now: int) -> Option<OutcomeView> {
    let ok = code is None || code == Some(0i32);
    if (is_open_ended(a.kind) || a.kind == Kind::Command) && ok {
        None
    } else {
        Some(
            OutcomeView {
                kind: a.kind,
                ok,
                took_ms: now - a.started,
                code: if code == Some(0i32) {
                    None
                } else {
                    code
                },
                errors: a.errors,
                warnings: a.warnings,
                passed: a.passed,
                failed: a.failed,
                target: a.target,
                size: None,
            },
        )
    }
}

fn copy_text(o: &Option<String>) -> (r: Option<String>)
    ensures
        text_of(r) == text_of(*o),
{
    match o {
        Some(s) => Some(s.clone()),
        None => None,
    }
}

proof fn lemma_sum_prefix(t: Seq<Counted>, i: int)
    requires
        0 <= i <= t.len(),
    ensures
        sum_errors(t.take(i)) <= sum_errors(t),
        sum_warnings(t.take(i)) <= sum_warnings(t),
        sum_errors(t.take(i)) >= 0,
        sum_warnings(t.take(i)) >= 0,
    decreases t.len() - i,
{
    if i < t.len() {
        lemma_sum_prefix(t, i + 1);
        assert(t.take(i + 1).drop_last() =~= t.take(i));
    } else {
        assert(t.take(i) =~= t);
    }
    lemma_sum_nonneg(t.take(i));
}

proof fn lemma_sum_nonneg(t: Seq<Counted>)
    ensures
        sum_errors(t) >= 0,
        sum_warnings(t) >= 0,
    decreases t.len(),
{
    if t.len() > 0 {
        lemma_sum_nonneg(t.drop_last());
    }
}

impl Activity {
    pub fn new(kind: Kind, started: i64) -> (a: Activity)
        ensures
            a@ == (ActivityView {
                kind,
                started: started as int,
                step: None,
                target: None,
                errors: 0,
                warnings: 0,
                passed: 0,
                failed: 0,
                tallies: Seq::empty(),
            }),
    {
        let a = Activity {
            kind,
            started,
            step: None,
            target: None,
            errors: 0,
            warnings: 0,
            passed: 0,
            failed: 0,
            counted: Tallies { units: Vec::new() },
        };
        assert(a.counted@ =~= Seq::<Counted>::empty());
        a
    }

    /// Put cargo's counts for a unit in, and add everything up again.
    fn count(&mut self, unit: String, errors: u32, warnings: u32)
        requires
            sum_errors(merged(old(self)@.tallies, unit@, errors, warnings)) <= u32::MAX,
            sum_warnings(merged(old(self)@.tallies, unit@, errors, warnings)) <= u32::MAX,
        ensures
            final(self)@ == (ActivityView {
                tallies: merged(old(self)@.tallies, unit@, errors, warnings),
                errors: sum_errors(merged(old(self)@.tallies, unit@, errors, warnings)),
                warnings: sum_warnings(merged(old(self)@.tallies, unit@, errors, warnings)),
                ..old(self)@
            }),
    {
        let ghost before = self.counted@;
        let ghost after = merged(before, unit@, errors, warnings);
        let mut k: usize = 0;
        while k < self.counted.units.len() && self.counted.units[k].0 != unit
            invariant
                k <= self.counted.units.len(),
                self.counted@ == before,
                unit_index(before, unit@) == unit_index_from(before, unit@, k as int),
            decreases self.counted.units.len() - k,
        {
            k = k + 1;
        }
        let ghost old_counted = self.counted@;
        if k < self.counted.units.len() {
            let e = if self.counted.units[k].1 >= errors {
                self.counted.units[k].1
            } else {
                errors
            };
            let w = if self.counted.units[k].2 >= warnings {
                self.counted.units[k].2
            } else {
                warnings
            };
            assert(before[k as int].unit == unit@);
            self.counted.units.set(k, (unit, e, w));
            assert(self.counted@ =~= after);
        } else {
            self.counted.units.push((unit, errors, warnings));
            assert(self.counted@ =~= after);
        }
        let mut e_sum: u64 = 0;
        let mut w_sum: u64 = 0;
        let mut i: usize = 0;
        while i < self.counted.units.len()
            invariant
                i <= self.counted.units.len(),
                self.counted@ == after,
                sum_errors(after) <= u32::MAX,
                sum_warnings(after) <= u32::MAX,
                e_sum == sum_errors(after.take(i as int)),
                w_sum == sum_warnings(after.take(i as int)),
            decreases self.counted.units.len() - i,
        {
            proof {
                lemma_sum_prefix(after, i + 1);
                assert(after.take(i + 1).drop_last() =~= after.take(i as int));
                assert(after.take(i + 1).last() == after[i as int]);
            }
            e_sum = e_sum + self.counted.units[i].1 as u64;
            w_sum = w_sum + self.counted.units[i].2 as u64;
            i = i + 1;
        }
        assert(after.take(self.counted.units.len() as int) =~= after);
        self.errors = e_sum as u32;
        self.warnings = w_sum as u32;
    }

    /// Take in one line the session printed.
    ///
    /// Returns an outcome when the line itself is one: a flash that goes on
    /// monitoring has *finished flashing* long before its process exits, and
    /// the bar should say so then — the activity carries on as a monitor of
    /// the same port.
    pub fn observe(&mut self, line: &str, now: i64) -> (r: Option<Outcome>)
        requires
            observe_fits(old(self)@, line@, now as int),
        ensures
            (final(self)@, outcome_view(r)) == observe_spec(old(self)@, line@, now as int),
    {
        let v = chars_of(line);
        if let Some(name) = compiling_chars(&v) {
            self.step = Some(string_of(&name));
        } else if starts_with(&trimmed_start(&v), &chars_of("Finished `")) {
            // cargo is done; what runs next — the emulator, the flash — is
            // not a crate being compiled.
            self.step = None;
        } else if let Some((unit, errors, warnings)) = tally_chars(&v) {
            let unit = string_of(&unit);
            self.count(unit, errors, warnings);
        } else if let Some((passed, failed)) = test_result_chars(&v) {
            self.passed = self.passed + passed;
            self.failed = self.failed + failed;
        } else if self.kind == Kind::Flash && flashed_chars(&v) {
            let done = Outcome {
                kind: Kind::Flash,
                ok: true,
                took_ms: now - self.started,
                code: None,
                errors: 0,
                warnings: 0,
                passed: 0,
                failed: 0,
                target: copy_text(&self.target),
                size: None,
            };
            self.kind = Kind::Monitor;
            self.started = now;
            self.step = None;
            return Some(done);
        }
        None
    }

    /// The verdict when the process exits, or `None` when its end says
    /// nothing: an open-ended session that exited cleanly, or a command
    /// that did what it was asked — a git write's success is the panel
    /// moving, not a line in the status bar.
    pub fn finish(self, code: Option<i32>, now: i64) -> (r: Option<Outcome>)
        requires
            i64::MIN <= now - self.started <= i64::MAX,
        ensures
            outcome_view(r) == finish_spec(self@, code, now as int),
    {
        // `None` is how a runner reports a process it could not get a code
        // for; the dock calls that finished, and so does this.
        let ok = match code {
            Some(c) => c == 0,
            None => true,
        };
        if (self.kind.open_ended() || self.kind == Kind::Command) && ok {
            return None;
        }
        let code = match code {
            Some(c) => if c != 0 {
                Some(c)
            } else {
                None
            },
            None => None,
        };
        Some(
            Outcome {
                kind: self.kind,
                ok,
                took_ms: now - self.started,
                code,
                errors: self.errors,
                warnings: self.warnings,
                passed: self.passed,
                failed: self.failed,
                target: self.target,
                size: None,
            },
        )
    }
}

// ---------------------------------------------------------------------------
// Laws
// ---------------------------------------------------------------------------

proof fn lemma_prefix_trans(q: Seq<char>, p: Seq<char>, t: Seq<char>)
    requires
        q.is_prefix_of(p),
        p.is_prefix_of(t),
    ensures
        q.is_prefix_of(t),
{
    assert(t.subrange(0, q.len() as int) =~= p.subrange(0, q.len() as int));
}

/// Every line `observe` acts on passes the cheap look: a line that does not
/// leaves the activity as it was and is no verdict.
pub proof fn lemma_irrelevant_line_changes_nothing(a: ActivityView, line: Seq<char>, now: int)
    requires
        !is_relevant(line),
    ensures
        observe_spec(a, line, now) == (a, None::<OutcomeView>),
        a.errors <= u32::MAX && a.warnings <= u32::MAX && a.passed <= u32::MAX && a.failed <= u32::MAX
            ==> observe_fits(a, line, now),
{
    reveal_strlit("Compiling ");
    reveal_strlit("Finished ");
    reveal_strlit("Finished `");
    reveal_strlit("Finished in ");
    reveal_strlit("warning: ");
    reveal_strlit("error: could not compile");
    reveal_strlit("error: could not compile ");
    reveal_strlit("test result: ");
    reveal_strlit("Flashing has completed");
    let s = trim_start(line);
    let t = trim(line);
    assert(compiling_of(line) is None);
    if is_finished_line(line) {
        lemma_prefix_trans("Finished "@, "Finished `"@, s);
    }
    if "error: could not compile "@.is_prefix_of(t) {
        lemma_trim_start_prefix(line, "error: could not compile "@);
        lemma_prefix_trans("error: could not compile"@, "error: could not compile "@, s);
    }
    if "warning: "@.is_prefix_of(t) {
        lemma_trim_start_prefix(line, "warning: "@);
    }
    assert(tally_of(line) is None);
    if "test result: "@.is_prefix_of(t) {
        lemma_trim_start_prefix(line, "test result: "@);
    }
    assert(test_result_of(line) is None);
    if "Flashing has completed"@.is_prefix_of(t) {
        lemma_trim_start_prefix(line, "Flashing has completed"@);
    }
    if "Finished in "@.is_prefix_of(t) {
        lemma_trim_start_prefix(line, "Finished in "@);
        lemma_prefix_trans("Finished "@, "Finished in "@, s);
    }
    assert(!is_flashed(line));
}

proof fn lemma_unit_index_found(t: Seq<Counted>, unit: Seq<char>, i: int)
    ensures
        unit_index_from(t, unit, i) matches Some(j) ==> i <= j < t.len() && t[j].unit == unit
            && forall|k: int| i <= k < j ==> t[k].unit != unit,
        unit_index_from(t, unit, i) is None ==> forall|k: int|
            i <= k < t.len() && 0 <= i ==> t[k].unit != unit,
    decreases t.len() - i,
{
    if !(i < 0 || i >= t.len()) && t[i].unit != unit {
        lemma_unit_index_found(t, unit, i + 1);
    }
}

/// A unit cargo speaks of twice is counted once: saying the same counts
/// again changes nothing, and a unit's figures are the largest it was said
/// to have.
pub proof fn lemma_merge_counts_once(t: Seq<Counted>, unit: Seq<char>, errors: u32, warnings: u32)
    ensures
        merged(merged(t, unit, errors, warnings), unit, errors, warnings) == merged(
            t,
            unit,
            errors,
            warnings,
        ),
{
    let m = merged(t, unit, errors, warnings);
    lemma_unit_index_found(t, unit, 0);
    lemma_unit_index_found(m, unit, 0);
    match unit_index(t, unit) {
        Some(i) => {
            assert(m[i].unit == unit);
            assert forall|k: int| 0 <= k < i implies m[k].unit != unit by {
                assert(m[k] == t[k]);
            }
            if let Some(j) = unit_index(m, unit) {
                if j < i {
                    assert(m[j] == t[j]);
                }
                if j > i {
                    assert(m[i].unit == unit);
                }
                assert(j == i);
            }
            assert(merged(m, unit, errors, warnings) =~= m);
        },
        None => {
            assert(m[t.len() as int].unit == unit);
            assert forall|k: int| 0 <= k < t.len() implies m[k].unit != unit by {
                assert(m[k] == t[k]);
            }
            if let Some(j) = unit_index(m, unit) {
                assert(j == t.len());
            }
            assert(merged(m, unit, errors, warnings) =~= m);
        },
    }
}

/// Merging keeps every unit once.
proof fn lemma_merge_distinct(t: Seq<Counted>, unit: Seq<char>, errors: u32, warnings: u32)
    requires
        distinct_units(t),
    ensures
        distinct_units(merged(t, unit, errors, warnings)),
{
    lemma_unit_index_found(t, unit, 0);
    let m = merged(t, unit, errors, warnings);
    assert forall|i: int, j: int| 0 <= i < j < m.len() implies m[i].unit != m[j].unit by {
        if unit_index(t, unit) is None {
            if j == t.len() {
                assert(m[i] == t[i]);
            } else {
                assert(m[i] == t[i] && m[j] == t[j]);
            }
        } else {
            let x = unit_index(t, unit)->0;
            if i != x && j != x {
                assert(m[i] == t[i] && m[j] == t[j]);
            } else if i == x {
                assert(m[j] == t[j]);
                assert(t[i].unit == unit);
            } else {
                assert(m[i] == t[i]);
                assert(t[j].unit == unit);
            }
        }
    }
}

/// An activity's errors and warnings are always cargo's own counts, one
/// figure per unit, summed: however many lines it is shown, none is
/// counted twice.
pub proof fn lemma_observe_keeps_counts(a: ActivityView, line: Seq<char>, now: int)
    requires
        counts_agree(a),
    ensures
        counts_agree(observe_spec(a, line, now).0),
{
    if let Some((unit, e, w)) = tally_of(line) {
        if compiling_of(line) is None && !is_finished_line(line) {
            lemma_merge_distinct(a.tallies, unit, e, w);
        }
    }
}

/// What a session's end says: a build or a flash always has a verdict; a
/// clean exit names no code; an open-ended session closed cleanly, or a
/// command that did what it was asked, says nothing; any other exit says
/// it failed with its code.
pub proof fn lemma_finish_verdicts(a: ActivityView, code: Option<i32>, now: int)
    ensures
        (a.kind == Kind::Build || a.kind == Kind::Flash || a.kind == Kind::Test)
            ==> finish_spec(a, code, now) is Some,
        code == Some(0i32) ==> (finish_spec(a, code, now) matches Some(o) ==> o.ok && o.code
            is None),
        (is_open_ended(a.kind) || a.kind == Kind::Command) ==> (finish_spec(a, code, now) is None
            <==> (code is None || code == Some(0i32))),
        (code matches Some(c) && c != 0) ==> (finish_spec(a, code, now) matches Some(o) && !o.ok
            && o.code == code),
{
}

/// An activity after it has been shown `lines`, the `i`th at `times[i]`.
pub open spec fn observe_lines(a: ActivityView, lines: Seq<Seq<char>>, times: Seq<int>) -> ActivityView
    decreases lines.len(),
{
    if lines.len() == 0 {
        a
    } else {
        observe_spec(
            observe_lines(a, lines.drop_last(), times),
            lines.last(),
            times[lines.len() - 1],
        ).0
    }
}

proof fn lemma_sum_update(t: Seq<Counted>, i: int, c: Counted)
    requires
        0 <= i < t.len(),
    ensures
        sum_errors(t.update(i, c)) == sum_errors(t) - t[i].errors + c.errors,
        sum_warnings(t.update(i, c)) == sum_warnings(t) - t[i].warnings + c.warnings,
    decreases t.len(),
{
    let u = t.update(i, c);
    if i == t.len() - 1 {
        assert(u.drop_last() =~= t.drop_last());
    } else {
        lemma_sum_update(t.drop_last(), i, c);
        assert(u.drop_last() =~= t.drop_last().update(i, c));
    }
}

proof fn lemma_merge_grows(t: Seq<Counted>, unit: Seq<char>, errors: u32, warnings: u32)
    ensures
        sum_errors(merged(t, unit, errors, warnings)) >= sum_errors(t),
        sum_warnings(merged(t, unit, errors, warnings)) >= sum_warnings(t),
{
    lemma_unit_index_found(t, unit, 0);
    match unit_index(t, unit) {
        Some(i) => {
            lemma_sum_update(
                t,
                i,
                Counted { unit, errors: max_u32(t[i].errors, errors), warnings: max_u32(t[i].warnings, warnings) },
            );
        },
        None => {
            let m = t.push(Counted { unit, errors, warnings });
            assert(m.drop_last() =~= t);
        },
    }
}

/// Over any run of lines, the counts stay cargo's own — each unit once,
/// summed — and never go down; what the activity is aimed at never
/// changes.
pub proof fn lemma_counts_over_lines(a: ActivityView, lines: Seq<Seq<char>>, times: Seq<int>)
    requires
        counts_agree(a),
        times.len() == lines.len(),
    ensures
        counts_agree(observe_lines(a, lines, times)),
        observe_lines(a, lines, times).errors >= a.errors,
        observe_lines(a, lines, times).warnings >= a.warnings,
        observe_lines(a, lines, times).passed >= a.passed,
        observe_lines(a, lines, times).failed >= a.failed,
        observe_lines(a, lines, times).target == a.target,
    decreases lines.len(),
{
    if lines.len() > 0 {
        let before = observe_lines(a, lines.drop_last(), times);
        lemma_counts_over_lines(a, lines.drop_last(), times.drop_last());
        assert(observe_lines(a, lines.drop_last(), times) == observe_lines(a, lines.drop_last(), times.drop_last())) by {
            lemma_times_prefix(a, lines.drop_last(), times);
        }
        let line = lines.last();
        lemma_observe_keeps_counts(before, line, times[lines.len() - 1]);
        if let Some((unit, e, w)) = tally_of(line) {
            lemma_merge_grows(before.tallies, unit, e, w);
        }
        if let Some((p, f)) = test_result_of(line) {
            assert(p >= 0 && f >= 0);
        }
    }
}

/// Only the first `lines.len()` times matter.
proof fn lemma_times_prefix(a: ActivityView, lines: Seq<Seq<char>>, times: Seq<int>)
    requires
        lines.len() < times.len(),
    ensures
        observe_lines(a, lines, times) == observe_lines(a, lines, times.drop_last()),
    decreases lines.len(),
{
    if lines.len() > 0 {
        lemma_times_prefix(a, lines.drop_last(), times);
    }
}

/// A verdict's time is how long the session ran: the exit time less the
/// time the activity started — at the exit, and for a flash that finished
/// writing, at the line that said so. An exit's verdict carries what the
/// session counted and what it was aimed at, and is good exactly when the
/// process ended cleanly or with no code.
pub proof fn lemma_verdict_is_the_time_taken(a: ActivityView, code: Option<i32>, line: Seq<char>, now: int)
    ensures
        finish_spec(a, code, now) matches Some(o) ==> o.took_ms == now - a.started,
        finish_spec(a, code, now) matches Some(o) ==> o.kind == a.kind,
        finish_spec(a, code, now) matches Some(o) ==> o.errors == a.errors && o.warnings == a.warnings
            && o.passed == a.passed && o.failed == a.failed && o.target == a.target,
        finish_spec(a, code, now) matches Some(o) ==> (o.ok <==> (code is None || code == Some(0i32))),
        observe_spec(a, line, now).1 matches Some(o) ==> o.took_ms == now - a.started && o.kind == Kind::Flash,
{
}

} // verus!
