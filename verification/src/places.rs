//! Where things are: references, implementations, symbols, a macro's
//! expansion, a definition — and the one jump every answer goes through.

use vstd::prelude::*;

use crate::calls::{
    insert_by, key_lt, lemma_insert_at, lemma_keys_asymmetric, lemma_keys_transitive, same_location, sorted_by, text_less,
    Location, Place, SiteKey,
};
use crate::lsp::{is_rust, is_rust_path};
use crate::text::{chars_of, concat, owned, same_text, slice_of, string_of};

verus! {

broadcast use vstd::seq_lib::group_to_multiset_ensures;

/// Which places a command asks the server for.
#[derive(Clone, Copy, PartialEq, Eq, Debug, Structural)]
pub enum PlaceQuery {
    References,
    Implementations,
    TypeDefinition,
}

// ---------------------------------------------------------------------------
// The word at the caret
// ---------------------------------------------------------------------------

/// What `char::is_alphanumeric` answers for `c`: a letter or a number in
/// Unicode's sense.
pub uninterp spec fn alphanumeric(c: char) -> bool;

/// `char::is_alphanumeric`: Unicode's Alphabetic or Numeric property of
/// `c`. The contract names that property and says nothing more of it.
#[verifier::external_body]
fn is_alphanumeric(c: char) -> (b: bool)
    ensures
        b == alphanumeric(c),
{
    c.is_alphanumeric()
}

/// A character an identifier is made of.
pub open spec fn is_word_char(c: char) -> bool {
    alphanumeric(c) || c == '_'
}

/// The first line break at or after `k`.
pub open spec fn newline_from(t: Seq<char>, k: int) -> Option<int>
    decreases t.len() - k,
{
    if k < 0 || k >= t.len() {
        None
    } else if t[k] == '\n' {
        Some(k)
    } else {
        newline_from(t, k + 1)
    }
}

/// Where line `n` starts, counting from 0, if the text has that many.
pub open spec fn line_start(t: Seq<char>, n: nat) -> Option<int>
    decreases n,
{
    if n == 0 {
        Some(0)
    } else {
        match line_start(t, (n - 1) as nat) {
            Some(s) => match newline_from(t, s) {
                Some(i) => Some(i + 1),
                None => None,
            },
            None => None,
        }
    }
}

/// Line `n` of a text, without its break; empty past the last.
pub open spec fn nth_line(t: Seq<char>, n: nat) -> Seq<char> {
    match line_start(t, n) {
        Some(s) => t.subrange(
            s,
            match newline_from(t, s) {
                Some(e) => e,
                None => t.len() as int,
            },
        ),
        None => Seq::empty(),
    }
}

/// How many word characters stand just before `at`.
pub open spec fn run_back(s: Seq<char>, at: int) -> nat
    decreases at,
{
    if at <= 0 || at > s.len() || !is_word_char(s[at - 1]) {
        0
    } else {
        1 + run_back(s, at - 1)
    }
}

/// How many word characters stand from `at` on.
pub open spec fn run_fwd(s: Seq<char>, at: int) -> nat
    decreases s.len() - at,
{
    if at < 0 || at >= s.len() || !is_word_char(s[at]) {
        0
    } else {
        1 + run_fwd(s, at + 1)
    }
}

/// The identifier a position is on or just after: the word characters on
/// both sides of the column, the column held to the line's end.
pub open spec fn word_at(t: Seq<char>, line: nat, col: nat) -> Seq<char> {
    let l = nth_line(t, line);
    let at = if col < l.len() { col as int } else { l.len() as int };
    l.subrange(at - run_back(l, at), at + run_fwd(l, at))
}

proof fn lemma_newline_from(t: Seq<char>, k: int)
    requires
        0 <= k,
    ensures
        newline_from(t, k) matches Some(i) ==> k <= i < t.len() && t[i] == '\n'
            && forall|j: int| k <= j < i ==> t[j] != '\n',
        newline_from(t, k) is None ==> forall|j: int| k <= j < t.len() ==> t[j] != '\n',
    decreases t.len() - k,
{
    if k < t.len() && t[k] != '\n' {
        lemma_newline_from(t, k + 1);
    }
}

proof fn lemma_line_start(t: Seq<char>, n: nat)
    ensures
        line_start(t, n) matches Some(s) ==> 0 <= s <= t.len(),
    decreases n,
{
    if n > 0 {
        lemma_line_start(t, (n - 1) as nat);
        if let Some(s) = line_start(t, (n - 1) as nat) {
            lemma_newline_from(t, s);
        }
    }
}

proof fn lemma_no_line_past(t: Seq<char>, m: nat, n: nat)
    requires
        m <= n,
        line_start(t, m) is None,
    ensures
        line_start(t, n) is None,
    decreases n - m,
{
    if m < n {
        lemma_no_line_past(t, m + 1, n);
    }
}

proof fn lemma_run_back(s: Seq<char>, at: int)
    requires
        0 <= at <= s.len(),
    ensures
        run_back(s, at) <= at,
    decreases at,
{
    if at > 0 && is_word_char(s[at - 1]) {
        lemma_run_back(s, at - 1);
    }
}

proof fn lemma_run_fwd(s: Seq<char>, at: int)
    requires
        0 <= at <= s.len(),
    ensures
        at + run_fwd(s, at) <= s.len(),
    decreases s.len() - at,
{
    if at < s.len() && is_word_char(s[at]) {
        lemma_run_fwd(s, at + 1);
    }
}

fn is_word(c: char) -> (b: bool)
    ensures
        b == is_word_char(c),
{
    c == '_' || is_alphanumeric(c)
}

/// The first line break at or after `k`.
fn newline_at_or_after(t: &Vec<char>, k: usize) -> (r: Option<usize>)
    requires
        k <= t.len(),
    ensures
        match newline_from(t@, k as int) {
            Some(i) => r == Some(i as usize) && k <= i < t.len(),
            None => r is None,
        },
{
    proof {
        lemma_newline_from(t@, k as int);
    }
    let mut i = k;
    while i < t.len()
        invariant
            k <= i <= t.len(),
            newline_from(t@, k as int) == newline_from(t@, i as int),
        decreases t.len() - i,
    {
        if t[i] == '\n' {
            return Some(i);
        }
        i = i + 1;
    }
    None
}

/// Line `n` of a text, without its break; empty past the last.
fn line_of(t: &Vec<char>, n: u32) -> (l: Vec<char>)
    ensures
        l@ == nth_line(t@, n as nat),
{
    let mut start: usize = 0;
    let mut k: u32 = 0;
    while k < n
        invariant
            k <= n,
            start <= t.len(),
            line_start(t@, k as nat) == Some(start as int),
        decreases n - k,
    {
        match newline_at_or_after(t, start) {
            Some(i) => {
                start = i + 1;
            },
            None => {
                proof {
                    assert(line_start(t@, (k + 1) as nat) is None);
                    lemma_no_line_past(t@, (k + 1) as nat, n as nat);
                }
                return Vec::new();
            },
        }
        k = k + 1;
    }
    let end = match newline_at_or_after(t, start) {
        Some(e) => e,
        None => t.len(),
    };
    slice_of(t, start, end)
}

/// The identifier a position is on or just after — what a list of its
/// uses is titled with.
pub fn word_around(text: &str, line: u32, col: u32) -> (w: String)
    ensures
        w@ == word_at(text@, line as nat, col as nat),
{
    let t = chars_of(text);
    let l = line_of(&t, line);
    let at: usize = if (col as usize) < l.len() { col as usize } else { l.len() };
    let mut before: usize = 0;
    while before < at && is_word(l[at - before - 1])
        invariant
            at <= l.len(),
            before <= at,
            run_back(l@, at as int) == before + run_back(l@, at - before),
        decreases at - before,
    {
        before = before + 1;
    }
    let mut after: usize = 0;
    while at + after < l.len() && is_word(l[at + after])
        invariant
            at + after <= l.len(),
            run_fwd(l@, at as int) == after + run_fwd(l@, at + after),
        decreases l.len() - at - after,
    {
        after = after + 1;
    }
    proof {
        lemma_run_back(l@, at as int);
        lemma_run_fwd(l@, at as int);
    }
    string_of(&slice_of(&l, at - before, at + after))
}

// ---------------------------------------------------------------------------
// Places found
// ---------------------------------------------------------------------------

/// Where a place starts, as places are ordered by.
pub open spec fn place_key(p: Place) -> SiteKey {
    SiteKey { external: p.location.external, path: p.location.path@, line: p.location.line, col: p.location.col }
}

pub open spec fn place_le(a: Place, b: Place) -> bool {
    !key_lt(place_key(b), place_key(a))
}

/// By file, then down each file — the order a list is read in; the
/// project's files before anything outside it.
pub open spec fn sorted_places(s: Seq<Place>) -> bool {
    forall|i: int, j: int| 0 <= i < j < s.len() ==> place_le(s[i], s[j])
}

/// The order of places: `a` strictly before `b`.
pub open spec fn place_lt() -> spec_fn(Place, Place) -> bool {
    |a: Place, b: Place| key_lt(place_key(a), place_key(b))
}

/// Whether `a` starts strictly before `b`.
fn place_before(a: &Place, b: &Place) -> (r: bool)
    ensures
        r == key_lt(place_key(*a), place_key(*b)),
{
    let x = &a.location;
    let y = &b.location;
    if x.external != y.external {
        return !x.external;
    }
    if text_less(&x.path, &y.path) {
        return true;
    }
    if !same_text(x.path.as_str(), y.path.as_str()) {
        return false;
    }
    if x.line != y.line {
        return x.line < y.line;
    }
    x.col < y.col
}

/// The places, by file and then down each file.
pub fn sort_places(places: Vec<Place>) -> (out: Vec<Place>)
    ensures
        out@.to_multiset() == places@.to_multiset(),
        sorted_places(out@),
        out@ == sorted_by(places@, place_lt()),
{
    let ghost orig = places@;
    let mut v = places;
    let n = v.len();
    if n == 0 {
        assert(orig =~= Seq::<Place>::empty());
        return v;
    }
    assert(orig.take(1).drop_last() =~= Seq::<Place>::empty());
    assert(sorted_by(orig.take(1).drop_last(), place_lt()) =~= Seq::<Place>::empty());
    assert(orig.take(1).last() == orig[0]);
    assert(insert_by(Seq::<Place>::empty(), orig[0], place_lt()) =~= seq![orig[0]]);
    assert(v@.take(1) =~= sorted_by(orig.take(1), place_lt()));
    assert(v@.skip(1) =~= orig.skip(1));
    let mut i: usize = 1;
    while i < n
        invariant
            1 <= i <= n,
            v.len() == n,
            orig.len() == n,
            v@.to_multiset() == orig.to_multiset(),
            sorted_places(v@.take(i as int)),
            v@.take(i as int) == sorted_by(orig.take(i as int), place_lt()),
            v@.skip(i as int) == orig.skip(i as int),
        decreases n - i,
    {
        let ghost before = v@;
        let x = v.remove(i);
        let mut j: usize = i;
        while j > 0 && place_before(&x, &v[j - 1])
            invariant
                0 <= j <= i,
                i < n,
                v.len() == n - 1,
                v@ == before.remove(i as int),
                x == before[i as int],
                forall|k: int| j <= k < i ==> key_lt(place_key(x), #[trigger] place_key(v@[k])),
            decreases j,
        {
            j = j - 1;
        }
        v.insert(j, x);
        proof {
            let s = v@.take(i + 1);
            let p = before.take(i as int);
            assert(x == orig[i as int]) by {
                assert(before.skip(i as int)[0] == orig.skip(i as int)[0]);
            }
            assert forall|k: int| j <= k < p.len() implies (place_lt())(x, #[trigger] p[k]) by {
                assert(p[k] == before.remove(i as int)[k]);
            }
            if j > 0 {
                assert(p[j - 1] == before.remove(i as int)[j - 1]);
            }
            lemma_insert_at(p, x, j as int, place_lt());
            assert(orig.take(i + 1).drop_last() =~= orig.take(i as int));
            assert(orig.take(i + 1).last() == orig[i as int]);
            assert(s =~= p.take(j as int).push(x) + p.skip(j as int));
            assert(v@.skip(i + 1) =~= orig.skip(i + 1)) by {
                assert forall|k: int| 0 <= k < v@.skip(i + 1).len() implies #[trigger] v@.skip(i + 1)[k] == orig.skip(i + 1)[k] by {
                    assert(v@.skip(i + 1)[k] == before[i + 1 + k]);
                    assert(before.skip(i as int)[1 + k] == orig.skip(i as int)[1 + k]);
                }
            }
            assert forall|a: int, b: int| 0 <= a < b < s.len() implies place_le(s[a], s[b]) by {
                if b < j {
                    assert(s[a] == p[a] && s[b] == p[b]);
                } else if a < j && b == j {
                    assert(s[a] == p[a]);
                    assert(s[j - 1] == p[j - 1]);
                    if a < j - 1 {
                        assert(place_le(p[a], p[j - 1]));
                        lemma_keys_transitive(place_key(p[a]), place_key(p[j - 1]), place_key(x));
                    }
                } else if a < j && b > j {
                    assert(s[a] == p[a] && s[b] == p[b - 1]);
                } else if a == j {
                    assert(s[b] == p[b - 1]);
                    assert(before.remove(i as int)[b - 1] == p[b - 1]);
                    lemma_keys_asymmetric(place_key(x), place_key(p[b - 1]));
                } else {
                    assert(s[a] == p[a - 1] && s[b] == p[b - 1]);
                }
            }
        }
        i = i + 1;
    }
    assert(v@.take(n as int) =~= v@);
    assert(orig.take(n as int) =~= orig);
    v
}

/// What the finder's list of places is titled, as a translation key that
/// takes the name asked about.
pub open spec fn title_of(query: PlaceQuery) -> &'static str {
    match query {
        PlaceQuery::References => "places.references",
        PlaceQuery::Implementations => "places.implementations",
        PlaceQuery::TypeDefinition => "places.type-definition",
    }
}

/// What an answer of places comes to.
pub enum Found {
    /// One implementation or type definition: a jump, as a definition is.
    Jump(Location),
    /// Anything else — any references at all, even none, which says there
    /// were none rather than letting a key seem to do nothing — is a list
    /// in the finder, titled with the name asked about.
    List { title: &'static str, name: String, places: Vec<Place> },
}

/// Where the thing at the caret is used, implemented or typed, once the
/// server has answered: one implementation or type definition is a jump;
/// anything else is the places listed, by file and then down each file.
pub fn find_places(query: PlaceQuery, name: &str, places: Vec<Place>) -> (f: Found)
    ensures
        match f {
            Found::Jump(at) => places.len() == 1 && query != PlaceQuery::References && same_location(at, places@[0].location),
            Found::List { title, name: n, places: listed } => !(places.len() == 1 && query != PlaceQuery::References)
                && title == title_of(query) && n@ == name@ && listed@ == sorted_by(places@, place_lt())
                && listed@.to_multiset() == places@.to_multiset() && sorted_places(listed@),
        },
{
    if places.len() == 1 && query != PlaceQuery::References {
        let l = &places[0].location;
        return Found::Jump(Location { path: owned(l.path.as_str()), line: l.line, col: l.col, external: l.external });
    }
    let title = match query {
        PlaceQuery::References => "places.references",
        PlaceQuery::Implementations => "places.implementations",
        PlaceQuery::TypeDefinition => "places.type-definition",
    };
    Found::List { title, name: name.to_string(), places: sort_places(places) }
}

// ---------------------------------------------------------------------------
// The jump
// ---------------------------------------------------------------------------

/// How the file a jump lands in is opened.
#[derive(Clone, Copy, PartialEq, Eq, Debug, Structural)]
pub enum Opening {
    /// One of the project's own.
    Project,
    /// Outside the project: opened read-only.
    External,
}

/// What a jump to a place does besides putting the caret on it.
#[derive(Clone, Copy, PartialEq, Eq, Debug, Structural)]
pub struct Jump {
    /// Files and Search keep an editor on screen; from anywhere else the
    /// jump lands in Files.
    pub show_files: bool,
    /// The file to open first, unless it is the one on screen.
    pub open: Option<Opening>,
}

/// Open where a location is, with the caret on it: Files comes up unless
/// an editor is already on screen, and the file is opened unless it is the
/// one in front — read-only when it is outside the project.
pub fn go_to(panel: &str, current: Option<&str>, location: &Location) -> (j: Jump)
    ensures
        j.show_files == !(panel@ == "files"@ || panel@ == "search"@),
        j.open == (if current matches Some(c) && c@ == location.path@ {
            None
        } else if location.external {
            Some(Opening::External)
        } else {
            Some(Opening::Project)
        }),
{
    let show_files = !(same_text(panel, "files") || same_text(panel, "search"));
    let here = match current {
        Some(c) => same_text(c, location.path.as_str()),
        None => false,
    };
    let open = if here {
        None
    } else if location.external {
        Some(Opening::External)
    } else {
        Some(Opening::Project)
    };
    Jump { show_files, open }
}

/// The symbols the finder asks for, as the ask their answer is kept with:
/// the workspace's matching `words` for `#`, the outline of the file in
/// front for `@` — none when the server is not ready, or the file is not
/// Rust.
pub fn ask_symbols(ready: bool, workspace: bool, words: &str, active: Option<&str>) -> (ask: Option<String>)
    ensures
        !ready ==> ask is None,
        ready && workspace ==> (ask matches Some(a) && a@ == "#"@ + words@),
        ready && !workspace ==> match active {
            Some(p) => if is_rust(p@) { ask matches Some(a) && a@ == "@"@ + p@ } else { ask is None },
            None => ask is None,
        },
{
    if !ready {
        return None;
    }
    if workspace {
        return Some(concat("#", words));
    }
    match active {
        Some(p) => {
            if is_rust_path(p) {
                Some(concat("@", p))
            } else {
                None
            }
        },
        None => None,
    }
}

/// Whether a macro under the caret can be expanded: a Rust file in front
/// and the server ready.
pub fn expand_macro(active: Option<&str>, ready: bool) -> (ask: bool)
    ensures
        ask == (ready && (active matches Some(p) && is_rust(p@))),
{
    match active {
        Some(p) => ready && is_rust_path(p),
        None => false,
    }
}

} // verus!
