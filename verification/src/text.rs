//! Text as the rest of the library reads it: sequences of characters, with
//! the handful of string operations the parsers and the command builders
//! need, each stated over `Seq<char>`.

use vstd::prelude::*;

verus! {

// ---------------------------------------------------------------------------
// Specifications
// ---------------------------------------------------------------------------

/// Unicode's `White_Space` property — what `char::is_whitespace`, `trim`
/// and `split_whitespace` test.
pub open spec fn is_space(c: char) -> bool {
    let n = c as u32;
    ||| (0x09 <= n && n <= 0x0d)
    ||| n == 0x20
    ||| n == 0x85
    ||| n == 0xa0
    ||| n == 0x1680
    ||| (0x2000 <= n && n <= 0x200a)
    ||| n == 0x2028
    ||| n == 0x2029
    ||| n == 0x202f
    ||| n == 0x205f
    ||| n == 0x3000
}

/// The text with its leading white space removed.
pub open spec fn trim_start(s: Seq<char>) -> Seq<char>
    decreases s.len(),
{
    if s.len() > 0 && is_space(s[0]) {
        trim_start(s.drop_first())
    } else {
        s
    }
}

/// The text with its trailing white space removed.
pub open spec fn trim_end(s: Seq<char>) -> Seq<char>
    decreases s.len(),
{
    if s.len() > 0 && is_space(s.last()) {
        trim_end(s.drop_last())
    } else {
        s
    }
}

/// The text with white space removed at both ends.
pub open spec fn trim(s: Seq<char>) -> Seq<char> {
    trim_end(trim_start(s))
}

/// Whether `p` occurs in `s` at index `i`.
pub open spec fn occurs_at(s: Seq<char>, p: Seq<char>, i: int) -> bool {
    0 <= i && i + p.len() <= s.len() && s.subrange(i, i + p.len()) == p
}

/// The first index at or after `i` where `p` occurs in `s`.
pub open spec fn find_from(s: Seq<char>, p: Seq<char>, i: int) -> Option<int>
    decreases s.len() + 1 - i,
{
    if i < 0 || i + p.len() > s.len() {
        None
    } else if occurs_at(s, p, i) {
        Some(i)
    } else {
        find_from(s, p, i + 1)
    }
}

/// The first index where `p` occurs in `s`: what `str::find` answers.
pub open spec fn find(s: Seq<char>, p: Seq<char>) -> Option<int> {
    find_from(s, p, 0)
}

/// What comes after the last `c` in `s`, or all of `s` when there is none:
/// the first piece `rsplit(c)` yields.
pub open spec fn after_last(s: Seq<char>, c: char) -> Seq<char>
    decreases s.len(),
{
    if s.len() == 0 {
        s
    } else if s.last() == c {
        Seq::empty()
    } else {
        after_last(s.drop_last(), c).push(s.last())
    }
}

/// The length of the run of non-space characters `s` starts with.
pub open spec fn word_len(s: Seq<char>) -> nat
    decreases s.len(),
{
    if s.len() == 0 || is_space(s[0]) {
        0
    } else {
        1 + word_len(s.drop_first())
    }
}

/// The first piece `split_whitespace` yields, if there is one.
pub open spec fn first_word(s: Seq<char>) -> Option<Seq<char>> {
    let t = trim_start(s);
    if t.len() == 0 {
        None
    } else {
        Some(t.take(word_len(t) as int))
    }
}

pub open spec fn is_digit(c: char) -> bool {
    '0' <= c && c <= '9'
}

/// The number a run of decimal digits spells.
pub open spec fn digits_value(s: Seq<char>) -> nat
    decreases s.len(),
{
    if s.len() == 0 {
        0
    } else {
        digits_value(s.drop_last()) * 10 + ((s.last() as u32) - ('0' as u32)) as nat
    }
}

pub open spec fn all_digits(s: Seq<char>) -> bool {
    forall|i: int| 0 <= i < s.len() ==> is_digit(#[trigger] s[i])
}

/// What `str::parse::<u32>` answers: an optional `+`, then one or more
/// decimal digits whose value fits.
pub open spec fn parse_u32(s: Seq<char>) -> Option<u32> {
    let d = if s.len() > 0 && s[0] == '+' {
        s.drop_first()
    } else {
        s
    };
    if d.len() > 0 && all_digits(d) && digits_value(d) <= u32::MAX {
        Some(digits_value(d) as u32)
    } else {
        None
    }
}

/// A number in decimal, as `to_string` writes it: no sign, no leading zero.
pub open spec fn decimal(n: nat) -> Seq<char>
    decreases n,
{
    if n < 10 {
        seq![digit_char(n)]
    } else {
        decimal(n / 10).push(digit_char(n % 10))
    }
}

pub open spec fn digit_char(d: nat) -> char {
    if d == 0 {
        '0'
    } else if d == 1 {
        '1'
    } else if d == 2 {
        '2'
    } else if d == 3 {
        '3'
    } else if d == 4 {
        '4'
    } else if d == 5 {
        '5'
    } else if d == 6 {
        '6'
    } else if d == 7 {
        '7'
    } else if d == 8 {
        '8'
    } else {
        '9'
    }
}

// ---------------------------------------------------------------------------
// Lemmas
// ---------------------------------------------------------------------------

pub(crate) proof fn lemma_trim_start_skip(s: Seq<char>, i: int)
    requires
        0 <= i < s.len(),
        is_space(s[i]),
    ensures
        trim_start(s.skip(i)) == trim_start(s.skip(i + 1)),
{
    assert(s.skip(i).drop_first() =~= s.skip(i + 1));
}

proof fn lemma_trim_end_take(s: Seq<char>, j: int)
    requires
        0 < j <= s.len(),
        is_space(s[j - 1]),
    ensures
        trim_end(s.take(j)) == trim_end(s.take(j - 1)),
{
    assert(s.take(j).drop_last() =~= s.take(j - 1));
}

/// A text that starts with `p` after its leading space is trimmed still
/// does once its end is trimmed too, when `p` ends in something other than
/// white space — every prefix this library looks for does.
pub(crate) proof fn lemma_trim_start_prefix(s: Seq<char>, p: Seq<char>)
    requires
        p.is_prefix_of(trim(s)),
    ensures
        p.is_prefix_of(trim_start(s)),
{
    lemma_trim_end_is_prefix(trim_start(s));
    let t = trim_start(s);
    let u = trim_end(t);
    assert(t.subrange(0, p.len() as int) =~= u.subrange(0, p.len() as int));
}

proof fn lemma_trim_end_is_prefix(s: Seq<char>)
    ensures
        trim_end(s).len() <= s.len(),
        trim_end(s) =~= s.take(trim_end(s).len() as int),
    decreases s.len(),
{
    if s.len() > 0 && is_space(s.last()) {
        lemma_trim_end_is_prefix(s.drop_last());
        assert(s.drop_last().take(trim_end(s).len() as int) =~= s.take(trim_end(s).len() as int));
    }
}

pub proof fn lemma_trim_start_is_suffix(s: Seq<char>)
    ensures
        trim_start(s).len() <= s.len(),
        trim_start(s) =~= s.skip(s.len() - trim_start(s).len()),
    decreases s.len(),
{
    if s.len() > 0 && is_space(s[0]) {
        lemma_trim_start_is_suffix(s.drop_first());
        assert(s.drop_first().skip(s.drop_first().len() - trim_start(s).len()) =~= s.skip(
            s.len() - trim_start(s).len(),
        ));
    }
}

proof fn lemma_digits_value_bound(s: Seq<char>)
    requires
        all_digits(s),
    ensures
        digits_value(s) < pow10(s.len()),
    decreases s.len(),
{
    if s.len() > 0 {
        assert(all_digits(s.drop_last())) by {
            assert forall|i: int| 0 <= i < s.drop_last().len() implies is_digit(
                #[trigger] s.drop_last()[i],
            ) by {
                assert(s.drop_last()[i] == s[i]);
            }
        }
        lemma_digits_value_bound(s.drop_last());
        assert(is_digit(s[s.len() - 1]));
    }
}

pub open spec fn pow10(n: nat) -> nat
    decreases n,
{
    if n == 0 {
        1
    } else {
        10 * pow10((n - 1) as nat)
    }
}

// ---------------------------------------------------------------------------
// Executable operations
// ---------------------------------------------------------------------------

/// The characters of a string, in order.
pub fn chars_of(s: &str) -> (out: Vec<char>)
    ensures
        out@ == s@,
{
    let mut out: Vec<char> = Vec::new();
    for c in it: s.chars()
        invariant
            it.seq() == s@,
            out@ == it.seq().take(it.index() as int),
    {
        out.push(c);
    }
    out
}

/// `String::push`: the string with one more character at its end.
#[verifier::external_body]
fn push_char(s: &mut String, c: char)
    ensures
        final(s)@ == old(s)@.push(c),
{
    s.push(c);
}

/// A string holding exactly these characters.
pub fn string_of(v: &Vec<char>) -> (out: String)
    ensures
        out@ == v@,
{
    let mut out = String::new();
    let mut i: usize = 0;
    while i < v.len()
        invariant
            i <= v.len(),
            out@ == v@.take(i as int),
        decreases v.len() - i,
    {
        push_char(&mut out, v[i]);
        i = i + 1;
        assert(v@.take(i as int) =~= v@.take((i - 1) as int).push(v@[i - 1]));
    }
    assert(v@.take(v.len() as int) =~= v@);
    out
}

/// `char::is_whitespace`.
pub fn is_whitespace(c: char) -> (b: bool)
    ensures
        b == is_space(c),
{
    let n = c as u32;
    (0x09 <= n && n <= 0x0d) || n == 0x20 || n == 0x85 || n == 0xa0 || n == 0x1680 || (0x2000
        <= n && n <= 0x200a) || n == 0x2028 || n == 0x2029 || n == 0x202f || n == 0x205f || n
        == 0x3000
}

/// The characters from `from` up to `to`.
pub fn slice_of(v: &Vec<char>, from: usize, to: usize) -> (out: Vec<char>)
    requires
        from <= to <= v.len(),
    ensures
        out@ == v@.subrange(from as int, to as int),
{
    let mut out: Vec<char> = Vec::new();
    let mut i = from;
    while i < to
        invariant
            from <= i <= to <= v.len(),
            out@ == v@.subrange(from as int, i as int),
        decreases to - i,
    {
        out.push(v[i]);
        i = i + 1;
        assert(out@ =~= v@.subrange(from as int, i as int));
    }
    out
}

/// The two sequences are the same characters.
pub fn same(a: &Vec<char>, b: &Vec<char>) -> (r: bool)
    ensures
        r == (a@ == b@),
{
    if a.len() != b.len() {
        return false;
    }
    let mut i: usize = 0;
    while i < a.len()
        invariant
            a.len() == b.len(),
            i <= a.len(),
            forall|k: int| 0 <= k < i ==> a@[k] == b@[k],
        decreases a.len() - i,
    {
        if a[i] != b[i] {
            return false;
        }
        i = i + 1;
    }
    assert(a@ =~= b@);
    true
}

/// Whether `p` occurs in `v` at `at`.
pub fn occurs(v: &Vec<char>, p: &Vec<char>, at: usize) -> (r: bool)
    ensures
        r == occurs_at(v@, p@, at as int),
{
    if at > v.len() || p.len() > v.len() - at {
        return false;
    }
    let mut i: usize = 0;
    while i < p.len()
        invariant
            at + p.len() <= v.len(),
            i <= p.len(),
            forall|k: int| 0 <= k < i ==> v@[at + k] == p@[k],
        decreases p.len() - i,
    {
        if v[at + i] != p[i] {
            assert(v@.subrange(at as int, at + p.len())[i as int] != p@[i as int]);
            return false;
        }
        i = i + 1;
    }
    assert(v@.subrange(at as int, at + p.len()) =~= p@);
    true
}

/// Whether `v` begins with `p`.
pub fn starts_with(v: &Vec<char>, p: &Vec<char>) -> (r: bool)
    ensures
        r == p@.is_prefix_of(v@),
{
    let r = occurs(v, p, 0);
    proof {
        if r {
            assert(v@.subrange(0, p@.len() as int) == p@);
        }
        if p@.is_prefix_of(v@) {
            assert(v@.subrange(0, p@.len() as int) =~= p@);
        }
    }
    r
}

/// The first index where `p` occurs in `v`.
pub fn find_in(v: &Vec<char>, p: &Vec<char>) -> (r: Option<usize>)
    ensures
        r matches Some(i) ==> find(v@, p@) == Some(i as int) && occurs_at(v@, p@, i as int),
        r is None ==> find(v@, p@) is None,
{
    proof {
        lemma_find_occurs(v@, p@, 0);
    }
    if p.len() > v.len() {
        return None;
    }
    let last = v.len() - p.len();
    let mut i: usize = 0;
    while i <= last
        invariant
            last == v.len() - p.len(),
            i <= last + 1,
            find(v@, p@) == find_from(v@, p@, i as int),
        decreases last + 1 - i,
    {
        proof {
            if p.len() == 0 {
                assert(v@.subrange(i as int, i as int) =~= p@);
            }
        }
        if occurs(v, p, i) {
            return Some(i);
        }
        i = i + 1;
    }
    None
}

/// A found index is an occurrence.
proof fn lemma_find_occurs(s: Seq<char>, p: Seq<char>, i: int)
    ensures
        find_from(s, p, i) matches Some(j) ==> occurs_at(s, p, j) && i <= j,
    decreases s.len() + 1 - i,
{
    if !(i < 0 || i + p.len() > s.len()) && !occurs_at(s, p, i) {
        lemma_find_occurs(s, p, i + 1);
    }
}

/// Where the text starts once its leading white space is passed.
pub fn trim_start_index(v: &Vec<char>) -> (i: usize)
    ensures
        i <= v.len(),
        v@.skip(i as int) == trim_start(v@),
{
    let mut i: usize = 0;
    assert(v@.skip(0) =~= v@);
    while i < v.len() && is_whitespace(v[i])
        invariant
            i <= v.len(),
            trim_start(v@) == trim_start(v@.skip(i as int)),
        decreases v.len() - i,
    {
        proof {
            lemma_trim_start_skip(v@, i as int);
        }
        i = i + 1;
    }
    proof {
        let t = v@.skip(i as int);
        if i < v.len() {
            assert(t[0] == v@[i as int]);
        }
    }
    i
}

/// Where the text ends once its trailing white space is dropped.
pub fn trim_end_index(v: &Vec<char>) -> (j: usize)
    ensures
        j <= v.len(),
        v@.take(j as int) == trim_end(v@),
{
    let mut j: usize = v.len();
    assert(v@.take(v.len() as int) =~= v@);
    while j > 0 && is_whitespace(v[j - 1])
        invariant
            j <= v.len(),
            trim_end(v@) == trim_end(v@.take(j as int)),
        decreases j,
    {
        proof {
            lemma_trim_end_take(v@, j as int);
        }
        j = j - 1;
    }
    proof {
        let t = v@.take(j as int);
        if j > 0 {
            assert(t.last() == v@[j - 1]);
        }
    }
    j
}

/// `str::trim_start`.
pub fn trimmed_start(v: &Vec<char>) -> (out: Vec<char>)
    ensures
        out@ == trim_start(v@),
{
    let i = trim_start_index(v);
    let out = slice_of(v, i, v.len());
    assert(out@ =~= v@.skip(i as int));
    out
}

/// `str::trim`.
pub fn trimmed(v: &Vec<char>) -> (out: Vec<char>)
    ensures
        out@ == trim(v@),
{
    let t = trimmed_start(v);
    let j = trim_end_index(&t);
    let out = slice_of(&t, 0, j);
    assert(out@ =~= t@.take(j as int));
    out
}

/// The length of the run of non-space characters from `from`.
pub fn word_end(v: &Vec<char>, from: usize) -> (j: usize)
    requires
        from <= v.len(),
    ensures
        from <= j <= v.len(),
        j - from == word_len(v@.skip(from as int)),
{
    let mut j = from;
    while j < v.len() && !is_whitespace(v[j])
        invariant
            from <= j <= v.len(),
            word_len(v@.skip(from as int)) == (j - from) + word_len(v@.skip(j as int)),
            forall|k: int| from <= k < j ==> !is_space(#[trigger] v@[k]),
        decreases v.len() - j,
    {
        assert(v@.skip(j as int).drop_first() =~= v@.skip(j + 1));
        assert(v@.skip(j as int)[0] == v@[j as int]);
        j = j + 1;
    }
    proof {
        let t = v@.skip(j as int);
        if j < v.len() {
            assert(t[0] == v@[j as int]);
        }
    }
    j
}

/// The first piece `split_whitespace` yields.
pub fn first_word_of(v: &Vec<char>) -> (out: Option<Vec<char>>)
    ensures
        match first_word(v@) {
            Some(w) => out is Some && out->0@ == w,
            None => out is None,
        },
{
    let i = trim_start_index(v);
    if i == v.len() {
        return None;
    }
    let j = word_end(v, i);
    let out = slice_of(v, i, j);
    proof {
        let t = trim_start(v@);
        assert(t == v@.skip(i as int));
        assert(out@ =~= t.take(word_len(t) as int));
    }
    Some(out)
}

/// What comes after the last `c`, or everything when there is none.
pub fn after_last_of(v: &Vec<char>, c: char) -> (out: Vec<char>)
    ensures
        out@ == after_last(v@, c),
{
    let mut j: usize = v.len();
    assert(v@.take(v.len() as int) =~= v@);
    while j > 0 && v[j - 1] != c
        invariant
            j <= v.len(),
            after_last(v@, c) == after_last(v@.take(j as int), c) + v@.subrange(
                j as int,
                v.len() as int,
            ),
        decreases j,
    {
        let ghost t = v@.take(j as int);
        assert(t.drop_last() =~= v@.take(j - 1));
        assert(t.last() == v@[j - 1]);
        assert(after_last(t, c) == after_last(t.drop_last(), c).push(t.last()));
        assert(v@.subrange(j - 1, v.len() as int) =~= seq![v@[j - 1]] + v@.subrange(
            j as int,
            v.len() as int,
        ));
        assert(after_last(t.drop_last(), c).push(t.last()) + v@.subrange(j as int, v.len() as int)
            =~= after_last(t.drop_last(), c) + v@.subrange(j - 1, v.len() as int));
        j = j - 1;
    }
    proof {
        let t = v@.take(j as int);
        if j > 0 {
            assert(t.last() == v@[j - 1]);
            assert(after_last(t, c) =~= Seq::<char>::empty());
        } else {
            assert(t =~= Seq::<char>::empty());
        }
    }
    let out = slice_of(v, j, v.len());
    assert(out@ =~= after_last(v@, c));
    out
}

/// `str::parse::<u32>`.
pub fn parse_u32_of(v: &Vec<char>) -> (r: Option<u32>)
    ensures
        r == parse_u32(v@),
{
    let start: usize = if v.len() > 0 && v[0] == '+' {
        1
    } else {
        0
    };
    let ghost d = v@.skip(start as int);
    assert(d =~= (if v@.len() > 0 && v@[0] == '+' {
        v@.drop_first()
    } else {
        v@
    }));
    if start == v.len() {
        return None;
    }
    let mut value: u64 = 0;
    let mut i = start;
    while i < v.len()
        invariant
            start <= i <= v.len(),
            d == v@.skip(start as int),
            d == (if v@.len() > 0 && v@[0] == '+' {
                v@.drop_first()
            } else {
                v@
            }),
            all_digits(v@.subrange(start as int, i as int)),
            value == digits_value(v@.subrange(start as int, i as int)),
            value <= u32::MAX,
        decreases v.len() - i,
    {
        let c = v[i];
        if !('0' <= c && c <= '9') {
            proof {
                assert(d[i - start] == c);
                assert(!is_digit(d[i - start]));
                assert(!all_digits(d));
            }
            return None;
        }
        let digit = (c as u32 - '0' as u32) as u64;
        let ghost before = v@.subrange(start as int, i as int);
        let ghost after = v@.subrange(start as int, i + 1);
        assert(after.drop_last() =~= before);
        assert(after.last() == c);
        assert(all_digits(after)) by {
            assert forall|k: int| 0 <= k < after.len() implies is_digit(#[trigger] after[k]) by {
                if k < before.len() {
                    assert(after[k] == before[k]);
                }
            }
        }
        if value > (u32::MAX as u64 - digit) / 10 {
            proof {
                assert(value * 10 + digit > u32::MAX) by (nonlinear_arith)
                    requires
                        value > (u32::MAX as u64 - digit) / 10,
                        digit <= 9,
                ;
                // Every further digit only makes the number larger.
                assert(digits_value(after) == value * 10 + digit);
                assert(d.take(i + 1 - start) =~= after);
                lemma_digits_grow(d, (i + 1 - start) as int);
                assert(digits_value(d) > u32::MAX);
            }
            return None;
        }
        value = value * 10 + digit;
        i = i + 1;
    }
    assert(v@.subrange(start as int, v.len() as int) =~= d);
    Some(value as u32)
}

/// A longer run of digits is worth at least as much as its prefix.
proof fn lemma_digits_grow(s: Seq<char>, n: int)
    requires
        0 <= n <= s.len(),
    ensures
        digits_value(s.take(n)) <= digits_value(s),
    decreases s.len() - n,
{
    if n < s.len() {
        lemma_digits_grow(s, n + 1);
        assert(s.take(n + 1).drop_last() =~= s.take(n));
    } else {
        assert(s.take(n) =~= s);
    }
}

/// A number in decimal.
pub fn decimal_of(n: u64) -> (out: Vec<char>)
    ensures
        out@ == decimal(n as nat),
    decreases n,
{
    if n < 10 {
        let mut out = Vec::new();
        out.push(digit(n));
        assert(out@ =~= seq![digit_char(n as nat)]);
        out
    } else {
        let mut out = decimal_of(n / 10);
        out.push(digit(n % 10));
        out
    }
}

fn digit(d: u64) -> (c: char)
    requires
        d < 10,
    ensures
        c == digit_char(d as nat),
{
    if d == 0 {
        '0'
    } else if d == 1 {
        '1'
    } else if d == 2 {
        '2'
    } else if d == 3 {
        '3'
    } else if d == 4 {
        '4'
    } else if d == 5 {
        '5'
    } else if d == 6 {
        '6'
    } else if d == 7 {
        '7'
    } else if d == 8 {
        '8'
    } else {
        '9'
    }
}

/// `a` followed by `b`.
pub fn joined(a: &Vec<char>, b: &Vec<char>) -> (out: Vec<char>)
    ensures
        out@ == a@ + b@,
{
    let mut out = a.clone();
    let mut i: usize = 0;
    while i < b.len()
        invariant
            i <= b.len(),
            out@ == a@ + b@.take(i as int),
        decreases b.len() - i,
    {
        out.push(b[i]);
        i = i + 1;
        assert(out@ =~= a@ + b@.take(i as int));
    }
    assert(b@.take(b.len() as int) =~= b@);
    out
}

/// Two strings hold the same characters.
pub fn same_text(a: &str, b: &str) -> (r: bool)
    ensures
        r == (a@ == b@),
{
    same(&chars_of(a), &chars_of(b))
}

/// A string holding the characters of `s`.
pub fn owned(s: &str) -> (out: String)
    ensures
        out@ == s@,
{
    s.to_owned()
}

/// `a` followed by `b`, as a new string.
pub fn concat(a: &str, b: &str) -> (out: String)
    ensures
        out@ == a@ + b@,
{
    let v = joined(&chars_of(a), &chars_of(b));
    string_of(&v)
}

/// The characters of each string in a list.
pub open spec fn texts(list: Seq<String>) -> Seq<Seq<char>> {
    list.map_values(|p: String| p@)
}


/// `str::trim`, as a new string.
pub fn trim_text(s: &str) -> (out: String)
    ensures
        out@ == trim(s@),
{
    string_of(&trimmed(&chars_of(s)))
}

/// Whether a string is nothing but white space.
pub fn is_blank(s: &str) -> (b: bool)
    ensures
        b == (trim(s@).len() == 0),
{
    trimmed(&chars_of(s)).len() == 0
}

/// The characters of a string that may be missing.
pub open spec fn text_of(o: Option<String>) -> Option<Seq<char>> {
    match o {
        Some(s) => Some(s@),
        None => None,
    }
}

} // verus!
