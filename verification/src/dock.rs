//! Commands the dock runs on request: a typed line, and the removal of a
//! tree's incremental caches.

use vstd::prelude::*;

use crate::text::{
    chars_of, is_space, is_whitespace, lemma_trim_start_is_suffix, lemma_trim_start_skip,
    slice_of, string_of, texts, trim_start, word_end, word_len,
};

verus! {

/// What trimming leaves starts with something other than white space.
pub proof fn lemma_trim_start_first(s: Seq<char>)
    ensures
        trim_start(s).len() > 0 ==> !is_space(trim_start(s)[0]),
    decreases s.len(),
{
    if s.len() > 0 && is_space(s[0]) {
        lemma_trim_start_first(s.drop_first());
    }
}

/// A word is no longer than its text, and not empty when the text starts
/// with something other than white space.
pub proof fn lemma_word_len(s: Seq<char>)
    ensures
        word_len(s) <= s.len(),
        s.len() > 0 && !is_space(s[0]) ==> word_len(s) >= 1,
    decreases s.len(),
{
    if s.len() > 0 && !is_space(s[0]) {
        lemma_word_len(s.drop_first());
    }
}

/// The pieces `split_whitespace` yields: every maximal run of characters
/// that are not white space, in order.
pub open spec fn split_words(s: Seq<char>) -> Seq<Seq<char>>
    decreases s.len(),
{
    let t = trim_start(s);
    if t.len() == 0 {
        Seq::empty()
    } else {
        proof {
            lemma_trim_start_is_suffix(s);
            lemma_trim_start_first(s);
            lemma_word_len(t);
        }
        seq![t.take(word_len(t) as int)] + split_words(t.skip(word_len(t) as int))
    }
}

fn words_of(v: &Vec<char>) -> (out: Vec<String>)
    ensures
        texts(out@) == split_words(v@),
{
    let mut out: Vec<String> = Vec::new();
    let mut i: usize = 0;
    assert(v@.skip(0) =~= v@);
    while i < v.len()
        invariant
            i <= v.len(),
            texts(out@) + split_words(v@.skip(i as int)) == split_words(v@),
        decreases v.len() - i,
    {
        if is_whitespace(v[i]) {
            proof {
                lemma_trim_start_skip(v@, i as int);
            }
            i = i + 1;
        } else {
            let j = word_end(v, i);
            let ghost rest = v@.skip(i as int);
            proof {
                assert(rest[0] == v@[i as int]);
                assert(trim_start(rest) == rest);
                lemma_word_len(rest);
                assert(rest.skip(word_len(rest) as int) =~= v@.skip(j as int));
                assert(rest.take(word_len(rest) as int) =~= v@.subrange(i as int, j as int));
            }
            let word = string_of(&slice_of(v, i, j));
            let ghost before = out@;
            out.push(word);
            proof {
                assert(texts(out@) =~= texts(before).push(v@.subrange(i as int, j as int)));
                assert(split_words(rest) == seq![v@.subrange(i as int, j as int)] + split_words(
                    v@.skip(j as int),
                ));
                assert(texts(out@) + split_words(v@.skip(j as int)) =~= texts(before) + split_words(
                    rest,
                ));
            }
            i = j;
        }
    }
    proof {
        assert(v@.skip(i as int) =~= Seq::<char>::empty());
        assert(split_words(Seq::<char>::empty()) =~= Seq::<Seq<char>>::empty());
        assert(texts(out@) =~= texts(out@) + Seq::<Seq<char>>::empty());
    }
    out
}

/// A typed line as a program and its arguments, split at white space; no
/// command at all when the line is blank.
pub fn command_words(line: &str) -> (command: Option<(String, Vec<String>)>)
    ensures
        split_words(line@).len() == 0 ==> command is None,
        split_words(line@).len() > 0 ==> (command matches Some((program, args)) && program@
            == split_words(line@)[0] && texts(args@) == split_words(line@).drop_first()),
{
    let mut words = words_of(&chars_of(line));
    if words.len() == 0 {
        return None;
    }
    let ghost all = words@;
    let program = words.remove(0);
    proof {
        assert(texts(words@) =~= texts(all).drop_first());
    }
    Some((program, words))
}

/// Where a tree keeps its incremental caches: its `incremental` directory,
/// joined with the tree's own separator.
pub open spec fn incremental_path_of(tree: Seq<char>) -> Seq<char> {
    tree + (if tree.contains('\\') {
        "\\"@
    } else {
        "/"@
    }) + "incremental"@
}

/// The directory a tree's incremental caches are removed from.
pub fn incremental_path(tree: &str) -> (path: String)
    ensures
        path@ == incremental_path_of(tree@),
{
    let chars = chars_of(tree);
    let mut backslash = false;
    let mut i: usize = 0;
    while i < chars.len()
        invariant
            i <= chars.len(),
            chars@ == tree@,
            backslash == exists|k: int| 0 <= k < i && chars@[k] == '\\',
        decreases chars.len() - i,
    {
        if chars[i] == '\\' {
            backslash = true;
        }
        i = i + 1;
    }
    let separator = if backslash {
        "\\"
    } else {
        "/"
    };
    let joined = crate::text::concat(tree, separator);
    crate::text::concat(joined.as_str(), "incremental")
}

} // verus!
