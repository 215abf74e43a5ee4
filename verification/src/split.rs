//! Cutting text into fragments at separator characters.

use vstd::prelude::*;
use vstd::string::*;

verus! {

/// The characters that end a word.
pub open spec fn is_separator(c: char) -> bool {
    c == ' ' || c == ',' || c == '.' || c == '(' || c == ')' || c == '-' || c == '!' || c == '?'
        || c == '\'' || c == '"' || c == '\n' || c == '\t'
}

/// Tells whether `c` ends a word.
pub fn is_separator_char(c: char) -> (b: bool)
    ensures
        b == is_separator(c),
{
    c == ' ' || c == ',' || c == '.' || c == '(' || c == ')' || c == '-' || c == '!' || c == '?'
        || c == '\'' || c == '"' || c == '\n' || c == '\t'
}

/// The number of characters at the front of `s` before its first separator
/// (all of `s` when it has none).
pub open spec fn word_len(s: Seq<char>) -> nat
    decreases s.len(),
{
    if s.len() == 0 || is_separator(s[0]) {
        0
    } else {
        1 + word_len(s.drop_first())
    }
}

/// The fragments of `s`: its maximal runs of characters that are not
/// separators, from left to right. No fragment is empty.
pub open spec fn fragments(s: Seq<char>) -> Seq<Seq<char>>
    decreases s.len(),
    via fragments_terminates
{
    if s.len() == 0 {
        Seq::empty()
    } else if is_separator(s[0]) {
        fragments(s.drop_first())
    } else {
        seq![s.take(word_len(s) as int)] + fragments(s.skip(word_len(s) as int))
    }
}

#[via_fn]
proof fn fragments_terminates(s: Seq<char>) {
    lemma_word_len(s);
}

/// The views of a vector of strings, one for one.
pub open spec fn texts(v: Seq<String>) -> Seq<Seq<char>> {
    Seq::new(v.len(), |i: int| v[i]@)
}

/// `word_len` never runs past the end, and stops only at a separator.
pub proof fn lemma_word_len(s: Seq<char>)
    ensures
        word_len(s) <= s.len(),
        forall|k: int| 0 <= k < word_len(s) ==> !is_separator(#[trigger] s[k]),
        word_len(s) < s.len() ==> is_separator(s[word_len(s) as int]),
    decreases s.len(),
{
    if s.len() == 0 || is_separator(s[0]) {
    } else {
        let rest = s.drop_first();
        lemma_word_len(rest);
        assert forall|k: int| 0 <= k < word_len(s) implies !is_separator(#[trigger] s[k]) by {
            if k > 0 {
                assert(s[k] == rest[k - 1]);
            }
        }
        if word_len(s) < s.len() {
            assert(s[word_len(s) as int] == rest[word_len(rest) as int]);
        }
    }
}

/// A run of `n` characters without a separator, followed by a separator or
/// the end, is what `word_len` measures.
pub proof fn lemma_word_len_is(s: Seq<char>, n: int)
    requires
        0 <= n <= s.len(),
        forall|k: int| 0 <= k < n ==> !is_separator(#[trigger] s[k]),
        n < s.len() ==> is_separator(s[n]),
    ensures
        word_len(s) == n,
    decreases s.len(),
{
    if s.len() == 0 || is_separator(s[0]) {
    } else {
        let rest = s.drop_first();
        assert forall|k: int| 0 <= k < n - 1 implies !is_separator(#[trigger] rest[k]) by {
            assert(rest[k] == s[k + 1]);
        }
        lemma_word_len_is(rest, n - 1);
    }
}

/// A word: at least one character, and no separator.
pub open spec fn is_word(w: Seq<char>) -> bool {
    &&& w.len() > 0
    &&& forall|k: int| 0 <= k < w.len() ==> !is_separator(#[trigger] w[k])
}

/// Every fragment is a word.
pub proof fn lemma_fragments_are_words(s: Seq<char>)
    ensures
        forall|i: int| 0 <= i < fragments(s).len() ==> is_word(#[trigger] fragments(s)[i]),
    decreases s.len(),
{
    if s.len() == 0 {
        assert(fragments(s).len() == 0);
    } else if is_separator(s[0]) {
        lemma_fragments_are_words(s.drop_first());
        assert(fragments(s) == fragments(s.drop_first()));
    } else {
        let n = word_len(s) as int;
        let rest = fragments(s.skip(n));
        lemma_word_len(s);
        lemma_fragments_are_words(s.skip(n));
        assert forall|i: int| 0 <= i < fragments(s).len() implies is_word(#[trigger] fragments(s)[i]) by {
            if i == 0 {
                assert(is_word(s.take(n)));
            } else {
                assert(is_word(rest[i - 1]));
            }
        }
    }
}

/// Cuts `text` at separators and returns the fragments between them, in
/// order, leaving out the empty ones.
pub fn split_fragments(text: &str) -> (out: Vec<String>)
    ensures
        texts(out@) == fragments(text@),
{
    let mut out: Vec<String> = Vec::new();
    let mut start: usize = 0;
    let mut pos: usize = 0;
    let total = text.unicode_len();
    let ghost s = text@;
    assert(s.skip(0) =~= s);
    assert(texts(out@) =~= Seq::<Seq<char>>::empty());
    for c in it: text.chars()
        invariant
            s == text@,
            s.len() == total,
            it.seq() == s,
            pos == it.index(),
            start <= pos <= s.len(),
            forall|k: int| start <= k < pos ==> !is_separator(#[trigger] s[k]),
            texts(out@) + fragments(s.skip(start as int)) == fragments(s),
    {
        if is_separator_char(c) {
            proof {
                lemma_cut_at_separator(s, start as int, pos as int);
            }
            if start < pos {
                let piece = text.substring_char(start, pos);
                let ghost before = out@;
                out.push(String::from_str(piece));
                assert(texts(out@) =~= texts(before).push(s.subrange(start as int, pos as int)));
            }
            start = pos + 1;
        }
        pos = pos + 1;
    }
    proof {
        lemma_cut_at_end(s, start as int);
    }
    if start < pos {
        let piece = text.substring_char(start, pos);
        let ghost before = out@;
        out.push(String::from_str(piece));
        assert(texts(out@) =~= texts(before).push(s.subrange(start as int, pos as int)));
    }
    out
}

/// At a separator in position `pos`, the fragments from `start` on are the
/// run before the separator, if it is not empty, and the fragments after it.
proof fn lemma_cut_at_separator(s: Seq<char>, start: int, pos: int)
    requires
        0 <= start <= pos < s.len(),
        forall|k: int| start <= k < pos ==> !is_separator(#[trigger] s[k]),
        is_separator(s[pos]),
    ensures
        start < pos ==> fragments(s.skip(start)) == seq![s.subrange(start, pos)] + fragments(
            s.skip(pos + 1),
        ),
        start == pos ==> fragments(s.skip(start)) == fragments(s.skip(pos + 1)),
{
    let tail = s.skip(pos);
    assert(tail.drop_first() =~= s.skip(pos + 1));
    assert(tail[0] == s[pos]);
    assert(fragments(tail) == fragments(s.skip(pos + 1)));
    if start < pos {
        let from = s.skip(start);
        assert forall|k: int| 0 <= k < pos - start implies !is_separator(#[trigger] from[k]) by {
            assert(from[k] == s[start + k]);
        }
        assert(from[pos - start] == s[pos]);
        lemma_word_len_is(from, pos - start);
        assert(from.take(pos - start) =~= s.subrange(start, pos));
        assert(from.skip(pos - start) =~= tail);
    }
}

/// With no separator from `start` to the end, what is left is one fragment,
/// or none when nothing is left.
proof fn lemma_cut_at_end(s: Seq<char>, start: int)
    requires
        0 <= start <= s.len(),
        forall|k: int| start <= k < s.len() ==> !is_separator(#[trigger] s[k]),
    ensures
        start < s.len() ==> fragments(s.skip(start)) == seq![s.subrange(start, s.len() as int)],
        start == s.len() ==> fragments(s.skip(start)) == Seq::<Seq<char>>::empty(),
{
    if start < s.len() {
        let from = s.skip(start);
        assert forall|k: int| 0 <= k < from.len() implies !is_separator(#[trigger] from[k]) by {
            assert(from[k] == s[start + k]);
        }
        lemma_word_len_is(from, from.len() as int);
        assert(from.take(from.len() as int) =~= s.subrange(start, s.len() as int));
        assert(from.skip(from.len() as int).len() == 0);
        assert(fragments(from.skip(from.len() as int)) == Seq::<Seq<char>>::empty());
        assert(seq![s.subrange(start, s.len() as int)] + Seq::<Seq<char>>::empty() =~= seq![
            s.subrange(start, s.len() as int),
        ]);
    }
}

} // verus!
