//! From a text segment to the words that are counted.

use crate::model::Token;
use crate::normalize::{
    emoji_only, is_emoji_only, lemma_emoji_only_vanishes, normalized, remove_emojis,
};
use crate::split::{fragments, split_fragments, texts};
use vstd::prelude::*;

verus! {

/// The views of a vector of tokens, one for one.
pub open spec fn token_texts(v: Seq<Token>) -> Seq<Seq<char>> {
    Seq::new(v.len(), |i: int| v[i]@)
}

/// Each fragment without its emoji.
pub open spec fn normalize_each(pieces: Seq<Seq<char>>) -> Seq<Seq<char>> {
    Seq::new(pieces.len(), |i: int| normalized(pieces[i]))
}

/// The words that are not empty, in their order.
pub open spec fn non_empty(words: Seq<Seq<char>>) -> Seq<Seq<char>>
    decreases words.len(),
{
    if words.len() == 0 {
        Seq::empty()
    } else if words.last().len() == 0 {
        non_empty(words.drop_last())
    } else {
        non_empty(words.drop_last()).push(words.last())
    }
}

/// The tokens of `text`: its fragments, each without its emoji, leaving out
/// those of which nothing is left.
pub open spec fn tokens(text: Seq<char>) -> Seq<Seq<char>> {
    non_empty(normalize_each(fragments(text)))
}

/// Every fragment of `text` is made of emoji alone.
pub open spec fn emoji_only_fragments(text: Seq<char>) -> bool {
    forall|i: int| 0 <= i < fragments(text).len() ==> emoji_only(#[trigger] fragments(text)[i])
}

/// Strips the emoji from each fragment. A fragment is stripped to nothing
/// exactly when it is made of emoji alone.
pub fn normalize_fragments(pieces: &Vec<String>) -> (words: Vec<String>)
    ensures
        texts(words@) == normalize_each(texts(pieces@)),
        forall|k: int|
            0 <= k < pieces.len() ==> (normalized(#[trigger] pieces[k]@).len() == 0) == emoji_only(
                pieces[k]@,
            ),
{
    let mut words: Vec<String> = Vec::new();
    let n = pieces.len();
    let mut i: usize = 0;
    while i < n
        invariant
            n == pieces.len(),
            i <= n,
            words.len() == i,
            forall|k: int| 0 <= k < i ==> (#[trigger] words[k])@ == normalized(pieces[k]@),
            forall|k: int|
                0 <= k < i ==> (normalized(#[trigger] pieces[k]@).len() == 0) == emoji_only(
                    pieces[k]@,
                ),
        decreases n - i,
    {
        let word = remove_emojis(pieces[i].as_str());
        words.push(word);
        i = i + 1;
    }
    assert(texts(words@) =~= normalize_each(texts(pieces@)));
    words
}

/// Turns the words that are not empty into tokens, in their order, and
/// drops the empty ones.
pub fn discard_empty(words: Vec<String>) -> (kept: Vec<Token>)
    ensures
        token_texts(kept@) == non_empty(texts(words@)),
{
    let ghost all = texts(words@);
    let mut kept: Vec<Token> = Vec::new();
    assert(all.take(0) =~= Seq::<Seq<char>>::empty());
    assert(token_texts(kept@) =~= Seq::<Seq<char>>::empty());
    for word in it: words
        invariant
            all.len() == it.seq().len(),
            forall|k: int| 0 <= k < all.len() ==> all[k] == (#[trigger] it.seq()[k])@,
            token_texts(kept@) == non_empty(all.take(it.index())),
    {
        proof {
            let i = it.index();
            assert(all.take(i + 1).drop_last() =~= all.take(i));
            assert(all.take(i + 1).last() == word@);
        }
        if word.as_str().unicode_len() > 0 {
            let ghost before = kept@;
            kept.push(Token(word));
            assert(token_texts(kept@) =~= token_texts(before).push(word@));
        }
    }
    assert(all.take(all.len() as int) =~= all);
    kept
}

/// Cuts `text` into the tokens that are counted: its fragments, each
/// without its emoji, leaving out those of which nothing is left. There is
/// no token at all exactly when every fragment is made of emoji alone.
pub fn tokenize(text: &str) -> (out: Vec<Token>)
    ensures
        token_texts(out@) == tokens(text@),
        (out.len() == 0) == emoji_only_fragments(text@),
{
    let pieces = split_fragments(text);
    let words = normalize_fragments(&pieces);
    proof {
        let all = fragments(text@);
        assert forall|k: int| 0 <= k < all.len() implies (normalized(#[trigger] all[k]).len() == 0)
            == emoji_only(all[k]) by {
            assert(all[k] == pieces[k]@);
        }
        lemma_no_token(text@);
    }
    discard_empty(words)
}

/// Tells whether every fragment of `text` is made of emoji alone, which is
/// when the text yields no token.
pub fn has_only_emoji_fragments(text: &str) -> (only: bool)
    ensures
        only == emoji_only_fragments(text@),
        only ==> tokens(text@) == Seq::<Seq<char>>::empty(),
{
    let pieces = split_fragments(text);
    let n = pieces.len();
    let mut i: usize = 0;
    while i < n
        invariant
            n == pieces.len(),
            i <= n,
            texts(pieces@) == fragments(text@),
            forall|k: int| 0 <= k < i ==> emoji_only(#[trigger] fragments(text@)[k]),
        decreases n - i,
    {
        assert(fragments(text@)[i as int] == pieces[i as int]@);
        if !is_emoji_only(pieces[i].as_str()) {
            return false;
        }
        i = i + 1;
    }
    proof {
        lemma_emoji_only_yields_no_token(text@);
    }
    true
}

/// Where every fragment is stripped to nothing exactly when it is made of
/// emoji alone, the text yields no token exactly when all its fragments
/// are made of emoji alone.
pub proof fn lemma_no_token(text: Seq<char>)
    requires
        forall|k: int|
            0 <= k < fragments(text).len() ==> (normalized(#[trigger] fragments(text)[k]).len() == 0)
                == emoji_only(fragments(text)[k]),
    ensures
        (tokens(text).len() == 0) == emoji_only_fragments(text),
{
    let pieces = fragments(text);
    let words = normalize_each(pieces);
    if emoji_only_fragments(text) {
        lemma_emoji_only_yields_no_token(text);
    } else {
        let k = choose|k: int| 0 <= k < pieces.len() && !emoji_only(#[trigger] pieces[k]);
        assert(normalized(pieces[k]).len() != 0);
        assert(words[k].len() > 0);
        lemma_non_empty_keeps(words, k);
    }
}

/// A word that is not empty is kept.
pub proof fn lemma_non_empty_keeps(words: Seq<Seq<char>>, i: int)
    requires
        0 <= i < words.len(),
        words[i].len() > 0,
    ensures
        non_empty(words).len() > 0,
    decreases words.len(),
{
    if i < words.len() - 1 {
        lemma_non_empty_keeps(words.drop_last(), i);
    }
}

/// Dropping empty words leaves no more words than there were.
pub proof fn lemma_non_empty_len(words: Seq<Seq<char>>)
    ensures
        non_empty(words).len() <= words.len(),
    decreases words.len(),
{
    if words.len() > 0 {
        lemma_non_empty_len(words.drop_last());
    }
}

/// Words that are all empty leave nothing.
pub proof fn lemma_non_empty_of_empty(words: Seq<Seq<char>>)
    requires
        forall|i: int| 0 <= i < words.len() ==> (#[trigger] words[i]).len() == 0,
    ensures
        non_empty(words) == Seq::<Seq<char>>::empty(),
    decreases words.len(),
{
    if words.len() > 0 {
        assert(words.last().len() == 0);
        lemma_non_empty_of_empty(words.drop_last());
    }
}

/// Every token holds at least one character.
pub proof fn lemma_tokens_not_empty(text: Seq<char>)
    ensures
        forall|i: int| 0 <= i < tokens(text).len() ==> (#[trigger] tokens(text)[i]).len() > 0,
{
    lemma_non_empty_holds(normalize_each(fragments(text)));
}

/// What `non_empty` keeps is not empty.
pub proof fn lemma_non_empty_holds(words: Seq<Seq<char>>)
    ensures
        forall|i: int| 0 <= i < non_empty(words).len() ==> (#[trigger] non_empty(words)[i]).len() > 0,
    decreases words.len(),
{
    if words.len() > 0 {
        let init = non_empty(words.drop_last());
        lemma_non_empty_holds(words.drop_last());
        assert forall|i: int| 0 <= i < non_empty(words).len() implies (#[trigger] non_empty(
            words,
        )[i]).len() > 0 by {
            if i < init.len() {
                assert(non_empty(words)[i] == init[i]);
            }
        }
    }
}

/// A text whose fragments are made of emoji alone yields no token.
pub proof fn lemma_emoji_only_yields_no_token(text: Seq<char>)
    requires
        emoji_only_fragments(text),
    ensures
        tokens(text) == Seq::<Seq<char>>::empty(),
{
    let words = normalize_each(fragments(text));
    assert forall|i: int| 0 <= i < words.len() implies (#[trigger] words[i]).len() == 0 by {
        assert(emoji_only(fragments(text)[i]));
        lemma_emoji_only_vanishes(fragments(text)[i]);
    }
    lemma_non_empty_of_empty(words);
}

} // verus!
