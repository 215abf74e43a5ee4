//! What the statistics of a transcript are.
//!
//! Every token of every counted segment of every counted message is one
//! occurrence, said by the author of the message. The global frequency map
//! counts the occurrences of each token; the per-author map counts, for each
//! author, the occurrences of each token that the author said.

use crate::authors::{merged_by_author, recorded, tally_for};
use crate::model::{countable_message, countable_segment, Message, TextEntity};
use crate::split::{fragments, is_separator, lemma_word_len, word_len};
use crate::tally::{added, count_in, is_tally, merged};
use crate::tokenize::{lemma_non_empty_len, normalize_each, tokens};
use vstd::prelude::*;

verus! {

/// One counted word: who said it, and which token it is.
pub ghost struct Occurrence {
    pub author: Seq<char>,
    pub token: Seq<char>,
}

/// How often `t` occurs among `words`.
pub open spec fn occurrences(words: Seq<Seq<char>>, t: Seq<char>) -> nat
    decreases words.len(),
{
    if words.len() == 0 {
        0
    } else if words.last() == t {
        occurrences(words.drop_last(), t) + 1
    } else {
        occurrences(words.drop_last(), t)
    }
}

/// The frequency map of `words`: each word that occurs, with the number of
/// its occurrences.
pub open spec fn tally_of(words: Seq<Seq<char>>) -> Map<Seq<char>, nat> {
    Map::new(|t: Seq<char>| words.contains(t), |t: Seq<char>| occurrences(words, t))
}

/// The tokens of the occurrences, one for one.
pub open spec fn tokens_in(said: Seq<Occurrence>) -> Seq<Seq<char>> {
    Seq::new(said.len(), |i: int| said[i].token)
}

/// The tokens that `who` said, in their order.
pub open spec fn said_by(said: Seq<Occurrence>, who: Seq<char>) -> Seq<Seq<char>>
    decreases said.len(),
{
    if said.len() == 0 {
        Seq::empty()
    } else if said.last().author == who {
        said_by(said.drop_last(), who).push(said.last().token)
    } else {
        said_by(said.drop_last(), who)
    }
}

/// The per-author map of the occurrences: each author who said a token,
/// with the frequency map of the tokens that the author said.
pub open spec fn tallies_by_author(said: Seq<Occurrence>) -> Map<Seq<char>, Map<Seq<char>, nat>> {
    Map::new(
        |who: Seq<char>| said_by(said, who).len() > 0,
        |who: Seq<char>| tally_of(said_by(said, who)),
    )
}

/// The two maps are what comes of counting the occurrences.
pub open spec fn counts(
    said: Seq<Occurrence>,
    global: Map<Seq<char>, nat>,
    by_author: Map<Seq<char>, Map<Seq<char>, nat>>,
) -> bool {
    global == tally_of(tokens_in(said)) && by_author == tallies_by_author(said)
}

/// The two maps count the same words: some row of occurrences gives the
/// one as its global map and the other as its per-author map.
pub open spec fn agree(
    global: Map<Seq<char>, nat>,
    by_author: Map<Seq<char>, Map<Seq<char>, nat>>,
) -> bool {
    exists|said: Seq<Occurrence>| #[trigger] counts(said, global, by_author)
}

/// The words, each said by `who`.
pub open spec fn attributed(who: Seq<char>, words: Seq<Seq<char>>) -> Seq<Occurrence> {
    Seq::new(words.len(), |i: int| Occurrence { author: who, token: words[i] })
}

/// The name of the author of `msg`. A message without an author has the
/// empty name here; the functions that count ask that no counted message is
/// without one.
pub open spec fn speaker(msg: Message) -> Seq<char> {
    match msg.from {
        Some(person) => person@,
        None => Seq::empty(),
    }
}

/// The tokens of one segment: those of its text if the segment counts, none
/// if it does not.
pub open spec fn segment_tokens(seg: TextEntity) -> Seq<Seq<char>> {
    if countable_segment(seg) {
        tokens(seg.text@)
    } else {
        Seq::empty()
    }
}

/// The tokens of the segments, in their order.
pub open spec fn segments_tokens(segs: Seq<TextEntity>) -> Seq<Seq<char>>
    decreases segs.len(),
{
    if segs.len() == 0 {
        Seq::empty()
    } else {
        segments_tokens(segs.drop_last()) + segment_tokens(segs.last())
    }
}

/// The tokens of one message: those of its segments if the message counts,
/// none if it does not.
pub open spec fn message_tokens(msg: Message) -> Seq<Seq<char>> {
    if countable_message(msg) {
        segments_tokens(msg.text_entities@)
    } else {
        Seq::empty()
    }
}

/// The occurrences in one message: its tokens, each said by its author.
pub open spec fn message_said(msg: Message) -> Seq<Occurrence> {
    attributed(speaker(msg), message_tokens(msg))
}

/// The occurrences in the messages, in their order.
pub open spec fn said_in(msgs: Seq<Message>) -> Seq<Occurrence>
    decreases msgs.len(),
{
    if msgs.len() == 0 {
        Seq::empty()
    } else {
        said_in(msgs.drop_last()) + message_said(msgs.last())
    }
}

/// Every message that counts has an author.
pub open spec fn authors_present(msgs: Seq<Message>) -> bool {
    forall|i: int| 0 <= i < msgs.len() && countable_message(#[trigger] msgs[i]) ==> msgs[i].from is Some
}

/// The number of characters in the segments.
pub open spec fn segments_volume(segs: Seq<TextEntity>) -> nat
    decreases segs.len(),
{
    if segs.len() == 0 {
        0
    } else {
        segments_volume(segs.drop_last()) + segs.last().text@.len()
    }
}

/// The number of characters in the messages. No token is counted more often
/// than this, so counting cannot overflow while it fits a `usize`.
pub open spec fn text_volume(msgs: Seq<Message>) -> nat
    decreases msgs.len(),
{
    if msgs.len() == 0 {
        0
    } else {
        text_volume(msgs.drop_last()) + segments_volume(msgs.last().text_entities@)
    }
}

/// One more word is one more occurrence of that word and of no other.
pub proof fn lemma_occurrences_push(words: Seq<Seq<char>>, w: Seq<char>, t: Seq<char>)
    ensures
        occurrences(words.push(w), t) == occurrences(words, t) + if w == t {
            1nat
        } else {
            0nat
        },
{
    assert(words.push(w).drop_last() =~= words);
}

/// A word occurs among `words` exactly when its number of occurrences is
/// not zero, and that number is at most the number of words.
pub proof fn lemma_occurrences_bounds(words: Seq<Seq<char>>, t: Seq<char>)
    ensures
        words.contains(t) <==> occurrences(words, t) > 0,
        occurrences(words, t) <= words.len(),
    decreases words.len(),
{
    if words.len() > 0 {
        let init = words.drop_last();
        lemma_occurrences_bounds(init, t);
        if words.last() == t {
            assert(words[words.len() - 1] == t);
        } else if init.contains(t) {
            let i = init.index_of(t);
            assert(words[i] == t);
        } else if words.contains(t) {
            let i = words.index_of(t);
            assert(init[i] == t);
        }
    }
}

/// The occurrences in two rows of words add up.
pub proof fn lemma_occurrences_concat(a: Seq<Seq<char>>, b: Seq<Seq<char>>, t: Seq<char>)
    ensures
        occurrences(a + b, t) == occurrences(a, t) + occurrences(b, t),
    decreases b.len(),
{
    if b.len() == 0 {
        assert(a + b =~= a);
    } else {
        assert((a + b).drop_last() =~= a + b.drop_last());
        lemma_occurrences_concat(a, b.drop_last(), t);
    }
}

/// No words, no tokens.
pub proof fn lemma_tally_of_nothing()
    ensures
        tally_of(Seq::empty()) == Map::<Seq<char>, nat>::empty(),
{
    assert(tally_of(Seq::empty()) =~= Map::<Seq<char>, nat>::empty());
}

/// The count of a token in the frequency map of `words` is the number of
/// its occurrences, which is at most the number of words.
pub proof fn lemma_tally_count(words: Seq<Seq<char>>, t: Seq<char>)
    ensures
        count_in(tally_of(words), t) == occurrences(words, t),
        count_in(tally_of(words), t) <= words.len(),
{
    lemma_occurrences_bounds(words, t);
}

/// The frequency map of a row of words has finitely many tokens, and each
/// of them occurs at least once.
pub proof fn lemma_tally_of_is_tally(words: Seq<Seq<char>>)
    ensures
        is_tally(tally_of(words)),
{
    assert(tally_of(words).dom() =~= words.to_set());
    vstd::seq_lib::seq_to_set_is_finite(words);
    assert forall|t: Seq<char>| tally_of(words).dom().contains(t) implies #[trigger] tally_of(words)[t]
        >= 1 by {
        lemma_occurrences_bounds(words, t);
    }
}

/// Counting one more word adds one to its count.
pub proof fn lemma_tally_push(words: Seq<Seq<char>>, w: Seq<char>)
    ensures
        tally_of(words.push(w)) == added(tally_of(words), w, 1),
{
    let more = words.push(w);
    assert forall|t: Seq<char>| more.contains(t) <==> (words.contains(t) || t == w) by {
        lemma_occurrences_push(words, w, t);
        lemma_occurrences_bounds(words, t);
        lemma_occurrences_bounds(more, t);
    }
    assert forall|t: Seq<char>| #[trigger] more.contains(t) implies tally_of(more)[t] == added(
        tally_of(words),
        w,
        1,
    )[t] by {
        lemma_occurrences_push(words, w, t);
        lemma_occurrences_bounds(words, t);
    }
    assert(tally_of(more) =~= added(tally_of(words), w, 1));
}

/// The frequency map of two rows of words, one after the other, is the sum
/// of their frequency maps.
pub proof fn lemma_tally_concat(a: Seq<Seq<char>>, b: Seq<Seq<char>>)
    ensures
        tally_of(a + b) == merged(tally_of(a), tally_of(b)),
{
    assert forall|t: Seq<char>|
        ((a + b).contains(t) <==> (a.contains(t) || b.contains(t))) && occurrences(a + b, t)
            == count_in(tally_of(a), t) + count_in(tally_of(b), t) by {
        lemma_occurrences_concat(a, b, t);
        lemma_occurrences_bounds(a, t);
        lemma_occurrences_bounds(b, t);
        lemma_occurrences_bounds(a + b, t);
    }
    assert(tally_of(a + b) =~= merged(tally_of(a), tally_of(b)));
}

/// Two empty maps agree.
pub proof fn lemma_agree_empty()
    ensures
        agree(Map::empty(), Map::empty()),
{
    lemma_tally_of_nothing();
    let said = Seq::<Occurrence>::empty();
    assert(tokens_in(said) =~= Seq::empty());
    assert(tallies_by_author(said) =~= Map::empty());
    assert(counts(said, Map::empty(), Map::empty()));
}

/// The sums of maps that agree pair by pair agree.
pub proof fn lemma_agree_merged(
    global: Map<Seq<char>, nat>,
    by_author: Map<Seq<char>, Map<Seq<char>, nat>>,
    more: Map<Seq<char>, nat>,
    more_by_author: Map<Seq<char>, Map<Seq<char>, nat>>,
)
    requires
        agree(global, by_author),
        agree(more, more_by_author),
    ensures
        agree(merged(global, more), merged_by_author(by_author, more_by_author)),
{
    let first = choose|said: Seq<Occurrence>| #[trigger] counts(said, global, by_author);
    let second = choose|said: Seq<Occurrence>| #[trigger] counts(said, more, more_by_author);
    lemma_tokens_in_concat(first, second);
    lemma_tally_concat(tokens_in(first), tokens_in(second));
    lemma_by_author_concat(first, second);
    assert(counts(
        first + second,
        merged(global, more),
        merged_by_author(by_author, more_by_author),
    ));
}

/// The tokens of two rows of occurrences, one after the other.
pub proof fn lemma_tokens_in_concat(a: Seq<Occurrence>, b: Seq<Occurrence>)
    ensures
        tokens_in(a + b) == tokens_in(a) + tokens_in(b),
{
    assert(tokens_in(a + b) =~= tokens_in(a) + tokens_in(b));
}

/// One more occurrence is one more token for its author and for no other.
pub proof fn lemma_said_by_push(said: Seq<Occurrence>, o: Occurrence, who: Seq<char>)
    ensures
        said_by(said.push(o), who) == if o.author == who {
            said_by(said, who).push(o.token)
        } else {
            said_by(said, who)
        },
{
    assert(said.push(o).drop_last() =~= said);
}

/// What an author said in two rows of occurrences, one after the other.
pub proof fn lemma_said_by_concat(a: Seq<Occurrence>, b: Seq<Occurrence>, who: Seq<char>)
    ensures
        said_by(a + b, who) == said_by(a, who) + said_by(b, who),
    decreases b.len(),
{
    if b.len() == 0 {
        assert(a + b =~= a);
        assert(said_by(a, who) + said_by(b, who) =~= said_by(a, who));
    } else {
        assert((a + b).drop_last() =~= a + b.drop_last());
        lemma_said_by_concat(a, b.drop_last(), who);
        if b.last().author == who {
            assert(said_by(a, who) + said_by(b.drop_last(), who).push(b.last().token) =~= (said_by(
                a,
                who,
            ) + said_by(b.drop_last(), who)).push(b.last().token));
        }
    }
}

/// An author said no more tokens than there are occurrences.
pub proof fn lemma_said_by_len(said: Seq<Occurrence>, who: Seq<char>)
    ensures
        said_by(said, who).len() <= said.len(),
    decreases said.len(),
{
    if said.len() > 0 {
        lemma_said_by_len(said.drop_last(), who);
    }
}

/// Counting one more occurrence records it for its author.
pub proof fn lemma_by_author_push(said: Seq<Occurrence>, o: Occurrence)
    ensures
        tallies_by_author(said.push(o)) == recorded(tallies_by_author(said), o.author, o.token),
{
    let before = tallies_by_author(said);
    let after = tallies_by_author(said.push(o));
    let theirs = said_by(said, o.author);
    assert forall|who: Seq<char>| true implies #[trigger] said_by(said.push(o), who) == if o.author == who {
        said_by(said, who).push(o.token)
    } else {
        said_by(said, who)
    } by {
        lemma_said_by_push(said, o, who);
    }
    lemma_tally_push(theirs, o.token);
    if theirs.len() == 0 {
        assert(theirs =~= Seq::empty());
        lemma_tally_of_nothing();
    }
    assert(after[o.author] == added(tally_for(before, o.author), o.token, 1));
    assert(after =~= recorded(before, o.author, o.token));
}

/// The per-author map of two rows of occurrences, one after the other, is
/// the sum of their per-author maps.
pub proof fn lemma_by_author_concat(a: Seq<Occurrence>, b: Seq<Occurrence>)
    ensures
        tallies_by_author(a + b) == merged_by_author(tallies_by_author(a), tallies_by_author(b)),
{
    let whole = tallies_by_author(a + b);
    let sum = merged_by_author(tallies_by_author(a), tallies_by_author(b));
    lemma_tally_of_nothing();
    assert forall|who: Seq<char>| #[trigger] whole.dom().contains(who) <==> sum.dom().contains(who) by {
        lemma_said_by_concat(a, b, who);
    }
    assert forall|who: Seq<char>| whole.dom().contains(who) implies #[trigger] whole[who] == sum[who] by {
        lemma_said_by_concat(a, b, who);
        lemma_tally_concat(said_by(a, who), said_by(b, who));
        if said_by(a, who).len() == 0 {
            assert(said_by(a, who) =~= Seq::empty());
        }
        if said_by(b, who).len() == 0 {
            assert(said_by(b, who) =~= Seq::empty());
        }
    }
    assert(whole =~= sum);
}

/// The occurrences in two rows of messages, one after the other.
pub proof fn lemma_said_in_concat(a: Seq<Message>, b: Seq<Message>)
    ensures
        said_in(a + b) == said_in(a) + said_in(b),
    decreases b.len(),
{
    if b.len() == 0 {
        assert(a + b =~= a);
        assert(said_in(a) + said_in(b) =~= said_in(a));
    } else {
        assert((a + b).drop_last() =~= a + b.drop_last());
        assert((a + b).last() == b.last());
        lemma_said_in_concat(a, b.drop_last());
        assert(said_in(a) + (said_in(b.drop_last()) + message_said(b.last())) =~= (said_in(a)
            + said_in(b.drop_last())) + message_said(b.last()));
    }
}

/// A text has no more fragments than characters.
pub proof fn lemma_fragments_len(s: Seq<char>)
    ensures
        fragments(s).len() <= s.len(),
    decreases s.len(),
{
    if s.len() == 0 {
    } else if is_separator(s[0]) {
        lemma_fragments_len(s.drop_first());
    } else {
        lemma_word_len(s);
        lemma_fragments_len(s.skip(word_len(s) as int));
    }
}

/// A text has no more tokens than characters.
pub proof fn lemma_tokens_len(text: Seq<char>)
    ensures
        tokens(text).len() <= text.len(),
{
    lemma_fragments_len(text);
    lemma_non_empty_len(normalize_each(fragments(text)));
}

/// The segments have no more tokens than characters.
pub proof fn lemma_segments_tokens_len(segs: Seq<TextEntity>)
    ensures
        segments_tokens(segs).len() <= segments_volume(segs),
    decreases segs.len(),
{
    if segs.len() > 0 {
        lemma_segments_tokens_len(segs.drop_last());
        lemma_tokens_len(segs.last().text@);
    }
}

/// The messages hold no more occurrences than characters.
pub proof fn lemma_said_in_len(msgs: Seq<Message>)
    ensures
        said_in(msgs).len() <= text_volume(msgs),
    decreases msgs.len(),
{
    if msgs.len() > 0 {
        lemma_said_in_len(msgs.drop_last());
        lemma_segments_tokens_len(msgs.last().text_entities@);
    }
}

/// The first messages hold no more characters than all of them.
pub proof fn lemma_text_volume_take(msgs: Seq<Message>, n: int)
    requires
        0 <= n <= msgs.len(),
    ensures
        text_volume(msgs.take(n)) <= text_volume(msgs),
    decreases msgs.len(),
{
    if n == msgs.len() {
        assert(msgs.take(n) =~= msgs);
    } else {
        assert(msgs.drop_last().take(n) =~= msgs.take(n));
        lemma_text_volume_take(msgs.drop_last(), n);
    }
}

/// The first segments hold no more characters than all of them.
pub proof fn lemma_segments_volume_take(segs: Seq<TextEntity>, n: int)
    requires
        0 <= n <= segs.len(),
    ensures
        segments_volume(segs.take(n)) <= segments_volume(segs),
    decreases segs.len(),
{
    if n == segs.len() {
        assert(segs.take(n) =~= segs);
    } else {
        assert(segs.drop_last().take(n) =~= segs.take(n));
        lemma_segments_volume_take(segs.drop_last(), n);
    }
}

/// A run out of messages that are ready to be counted is ready too: its
/// counted messages have authors, and it holds no more text.
pub proof fn lemma_run_is_ready(msgs: Seq<Message>, from: int, to: int)
    requires
        0 <= from <= to <= msgs.len(),
        authors_present(msgs),
    ensures
        authors_present(msgs.subrange(from, to)),
        text_volume(msgs.take(from)) + text_volume(msgs.subrange(from, to)) == text_volume(
            msgs.take(to),
        ),
        text_volume(msgs.take(to)) <= text_volume(msgs),
        text_volume(msgs.subrange(from, to)) <= text_volume(msgs),
{
    let run = msgs.subrange(from, to);
    assert forall|i: int| 0 <= i < run.len() && countable_message(#[trigger] run[i]) implies run[i].from
        is Some by {
        assert(run[i] == msgs[from + i]);
    }
    lemma_text_volume_concat(msgs.take(from), run);
    assert(msgs.take(from) + run =~= msgs.take(to));
    lemma_text_volume_take(msgs, to);
}

/// The text of two rows of messages, one after the other, adds up.
pub proof fn lemma_text_volume_concat(a: Seq<Message>, b: Seq<Message>)
    ensures
        text_volume(a + b) == text_volume(a) + text_volume(b),
    decreases b.len(),
{
    if b.len() == 0 {
        assert(a + b =~= a);
    } else {
        assert((a + b).drop_last() =~= a + b.drop_last());
        lemma_text_volume_concat(a, b.drop_last());
    }
}

} // verus!
