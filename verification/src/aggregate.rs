//! Counting the words of a run of messages.

use crate::authors::AuthorTallies;
use crate::counting::{
    agree, attributed, authors_present, counts, lemma_by_author_push, lemma_said_by_len,
    lemma_said_in_len, lemma_segments_tokens_len, lemma_segments_volume_take, lemma_tally_count,
    lemma_tally_of_nothing, lemma_tally_push, lemma_text_volume_take, lemma_tokens_len,
    message_said, said_by, said_in, segment_tokens, segments_tokens, segments_volume, speaker,
    tallies_by_author, tally_of, text_volume, tokens_in, Occurrence,
};
use crate::model::{
    countable_message, is_countable_message, is_countable_segment, Message, Person, TextEntity,
    Token,
};
use crate::tally::FrequencyMap;
use crate::tokenize::{token_texts, tokenize};
use vstd::prelude::*;

verus! {

/// Counts each of `words` once in the global map and once for `author`.
/// `said` is what the two maps have counted so far.
fn count_words(
    global: &mut FrequencyMap,
    by_author: &mut AuthorTallies,
    author: &Person,
    words: Vec<Token>,
    Ghost(said): Ghost<Seq<Occurrence>>,
)
    requires
        old(global).wf(),
        old(by_author).wf(),
        old(global)@ == tally_of(tokens_in(said)),
        old(by_author)@ == tallies_by_author(said),
        said.len() + words.len() <= usize::MAX,
    ensures
        final(global).wf(),
        final(by_author).wf(),
        final(global)@ == tally_of(tokens_in(said + attributed(author@, token_texts(words@)))),
        final(by_author)@ == tallies_by_author(said + attributed(author@, token_texts(words@))),
{
    let ghost all = token_texts(words@);
    let ghost total = words.len();
    assert(said + attributed(author@, all.take(0)) =~= said);
    for word in it: words
        invariant
            it.seq().len() == all.len(),
            all.len() == total,
            forall|k: int| 0 <= k < all.len() ==> all[k] == (#[trigger] it.seq()[k])@,
            said.len() + total <= usize::MAX,
            global.wf(),
            by_author.wf(),
            global@ == tally_of(tokens_in(said + attributed(author@, all.take(it.index())))),
            by_author@ == tallies_by_author(said + attributed(author@, all.take(it.index()))),
    {
        let ghost i = it.index();
        let ghost now = said + attributed(author@, all.take(i));
        let ghost next = Occurrence { author: author@, token: word@ };
        proof {
            assert(now.len() == said.len() + i);
            assert(now.push(next) =~= said + attributed(author@, all.take(i + 1)));
            assert(tokens_in(now.push(next)) =~= tokens_in(now).push(word@));
            lemma_tally_count(tokens_in(now), word@);
            lemma_tally_push(tokens_in(now), word@);
            lemma_said_by_len(now, author@);
            lemma_tally_count(said_by(now, author@), word@);
            lemma_by_author_push(now, next);
        }
        global.bump(word.clone());
        by_author.record(author, word);
    }
    assert(all.take(all.len() as int) =~= all);
}

/// Counts the words of one message. `said` is what the two maps have
/// counted so far.
fn count_message(
    global: &mut FrequencyMap,
    by_author: &mut AuthorTallies,
    msg: &Message,
    Ghost(said): Ghost<Seq<Occurrence>>,
)
    requires
        old(global).wf(),
        old(by_author).wf(),
        old(global)@ == tally_of(tokens_in(said)),
        old(by_author)@ == tallies_by_author(said),
        countable_message(*msg) ==> msg.from is Some,
        said.len() + segments_volume(msg.text_entities@) <= usize::MAX,
    ensures
        final(global).wf(),
        final(by_author).wf(),
        final(global)@ == tally_of(tokens_in(said + message_said(*msg))),
        final(by_author)@ == tallies_by_author(said + message_said(*msg)),
{
    if !is_countable_message(msg) {
        assert(said + message_said(*msg) =~= said);
        return ;
    }
    let author: &Person = msg.from.as_ref().unwrap();
    let ghost who = speaker(*msg);
    let ghost segs = msg.text_entities@;
    let n = msg.text_entities.len();
    let mut j: usize = 0;
    assert(said + attributed(who, segments_tokens(segs.take(0))) =~= said);
    while j < n
        invariant
            n == segs.len(),
            segs == msg.text_entities@,
            j <= n,
            who == author@,
            said.len() + segments_volume(segs) <= usize::MAX,
            global.wf(),
            by_author.wf(),
            global@ == tally_of(tokens_in(said + attributed(who, segments_tokens(segs.take(j as int))))),
            by_author@ == tallies_by_author(
                said + attributed(who, segments_tokens(segs.take(j as int))),
            ),
        decreases n - j,
    {
        let seg = &msg.text_entities[j];
        let ghost done = segments_tokens(segs.take(j as int));
        let ghost now = said + attributed(who, done);
        proof {
            assert(segs.take(j + 1).drop_last() =~= segs.take(j as int));
            assert(segs.take(j + 1).last() == *seg);
            lemma_segments_tokens_len(segs.take(j as int));
            lemma_segments_volume_take(segs, j + 1);
            lemma_tokens_len(seg.text@);
        }
        if is_countable_segment(seg) {
            let words = tokenize(seg.text.as_str());
            proof {
                assert(now + attributed(who, token_texts(words@)) =~= said + attributed(
                    who,
                    done + segment_tokens(*seg),
                ));
            }
            count_words(global, by_author, author, words, Ghost(now));
        } else {
            assert(done + segment_tokens(*seg) =~= done);
        }
        j = j + 1;
    }
    assert(segs.take(n as int) =~= segs);
}

/// The number of characters in the segments, if a `usize` can hold it.
fn segments_len(segs: &Vec<TextEntity>) -> (len: Option<usize>)
    ensures
        match len {
            Some(n) => n == segments_volume(segs@),
            None => segments_volume(segs@) > usize::MAX,
        },
{
    let n = segs.len();
    let mut sum: usize = 0;
    let mut j: usize = 0;
    while j < n
        invariant
            n == segs.len(),
            j <= n,
            sum == segments_volume(segs@.take(j as int)),
        decreases n - j,
    {
        proof {
            assert(segs@.take(j + 1).drop_last() =~= segs@.take(j as int));
            lemma_segments_volume_take(segs@, j + 1);
        }
        match sum.checked_add(segs[j].text.as_str().unicode_len()) {
            Some(more) => {
                sum = more;
            },
            None => {
                return None;
            },
        }
        j = j + 1;
    }
    assert(segs@.take(n as int) =~= segs@);
    Some(sum)
}

/// Tells whether the messages can be counted: every message that counts
/// has an author, and the text is not longer than a counter can count.
pub fn is_ready(chunk: &[Message]) -> (ready: bool)
    ensures
        ready == (authors_present(chunk@) && text_volume(chunk@) <= usize::MAX),
{
    let n = chunk.len();
    let mut sum: usize = 0;
    let mut i: usize = 0;
    while i < n
        invariant
            n == chunk.len(),
            i <= n,
            authors_present(chunk@.take(i as int)),
            sum == text_volume(chunk@.take(i as int)),
        decreases n - i,
    {
        let msg = &chunk[i];
        proof {
            assert(chunk@.take(i + 1).drop_last() =~= chunk@.take(i as int));
            lemma_text_volume_take(chunk@, i + 1);
        }
        if is_countable_message(msg) && msg.from.is_none() {
            return false;
        }
        let more = match segments_len(&msg.text_entities) {
            Some(len) => sum.checked_add(len),
            None => None,
        };
        match more {
            Some(total) => {
                sum = total;
            },
            None => {
                return false;
            },
        }
        assert forall|k: int| 0 <= k < i + 1 && countable_message(
            #[trigger] chunk@.take(i + 1)[k],
        ) implies chunk@.take(i + 1)[k].from is Some by {
            if k < i {
                assert(chunk@.take(i as int)[k] == chunk@.take(i + 1)[k]);
            }
        }
        i = i + 1;
    }
    assert(chunk@.take(n as int) =~= chunk@);
    true
}

/// Counts the words of a run of messages: for each message that counts and
/// each of its segments that counts, every token of the segment once in the
/// global map and once in the frequency map of the message's author.
///
/// Every message that counts must have an author, and the text must not be
/// longer than a counter can count.
pub fn aggregate(chunk: &[Message]) -> (found: (FrequencyMap, AuthorTallies))
    requires
        authors_present(chunk@),
        text_volume(chunk@) <= usize::MAX,
    ensures
        found.0.wf(),
        found.1.wf(),
        found.0@ == tally_of(tokens_in(said_in(chunk@))),
        found.1@ == tallies_by_author(said_in(chunk@)),
        agree(found.0@, found.1@),
{
    let mut global = FrequencyMap::new();
    let mut by_author = AuthorTallies::new();
    let n = chunk.len();
    let mut i: usize = 0;
    proof {
        lemma_tally_of_nothing();
        assert(tokens_in(said_in(chunk@.take(0))) =~= Seq::empty());
        assert(tallies_by_author(said_in(chunk@.take(0))) =~= Map::empty());
    }
    while i < n
        invariant
            n == chunk.len(),
            i <= n,
            authors_present(chunk@),
            text_volume(chunk@) <= usize::MAX,
            global.wf(),
            by_author.wf(),
            global@ == tally_of(tokens_in(said_in(chunk@.take(i as int)))),
            by_author@ == tallies_by_author(said_in(chunk@.take(i as int))),
        decreases n - i,
    {
        let msg = &chunk[i];
        proof {
            assert(chunk@.take(i + 1).drop_last() =~= chunk@.take(i as int));
            assert(chunk@.take(i + 1).last() == *msg);
            lemma_said_in_len(chunk@.take(i as int));
            lemma_text_volume_take(chunk@, i + 1);
        }
        count_message(&mut global, &mut by_author, msg, Ghost(said_in(chunk@.take(i as int))));
        i = i + 1;
    }
    assert(chunk@.take(n as int) =~= chunk@);
    assert(counts(said_in(chunk@), global@, by_author@));
    (global, by_author)
}

} // verus!
