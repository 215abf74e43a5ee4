//! What holds of the statistics, whatever the chat.

use crate::authors::{merged_all_by_author, tally_for};
use crate::counting::{
    attributed, lemma_occurrences_bounds, lemma_occurrences_push, lemma_said_by_push,
    lemma_tally_count, lemma_tally_of_nothing, message_said, message_tokens, occurrences, said_by,
    said_in, segments_tokens, speaker, tallies_by_author, tokens_in, Occurrence,
};
use crate::model::{countable_message, Message, TextEntity};
use crate::partition::lemma_covered;
use crate::runs::{lemma_merged_runs, run_tallies, run_tallies_by_author};
use crate::stats::{counted, statistics, statistics_of, StatisticsView};
use crate::tally::{count_in, merged_all};
use vstd::prelude::*;

verus! {

/// How often the authors in the row said `t`, all together.
pub open spec fn count_over_authors(
    by_author: Map<Seq<char>, Map<Seq<char>, nat>>,
    authors: Seq<Seq<char>>,
    t: Seq<char>,
) -> nat
    decreases authors.len(),
{
    if authors.len() == 0 {
        0
    } else {
        count_over_authors(by_author, authors.drop_last(), t) + count_in(
            tally_for(by_author, authors.last()),
            t,
        )
    }
}

/// The number of workers does not change the statistics as long as it
/// divides the number of messages: they are the statistics of all the
/// messages, counted in one go.
pub proof fn lemma_worker_count_divides(msgs: Seq<Message>, workers: nat)
    requires
        workers >= 1,
        msgs.len() % workers == 0,
    ensures
        statistics_of(msgs, workers) == statistics(said_in(msgs)),
        statistics_of(msgs, workers).global == merged_all(
            run_tallies(msgs, msgs.len() / workers, workers),
        ),
{
    lemma_covered(msgs.len(), workers);
    assert(counted(msgs, workers) =~= msgs);
    lemma_merged_runs(msgs, msgs.len() / workers, workers);
}

/// Two numbers of workers that both divide the number of messages give the
/// same statistics.
pub proof fn lemma_worker_count_irrelevant(msgs: Seq<Message>, first: nat, second: nat)
    requires
        first >= 1,
        second >= 1,
        msgs.len() % first == 0,
        msgs.len() % second == 0,
    ensures
        statistics_of(msgs, first) == statistics_of(msgs, second),
{
    lemma_worker_count_divides(msgs, first);
    lemma_worker_count_divides(msgs, second);
}

/// Where the number of workers does not divide the number of messages, the
/// last `len % workers` messages are not counted, and the statistics are
/// those of the messages before them.
pub proof fn lemma_tail_is_dropped(msgs: Seq<Message>, workers: nat)
    requires
        workers >= 1,
    ensures
        counted(msgs, workers).len() == msgs.len() - msgs.len() % workers,
        statistics_of(msgs, workers) == statistics(
            said_in(msgs.take(msgs.len() - msgs.len() % workers)),
        ),
        statistics_of(msgs, workers).global == merged_all(
            run_tallies(msgs, msgs.len() / workers, workers),
        ),
        statistics_of(msgs, workers).by_author == merged_all_by_author(
            run_tallies_by_author(msgs, msgs.len() / workers, workers),
        ),
{
    lemma_covered(msgs.len(), workers);
    lemma_merged_runs(msgs, msgs.len() / workers, workers);
}

/// A token occurs in a row without repetition once if it is there, and not
/// at all if it is not.
pub proof fn lemma_occurrences_unique(words: Seq<Seq<char>>, t: Seq<char>)
    requires
        words.no_duplicates(),
    ensures
        occurrences(words, t) == if words.contains(t) {
            1nat
        } else {
            0nat
        },
    decreases words.len(),
{
    if words.len() > 0 {
        let init = words.drop_last();
        lemma_occurrences_unique(init, t);
        lemma_occurrences_bounds(words, t);
        lemma_occurrences_bounds(init, t);
        if words.last() == t && init.contains(t) {
            let i = init.index_of(t);
            assert(words[i] == words[words.len() - 1]);
        }
    }
}

/// How often an author said a token, read from the per-author map.
pub proof fn lemma_author_count(said: Seq<Occurrence>, who: Seq<char>, t: Seq<char>)
    ensures
        count_in(tally_for(tallies_by_author(said), who), t) == occurrences(said_by(said, who), t),
{
    lemma_tally_count(said_by(said, who), t);
}

/// One more occurrence adds one to the count over the authors for each time
/// that its author stands in the row, if it is an occurrence of `t`, and
/// nothing if it is not.
proof fn lemma_count_over_authors_push(
    said: Seq<Occurrence>,
    o: Occurrence,
    authors: Seq<Seq<char>>,
    t: Seq<char>,
)
    ensures
        count_over_authors(tallies_by_author(said.push(o)), authors, t) == count_over_authors(
            tallies_by_author(said),
            authors,
            t,
        ) + if o.token == t {
            occurrences(authors, o.author)
        } else {
            0nat
        },
    decreases authors.len(),
{
    if authors.len() > 0 {
        let who = authors.last();
        lemma_count_over_authors_push(said, o, authors.drop_last(), t);
        lemma_author_count(said, who, t);
        lemma_author_count(said.push(o), who, t);
        lemma_said_by_push(said, o, who);
        if o.author == who {
            lemma_occurrences_push(said_by(said, who), o.token, t);
        }
    }
}

/// The count of a token in the global map is the sum of its counts in the
/// frequency maps of the authors. `authors` names every author of the
/// per-author map, each once.
pub proof fn lemma_cross_check(said: Seq<Occurrence>, authors: Seq<Seq<char>>, t: Seq<char>)
    requires
        authors.no_duplicates(),
        forall|who: Seq<char>| tallies_by_author(said).dom().contains(who) ==> authors.contains(who),
    ensures
        count_in(statistics(said).global, t) == count_over_authors(
            statistics(said).by_author,
            authors,
            t,
        ),
    decreases said.len(),
{
    if said.len() == 0 {
        lemma_tally_count(tokens_in(said), t);
        lemma_nothing_said(authors, t);
        assert(tallies_by_author(said) =~= Map::empty());
    } else {
        let init = said.drop_last();
        let o = said.last();
        assert(init.push(o) =~= said);
        assert forall|who: Seq<char>| tallies_by_author(init).dom().contains(who) implies authors.contains(
            who,
        ) by {
            lemma_said_by_push(init, o, who);
            assert(tallies_by_author(said).dom().contains(who));
        }
        lemma_cross_check(init, authors, t);
        lemma_count_over_authors_push(init, o, authors, t);
        assert(tallies_by_author(said).dom().contains(o.author)) by {
            lemma_said_by_push(init, o, o.author);
        }
        lemma_occurrences_unique(authors, o.author);
        assert(tokens_in(said) =~= tokens_in(init).push(o.token));
        lemma_occurrences_push(tokens_in(init), o.token, t);
        lemma_tally_count(tokens_in(init), t);
        lemma_tally_count(tokens_in(said), t);
    }
}

/// Authors who said nothing add nothing to the count.
proof fn lemma_nothing_said(authors: Seq<Seq<char>>, t: Seq<char>)
    ensures
        count_over_authors(Map::empty(), authors, t) == 0,
    decreases authors.len(),
{
    if authors.len() > 0 {
        lemma_nothing_said(authors.drop_last(), t);
    }
}

/// The statistics of no occurrences: no token and no author.
pub proof fn lemma_statistics_of_nothing()
    ensures
        statistics(Seq::empty()) == (StatisticsView {
            num_tokens: 0,
            global: Map::empty(),
            by_author: Map::empty(),
        }),
{
    lemma_tally_of_nothing();
    assert(tokens_in(Seq::<Occurrence>::empty()) =~= Seq::empty());
    assert(tallies_by_author(Seq::empty()) =~= Map::empty());
    assert(Map::<Seq<char>, nat>::empty().dom() =~= Set::empty());
}

/// Messages that the system wrote hold no occurrence.
pub proof fn lemma_service_messages_say_nothing(msgs: Seq<Message>)
    requires
        forall|i: int| 0 <= i < msgs.len() ==> !countable_message(#[trigger] msgs[i]),
    ensures
        said_in(msgs) == Seq::<Occurrence>::empty(),
    decreases msgs.len(),
{
    if msgs.len() > 0 {
        let init = msgs.drop_last();
        assert forall|i: int| 0 <= i < init.len() implies !countable_message(#[trigger] init[i]) by {
            assert(init[i] == msgs[i]);
        }
        lemma_service_messages_say_nothing(init);
        assert(!countable_message(msgs[msgs.len() - 1]));
        assert(said_in(init) + message_said(msgs.last()) =~= Seq::<Occurrence>::empty());
    }
}

/// A chat that holds only messages of the system has no token and no
/// author in its statistics, whatever the number of workers.
pub proof fn lemma_service_only_chat(msgs: Seq<Message>, workers: nat)
    requires
        workers >= 1,
        forall|i: int| 0 <= i < msgs.len() ==> !countable_message(#[trigger] msgs[i]),
    ensures
        statistics_of(msgs, workers).num_tokens == 0,
        statistics_of(msgs, workers).global == Map::<Seq<char>, nat>::empty(),
        statistics_of(msgs, workers).by_author == Map::<Seq<char>, Map<Seq<char>, nat>>::empty(),
{
    lemma_covered(msgs.len(), workers);
    let some = counted(msgs, workers);
    assert forall|i: int| 0 <= i < some.len() implies !countable_message(#[trigger] some[i]) by {
        assert(some[i] == msgs[i]);
    }
    lemma_service_messages_say_nothing(some);
    lemma_statistics_of_nothing();
}

/// Segments that are all of a kind without words hold no token.
pub proof fn lemma_meta_segments_hold_nothing(segs: Seq<TextEntity>)
    requires
        forall|i: int| 0 <= i < segs.len() ==> (#[trigger] segs[i]).text_type.is_meta_kind(),
    ensures
        segments_tokens(segs) == Seq::<Seq<char>>::empty(),
    decreases segs.len(),
{
    if segs.len() > 0 {
        let init = segs.drop_last();
        assert forall|i: int| 0 <= i < init.len() implies (#[trigger] init[i]).text_type.is_meta_kind() by {
            assert(init[i] == segs[i]);
        }
        lemma_meta_segments_hold_nothing(init);
        assert(segs[segs.len() - 1].text_type.is_meta_kind());
    }
}

/// Every segment of `msg` is of a kind without words.
pub open spec fn meta_only(msg: Message) -> bool {
    forall|i: int|
        0 <= i < msg.text_entities@.len() ==> (#[trigger] msg.text_entities@[i]).text_type
            .is_meta_kind()
}

/// A message whose segments are all of a kind without words, such as a
/// message that is one phone number, adds nothing to the statistics.
pub proof fn lemma_meta_message_says_nothing(msgs: Seq<Message>, msg: Message)
    requires
        meta_only(msg),
    ensures
        message_tokens(msg) == Seq::<Seq<char>>::empty(),
        message_said(msg) == Seq::<Occurrence>::empty(),
        said_in(msgs.push(msg)) == said_in(msgs),
{
    lemma_meta_segments_hold_nothing(msg.text_entities@);
    assert(attributed(speaker(msg), Seq::empty()) =~= Seq::<Occurrence>::empty());
    assert(msgs.push(msg).drop_last() =~= msgs);
    assert(said_in(msgs) + Seq::<Occurrence>::empty() =~= said_in(msgs));
}

/// Messages of which each is written by the system or made of segments
/// without words hold no occurrence.
pub proof fn lemma_silent_messages_say_nothing(msgs: Seq<Message>)
    requires
        forall|i: int|
            0 <= i < msgs.len() ==> !countable_message(#[trigger] msgs[i]) || meta_only(msgs[i]),
    ensures
        said_in(msgs) == Seq::<Occurrence>::empty(),
    decreases msgs.len(),
{
    if msgs.len() > 0 {
        let init = msgs.drop_last();
        let last = msgs[msgs.len() - 1];
        assert forall|i: int| 0 <= i < init.len() implies !countable_message(#[trigger] init[i])
            || meta_only(init[i]) by {
            assert(init[i] == msgs[i]);
        }
        lemma_silent_messages_say_nothing(init);
        assert(!countable_message(last) || meta_only(last));
        if countable_message(last) {
            lemma_meta_message_says_nothing(init, last);
        }
        assert(said_in(init) + message_said(last) =~= Seq::<Occurrence>::empty());
    }
}

/// A chat in which every message that a person wrote is made of segments
/// without words, such as one phone number each, has no token and no
/// author in its statistics, whatever the number of workers.
pub proof fn lemma_meta_only_chat(msgs: Seq<Message>, workers: nat)
    requires
        workers >= 1,
        forall|i: int|
            0 <= i < msgs.len() && countable_message(#[trigger] msgs[i]) ==> meta_only(msgs[i]),
    ensures
        statistics_of(msgs, workers).num_tokens == 0,
        statistics_of(msgs, workers).global == Map::<Seq<char>, nat>::empty(),
        statistics_of(msgs, workers).by_author == Map::<Seq<char>, Map<Seq<char>, nat>>::empty(),
{
    lemma_covered(msgs.len(), workers);
    let some = counted(msgs, workers);
    assert forall|i: int| 0 <= i < some.len() implies !countable_message(#[trigger] some[i])
        || meta_only(some[i]) by {
        assert(some[i] == msgs[i]);
    }
    lemma_silent_messages_say_nothing(some);
    lemma_statistics_of_nothing();
}

} // verus!
