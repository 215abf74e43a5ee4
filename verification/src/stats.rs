//! The statistics of a chat and how they are gathered.

use crate::aggregate::{aggregate, is_ready};
use crate::authors::{
    lemma_merged_all_by_author_bound, lemma_merged_all_by_author_take, merged_all_by_author,
    tally_for, AuthorTallies,
};
use crate::counting::{
    agree, authors_present, counts, lemma_agree_empty, lemma_agree_merged, lemma_run_is_ready,
    lemma_said_by_len, lemma_said_in_len, lemma_tally_count, said_by, said_in, tallies_by_author,
    tally_of, text_volume, tokens_in, Occurrence,
};
use crate::laws::{count_over_authors, lemma_cross_check};
use crate::model::{Chat, Message};
use crate::partition::{chunk_size, covered, lemma_covered, lemma_run_fits, partition};
use crate::runs::{lemma_merged_runs, run, run_tallies, run_tallies_by_author};
use crate::tally::{
    count_in, lemma_merged_all_bound, lemma_merged_all_take, merged_all, FrequencyMap,
};
use vstd::prelude::*;
use vstd::slice::slice_subrange;

verus! {

/// What a `ChatStatistics` stands for.
pub ghost struct StatisticsView {
    /// The number of distinct tokens.
    pub num_tokens: nat,
    /// How often each token occurs.
    pub global: Map<Seq<char>, nat>,
    /// For each author, how often each token occurs in what they wrote.
    pub by_author: Map<Seq<char>, Map<Seq<char>, nat>>,
}

/// The statistics of a row of occurrences.
pub open spec fn statistics(said: Seq<Occurrence>) -> StatisticsView {
    StatisticsView {
        num_tokens: tally_of(tokens_in(said)).dom().len(),
        global: tally_of(tokens_in(said)),
        by_author: tallies_by_author(said),
    }
}

/// The messages that are counted when `workers` workers share the work:
/// those that belong to a worker's run.
pub open spec fn counted(msgs: Seq<Message>, workers: nat) -> Seq<Message>
    recommends
        workers >= 1,
{
    msgs.take(covered(msgs.len(), workers) as int)
}

/// The statistics of a chat with these messages, gathered by `workers`
/// workers.
pub open spec fn statistics_of(msgs: Seq<Message>, workers: nat) -> StatisticsView
    recommends
        workers >= 1,
{
    statistics(said_in(counted(msgs, workers)))
}

/// The global maps of what the workers counted, one for one.
pub open spec fn globals_of(chunks: Seq<(FrequencyMap, AuthorTallies)>) -> Seq<Map<Seq<char>, nat>> {
    Seq::new(chunks.len(), |i: int| chunks[i].0@)
}

/// The per-author maps of what the workers counted, one for one.
pub open spec fn by_authors_of(chunks: Seq<(FrequencyMap, AuthorTallies)>) -> Seq<
    Map<Seq<char>, Map<Seq<char>, nat>>,
> {
    Seq::new(chunks.len(), |i: int| chunks[i].1@)
}

/// Why no statistics were gathered.
#[derive(Debug, Clone, Copy, PartialEq, Eq, Structural)]
pub enum GatherError {
    /// There is no worker to give the messages to.
    NoWorkers,
}

/// The word statistics of a chat: the number of distinct tokens, and how
/// often each occurs, over the whole chat and for each author.
#[derive(Debug)]
pub struct ChatStatistics {
    num_tokens: usize,
    members_tokens_map: AuthorTallies,
    tokens_map: FrequencyMap,
}

impl View for ChatStatistics {
    type V = StatisticsView;

    closed spec fn view(&self) -> StatisticsView {
        StatisticsView {
            num_tokens: self.num_tokens as nat,
            global: self.tokens_map@,
            by_author: self.members_tokens_map@,
        }
    }
}

/// Not verified: calls `rayon::current_num_threads`, which starts the
/// global thread pool if none is running yet. The number depends on the
/// machine and on how the pool was set up; the contract says only that it
/// is not zero. Rayon builds every pool with the number that its builder
/// gives, which is the number asked for if that is not zero and else a
/// default of at least one, cut down to a maximum that is a positive
/// constant.
#[verifier::external_body]
fn worker_threads() -> (n: usize)
    ensures
        n >= 1,
{
    rayon::current_num_threads()
}

impl ChatStatistics {
    /// The statistics are well formed: both maps are, they count the same
    /// words, and the number of distinct tokens is the number of tokens in
    /// the global map.
    pub closed spec fn wf(&self) -> bool {
        &&& self.tokens_map.wf()
        &&& self.members_tokens_map.wf()
        &&& self.num_tokens == self.tokens_map@.dom().len()
        &&& agree(self.tokens_map@, self.members_tokens_map@)
    }

    /// The authors of the per-author map, in the order in which it keeps
    /// them.
    pub closed spec fn authors(&self) -> Seq<Seq<char>> {
        self.members_tokens_map.authors()
    }

    /// In well-formed statistics the count of a token in the global map is
    /// the sum of its counts in the frequency maps of the authors, each of
    /// whom the statistics hold once.
    pub proof fn lemma_cross_check(&self, t: Seq<char>)
        requires
            self.wf(),
        ensures
            self.authors().no_duplicates(),
            self.authors().to_set() == self@.by_author.dom(),
            count_in(self@.global, t) == count_over_authors(self@.by_author, self.authors(), t),
    {
        self.members_tokens_map.lemma_authors();
        let said = choose|said: Seq<Occurrence>| #[trigger]
            counts(said, self.tokens_map@, self.members_tokens_map@);
        lemma_cross_check(said, self.authors(), t);
    }

    /// In well-formed statistics the number of distinct tokens is the
    /// number of tokens that the global map holds.
    pub proof fn lemma_num_tokens(&self)
        requires
            self.wf(),
        ensures
            self@.num_tokens == self@.global.dom().len(),
    {
    }

    /// Puts the statistics together from two maps that count the same
    /// words, counting the tokens of the global map.
    pub fn assemble(tokens_map: FrequencyMap, members_tokens_map: AuthorTallies) -> (stats: Self)
        requires
            tokens_map.wf(),
            members_tokens_map.wf(),
            agree(tokens_map@, members_tokens_map@),
        ensures
            stats.wf(),
            stats@ == (StatisticsView {
                num_tokens: tokens_map@.dom().len(),
                global: tokens_map@,
                by_author: members_tokens_map@,
            }),
    {
        let num_tokens = tokens_map.len();
        ChatStatistics { num_tokens, members_tokens_map, tokens_map }
    }

    /// The number of distinct tokens.
    pub fn num_tokens(&self) -> (n: usize)
        ensures
            n == self@.num_tokens,
    {
        self.num_tokens
    }

    /// How often each token occurs in the chat.
    pub fn tokens_map(&self) -> (map: &FrequencyMap)
        ensures
            map@ == self@.global,
            self.wf() ==> map.wf(),
    {
        &self.tokens_map
    }

    /// For each author, how often each token occurs in what they wrote.
    pub fn members_tokens_map(&self) -> (map: &AuthorTallies)
        ensures
            map@ == self@.by_author,
            map.authors() == self.authors(),
            self.wf() ==> map.wf(),
    {
        &self.members_tokens_map
    }

    /// Tells whether `gather_with_workers` can be called on `chat` with
    /// `worker_count` workers: whether every counted message that a person
    /// wrote has an author, and the counted text is not longer than a
    /// counter can count.
    pub fn can_gather(chat: &Chat, worker_count: usize) -> (ready: bool)
        ensures
            ready == (worker_count >= 1 ==> authors_present(
                counted(chat.messages@, worker_count as nat),
            ) && text_volume(counted(chat.messages@, worker_count as nat)) <= usize::MAX),
    {
        if worker_count == 0 {
            return true;
        }
        let messages = chat.messages.as_slice();
        proof {
            lemma_covered(messages@.len(), worker_count as nat);
        }
        let size = messages.len() / worker_count;
        let end = worker_count * size;
        is_ready(slice_subrange(messages, 0, end))
    }

    /// Adds up what the workers counted and puts the statistics together:
    /// the maps of all the runs merged, in the order in which they stand in
    /// `chunks`, and the number of tokens of the merged global map.
    ///
    /// No count may grow past what a counter can hold.
    pub fn reduce(chunks: Vec<(FrequencyMap, AuthorTallies)>) -> (stats: Self)
        requires
            forall|k: int|
                0 <= k < chunks.len() ==> (#[trigger] chunks[k]).0.wf() && chunks[k].1.wf() && agree(
                    chunks[k].0@,
                    chunks[k].1@,
                ),
            forall|t: Seq<char>| count_in(merged_all(globals_of(chunks@)), t) <= usize::MAX,
            forall|a: Seq<char>, t: Seq<char>|
                count_in(tally_for(merged_all_by_author(by_authors_of(chunks@)), a), t)
                    <= usize::MAX,
        ensures
            stats.wf(),
            stats@ == (StatisticsView {
                num_tokens: merged_all(globals_of(chunks@)).dom().len(),
                global: merged_all(globals_of(chunks@)),
                by_author: merged_all_by_author(by_authors_of(chunks@)),
            }),
    {
        let ghost globals = globals_of(chunks@);
        let ghost by_authors = by_authors_of(chunks@);
        let ghost given = chunks@;
        let mut tokens_map = FrequencyMap::new();
        let mut members_tokens_map = AuthorTallies::new();
        proof {
            lemma_agree_empty();
        }
        for chunk in it: chunks
            invariant
                it.seq() == given,
                globals == globals_of(given),
                by_authors == by_authors_of(given),
                forall|k: int|
                    0 <= k < given.len() ==> (#[trigger] given[k]).0.wf() && given[k].1.wf() && agree(
                        given[k].0@,
                        given[k].1@,
                    ),
                forall|t: Seq<char>| count_in(merged_all(globals), t) <= usize::MAX,
                forall|a: Seq<char>, t: Seq<char>|
                    count_in(tally_for(merged_all_by_author(by_authors), a), t) <= usize::MAX,
                tokens_map.wf(),
                members_tokens_map.wf(),
                tokens_map@ == merged_all(globals.take(it.index())),
                members_tokens_map@ == merged_all_by_author(by_authors.take(it.index())),
                agree(tokens_map@, members_tokens_map@),
        {
            let ghost i = it.index();
            let (chunk_tokens_map, chunk_members_tokens_map) = chunk;
            proof {
                assert(given[i].0.wf() && given[i].1.wf() && agree(given[i].0@, given[i].1@));
                lemma_agree_merged(
                    tokens_map@,
                    members_tokens_map@,
                    chunk_tokens_map@,
                    chunk_members_tokens_map@,
                );
                assert(chunk_tokens_map@ == globals[i]);
                assert(chunk_members_tokens_map@ == by_authors[i]);
                assert forall|t: Seq<char>|
                    count_in(tokens_map@, t) + count_in(chunk_tokens_map@, t) <= usize::MAX by {
                    lemma_merged_all_bound(globals, i, t);
                }
                assert forall|a: Seq<char>, t: Seq<char>|
                    count_in(tally_for(members_tokens_map@, a), t) + count_in(
                        tally_for(chunk_members_tokens_map@, a),
                        t,
                    ) <= usize::MAX by {
                    lemma_merged_all_by_author_bound(by_authors, i, a, t);
                }
                lemma_merged_all_take(globals, i);
                lemma_merged_all_by_author_take(by_authors, i);
            }
            tokens_map.merge(chunk_tokens_map);
            members_tokens_map.merge(chunk_members_tokens_map);
        }
        assert(globals.take(globals.len() as int) =~= globals);
        assert(by_authors.take(by_authors.len() as int) =~= by_authors);
        Self::assemble(tokens_map, members_tokens_map)
    }

    /// Gathers the statistics of `chat` with `worker_count` workers. The
    /// messages are divided into one run for each worker, each run is
    /// counted by itself, and the counts are added up. Messages that belong
    /// to no run are not counted.
    ///
    /// Without a worker nothing is gathered. Every counted message that a
    /// person wrote must have an author, and the counted text must not be
    /// longer than a counter can count.
    pub fn gather_with_workers(chat: &Chat, worker_count: usize) -> (result: Result<
        Self,
        GatherError,
    >)
        requires
            worker_count >= 1 ==> authors_present(counted(chat.messages@, worker_count as nat)),
            worker_count >= 1 ==> text_volume(counted(chat.messages@, worker_count as nat))
                <= usize::MAX,
        ensures
            match result {
                Ok(stats) => worker_count >= 1 && stats.wf() && stats@ == statistics_of(
                    chat.messages@,
                    worker_count as nat,
                ),
                Err(error) => worker_count == 0 && error == GatherError::NoWorkers,
            },
    {
        if worker_count == 0 {
            return Err(GatherError::NoWorkers);
        }
        let messages = chat.messages.as_slice();
        let ghost msgs = chat.messages@;
        let ghost workers = worker_count as nat;
        let ghost size = chunk_size(msgs.len(), workers);
        let ghost all = counted(msgs, workers);
        let ranges = partition(messages.len(), worker_count);
        let mut chunks: Vec<(FrequencyMap, AuthorTallies)> = Vec::new();
        let mut i: usize = 0;
        proof {
            lemma_covered(msgs.len(), workers);
        }
        while i < worker_count
            invariant
                i <= worker_count,
                workers == worker_count,
                workers >= 1,
                msgs == messages@,
                size == chunk_size(msgs.len(), workers),
                all == counted(msgs, workers),
                authors_present(all),
                text_volume(all) <= usize::MAX,
                ranges.len() == worker_count,
                forall|k: int|
                    0 <= k < worker_count ==> (#[trigger] ranges[k]).start == k * size
                        && ranges[k].end == (k + 1) * size,
                chunks.len() == i,
                forall|k: int|
                    0 <= k < i ==> (#[trigger] chunks[k]).0.wf() && chunks[k].1.wf() && agree(
                        chunks[k].0@,
                        chunks[k].1@,
                    ),
                globals_of(chunks@) == run_tallies(msgs, size, i as nat),
                by_authors_of(chunks@) == run_tallies_by_author(msgs, size, i as nat),
            decreases worker_count - i,
        {
            let range = ranges[i];
            let ghost from = (i * size) as int;
            let ghost to = ((i + 1) * size) as int;
            proof {
                lemma_run_fits(msgs.len(), workers, i as nat);
                assert(all.subrange(from, to) =~= run(msgs, size, i as int));
                lemma_run_is_ready(all, from, to);
            }
            let chunk = slice_subrange(messages, range.start, range.end);
            let found = aggregate(chunk);
            let ghost before = chunks@;
            chunks.push(found);
            assert(globals_of(chunks@) =~= globals_of(before).push(found.0@));
            assert(by_authors_of(chunks@) =~= by_authors_of(before).push(found.1@));
            assert(run_tallies(msgs, size, (i + 1) as nat) =~= run_tallies(msgs, size, i as nat).push(
                found.0@,
            ));
            assert(run_tallies_by_author(msgs, size, (i + 1) as nat) =~= run_tallies_by_author(
                msgs,
                size,
                i as nat,
            ).push(found.1@));
            i = i + 1;
        }
        proof {
            let said = said_in(all);
            lemma_merged_runs(msgs, size, workers);
            lemma_said_in_len(all);
            assert forall|t: Seq<char>| count_in(tally_of(tokens_in(said)), t) <= usize::MAX by {
                lemma_tally_count(tokens_in(said), t);
            }
            assert forall|a: Seq<char>, t: Seq<char>|
                count_in(tally_for(tallies_by_author(said), a), t) <= usize::MAX by {
                lemma_said_by_len(said, a);
                lemma_tally_count(said_by(said, a), t);
            }
        }
        Ok(Self::reduce(chunks))
    }

    /// Gathers the statistics of `chat` with as many workers as the thread
    /// pool has threads, of which there is at least one. The statistics are
    /// what `gather_with_workers` gives for that number.
    ///
    /// Every message that a person wrote must have an author, and the text
    /// must not be longer than a counter can count.
    pub fn gather(chat: &Chat) -> (stats: Self)
        requires
            authors_present(chat.messages@),
            text_volume(chat.messages@) <= usize::MAX,
        ensures
            stats.wf(),
            exists|workers: nat|
                workers >= 1 && stats@ == #[trigger] statistics_of(chat.messages@, workers),
    {
        let worker_count = worker_threads();
        proof {
            lemma_covered(chat.messages@.len(), worker_count as nat);
            lemma_run_is_ready(
                chat.messages@,
                0,
                covered(chat.messages@.len(), worker_count as nat) as int,
            );
        }
        Self::gather_with_workers(chat, worker_count).unwrap()
    }
}

} // verus!
