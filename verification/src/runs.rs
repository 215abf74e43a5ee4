//! Counting run by run.
//!
//! The messages that are counted are cut into runs of one length. Counting
//! each run by itself and adding the maps up gives the maps of all the
//! messages in the runs, in whatever order the maps are added.

use crate::authors::{lemma_merge_order_by_author, merged_all_by_author};
use crate::counting::{
    lemma_by_author_concat, lemma_said_in_concat, lemma_tally_concat, lemma_tally_of_nothing,
    lemma_tokens_in_concat, said_in, tallies_by_author, tally_of, tokens_in,
};
use crate::model::Message;
use crate::tally::{lemma_merge_order, merged_all};
use vstd::prelude::*;

verus! {

/// The messages of run `i`, where every run has `size` messages.
pub open spec fn run(msgs: Seq<Message>, size: nat, i: int) -> Seq<Message> {
    msgs.subrange(i * size, (i + 1) * size)
}

/// The global maps of the first `n` runs of `size` messages, each run
/// counted by itself.
pub open spec fn run_tallies(msgs: Seq<Message>, size: nat, n: nat) -> Seq<Map<Seq<char>, nat>> {
    Seq::new(n, |i: int| tally_of(tokens_in(said_in(run(msgs, size, i)))))
}

/// The per-author maps of the first `n` runs of `size` messages, each run
/// counted by itself.
pub open spec fn run_tallies_by_author(msgs: Seq<Message>, size: nat, n: nat) -> Seq<
    Map<Seq<char>, Map<Seq<char>, nat>>,
> {
    Seq::new(n, |i: int| tallies_by_author(said_in(run(msgs, size, i))))
}

/// Counting the messages run by run and adding the counts up gives what
/// counting them in one go gives: no occurrence is lost and none is counted
/// twice, however long the runs are.
pub proof fn lemma_merged_runs(msgs: Seq<Message>, size: nat, n: nat)
    requires
        n * size <= msgs.len(),
    ensures
        merged_all(run_tallies(msgs, size, n)) == tally_of(
            tokens_in(said_in(msgs.take((n * size) as int))),
        ),
        merged_all_by_author(run_tallies_by_author(msgs, size, n)) == tallies_by_author(
            said_in(msgs.take((n * size) as int)),
        ),
    decreases n,
{
    if n == 0 {
        assert(0 * size == 0) by (nonlinear_arith);
        lemma_tally_of_nothing();
        assert(tokens_in(said_in(msgs.take(0))) =~= Seq::empty());
        assert(tallies_by_author(said_in(msgs.take(0))) =~= Map::empty());
    } else {
        let from = (n - 1) * size;
        let to = (n * size) as int;
        assert(from + size == to && 0 <= from) by (nonlinear_arith)
            requires
                from == (n - 1) * size,
                to == n * size,
                n >= 1,
        ;
        lemma_merged_runs(msgs, size, (n - 1) as nat);
        let before = msgs.take(from);
        let last = run(msgs, size, n - 1);
        assert(last == msgs.subrange(from, to));
        assert(msgs.take(to) =~= before + last);
        assert(run_tallies(msgs, size, n).drop_last() =~= run_tallies(msgs, size, (n - 1) as nat));
        assert(run_tallies_by_author(msgs, size, n).drop_last() =~= run_tallies_by_author(
            msgs,
            size,
            (n - 1) as nat,
        ));
        lemma_said_in_concat(before, last);
        lemma_tokens_in_concat(said_in(before), said_in(last));
        lemma_tally_concat(tokens_in(said_in(before)), tokens_in(said_in(last)));
        lemma_by_author_concat(said_in(before), said_in(last));
    }
}

/// The maps of the runs, added up in whatever order the workers hand them
/// in, are the maps of all the messages in the runs.
pub proof fn lemma_runs_in_any_order(
    msgs: Seq<Message>,
    size: nat,
    n: nat,
    handed_in: Seq<Map<Seq<char>, nat>>,
    handed_in_by_author: Seq<Map<Seq<char>, Map<Seq<char>, nat>>>,
)
    requires
        n * size <= msgs.len(),
        handed_in.to_multiset() == run_tallies(msgs, size, n).to_multiset(),
        handed_in_by_author.to_multiset() == run_tallies_by_author(msgs, size, n).to_multiset(),
    ensures
        merged_all(handed_in) == tally_of(tokens_in(said_in(msgs.take((n * size) as int)))),
        merged_all_by_author(handed_in_by_author) == tallies_by_author(
            said_in(msgs.take((n * size) as int)),
        ),
{
    lemma_merged_runs(msgs, size, n);
    lemma_merge_order(handed_in, run_tallies(msgs, size, n));
    lemma_merge_order_by_author(handed_in_by_author, run_tallies_by_author(msgs, size, n));
}

} // verus!
