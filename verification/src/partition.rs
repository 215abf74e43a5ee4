//! Dividing the messages among workers.
//!
//! Every worker gets a run of the same length, the number of messages
//! divided by the number of workers and rounded down. The runs follow one
//! another from the first message on. What is left over at the end belongs
//! to no run.

use vstd::prelude::*;

verus! {

/// A run of messages: those in the positions from `start` up to, and not
/// including, `end`.
#[derive(Debug, Clone, Copy, PartialEq, Eq, Structural)]
pub struct ChunkRange {
    pub start: usize,
    pub end: usize,
}

/// The length of each worker's run.
pub open spec fn chunk_size(len: nat, workers: nat) -> nat
    recommends
        workers >= 1,
{
    len / workers
}

/// The number of messages that belong to a run.
pub open spec fn covered(len: nat, workers: nat) -> nat
    recommends
        workers >= 1,
{
    workers * (len / workers)
}

/// The runs cover `len - len % workers` messages: as many as there are
/// messages when the workers divide them evenly, and otherwise all but the
/// last `len % workers`.
pub proof fn lemma_covered(len: nat, workers: nat)
    requires
        workers >= 1,
    ensures
        covered(len, workers) == len - len % workers,
        covered(len, workers) <= len,
        len % workers == 0 ==> covered(len, workers) == len,
        len % workers < workers,
{
    assert(len == workers * (len / workers) + len % workers && 0 <= len % workers < workers)
        by (nonlinear_arith)
        requires
            workers >= 1,
    ;
}

/// The first `i + 1` runs end at or before the last covered message.
pub proof fn lemma_run_fits(len: nat, workers: nat, i: nat)
    requires
        i < workers,
    ensures
        i * chunk_size(len, workers) + chunk_size(len, workers) == (i + 1) * chunk_size(
            len,
            workers,
        ),
        (i + 1) * chunk_size(len, workers) <= covered(len, workers),
        covered(len, workers) <= len,
{
    let size = len / workers;
    lemma_covered(len, workers);
    assert(i * size + size == (i + 1) * size && (i + 1) * size <= workers * size)
        by (nonlinear_arith)
        requires
            i < workers,
            size >= 0,
    ;
}

/// Divides `len` messages among `worker_count` workers: one run for each,
/// all of length `len / worker_count`, one after the other from position 0.
pub fn partition(len: usize, worker_count: usize) -> (ranges: Vec<ChunkRange>)
    requires
        worker_count >= 1,
    ensures
        ranges.len() == worker_count,
        forall|i: int|
            0 <= i < worker_count ==> (#[trigger] ranges[i]).start == i * chunk_size(
                len as nat,
                worker_count as nat,
            ) && ranges[i].end == (i + 1) * chunk_size(len as nat, worker_count as nat),
{
    let size = len / worker_count;
    let mut ranges: Vec<ChunkRange> = Vec::new();
    let mut start: usize = 0;
    let mut i: usize = 0;
    while i < worker_count
        invariant
            i <= worker_count,
            size == chunk_size(len as nat, worker_count as nat),
            start == i * size,
            ranges.len() == i,
            forall|k: int|
                0 <= k < i ==> (#[trigger] ranges[k]).start == k * size && ranges[k].end == (k + 1)
                    * size,
        decreases worker_count - i,
    {
        proof {
            lemma_run_fits(len as nat, worker_count as nat, i as nat);
        }
        let end = start + size;
        ranges.push(ChunkRange { start, end });
        start = end;
        i = i + 1;
    }
    ranges
}

} // verus!
