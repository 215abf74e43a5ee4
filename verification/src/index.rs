//! An index over a row of texts.
//!
//! Finding a text in a long row by comparing it with every entry is slow.
//! The index sorts the positions of the row into buckets by a number that
//! is computed from the characters of the text, so that only the entries in
//! one bucket are left to compare.

use crate::tokenize::token_texts;
use crate::model::Token;
use vstd::prelude::*;

verus! {

/// The number of buckets.
pub const BUCKETS: usize = 1024;

/// The bucket of a text: a number below `BUCKETS` that depends on the
/// characters of the text alone.
pub open spec fn bucket_of(text: Seq<char>) -> nat
    decreases text.len(),
{
    if text.len() == 0 {
        0
    } else {
        ((bucket_of(text.drop_last()) * 31 + text.last() as u32) % (BUCKETS as int)) as nat
    }
}

/// Computes the bucket of `text`.
pub fn bucket(text: &str) -> (b: usize)
    ensures
        b == bucket_of(text@),
        b < BUCKETS,
{
    let mut b: usize = 0;
    let ghost s = text@;
    assert(s.take(0) =~= Seq::<char>::empty());
    for c in it: text.chars()
        invariant
            s == text@,
            it.seq() == s,
            b == bucket_of(s.take(it.index())),
            b < BUCKETS,
    {
        proof {
            let i = it.index();
            assert(s.take(i + 1).drop_last() =~= s.take(i));
            assert(s.take(i + 1).last() == c);
            vstd::utf8::char_is_scalar(c);
        }
        b = (b * 31 + c as u32 as usize) % BUCKETS;
    }
    assert(s.take(s.len() as int) =~= s);
    b
}

/// For each bucket, the positions of the texts that fall into it.
#[derive(Debug)]
pub struct Index {
    slots: Vec<Vec<usize>>,
}

impl Index {
    /// The index covers the row `keys`: every position of the row stands
    /// in the bucket of its text, and no other number stands in any
    /// bucket.
    pub closed spec fn covers(&self, keys: Seq<Seq<char>>) -> bool {
        &&& self.slots.len() == BUCKETS
        &&& forall|b: int, j: int|
            0 <= b < self.slots.len() && 0 <= j < self.slots[b].len() ==> #[trigger] self.slots[b][j]
                < keys.len()
        &&& forall|i: int|
            0 <= i < keys.len() ==> self.slots[bucket_of(#[trigger] keys[i]) as int]@.contains(
                i as usize,
            )
    }

    /// An index over the empty row.
    pub fn new() -> (index: Index)
        ensures
            index.covers(Seq::empty()),
    {
        let mut slots: Vec<Vec<usize>> = Vec::new();
        let mut b: usize = 0;
        while b < BUCKETS
            invariant
                b <= BUCKETS,
                slots.len() == b,
                forall|k: int| 0 <= k < b ==> (#[trigger] slots[k]).len() == 0,
            decreases BUCKETS - b,
        {
            slots.push(Vec::new());
            b = b + 1;
        }
        Index { slots }
    }

    /// Takes note of `text`, which is about to be put at the end of the
    /// row, in position `at`.
    pub fn note(&mut self, text: &str, at: usize, Ghost(keys): Ghost<Seq<Seq<char>>>)
        requires
            old(self).covers(keys),
            at == keys.len(),
        ensures
            final(self).covers(keys.push(text@)),
    {
        let b = bucket(text);
        let ghost before = self.slots@;
        self.slots[b].push(at);
        proof {
            let more = keys.push(text@);
            assert forall|i: int| 0 <= i < more.len() implies self.slots[bucket_of(
                #[trigger] more[i],
            ) as int]@.contains(i as usize) by {
                let c = bucket_of(more[i]) as int;
                if i < keys.len() {
                    assert(more[i] == keys[i]);
                    let j = before[c]@.index_of(i as usize);
                    assert(before[c]@[j] == i as usize);
                    assert(self.slots[c]@[j] == i as usize);
                } else {
                    assert(self.slots[c]@[before[c]@.len() as int] == at);
                }
            }
        }
    }

    /// An index over the texts of `tokens`.
    pub fn of(tokens: &Vec<Token>) -> (index: Index)
        ensures
            index.covers(token_texts(tokens@)),
    {
        let mut index = Index::new();
        let n = tokens.len();
        let mut i: usize = 0;
        let ghost keys = token_texts(tokens@);
        assert(keys.take(0) =~= Seq::<Seq<char>>::empty());
        while i < n
            invariant
                n == tokens.len(),
                i <= n,
                keys == token_texts(tokens@),
                index.covers(keys.take(i as int)),
            decreases n - i,
        {
            index.note(tokens[i].0.as_str(), i, Ghost(keys.take(i as int)));
            assert(keys.take(i as int).push(keys[i as int]) =~= keys.take(i + 1));
            i = i + 1;
        }
        assert(keys.take(n as int) =~= keys);
        index
    }

    /// The positions at which `text` can stand in the row: every position
    /// of the row that holds `text` is among them, and all of them are
    /// positions of the row.
    pub fn candidates(&self, text: &str, Ghost(keys): Ghost<Seq<Seq<char>>>) -> (found: &Vec<usize>)
        requires
            self.covers(keys),
        ensures
            forall|j: int| 0 <= j < found.len() ==> #[trigger] found[j] < keys.len(),
            forall|i: int|
                0 <= i < keys.len() && #[trigger] keys[i] == text@ ==> found@.contains(i as usize),
    {
        let b = bucket(text);
        &self.slots[b]
    }
}

} // verus!
