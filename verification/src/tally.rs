//! The frequency map: how often each token occurs.
//!
//! The map keeps its tokens in the order in which they were first counted,
//! each beside its count. No token is kept twice and no count is zero. Once
//! the map has grown beyond a few tokens it also keeps an index, so that a
//! token is found without going through all of them.

use crate::assoc::{
    lemma_table_at, lemma_table_dom, lemma_table_push, lemma_table_take, lemma_table_update, table,
};
use crate::index::Index;
use crate::model::Token;
use crate::sums::{is_associative, is_commutative, lemma_sum_in_any_order, sum_of};
use crate::tokenize::token_texts;
use vstd::prelude::*;

verus! {

/// How often `t` occurs according to `m`: its count, or zero if `m` does not
/// hold it.
pub open spec fn count_in(m: Map<Seq<char>, nat>, t: Seq<char>) -> nat {
    if m.dom().contains(t) {
        m[t]
    } else {
        0
    }
}

/// `m` after `n` more occurrences of `t`.
pub open spec fn added(m: Map<Seq<char>, nat>, t: Seq<char>, n: nat) -> Map<Seq<char>, nat> {
    m.insert(t, count_in(m, t) + n)
}

/// The sum of two maps: every token of either, with its two counts added.
pub open spec fn merged(a: Map<Seq<char>, nat>, b: Map<Seq<char>, nat>) -> Map<Seq<char>, nat> {
    Map::new(
        |t: Seq<char>| a.dom().contains(t) || b.dom().contains(t),
        |t: Seq<char>| count_in(a, t) + count_in(b, t),
    )
}

/// What holds of every frequency map: it has finitely many tokens, and each
/// occurs at least once.
pub open spec fn is_tally(m: Map<Seq<char>, nat>) -> bool {
    &&& m.dom().finite()
    &&& forall|t: Seq<char>| m.dom().contains(t) ==> #[trigger] m[t] >= 1
}

/// The counts as natural numbers, one for one.
pub open spec fn as_nats(counts: Seq<usize>) -> Seq<nat> {
    Seq::new(counts.len(), |i: int| counts[i] as nat)
}

/// The number of tokens from which on a map keeps an index.
pub const INDEXED_FROM: usize = 32;

/// A count of occurrences for each token.
#[derive(Debug)]
pub struct FrequencyMap {
    tokens: Vec<Token>,
    counts: Vec<usize>,
    index: Option<Index>,
}

impl View for FrequencyMap {
    type V = Map<Seq<char>, nat>;

    closed spec fn view(&self) -> Map<Seq<char>, nat> {
        table(token_texts(self.tokens@), as_nats(self.counts@))
    }
}

impl FrequencyMap {
    /// The tokens of the map, in the order in which they were first counted.
    pub closed spec fn keys(&self) -> Seq<Seq<char>> {
        token_texts(self.tokens@)
    }

    /// The map is well formed: one count for each token, no token twice, no
    /// count of zero, and an index, if there is one, that covers the tokens.
    pub closed spec fn wf(&self) -> bool {
        &&& self.tokens.len() == self.counts.len()
        &&& self.keys().no_duplicates()
        &&& forall|i: int| 0 <= i < self.counts.len() ==> #[trigger] self.counts[i] >= 1
        &&& self.index matches Some(index) ==> index.covers(self.keys())
    }

    /// A well-formed map holds each of its keys once, and they are all its
    /// tokens; each count is at least one and fits a `usize`.
    pub proof fn lemma_keys(&self)
        requires
            self.wf(),
        ensures
            self.keys().no_duplicates(),
            self.keys().to_set() == self@.dom(),
            self@.dom().len() == self.keys().len(),
            is_tally(self@),
            forall|t: Seq<char>| #[trigger] count_in(self@, t) <= usize::MAX,
    {
        let keys = self.keys();
        let counts = as_nats(self.counts@);
        lemma_table_dom(keys, counts);
        assert forall|t: Seq<char>| self@.dom().contains(t) implies 1 <= #[trigger] self@[t]
            <= usize::MAX by {
            let i = keys.index_of(t);
            assert(self.counts[i] >= 1);
        }
    }

    /// A map without tokens.
    pub fn new() -> (map: FrequencyMap)
        ensures
            map.wf(),
            map@ == Map::<Seq<char>, nat>::empty(),
    {
        let map = FrequencyMap { tokens: Vec::new(), counts: Vec::new(), index: None };
        assert(map@ =~= Map::<Seq<char>, nat>::empty());
        map
    }

    /// The number of distinct tokens.
    pub fn len(&self) -> (n: usize)
        requires
            self.wf(),
        ensures
            n == self@.dom().len(),
            n == self.keys().len(),
    {
        proof {
            self.lemma_keys();
        }
        self.tokens.len()
    }

    /// The token in position `i`, in the order of first counting.
    pub fn token_at(&self, i: usize) -> (token: &Token)
        requires
            self.wf(),
            i < self.keys().len(),
        ensures
            token@ == self.keys()[i as int],
            self@.dom().contains(token@),
    {
        proof {
            lemma_table_at(self.keys(), as_nats(self.counts@), i as int);
        }
        &self.tokens[i]
    }

    /// The count of the token in position `i`.
    pub fn count_at(&self, i: usize) -> (count: usize)
        requires
            self.wf(),
            i < self.keys().len(),
        ensures
            count == self@[self.keys()[i as int]],
            count >= 1,
    {
        proof {
            lemma_table_at(self.keys(), as_nats(self.counts@), i as int);
        }
        self.counts[i]
    }

    /// Where `token` is kept, if it is.
    fn position(&self, token: &Token) -> (found: Option<usize>)
        requires
            self.wf(),
        ensures
            match found {
                Some(i) => i < self.tokens.len() && self.keys()[i as int] == token@,
                None => !self.keys().contains(token@),
            },
    {
        match &self.index {
            Some(index) => {
                let at = index.candidates(token.0.as_str(), Ghost(self.keys()));
                let n = at.len();
                let mut j: usize = 0;
                while j < n
                    invariant
                        n == at.len(),
                        j <= n,
                        forall|k: int| 0 <= k < at.len() ==> #[trigger] at[k] < self.tokens.len(),
                        forall|k: int| 0 <= k < j ==> self.keys()[at[k] as int] != token@,
                    decreases n - j,
                {
                    let i = at[j];
                    if self.tokens[i].0 == token.0 {
                        return Some(i);
                    }
                    j = j + 1;
                }
                proof {
                    if self.keys().contains(token@) {
                        let i = self.keys().index_of(token@);
                        let k = at@.index_of(i as usize);
                        assert(at[k] == i);
                    }
                }
                None
            },
            None => {
                let n = self.tokens.len();
                let mut i: usize = 0;
                while i < n
                    invariant
                        n == self.tokens.len(),
                        i <= n,
                        forall|k: int| 0 <= k < i ==> self.keys()[k] != token@,
                    decreases n - i,
                {
                    if self.tokens[i].0 == token.0 {
                        return Some(i);
                    }
                    i = i + 1;
                }
                None
            },
        }
    }

    /// How often `token` has been counted: `None` if never.
    pub fn get(&self, token: &Token) -> (count: Option<usize>)
        requires
            self.wf(),
        ensures
            match count {
                Some(n) => self@.dom().contains(token@) && self@[token@] == n && n >= 1,
                None => !self@.dom().contains(token@),
            },
    {
        match self.position(token) {
            Some(i) => {
                proof {
                    lemma_table_at(self.keys(), as_nats(self.counts@), i as int);
                }
                Some(self.counts[i])
            },
            None => None,
        }
    }

    /// Counts `occurrences` more of `token`.
    pub fn add(&mut self, token: Token, occurrences: usize)
        requires
            old(self).wf(),
            occurrences >= 1,
            count_in(old(self)@, token@) + occurrences <= usize::MAX,
        ensures
            final(self).wf(),
            final(self)@ == added(old(self)@, token@, occurrences as nat),
    {
        let ghost keys = self.keys();
        let ghost counts = self.counts@;
        match self.position(&token) {
            Some(i) => {
                proof {
                    lemma_table_at(keys, as_nats(counts), i as int);
                    lemma_table_update(
                        keys,
                        as_nats(counts),
                        i as int,
                        (counts[i as int] + occurrences) as nat,
                    );
                }
                let count = self.counts[i];
                self.counts.set(i, count + occurrences);
                assert(as_nats(self.counts@) =~= as_nats(counts).update(
                    i as int,
                    (counts[i as int] + occurrences) as nat,
                ));
            },
            None => {
                proof {
                    lemma_table_push(keys, as_nats(counts), token@, occurrences as nat);
                }
                let at = self.tokens.len();
                match &mut self.index {
                    Some(index) => {
                        index.note(token.0.as_str(), at, Ghost(keys));
                    },
                    None => {},
                }
                self.tokens.push(token);
                self.counts.push(occurrences);
                assert(self.keys() =~= keys.push(token@));
                assert(as_nats(self.counts@) =~= as_nats(counts).push(occurrences as nat));
                if self.index.is_none() && self.tokens.len() >= INDEXED_FROM {
                    self.index = Some(Index::of(&self.tokens));
                }
            },
        }
    }

    /// Counts one more occurrence of `token`.
    pub fn bump(&mut self, token: Token)
        requires
            old(self).wf(),
            count_in(old(self)@, token@) < usize::MAX,
        ensures
            final(self).wf(),
            final(self)@ == added(old(self)@, token@, 1),
    {
        self.add(token, 1);
    }

    /// Adds the counts of `delta` to this map: a token that both hold gets
    /// the sum of its two counts, a token that only `delta` holds comes over
    /// with its count.
    pub fn merge(&mut self, delta: FrequencyMap)
        requires
            old(self).wf(),
            delta.wf(),
            forall|t: Seq<char>| count_in(old(self)@, t) + count_in(delta@, t) <= usize::MAX,
        ensures
            final(self).wf(),
            final(self)@ == merged(old(self)@, delta@),
    {
        let ghost start = self@;
        let ghost keys = delta.keys();
        let ghost counts = as_nats(delta.counts@);
        assert(delta@ == table(keys, counts));
        let FrequencyMap { tokens, counts: numbers, index: _ } = delta;
        let mut i: usize = 0;
        assert(table(keys.take(0), counts.take(0)) =~= Map::<Seq<char>, nat>::empty());
        assert(self@ =~= merged(start, table(keys.take(0), counts.take(0))));
        for token in it: tokens
            invariant
                i == it.index(),
                it.seq().len() == keys.len(),
                forall|k: int| 0 <= k < keys.len() ==> keys[k] == (#[trigger] it.seq()[k])@,
                as_nats(numbers@) == counts,
                numbers.len() == keys.len(),
                keys.no_duplicates(),
                forall|k: int| 0 <= k < numbers.len() ==> #[trigger] numbers[k] >= 1,
                forall|t: Seq<char>| count_in(start, t) + count_in(table(keys, counts), t) <= usize::MAX,
                self.wf(),
                self@ == merged(start, table(keys.take(i as int), counts.take(i as int))),
        {
            proof {
                assert(i < keys.len());
                lemma_table_take(keys, counts, i as int);
                lemma_table_at(keys, counts, i as int);
                assert(count_in(start, keys[i as int]) + count_in(table(keys, counts), keys[i as int])
                    <= usize::MAX);
                lemma_merged_insert(
                    start,
                    table(keys.take(i as int), counts.take(i as int)),
                    keys[i as int],
                    counts[i as int],
                );
            }
            self.add(token, numbers[i]);
            i = i + 1;
        }
        assert(keys.take(keys.len() as int) =~= keys);
        assert(counts.take(counts.len() as int) =~= counts);
    }
}

/// Merging in a map with one more token is merging and then adding that
/// token's count.
proof fn lemma_merged_insert(a: Map<Seq<char>, nat>, b: Map<Seq<char>, nat>, t: Seq<char>, n: nat)
    requires
        !b.dom().contains(t),
    ensures
        merged(a, b.insert(t, n)) == added(merged(a, b), t, n),
        count_in(merged(a, b), t) == count_in(a, t),
{
    assert(merged(a, b.insert(t, n)) =~= added(merged(a, b), t, n));
}

/// The frequency maps added up.
pub open spec fn merged_all(parts: Seq<Map<Seq<char>, nat>>) -> Map<Seq<char>, nat> {
    sum_of(parts, Map::empty(), |a: Map<Seq<char>, nat>, b: Map<Seq<char>, nat>| merged(a, b))
}

/// The sum of the first `i + 1` frequency maps is the sum of the first `i`
/// and the next one.
pub proof fn lemma_merged_all_take(parts: Seq<Map<Seq<char>, nat>>, i: int)
    requires
        0 <= i < parts.len(),
    ensures
        merged_all(parts.take(i + 1)) == merged(merged_all(parts.take(i)), parts[i]),
{
    assert(parts.take(i + 1).drop_last() =~= parts.take(i));
}

/// In a sum of frequency maps no count is smaller than in the sum of the
/// first `i + 1` of them.
pub proof fn lemma_merged_all_bound(parts: Seq<Map<Seq<char>, nat>>, i: int, t: Seq<char>)
    requires
        0 <= i < parts.len(),
    ensures
        count_in(merged_all(parts.take(i)), t) + count_in(parts[i], t) <= count_in(
            merged_all(parts),
            t,
        ),
    decreases parts.len(),
{
    lemma_merged_all_take(parts, i);
    if i == parts.len() - 1 {
        assert(parts.take(i + 1) =~= parts);
    } else {
        let init = parts.drop_last();
        assert(init.take(i) =~= parts.take(i));
        lemma_merged_all_bound(init, i, t);
    }
}

/// Adding two frequency maps gives the same whichever comes first.
pub proof fn lemma_merged_commutative(a: Map<Seq<char>, nat>, b: Map<Seq<char>, nat>)
    ensures
        merged(a, b) == merged(b, a),
{
    assert(merged(a, b) =~= merged(b, a));
}

/// Adding three frequency maps gives the same however they are grouped.
pub proof fn lemma_merged_associative(
    a: Map<Seq<char>, nat>,
    b: Map<Seq<char>, nat>,
    c: Map<Seq<char>, nat>,
)
    ensures
        merged(merged(a, b), c) == merged(a, merged(b, c)),
{
    assert(merged(merged(a, b), c) =~= merged(a, merged(b, c)));
}

/// Frequency maps add up to the same in whatever order they are added: it
/// does not matter which worker is done first.
pub proof fn lemma_merge_order(first: Seq<Map<Seq<char>, nat>>, second: Seq<Map<Seq<char>, nat>>)
    requires
        first.to_multiset() == second.to_multiset(),
    ensures
        merged_all(first) == merged_all(second),
{
    let plus = |a: Map<Seq<char>, nat>, b: Map<Seq<char>, nat>| merged(a, b);
    assert(is_commutative(plus)) by {
        assert forall|a: Map<Seq<char>, nat>, b: Map<Seq<char>, nat>| #[trigger]
            plus(a, b) == plus(b, a) by {
            lemma_merged_commutative(a, b);
        }
    }
    assert(is_associative(plus)) by {
        assert forall|a: Map<Seq<char>, nat>, b: Map<Seq<char>, nat>, c: Map<Seq<char>, nat>| #[trigger]
            plus(plus(a, b), c) == plus(a, plus(b, c)) by {
            lemma_merged_associative(a, b, c);
        }
    }
    lemma_sum_in_any_order(first, second, Map::empty(), plus);
}

} // verus!
