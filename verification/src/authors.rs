//! The per-author map: a frequency map for each author who said a word.
//!
//! The map keeps its authors in the order in which they first said a word.
//! No author is kept twice. Like the frequency map it keeps an index once
//! it has grown beyond a few authors.

use crate::assoc::{
    lemma_table_at, lemma_table_dom, lemma_table_push, lemma_table_take, lemma_table_update, table,
};
use crate::index::Index;
use crate::model::{Person, Token};
use crate::sums::{is_associative, is_commutative, lemma_sum_in_any_order, sum_of};
use crate::tally::{
    added, count_in, is_tally, lemma_merged_associative, lemma_merged_commutative, merged,
    FrequencyMap, INDEXED_FROM,
};
use vstd::prelude::*;

verus! {

/// The frequency map of author `a` according to `m`: empty if `m` does not
/// hold the author.
pub open spec fn tally_for(m: Map<Seq<char>, Map<Seq<char>, nat>>, a: Seq<char>) -> Map<
    Seq<char>,
    nat,
> {
    if m.dom().contains(a) {
        m[a]
    } else {
        Map::empty()
    }
}

/// `m` after author `a` said token `t` once more.
pub open spec fn recorded(m: Map<Seq<char>, Map<Seq<char>, nat>>, a: Seq<char>, t: Seq<char>) -> Map<
    Seq<char>,
    Map<Seq<char>, nat>,
> {
    m.insert(a, added(tally_for(m, a), t, 1))
}

/// The sum of two per-author maps: every author of either, with the sum of
/// the author's two frequency maps.
pub open spec fn merged_by_author(
    a: Map<Seq<char>, Map<Seq<char>, nat>>,
    b: Map<Seq<char>, Map<Seq<char>, nat>>,
) -> Map<Seq<char>, Map<Seq<char>, nat>> {
    Map::new(
        |who: Seq<char>| a.dom().contains(who) || b.dom().contains(who),
        |who: Seq<char>| merged(tally_for(a, who), tally_for(b, who)),
    )
}

/// What holds of every per-author map: it has finitely many authors, and
/// each has a frequency map.
pub open spec fn are_tallies(m: Map<Seq<char>, Map<Seq<char>, nat>>) -> bool {
    &&& m.dom().finite()
    &&& forall|a: Seq<char>| m.dom().contains(a) ==> is_tally(#[trigger] m[a])
}

/// The names in a row of entries, one for one.
pub open spec fn names_of(entries: Seq<(Person, FrequencyMap)>) -> Seq<Seq<char>> {
    Seq::new(entries.len(), |i: int| entries[i].0@)
}

/// The frequency maps in a row of entries, one for one.
pub open spec fn tallies_of(entries: Seq<(Person, FrequencyMap)>) -> Seq<Map<Seq<char>, nat>> {
    Seq::new(entries.len(), |i: int| entries[i].1@)
}

/// A frequency map for each author.
#[derive(Debug)]
pub struct AuthorTallies {
    entries: Vec<(Person, FrequencyMap)>,
    index: Option<Index>,
}

impl View for AuthorTallies {
    type V = Map<Seq<char>, Map<Seq<char>, nat>>;

    closed spec fn view(&self) -> Map<Seq<char>, Map<Seq<char>, nat>> {
        table(names_of(self.entries@), tallies_of(self.entries@))
    }
}

impl AuthorTallies {
    /// The authors of the map, in the order in which they first said a word.
    pub closed spec fn authors(&self) -> Seq<Seq<char>> {
        names_of(self.entries@)
    }

    /// The map is well formed: no author twice, each frequency map well
    /// formed, and an index, if there is one, that covers the authors.
    pub closed spec fn wf(&self) -> bool {
        &&& self.authors().no_duplicates()
        &&& forall|i: int| 0 <= i < self.entries.len() ==> (#[trigger] self.entries[i]).1.wf()
        &&& self.index matches Some(index) ==> index.covers(self.authors())
    }

    /// A well-formed map holds each of its authors once, and they are all
    /// its authors; each has a frequency map, in which every count fits a
    /// `usize`.
    pub proof fn lemma_authors(&self)
        requires
            self.wf(),
        ensures
            self.authors().no_duplicates(),
            self.authors().to_set() == self@.dom(),
            self@.dom().len() == self.authors().len(),
            are_tallies(self@),
            forall|a: Seq<char>, t: Seq<char>| #[trigger]
                count_in(tally_for(self@, a), t) <= usize::MAX,
    {
        let names = self.authors();
        let tallies = tallies_of(self.entries@);
        lemma_table_dom(names, tallies);
        assert forall|a: Seq<char>| self@.dom().contains(a) implies is_tally(#[trigger] self@[a])
            && forall|t: Seq<char>| #[trigger] count_in(self@[a], t) <= usize::MAX by {
            let i = names.index_of(a);
            self.entries[i].1.lemma_keys();
        }
        assert forall|a: Seq<char>, t: Seq<char>| #[trigger]
            count_in(tally_for(self@, a), t) <= usize::MAX by {
            if self@.dom().contains(a) {
                assert(is_tally(self@[a]));
            }
        }
    }

    /// A map without authors.
    pub fn new() -> (map: AuthorTallies)
        ensures
            map.wf(),
            map@ == Map::<Seq<char>, Map<Seq<char>, nat>>::empty(),
    {
        let map = AuthorTallies { entries: Vec::new(), index: None };
        assert(map@ =~= Map::<Seq<char>, Map<Seq<char>, nat>>::empty());
        map
    }

    /// The number of authors.
    pub fn len(&self) -> (n: usize)
        requires
            self.wf(),
        ensures
            n == self@.dom().len(),
            n == self.authors().len(),
    {
        proof {
            self.lemma_authors();
        }
        self.entries.len()
    }

    /// The author in position `i`, in the order of first speaking.
    pub fn author_at(&self, i: usize) -> (author: &Person)
        requires
            self.wf(),
            i < self.authors().len(),
        ensures
            author@ == self.authors()[i as int],
            self@.dom().contains(author@),
    {
        proof {
            lemma_table_at(self.authors(), tallies_of(self.entries@), i as int);
        }
        &self.entries[i].0
    }

    /// The frequency map of the author in position `i`.
    pub fn tally_at(&self, i: usize) -> (tally: &FrequencyMap)
        requires
            self.wf(),
            i < self.authors().len(),
        ensures
            tally.wf(),
            tally@ == self@[self.authors()[i as int]],
    {
        proof {
            lemma_table_at(self.authors(), tallies_of(self.entries@), i as int);
        }
        &self.entries[i].1
    }

    /// Where `author` is kept, if they are.
    fn position(&self, author: &Person) -> (found: Option<usize>)
        requires
            self.wf(),
        ensures
            match found {
                Some(i) => i < self.entries.len() && self.authors()[i as int] == author@,
                None => !self.authors().contains(author@),
            },
    {
        match &self.index {
            Some(index) => {
                let at = index.candidates(author.0.as_str(), Ghost(self.authors()));
                let n = at.len();
                let mut j: usize = 0;
                while j < n
                    invariant
                        n == at.len(),
                        j <= n,
                        forall|k: int| 0 <= k < at.len() ==> #[trigger] at[k] < self.entries.len(),
                        forall|k: int| 0 <= k < j ==> self.authors()[at[k] as int] != author@,
                    decreases n - j,
                {
                    let i = at[j];
                    if self.entries[i].0.0 == author.0 {
                        return Some(i);
                    }
                    j = j + 1;
                }
                proof {
                    if self.authors().contains(author@) {
                        let i = self.authors().index_of(author@);
                        let k = at@.index_of(i as usize);
                        assert(at[k] == i);
                    }
                }
                None
            },
            None => {
                let n = self.entries.len();
                let mut i: usize = 0;
                while i < n
                    invariant
                        n == self.entries.len(),
                        i <= n,
                        forall|k: int| 0 <= k < i ==> self.authors()[k] != author@,
                    decreases n - i,
                {
                    if self.entries[i].0.0 == author.0 {
                        return Some(i);
                    }
                    i = i + 1;
                }
                None
            },
        }
    }

    /// Puts a new author with their frequency map at the end.
    fn push(&mut self, author: Person, tally: FrequencyMap)
        requires
            old(self).wf(),
            tally.wf(),
            !old(self).authors().contains(author@),
        ensures
            final(self).wf(),
            final(self).entries@ == old(self).entries@.push((author, tally)),
    {
        let ghost names = self.authors();
        let ghost before = self.entries@;
        proof {
            lemma_table_push(names, tallies_of(before), author@, tally@);
        }
        let at = self.entries.len();
        match &mut self.index {
            Some(index) => {
                index.note(author.0.as_str(), at, Ghost(names));
            },
            None => {},
        }
        self.entries.push((author, tally));
        assert(names_of(self.entries@) =~= names.push(author@));
        assert forall|k: int| 0 <= k < self.entries.len() implies (#[trigger] self.entries[
            k
        ]).1.wf() by {
            if k < before.len() {
                assert(self.entries[k] == before[k]);
            }
        }
        if self.index.is_none() && self.entries.len() >= INDEXED_FROM {
            let mut index = Index::new();
            let n = self.entries.len();
            let mut i: usize = 0;
            let ghost all = self.authors();
            assert(all.take(0) =~= Seq::<Seq<char>>::empty());
            while i < n
                invariant
                    n == self.entries.len(),
                    i <= n,
                    all == names_of(self.entries@),
                    index.covers(all.take(i as int)),
                decreases n - i,
            {
                index.note(self.entries[i].0.0.as_str(), i, Ghost(all.take(i as int)));
                assert(all.take(i as int).push(all[i as int]) =~= all.take(i + 1));
                i = i + 1;
            }
            assert(all.take(n as int) =~= all);
            self.index = Some(index);
        }
    }

    /// The frequency map of `author`: `None` if they never said a word.
    pub fn get(&self, author: &Person) -> (tally: Option<&FrequencyMap>)
        requires
            self.wf(),
        ensures
            match tally {
                Some(found) => self@.dom().contains(author@) && self@[author@] == found@ && found.wf(),
                None => !self@.dom().contains(author@),
            },
    {
        match self.position(author) {
            Some(i) => {
                proof {
                    lemma_table_at(self.authors(), tallies_of(self.entries@), i as int);
                }
                Some(&self.entries[i].1)
            },
            None => None,
        }
    }

    /// Counts one more occurrence of `token` for `author`, who gets a
    /// frequency map of their own if they had none.
    pub fn record(&mut self, author: &Person, token: Token)
        requires
            old(self).wf(),
            count_in(tally_for(old(self)@, author@), token@) < usize::MAX,
        ensures
            final(self).wf(),
            final(self)@ == recorded(old(self)@, author@, token@),
    {
        let ghost names = self.authors();
        let ghost tallies = tallies_of(self.entries@);
        let ghost before = self.entries@;
        match self.position(author) {
            Some(i) => {
                proof {
                    lemma_table_at(names, tallies, i as int);
                    lemma_table_update(names, tallies, i as int, added(tallies[i as int], token@, 1));
                }
                self.entries[i].1.bump(token);
                assert(names_of(self.entries@) =~= names);
                assert(tallies_of(self.entries@) =~= tallies.update(
                    i as int,
                    added(tallies[i as int], token@, 1),
                ));
                assert forall|k: int| 0 <= k < self.entries.len() implies (#[trigger] self.entries[
                    k
                ]).1.wf() by {
                    if k != i {
                        assert(self.entries[k] == before[k]);
                    }
                }
            },
            None => {
                let mut tally = FrequencyMap::new();
                tally.bump(token);
                proof {
                    lemma_table_push(names, tallies, author@, tally@);
                }
                self.push(author.clone(), tally);
                assert(names_of(self.entries@) =~= names.push(author@));
                assert(tallies_of(self.entries@) =~= tallies.push(tally@));
            },
        }
    }

    /// Adds the counts of `delta` to this map. An author that this map does
    /// not hold comes over with their frequency map as it is; for an author
    /// that both hold the two frequency maps are merged.
    pub fn merge(&mut self, delta: AuthorTallies)
        requires
            old(self).wf(),
            delta.wf(),
            forall|a: Seq<char>, t: Seq<char>|
                count_in(tally_for(old(self)@, a), t) + count_in(tally_for(delta@, a), t)
                    <= usize::MAX,
        ensures
            final(self).wf(),
            final(self)@ == merged_by_author(old(self)@, delta@),
    {
        let ghost start = self@;
        let ghost names = delta.authors();
        let ghost tallies = tallies_of(delta.entries@);
        let ghost given = delta.entries@;
        assert(delta@ == table(names, tallies));
        let AuthorTallies { entries, index: _ } = delta;
        assert(table(names.take(0), tallies.take(0)) =~= Map::<Seq<char>, Map<Seq<char>, nat>>::empty());
        proof {
            lemma_merged_by_author_empty(start);
        }
        for entry in it: entries
            invariant
                it.seq() == given,
                names == names_of(given),
                tallies == tallies_of(given),
                names.no_duplicates(),
                forall|k: int| 0 <= k < given.len() ==> (#[trigger] given[k]).1.wf(),
                forall|a: Seq<char>, t: Seq<char>|
                    count_in(tally_for(start, a), t) + count_in(
                        tally_for(table(names, tallies), a),
                        t,
                    ) <= usize::MAX,
                self.wf(),
                self@ == merged_by_author(
                    start,
                    table(names.take(it.index()), tallies.take(it.index())),
                ),
        {
            let ghost i = it.index();
            let ghost done = table(names.take(i), tallies.take(i));
            let ghost mine = self.authors();
            let ghost held = tallies_of(self.entries@);
            let ghost before = self.entries@;
            let (author, tally) = entry;
            proof {
                assert(author@ == names[i]);
                assert(tally@ == tallies[i]);
                assert(given[i].1.wf());
                lemma_table_take(names, tallies, i);
                lemma_table_at(names, tallies, i);
                lemma_merged_by_author_insert(start, done, names[i], tallies[i]);
                assert forall|t: Seq<char>|
                    count_in(tally_for(self@, author@), t) + count_in(tally@, t) <= usize::MAX by {
                    assert(count_in(tally_for(start, author@), t) + count_in(
                        tally_for(table(names, tallies), author@),
                        t,
                    ) <= usize::MAX);
                }
            }
            match self.position(&author) {
                Some(j) => {
                    proof {
                        lemma_table_at(mine, held, j as int);
                        lemma_table_update(mine, held, j as int, merged(held[j as int], tally@));
                    }
                    self.entries[j].1.merge(tally);
                    assert(names_of(self.entries@) =~= mine);
                    assert(tallies_of(self.entries@) =~= held.update(
                        j as int,
                        merged(held[j as int], tallies[i]),
                    ));
                    assert forall|k: int| 0 <= k < self.entries.len() implies (#[trigger] self.entries[
                        k
                    ]).1.wf() by {
                        if k != j {
                            assert(self.entries[k] == before[k]);
                        }
                    }
                },
                None => {
                    proof {
                        lemma_table_push(mine, held, author@, tally@);
                        assert(merged(Map::<Seq<char>, nat>::empty(), tallies[i]) =~= tallies[i]);
                    }
                    self.push(author, tally);
                    assert(names_of(self.entries@) =~= mine.push(names[i]));
                    assert(tallies_of(self.entries@) =~= held.push(tallies[i]));
                },
            }
        }
        assert(names.take(names.len() as int) =~= names);
        assert(tallies.take(tallies.len() as int) =~= tallies);
    }
}

/// Merging in a map without authors changes nothing.
pub proof fn lemma_merged_by_author_empty(a: Map<Seq<char>, Map<Seq<char>, nat>>)
    ensures
        merged_by_author(a, Map::empty()) == a,
{
    let sum = merged_by_author(a, Map::empty());
    assert forall|who: Seq<char>| a.dom().contains(who) implies #[trigger] sum[who] == a[who] by {
        assert(merged(a[who], Map::empty()) =~= a[who]);
    }
    assert(sum =~= a);
}

/// Merging in a map with one more author is merging and then giving that
/// author the sum of their two frequency maps.
proof fn lemma_merged_by_author_insert(
    a: Map<Seq<char>, Map<Seq<char>, nat>>,
    b: Map<Seq<char>, Map<Seq<char>, nat>>,
    who: Seq<char>,
    tally: Map<Seq<char>, nat>,
)
    requires
        !b.dom().contains(who),
    ensures
        merged_by_author(a, b.insert(who, tally)) == merged_by_author(a, b).insert(
            who,
            merged(tally_for(merged_by_author(a, b), who), tally),
        ),
        forall|t: Seq<char>|
            count_in(tally_for(merged_by_author(a, b), who), t) == count_in(tally_for(a, who), t),
{
    let sum = merged_by_author(a, b);
    assert(merged(tally_for(a, who), Map::empty()) =~= tally_for(a, who));
    assert(merged(tally_for(sum, who), tally) =~= merged(tally_for(a, who), tally)) by {
        if a.dom().contains(who) {
            assert(tally_for(sum, who) == merged(tally_for(a, who), Map::empty()));
        } else {
            assert(tally_for(sum, who) == Map::<Seq<char>, nat>::empty());
            assert(tally_for(a, who) == Map::<Seq<char>, nat>::empty());
        }
    }
    assert(merged_by_author(a, b.insert(who, tally)) =~= sum.insert(
        who,
        merged(tally_for(sum, who), tally),
    ));
}

/// The per-author maps added up.
pub open spec fn merged_all_by_author(parts: Seq<Map<Seq<char>, Map<Seq<char>, nat>>>) -> Map<
    Seq<char>,
    Map<Seq<char>, nat>,
> {
    sum_of(
        parts,
        Map::empty(),
        |a: Map<Seq<char>, Map<Seq<char>, nat>>, b: Map<Seq<char>, Map<Seq<char>, nat>>|
            merged_by_author(a, b),
    )
}

/// The sum of the first `i + 1` per-author maps is the sum of the first
/// `i` and the next one.
pub proof fn lemma_merged_all_by_author_take(parts: Seq<Map<Seq<char>, Map<Seq<char>, nat>>>, i: int)
    requires
        0 <= i < parts.len(),
    ensures
        merged_all_by_author(parts.take(i + 1)) == merged_by_author(
            merged_all_by_author(parts.take(i)),
            parts[i],
        ),
{
    assert(parts.take(i + 1).drop_last() =~= parts.take(i));
}

/// In a sum of per-author maps no count is smaller than in the sum of the
/// first `i + 1` of them.
pub proof fn lemma_merged_all_by_author_bound(
    parts: Seq<Map<Seq<char>, Map<Seq<char>, nat>>>,
    i: int,
    who: Seq<char>,
    t: Seq<char>,
)
    requires
        0 <= i < parts.len(),
    ensures
        count_in(tally_for(merged_all_by_author(parts.take(i)), who), t) + count_in(
            tally_for(parts[i], who),
            t,
        ) <= count_in(tally_for(merged_all_by_author(parts), who), t),
    decreases parts.len(),
{
    lemma_merged_all_by_author_take(parts, i);
    if i == parts.len() - 1 {
        assert(parts.take(i + 1) =~= parts);
    } else {
        let init = parts.drop_last();
        assert(init.take(i) =~= parts.take(i));
        lemma_merged_all_by_author_bound(init, i, who, t);
    }
}

/// Adding two per-author maps gives the same whichever comes first.
pub proof fn lemma_merged_by_author_commutative(
    a: Map<Seq<char>, Map<Seq<char>, nat>>,
    b: Map<Seq<char>, Map<Seq<char>, nat>>,
)
    ensures
        merged_by_author(a, b) == merged_by_author(b, a),
{
    assert forall|who: Seq<char>| #[trigger]
        merged_by_author(a, b).dom().contains(who) implies merged_by_author(a, b)[who]
        == merged_by_author(b, a)[who] by {
        lemma_merged_commutative(tally_for(a, who), tally_for(b, who));
    }
    assert(merged_by_author(a, b) =~= merged_by_author(b, a));
}

/// Adding three per-author maps gives the same however they are grouped.
pub proof fn lemma_merged_by_author_associative(
    a: Map<Seq<char>, Map<Seq<char>, nat>>,
    b: Map<Seq<char>, Map<Seq<char>, nat>>,
    c: Map<Seq<char>, Map<Seq<char>, nat>>,
)
    ensures
        merged_by_author(merged_by_author(a, b), c) == merged_by_author(a, merged_by_author(b, c)),
{
    let left = merged_by_author(merged_by_author(a, b), c);
    let right = merged_by_author(a, merged_by_author(b, c));
    assert forall|who: Seq<char>| #[trigger] left.dom().contains(who) implies left[who] == right[who] by {
        let ta = tally_for(a, who);
        let tb = tally_for(b, who);
        let tc = tally_for(c, who);
        lemma_merged_associative(ta, tb, tc);
        assert(merged(ta, Map::empty()) =~= ta);
        assert(merged(Map::empty(), tc) =~= tc);
        assert(merged(Map::<Seq<char>, nat>::empty(), Map::empty()) =~= Map::<Seq<char>, nat>::empty());
        assert(tally_for(merged_by_author(a, b), who) =~= merged(ta, tb));
        assert(tally_for(merged_by_author(b, c), who) =~= merged(tb, tc));
    }
    assert(left =~= right);
}

/// Per-author maps add up to the same in whatever order they are added.
pub proof fn lemma_merge_order_by_author(
    first: Seq<Map<Seq<char>, Map<Seq<char>, nat>>>,
    second: Seq<Map<Seq<char>, Map<Seq<char>, nat>>>,
)
    requires
        first.to_multiset() == second.to_multiset(),
    ensures
        merged_all_by_author(first) == merged_all_by_author(second),
{
    let plus = |a: Map<Seq<char>, Map<Seq<char>, nat>>, b: Map<Seq<char>, Map<Seq<char>, nat>>|
        merged_by_author(a, b);
    assert(is_commutative(plus)) by {
        assert forall|a: Map<Seq<char>, Map<Seq<char>, nat>>, b: Map<Seq<char>, Map<Seq<char>, nat>>| #[trigger]
            plus(a, b) == plus(b, a) by {
            lemma_merged_by_author_commutative(a, b);
        }
    }
    assert(is_associative(plus)) by {
        assert forall|
            a: Map<Seq<char>, Map<Seq<char>, nat>>,
            b: Map<Seq<char>, Map<Seq<char>, nat>>,
            c: Map<Seq<char>, Map<Seq<char>, nat>>,
        | #[trigger] plus(plus(a, b), c) == plus(a, plus(b, c)) by {
            lemma_merged_by_author_associative(a, b, c);
        }
    }
    lemma_sum_in_any_order(first, second, Map::empty(), plus);
}

} // verus!
