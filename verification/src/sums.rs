//! Adding parts up, in any order.

use vstd::prelude::*;

verus! {

/// The parts added up with `plus`, from the first to the last, starting
/// from `zero`.
pub open spec fn sum_of<M>(parts: Seq<M>, zero: M, plus: spec_fn(M, M) -> M) -> M
    decreases parts.len(),
{
    if parts.len() == 0 {
        zero
    } else {
        plus(sum_of(parts.drop_last(), zero, plus), parts.last())
    }
}

/// `plus` gives the same whichever part comes first.
pub open spec fn is_commutative<M>(plus: spec_fn(M, M) -> M) -> bool {
    forall|a: M, b: M| #[trigger] plus(a, b) == plus(b, a)
}

/// `plus` gives the same however the parts are grouped.
pub open spec fn is_associative<M>(plus: spec_fn(M, M) -> M) -> bool {
    forall|a: M, b: M, c: M| #[trigger] plus(plus(a, b), c) == plus(a, plus(b, c))
}

/// A sum does not change when one part is taken out and added at the end.
pub proof fn lemma_sum_without<M>(parts: Seq<M>, zero: M, plus: spec_fn(M, M) -> M, j: int)
    requires
        is_commutative(plus),
        is_associative(plus),
        0 <= j < parts.len(),
    ensures
        sum_of(parts, zero, plus) == plus(sum_of(parts.remove(j), zero, plus), parts[j]),
    decreases parts.len(),
{
    let init = parts.drop_last();
    if j == parts.len() - 1 {
        assert(parts.remove(j) =~= init);
    } else {
        lemma_sum_without(init, zero, plus, j);
        let rest = sum_of(init.remove(j), zero, plus);
        assert(parts.remove(j).drop_last() =~= init.remove(j));
        assert(parts.remove(j).last() == parts.last());
        assert(plus(plus(rest, parts[j]), parts.last()) == plus(rest, plus(parts[j], parts.last())));
        assert(plus(parts[j], parts.last()) == plus(parts.last(), parts[j]));
        assert(plus(plus(rest, parts.last()), parts[j]) == plus(rest, plus(parts.last(), parts[j])));
    }
}

/// Where adding is commutative and associative, the sum of the parts is
/// the same in whatever order they are added. That the two rows are equal as
/// multisets says that `second` holds the parts of `first`, rearranged.
pub proof fn lemma_sum_in_any_order<M>(
    first: Seq<M>,
    second: Seq<M>,
    zero: M,
    plus: spec_fn(M, M) -> M,
)
    requires
        is_commutative(plus),
        is_associative(plus),
        first.to_multiset() == second.to_multiset(),
    ensures
        sum_of(first, zero, plus) == sum_of(second, zero, plus),
    decreases first.len(),
{
    first.to_multiset_ensures();
    second.to_multiset_ensures();
    if first.len() == 0 {
        assert(second.len() == second.to_multiset().len());
    } else {
        let last = first.len() - 1;
        let init = first.drop_last();
        let x = first[last];
        assert(first.contains(x));
        assert(second.to_multiset().count(x) > 0);
        assert(second.contains(x));
        let j = second.index_of(x);
        assert(first.remove(last) =~= init);
        assert(first.remove(last).to_multiset() =~= first.to_multiset().remove(x));
        assert(second.remove(j).to_multiset() =~= second.to_multiset().remove(x));
        lemma_sum_in_any_order(init, second.remove(j), zero, plus);
        lemma_sum_without(second, zero, plus, j);
    }
}

} // verus!
