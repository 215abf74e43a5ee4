//! Maps written down as a row of keys beside a row of values.
//!
//! Both the frequency map and the per-author map keep their entries in
//! vectors. This module says which map such a pair of rows stands for, and
//! how appending to the rows or changing one value changes that map.

use vstd::prelude::*;

verus! {

/// The map that pairs each key with the value in the same position.
pub open spec fn table<V>(keys: Seq<Seq<char>>, values: Seq<V>) -> Map<Seq<char>, V> {
    Map::new(|k: Seq<char>| keys.contains(k), |k: Seq<char>| values[keys.index_of(k)])
}

/// In a table without a repeated key, the key in position `i` has the value
/// in position `i`.
pub proof fn lemma_table_at<V>(keys: Seq<Seq<char>>, values: Seq<V>, i: int)
    requires
        keys.no_duplicates(),
        0 <= i < keys.len(),
    ensures
        table(keys, values).dom().contains(keys[i]),
        table(keys, values)[keys[i]] == values[i],
        keys.index_of(keys[i]) == i,
{
    assert(keys.contains(keys[i]));
}

/// The keys of a table without a repeated key are the domain of its map,
/// which is therefore finite and as large as the row of keys is long.
pub proof fn lemma_table_dom<V>(keys: Seq<Seq<char>>, values: Seq<V>)
    requires
        keys.no_duplicates(),
    ensures
        table(keys, values).dom() == keys.to_set(),
        table(keys, values).dom().finite(),
        table(keys, values).dom().len() == keys.len(),
{
    assert(table(keys, values).dom() =~= keys.to_set());
    keys.unique_seq_to_set();
}

/// A new key at the end of a table is an insertion into its map.
pub proof fn lemma_table_push<V>(keys: Seq<Seq<char>>, values: Seq<V>, key: Seq<char>, value: V)
    requires
        keys.no_duplicates(),
        keys.len() == values.len(),
        !keys.contains(key),
    ensures
        keys.push(key).no_duplicates(),
        table(keys.push(key), values.push(value)) == table(keys, values).insert(key, value),
{
    let more = keys.push(key);
    assert forall|i: int, j: int| 0 <= i < more.len() && 0 <= j < more.len() && i != j implies more[i]
        != more[j] by {
        if i < keys.len() {
            assert(keys.contains(keys[i]));
        }
        if j < keys.len() {
            assert(keys.contains(keys[j]));
        }
    }
    assert forall|k: Seq<char>| more.contains(k) <==> (keys.contains(k) || k == key) by {
        if keys.contains(k) {
            let i = keys.index_of(k);
            assert(more[i] == k);
        }
        if k == key {
            assert(more[keys.len() as int] == k);
        }
    }
    assert forall|k: Seq<char>| more.contains(k) implies #[trigger] table(more, values.push(value))[k]
        == table(keys, values).insert(key, value)[k] by {
        let i = more.index_of(k);
        lemma_table_at(more, values.push(value), i);
        if i < keys.len() {
            lemma_table_at(keys, values, i);
        }
    }
    assert(table(more, values.push(value)) =~= table(keys, values).insert(key, value));
}

/// A new value in position `i` of a table is an insertion into its map.
pub proof fn lemma_table_update<V>(keys: Seq<Seq<char>>, values: Seq<V>, i: int, value: V)
    requires
        keys.no_duplicates(),
        keys.len() == values.len(),
        0 <= i < keys.len(),
    ensures
        table(keys, values.update(i, value)) == table(keys, values).insert(keys[i], value),
{
    assert(keys.contains(keys[i]));
    assert forall|k: Seq<char>| keys.contains(k) implies #[trigger] table(keys, values.update(i, value))[k]
        == table(keys, values).insert(keys[i], value)[k] by {
        let j = keys.index_of(k);
        lemma_table_at(keys, values, j);
        lemma_table_at(keys, values.update(i, value), j);
    }
    assert(table(keys, values.update(i, value)) =~= table(keys, values).insert(keys[i], value));
}

/// The first `i + 1` entries of a table are its first `i` entries and one
/// insertion of a key that these do not hold.
pub proof fn lemma_table_take<V>(keys: Seq<Seq<char>>, values: Seq<V>, i: int)
    requires
        keys.no_duplicates(),
        keys.len() == values.len(),
        0 <= i < keys.len(),
    ensures
        !table(keys.take(i), values.take(i)).dom().contains(keys[i]),
        table(keys.take(i + 1), values.take(i + 1)) == table(keys.take(i), values.take(i)).insert(
            keys[i],
            values[i],
        ),
{
    let front = keys.take(i);
    assert(front.no_duplicates());
    if front.contains(keys[i]) {
        let j = front.index_of(keys[i]);
        assert(keys[j] == keys[i]);
    }
    lemma_table_push(front, values.take(i), keys[i], values[i]);
    assert(front.push(keys[i]) =~= keys.take(i + 1));
    assert(values.take(i).push(values[i]) =~= values.take(i + 1));
}

} // verus!
