//! Counters kept in key order.

use std::collections::{BTreeMap, BTreeSet};
use vstd::prelude::*;
use vstd::std_specs::cmp::OrdSpec;
use vstd::std_specs::iter::IteratorSpec;

verus! {

/// `rows` lists the entries of `map` by increasing key.
pub open spec fn lists_map<V>(rows: Seq<(u64, V)>, map: Map<u64, V>) -> bool {
    &&& forall|i: int, j: int| 0 <= i < j < rows.len() ==> #[trigger] rows[i].0 < #[trigger] rows[j].0
    &&& forall|i: int|
        0 <= i < rows.len() ==> map.contains_key(#[trigger] rows[i].0) && map[rows[i].0]
            == rows[i].1
    &&& forall|k: u64| #[trigger]
        map.contains_key(k) ==> exists|i: int| 0 <= i < rows.len() && #[trigger] rows[i].0 == k
}

/// The value stored under `key`, or `default`.
pub fn value_or<V: Copy>(map: &BTreeMap<u64, V>, key: u64, default: V) -> (value: V)
    ensures
        value == if map@.contains_key(key) {
            map@[key]
        } else {
            default
        },
{
    broadcast use vstd::laws_cmp::group_laws_cmp;
    match map.get(&key) {
        Some(value) => *value,
        None => default,
    }
}

/// Store `value` under `key`.
pub fn store<V>(map: &mut BTreeMap<u64, V>, key: u64, value: V)
    ensures
        final(map)@ == old(map)@.insert(key, value),
{
    broadcast use vstd::laws_cmp::group_laws_cmp;
    map.insert(key, value);
}

/// The entries of `map` by increasing key.
pub fn list<V: Copy>(map: &BTreeMap<u64, V>) -> (rows: Vec<(u64, V)>)
    ensures
        lists_map(rows@, map@),
        rows@.len() == map@.dom().len(),
{
    broadcast use vstd::laws_cmp::group_laws_cmp;
    broadcast use vstd::std_specs::btree::group_btree_axioms;
    let mut rows: Vec<(u64, V)> = Vec::new();
    for entry in it: map.iter()
        invariant
            rows@.len() == it.index(),
            forall|i: int|
                0 <= i < rows@.len() ==> rows@[i].0 == *(#[trigger] it.seq()[i]).0 && rows@[i].1
                    == *it.seq()[i].1,
    {
        rows.push((*entry.0, *entry.1));
    }
    proof {
        let seq = map.iter().remaining();
        assert(rows@.len() == seq.len());
        let keys = seq.map_values(|kv: (&u64, &V)| *kv.0);
        assert(vstd::std_specs::btree::increasing_seq(keys));
        assert forall|i: int, j: int| 0 <= i < j < rows@.len() implies rows@[i].0 < rows@[j].0 by {
            assert(keys[i].cmp_spec(&keys[j]) is Less);
        }
        assert forall|k: u64| #[trigger] map@.contains_key(k) implies exists|i: int|
            0 <= i < rows@.len() && #[trigger] rows@[i].0 == k by {
            assert(seq.contains((&k, &map@[k])));
            let i = choose|i: int| 0 <= i < seq.len() && seq[i] == (&k, &map@[k]);
            assert(rows@[i].0 == k);
        }
        assert forall|i: int| 0 <= i < rows@.len() implies map@.contains_key(#[trigger] rows@[i].0)
            && map@[rows@[i].0] == rows@[i].1 by {
            assert(map@.contains_key(*seq[i].0));
        }
    }
    rows
}

/// Number of keys of `map`.
pub fn key_count<V>(map: &BTreeMap<u64, V>) -> (count: usize)
    ensures
        count == map@.dom().len(),
{
    broadcast use vstd::laws_cmp::group_laws_cmp;
    broadcast use vstd::std_specs::btree::group_btree_axioms;
    map.len()
}

/// Add `member` to `set`; tells whether it is new.
pub fn insert_member(set: &mut BTreeSet<u16>, member: u16) -> (added: bool)
    ensures
        final(set)@ == old(set)@.insert(member),
        added == !old(set)@.contains(member),
{
    broadcast use vstd::laws_cmp::group_laws_cmp;
    set.insert(member)
}

/// Number of members of `set`.
pub fn member_count(set: &BTreeSet<u16>) -> (count: usize)
    ensures
        count == set@.len(),
{
    broadcast use vstd::laws_cmp::group_laws_cmp;
    broadcast use vstd::std_specs::btree::group_btree_axioms;
    set.len()
}

/// Sum of a measure over the values of a finite map.
pub open spec fn map_total<V>(map: Map<u64, V>, measure: spec_fn(V) -> int) -> int
    decreases map.dom().len(),
{
    if map.dom().finite() && map.dom().len() > 0 {
        let key = map.dom().choose();
        measure(map[key]) + map_total(map.remove(key), measure)
    } else {
        0
    }
}

/// The sum does not depend on the order of the keys.
pub proof fn lemma_map_total_remove<V>(map: Map<u64, V>, measure: spec_fn(V) -> int, key: u64)
    requires
        map.dom().finite(),
        map.contains_key(key),
    ensures
        map_total(map, measure) == measure(map[key]) + map_total(map.remove(key), measure),
    decreases map.dom().len(),
{
    let first = map.dom().choose();
    assert(map.dom().contains(key));
    vstd::set::axiom_set_contains_len(map.dom(), key);
    assert(map.dom().contains(first));
    if first != key {
        let rest = map.remove(first);
        assert(rest.dom() =~= map.dom().remove(first));
        assert(rest.contains_key(key));
        lemma_map_total_remove(rest, measure, key);
        let other = map.remove(key);
        assert(other.dom() =~= map.dom().remove(key));
        assert(other.contains_key(first));
        lemma_map_total_remove(other, measure, first);
        assert(rest.remove(key) =~= other.remove(first));
    }
}

/// The sum over no entries.
pub proof fn lemma_map_total_empty<V>(measure: spec_fn(V) -> int)
    ensures
        map_total(Map::<u64, V>::empty(), measure) == 0,
{
    assert(Map::<u64, V>::empty().dom() =~= Set::<u64>::empty());
}

/// Sum of a measure over listed entries.
pub open spec fn list_total<V>(rows: Seq<(u64, V)>, measure: spec_fn(V) -> int) -> int
    decreases rows.len(),
{
    if rows.len() == 0 {
        0
    } else {
        list_total(rows.drop_last(), measure) + measure(rows.last().1)
    }
}

/// A listed map has the sum of its entries.
pub proof fn lemma_list_total<V>(
    rows: Seq<(u64, V)>,
    map: Map<u64, V>,
    measure: spec_fn(V) -> int,
)
    requires
        lists_map(rows, map),
        map.dom().finite(),
    ensures
        map_total(map, measure) == list_total(rows, measure),
    decreases rows.len(),
{
    if rows.len() == 0 {
        assert forall|k: u64| !map.contains_key(k) by {
            if map.contains_key(k) {
                let i = choose|i: int| 0 <= i < rows.len() && #[trigger] rows[i].0 == k;
            }
        }
        assert(map =~= Map::<u64, V>::empty());
        lemma_map_total_empty::<V>(measure);
    } else {
        let last = rows.last();
        let less = rows.drop_last();
        let rest = map.remove(last.0);
        assert(map.contains_key(rows[rows.len() - 1].0));
        assert(rest.dom() =~= map.dom().remove(last.0));
        assert(lists_map(less, rest)) by {
            assert forall|i: int| 0 <= i < less.len() implies rest.contains_key(
                #[trigger] less[i].0,
            ) && rest[less[i].0] == less[i].1 by {
                assert(less[i] == rows[i]);
                assert(rows[i].0 < rows[rows.len() - 1].0);
                assert(map.contains_key(rows[i].0));
            }
            assert forall|k: u64| #[trigger] rest.contains_key(k) implies exists|i: int|
                0 <= i < less.len() && #[trigger] less[i].0 == k by {
                assert(map.contains_key(k));
                let i = choose|i: int| 0 <= i < rows.len() && #[trigger] rows[i].0 == k;
                assert(less[i].0 == k);
            }
        }
        lemma_list_total(less, rest, measure);
        lemma_map_total_remove(map, measure, last.0);
    }
}

/// Sums of a measure that is never negative only grow.
pub proof fn lemma_list_total_grows<V>(
    rows: Seq<(u64, V)>,
    measure: spec_fn(V) -> int,
    count: int,
)
    requires
        0 <= count <= rows.len(),
        forall|value: V| #[trigger] measure(value) >= 0,
    ensures
        0 <= list_total(rows.take(count), measure) <= list_total(rows, measure),
    decreases rows.len(),
{
    if count == rows.len() {
        assert(rows.take(count) =~= rows);
        if count > 0 {
            lemma_list_total_grows(rows.drop_last(), measure, count - 1);
        }
    } else {
        lemma_list_total_grows(rows.drop_last(), measure, count);
        assert(rows.drop_last().take(count) =~= rows.take(count));
    }
}

/// The keys of a stored map are finitely many.
pub proof fn lemma_finite_keys<V>(map: BTreeMap<u64, V>)
    ensures
        map@.dom().finite(),
{
    broadcast use vstd::std_specs::btree::group_btree_axioms;

}

} // verus!
