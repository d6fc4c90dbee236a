//! Sorting by an order that a type defines.

use vstd::multiset::Multiset;
use vstd::prelude::*;

verus! {

/// A type whose values can be put in order.
pub trait Ordered: Sized {
    /// The value may stand before `other`.
    spec fn at_most(self, other: Self) -> bool;

    /// Any two values can be ordered.
    proof fn lemma_total(a: Self, b: Self)
        ensures
            a.at_most(b) || b.at_most(a),
    ;

    /// The order is transitive.
    proof fn lemma_transitive(a: Self, b: Self, c: Self)
        requires
            a.at_most(b),
            b.at_most(c),
        ensures
            a.at_most(c),
    ;

    /// Whether the value may stand before `other`.
    fn may_precede(&self, other: &Self) -> (before: bool)
        ensures
            before == self.at_most(*other),
    ;
}

/// Every value may stand before the later ones.
pub open spec fn in_order<T: Ordered>(items: Seq<T>) -> bool {
    forall|i: int, j: int| 0 <= i < j < items.len() ==> #[trigger] items[i].at_most(#[trigger] items[j])
}

/// `sorted` holds the values of `source` in order.
pub open spec fn sorts<T: Ordered>(sorted: Seq<T>, source: Seq<T>) -> bool {
    &&& in_order(sorted)
    &&& sorted.to_multiset() == source.to_multiset()
}

/// The last value of a list in order may stand after all of them.
proof fn lemma_last_is_largest<T: Ordered>(items: Seq<T>, i: int)
    requires
        in_order(items),
        0 <= i < items.len(),
    ensures
        items[i].at_most(items.last()),
{
    if i == items.len() - 1 {
        T::lemma_total(items[i], items[i]);
    }
}

/// The values of a list are those before its last one and the last one.
proof fn lemma_multiset_last<T>(items: Seq<T>)
    requires
        items.len() > 0,
    ensures
        items.to_multiset() == items.drop_last().to_multiset().insert(items.last()),
{
    broadcast use vstd::seq_lib::group_to_multiset_ensures;
    assert(items.drop_last().push(items.last()) =~= items);
}

/// Every value so far may stand after what is left.
spec fn above<T: Ordered>(taken: Seq<T>, rest: Seq<T>) -> bool {
    forall|i: int, j: int|
        0 <= i < taken.len() && 0 <= j < rest.len() ==> #[trigger] rest[j].at_most(
            #[trigger] taken[i],
        )
}

/// Every value may stand after the later ones.
spec fn descends<T: Ordered>(items: Seq<T>) -> bool {
    forall|i: int, j: int| 0 <= i < j < items.len() ==> #[trigger] items[j].at_most(#[trigger] items[i])
}

/// The values in the opposite order.
fn reversed<T>(items: Vec<T>) -> (result: Vec<T>)
    ensures
        result@ == items@.reverse(),
{
    let mut rest: Vec<T> = items;
    let ghost source = rest@;
    let mut out: Vec<T> = Vec::new();
    while rest.len() > 0
        invariant
            rest@.len() + out@.len() == source.len(),
            rest@ == source.take(rest@.len() as int),
            forall|i: int| 0 <= i < out@.len() ==> out@[i] == source[source.len() - 1 - i],
        decreases rest.len(),
    {
        let ghost before = rest@;
        match rest.pop() {
            Some(item) => {
                out.push(item);
                assert(rest@ =~= source.take(rest@.len() as int));
            },
            None => {},
        }
    }
    assert(out@ =~= source.reverse());
    out
}

/// Take the last value of `from`, which is the largest that is left.
fn move_largest<T: Ordered>(
    from: &mut Vec<T>,
    out: &mut Vec<T>,
    Ghost(other): Ghost<Seq<T>>,
    Ghost(all): Ghost<Multiset<T>>,
)
    requires
        old(from)@.len() > 0,
        in_order(old(from)@),
        descends(old(out)@),
        above(old(out)@, old(from)@),
        above(old(out)@, other),
        forall|j: int| 0 <= j < other.len() ==> #[trigger] other[j].at_most(old(from)@.last()),
        old(from)@.to_multiset().add(other.to_multiset()).add(old(out)@.to_multiset()) == all,
    ensures
        final(from)@ == old(from)@.drop_last(),
        in_order(final(from)@),
        descends(final(out)@),
        above(final(out)@, final(from)@),
        above(final(out)@, other),
        final(from)@.to_multiset().add(other.to_multiset()).add(final(out)@.to_multiset()) == all,
{
    let ghost items = from@;
    let ghost taken = out@;
    proof {
        lemma_multiset_last(items);
        assert forall|j: int| 0 <= j < items.len() implies #[trigger] items[j].at_most(
            items.last(),
        ) by {
            lemma_last_is_largest(items, j);
        }
    }
    match from.pop() {
        Some(item) => {
            out.push(item);
            proof {
                broadcast use vstd::seq_lib::group_to_multiset_ensures;
                assert(from@ =~= items.drop_last());
                assert(out@ == taken.push(item));
                assert(out@.to_multiset() =~= taken.to_multiset().insert(item));
                assert(from@.to_multiset().add(other.to_multiset()).add(out@.to_multiset())
                    =~= all);
                assert forall|i: int, j: int| 0 <= i < j < out@.len() implies #[trigger] out@[j].at_most(
                    #[trigger] out@[i],
                ) by {
                    if j == taken.len() {
                        assert(items[items.len() - 1].at_most(taken[i]));
                    } else {
                        assert(taken[j].at_most(taken[i]));
                    }
                }
                assert forall|i: int, j: int|
                    0 <= i < out@.len() && 0 <= j < from@.len() implies #[trigger] from@[j].at_most(
                    #[trigger] out@[i],
                ) by {
                    assert(from@[j] == items[j]);
                    if i < taken.len() {
                        assert(items[j].at_most(taken[i]));
                    }
                }
                assert forall|i: int, j: int|
                    0 <= i < out@.len() && 0 <= j < other.len() implies #[trigger] other[j].at_most(
                    #[trigger] out@[i],
                ) by {
                    if i < taken.len() {
                        assert(other[j].at_most(taken[i]));
                    }
                }
                assert forall|i: int, j: int| 0 <= i < j < from@.len() implies #[trigger] from@[i].at_most(
                    #[trigger] from@[j],
                ) by {
                    assert(items[i].at_most(items[j]));
                }
            }
        },
        None => {},
    }
}

/// Join two lists in order into one.
fn join_sorted<T: Ordered>(left: Vec<T>, right: Vec<T>) -> (joined: Vec<T>)
    requires
        in_order(left@),
        in_order(right@),
    ensures
        in_order(joined@),
        joined@.to_multiset() == left@.to_multiset().add(right@.to_multiset()),
{
    let ghost all = left@.to_multiset().add(right@.to_multiset());
    let mut a: Vec<T> = left;
    let mut b: Vec<T> = right;
    let mut out: Vec<T> = Vec::new();
    proof {
        broadcast use vstd::seq_lib::group_to_multiset_ensures;
        assert(out@.to_multiset() =~= Multiset::<T>::empty());
        assert(a@.to_multiset().add(b@.to_multiset()).add(out@.to_multiset()) =~= all);
    }
    while a.len() > 0 || b.len() > 0
        invariant
            in_order(a@),
            in_order(b@),
            descends(out@),
            above(out@, a@),
            above(out@, b@),
            a@.to_multiset().add(b@.to_multiset()).add(out@.to_multiset()) == all,
        decreases a.len() + b.len(),
    {
        let from_left: bool = if a.len() == 0 {
            false
        } else if b.len() == 0 {
            true
        } else {
            b[b.len() - 1].may_precede(&a[a.len() - 1])
        };
        if from_left {
            proof {
                assert forall|j: int| 0 <= j < b@.len() implies #[trigger] b@[j].at_most(
                    a@.last(),
                ) by {
                    lemma_last_is_largest(b@, j);
                    T::lemma_transitive(b@[j], b@.last(), a@.last());
                }
            }
            move_largest(&mut a, &mut out, Ghost(b@), Ghost(all));
        } else {
            proof {
                assert forall|j: int| 0 <= j < a@.len() implies #[trigger] a@[j].at_most(
                    b@.last(),
                ) by {
                    lemma_last_is_largest(a@, j);
                    T::lemma_total(a@.last(), b@.last());
                    T::lemma_transitive(a@[j], a@.last(), b@.last());
                }
                assert(b@.to_multiset().add(a@.to_multiset()).add(out@.to_multiset()) =~= all);
            }
            move_largest(&mut b, &mut out, Ghost(a@), Ghost(all));
            assert(a@.to_multiset().add(b@.to_multiset()).add(out@.to_multiset()) =~= all);
        }
    }
    proof {
        broadcast use vstd::seq_lib::group_to_multiset_ensures;
        assert(a@ =~= Seq::empty());
        assert(b@ =~= Seq::empty());
        assert(a@.to_multiset() =~= Multiset::<T>::empty());
        assert(b@.to_multiset() =~= Multiset::<T>::empty());
        assert(out@.to_multiset() =~= all);
        out@.lemma_reverse_to_multiset();
        assert forall|i: int, j: int|
            0 <= i < j < out@.len() implies #[trigger] out@.reverse()[i].at_most(
            #[trigger] out@.reverse()[j],
        ) by {
            assert(out@[out@.len() - 1 - i].at_most(out@[out@.len() - 1 - j]));
        }
    }
    reversed(out)
}

/// The values in order.
pub fn sort_ordered<T: Ordered>(items: Vec<T>) -> (sorted: Vec<T>)
    ensures
        sorts(sorted@, items@),
    decreases items.len(),
{
    let ghost source = items@;
    let mut left: Vec<T> = items;
    if left.len() < 2 {
        return left;
    }
    let middle: usize = left.len() / 2;
    let right: Vec<T> = left.split_off(middle);
    proof {
        assert(left@ + right@ =~= source);
        vstd::seq_lib::lemma_multiset_commutative(left@, right@);
    }
    let first: Vec<T> = sort_ordered(left);
    let second: Vec<T> = sort_ordered(right);
    join_sorted(first, second)
}

/// A list that sorts the same values has the same length and members.
pub proof fn lemma_sorts_members<T: Ordered>(sorted: Seq<T>, source: Seq<T>)
    requires
        sorts(sorted, source),
    ensures
        sorted.len() == source.len(),
        forall|item: T| #[trigger] sorted.contains(item) <==> source.contains(item),
{
    broadcast use vstd::seq_lib::group_to_multiset_ensures;
    assert(sorted.to_multiset().len() == source.to_multiset().len());
    assert forall|item: T| #[trigger] sorted.contains(item) <==> source.contains(item) by {
        assert(sorted.to_multiset().count(item) == source.to_multiset().count(item));
    }
}

/// A value that stands at two places is counted at least twice.
proof fn lemma_counted_twice<T>(items: Seq<T>, p: int, q: int)
    requires
        0 <= p < q < items.len(),
        items[p] == items[q],
    ensures
        items.to_multiset().count(items[p]) >= 2,
{
    broadcast use vstd::seq_lib::group_to_multiset_ensures;
    let rest = items.remove(q);
    assert(rest[p] == items[p]);
    assert(rest.contains(items[p]));
    assert(rest.to_multiset() =~= items.to_multiset().remove(items[q]));
    assert(rest.to_multiset().count(items[p]) > 0);
}

/// A value that is counted twice stands at two places.
proof fn lemma_stands_twice<T>(items: Seq<T>, item: T) -> (places: (int, int))
    requires
        items.to_multiset().count(item) >= 2,
    ensures
        0 <= places.0 < places.1 < items.len(),
        items[places.0] == item,
        items[places.1] == item,
{
    broadcast use vstd::seq_lib::group_to_multiset_ensures;
    assert(items.contains(item));
    let p = choose|p: int| 0 <= p < items.len() && items[p] == item;
    let rest = items.remove(p);
    assert(rest.to_multiset() =~= items.to_multiset().remove(items[p]));
    assert(rest.to_multiset().count(item) > 0);
    assert(rest.contains(item));
    let k = choose|k: int| 0 <= k < rest.len() && rest[k] == item;
    if k < p {
        assert(items[k] == rest[k]);
        (k, p)
    } else {
        assert(items[k + 1] == rest[k]);
        (p, k + 1)
    }
}

/// What stands twice in the one list stands twice in the other.
pub proof fn lemma_repeats<T>(a: Seq<T>, b: Seq<T>, i: int, j: int) -> (places: (int, int))
    requires
        a.to_multiset() == b.to_multiset(),
        0 <= i < j < a.len(),
        a[i] == a[j],
    ensures
        0 <= places.0 < places.1 < b.len(),
        b[places.0] == a[i],
        b[places.1] == a[i],
{
    lemma_counted_twice(a, i, j);
    lemma_stands_twice(b, a[i])
}

} // verus!
