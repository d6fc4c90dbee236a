//! Sorting of fixed-width identities with duplicates removed.

use vstd::prelude::*;

use crate::bytes::{
    bytes_equal, bytes_less, lemma_lex_antisymmetric, lemma_lex_total, lemma_lex_transitive,
    lex_less,
};

verus! {

/// Identities in strictly increasing order.
pub open spec fn increasing<const N: usize>(rows: Seq<[u8; N]>) -> bool {
    forall|i: int, j: int|
        0 <= i < j < rows.len() ==> lex_less(#[trigger] rows[i]@, #[trigger] rows[j]@)
}

/// The identity is one of the rows.
pub open spec fn holds<const N: usize>(rows: Seq<[u8; N]>, identity: Seq<u8>) -> bool {
    exists|i: int| 0 <= i < rows.len() && #[trigger] rows[i]@ == identity
}

/// `unique` lists every identity of `rows` once, in increasing order.
pub open spec fn lists_unique<const N: usize>(
    unique: Seq<[u8; N]>,
    rows: Seq<[u8; N]>,
) -> bool {
    &&& increasing(unique)
    &&& forall|identity: Seq<u8>| #[trigger] holds(unique, identity) <==> holds(rows, identity)
    &&& unique.len() <= rows.len()
}

/// Merge two increasing lists, each identity once.
fn merge_unique<const N: usize>(left: &Vec<[u8; N]>, right: &Vec<[u8; N]>) -> (merged: Vec<
    [u8; N],
>)
    requires
        increasing(left@),
        increasing(right@),
    ensures
        increasing(merged@),
        forall|identity: Seq<u8>| #[trigger]
            holds(merged@, identity) <==> holds(left@, identity) || holds(right@, identity),
        merged@.len() <= left@.len() + right@.len(),
{
    let mut merged: Vec<[u8; N]> = Vec::new();
    let mut i: usize = 0;
    let mut j: usize = 0;
    while i < left.len() || j < right.len()
        invariant
            i <= left@.len(),
            j <= right@.len(),
            increasing(left@),
            increasing(right@),
            increasing(merged@),
            merged@.len() <= i + j,
            forall|identity: Seq<u8>| #[trigger]
                holds(merged@, identity) <==> holds(left@.take(i as int), identity) || holds(
                    right@.take(j as int),
                    identity,
                ),
            forall|a: int, b: int|
                0 <= a < merged@.len() && i <= b < left@.len() ==> lex_less(
                    #[trigger] merged@[a]@,
                    #[trigger] left@[b]@,
                ),
            forall|a: int, b: int|
                0 <= a < merged@.len() && j <= b < right@.len() ==> lex_less(
                    #[trigger] merged@[a]@,
                    #[trigger] right@[b]@,
                ),
        decreases left@.len() - i + right@.len() - j,
    {
        let take_left: bool;
        let take_right: bool;
        if i == left.len() {
            take_left = false;
            take_right = true;
        } else if j == right.len() {
            take_left = true;
            take_right = false;
        } else if bytes_equal(left[i].as_slice(), right[j].as_slice()) {
            take_left = true;
            take_right = true;
        } else if bytes_less(left[i].as_slice(), right[j].as_slice()) {
            take_left = true;
            take_right = false;
        } else {
            take_left = false;
            take_right = true;
        }
        let ghost before = merged@;
        let ghost old_i = i as int;
        let ghost old_j = j as int;
        let next: [u8; N] = if take_left {
            left[i]
        } else {
            right[j]
        };
        proof {
            if old_i < left@.len() && old_j < right@.len() {
                lemma_lex_total(left@[old_i]@, right@[old_j]@);
            }
        }
        merged.push(next);
        if take_left {
            i += 1;
        }
        if take_right {
            j += 1;
        }
        proof {
            assert forall|a: int, b: int| 0 <= a < b < merged@.len() implies lex_less(
                #[trigger] merged@[a]@,
                #[trigger] merged@[b]@,
            ) by {
                if b < before.len() {
                    assert(merged@[a] == before[a] && merged@[b] == before[b]);
                } else {
                    assert(merged@[a] == before[a]);
                    if take_left {
                        assert(lex_less(before[a]@, left@[old_i]@));
                    } else {
                        assert(lex_less(before[a]@, right@[old_j]@));
                    }
                }
            }
            assert forall|a: int, b: int| 0 <= a < merged@.len() && i <= b < left@.len() implies lex_less(
                #[trigger] merged@[a]@,
                #[trigger] left@[b]@,
            ) by {
                if a < before.len() {
                    assert(merged@[a] == before[a]);
                } else if take_left {
                    assert(lex_less(left@[old_i]@, left@[b]@));
                } else {
                    assert(lex_less(right@[old_j]@, left@[old_i]@));
                    if old_i < b {
                        assert(lex_less(left@[old_i]@, left@[b]@));
                        lemma_lex_transitive(right@[old_j]@, left@[old_i]@, left@[b]@);
                    }
                }
            }
            assert forall|a: int, b: int| 0 <= a < merged@.len() && j <= b < right@.len() implies lex_less(
                #[trigger] merged@[a]@,
                #[trigger] right@[b]@,
            ) by {
                if a < before.len() {
                    assert(merged@[a] == before[a]);
                } else if take_right {
                    assert(lex_less(right@[old_j]@, right@[b]@));
                } else {
                    assert(lex_less(left@[old_i]@, right@[old_j]@));
                    if old_j < b {
                        assert(lex_less(right@[old_j]@, right@[b]@));
                        lemma_lex_transitive(left@[old_i]@, right@[old_j]@, right@[b]@);
                    }
                }
            }
            assert forall|identity: Seq<u8>| #[trigger]
                holds(merged@, identity) <==> holds(left@.take(i as int), identity) || holds(
                    right@.take(j as int),
                    identity,
                ) by {
                lemma_holds_push(before, next, identity);
                assert(merged@ =~= before.push(next));
                if take_left {
                    assert(left@.take(i as int) =~= left@.take(old_i).push(left@[old_i]));
                    lemma_holds_push(left@.take(old_i), left@[old_i], identity);
                }
                if take_right {
                    assert(right@.take(j as int) =~= right@.take(old_j).push(right@[old_j]));
                    lemma_holds_push(right@.take(old_j), right@[old_j], identity);
                }
                assert(holds(before, identity) <==> holds(left@.take(old_i), identity) || holds(
                    right@.take(old_j),
                    identity,
                ));
            }
        }
    }
    assert(left@.take(left@.len() as int) =~= left@);
    assert(right@.take(right@.len() as int) =~= right@);
    merged
}

/// One more row adds its identity.
proof fn lemma_holds_push<const N: usize>(rows: Seq<[u8; N]>, row: [u8; N], identity: Seq<u8>)
    ensures
        holds(rows.push(row), identity) <==> holds(rows, identity) || row@ == identity,
{
    let more = rows.push(row);
    if holds(rows, identity) {
        let i = choose|i: int| 0 <= i < rows.len() && #[trigger] rows[i]@ == identity;
        assert(more[i]@ == identity);
    }
    if row@ == identity {
        assert(more[rows.len() as int]@ == identity);
    }
    if holds(more, identity) {
        let i = choose|i: int| 0 <= i < more.len() && #[trigger] more[i]@ == identity;
        if i < rows.len() {
            assert(rows[i]@ == identity);
        }
    }
}

/// The rows from `start` to `end`, sorted, each identity once.
fn sort_range<const N: usize>(rows: &Vec<[u8; N]>, start: usize, end: usize) -> (unique: Vec<
    [u8; N],
>)
    requires
        start <= end <= rows@.len(),
    ensures
        lists_unique(unique@, rows@.subrange(start as int, end as int)),
    decreases end - start,
{
    let ghost range = rows@.subrange(start as int, end as int);
    if end - start == 0 {
        let unique: Vec<[u8; N]> = Vec::new();
        assert forall|identity: Seq<u8>| #[trigger] holds(unique@, identity) <==> holds(
            range,
            identity,
        ) by {}
        return unique;
    }
    if end - start == 1 {
        let mut unique: Vec<[u8; N]> = Vec::new();
        unique.push(rows[start]);
        assert(unique@ =~= range);
        return unique;
    }
    let middle: usize = start + (end - start) / 2;
    let left: Vec<[u8; N]> = sort_range(rows, start, middle);
    let right: Vec<[u8; N]> = sort_range(rows, middle, end);
    let unique: Vec<[u8; N]> = merge_unique(&left, &right);
    proof {
        let a = rows@.subrange(start as int, middle as int);
        let b = rows@.subrange(middle as int, end as int);
        assert forall|identity: Seq<u8>| #[trigger] holds(unique@, identity) <==> holds(
            range,
            identity,
        ) by {
            assert(holds(left@, identity) <==> holds(a, identity));
            assert(holds(right@, identity) <==> holds(b, identity));
            if holds(a, identity) {
                let i = choose|i: int| 0 <= i < a.len() && #[trigger] a[i]@ == identity;
                assert(range[i]@ == identity);
            }
            if holds(b, identity) {
                let i = choose|i: int| 0 <= i < b.len() && #[trigger] b[i]@ == identity;
                assert(range[i + a.len()]@ == identity);
            }
            if holds(range, identity) {
                let i = choose|i: int| 0 <= i < range.len() && #[trigger] range[i]@ == identity;
                if i < a.len() {
                    assert(a[i]@ == identity);
                } else {
                    assert(b[i - a.len()]@ == identity);
                }
            }
        }
    }
    unique
}

/// The rows sorted, each identity once.
pub fn sort_unique<const N: usize>(rows: &Vec<[u8; N]>) -> (unique: Vec<[u8; N]>)
    ensures
        lists_unique(unique@, rows@),
{
    assert(rows@.subrange(0, rows@.len() as int) =~= rows@);
    sort_range(rows, 0, rows.len())
}

/// The sorted list of unique identities is determined by the rows.
pub proof fn lemma_unique_list<const N: usize>(
    a: Seq<[u8; N]>,
    b: Seq<[u8; N]>,
    rows: Seq<[u8; N]>,
)
    requires
        lists_unique(a, rows),
        lists_unique(b, rows),
    ensures
        a.len() == b.len(),
        forall|i: int| 0 <= i < a.len() ==> (#[trigger] a[i])@ == b[i]@,
{
    let n = if a.len() < b.len() {
        a.len() as int
    } else {
        b.len() as int
    };
    lemma_unique_prefix(a, b, rows, n);
    if a.len() < b.len() {
        let x = b[n]@;
        assert(holds(b, x));
        assert(holds(a, x));
        let i = choose|i: int| 0 <= i < a.len() && #[trigger] a[i]@ == x;
        assert(a[i]@ == b[i]@);
        assert(lex_less(b[i]@, b[n]@));
        lemma_lex_antisymmetric(x, x);
    }
    if b.len() < a.len() {
        let x = a[n]@;
        assert(holds(a, x));
        assert(holds(b, x));
        let i = choose|i: int| 0 <= i < b.len() && #[trigger] b[i]@ == x;
        assert(a[i]@ == b[i]@);
        assert(lex_less(a[i]@, a[n]@));
        lemma_lex_antisymmetric(x, x);
    }
}

proof fn lemma_unique_prefix<const N: usize>(
    a: Seq<[u8; N]>,
    b: Seq<[u8; N]>,
    rows: Seq<[u8; N]>,
    n: int,
)
    requires
        lists_unique(a, rows),
        lists_unique(b, rows),
        0 <= n <= a.len(),
        n <= b.len(),
    ensures
        forall|i: int| 0 <= i < n ==> (#[trigger] a[i])@ == b[i]@,
    decreases n,
{
    if n > 0 {
        lemma_unique_prefix(a, b, rows, n - 1);
        let x = a[n - 1]@;
        let y = b[n - 1]@;
        assert(holds(a, x));
        assert(holds(b, x));
        assert(holds(b, y));
        assert(holds(a, y));
        let j = choose|j: int| 0 <= j < b.len() && #[trigger] b[j]@ == x;
        let k = choose|k: int| 0 <= k < a.len() && #[trigger] a[k]@ == y;
        lemma_lex_antisymmetric(x, y);
        lemma_lex_antisymmetric(x, x);
        if j < n - 1 {
            assert(a[j]@ == b[j]@);
            assert(lex_less(a[j]@, a[n - 1]@));
        } else if j > n - 1 {
            assert(lex_less(b[n - 1]@, b[j]@));
            if k < n - 1 {
                assert(a[k]@ == b[k]@);
                assert(lex_less(b[k]@, b[n - 1]@));
                lemma_lex_antisymmetric(y, y);
            } else if k > n - 1 {
                assert(lex_less(a[n - 1]@, a[k]@));
            }
        }
    }
}

} // verus!
