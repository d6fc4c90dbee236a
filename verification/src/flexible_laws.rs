//! What a distinct-author estimate says of the events.
//!
//! An event is 70 bytes: the publisher key in the first 32, the second of its
//! creation in the next four, and its kind in the two behind.

use vstd::prelude::*;

use crate::activity::{activity_fact, created_at};
use crate::artifact::EncodedRun;
use crate::bytes::{be_bytes, lemma_be_bytes_round_trip, lemma_be_limits, lemma_be_nat_bound};
use crate::error::Result;
use crate::flexible_distinct::{
    leaves_cover, FlexibleDistinctEvidence, FlexibleDistinctWindow, FlexibleRevalidation,
};
use crate::flexible_windows::{
    estimates_alone, in_window, joins_to, sketch_views, window_fits, window_sketches,
};
use crate::hour_identities::{
    cuts_groups, describes_identity, follows_group, group_end, has_identity, holds_run,
    hour_identity, identity_at, lists_identities, LeafGroup,
};
use crate::leaf_stream::{holds_leaves, leaf_at, leaf_fits, leaves_from};
use crate::records::{record, record_count};
use crate::words::{cut, lemma_big_endian, lemma_records_are_cut, word16, word32};

verus! {

/// The hour of the leaf lies between the ends of the window, and the leaf has
/// exactly the kind of the window, where it has one.
pub open spec fn of_window(window: FlexibleDistinctWindow) -> spec_fn(
    (u32, u16, Seq<u8>),
) -> bool {
    |leaf: (u32, u16, Seq<u8>)|
        {
            &&& window.since_epoch <= leaf.0 * 3_600
            &&& leaf.0 * 3_600 + 3_600 <= window.until_epoch
            &&& window.kind matches Some(k) ==> leaf.1 == k
        }
}

/// The sketch of a leaf.
pub open spec fn sketch_of() -> spec_fn((u32, u16, Seq<u8>)) -> Seq<u8> {
    |leaf: (u32, u16, Seq<u8>)| leaf.2
}

/// A window that is served starts and ends with whole hours, and ends no later
/// than the product does.
pub proof fn lemma_served_windows_are_whole_hours(
    window: FlexibleDistinctWindow,
    through: int,
)
    ensures
        window_fits(window, through) <==> {
            &&& exists|hour: int| window.since_epoch == #[trigger] (3_600 * hour)
            &&& exists|hour: int|
                window.until_epoch == #[trigger] (3_600 * hour) && hour < 0x1_0000_0000
            &&& window.since_epoch <= window.until_epoch
            &&& window.until_epoch <= through
        },
{
    if window_fits(window, through) {
        let a = window.since_epoch as int / 3_600;
        let b = window.until_epoch as int / 3_600;
        assert(window.since_epoch == 3_600 * a);
        assert(window.until_epoch == 3_600 * b);
    }
}

/// A window of complete hours selects the sketches of exactly the leaves of its
/// hours and kind, each once and in order.
pub proof fn lemma_window_selects_its_leaves(
    leaves: Seq<(u32, u16, Seq<u8>)>,
    window: FlexibleDistinctWindow,
    through: int,
)
    requires
        window_fits(window, through),
    ensures
        window_sketches(leaves, window) == leaves.filter(of_window(window)).map_values(
            sketch_of(),
        ),
    decreases leaves.len(),
{
    reveal(Seq::filter);
    if leaves.len() == 0 {
        assert(window_sketches(leaves, window) =~= leaves.filter(of_window(window)).map_values(
            sketch_of(),
        ));
    } else {
        let fewer = leaves.drop_last();
        lemma_window_selects_its_leaves(fewer, window, through);
        let leaf = leaves.last();
        assert(in_window(leaf, window) == of_window(window)(leaf));
        assert(window_sketches(leaves, window) =~= leaves.filter(of_window(window)).map_values(
            sketch_of(),
        ));
    }
}

/// A window of one kind selects what the same window of all kinds selects from
/// the leaves of this kind, and nothing from leaves of other kinds.
pub proof fn lemma_kinds_part_a_window(
    leaves: Seq<(u32, u16, Seq<u8>)>,
    window: FlexibleDistinctWindow,
    kind: u16,
)
    requires
        window.kind is None,
    ensures
        ({
            let narrow = FlexibleDistinctWindow { kind: Some(kind), ..window };
            &&& window_sketches(leaves, narrow) == window_sketches(
                leaves.filter(|leaf: (u32, u16, Seq<u8>)| leaf.1 == kind),
                window,
            )
            &&& window_sketches(
                leaves.filter(|leaf: (u32, u16, Seq<u8>)| leaf.1 != kind),
                narrow,
            ).len() == 0
            &&& window_sketches(leaves, window).len() == window_sketches(leaves, narrow).len()
                + window_sketches(
                leaves.filter(|leaf: (u32, u16, Seq<u8>)| leaf.1 != kind),
                window,
            ).len()
        }),
    decreases leaves.len(),
{
    reveal(Seq::filter);
    let narrow = FlexibleDistinctWindow { kind: Some(kind), ..window };
    let same = |leaf: (u32, u16, Seq<u8>)| leaf.1 == kind;
    let other = |leaf: (u32, u16, Seq<u8>)| leaf.1 != kind;
    if leaves.len() > 0 {
        let fewer = leaves.drop_last();
        let leaf = leaves.last();
        lemma_kinds_part_a_window(fewer, window, kind);
        assert(fewer.filter(same).push(leaf).drop_last() =~= fewer.filter(same));
        assert(fewer.filter(other).push(leaf).drop_last() =~= fewer.filter(other));
    }
}

/// An estimate joins the sketches of exactly the leaves of its window, or the
/// window is not one of complete hours.
pub proof fn lemma_estimate_joins_its_leaves<U: Fn(Vec<Vec<u8>>) -> Result<u64>>(
    union: U,
    evidence: FlexibleDistinctEvidence,
    read: FlexibleRevalidation,
    window: FlexibleDistinctWindow,
    outcome: Result<u64>,
)
    requires
        estimates_alone(union, evidence, read, window, outcome),
        outcome is Ok,
    ensures
        exists|leaves: Seq<(u32, u16, Seq<u8>)>, given: Vec<Vec<u8>>|
            #![trigger holds_leaves(read.leaves@, leaves), sketch_views(given@)]
            {
                &&& holds_leaves(read.leaves@, leaves)
                &&& call_ensures(union, (given,), outcome)
                &&& sketch_views(given@) == leaves.filter(of_window(window)).map_values(
                    sketch_of(),
                )
            },
{
    let leaves = choose|leaves: Seq<(u32, u16, Seq<u8>)>| #[trigger]
        holds_leaves(read.leaves@, leaves) && joins_to(
            union,
            window_sketches(leaves, window),
            outcome,
        );
    let given = choose|given: Vec<Vec<u8>>|
        sketch_views(given@) == window_sketches(leaves, window) && #[trigger] call_ensures(
            union,
            (given,),
            outcome,
        );
    lemma_window_selects_its_leaves(leaves, window, evidence.complete_through_epoch as int);
    assert(holds_leaves(read.leaves@, leaves));
    assert(sketch_views(given@) == leaves.filter(of_window(window)).map_values(sketch_of()));
}

/// A leaf is written as its hour in four bytes, its kind in two, the length of
/// its sketch in four, and the sketch; the next leaf follows at once.
pub proof fn lemma_leaf_layout(bytes: Seq<u8>, leaves: Seq<(u32, u16, Seq<u8>)>)
    requires
        holds_leaves(bytes, leaves),
        bytes.len() > 0,
    ensures
        leaves.len() > 0,
        bytes.len() >= 10 + word32(bytes, 6),
        leaves[0].0 == word32(bytes, 0),
        leaves[0].1 == word16(bytes, 4),
        leaves[0].2 == bytes.subrange(10, 10 + word32(bytes, 6)),
        leaves_from(bytes, 10 + word32(bytes, 6)) == Some(leaves.skip(1)),
        forall|i: int, j: int|
            0 <= i < j < leaves.len() ==> (#[trigger] leaves[i]).0 < (#[trigger] leaves[j]).0 || (
            leaves[i].0 == leaves[j].0 && leaves[i].1 < leaves[j].1),
{
    lemma_big_endian(bytes, 0);
    lemma_big_endian(bytes, 4);
    lemma_big_endian(bytes, 6);
    assert(leaf_fits(bytes, 0));
    lemma_be_limits();
    lemma_be_nat_bound(bytes.subrange(0, 4));
    lemma_be_nat_bound(bytes.subrange(4, 6));
    let rest = leaves_from(bytes, 10 + word32(bytes, 6))->0;
    assert(leaves == seq![leaf_at(bytes, 0)] + rest);
    assert(leaves.skip(1) =~= rest);
    assert forall|i: int, j: int| 0 <= i < j < leaves.len() implies (#[trigger] leaves[i]).0 < (
    #[trigger] leaves[j]).0 || (leaves[i].0 == leaves[j].0 && leaves[i].1 < leaves[j].1) by {
        assert(crate::leaf_stream::leaf_rank(leaves[i]) < crate::leaf_stream::leaf_rank(
            leaves[j],
        ));
    }
}

/// The identity of an event is the hour in which it was created, its kind and
/// its publisher.
pub proof fn lemma_identity_of_an_event(event: Seq<u8>)
    requires
        event.len() == 70,
    ensures
        hour_identity(event).len() == 38,
        word32(hour_identity(event), 0) * 3_600 <= word32(event, 32) < word32(
            hour_identity(event),
            0,
        ) * 3_600 + 3_600,
        word16(hour_identity(event), 4) == word16(event, 36),
        hour_identity(event).subrange(6, 38) == event.subrange(0, 32),
{
    lemma_big_endian(event, 32);
    lemma_be_limits();
    lemma_be_nat_bound(event.subrange(32, 36));
    let hour = created_at(event) / 3_600;
    lemma_be_bytes_round_trip(hour, 4);
    let identity = hour_identity(event);
    assert(identity.subrange(0, 4) =~= be_bytes(hour, 4));
    lemma_big_endian(identity, 0);
    assert(identity[4] == event[36] && identity[5] == event[37]);
    assert(identity.subrange(6, 38) =~= event.subrange(0, 32));
}

/// An event before the boundary has an identity: its publisher stands in its
/// hour and kind.
pub proof fn lemma_event_has_its_identity(
    run: EncodedRun,
    activity: Seq<u8>,
    boundary: int,
    k: int,
) -> (i: int)
    requires
        lists_identities(run, activity, boundary),
        0 <= k < cut(activity, 70).len(),
        word32(cut(activity, 70)[k], 32) < boundary,
    ensures
        0 <= i < cut(run.bytes@, 38).len(),
        is_of_event(cut(run.bytes@, 38)[i], cut(activity, 70)[k]),
{
    lemma_records_are_cut(run.bytes@, 38);
    lemma_records_are_cut(activity, 70);
    let event = cut(activity, 70)[k];
    assert(event == activity_fact(activity, k));
    lemma_big_endian(event, 32);
    lemma_identity_of_an_event(event);
    assert(has_identity(activity, boundary, hour_identity(event)));
    let i = choose|i: int|
        0 <= i < run.rows && #[trigger] record(run.bytes@, 38, i) == hour_identity(event);
    assert(cut(run.bytes@, 38)[i] == record(run.bytes@, 38, i));
    i
}

/// An identity is that of an event before the boundary, and of no other place.
pub proof fn lemma_identity_has_its_event(
    run: EncodedRun,
    activity: Seq<u8>,
    boundary: int,
    i: int,
) -> (k: int)
    requires
        lists_identities(run, activity, boundary),
        0 <= i < cut(run.bytes@, 38).len(),
    ensures
        0 <= k < cut(activity, 70).len(),
        word32(cut(activity, 70)[k], 32) < boundary,
        is_of_event(cut(run.bytes@, 38)[i], cut(activity, 70)[k]),
        forall|j: int|
            0 <= j < cut(run.bytes@, 38).len() && j != i ==> #[trigger] cut(run.bytes@, 38)[j]
                != cut(run.bytes@, 38)[i],
{
    lemma_records_are_cut(run.bytes@, 38);
    lemma_records_are_cut(activity, 70);
    let ids = cut(run.bytes@, 38);
    assert(ids[i] == record(run.bytes@, 38, i));
    assert(has_identity(activity, boundary, ids[i]));
    let k = choose|k: int|
        0 <= k < record_count(activity, 70) && created_at(#[trigger] activity_fact(activity, k))
            < boundary && hour_identity(activity_fact(activity, k)) == ids[i];
    let event = cut(activity, 70)[k];
    assert(event == activity_fact(activity, k));
    lemma_big_endian(event, 32);
    lemma_identity_of_an_event(event);
    assert forall|j: int| 0 <= j < ids.len() && j != i implies #[trigger] ids[j] != ids[i] by {
        let (a, b) = if i < j {
            (i, j)
        } else {
            (j, i)
        };
        assert(ids[a] == record(run.bytes@, 38, a) && ids[b] == record(run.bytes@, 38, b));
        assert(crate::bytes::lex_less(
            crate::records::record_key(run.bytes@, 38, 38, a),
            crate::records::record_key(run.bytes@, 38, 38, b),
        ));
        assert(crate::records::record_key(run.bytes@, 38, 38, a) =~= ids[a]);
        assert(crate::records::record_key(run.bytes@, 38, 38, b) =~= ids[b]);
        crate::bytes::lemma_lex_antisymmetric(ids[a], ids[b]);
    }
    k
}

/// The identity is that of the event.
pub open spec fn is_of_event(identity: Seq<u8>, event: Seq<u8>) -> bool {
    &&& word32(identity, 0) * 3_600 <= word32(event, 32) < word32(identity, 0) * 3_600 + 3_600
    &&& word16(identity, 4) == word16(event, 36)
    &&& identity.subrange(6, 38) == event.subrange(0, 32)
}

/// Every identity of a cut artifact belongs to a group of its own hour and kind.
pub proof fn lemma_identity_has_its_group(
    groups: Seq<LeafGroup>,
    identities: Seq<u8>,
    i: int,
)
    requires
        cuts_groups(groups, identities, cut(identities, 38).len() as int),
        0 <= i < cut(identities, 38).len(),
    ensures
        exists|g: int|
            {
                &&& 0 <= g < groups.len()
                &&& (#[trigger] groups[g]).start <= i
                &&& i < groups[g].start + groups[g].exact_identities
                &&& groups[g].hour == word32(cut(identities, 38)[i], 0)
                &&& groups[g].kind == word16(cut(identities, 38)[i], 4)
            },
{
    lemma_records_are_cut(identities, 38);
    let g = lemma_group_of(groups, identities, cut(identities, 38).len() as int, i, 0);
    let identity = cut(identities, 38)[i];
    assert(identity == identity_at(identities, i));
    assert(holds_run(groups[g], identities));
    assert(describes_identity(groups[g], identity_at(identities, i)));
    lemma_big_endian(identity, 0);
    lemma_big_endian(identity, 4);
}

/// A place lies in one of the groups from `g` on.
proof fn lemma_group_of(
    groups: Seq<LeafGroup>,
    identities: Seq<u8>,
    count: int,
    i: int,
    g: int,
) -> (found: int)
    requires
        cuts_groups(groups, identities, count),
        0 <= g < groups.len(),
        groups[g].start <= i < count,
    ensures
        0 <= found < groups.len(),
        groups[found].start <= i < group_end(groups[found]),
    decreases groups.len() - g,
{
    if i < group_end(groups[g]) {
        g
    } else {
        if g + 1 < groups.len() {
            assert(follows_group(groups, g + 1, identities));
        }
        lemma_group_of(groups, identities, count, i, g + 1)
    }
}

/// An event of the window counts: its publisher is one of the identities of a
/// leaf that the window selects.
pub proof fn lemma_event_is_in_the_estimate(
    run: EncodedRun,
    activity: Seq<u8>,
    evidence: FlexibleDistinctEvidence,
    read: FlexibleRevalidation,
    leaves: Seq<(u32, u16, Seq<u8>)>,
    groups: Seq<LeafGroup>,
    window: FlexibleDistinctWindow,
    k: int,
)
    requires
        lists_identities(run, activity, evidence.complete_through_epoch as int),
        run.bytes@ == read.identities@,
        leaves_cover(evidence, read, leaves, groups),
        window_fits(window, evidence.complete_through_epoch as int),
        0 <= k < cut(activity, 70).len(),
        window.since_epoch <= word32(cut(activity, 70)[k], 32) < window.until_epoch,
        window.kind matches Some(kind) ==> word16(cut(activity, 70)[k], 36) == kind,
    ensures
        exists|g: int, i: int|
            #![trigger groups[g], cut(read.identities@, 38)[i]]
            {
                &&& 0 <= g < leaves.len()
                &&& of_window(window)(leaves[g])
                &&& leaves.filter(of_window(window)).contains(leaves[g])
                &&& groups[g].start <= i < groups[g].start + groups[g].exact_identities
                &&& cut(read.identities@, 38)[i].subrange(6, 38) == cut(
                    activity,
                    70,
                )[k].subrange(0, 32)
            },
{
    let event = cut(activity, 70)[k];
    let ids = cut(read.identities@, 38);
    let i = lemma_event_has_its_identity(
        run,
        activity,
        evidence.complete_through_epoch as int,
        k,
    );
    lemma_records_are_cut(read.identities@, 38);
    lemma_identity_has_its_group(groups, read.identities@, i);
    let g = choose|g: int|
        {
            &&& 0 <= g < groups.len()
            &&& (#[trigger] groups[g]).start <= i
            &&& i < groups[g].start + groups[g].exact_identities
            &&& groups[g].hour == word32(ids[i], 0)
            &&& groups[g].kind == word16(ids[i], 4)
        };
    assert(leaves[g] == (groups[g].hour, groups[g].kind, read.rebuilt@[g]@));
    assert(of_window(window)(leaves[g]));
    assert(ids[i].subrange(6, 38) == event.subrange(0, 32));
}

} // verus!
