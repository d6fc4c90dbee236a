//! Distinct-author estimates over windows of complete hours.
//!
//! A window selects the leaves of its hours and kind. Joining their sketches
//! and reading the estimate is the caller's: it comes in as a function.

use vstd::prelude::*;

use crate::digest::{sha256_hex, sha256_text};
use crate::error::{Error, Result};
use crate::flexible_distinct::{
    completed_for, product_valid, BoundedFlexibleDistinct, FlexibleDistinctEvidence,
    FlexibleDistinctWindow, FlexibleRevalidation,
};
use crate::leaf_stream::{
    held_leaves, holds_leaves, leaf_views, leaf_visit, read_leaves, visit_leaves, FlexibleLeaf,
};
use crate::visits::{visits_rows, without_value};

verus! {

/// The window covers complete hours that the product represents.
pub open spec fn window_fits(window: FlexibleDistinctWindow, complete_through: int) -> bool {
    &&& window.since_epoch % 3_600 == 0
    &&& window.until_epoch % 3_600 == 0
    &&& window.since_epoch <= window.until_epoch <= complete_through
    &&& window.until_epoch / 3_600 <= u32::MAX
}

/// Every window fits.
pub open spec fn windows_fit(
    windows: Seq<FlexibleDistinctWindow>,
    complete_through: int,
) -> bool {
    forall|i: int|
        0 <= i < windows.len() ==> window_fits(#[trigger] windows[i], complete_through)
}

/// The leaf lies in the window and has its kind.
pub open spec fn in_window(
    leaf: (u32, u16, Seq<u8>),
    window: FlexibleDistinctWindow,
) -> bool {
    &&& window.since_epoch as int / 3_600 <= leaf.0 < window.until_epoch as int / 3_600
    &&& match window.kind {
        None => true,
        Some(kind) => kind == leaf.1,
    }
}

/// The sketches that the window selects, in the order of the leaves.
pub open spec fn window_sketches(
    leaves: Seq<(u32, u16, Seq<u8>)>,
    window: FlexibleDistinctWindow,
) -> Seq<Seq<u8>>
    decreases leaves.len(),
{
    if leaves.len() == 0 {
        Seq::empty()
    } else {
        let earlier = window_sketches(leaves.drop_last(), window);
        if in_window(leaves.last(), window) {
            earlier.push(leaves.last().2)
        } else {
            earlier
        }
    }
}

/// The contents of the sketches.
pub open spec fn sketch_views(sketches: Seq<Vec<u8>>) -> Seq<Seq<u8>> {
    Seq::new(sketches.len(), |i: int| sketches[i]@)
}

/// The join of the sketches may come out as `outcome`.
pub open spec fn joins_to<U: Fn(Vec<Vec<u8>>) -> Result<u64>>(
    union: U,
    sketches: Seq<Seq<u8>>,
    outcome: Result<u64>,
) -> bool {
    exists|given: Vec<Vec<u8>>|
        sketch_views(given@) == sketches && #[trigger] call_ensures(union, (given,), outcome)
}

/// The sketches of the leaves in a window.
fn select_window(leaves: &Vec<FlexibleLeaf>, window: &FlexibleDistinctWindow) -> (sketches: Vec<
    Vec<u8>,
>)
    ensures
        sketch_views(sketches@) == window_sketches(leaf_views(leaves@), *window),
{
    let ghost views = leaf_views(leaves@);
    let start: u64 = window.since_epoch / 3_600;
    let end: u64 = window.until_epoch / 3_600;
    let mut sketches: Vec<Vec<u8>> = Vec::new();
    let mut i: usize = 0;
    proof {
        assert(views.take(0) =~= Seq::empty());
        assert(sketch_views(sketches@) =~= Seq::empty());
    }
    while i < leaves.len()
        invariant
            i <= leaves@.len(),
            views == leaf_views(leaves@),
            start == window.since_epoch as int / 3_600,
            end == window.until_epoch as int / 3_600,
            sketch_views(sketches@) == window_sketches(views.take(i as int), *window),
        decreases leaves.len() - i,
    {
        let leaf: &FlexibleLeaf = &leaves[i];
        let of_kind: bool = match window.kind {
            None => true,
            Some(kind) => kind == leaf.kind,
        };
        proof {
            assert(views.take(i + 1).drop_last() =~= views.take(i as int));
            assert(views.take(i + 1).last() == leaf@);
        }
        if leaf.hour as u64 >= start && (leaf.hour as u64) < end && of_kind {
            let ghost before = sketches@;
            sketches.push(vstd::slice::slice_to_vec(leaf.sketch.as_slice()));
            assert(sketch_views(sketches@) =~= sketch_views(before).push(leaf.sketch@));
        }
        i += 1;
    }
    assert(views.take(views.len() as int) =~= views);
    sketches
}

/// The estimates are those of the windows over the leaves.
pub open spec fn estimates_windows<U: Fn(Vec<Vec<u8>>) -> Result<u64>>(
    union: U,
    leaves: Seq<(u32, u16, Seq<u8>)>,
    windows: Seq<FlexibleDistinctWindow>,
    estimates: Seq<u64>,
) -> bool {
    &&& estimates.len() == windows.len()
    &&& forall|i: int|
        0 <= i < windows.len() ==> joins_to(
            union,
            window_sketches(leaves, windows[i]),
            Ok(#[trigger] estimates[i]),
        )
}

/// Joining the sketches of a window fails with `error`, behind the estimates of
/// the windows before it.
pub open spec fn join_fails<U: Fn(Vec<Vec<u8>>) -> Result<u64>>(
    union: U,
    leaves: Seq<(u32, u16, Seq<u8>)>,
    windows: Seq<FlexibleDistinctWindow>,
    error: Error,
) -> bool {
    exists|estimates: Seq<u64>|
        {
            &&& estimates.len() < windows.len()
            &&& #[trigger] estimates_windows(
                union,
                leaves,
                windows.take(estimates.len() as int),
                estimates,
            )
            &&& joins_to(
                union,
                window_sketches(leaves, windows[estimates.len() as int]),
                Err(error),
            )
        }
}

/// What estimating the windows over a leaf artifact comes to.
pub open spec fn estimates_outcome<U: Fn(Vec<Vec<u8>>) -> Result<u64>>(
    union: U,
    leaf_bytes: Seq<u8>,
    complete_through: int,
    windows: Seq<FlexibleDistinctWindow>,
    outcome: Result<Vec<u64>>,
) -> bool {
    match outcome {
        Ok(estimates) => {
            &&& windows_fit(windows, complete_through)
            &&& exists|leaves: Seq<(u32, u16, Seq<u8>)>|
                holds_leaves(leaf_bytes, leaves) && #[trigger] estimates_windows(
                    union,
                    leaves,
                    windows,
                    estimates@,
                )
        },
        Err(error) => {
            ||| {
                &&& error is Invalid
                &&& !windows_fit(windows, complete_through) || forall|
                    leaves: Seq<(u32, u16, Seq<u8>)>,
                | !holds_leaves(leaf_bytes, leaves)
            }
            ||| {
                &&& windows_fit(windows, complete_through)
                &&& exists|leaves: Seq<(u32, u16, Seq<u8>)>|
                    holds_leaves(leaf_bytes, leaves) && #[trigger] join_fails(
                        union,
                        leaves,
                        windows,
                        error,
                    )
            }
        },
    }
}

/// What estimating the windows of a product comes to.
pub open spec fn estimates_product<U: Fn(Vec<Vec<u8>>) -> Result<u64>>(
    union: U,
    evidence: FlexibleDistinctEvidence,
    read: FlexibleRevalidation,
    windows: Seq<FlexibleDistinctWindow>,
    outcome: Result<Vec<u64>>,
) -> bool {
    if completed_for(evidence, evidence.snapshot_id@, evidence.as_of_epoch) && product_valid(
        evidence,
        read,
    ) {
        estimates_outcome(
            union,
            read.leaves@,
            evidence.complete_through_epoch as int,
            windows,
            outcome,
        )
    } else {
        outcome is Err && outcome->Err_0 is Invalid
    }
}

/// What estimating one window of a product comes to.
pub open spec fn estimates_alone<U: Fn(Vec<Vec<u8>>) -> Result<u64>>(
    union: U,
    evidence: FlexibleDistinctEvidence,
    read: FlexibleRevalidation,
    window: FlexibleDistinctWindow,
    outcome: Result<u64>,
) -> bool {
    if completed_for(evidence, evidence.snapshot_id@, evidence.as_of_epoch) && product_valid(
        evidence,
        read,
    ) && window_fits(window, evidence.complete_through_epoch as int) {
        exists|leaves: Seq<(u32, u16, Seq<u8>)>| #[trigger]
            holds_leaves(read.leaves@, leaves) && joins_to(
                union,
                window_sketches(leaves, window),
                outcome,
            )
    } else {
        outcome is Err && outcome->Err_0 is Invalid
    }
}

/// Whether every window fits.
fn check_windows(windows: &[FlexibleDistinctWindow], complete_through: u64) -> (outcome: Result<()>)
    ensures
        outcome is Ok <==> windows_fit(windows@, complete_through as int),
        outcome is Err ==> outcome->Err_0 is Invalid,
{
    let mut i: usize = 0;
    while i < windows.len()
        invariant
            i <= windows@.len(),
            forall|j: int|
                0 <= j < i ==> window_fits(#[trigger] windows@[j], complete_through as int),
        decreases windows@.len() - i,
    {
        let window: FlexibleDistinctWindow = windows[i];
        if window.since_epoch % 3_600 != 0 || window.until_epoch % 3_600 != 0
            || window.since_epoch > window.until_epoch || window.until_epoch > complete_through {
            assert(!window_fits(windows@[i as int], complete_through as int));
            return Err(
                Error::Invalid("flexible distinct window is not a valid complete-hour interval"),
            );
        }
        if window.until_epoch / 3_600 > u32::MAX as u64 {
            assert(!window_fits(windows@[i as int], complete_through as int));
            return Err(Error::Invalid("window end hour exceeds u32"));
        }
        i += 1;
    }
    Ok(())
}

/// Estimate the windows over the leaves of a product that was validated.
fn estimate_validated_windows<U: Fn(Vec<Vec<u8>>) -> Result<u64>>(
    evidence: &FlexibleDistinctEvidence,
    leaf_bytes: &[u8],
    windows: &[FlexibleDistinctWindow],
    union: &U,
) -> (outcome: Result<Vec<u64>>)
    requires
        forall|given: Vec<Vec<u8>>| call_requires(*union, (given,)),
    ensures
        estimates_outcome(
            *union,
            leaf_bytes@,
            evidence.complete_through_epoch as int,
            windows@,
            outcome,
        ),
{
    match check_windows(windows, evidence.complete_through_epoch) {
        Ok(()) => {},
        Err(error) => {
            return Err(error);
        },
    }
    let leaves: Vec<FlexibleLeaf> = match read_leaves(leaf_bytes) {
        Ok(leaves) => leaves,
        Err(error) => {
            return Err(error);
        },
    };
    let ghost views = leaf_views(leaves@);
    let mut estimates: Vec<u64> = Vec::new();
    let mut i: usize = 0;
    while i < windows.len()
        invariant
            i <= windows@.len(),
            estimates@.len() == i,
            views == leaf_views(leaves@),
            holds_leaves(leaf_bytes@, views),
            windows_fit(windows@, evidence.complete_through_epoch as int),
            forall|given: Vec<Vec<u8>>| call_requires(*union, (given,)),
            forall|j: int|
                0 <= j < i ==> joins_to(
                    *union,
                    window_sketches(views, windows@[j]),
                    Ok(#[trigger] estimates@[j]),
                ),
        decreases windows@.len() - i,
    {
        let given: Vec<Vec<u8>> = select_window(&leaves, &windows[i]);
        let ghost sketches = sketch_views(given@);
        match union(given) {
            Ok(estimate) => {
                assert(joins_to(*union, sketches, Ok(estimate)));
                estimates.push(estimate);
            },
            Err(error) => {
                proof {
                    assert(joins_to(
                        *union,
                        window_sketches(views, windows@[i as int]),
                        Err(error),
                    ));
                    let before = windows@.take(i as int);
                    assert forall|j: int| 0 <= j < before.len() implies joins_to(
                        *union,
                        window_sketches(views, before[j]),
                        Ok(#[trigger] estimates@[j]),
                    ) by {
                        assert(before[j] == windows@[j]);
                    }
                    assert(estimates_windows(*union, views, before, estimates@));
                    assert(join_fails(*union, views, windows@, error));
                }
                return Err(error);
            },
        }
        i += 1;
    }
    assert(windows_fit(windows@, evidence.complete_through_epoch as int));
    assert(holds_leaves(leaf_bytes@, views) && estimates_windows(
        *union,
        views,
        windows@,
        estimates@,
    ));
    let outcome: Result<Vec<u64>> = Ok(estimates);
    proof {
        assert(outcome->Ok_0 == estimates);
        assert(estimates_outcome(
            *union,
            leaf_bytes@,
            evidence.complete_through_epoch as int,
            windows@,
            outcome,
        ));
    }
    outcome
}

/// Validate once and estimate several windows with one read of the leaves.
pub fn estimate_flexible_distinct_windows<U: Fn(Vec<Vec<u8>>) -> Result<u64>>(
    product: &BoundedFlexibleDistinct,
    read: &FlexibleRevalidation,
    windows: &[FlexibleDistinctWindow],
    union: &U,
) -> (outcome: Result<Vec<u64>>)
    requires
        forall|given: Vec<Vec<u8>>| call_requires(*union, (given,)),
    ensures
        estimates_product(*union, product.evidence, *read, windows@, outcome),
{
    match product.validate_for_publication(
        product.evidence.snapshot_id.as_str(),
        product.evidence.as_of_epoch,
        read,
    ) {
        Ok(()) => {},
        Err(error) => {
            return Err(error);
        },
    }
    estimate_validated_windows(&product.evidence, read.leaves, windows, union)
}

/// Join the leaves of one aligned half-open window.
pub fn estimate_flexible_distinct_window<U: Fn(Vec<Vec<u8>>) -> Result<u64>>(
    product: &BoundedFlexibleDistinct,
    read: &FlexibleRevalidation,
    since_epoch: u64,
    until_epoch: u64,
    kind: Option<u16>,
    union: &U,
) -> (outcome: Result<u64>)
    requires
        forall|given: Vec<Vec<u8>>| call_requires(*union, (given,)),
    ensures
        ({
            let window = FlexibleDistinctWindow { since_epoch, until_epoch, kind };
            estimates_alone(*union, product.evidence, *read, window, outcome)
        }),
{
    let window: FlexibleDistinctWindow = FlexibleDistinctWindow { since_epoch, until_epoch, kind };
    let windows: [FlexibleDistinctWindow; 1] = [window];
    let result: Result<Vec<u64>> = estimate_flexible_distinct_windows(
        product,
        read,
        windows.as_slice(),
        union,
    );
    proof {
        let evidence = product.evidence;
        assert(windows@[0] == window);
        if product_valid(evidence, *read) && completed_for(
            evidence,
            evidence.snapshot_id@,
            evidence.as_of_epoch,
        ) {
            assert(windows_fit(windows@, evidence.complete_through_epoch as int) <==> window_fits(
                window,
                evidence.complete_through_epoch as int,
            ));
            lemma_valid_leaves(evidence, *read);
        }
    }
    match result {
        Ok(estimates) => {
            let estimate: u64 = estimates[0];
            proof {
                let leaves = choose|leaves: Seq<(u32, u16, Seq<u8>)>|
                    holds_leaves(read.leaves@, leaves) && #[trigger] estimates_windows(
                        *union,
                        leaves,
                        windows@,
                        estimates@,
                    );
                assert(joins_to(*union, window_sketches(leaves, windows@[0]), Ok(estimates@[0])));
            }
            Ok(estimate)
        },
        Err(error) => {
            proof {
                if windows_fit(windows@, product.evidence.complete_through_epoch as int)
                    && product_valid(product.evidence, *read) && completed_for(
                    product.evidence,
                    product.evidence.snapshot_id@,
                    product.evidence.as_of_epoch,
                ) {
                    let leaves = choose|leaves: Seq<(u32, u16, Seq<u8>)>|
                        holds_leaves(read.leaves@, leaves) && #[trigger] join_fails(
                            *union,
                            leaves,
                            windows@,
                            error,
                        );
                    assert(joins_to(*union, window_sketches(leaves, windows@[0]), Err(error)));
                }
            }
            Err(error)
        },
    }
}

/// A valid product has readable leaves.
proof fn lemma_valid_leaves(evidence: FlexibleDistinctEvidence, read: FlexibleRevalidation)
    requires
        product_valid(evidence, read),
    ensures
        exists|leaves: Seq<(u32, u16, Seq<u8>)>| #[trigger] holds_leaves(read.leaves@, leaves),
{
    let (leaves, groups) = choose|
        leaves: Seq<(u32, u16, Seq<u8>)>,
        groups: Seq<crate::hour_identities::LeafGroup>,
    | #[trigger] crate::flexible_distinct::leaves_cover(evidence, read, leaves, groups);
    assert(holds_leaves(read.leaves@, leaves));
}

/// Take up decoded evidence as a product and revalidate it.
pub fn load_bounded_flexible_distinct(
    evidence: FlexibleDistinctEvidence,
    evidence_json: &[u8],
    read: &FlexibleRevalidation,
) -> (outcome: Result<BoundedFlexibleDistinct>)
    ensures
        outcome is Ok <==> completed_for(evidence, evidence.snapshot_id@, evidence.as_of_epoch)
            && product_valid(evidence, *read),
        match outcome {
            Ok(product) => {
                &&& product.evidence == evidence
                &&& product.evidence_sha256@ == sha256_text(evidence_json@)
            },
            Err(error) => error is Invalid,
        },
{
    let product: BoundedFlexibleDistinct = BoundedFlexibleDistinct {
        evidence,
        evidence_sha256: sha256_hex(evidence_json),
    };
    match product.validate_for_publication(
        product.evidence.snapshot_id.as_str(),
        product.evidence.as_of_epoch,
        read,
    ) {
        Ok(()) => Ok(product),
        Err(error) => Err(error),
    }
}

/// Take up, validate, and estimate several windows without a second validation.
pub fn load_and_estimate_flexible_distinct_windows<U: Fn(Vec<Vec<u8>>) -> Result<u64>>(
    evidence: FlexibleDistinctEvidence,
    evidence_json: &[u8],
    read: &FlexibleRevalidation,
    windows: &[FlexibleDistinctWindow],
    union: &U,
) -> (outcome: Result<(BoundedFlexibleDistinct, Vec<u64>)>)
    requires
        forall|given: Vec<Vec<u8>>| call_requires(*union, (given,)),
    ensures
        if completed_for(evidence, evidence.snapshot_id@, evidence.as_of_epoch) && product_valid(
            evidence,
            *read,
        ) {
            &&& outcome is Ok ==> {
                &&& (outcome->Ok_0).0.evidence == evidence
                &&& (outcome->Ok_0).0.evidence_sha256@ == sha256_text(evidence_json@)
            }
            &&& estimates_outcome(
                *union,
                read.leaves@,
                evidence.complete_through_epoch as int,
                windows@,
                match outcome {
                    Ok(loaded) => Ok(loaded.1),
                    Err(error) => Err(error),
                },
            )
        } else {
            outcome is Err && outcome->Err_0 is Invalid
        },
{
    let product: BoundedFlexibleDistinct = match load_bounded_flexible_distinct(
        evidence,
        evidence_json,
        read,
    ) {
        Ok(product) => product,
        Err(error) => {
            return Err(error);
        },
    };
    match estimate_validated_windows(&product.evidence, read.leaves, windows, union) {
        Ok(estimates) => Ok((product, estimates)),
        Err(error) => Err(error),
    }
}

/// Read every leaf in `(hour, kind)` order.
pub fn read_flexible_distinct_leaves(
    product: &BoundedFlexibleDistinct,
    leaf_bytes: &[u8],
) -> (outcome: Result<Vec<FlexibleLeaf>>)
    ensures
        outcome is Ok <==> exists|leaves: Seq<(u32, u16, Seq<u8>)>| #[trigger]
            holds_leaves(leaf_bytes@, leaves) && leaves.len()
                == product.evidence.leaf_artifact.row_count,
        match outcome {
            Ok(leaves) => {
                &&& holds_leaves(leaf_bytes@, leaf_views(leaves@))
                &&& leaves@.len() == product.evidence.leaf_artifact.row_count
            },
            Err(error) => error is Invalid,
        },
{
    let leaves: Vec<FlexibleLeaf> = match read_leaves(leaf_bytes) {
        Ok(leaves) => leaves,
        Err(error) => {
            return Err(error);
        },
    };
    if leaves.len() as u64 != product.evidence.leaf_artifact.row_count {
        return Err(Error::Invalid("visited flexible leaf row count mismatch"));
    }
    Ok(leaves)
}

/// Visit every leaf in `(hour, kind)` order, up to the first error of the
/// visitor, and count them.
pub fn visit_flexible_distinct_leaves<X, V: Fn(X, u32, u16, &[u8]) -> (X, Result<()>)>(
    product: &BoundedFlexibleDistinct,
    leaf_bytes: &[u8],
    x: X,
    visitor: &V,
) -> (made: (X, Result<u64>))
    requires
        forall|x: X, hour: u32, kind: u16, sketch: &[u8]| #[trigger]
            call_requires(*visitor, (x, hour, kind, sketch)),
    ensures
        made.1 is Ok ==> made.1->Ok_0 == product.evidence.leaf_artifact.row_count,
        exists|leaves: Seq<(u32, u16, Seq<u8>)>, states: Seq<X>|
            visits_rows(
                leaf_visit(*visitor),
                x,
                held_leaves(leaf_bytes@, product.evidence.leaf_artifact.row_count as int),
                leaves,
                states,
                (made.0, without_value(made.1)),
            ),
{
    visit_leaves(leaf_bytes, product.evidence.leaf_artifact.row_count, x, visitor)
}

/// Joining sketches always succeeds, with a value of the sketches alone.
pub open spec fn joins_by<U: Fn(Vec<Vec<u8>>) -> Result<u64>>(
    union: U,
    value: spec_fn(Seq<Seq<u8>>) -> u64,
) -> bool {
    forall|given: Vec<Vec<u8>>, outcome: Result<u64>| #[trigger]
        call_ensures(union, (given,), outcome) ==> outcome == Ok::<u64, Error>(
            value(sketch_views(given@)),
        )
}

/// Where joining sketches always succeeds with a value of the sketches alone,
/// the windows of a valid product are estimated exactly where all of them fit,
/// and each as it is on its own.
pub proof fn lemma_windows_are_estimated_alone<U: Fn(Vec<Vec<u8>>) -> Result<u64>>(
    union: U,
    value: spec_fn(Seq<Seq<u8>>) -> u64,
    evidence: FlexibleDistinctEvidence,
    read: FlexibleRevalidation,
    windows: Seq<FlexibleDistinctWindow>,
    outcome: Result<Vec<u64>>,
    alone: Seq<Result<u64>>,
)
    requires
        joins_by(union, value),
        completed_for(evidence, evidence.snapshot_id@, evidence.as_of_epoch),
        product_valid(evidence, read),
        estimates_product(union, evidence, read, windows, outcome),
        alone.len() == windows.len(),
        forall|i: int|
            0 <= i < windows.len() ==> estimates_alone(
                union,
                evidence,
                read,
                windows[i],
                #[trigger] alone[i],
            ),
    ensures
        outcome is Ok <==> windows_fit(windows, evidence.complete_through_epoch as int),
        outcome is Ok <==> forall|i: int|
            0 <= i < windows.len() ==> (#[trigger] alone[i]) is Ok,
        outcome is Ok ==> {
            &&& outcome->Ok_0@.len() == windows.len()
            &&& forall|i: int|
                0 <= i < windows.len() ==> #[trigger] alone[i] == Ok::<u64, Error>(
                    outcome->Ok_0@[i],
                )
        },
{
    let through = evidence.complete_through_epoch as int;
    lemma_valid_leaves(evidence, read);
    let leaves = choose|leaves: Seq<(u32, u16, Seq<u8>)>| #[trigger]
        holds_leaves(read.leaves@, leaves);
    assert forall|sketches: Seq<Seq<u8>>, joined: Result<u64>| #[trigger]
        joins_to(union, sketches, joined) implies joined == Ok::<u64, Error>(value(sketches)) by {
        let given = choose|given: Vec<Vec<u8>>|
            sketch_views(given@) == sketches && #[trigger] call_ensures(union, (given,), joined);
    }
    assert forall|i: int| 0 <= i < windows.len() implies ((#[trigger] alone[i]) is Ok
        <==> window_fits(windows[i], through)) && (alone[i] is Ok ==> alone[i] == Ok::<u64, Error>(
        value(window_sketches(leaves, windows[i])),
    )) by {
        assert(estimates_alone(union, evidence, read, windows[i], alone[i]));
    }
    if outcome is Ok {
        let estimates = outcome->Ok_0@;
        let held = choose|leaves: Seq<(u32, u16, Seq<u8>)>|
            holds_leaves(read.leaves@, leaves) && #[trigger] estimates_windows(
                union,
                leaves,
                windows,
                estimates,
            );
        assert(held == leaves);
        assert forall|i: int| 0 <= i < windows.len() implies #[trigger] alone[i] == Ok::<
            u64,
            Error,
        >(estimates[i]) by {
            assert(window_fits(windows[i], through));
            assert(joins_to(union, window_sketches(leaves, windows[i]), Ok(estimates[i])));
        }
    } else if windows_fit(windows, through) {
        let error = outcome->Err_0;
        let held = choose|leaves: Seq<(u32, u16, Seq<u8>)>|
            holds_leaves(read.leaves@, leaves) && #[trigger] join_fails(
                union,
                leaves,
                windows,
                error,
            );
        let before = choose|before: Seq<u64>|
            {
                &&& before.len() < windows.len()
                &&& #[trigger] estimates_windows(
                    union,
                    held,
                    windows.take(before.len() as int),
                    before,
                )
                &&& joins_to(
                    union,
                    window_sketches(held, windows[before.len() as int]),
                    Err(error),
                )
            };
        assert(joins_to(
            union,
            window_sketches(held, windows[before.len() as int]),
            Err(error),
        ));
    } else {
        let i = choose|i: int|
            0 <= i < windows.len() && !window_fits(#[trigger] windows[i], through);
        assert(alone[i] is Err);
    }
}

/// An empty window selects nothing.
pub proof fn lemma_empty_window(
    leaves: Seq<(u32, u16, Seq<u8>)>,
    window: FlexibleDistinctWindow,
)
    requires
        window.since_epoch == window.until_epoch,
    ensures
        window_sketches(leaves, window) == Seq::<Seq<u8>>::empty(),
    decreases leaves.len(),
{
    if leaves.len() > 0 {
        lemma_empty_window(leaves.drop_last(), window);
    }
}

/// The leaves of a window are those of its two halves, where the hours of the
/// leaves do not decrease.
pub proof fn lemma_windows_compose(
    leaves: Seq<(u32, u16, Seq<u8>)>,
    first: FlexibleDistinctWindow,
    second: FlexibleDistinctWindow,
)
    requires
        first.since_epoch <= first.until_epoch,
        first.until_epoch == second.since_epoch,
        second.since_epoch <= second.until_epoch,
        first.kind == second.kind,
        forall|i: int, j: int| 0 <= i <= j < leaves.len() ==> leaves[i].0 <= leaves[j].0,
    ensures
        window_sketches(
            leaves,
            (FlexibleDistinctWindow {
                since_epoch: first.since_epoch,
                until_epoch: second.until_epoch,
                kind: first.kind,
            }),
        ) == window_sketches(leaves, first) + window_sketches(leaves, second),
    decreases leaves.len(),
{
    let both = FlexibleDistinctWindow {
        since_epoch: first.since_epoch,
        until_epoch: second.until_epoch,
        kind: first.kind,
    };
    if leaves.len() == 0 {
        assert(window_sketches(leaves, first) + window_sketches(leaves, second)
            =~= Seq::<Seq<u8>>::empty());
    } else {
        let rest = leaves.drop_last();
        lemma_windows_compose(rest, first, second);
        let last = leaves.last();
        if in_window(last, first) {
            lemma_nothing_later(rest, second, last.0);
            assert(window_sketches(leaves, both) =~= window_sketches(leaves, first)
                + window_sketches(leaves, second));
        } else {
            assert(in_window(last, both) == in_window(last, second));
            assert(window_sketches(leaves, both) =~= window_sketches(leaves, first)
                + window_sketches(leaves, second));
        }
    }
}

/// A window that starts after the last hour selects nothing.
proof fn lemma_nothing_later(
    leaves: Seq<(u32, u16, Seq<u8>)>,
    window: FlexibleDistinctWindow,
    hour: u32,
)
    requires
        hour < window.since_epoch as int / 3_600,
        forall|i: int| 0 <= i < leaves.len() ==> (#[trigger] leaves[i]).0 <= hour,
    ensures
        window_sketches(leaves, window) == Seq::<Seq<u8>>::empty(),
    decreases leaves.len(),
{
    if leaves.len() > 0 {
        assert(leaves.last().0 <= hour);
        lemma_nothing_later(leaves.drop_last(), window, hour);
    }
}

} // verus!
