//! One whole build of publisher rankings.
//!
//! Evidence that an earlier build completed is taken up. Otherwise the ledger
//! must belong to the build, the ranking is resumed in it, and artifact and
//! evidence are written once they agree with the ledger.

use vstd::prelude::*;

use crate::digest::{sha256_hex, sha256_text};
use crate::error::{Error, Result};
use crate::fixed_activity::{weeks_defined, BoundedFixedActivity};
use crate::flexible_validation::ActivityState;
use crate::publisher_ledger::{facts_between, PublisherRankingRow};
use crate::publisher_product::{
    check_lineage, check_retry, check_successor, config_fits, evidence_names, keeps_contract,
    ranks_activity, source_valid, validate_config, BoundedPublisherRanking, PublisherRankingConfig,
    RankingBuild,
};
use crate::publisher_resume::{
    keeps_ranking, lemma_builds_resume, ranking_done, ranking_refused, resumable, resume_ranking,
    resumes, CompletedRanking, RankingReply, RankingRequest, RankingState, RankingStep,
};
use crate::publisher_state::{
    evidence_identity_text, initialize_identity, load_bounded_publisher_ranking, reconciles,
    state_identity_text, validate_evidence, PublisherState, StateIdentity,
};
use crate::publisher_scan::lemma_empty_ledger;
use crate::records::record_count;
use crate::steps::{
    ask_step, ask_with, leads, lemma_leads_join, lemma_leads_one, lemma_leads_split,
};
use crate::text::optional_text;

verus! {

/// What taking up completed evidence comes to.
pub open spec fn takes_up(
    found: CompletedRanking,
    baseline: Option<String>,
    outcome: Result<BoundedPublisherRanking>,
) -> bool {
    &&& outcome is Ok <==> {
        &&& evidence_identity_text(found.evidence) == Some(found.ledger.identity@)
        &&& reconciles(found.evidence, found.ledger, found.artifact@)
        &&& optional_text(found.evidence.baseline_evidence_sha256) == optional_text(baseline)
    }
    &&& match outcome {
        Ok(product) => {
            &&& product.evidence == found.evidence
            &&& product.evidence_sha256@ == sha256_text(found.evidence_json@)
        },
        Err(error) => error is Invalid,
    }
}

/// Take up completed evidence.
fn take_up(found: CompletedRanking, baseline: &Option<String>) -> (outcome: Result<
    BoundedPublisherRanking,
>)
    ensures
        takes_up(found, *baseline, outcome),
{
    let product: BoundedPublisherRanking = match load_bounded_publisher_ranking(
        found.evidence,
        found.evidence_json.as_slice(),
        &found.ledger,
        found.artifact.as_slice(),
    ) {
        Ok(product) => product,
        Err(error) => {
            return Err(error);
        },
    };
    match check_lineage(&product, baseline) {
        Ok(()) => Ok(product),
        Err(error) => Err(error),
    }
}

/// The ledger belongs to the build, or is new and takes its identity: behind
/// these steps the build goes on, or fails with the error.
pub open spec fn names_ledger<X>(
    activity: BoundedFixedActivity,
    config: PublisherRankingConfig,
    steps: Seq<RankingStep<X>>,
    outcome: Result<()>,
) -> bool {
    let identity = state_identity_text(activity, config);
    &&& 0 < steps.len() <= 2
    &&& steps[0].request is Identity
    &&& match steps[0].reply {
        Ok(RankingReply::Identity(stored)) => {
            if identity is None || (stored is Some && identity != Some(stored->0@)) {
                steps.len() == 1 && outcome is Err && outcome->Err_0 is Invalid
            } else if stored is Some {
                steps.len() == 1 && outcome is Ok
            } else {
                &&& steps.len() == 2
                &&& steps[1].request matches RankingRequest::Name(text) && Some(text@) == identity
                &&& outcome is Ok <==> ranking_done(steps[1])
                &&& outcome is Err ==> ranking_refused(steps[1], outcome->Err_0)
            }
        },
        _ => steps.len() == 1 && outcome is Err && ranking_refused(steps[0], outcome->Err_0),
    }
}

/// See that the ledger belongs to the build.
fn name_ledger<X, F: Fn(X, &RankingRequest) -> (X, Result<RankingReply>)>(
    ask: &F,
    x: X,
    activity: &BoundedFixedActivity,
    config: &PublisherRankingConfig,
) -> (made: (X, Result<()>, Ghost<Seq<RankingStep<X>>>))
    requires
        forall|x: X, request: &RankingRequest| #[trigger] call_requires(*ask, (x, request)),
    ensures
        leads(*ask, x, made.2@, made.0),
        names_ledger(*activity, *config, made.2@, made.1),
{
    let ghost first = x;
    let (x, told, Ghost(a)) = ask_step(ask, x, RankingRequest::Identity);
    let ghost middle = x;
    let stored: Option<String> = match told {
        Ok(RankingReply::Identity(stored)) => stored,
        Ok(_) => {
            return (x, Err(Error::Validation("the store gave another answer")), Ghost(a));
        },
        Err(error) => {
            return (x, Err(error), Ghost(a));
        },
    };
    let text: String = match initialize_identity(activity, config, &stored) {
        Ok(StateIdentity::Known) => {
            return (x, Ok(()), Ghost(a));
        },
        Ok(StateIdentity::Store(text)) => text,
        Err(error) => {
            return (x, Err(error), Ghost(a));
        },
    };
    let (x, named, Ghost(b)) = ask_step(ask, x, RankingRequest::Name(text));
    let ghost both = a + b;
    proof {
        lemma_leads_join(*ask, first, a, middle, b, x);
        assert(both[0] == a[0] && both[1] == b[0]);
    }
    match named {
        Ok(RankingReply::Done) => (x, Ok(()), Ghost(both)),
        Ok(_) => (x, Err(Error::Validation("the store gave another answer")), Ghost(both)),
        Err(error) => (x, Err(error), Ghost(both)),
    }
}

/// The evidence agrees with the ledger and the artifact.
pub open spec fn agrees(build: RankingBuild, ledger: PublisherState) -> bool {
    &&& evidence_identity_text(build.evidence) == Some(ledger.identity@)
    &&& reconciles(build.evidence, ledger, build.artifact@)
}

/// What checking and writing the evidence comes to.
pub open spec fn writes_evidence<X>(
    build: RankingBuild,
    steps: Seq<RankingStep<X>>,
    outcome: Result<BoundedPublisherRanking>,
) -> bool {
    &&& 0 < steps.len() <= 2
    &&& steps[0].request is Ledger
    &&& match steps[0].reply {
        Ok(RankingReply::Ledger(ledger)) => {
            if !agrees(build, ledger) {
                steps.len() == 1 && outcome is Err && outcome->Err_0 is Invalid
            } else {
                &&& steps.len() == 2
                &&& steps[1].request == RankingRequest::WriteEvidence(build.evidence)
                &&& match steps[1].reply {
                    Ok(RankingReply::Written(json)) => outcome matches Ok(product)
                        && product.evidence == build.evidence && product.evidence_sha256@
                        == sha256_text(json@),
                    _ => outcome is Err && ranking_refused(steps[1], outcome->Err_0),
                }
            }
        },
        _ => steps.len() == 1 && outcome is Err && ranking_refused(steps[0], outcome->Err_0),
    }
}

/// The artifact that an earlier attempt left is that of the build.
pub open spec fn retries(existing: Option<String>, build: RankingBuild) -> bool {
    existing is None || existing->0@ == build.evidence.ranking_artifact.sha256@
}

/// What writing artifact and evidence comes to: `head` steps write the artifact,
/// where an earlier attempt did not leave it.
pub open spec fn writes_ranking<X>(
    build: RankingBuild,
    steps: Seq<RankingStep<X>>,
    head: int,
    outcome: Result<BoundedPublisherRanking>,
) -> bool {
    &&& 0 < head <= steps.len()
    &&& steps[0].request is Artifact
    &&& match steps[0].reply {
        Ok(RankingReply::Artifact(existing)) => {
            if !retries(existing, build) {
                steps.len() == 1 && outcome == Err::<BoundedPublisherRanking, Error>(
                    Error::Invalid("publisher completed artifact conflicts with retry output"),
                )
            } else if existing is Some {
                head == 1 && writes_evidence(build, steps.skip(1), outcome)
            } else {
                &&& head == 2
                &&& steps[1].request matches RankingRequest::WriteArtifact(artifact) && artifact@
                    == build.artifact@
                &&& if ranking_done(steps[1]) {
                    writes_evidence(build, steps.skip(2), outcome)
                } else {
                    steps.len() == 2 && outcome is Err && ranking_refused(
                        steps[1],
                        outcome->Err_0,
                    )
                }
            }
        },
        _ => steps.len() == 1 && outcome is Err && ranking_refused(steps[0], outcome->Err_0),
    }
}

/// Check the evidence against the ledger, and write it.
fn write_evidence<X, F: Fn(X, &RankingRequest) -> (X, Result<RankingReply>)>(
    ask: &F,
    x: X,
    build: RankingBuild,
) -> (made: (X, Result<BoundedPublisherRanking>, Ghost<Seq<RankingStep<X>>>))
    requires
        forall|x: X, request: &RankingRequest| #[trigger] call_requires(*ask, (x, request)),
    ensures
        leads(*ask, x, made.2@, made.0),
        writes_evidence(build, made.2@, made.1),
{
    let ghost first = x;
    let ghost given = build;
    let (x, told, Ghost(a)) = ask_step(ask, x, RankingRequest::Ledger);
    let ghost middle = x;
    let ledger: PublisherState = match told {
        Ok(RankingReply::Ledger(ledger)) => ledger,
        Ok(_) => {
            return (x, Err(Error::Validation("the store gave another answer")), Ghost(a));
        },
        Err(error) => {
            return (x, Err(error), Ghost(a));
        },
    };
    match validate_evidence(&build.evidence, &ledger, build.artifact.as_slice()) {
        Ok(()) => {},
        Err(error) => {
            return (x, Err(error), Ghost(a));
        },
    }
    let request: RankingRequest = RankingRequest::WriteEvidence(build.evidence);
    let (x, written, Ghost(b)) = ask_with(ask, x, &request);
    let ghost both = a + b;
    proof {
        lemma_leads_join(*ask, first, a, middle, b, x);
        assert(both[0] == a[0] && both[1] == b[0]);
    }
    let json: Vec<u8> = match written {
        Ok(RankingReply::Written(json)) => json,
        Ok(_) => {
            return (x, Err(Error::Validation("the store gave another answer")), Ghost(both));
        },
        Err(error) => {
            return (x, Err(error), Ghost(both));
        },
    };
    match request {
        RankingRequest::WriteEvidence(evidence) => (
            x,
            Ok(
                BoundedPublisherRanking {
                    evidence,
                    evidence_sha256: sha256_hex(json.as_slice()),
                },
            ),
            Ghost(both),
        ),
        _ => (x, Err(Error::Validation("the store gave another answer")), Ghost(both)),
    }
}

/// Write artifact and evidence.
fn write_ranking<X, F: Fn(X, &RankingRequest) -> (X, Result<RankingReply>)>(
    ask: &F,
    x: X,
    build: RankingBuild,
) -> (made: (X, Result<BoundedPublisherRanking>, Ghost<Seq<RankingStep<X>>>, Ghost<int>))
    requires
        forall|x: X, request: &RankingRequest| #[trigger] call_requires(*ask, (x, request)),
    ensures
        leads(*ask, x, made.2@, made.0),
        writes_ranking(build, made.2@, made.3@, made.1),
{
    let ghost first = x;
    let (x, told, Ghost(a)) = ask_step(ask, x, RankingRequest::Artifact);
    let ghost x1 = x;
    let existing: Option<String> = match told {
        Ok(RankingReply::Artifact(existing)) => existing,
        Ok(_) => {
            return (
                x,
                Err(Error::Validation("the store gave another answer")),
                Ghost(a),
                Ghost(1),
            );
        },
        Err(error) => {
            return (x, Err(error), Ghost(a), Ghost(1));
        },
    };
    match check_retry(&existing, &build) {
        Ok(()) => {},
        Err(error) => {
            return (x, Err(error), Ghost(a), Ghost(1));
        },
    }
    if existing.is_some() {
        let (x, outcome, Ghost(b)) = write_evidence(ask, x, build);
        let ghost all = a + b;
        proof {
            lemma_leads_join(*ask, first, a, x1, b, x);
            assert(all[0] == a[0]);
            assert(all.skip(1) =~= b);
        }
        return (x, outcome, Ghost(all), Ghost(1));
    }
    let (x, stored, Ghost(b)) = ask_step(
        ask,
        x,
        RankingRequest::WriteArtifact(vstd::slice::slice_to_vec(build.artifact.as_slice())),
    );
    let ghost x2 = x;
    let ghost two = a + b;
    proof {
        lemma_leads_join(*ask, first, a, x1, b, x2);
        assert(two[0] == a[0] && two[1] == b[0]);
    }
    match stored {
        Ok(RankingReply::Done) => {},
        Ok(_) => {
            return (
                x,
                Err(Error::Validation("the store gave another answer")),
                Ghost(two),
                Ghost(2),
            );
        },
        Err(error) => {
            return (x, Err(error), Ghost(two), Ghost(2));
        },
    }
    let (x, outcome, Ghost(c)) = write_evidence(ask, x, build);
    let ghost all = two + c;
    proof {
        lemma_leads_join(*ask, first, two, x2, c, x);
        assert(all[0] == a[0] && all[1] == b[0]);
        assert(all.skip(2) =~= c);
    }
    (x, outcome, Ghost(all), Ghost(2))
}

/// The parts of a build.
pub struct RankingParts<X> {
    /// The question after completed evidence.
    pub asked: Seq<RankingStep<X>>,
    /// The store behind it.
    pub fresh: X,
    /// The steps that name the ledger.
    pub names: Seq<RankingStep<X>>,
    /// The store behind them.
    pub named: X,
    /// The steps that scan and rank.
    pub scans: Seq<RankingStep<X>>,
    /// How far the scan came.
    pub place: (int, int, usize),
    /// The store behind them, and the build.
    pub built: (X, Result<RankingBuild>),
    /// The steps that write artifact and evidence.
    pub writes: Seq<RankingStep<X>>,
    /// Those of them that write the artifact.
    pub head: int,
}

/// What a build comes to where no evidence of an earlier one is there.
pub open spec fn builds_anew<X, F: Fn(X, &RankingRequest) -> (X, Result<RankingReply>)>(
    ask: F,
    activity: BoundedFixedActivity,
    state: ActivityState,
    config: PublisherRankingConfig,
    baseline: Option<String>,
    parts: RankingParts<X>,
    made: (X, Result<BoundedPublisherRanking>),
) -> bool {
    &&& leads(ask, parts.fresh, parts.names, parts.named)
    &&& {
        ||| made.0 == parts.named && made.1 is Err && names_ledger(
            activity,
            config,
            parts.names,
            Err(made.1->Err_0),
        )
        ||| {
            &&& names_ledger(activity, config, parts.names, Ok(()))
            &&& resumes(
                ask,
                parts.named,
                activity,
                state,
                config,
                baseline,
                parts.scans,
                parts.place,
                parts.built,
            )
            &&& match parts.built.1 {
                Err(error) => made == (
                    parts.built.0,
                    Err::<BoundedPublisherRanking, Error>(error),
                ),
                Ok(build) => {
                    &&& leads(ask, parts.built.0, parts.writes, made.0)
                    &&& writes_ranking(build, parts.writes, parts.head, made.1)
                },
            }
        }
    }
}

/// What a whole build comes to.
pub open spec fn builds_ranking<X, F: Fn(X, &RankingRequest) -> (X, Result<RankingReply>)>(
    ask: F,
    first: X,
    activity: BoundedFixedActivity,
    state: ActivityState,
    config: PublisherRankingConfig,
    baseline: Option<String>,
    parts: RankingParts<X>,
    made: (X, Result<BoundedPublisherRanking>),
) -> bool {
    if !source_valid(activity, state) || !config_fits(config) {
        made.0 == first && made.1 is Err && made.1->Err_0 is Invalid
    } else {
        &&& leads(ask, first, parts.asked, parts.fresh)
        &&& parts.asked.len() == 1
        &&& parts.asked[0].request is Completed
        &&& match parts.asked[0].reply {
            Ok(RankingReply::Completed(Some(found))) => made.0 == parts.fresh && takes_up(
                found,
                baseline,
                made.1,
            ),
            Ok(RankingReply::Completed(None)) => builds_anew(
                ask,
                activity,
                state,
                config,
                baseline,
                parts,
                made,
            ),
            _ => made.0 == parts.fresh && made.1 is Err && ranking_refused(
                parts.asked[0],
                made.1->Err_0,
            ),
        }
    }
}

/// Take up completed evidence, or build it.
fn build_publisher_ranking<X, F: Fn(X, &RankingRequest) -> (X, Result<RankingReply>)>(
    activity: &BoundedFixedActivity,
    state: &ActivityState,
    config: &PublisherRankingConfig,
    baseline: Option<String>,
    store: X,
    ask: &F,
) -> (made: ((X, Result<BoundedPublisherRanking>), Ghost<RankingParts<X>>))
    requires
        weeks_defined(state.activity@, activity.evidence.as_of_epoch as int),
        forall|x: X, request: &RankingRequest| #[trigger] call_requires(*ask, (x, request)),
    ensures
        builds_ranking(
            *ask,
            store,
            *activity,
            *state,
            *config,
            baseline,
            made.1@,
            made.0,
        ),
{
    let ghost blank: RankingParts<X> = arbitrary();
    let ghost lineage = baseline;
    match validate_config(activity, state, config) {
        Ok(()) => {},
        Err(error) => {
            return ((store, Err(error)), Ghost(blank));
        },
    }
    let (x, told, Ghost(asked)) = ask_step(ask, store, RankingRequest::Completed);
    let ghost asking = RankingParts { asked, fresh: x, ..blank };
    match told {
        Ok(RankingReply::Completed(None)) => {},
        Ok(RankingReply::Completed(Some(found))) => {
            return ((x, take_up(found, &baseline)), Ghost(asking));
        },
        Ok(_) => {
            return (
                (x, Err(Error::Validation("the store gave another answer"))),
                Ghost(asking),
            );
        },
        Err(error) => {
            return ((x, Err(error)), Ghost(asking));
        },
    }
    let (x, named, Ghost(names)) = name_ledger(ask, x, activity, config);
    let ghost naming = RankingParts { names, named: x, ..asking };
    match named {
        Ok(done) => {
            assert(done == ());
        },
        Err(error) => {
            return ((x, Err(error)), Ghost(naming));
        },
    }
    let (built, Ghost(scans), Ghost(place)) = resume_ranking(
        activity,
        state,
        config,
        baseline,
        x,
        ask,
    );
    let ghost building = RankingParts { scans, place, built, ..naming };
    let (x, outcome) = built;
    let build: RankingBuild = match outcome {
        Ok(build) => build,
        Err(error) => {
            return ((x, Err(error)), Ghost(building));
        },
    };
    let (x, outcome, Ghost(writes), Ghost(head)) = write_ranking(ask, x, build);
    let made: (X, Result<BoundedPublisherRanking>) = (x, outcome);
    let ghost writing = RankingParts { writes, head, ..building };
    assert(builds_anew(*ask, *activity, *state, *config, lineage, writing, made));
    (made, Ghost(writing))
}

/// Build exact predefined-window publisher rankings in a store, from where an
/// earlier attempt stopped.
pub fn build_bounded_publisher_ranking<
    X,
    F: Fn(X, &RankingRequest) -> (X, Result<RankingReply>),
>(
    activity: &BoundedFixedActivity,
    state: &ActivityState,
    config: &PublisherRankingConfig,
    store: X,
    ask: &F,
) -> (made: (X, Result<BoundedPublisherRanking>))
    requires
        weeks_defined(state.activity@, activity.evidence.as_of_epoch as int),
        forall|x: X, request: &RankingRequest| #[trigger] call_requires(*ask, (x, request)),
    ensures
        exists|parts: RankingParts<X>|
            builds_ranking(*ask, store, *activity, *state, *config, None, parts, made),
{
    let ghost first = store;
    let (made, Ghost(parts)) = build_publisher_ranking(
        activity,
        state,
        config,
        None,
        store,
        ask,
    );
    assert(builds_ranking(*ask, first, *activity, *state, *config, None, parts, made));
    made
}

/// Rebuild a target ranking after validating explicit predecessor lineage.
pub fn advance_bounded_publisher_ranking<
    X,
    F: Fn(X, &RankingRequest) -> (X, Result<RankingReply>),
>(
    baseline: &BoundedPublisherRanking,
    activity: &BoundedFixedActivity,
    state: &ActivityState,
    config: &PublisherRankingConfig,
    store: X,
    ask: &F,
) -> (made: (X, Result<BoundedPublisherRanking>))
    requires
        weeks_defined(state.activity@, activity.evidence.as_of_epoch as int),
        forall|x: X, request: &RankingRequest| #[trigger] call_requires(*ask, (x, request)),
    ensures
        if keeps_contract(*baseline, *activity, *config) {
            exists|parts: RankingParts<X>|
                builds_ranking(
                    *ask,
                    store,
                    *activity,
                    *state,
                    *config,
                    Some(baseline.evidence_sha256),
                    parts,
                    made,
                )
        } else {
            made == (
                store,
                Err::<BoundedPublisherRanking, Error>(
                    Error::Invalid("publisher successor changes its predecessor window contract"),
                ),
            )
        },
{
    let ghost first = store;
    match check_successor(baseline, activity, config) {
        Ok(()) => {},
        Err(error) => {
            return (store, Err(error));
        },
    }
    let (made, Ghost(parts)) = build_publisher_ranking(
        activity,
        state,
        config,
        Some(baseline.evidence_sha256.clone()),
        store,
        ask,
    );
    assert(builds_ranking(
        *ask,
        first,
        *activity,
        *state,
        *config,
        Some(baseline.evidence_sha256),
        parts,
        made,
    ));
    made
}

/// A build can start in the store: its ledger is new and empty, or holds the
/// ledger of the records up to its progress.
pub open spec fn ready(
    state: RankingState,
    activity: Seq<u8>,
    windows: Seq<u32>,
    as_of: int,
) -> bool {
    match state.identity {
        None => state.rows.len() == 0,
        Some(_) => resumable(state, activity, windows, as_of),
    }
}

/// The request changes no ledger.
pub open spec fn only_reads(request: RankingRequest) -> bool {
    !(request is Commit || request is Name)
}

/// Steps that change no ledger leave its state.
proof fn lemma_reads_keep<X, F: Fn(X, &RankingRequest) -> (X, Result<RankingReply>)>(
    ask: F,
    view: spec_fn(X) -> RankingState,
    first: X,
    steps: Seq<RankingStep<X>>,
    last: X,
)
    requires
        leads(ask, first, steps, last),
        keeps_ranking(ask, view),
        forall|i: int| 0 <= i < steps.len() ==> only_reads((#[trigger] steps[i]).request),
    ensures
        view(last) == view(first),
    decreases steps.len(),
{
    if steps.len() > 0 {
        let less = steps.drop_last();
        assert forall|i: int| 0 <= i < less.len() implies only_reads(
            (#[trigger] less[i]).request,
        ) by {
            assert(less[i] == steps[i]);
        }
        lemma_reads_keep(ask, view, first, less, steps.last().before);
        assert(steps[steps.len() - 1] == steps.last());
    }
}

/// Writing artifact and evidence changes no ledger.
proof fn lemma_writes_only<X>(
    build: RankingBuild,
    steps: Seq<RankingStep<X>>,
    head: int,
    outcome: Result<BoundedPublisherRanking>,
)
    requires
        writes_ranking(build, steps, head, outcome),
    ensures
        forall|i: int| 0 <= i < steps.len() ==> only_reads((#[trigger] steps[i]).request),
        outcome matches Ok(product) ==> product.evidence == build.evidence,
{
    let rest = steps.skip(head);
    assert forall|i: int| 0 <= i < steps.len() implies only_reads(
        (#[trigger] steps[i]).request,
    ) by {
        if i >= head {
            assert(rest[i - head] == steps[i]);
        }
    }
}

/// Naming a ledger that is ready keeps it ready, and lets a build go on only in
/// one that it can be resumed in.
proof fn lemma_naming_keeps<X, F: Fn(X, &RankingRequest) -> (X, Result<RankingReply>)>(
    ask: F,
    view: spec_fn(X) -> RankingState,
    first: X,
    steps: Seq<RankingStep<X>>,
    last: X,
    activity: BoundedFixedActivity,
    bytes: Seq<u8>,
    config: PublisherRankingConfig,
    outcome: Result<()>,
)
    requires
        leads(ask, first, steps, last),
        keeps_ranking(ask, view),
        names_ledger(activity, config, steps, outcome),
        ready(
            view(first),
            bytes,
            config.windows_days@,
            activity.evidence.as_of_epoch as int,
        ),
    ensures
        ready(view(last), bytes, config.windows_days@, activity.evidence.as_of_epoch as int),
        outcome is Ok ==> view(last).identity is Some,
{
    let as_of = activity.evidence.as_of_epoch as int;
    let a = seq![steps[0]];
    let b = steps.skip(1);
    assert(steps =~= a + b);
    let x1 = lemma_leads_split(ask, first, a, b, last);
    lemma_leads_one(ask, first, a, x1);
    if steps.len() == 2 {
        assert(b =~= seq![steps[1]]);
        lemma_leads_one(ask, x1, b, last);
        assert(facts_between(bytes, 0, 0) =~= Seq::empty());
        lemma_empty_ledger(config.windows_days@, as_of);
        assert(view(x1).rows =~= Seq::empty());
        vstd::arithmetic::div_mod::lemma_div_pos_is_pos(bytes.len() as int, 70);
    } else {
        assert(b =~= Seq::empty());
    }
}

/// A build can stop anywhere and be repeated: whatever became of it, its store
/// is ready for another. One that succeeds without evidence of an earlier one
/// reports the ranking of the whole activity.
pub proof fn lemma_rankings_resume<X, F: Fn(X, &RankingRequest) -> (X, Result<RankingReply>)>(
    ask: F,
    view: spec_fn(X) -> RankingState,
    first: X,
    activity: BoundedFixedActivity,
    state: ActivityState,
    config: PublisherRankingConfig,
    baseline: Option<String>,
    parts: RankingParts<X>,
    made: (X, Result<BoundedPublisherRanking>),
)
    requires
        builds_ranking(ask, first, activity, state, config, baseline, parts, made),
        keeps_ranking(ask, view),
        ready(
            view(first),
            state.activity@,
            config.windows_days@,
            activity.evidence.as_of_epoch as int,
        ),
    ensures
        ready(
            view(made.0),
            state.activity@,
            config.windows_days@,
            activity.evidence.as_of_epoch as int,
        ),
        made.1 matches Ok(product) ==> {
            ||| parts.asked[0].reply matches Ok(RankingReply::Completed(Some(found)))
                && product.evidence == found.evidence
            ||| {
                &&& view(made.0).records == record_count(state.activity@, 70)
                &&& evidence_names(product.evidence, activity, config, baseline)
                &&& exists|build: RankingBuild, rows: Seq<PublisherRankingRow>| #[trigger]
                    ranks_activity(
                        build,
                        view(made.0).rows,
                        rows,
                        state.activity@,
                        config.artifact_path@,
                    ) && build.evidence == product.evidence
            }
        },
{
    if source_valid(activity, state) && config_fits(config) {
        lemma_leads_one(ask, first, parts.asked, parts.fresh);
        assert(view(parts.fresh) == view(first));
        if parts.asked[0].reply matches Ok(RankingReply::Completed(None)) {
            let error = made.1->Err_0;
            if made.0 == parts.named && made.1 is Err && names_ledger(
                activity,
                config,
                parts.names,
                Err(error),
            ) {
                lemma_naming_keeps(
                    ask,
                    view,
                    parts.fresh,
                    parts.names,
                    parts.named,
                    activity,
                    state.activity@,
                    config,
                    Err(error),
                );
            } else {
                lemma_naming_keeps(
                    ask,
                    view,
                    parts.fresh,
                    parts.names,
                    parts.named,
                    activity,
                    state.activity@,
                    config,
                    Ok(()),
                );
                lemma_builds_resume(
                    ask,
                    view,
                    parts.named,
                    activity,
                    state,
                    config,
                    baseline,
                    parts.scans,
                    parts.place,
                    parts.built,
                );
                if let Ok(build) = parts.built.1 {
                    lemma_writes_only(build, parts.writes, parts.head, made.1);
                    lemma_reads_keep(ask, view, parts.built.0, parts.writes, made.0);
                    let rows = choose|rows: Seq<PublisherRankingRow>| #[trigger]
                        ranks_activity(
                            build,
                            view(parts.built.0).rows,
                            rows,
                            state.activity@,
                            config.artifact_path@,
                        );
                    assert(ranks_activity(
                        build,
                        view(made.0).rows,
                        rows,
                        state.activity@,
                        config.artifact_path@,
                    ));
                }
            }
        }
    }
}

} // verus!
