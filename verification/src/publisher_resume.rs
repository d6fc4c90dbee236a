//! Building publisher rankings from where an earlier attempt stopped.
//!
//! The ledger of a build lives in a store. Each batch of publishers is committed
//! with the progress behind it, so that a later attempt goes on there.

use vstd::prelude::*;

use crate::activity::activity_stream;
use crate::error::{Error, Result};
use crate::fixed_activity::{lemma_row_count, BoundedFixedActivity};
use crate::flexible_validation::ActivityState;
use crate::publisher_artifact::metrics_valid;
use crate::publisher_ledger::{
    at_boundary, facts_between, lemma_ledgers_join, lists_ledger, PublisherRankingRow,
};
use crate::publisher_product::{
    config_fits, evidence_names, finish_ranking, finishes, lemma_kinds_small, ranks,
    ranks_activity, source_valid, PublisherRankingConfig, PublisherRankingEvidence, RankingBuild,
};
use crate::publisher_scan::{
    can_scan, groups_between, largest_kinds, scan_publishers, scans_batch, LedgerBatch,
};
use crate::publisher_state::{
    enforce_state_size, prepare_rank_index_for_build, PublisherState, RankIndex,
};
use crate::records::record_count;
use crate::steps::{ask_step, leads, lemma_leads_join, lemma_leads_one, lemma_leads_split, Step};
use crate::text::optional_text;

verus! {

/// What a build asks of its store.
pub enum RankingRequest {
    /// Evidence that an earlier build completed, if any, with what it was made
    /// of.
    Completed,
    /// The identity of the ledger, if it has one.
    Identity,
    /// Give a new ledger this identity, and no progress.
    Name(String),
    /// The records that are scanned, and the most kinds of a publisher.
    Progress,
    /// Drop the ranking index, or see that it exists.
    Index(RankIndex),
    /// Insert rows with the progress behind them, in one transaction.
    Commit {
        /// Rows of the next publishers.
        rows: Vec<PublisherRankingRow>,
        /// Records scanned behind them.
        source_records: u64,
        /// Most kinds of a publisher so far.
        max_kinds: usize,
    },
    /// The size of the store.
    Size,
    /// All rows, by publisher, window and kind.
    Rows,
    /// The digest of the artifact that an earlier attempt left, if any.
    Artifact,
    /// Write the artifact.
    WriteArtifact(Vec<u8>),
    /// The ledger, read back.
    Ledger,
    /// Write the evidence as canonical JSON.
    WriteEvidence(PublisherRankingEvidence),
}

/// Evidence of a completed build, and what it was made of.
pub struct CompletedRanking {
    /// The evidence.
    pub evidence: PublisherRankingEvidence,
    /// The bytes that it was decoded from.
    pub evidence_json: Vec<u8>,
    /// The ledger, read back.
    pub ledger: PublisherState,
    /// Bytes of the artifact.
    pub artifact: Vec<u8>,
}

/// What the store answers.
pub enum RankingReply {
    /// Evidence that an earlier build completed, if any.
    Completed(Option<CompletedRanking>),
    /// The identity of the ledger, if it has one.
    Identity(Option<String>),
    /// Scanned records, and the most kinds of a publisher.
    Progress(u64, usize),
    /// The step is done.
    Done,
    /// Pages, and bytes of a page.
    Size(u64, u64),
    /// All rows.
    Rows(Vec<PublisherRankingRow>),
    /// The digest of the artifact that an earlier attempt left, if any.
    Artifact(Option<String>),
    /// The ledger, read back.
    Ledger(PublisherState),
    /// The bytes of the evidence.
    Written(Vec<u8>),
}

/// One step of a build.
pub type RankingStep<X> = Step<X, RankingRequest, RankingReply>;

/// The answer is of the kind that the request asks for.
pub open spec fn ranking_answers(request: RankingRequest, reply: RankingReply) -> bool {
    match request {
        RankingRequest::Completed => reply is Completed,
        RankingRequest::Identity => reply is Identity,
        RankingRequest::Name(_) => reply is Done,
        RankingRequest::Progress => reply is Progress,
        RankingRequest::Index(_) => reply is Done,
        RankingRequest::Commit { .. } => reply is Done,
        RankingRequest::Size => reply is Size,
        RankingRequest::Rows => reply is Rows,
        RankingRequest::Artifact => reply is Artifact,
        RankingRequest::WriteArtifact(_) => reply is Done,
        RankingRequest::Ledger => reply is Ledger,
        RankingRequest::WriteEvidence(_) => reply is Written,
    }
}

/// The step did what was asked.
pub open spec fn ranking_done<X>(step: RankingStep<X>) -> bool {
    step.reply matches Ok(reply) && ranking_answers(step.request, reply)
}

/// How a step that did not is reported.
pub open spec fn ranking_refused<X>(step: RankingStep<X>, error: Error) -> bool {
    match step.reply {
        Err(reason) => error == reason,
        Ok(reply) => !ranking_answers(step.request, reply) && error is Validation,
    }
}

/// The greater of both.
pub open spec fn greater(a: int, b: int) -> int {
    if a > b {
        a
    } else {
        b
    }
}

/// The request commits the next publishers behind `from`.
pub open spec fn commits_next(
    activity: Seq<u8>,
    config: PublisherRankingConfig,
    as_of: int,
    from: int,
    kinds: int,
    request: RankingRequest,
) -> bool {
    request matches RankingRequest::Commit { rows, source_records, max_kinds } && {
        &&& from < source_records
        &&& scans_batch(
            activity,
            from,
            config.publisher_batch_size as int,
            config.windows_days@,
            as_of,
            rows@,
            source_records as int,
        )
        &&& max_kinds == greater(kinds, largest_kinds(rows@) as int)
    }
}

/// A store of this size keeps to the ceiling.
pub open spec fn size_fits(config: PublisherRankingConfig, reply: Result<RankingReply>) -> bool {
    reply matches Ok(RankingReply::Size(pages, page_size)) && (pages * page_size
        <= config.max_state_bytes || config.max_state_bytes == u64::MAX)
}

/// Rounds of commits lead from `from` to `to`: each commits the next publishers
/// and keeps the store to its ceiling.
pub open spec fn rounds<X>(
    activity: Seq<u8>,
    config: PublisherRankingConfig,
    as_of: int,
    from: int,
    kinds: int,
    steps: Seq<RankingStep<X>>,
    to: int,
    most: int,
) -> bool
    decreases steps.len(),
{
    if steps.len() == 0 {
        to == from && most == kinds
    } else {
        &&& steps.len() >= 2
        &&& commits_next(activity, config, as_of, from, kinds, steps[0].request)
        &&& ranking_done(steps[0])
        &&& steps[1].request is Size
        &&& size_fits(config, steps[1].reply)
        &&& rounds(
            activity,
            config,
            as_of,
            steps[0].request->Commit_source_records as int,
            steps[0].request->Commit_max_kinds as int,
            steps.skip(2),
            to,
            most,
        )
    }
}

/// A round that fails behind `from`.
pub open spec fn round_fails<X>(
    activity: Seq<u8>,
    config: PublisherRankingConfig,
    as_of: int,
    from: int,
    kinds: int,
    steps: Seq<RankingStep<X>>,
    error: Error,
) -> bool {
    if steps.len() == 0 {
        !can_scan(activity, from, config.windows_days@, as_of) && error is Invalid
    } else {
        &&& steps.len() <= 2
        &&& commits_next(activity, config, as_of, from, kinds, steps[0].request)
        &&& if steps.len() == 1 {
            ranking_refused(steps[0], error)
        } else {
            &&& ranking_done(steps[0])
            &&& steps[1].request is Size
            &&& ranking_refused(steps[1], error) || (ranking_done(steps[1]) && !size_fits(
                config,
                steps[1].reply,
            ) && error is Invalid)
        }
    }
}

/// One more round.
proof fn lemma_rounds_push<X>(
    activity: Seq<u8>,
    config: PublisherRankingConfig,
    as_of: int,
    from: int,
    kinds: int,
    steps: Seq<RankingStep<X>>,
    to: int,
    most: int,
    commit: RankingStep<X>,
    size: RankingStep<X>,
)
    requires
        rounds(activity, config, as_of, from, kinds, steps, to, most),
        commits_next(activity, config, as_of, to, most, commit.request),
        ranking_done(commit),
        size.request is Size,
        size_fits(config, size.reply),
    ensures
        rounds(
            activity,
            config,
            as_of,
            from,
            kinds,
            steps + seq![commit] + seq![size],
            commit.request->Commit_source_records as int,
            commit.request->Commit_max_kinds as int,
        ),
    decreases steps.len(),
{
    reveal_with_fuel(rounds, 2);
    let longer = steps + seq![commit] + seq![size];
    if steps.len() == 0 {
        assert(longer.skip(2) =~= Seq::empty());
        assert(longer[0] == commit && longer[1] == size);
    } else {
        lemma_rounds_push(
            activity,
            config,
            as_of,
            steps[0].request->Commit_source_records as int,
            steps[0].request->Commit_max_kinds as int,
            steps.skip(2),
            to,
            most,
            commit,
            size,
        );
        assert(longer.skip(2) =~= steps.skip(2) + seq![commit] + seq![size]);
        assert(longer[0] == steps[0] && longer[1] == steps[1]);
    }
}

/// What scanning the rest of the activity comes to: `complete` steps are
/// complete rounds, up to `reach` and `most`.
pub open spec fn scans_rest<X>(
    activity: Seq<u8>,
    config: PublisherRankingConfig,
    as_of: int,
    from: int,
    kinds: int,
    steps: Seq<RankingStep<X>>,
    complete: int,
    reach: int,
    most: int,
    outcome: Result<(u64, usize)>,
) -> bool {
    &&& 0 <= complete <= steps.len()
    &&& rounds(activity, config, as_of, from, kinds, steps.take(complete), reach, most)
    &&& match outcome {
        Ok((records, largest)) => {
            &&& complete == steps.len()
            &&& records == reach
            &&& largest == most
            &&& reach == record_count(activity, 70)
            &&& can_scan(activity, reach, config.windows_days@, as_of)
        },
        Err(error) => round_fails(
            activity,
            config,
            as_of,
            reach,
            most,
            steps.skip(complete),
            error,
        ),
    }
}

/// Scan the publishers that the store lacks, batch by batch.
fn scan_rest<X, F: Fn(X, &RankingRequest) -> (X, Result<RankingReply>)>(
    ask: &F,
    x: X,
    activity: &[u8],
    config: &PublisherRankingConfig,
    as_of: u64,
    from: u64,
    kinds: usize,
) -> (made: (X, Result<(u64, usize)>, Ghost<Seq<RankingStep<X>>>, Ghost<(int, int, usize)>))
    requires
        activity_stream(activity@),
        config.publisher_batch_size > 0,
        from <= record_count(activity@, 70),
        forall|x: X, request: &RankingRequest| #[trigger] call_requires(*ask, (x, request)),
    ensures
        leads(*ask, x, made.2@, made.0),
        scans_rest(
            activity@,
            *config,
            as_of as int,
            from as int,
            kinds as int,
            made.2@,
            made.3@.0,
            made.3@.1,
            made.3@.2 as int,
            made.1,
        ),
{
    let ghost first = x;
    let ghost bytes = activity@;
    let ghost end = as_of as int;
    let ghost total = record_count(bytes, 70);
    let ghost mut steps: Seq<RankingStep<X>> = Seq::empty();
    let count: usize = activity.len() / 70;
    let mut held: X = x;
    let mut at: u64 = from;
    let mut most: usize = kinds;
    loop
        invariant
            first == x,
            bytes == activity@,
            end == as_of,
            total == record_count(bytes, 70),
            total == count,
            activity_stream(bytes),
            config.publisher_batch_size > 0,
            forall|x: X, request: &RankingRequest| #[trigger] call_requires(*ask, (x, request)),
            from <= at <= total,
            leads(*ask, first, steps, held),
            rounds(bytes, *config, end, from as int, kinds as int, steps, at as int, most as int),
        decreases total - at,
    {
        let ghost whole = steps.len() as int;
        proof {
            assert(steps.take(whole) =~= steps);
            assert(steps.skip(whole) =~= Seq::empty());
        }
        let batch: LedgerBatch = match scan_publishers(
            activity,
            at as usize,
            config.publisher_batch_size,
            &config.windows_days,
            as_of,
        ) {
            Ok(batch) => batch,
            Err(error) => {
                return (
                    held,
                    Err(error),
                    Ghost(steps),
                    Ghost((whole, at as int, most)),
                );
            },
        };
        let next: u64 = batch.source_records as u64;
        if next == at {
            proof {
                assert(groups_between(bytes, at as int, at as int) == 0);
            }
            return (
                held,
                Ok((at, most)),
                Ghost(steps),
                Ghost((whole, at as int, most)),
            );
        }
        proof {
            lemma_kinds_small(
                batch.rows@,
                bytes,
                at as int,
                next as int,
                config.windows_days@,
                end,
            );
        }
        let batch_kinds: usize = batch.max_kinds as usize;
        let larger: usize = if batch_kinds > most {
            batch_kinds
        } else {
            most
        };
        let ghost x0 = held;
        let (x, committed, Ghost(a)) = ask_step(
            ask,
            held,
            RankingRequest::Commit { rows: batch.rows, source_records: next, max_kinds: larger },
        );
        let ghost x1 = x;
        let ghost committing = steps + a;
        proof {
            lemma_leads_join(*ask, first, steps, x0, a, x1);
            assert(commits_next(bytes, *config, end, at as int, most as int, a[0].request));
            assert(committing.take(whole) =~= steps);
            assert(committing.skip(whole) =~= a);
        }
        match committed {
            Ok(RankingReply::Done) => {},
            Ok(_) => {
                return (
                    x,
                    Err(Error::Validation("the store gave another answer")),
                    Ghost(committing),
                    Ghost((whole, at as int, most)),
                );
            },
            Err(error) => {
                return (
                    x,
                    Err(error),
                    Ghost(committing),
                    Ghost((whole, at as int, most)),
                );
            },
        }
        let (x, measured, Ghost(b)) = ask_step(ask, x, RankingRequest::Size);
        let ghost sizing = committing + b;
        proof {
            lemma_leads_join(*ask, first, committing, x1, b, x);
            assert(sizing.take(whole) =~= steps);
            assert(sizing.skip(whole) =~= a + b);
        }
        let (pages, page_size): (u64, u64) = match measured {
            Ok(RankingReply::Size(pages, page_size)) => (pages, page_size),
            Ok(_) => {
                return (
                    x,
                    Err(Error::Validation("the store gave another answer")),
                    Ghost(sizing),
                    Ghost((whole, at as int, most)),
                );
            },
            Err(error) => {
                return (
                    x,
                    Err(error),
                    Ghost(sizing),
                    Ghost((whole, at as int, most)),
                );
            },
        };
        match enforce_state_size(pages, page_size, config.max_state_bytes) {
            Ok(()) => {},
            Err(error) => {
                return (
                    x,
                    Err(error),
                    Ghost(sizing),
                    Ghost((whole, at as int, most)),
                );
            },
        }
        proof {
            lemma_rounds_push(
                bytes,
                *config,
                end,
                from as int,
                kinds as int,
                steps,
                at as int,
                most as int,
                a[0],
                b[0],
            );
            assert(a =~= seq![a[0]]);
            assert(b =~= seq![b[0]]);
            steps = sizing;
        }
        held = x;
        at = next;
        most = larger;
    }
}

/// What a build comes to once its store told its progress.
pub open spec fn resumes_from<X>(
    activity: BoundedFixedActivity,
    bytes: Seq<u8>,
    config: PublisherRankingConfig,
    baseline: Option<String>,
    records: u64,
    kinds: usize,
    steps: Seq<RankingStep<X>>,
    complete: int,
    reach: int,
    most: usize,
    outcome: Result<RankingBuild>,
) -> bool {
    let total = activity.evidence.activity_artifact.row_count;
    let as_of = activity.evidence.as_of_epoch as int;
    let index = if records < total {
        RankIndex::Drop
    } else {
        RankIndex::Ensure
    };
    if records > total {
        steps.len() == 0 && outcome is Err && outcome->Err_0 is Invalid
    } else {
        &&& steps.len() > 0
        &&& steps[0].request == RankingRequest::Index(index)
        &&& if !ranking_done(steps[0]) {
            steps.len() == 1 && outcome is Err && ranking_refused(steps[0], outcome->Err_0)
        } else {
            let rest = steps.skip(1);
            &&& 0 <= complete <= rest.len()
            &&& rounds(
                bytes,
                config,
                as_of,
                records as int,
                kinds as int,
                rest.take(complete),
                reach,
                most as int,
            )
            &&& {
                ||| outcome is Err && round_fails(
                    bytes,
                    config,
                    as_of,
                    reach,
                    most as int,
                    rest.skip(complete),
                    outcome->Err_0,
                )
                ||| {
                    &&& reach == record_count(bytes, 70)
                    &&& can_scan(bytes, reach, config.windows_days@, as_of)
                    &&& reads_ledger(
                        activity,
                        config,
                        baseline,
                        reach,
                        most,
                        rest.skip(complete),
                        outcome,
                    )
                }
            }
        }
    }
}

/// The last two steps of a build: the index is ensured, and the rows are read
/// and ranked.
pub open spec fn reads_ledger<X>(
    activity: BoundedFixedActivity,
    config: PublisherRankingConfig,
    baseline: Option<String>,
    reach: int,
    most: usize,
    steps: Seq<RankingStep<X>>,
    outcome: Result<RankingBuild>,
) -> bool {
    &&& 0 < steps.len() <= 2
    &&& steps[0].request == RankingRequest::Index(RankIndex::Ensure)
    &&& if steps.len() == 1 {
        outcome is Err && ranking_refused(steps[0], outcome->Err_0)
    } else {
        &&& ranking_done(steps[0])
        &&& steps[1].request is Rows
        &&& match steps[1].reply {
            Ok(RankingReply::Rows(ledger)) => finishes(
                activity,
                config,
                ledger@,
                reach,
                most,
                baseline,
                outcome,
            ),
            _ => outcome is Err && ranking_refused(steps[1], outcome->Err_0),
        }
    }
}

/// Ensure the index, and read and rank the rows.
fn read_ledger<X, F: Fn(X, &RankingRequest) -> (X, Result<RankingReply>)>(
    ask: &F,
    x: X,
    activity: &BoundedFixedActivity,
    config: &PublisherRankingConfig,
    baseline: Option<String>,
    records: u64,
    most: usize,
) -> (made: (X, Result<RankingBuild>, Ghost<Seq<RankingStep<X>>>))
    requires
        forall|x: X, request: &RankingRequest| #[trigger] call_requires(*ask, (x, request)),
    ensures
        leads(*ask, x, made.2@, made.0),
        reads_ledger(*activity, *config, baseline, records as int, most, made.2@, made.1),
{
    let ghost first = x;
    let (x, ensured, Ghost(a)) = ask_step(ask, x, RankingRequest::Index(RankIndex::Ensure));
    let ghost middle = x;
    match ensured {
        Ok(RankingReply::Done) => {},
        Ok(_) => {
            return (x, Err(Error::Validation("the store gave another answer")), Ghost(a));
        },
        Err(error) => {
            return (x, Err(error), Ghost(a));
        },
    }
    let (x, listed, Ghost(b)) = ask_step(ask, x, RankingRequest::Rows);
    let ghost both = a + b;
    proof {
        lemma_leads_join(*ask, first, a, middle, b, x);
        assert(both[0] == a[0] && both[1] == b[0]);
    }
    match listed {
        Ok(RankingReply::Rows(ledger)) => (
            x,
            finish_ranking(activity, config, ledger, records, most, baseline),
            Ghost(both),
        ),
        Ok(_) => (x, Err(Error::Validation("the store gave another answer")), Ghost(both)),
        Err(error) => (x, Err(error), Ghost(both)),
    }
}

/// Go on behind the progress that the store told.
fn resume_from<X, F: Fn(X, &RankingRequest) -> (X, Result<RankingReply>)>(
    ask: &F,
    x: X,
    activity: &BoundedFixedActivity,
    bytes: &[u8],
    config: &PublisherRankingConfig,
    baseline: Option<String>,
    records: u64,
    kinds: usize,
) -> (made: (X, Result<RankingBuild>, Ghost<Seq<RankingStep<X>>>, Ghost<(int, int, usize)>))
    requires
        activity_stream(bytes@),
        config.publisher_batch_size > 0,
        activity.evidence.activity_artifact.row_count == record_count(bytes@, 70),
        forall|x: X, request: &RankingRequest| #[trigger] call_requires(*ask, (x, request)),
    ensures
        leads(*ask, x, made.2@, made.0),
        resumes_from(
            *activity,
            bytes@,
            *config,
            baseline,
            records,
            kinds,
            made.2@,
            made.3@.0,
            made.3@.1,
            made.3@.2,
            made.1,
        ),
{
    let ghost first = x;
    let ghost none: Seq<RankingStep<X>> = Seq::empty();
    let index: RankIndex = match prepare_rank_index_for_build(
        records,
        activity.evidence.activity_artifact.row_count,
    ) {
        Ok(index) => index,
        Err(error) => {
            return (x, Err(error), Ghost(none), Ghost((0, 0, 0)));
        },
    };
    let (x, prepared, Ghost(a)) = ask_step(ask, x, RankingRequest::Index(index));
    let ghost x1 = x;
    match prepared {
        Ok(RankingReply::Done) => {},
        Ok(_) => {
            return (
                x,
                Err(Error::Validation("the store gave another answer")),
                Ghost(a),
                Ghost((0, 0, 0)),
            );
        },
        Err(error) => {
            return (x, Err(error), Ghost(a), Ghost((0, 0, 0)));
        },
    }
    let (x, scanned, Ghost(b), Ghost(place)) = scan_rest(
        ask,
        x,
        bytes,
        config,
        activity.evidence.as_of_epoch,
        records,
        kinds,
    );
    let ghost x2 = x;
    let ghost two = a + b;
    proof {
        lemma_leads_join(*ask, first, a, x1, b, x2);
        assert(two[0] == a[0]);
        assert(two.skip(1) =~= b);
    }
    let (reach, most): (u64, usize) = match scanned {
        Ok(scanned) => scanned,
        Err(error) => {
            return (x, Err(error), Ghost(two), Ghost(place));
        },
    };
    let (x, outcome, Ghost(c)) = read_ledger(ask, x, activity, config, baseline, reach, most);
    let ghost all = two + c;
    proof {
        lemma_leads_join(*ask, first, two, x2, c, x);
        assert(all[0] == a[0]);
        assert(all.skip(1) =~= b + c);
        assert(all.skip(1).take(place.0) =~= b.take(place.0));
        assert(all.skip(1).skip(place.0) =~= c);
    }
    (x, outcome, Ghost(all), Ghost((place.0, place.1, most)))
}

/// What a build comes to.
///
/// A build asks its store for its progress, goes on there batch by batch, and
/// ranks the rows that the store holds at the end.
pub open spec fn resumes<X, F: Fn(X, &RankingRequest) -> (X, Result<RankingReply>)>(
    ask: F,
    first: X,
    activity: BoundedFixedActivity,
    state: ActivityState,
    config: PublisherRankingConfig,
    baseline: Option<String>,
    steps: Seq<RankingStep<X>>,
    place: (int, int, usize),
    made: (X, Result<RankingBuild>),
) -> bool {
    let (last, outcome) = made;
    &&& leads(ask, first, steps, last)
    &&& if !source_valid(activity, state) || !config_fits(config) {
        steps.len() == 0 && outcome is Err && outcome->Err_0 is Invalid
    } else {
        &&& steps.len() > 0
        &&& steps[0].request is Progress
        &&& match steps[0].reply {
            Ok(RankingReply::Progress(records, kinds)) => resumes_from(
                activity,
                state.activity@,
                config,
                baseline,
                records,
                kinds,
                steps.skip(1),
                place.0,
                place.1,
                place.2,
                outcome,
            ),
            _ => steps.len() == 1 && outcome is Err && ranking_refused(steps[0], outcome->Err_0),
        }
    }
}

/// Rank a validated activity product, from where an earlier attempt stopped.
pub(crate) fn resume_ranking<X, F: Fn(X, &RankingRequest) -> (X, Result<RankingReply>)>(
    activity: &BoundedFixedActivity,
    state: &ActivityState,
    config: &PublisherRankingConfig,
    baseline: Option<String>,
    store: X,
    ask: &F,
) -> (made: (
    (X, Result<RankingBuild>),
    Ghost<Seq<RankingStep<X>>>,
    Ghost<(int, int, usize)>,
))
    requires
        source_valid(*activity, *state),
        config_fits(*config),
        forall|x: X, request: &RankingRequest| #[trigger] call_requires(*ask, (x, request)),
    ensures
        resumes(
            *ask,
            store,
            *activity,
            *state,
            *config,
            baseline,
            made.1@,
            made.2@,
            made.0,
        ),
{
    let ghost first = store;
    proof {
        lemma_row_count(activity.evidence.activity_artifact, 70, state.activity@);
    }
    let (x, told, Ghost(a)) = ask_step(ask, store, RankingRequest::Progress);
    let ghost middle = x;
    let (records, kinds): (u64, usize) = match told {
        Ok(RankingReply::Progress(records, kinds)) => (records, kinds),
        Ok(_) => {
            return (
                (x, Err(Error::Validation("the store gave another answer"))),
                Ghost(a),
                Ghost((0, 0, 0)),
            );
        },
        Err(error) => {
            return ((x, Err(error)), Ghost(a), Ghost((0, 0, 0)));
        },
    };
    let (x, outcome, Ghost(b), place) = resume_from(
        ask,
        x,
        activity,
        state.activity,
        config,
        baseline,
        records,
        kinds,
    );
    let ghost all = a + b;
    proof {
        lemma_leads_join(*ask, first, a, middle, b, x);
        assert(all[0] == a[0]);
        assert(all.skip(1) =~= b);
    }
    ((x, outcome), Ghost(all), place)
}

/// What the store of a build holds.
pub struct RankingState {
    /// The rows, by publisher, window and kind.
    pub rows: Seq<PublisherRankingRow>,
    /// Records that are scanned.
    pub records: int,
    /// Most kinds of a publisher.
    pub kinds: int,
    /// The identity of the ledger, if it has one.
    pub identity: Option<Seq<char>>,
}

/// The state behind a request that is done.
pub open spec fn ranking_changed(state: RankingState, request: RankingRequest) -> RankingState {
    match request {
        RankingRequest::Commit { rows, source_records, max_kinds } => RankingState {
            rows: state.rows + rows@,
            records: source_records as int,
            kinds: max_kinds as int,
            ..state
        },
        RankingRequest::Name(identity) => RankingState {
            records: 0,
            kinds: 0,
            identity: Some(identity@),
            ..state
        },
        _ => state,
    }
}

/// The store keeps its state: a request that is done is answered in kind and
/// changes it as `ranking_changed` says, one that is not changes nothing, and
/// progress, rows and identity are told as they are.
pub open spec fn keeps_ranking<X, F: Fn(X, &RankingRequest) -> (X, Result<RankingReply>)>(
    ask: F,
    view: spec_fn(X) -> RankingState,
) -> bool {
    forall|x: X, request: &RankingRequest, y: X, reply: Result<RankingReply>| #[trigger]
        call_ensures(ask, (x, request), (y, reply)) ==> match reply {
            Err(_) => view(y) == view(x),
            Ok(answer) => {
                &&& ranking_answers(*request, answer)
                &&& view(y) == ranking_changed(view(x), *request)
                &&& answer matches RankingReply::Progress(records, kinds) ==> records
                    == view(x).records && kinds == view(x).kinds
                &&& answer matches RankingReply::Identity(identity) ==> optional_text(identity)
                    == view(x).identity
                &&& answer matches RankingReply::Rows(rows) ==> rows@ == view(x).rows
            },
        }
}

/// A build can go on from the state: it holds the ledger of the records up to
/// its progress, which splits no publisher, and the most kinds of a row.
pub open spec fn resumable(
    state: RankingState,
    activity: Seq<u8>,
    windows: Seq<u32>,
    as_of: int,
) -> bool {
    &&& 0 <= state.records <= record_count(activity, 70)
    &&& at_boundary(activity, state.records)
    &&& lists_ledger(state.rows, facts_between(activity, 0, state.records), windows, as_of)
    &&& state.kinds == largest_kinds(state.rows)
}

/// The most kinds of two ledgers.
proof fn lemma_largest_join(a: Seq<PublisherRankingRow>, b: Seq<PublisherRankingRow>)
    ensures
        largest_kinds(a + b) == greater(largest_kinds(a) as int, largest_kinds(b) as int),
    decreases b.len(),
{
    if b.len() == 0 {
        assert(a + b =~= a);
    } else {
        lemma_largest_join(a, b.drop_last());
        assert((a + b).drop_last() =~= a + b.drop_last());
    }
}

/// A commit of the next publishers keeps the state resumable.
proof fn lemma_commit_keeps(
    state: RankingState,
    activity: Seq<u8>,
    config: PublisherRankingConfig,
    as_of: int,
    request: RankingRequest,
)
    requires
        activity_stream(activity),
        resumable(state, activity, config.windows_days@, as_of),
        commits_next(activity, config, as_of, state.records, state.kinds, request),
    ensures
        resumable(ranking_changed(state, request), activity, config.windows_days@, as_of),
{
    let rows = request->Commit_rows@;
    lemma_ledgers_join(
        activity,
        0,
        state.records,
        request->Commit_source_records as int,
        state.rows,
        rows,
        config.windows_days@,
        as_of,
    );
    lemma_largest_join(state.rows, rows);
}

/// Rounds keep the state resumable.
proof fn lemma_rounds_keep<X, F: Fn(X, &RankingRequest) -> (X, Result<RankingReply>)>(
    ask: F,
    view: spec_fn(X) -> RankingState,
    first: X,
    last: X,
    activity: Seq<u8>,
    config: PublisherRankingConfig,
    as_of: int,
    steps: Seq<RankingStep<X>>,
    to: int,
    most: int,
)
    requires
        leads(ask, first, steps, last),
        keeps_ranking(ask, view),
        activity_stream(activity),
        resumable(view(first), activity, config.windows_days@, as_of),
        rounds(
            activity,
            config,
            as_of,
            view(first).records,
            view(first).kinds,
            steps,
            to,
            most,
        ),
    ensures
        resumable(view(last), activity, config.windows_days@, as_of),
        view(last).records == to,
        view(last).kinds == most,
        view(last).identity == view(first).identity,
    decreases steps.len(),
{
    if steps.len() > 0 {
        let commit = seq![steps[0]];
        let size = seq![steps[1]];
        let rest = steps.skip(2);
        assert(steps =~= commit + (size + rest));
        let x1 = lemma_leads_split(ask, first, commit, size + rest, last);
        let x2 = lemma_leads_split(ask, x1, size, rest, last);
        lemma_leads_one(ask, first, commit, x1);
        lemma_leads_one(ask, x1, size, x2);
        lemma_commit_keeps(view(first), activity, config, as_of, steps[0].request);
        lemma_rounds_keep(ask, view, x2, last, activity, config, as_of, rest, to, most);
    }
}

/// A round that fails keeps the state resumable.
proof fn lemma_failed_round_keeps<X, F: Fn(X, &RankingRequest) -> (X, Result<RankingReply>)>(
    ask: F,
    view: spec_fn(X) -> RankingState,
    first: X,
    last: X,
    activity: Seq<u8>,
    config: PublisherRankingConfig,
    as_of: int,
    steps: Seq<RankingStep<X>>,
    error: Error,
)
    requires
        leads(ask, first, steps, last),
        keeps_ranking(ask, view),
        activity_stream(activity),
        resumable(view(first), activity, config.windows_days@, as_of),
        round_fails(
            activity,
            config,
            as_of,
            view(first).records,
            view(first).kinds,
            steps,
            error,
        ),
    ensures
        resumable(view(last), activity, config.windows_days@, as_of),
        view(last).identity == view(first).identity,
{
    if steps.len() > 0 {
        lemma_commit_keeps(view(first), activity, config, as_of, steps[0].request);
        if steps.len() == 1 {
            lemma_leads_one(ask, first, steps, last);
        } else {
            let commit = seq![steps[0]];
            let size = seq![steps[1]];
            assert(steps =~= commit + size);
            let x1 = lemma_leads_split(ask, first, commit, size, last);
            lemma_leads_one(ask, first, commit, x1);
            lemma_leads_one(ask, x1, size, last);
        }
    }
}

/// Reading the ledger changes nothing, and a build ranks what the store holds.
proof fn lemma_reading_keeps<X, F: Fn(X, &RankingRequest) -> (X, Result<RankingReply>)>(
    ask: F,
    view: spec_fn(X) -> RankingState,
    first: X,
    last: X,
    activity: BoundedFixedActivity,
    config: PublisherRankingConfig,
    baseline: Option<String>,
    reach: int,
    most: usize,
    steps: Seq<RankingStep<X>>,
    outcome: Result<RankingBuild>,
)
    requires
        leads(ask, first, steps, last),
        keeps_ranking(ask, view),
        reads_ledger(activity, config, baseline, reach, most, steps, outcome),
    ensures
        view(last) == view(first),
        outcome is Ok ==> finishes(
            activity,
            config,
            view(last).rows,
            reach,
            most,
            baseline,
            outcome,
        ),
{
    if steps.len() == 1 {
        lemma_leads_one(ask, first, steps, last);
    } else {
        let a = seq![steps[0]];
        let b = seq![steps[1]];
        assert(steps =~= a + b);
        let x1 = lemma_leads_split(ask, first, a, b, last);
        lemma_leads_one(ask, first, a, x1);
        lemma_leads_one(ask, x1, b, last);
    }
}

/// A finished build of the whole ledger ranks the whole activity.
proof fn lemma_ranks_whole(
    activity: BoundedFixedActivity,
    bytes: Seq<u8>,
    config: PublisherRankingConfig,
    baseline: Option<String>,
    state: RankingState,
    most: usize,
    build: RankingBuild,
)
    requires
        activity_stream(bytes),
        resumable(state, bytes, config.windows_days@, activity.evidence.as_of_epoch as int),
        state.records == record_count(bytes, 70),
        state.kinds == most,
        finishes(activity, config, state.rows, state.records, most, baseline, Ok(build)),
    ensures
        evidence_names(build.evidence, activity, config, baseline),
        exists|rows: Seq<PublisherRankingRow>| #[trigger]
            ranks_activity(build, state.rows, rows, bytes, config.artifact_path@),
{
    let all = state.rows;
    let rows = choose|rows: Seq<PublisherRankingRow>| #[trigger]
        ranks(build, all, rows, config.artifact_path@);
    lemma_kinds_small(
        all,
        bytes,
        0,
        state.records,
        config.windows_days@,
        activity.evidence.as_of_epoch as int,
    );
    assert forall|i: int| 0 <= i < rows.len() implies metrics_valid(#[trigger] rows[i]) by {
        assert(rows.contains(rows[i]));
        assert(all.contains(rows[i]));
        let k = choose|k: int| 0 <= k < all.len() && all[k] == rows[i];
        assert(metrics_valid(all[k]));
    }
    assert(ranks_activity(build, all, rows, bytes, config.artifact_path@));
}

/// A build can stop anywhere and be resumed: whatever became of it, its store
/// holds the ledger of the records up to its progress. One that succeeds ranks
/// the whole activity, as if it had never been stopped.
pub proof fn lemma_builds_resume<X, F: Fn(X, &RankingRequest) -> (X, Result<RankingReply>)>(
    ask: F,
    view: spec_fn(X) -> RankingState,
    first: X,
    activity: BoundedFixedActivity,
    state: ActivityState,
    config: PublisherRankingConfig,
    baseline: Option<String>,
    steps: Seq<RankingStep<X>>,
    place: (int, int, usize),
    made: (X, Result<RankingBuild>),
)
    requires
        resumes(ask, first, activity, state, config, baseline, steps, place, made),
        keeps_ranking(ask, view),
        resumable(
            view(first),
            state.activity@,
            config.windows_days@,
            activity.evidence.as_of_epoch as int,
        ),
    ensures
        resumable(
            view(made.0),
            state.activity@,
            config.windows_days@,
            activity.evidence.as_of_epoch as int,
        ),
        view(made.0).identity == view(first).identity,
        made.1 matches Ok(build) ==> {
            &&& view(made.0).records == record_count(state.activity@, 70)
            &&& evidence_names(build.evidence, activity, config, baseline)
            &&& exists|rows: Seq<PublisherRankingRow>| #[trigger]
                ranks_activity(
                    build,
                    view(made.0).rows,
                    rows,
                    state.activity@,
                    config.artifact_path@,
                )
        },
{
    let (last, outcome) = made;
    let bytes = state.activity@;
    let as_of = activity.evidence.as_of_epoch as int;
    if steps.len() > 0 {
        let a = seq![steps[0]];
        let b = steps.skip(1);
        assert(steps =~= a + b);
        let x1 = lemma_leads_split(ask, first, a, b, last);
        lemma_leads_one(ask, first, a, x1);
        if b.len() > 0 {
            let index = seq![b[0]];
            let rest = b.skip(1);
            assert(b =~= index + rest);
            let x2 = lemma_leads_split(ask, x1, index, rest, last);
            lemma_leads_one(ask, x1, index, x2);
            if rest.len() > 0 || ranking_done(b[0]) {
                let done = rest.take(place.0);
                let end = rest.skip(place.0);
                assert(rest =~= done + end);
                let x3 = lemma_leads_split(ask, x2, done, end, last);
                lemma_rounds_keep(
                    ask,
                    view,
                    x2,
                    x3,
                    bytes,
                    config,
                    as_of,
                    done,
                    place.1,
                    place.2 as int,
                );
                if outcome is Err && round_fails(
                    bytes,
                    config,
                    as_of,
                    place.1,
                    place.2 as int,
                    end,
                    outcome->Err_0,
                ) {
                    lemma_failed_round_keeps(
                        ask,
                        view,
                        x3,
                        last,
                        bytes,
                        config,
                        as_of,
                        end,
                        outcome->Err_0,
                    );
                } else {
                    lemma_reading_keeps(
                        ask,
                        view,
                        x3,
                        last,
                        activity,
                        config,
                        baseline,
                        place.1,
                        place.2,
                        end,
                        outcome,
                    );
                    if let Ok(build) = outcome {
                        lemma_ranks_whole(
                            activity,
                            bytes,
                            config,
                            baseline,
                            view(last),
                            place.2,
                            build,
                        );
                    }
                }
            } else {
                assert(rest =~= Seq::empty());
            }
        } else {
            assert(b =~= Seq::empty());
        }
    }
}

} // verus!
