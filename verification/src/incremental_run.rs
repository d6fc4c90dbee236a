//! One incremental update of a work database.
//!
//! The update runs in one transaction. A dry run measures the delta and drops
//! all changes; any failure drops them too. The open work database is handed
//! from one step to the next, so that no step can be left out or repeated.

use vstd::prelude::*;

use crate::error::{Error, Result};
use crate::incremental::{
    baseline_physical_rows, decide_start, plan_fits, plan_refused, starts, summarize_delta,
    summarizes, validate_plan, CheckpointState, DeltaCounts, IncrementalStart, IncrementalSummary,
};
use crate::input::{ObjectLocation, ResolvedSnapshot};
use crate::plan::CatalogDeltaPlan;
use crate::publish::BuildSummary;
use crate::steps::{ask_step, leads, lemma_leads_join, lemma_leads_one, lemma_leads_split, Step};

verus! {

/// What an update asks of the work database.
pub enum WorkRequest {
    /// The state of the checkpoint, if it records one.
    State,
    /// Begin a transaction.
    Begin,
    /// Validate the rollups of so many physical rows.
    Validate(u64),
    /// Record the state of the baseline.
    Record(CheckpointState),
    /// Scan the objects at these places, and count what they add.
    Scan(Vec<ObjectLocation>),
    /// Add the new events, and move the state.
    Advance(CheckpointState),
    /// Keep the changes.
    Commit,
    /// Drop the changes.
    Rollback,
}

/// What the work database answers.
pub enum WorkReply {
    /// The state of the checkpoint.
    State(Option<CheckpointState>),
    /// What the rollups hold.
    Summary(BuildSummary),
    /// What the delta came to.
    Counts(DeltaCounts),
    /// The step is done.
    Done,
}

/// A state as mathematical values: snapshot, boundary and query version.
pub type Checkpoint = (Seq<char>, int, Seq<char>);

/// What is asked, as mathematical values.
pub enum WorkAsk {
    /// The state of the checkpoint.
    State,
    /// Begin a transaction.
    Begin,
    /// Validate the rollups.
    Validate(int),
    /// Record the state of the baseline.
    Record(Checkpoint),
    /// Scan the objects at these places.
    Scan(Seq<ObjectLocation>),
    /// Add the new events, and move the state.
    Advance(Checkpoint),
    /// Keep the changes.
    Commit,
    /// Drop the changes.
    Rollback,
}

/// The state as mathematical values.
pub open spec fn checkpoint_of(state: CheckpointState) -> Checkpoint {
    (state.snapshot_id@, state.as_of_epoch as int, state.query_version@)
}

/// The request as mathematical values.
pub open spec fn work_asked(request: WorkRequest) -> WorkAsk {
    match request {
        WorkRequest::State => WorkAsk::State,
        WorkRequest::Begin => WorkAsk::Begin,
        WorkRequest::Validate(rows) => WorkAsk::Validate(rows as int),
        WorkRequest::Record(state) => WorkAsk::Record(checkpoint_of(state)),
        WorkRequest::Scan(locations) => WorkAsk::Scan(locations@),
        WorkRequest::Advance(state) => WorkAsk::Advance(checkpoint_of(state)),
        WorkRequest::Commit => WorkAsk::Commit,
        WorkRequest::Rollback => WorkAsk::Rollback,
    }
}

/// The answer is of the kind that the request asks for.
pub open spec fn work_answers(ask: WorkAsk, reply: WorkReply) -> bool {
    match ask {
        WorkAsk::State => reply is State,
        WorkAsk::Validate(_) => reply is Summary,
        WorkAsk::Scan(_) => reply is Counts,
        _ => reply is Done,
    }
}

/// What an update is made for.
pub struct UpdateRequest<'a> {
    /// The target snapshot.
    pub target: &'a ResolvedSnapshot,
    /// What the target adds to the baseline.
    pub plan: &'a CatalogDeltaPlan,
    /// Boundary of the baseline.
    pub baseline_as_of_epoch: u64,
    /// Fixed upper time boundary.
    pub as_of_epoch: u64,
    /// Latest second that is served.
    pub api_max: u64,
    /// Version of the queries.
    pub query_version: &'a str,
    /// Whether all changes are dropped.
    pub dry_run: bool,
}

/// One step of an update on the work database.
pub type WorkStep<X> = Step<X, WorkRequest, WorkReply>;

/// What the steps asked, in order.
pub open spec fn work_asks<X>(steps: Seq<WorkStep<X>>) -> Seq<WorkAsk> {
    Seq::new(steps.len(), |i: int| work_asked(steps[i].request))
}

/// The step did what was asked.
pub open spec fn step_done<X>(step: WorkStep<X>) -> bool {
    step.reply matches Ok(reply) && work_answers(work_asked(step.request), reply)
}

/// How a step that did not is reported.
pub open spec fn step_refused<X>(step: WorkStep<X>, error: Error) -> bool {
    match step.reply {
        Err(reason) => error == reason,
        Ok(reply) => !work_answers(work_asked(step.request), reply) && error is Validation,
    }
}

/// Every step did what was asked.
pub open spec fn all_done<X>(steps: Seq<WorkStep<X>>) -> bool {
    forall|i: int| 0 <= i < steps.len() ==> step_done(#[trigger] steps[i])
}

/// Steps behind steps.
proof fn lemma_work_join<X, F: Fn(X, &WorkRequest) -> (X, Result<WorkReply>)>(
    ask: F,
    first: X,
    a: Seq<WorkStep<X>>,
    middle: X,
    b: Seq<WorkStep<X>>,
    last: X,
)
    requires
        leads(ask, first, a, middle),
        leads(ask, middle, b, last),
    ensures
        leads(ask, first, a + b, last),
        work_asks(a + b) == work_asks(a) + work_asks(b),
{
    lemma_leads_join(ask, first, a, middle, b, last);
    assert(work_asks(a + b) =~= work_asks(a) + work_asks(b));
}

/// Ask the work database once.
fn ask_work<X, F: Fn(X, &WorkRequest) -> (X, Result<WorkReply>)>(
    ask: &F,
    x: X,
    request: WorkRequest,
) -> (made: (X, Result<WorkReply>, Ghost<Seq<WorkStep<X>>>))
    requires
        forall|x: X, request: &WorkRequest| #[trigger] call_requires(*ask, (x, request)),
    ensures
        leads(*ask, x, made.2@, made.0),
        made.2@.len() == 1,
        made.2@[0].reply == made.1,
        made.2@[0].request == request,
        work_asks(made.2@) == seq![work_asked(request)],
{
    let (x, reply, Ghost(steps)) = ask_step(ask, x, request);
    assert(work_asks(steps) =~= seq![work_asked(request)]);
    (x, reply, Ghost(steps))
}

/// Have the work database do a step that has no result.
fn do_work<X, F: Fn(X, &WorkRequest) -> (X, Result<WorkReply>)>(
    ask: &F,
    x: X,
    request: WorkRequest,
) -> (made: (X, Result<()>, Ghost<Seq<WorkStep<X>>>))
    requires
        forall|x: X, request: &WorkRequest| #[trigger] call_requires(*ask, (x, request)),
        !(request is State || request is Validate || request is Scan),
    ensures
        leads(*ask, x, made.2@, made.0),
        made.2@.len() == 1,
        work_asks(made.2@) == seq![work_asked(request)],
        made.1 is Ok <==> step_done(made.2@[0]),
        made.1 is Err ==> step_refused(made.2@[0], made.1->Err_0),
{
    let (x, reply, steps) = ask_work(ask, x, request);
    match reply {
        Ok(WorkReply::Done) => (x, Ok(()), steps),
        Ok(_) => (x, Err(Error::Validation("the work database gave another answer")), steps),
        Err(error) => (x, Err(error), steps),
    }
}

/// Have the work database validate the rollups of so many physical rows.
fn validate_work<X, F: Fn(X, &WorkRequest) -> (X, Result<WorkReply>)>(
    ask: &F,
    x: X,
    rows: u64,
) -> (made: (X, Result<BuildSummary>, Ghost<Seq<WorkStep<X>>>))
    requires
        forall|x: X, request: &WorkRequest| #[trigger] call_requires(*ask, (x, request)),
    ensures
        leads(*ask, x, made.2@, made.0),
        made.2@.len() == 1,
        work_asks(made.2@) == seq![WorkAsk::Validate(rows as int)],
        made.1 is Ok <==> step_done(made.2@[0]),
        made.1 is Ok ==> made.2@[0].reply == Ok::<WorkReply, Error>(
            WorkReply::Summary(made.1->Ok_0),
        ),
        made.1 is Err ==> step_refused(made.2@[0], made.1->Err_0),
{
    let (x, reply, steps) = ask_work(ask, x, WorkRequest::Validate(rows));
    match reply {
        Ok(WorkReply::Summary(summary)) => (x, Ok(summary), steps),
        Ok(_) => (x, Err(Error::Validation("the work database gave another answer")), steps),
        Err(error) => (x, Err(error), steps),
    }
}

/// What is asked to record the baseline of a checkpoint without a state.
pub open spec fn record_asks(request: UpdateRequest, start: IncrementalStart) -> Seq<WorkAsk> {
    match start {
        IncrementalStart::Initialize { baseline_physical_rows } => seq![
            WorkAsk::Validate(baseline_physical_rows as int),
            WorkAsk::Record(
                (
                    request.plan.previous_snapshot_id->0@,
                    request.baseline_as_of_epoch as int,
                    request.query_version@,
                ),
            ),
        ],
        _ => Seq::empty(),
    }
}

/// The state that the update leads to.
pub open spec fn target_of(request: UpdateRequest) -> Checkpoint {
    (
        request.target.catalog.snapshot_id@,
        request.as_of_epoch as int,
        request.query_version@,
    )
}

/// What is asked to move a checkpoint to the target.
pub open spec fn advance_asks(request: UpdateRequest) -> Seq<WorkAsk> {
    if request.dry_run {
        Seq::empty()
    } else {
        seq![
            WorkAsk::Advance(target_of(request)),
            WorkAsk::Validate(request.target.catalog.physical_rows as int),
        ]
    }
}

/// What is asked inside of the transaction, in order.
pub open spec fn delta_script(
    request: UpdateRequest,
    locations: Seq<ObjectLocation>,
    start: IncrementalStart,
) -> Seq<WorkAsk> {
    record_asks(request, start) + seq![WorkAsk::Scan(locations)] + advance_asks(request)
}

/// What the work inside of the transaction comes to.
pub open spec fn works_delta<X>(
    request: UpdateRequest,
    locations: Seq<ObjectLocation>,
    start: IncrementalStart,
    steps: Seq<WorkStep<X>>,
    outcome: Result<(Option<BuildSummary>, IncrementalSummary)>,
) -> bool {
    let script = delta_script(request, locations, start);
    match outcome {
        Ok((summary, delta)) => {
            &&& work_asks(steps) == script
            &&& all_done(steps)
            &&& steps[record_asks(request, start).len() as int].reply matches Ok(
                WorkReply::Counts(counts),
            ) && summarizes(*request.plan, counts, Ok(delta))
            &&& summary is None <==> request.dry_run
            &&& !request.dry_run ==> steps.last().reply == Ok::<WorkReply, Error>(
                WorkReply::Summary(summary->0),
            )
        },
        Err(error) => {
            &&& 0 < steps.len() <= script.len()
            &&& work_asks(steps) == script.take(steps.len() as int)
            &&& all_done(steps.drop_last())
            &&& {
                ||| step_refused(steps.last(), error)
                ||| steps.last().reply matches Ok(WorkReply::Counts(counts)) && summarizes(
                    *request.plan,
                    counts,
                    Err(error),
                )
            }
        },
    }
}

/// Record the baseline of a checkpoint without a state.
fn record_baseline<X, F: Fn(X, &WorkRequest) -> (X, Result<WorkReply>)>(
    ask: &F,
    x: X,
    request: &UpdateRequest,
    start: &IncrementalStart,
) -> (made: (X, Result<()>, Ghost<Seq<WorkStep<X>>>))
    requires
        request.plan.previous_snapshot_id is Some,
        forall|x: X, request: &WorkRequest| #[trigger] call_requires(*ask, (x, request)),
    ensures
        ({
            let (y, outcome, steps) = made;
            let script = record_asks(*request, *start);
            &&& leads(*ask, x, steps@, y)
            &&& match outcome {
                Ok(_) => work_asks(steps@) == script && all_done(steps@),
                Err(error) => {
                    &&& 0 < steps@.len() <= script.len()
                    &&& work_asks(steps@) == script.take(steps@.len() as int)
                    &&& all_done(steps@.drop_last())
                    &&& step_refused(steps@.last(), error)
                },
            }
        }),
{
    let ghost first = x;
    let ghost script = record_asks(*request, *start);
    let ghost none: Seq<WorkStep<X>> = Seq::empty();
    let rows: u64 = match start {
        IncrementalStart::Initialize { baseline_physical_rows } => *baseline_physical_rows,
        _ => {
            assert(work_asks(none) =~= script);
            return (x, Ok(()), Ghost(none));
        },
    };
    let (x, validated, Ghost(a)) = validate_work(ask, x, rows);
    let ghost middle = x;
    assert(work_asks(a) =~= script.take(1));
    match validated {
        Ok(_) => {},
        Err(error) => {
            return (x, Err(error), Ghost(a));
        },
    }
    let previous: String = match &request.plan.previous_snapshot_id {
        Some(previous) => previous.clone(),
        None => String::new(),
    };
    let (x, recorded, Ghost(b)) = do_work(
        ask,
        x,
        WorkRequest::Record(
            CheckpointState {
                snapshot_id: previous,
                as_of_epoch: request.baseline_as_of_epoch,
                query_version: request.query_version.to_owned(),
            },
        ),
    );
    proof {
        lemma_work_join(*ask, first, a, middle, b, x);
        assert(work_asks(a + b) =~= script);
        assert(script =~= script.take(2));
        assert((a + b).drop_last() =~= a);
        assert((a + b).last() == b[0]);
    }
    (x, recorded, Ghost(a + b))
}

/// Move a checkpoint to the target.
fn advance_target<X, F: Fn(X, &WorkRequest) -> (X, Result<WorkReply>)>(
    ask: &F,
    x: X,
    request: &UpdateRequest,
) -> (made: (X, Result<Option<BuildSummary>>, Ghost<Seq<WorkStep<X>>>))
    requires
        forall|x: X, request: &WorkRequest| #[trigger] call_requires(*ask, (x, request)),
    ensures
        ({
            let (y, outcome, steps) = made;
            let script = advance_asks(*request);
            &&& leads(*ask, x, steps@, y)
            &&& match outcome {
                Ok(summary) => {
                    &&& work_asks(steps@) == script
                    &&& all_done(steps@)
                    &&& summary is None <==> request.dry_run
                    &&& !request.dry_run ==> steps@.last().reply == Ok::<WorkReply, Error>(
                        WorkReply::Summary(summary->0),
                    )
                },
                Err(error) => {
                    &&& 0 < steps@.len() <= script.len()
                    &&& work_asks(steps@) == script.take(steps@.len() as int)
                    &&& all_done(steps@.drop_last())
                    &&& step_refused(steps@.last(), error)
                },
            }
        }),
{
    let ghost first = x;
    let ghost script = advance_asks(*request);
    if request.dry_run {
        let ghost none: Seq<WorkStep<X>> = Seq::empty();
        assert(work_asks(none) =~= script);
        return (x, Ok(None), Ghost(none));
    }
    let (x, advanced, Ghost(a)) = do_work(
        ask,
        x,
        WorkRequest::Advance(
            CheckpointState {
                snapshot_id: request.target.catalog.snapshot_id.clone(),
                as_of_epoch: request.as_of_epoch,
                query_version: request.query_version.to_owned(),
            },
        ),
    );
    let ghost middle = x;
    assert(work_asks(a) =~= script.take(1));
    match advanced {
        Ok(()) => {},
        Err(error) => {
            return (x, Err(error), Ghost(a));
        },
    }
    let (x, validated, Ghost(b)) = validate_work(ask, x, request.target.catalog.physical_rows);
    proof {
        lemma_work_join(*ask, first, a, middle, b, x);
        assert(work_asks(a + b) =~= script);
        assert(script =~= script.take(2));
        assert((a + b).drop_last() =~= a);
        assert((a + b).last() == b[0]);
    }
    match validated {
        Ok(summary) => (x, Ok(Some(summary)), Ghost(a + b)),
        Err(error) => (x, Err(error), Ghost(a + b)),
    }
}

/// Measure the delta and, unless this is a dry run, add it.
fn work_delta<X, F: Fn(X, &WorkRequest) -> (X, Result<WorkReply>)>(
    ask: &F,
    x: X,
    request: &UpdateRequest,
    locations: Vec<ObjectLocation>,
    start: &IncrementalStart,
) -> (made: (
    X,
    Result<(Option<BuildSummary>, IncrementalSummary)>,
    Ghost<Seq<WorkStep<X>>>,
))
    requires
        request.plan.previous_snapshot_id is Some,
        forall|x: X, request: &WorkRequest| #[trigger] call_requires(*ask, (x, request)),
    ensures
        leads(*ask, x, made.2@, made.0),
        works_delta(*request, locations@, *start, made.2@, made.1),
{
    let ghost first = x;
    let ghost places = locations@;
    let ghost script = delta_script(*request, places, *start);
    let ghost from = record_asks(*request, *start).len() as int;
    let (x, recorded, Ghost(a)) = record_baseline(ask, x, request, start);
    let ghost x1 = x;
    match recorded {
        Ok(()) => {},
        Err(error) => {
            assert(work_asks(a) =~= script.take(a.len() as int));
            return (x, Err(error), Ghost(a));
        },
    }
    assert(a.len() == from) by {
        assert(work_asks(a).len() == a.len());
    }
    let (x, reply, Ghost(b)) = ask_work(ask, x, WorkRequest::Scan(locations));
    let ghost x2 = x;
    let ghost two = a + b;
    proof {
        lemma_work_join(*ask, first, a, x1, b, x2);
        assert(work_asks(two) =~= script.take(two.len() as int));
        assert(two.drop_last() =~= a);
        assert(two.last() == b[0]);
    }
    let counts: DeltaCounts = match reply {
        Ok(WorkReply::Counts(counts)) => counts,
        Ok(_) => {
            return (
                x,
                Err(Error::Validation("the work database gave another answer")),
                Ghost(two),
            );
        },
        Err(error) => {
            return (x, Err(error), Ghost(two));
        },
    };
    let delta: IncrementalSummary = match summarize_delta(request.plan, counts) {
        Ok(delta) => delta,
        Err(error) => {
            return (x, Err(error), Ghost(two));
        },
    };
    assert(all_done(two)) by {
        assert forall|i: int| 0 <= i < two.len() implies step_done(#[trigger] two[i]) by {
            if i < a.len() {
                assert(two[i] == a[i]);
            }
        }
    }
    let (x, advanced, Ghost(c)) = advance_target(ask, x, request);
    let ghost all = two + c;
    proof {
        lemma_work_join(*ask, first, two, x2, c, x);
        assert(all[from] == b[0]);
        assert(work_asks(c).len() == c.len());
        if advanced is Ok {
            assert(work_asks(all) =~= script);
            assert forall|i: int| 0 <= i < all.len() implies step_done(#[trigger] all[i]) by {
                if i < two.len() {
                    assert(all[i] == two[i]);
                } else {
                    assert(all[i] == c[i - two.len()]);
                }
            }
            if !request.dry_run {
                assert(all.last() == c.last());
            }
        } else {
            assert(work_asks(all) =~= script.take(all.len() as int));
            assert(all.drop_last() =~= two + c.drop_last());
            assert(all.last() == c.last());
            assert forall|i: int| 0 <= i < all.drop_last().len() implies step_done(
                #[trigger] all.drop_last()[i],
            ) by {
                if i < two.len() {
                    assert(all.drop_last()[i] == two[i]);
                } else {
                    assert(all.drop_last()[i] == c.drop_last()[i - two.len()]);
                }
            }
        }
    }
    match advanced {
        Ok(summary) => (x, Ok((summary, delta)), Ghost(all)),
        Err(error) => (x, Err(error), Ghost(all)),
    }
}

/// What is asked behind the work: a dry run drops the changes and validates the
/// baseline.
pub open spec fn end_asks(request: UpdateRequest) -> Seq<WorkAsk> {
    if request.dry_run {
        seq![
            WorkAsk::Rollback,
            WorkAsk::Validate(
                request.target.catalog.physical_rows - request.plan.added_physical_rows,
            ),
        ]
    } else {
        seq![WorkAsk::Commit]
    }
}

/// What the end of the transaction comes to.
pub open spec fn ends_update<X>(
    request: UpdateRequest,
    worked: Result<(Option<BuildSummary>, IncrementalSummary)>,
    steps: Seq<WorkStep<X>>,
    outcome: Result<(BuildSummary, IncrementalSummary)>,
) -> bool {
    match worked {
        Err(error) => {
            &&& work_asks(steps) == seq![WorkAsk::Rollback]
            &&& outcome == Err::<(BuildSummary, IncrementalSummary), Error>(error)
        },
        Ok((summary, delta)) => match outcome {
            Ok((built, reported)) => {
                &&& work_asks(steps) == end_asks(request)
                &&& all_done(steps)
                &&& reported == delta
                &&& if request.dry_run {
                    steps.last().reply == Ok::<WorkReply, Error>(WorkReply::Summary(built))
                } else {
                    summary == Some(built)
                }
            },
            Err(error) => {
                &&& 0 < steps.len() <= end_asks(request).len()
                &&& work_asks(steps) == end_asks(request).take(steps.len() as int)
                &&& all_done(steps.drop_last())
                &&& {
                    ||| step_refused(steps.last(), error)
                    ||| request.dry_run && steps.len() == 1 && step_done(steps[0])
                        && request.plan.added_physical_rows > request.target.catalog.physical_rows
                        && error == Error::PlanOverflow("baseline physical rows")
                }
            },
        },
    }
}

/// End the transaction of an update.
fn end_update<X, F: Fn(X, &WorkRequest) -> (X, Result<WorkReply>)>(
    ask: &F,
    x: X,
    request: &UpdateRequest,
    worked: Result<(Option<BuildSummary>, IncrementalSummary)>,
) -> (made: (X, Result<(BuildSummary, IncrementalSummary)>, Ghost<Seq<WorkStep<X>>>))
    requires
        worked matches Ok((summary, _)) ==> (summary is None <==> request.dry_run),
        forall|x: X, request: &WorkRequest| #[trigger] call_requires(*ask, (x, request)),
    ensures
        leads(*ask, x, made.2@, made.0),
        ends_update(*request, worked, made.2@, made.1),
{
    let ghost first = x;
    let ghost script = end_asks(*request);
    match worked {
        Err(error) => {
            let (x, _dropped, steps) = do_work(ask, x, WorkRequest::Rollback);
            (x, Err(error), steps)
        },
        Ok((Some(summary), delta)) => {
            let (x, kept, Ghost(steps)) = do_work(ask, x, WorkRequest::Commit);
            assert(script =~= script.take(1));
            match kept {
                Ok(()) => (x, Ok((summary, delta)), Ghost(steps)),
                Err(error) => (x, Err(error), Ghost(steps)),
            }
        },
        Ok((None, delta)) => {
            let (x, dropped, Ghost(a)) = do_work(ask, x, WorkRequest::Rollback);
            let ghost middle = x;
            assert(work_asks(a) =~= script.take(1));
            match dropped {
                Ok(()) => {},
                Err(error) => {
                    return (x, Err(error), Ghost(a));
                },
            }
            let rows: u64 = match baseline_physical_rows(request.target, request.plan) {
                Ok(rows) => rows,
                Err(error) => {
                    return (x, Err(error), Ghost(a));
                },
            };
            let (x, validated, Ghost(b)) = validate_work(ask, x, rows);
            let ghost both = a + b;
            proof {
                lemma_work_join(*ask, first, a, middle, b, x);
                assert(work_asks(both) =~= script);
                assert(script =~= script.take(2));
                assert(both.drop_last() =~= a);
                assert(both.last() == b[0]);
            }
            match validated {
                Ok(summary) => (x, Ok((summary, delta)), Ghost(both)),
                Err(error) => (x, Err(error), Ghost(both)),
            }
        },
    }
}

/// What an update comes to once its start is decided.
pub open spec fn updates_from<X>(
    request: UpdateRequest,
    locations: Seq<ObjectLocation>,
    start: IncrementalStart,
    steps: Seq<WorkStep<X>>,
    outcome: Result<(BuildSummary, IncrementalSummary)>,
) -> bool {
    if let IncrementalStart::AlreadyApplied(delta) = start {
        &&& work_asks(steps) == seq![
            WorkAsk::Validate(request.target.catalog.physical_rows as int),
        ]
        &&& match outcome {
            Ok((summary, reported)) => steps[0].reply == Ok::<WorkReply, Error>(
                WorkReply::Summary(summary),
            ) && reported == delta,
            Err(error) => step_refused(steps[0], error),
        }
    } else {
        ||| work_asks(steps) == seq![WorkAsk::Begin] && outcome is Err && step_refused(
            steps[0],
            outcome->Err_0,
        )
        ||| exists|
            worked: Result<(Option<BuildSummary>, IncrementalSummary)>,
            work: Seq<WorkStep<X>>,
            end: Seq<WorkStep<X>>,
        |
            {
                &&& steps.len() > 0
                &&& work_asked(steps[0].request) == WorkAsk::Begin
                &&& step_done(steps[0])
                &&& steps == steps.take(1) + work + end
                &&& #[trigger] works_delta(request, locations, start, work, worked)
                &&& #[trigger] ends_update(request, worked, end, outcome)
            }
    }
}

/// What an update comes to.
pub open spec fn updates<X>(
    request: UpdateRequest,
    locations: Seq<ObjectLocation>,
    steps: Seq<WorkStep<X>>,
    outcome: Result<(BuildSummary, IncrementalSummary)>,
) -> bool {
    let count = locations.len() as int;
    if request.as_of_epoch > request.api_max {
        &&& steps.len() == 0
        &&& outcome == Err::<(BuildSummary, IncrementalSummary), Error>(
            Error::Validation("as_of exceeds the API timestamp maximum"),
        )
    } else if !plan_fits(*request.target, *request.plan, count) {
        &&& steps.len() == 0
        &&& outcome is Err
        &&& plan_refused(*request.target, *request.plan, count, outcome->Err_0)
    } else {
        &&& steps.len() > 0
        &&& work_asked(steps[0].request) == WorkAsk::State
        &&& match steps[0].reply {
            Ok(WorkReply::State(state)) => exists|start: Result<IncrementalStart>| #[trigger]
                starts(
                    *request.target,
                    *request.plan,
                    state,
                    request.as_of_epoch,
                    request.query_version@,
                    start,
                ) && match start {
                    Err(error) => steps.len() == 1 && outcome == Err::<
                        (BuildSummary, IncrementalSummary),
                        Error,
                    >(error),
                    Ok(start) => updates_from(request, locations, start, steps.skip(1), outcome),
                },
            _ => steps.len() == 1 && outcome is Err && step_refused(steps[0], outcome->Err_0),
        }
    }
}

/// An update leads from one work database to the other.
pub open spec fn updates_work<X, F: Fn(X, &WorkRequest) -> (X, Result<WorkReply>)>(
    ask: F,
    first: X,
    request: UpdateRequest,
    locations: Seq<ObjectLocation>,
    steps: Seq<WorkStep<X>>,
    made: (X, Result<(BuildSummary, IncrementalSummary)>),
) -> bool {
    &&& leads(ask, first, steps, made.0)
    &&& updates(request, locations, steps, made.1)
}

/// Run an update whose start is decided.
fn run_update<X, F: Fn(X, &WorkRequest) -> (X, Result<WorkReply>)>(
    ask: &F,
    x: X,
    request: &UpdateRequest,
    locations: Vec<ObjectLocation>,
    start: &IncrementalStart,
) -> (made: (X, Result<(BuildSummary, IncrementalSummary)>, Ghost<Seq<WorkStep<X>>>))
    requires
        request.plan.previous_snapshot_id is Some,
        forall|x: X, request: &WorkRequest| #[trigger] call_requires(*ask, (x, request)),
    ensures
        leads(*ask, x, made.2@, made.0),
        updates_from(*request, locations@, *start, made.2@, made.1),
{
    let ghost first = x;
    let ghost places = locations@;
    if let IncrementalStart::AlreadyApplied(delta) = start {
        let (x, validated, Ghost(steps)) = validate_work(
            ask,
            x,
            request.target.catalog.physical_rows,
        );
        return match validated {
            Ok(summary) => (x, Ok((summary, *delta)), Ghost(steps)),
            Err(error) => (x, Err(error), Ghost(steps)),
        };
    }
    let (x, begun, Ghost(a)) = do_work(ask, x, WorkRequest::Begin);
    let ghost x1 = x;
    match begun {
        Ok(()) => {},
        Err(error) => {
            return (x, Err(error), Ghost(a));
        },
    }
    assert(work_asks(a)[0] == WorkAsk::Begin);
    let (x, worked, Ghost(b)) = work_delta(ask, x, request, locations, start);
    let ghost x2 = x;
    let ghost made = worked;
    let (x, outcome, Ghost(c)) = end_update(ask, x, request, worked);
    let ghost steps = a + b + c;
    proof {
        lemma_work_join(*ask, first, a, x1, b, x2);
        lemma_work_join(*ask, first, a + b, x2, c, x);
        assert(steps.take(1) =~= a);
        assert(steps =~= steps.take(1) + b + c);
        assert(works_delta(*request, places, *start, b, made));
        assert(ends_update(*request, made, c, outcome));
    }
    (x, outcome, Ghost(steps))
}

/// Read the state of the checkpoint, and run the update.
fn start_update<X, F: Fn(X, &WorkRequest) -> (X, Result<WorkReply>)>(
    request: &UpdateRequest,
    locations: Vec<ObjectLocation>,
    work: X,
    ask: &F,
) -> (made: (X, Result<(BuildSummary, IncrementalSummary)>, Ghost<Seq<WorkStep<X>>>))
    requires
        forall|x: X, request: &WorkRequest| #[trigger] call_requires(*ask, (x, request)),
    ensures
        leads(*ask, work, made.2@, made.0),
        updates(*request, locations@, made.2@, made.1),
{
    let ghost first = work;
    let ghost places = locations@;
    let ghost none: Seq<WorkStep<X>> = Seq::empty();
    if request.as_of_epoch > request.api_max {
        let outcome: Result<(BuildSummary, IncrementalSummary)> = Err(
            Error::Validation("as_of exceeds the API timestamp maximum"),
        );
        return (work, outcome, Ghost(none));
    }
    match validate_plan(request.target, request.plan, locations.len()) {
        Ok(()) => {},
        Err(error) => {
            let outcome: Result<(BuildSummary, IncrementalSummary)> = Err(error);
            return (work, outcome, Ghost(none));
        },
    }
    let (x, reply, Ghost(a)) = ask_work(ask, work, WorkRequest::State);
    let ghost x1 = x;
    assert(work_asks(a)[0] == WorkAsk::State);
    let found: Option<CheckpointState> = match reply {
        Ok(WorkReply::State(found)) => found,
        Ok(_) => {
            let outcome: Result<(BuildSummary, IncrementalSummary)> = Err(
                Error::Validation("the work database gave another answer"),
            );
            return (x, outcome, Ghost(a));
        },
        Err(error) => {
            let outcome: Result<(BuildSummary, IncrementalSummary)> = Err(error);
            return (x, outcome, Ghost(a));
        },
    };
    let started: Result<IncrementalStart> = decide_start(
        request.target,
        request.plan,
        &found,
        request.as_of_epoch,
        request.query_version,
    );
    let ghost decided = started;
    assert(starts(
        *request.target,
        *request.plan,
        found,
        request.as_of_epoch,
        request.query_version@,
        decided,
    ));
    match started {
        Ok(start) => {
            let (x, outcome, Ghost(b)) = run_update(ask, x, request, locations, &start);
            proof {
                lemma_work_join(*ask, first, a, x1, b, x);
                let steps = a + b;
                assert(steps.skip(1) =~= b);
                assert(steps[0] == a[0]);
            }
            (x, outcome, Ghost(a + b))
        },
        Err(error) => {
            let outcome: Result<(BuildSummary, IncrementalSummary)> = Err(error);
            (x, outcome, Ghost(a))
        },
    }
}

/// Advance a work database by the objects of a plan, which stand at
/// `locations`.
///
/// Returns the work database, and what the rollups hold with what the delta came
/// to.
pub fn apply_incremental<X, F: Fn(X, &WorkRequest) -> (X, Result<WorkReply>)>(
    request: &UpdateRequest,
    locations: Vec<ObjectLocation>,
    work: X,
    ask: &F,
) -> (made: (X, Result<(BuildSummary, IncrementalSummary)>))
    requires
        forall|x: X, request: &WorkRequest| #[trigger] call_requires(*ask, (x, request)),
    ensures
        exists|steps: Seq<WorkStep<X>>|
            updates_work(*ask, work, *request, locations@, steps, made),
{
    let ghost first = work;
    let ghost places = locations@;
    let (x, outcome, Ghost(steps)) = start_update(request, locations, work, ask);
    let made: (X, Result<(BuildSummary, IncrementalSummary)>) = (x, outcome);
    assert(updates_work(*ask, first, *request, places, steps, made));
    made
}

/// What a work database holds: the state that is kept, and that of its open
/// transaction.
pub struct WorkState {
    /// The state that is kept.
    pub kept: Option<Checkpoint>,
    /// The state inside of the open transaction, if one is open.
    pub open: Option<Option<Checkpoint>>,
}

/// The state behind a request that is done.
pub open spec fn work_changed(state: WorkState, ask: WorkAsk) -> WorkState {
    match ask {
        WorkAsk::Begin => WorkState { open: Some(state.kept), ..state },
        WorkAsk::Record(point) | WorkAsk::Advance(point) => if state.open is Some {
            WorkState { open: Some(Some(point)), ..state }
        } else {
            WorkState { kept: Some(point), ..state }
        },
        WorkAsk::Commit => WorkState {
            kept: match state.open {
                Some(point) => point,
                None => state.kept,
            },
            open: None,
        },
        WorkAsk::Rollback => WorkState { open: None, ..state },
        _ => state,
    }
}

/// The work database keeps its state: a request that is done is answered in
/// kind and changes it as `work_changed` says, one that is not leaves what is
/// kept, and the state of the checkpoint is told as it is kept.
pub open spec fn keeps_work<X, F: Fn(X, &WorkRequest) -> (X, Result<WorkReply>)>(
    ask: F,
    view: spec_fn(X) -> WorkState,
) -> bool {
    forall|x: X, request: &WorkRequest, y: X, reply: Result<WorkReply>| #[trigger]
        call_ensures(ask, (x, request), (y, reply)) ==> match reply {
            Err(_) => view(y).kept == view(x).kept,
            Ok(answer) => {
                &&& work_answers(work_asked(*request), answer)
                &&& view(y) == work_changed(view(x), work_asked(*request))
                &&& answer matches WorkReply::State(state) ==> view(x).kept == match state {
                    Some(found) => Some(checkpoint_of(found)),
                    None => None,
                }
            },
        }
}

/// The question neither begins nor ends a transaction.
pub open spec fn stays_inside(ask: WorkAsk) -> bool {
    !(ask is Begin || ask is Commit || ask is Rollback)
}

/// Inside of a transaction nothing is kept.
proof fn lemma_inside<X, F: Fn(X, &WorkRequest) -> (X, Result<WorkReply>)>(
    ask: F,
    view: spec_fn(X) -> WorkState,
    first: X,
    steps: Seq<WorkStep<X>>,
    last: X,
)
    requires
        leads(ask, first, steps, last),
        keeps_work(ask, view),
        view(first).open is Some,
        forall|i: int|
            0 <= i < steps.len() ==> stays_inside(work_asked((#[trigger] steps[i]).request)),
        steps.len() > 0 ==> all_done(steps.drop_last()),
    ensures
        view(last).kept == view(first).kept,
        all_done(steps) ==> view(last).open is Some,
    decreases steps.len(),
{
    if steps.len() > 0 {
        let less = steps.drop_last();
        let step = steps.last();
        assert forall|i: int| 0 <= i < less.len() implies stays_inside(
            work_asked((#[trigger] less[i]).request),
        ) by {
            assert(less[i] == steps[i]);
        }
        if less.len() > 0 {
            assert forall|i: int| 0 <= i < less.drop_last().len() implies step_done(
                #[trigger] less.drop_last()[i],
            ) by {
                assert(less.drop_last()[i] == less[i]);
            }
        }
        lemma_inside(ask, view, first, less, step.before);
        assert(steps[steps.len() - 1] == step);
    }
}

/// The questions of the work stay inside of the transaction.
proof fn lemma_work_stays_inside<X>(
    request: UpdateRequest,
    locations: Seq<ObjectLocation>,
    start: IncrementalStart,
    steps: Seq<WorkStep<X>>,
    outcome: Result<(Option<BuildSummary>, IncrementalSummary)>,
)
    requires
        works_delta(request, locations, start, steps, outcome),
    ensures
        forall|i: int|
            0 <= i < steps.len() ==> stays_inside(work_asked((#[trigger] steps[i]).request)),
        steps.len() > 0 ==> all_done(steps.drop_last()),
{
    let script = delta_script(request, locations, start);
    assert forall|i: int| 0 <= i < steps.len() implies stays_inside(
        work_asked((#[trigger] steps[i]).request),
    ) by {
        assert(work_asks(steps).len() == steps.len());
        assert(work_asks(steps)[i] == script[i]);
    }
    if outcome is Ok && steps.len() > 0 {
        assert forall|i: int| 0 <= i < steps.drop_last().len() implies step_done(
            #[trigger] steps.drop_last()[i],
        ) by {
            assert(steps.drop_last()[i] == steps[i]);
        }
    }
}

/// Work that is done and that is no dry run leaves the target inside of the
/// transaction.
proof fn lemma_work_advances<X, F: Fn(X, &WorkRequest) -> (X, Result<WorkReply>)>(
    ask: F,
    view: spec_fn(X) -> WorkState,
    request: UpdateRequest,
    locations: Seq<ObjectLocation>,
    start: IncrementalStart,
    first: X,
    steps: Seq<WorkStep<X>>,
    last: X,
    outcome: (Option<BuildSummary>, IncrementalSummary),
)
    requires
        leads(ask, first, steps, last),
        keeps_work(ask, view),
        view(first).open is Some,
        works_delta(request, locations, start, steps, Ok(outcome)),
        !request.dry_run,
    ensures
        view(last).open == Some(Some(target_of(request))),
{
    let script = delta_script(request, locations, start);
    assert(work_asks(steps).len() == steps.len());
    let n = steps.len() - 2;
    let head = steps.take(n);
    let advance = seq![steps[n]];
    let validate = seq![steps[n + 1]];
    assert(steps =~= head + (advance + validate));
    assert(work_asks(steps)[n] == script[n]);
    assert(work_asks(steps)[n + 1] == script[n + 1]);
    let x1 = lemma_leads_split(ask, first, head, advance + validate, last);
    let x2 = lemma_leads_split(ask, x1, advance, validate, last);
    lemma_work_stays_inside(request, locations, start, steps, Ok(outcome));
    assert forall|i: int| 0 <= i < head.len() implies stays_inside(
        work_asked((#[trigger] head[i]).request),
    ) by {
        assert(head[i] == steps[i]);
    }
    assert forall|i: int| 0 <= i < head.len() implies step_done(#[trigger] head[i]) by {
        assert(head[i] == steps[i]);
    }
    assert forall|i: int| 0 <= i < head.drop_last().len() && head.len() > 0 implies step_done(
        #[trigger] head.drop_last()[i],
    ) by {
        assert(head.drop_last()[i] == head[i]);
    }
    lemma_inside(ask, view, first, head, x1);
    lemma_leads_one(ask, x1, advance, x2);
    lemma_leads_one(ask, x2, validate, last);
    assert(step_done(steps[n]) && step_done(steps[n + 1]));
}

/// The end of a transaction keeps the changes exactly where it is no dry run and
/// succeeds.
proof fn lemma_update_ends<X, F: Fn(X, &WorkRequest) -> (X, Result<WorkReply>)>(
    ask: F,
    view: spec_fn(X) -> WorkState,
    request: UpdateRequest,
    worked: Result<(Option<BuildSummary>, IncrementalSummary)>,
    first: X,
    steps: Seq<WorkStep<X>>,
    last: X,
    outcome: Result<(BuildSummary, IncrementalSummary)>,
)
    requires
        leads(ask, first, steps, last),
        keeps_work(ask, view),
        ends_update(request, worked, steps, outcome),
    ensures
        outcome is Err || request.dry_run ==> view(last).kept == view(first).kept,
        outcome is Ok && !request.dry_run ==> (view(first).open matches Some(point)
            ==> view(last).kept == point),
{
    assert(work_asks(steps).len() == steps.len());
    assert(work_asked(steps[0].request) == work_asks(steps)[0]);
    if steps.len() == 1 {
        lemma_leads_one(ask, first, steps, last);
        assert(outcome is Ok ==> step_done(steps[0]));
    } else {
        let a = seq![steps[0]];
        let b = seq![steps[1]];
        assert(steps =~= a + b);
        assert(work_asked(steps[1].request) == work_asks(steps)[1]);
        let middle = lemma_leads_split(ask, first, a, b, last);
        lemma_leads_one(ask, first, a, middle);
        lemma_leads_one(ask, middle, b, last);
    }
}

/// The work reports a delta that it applies.
proof fn lemma_worked_is_new<X>(
    request: UpdateRequest,
    locations: Seq<ObjectLocation>,
    start: IncrementalStart,
    steps: Seq<WorkStep<X>>,
    summary: Option<BuildSummary>,
    delta: IncrementalSummary,
)
    requires
        works_delta(request, locations, start, steps, Ok((summary, delta))),
    ensures
        !delta.already_applied,
{
}

/// What an update keeps once its start is decided.
proof fn lemma_from_start<X, F: Fn(X, &WorkRequest) -> (X, Result<WorkReply>)>(
    ask: F,
    view: spec_fn(X) -> WorkState,
    request: UpdateRequest,
    locations: Seq<ObjectLocation>,
    start: IncrementalStart,
    first: X,
    steps: Seq<WorkStep<X>>,
    made: (X, Result<(BuildSummary, IncrementalSummary)>),
)
    requires
        leads(ask, first, steps, made.0),
        updates_from(request, locations, start, steps, made.1),
        keeps_work(ask, view),
        start is AlreadyApplied ==> view(first).kept == Some(target_of(request))
            && start->AlreadyApplied_0.already_applied,
    ensures
        made.1 is Err || request.dry_run || made.1->Ok_0.1.already_applied ==> view(made.0).kept
            == view(first).kept,
        made.1 is Ok && !request.dry_run ==> view(made.0).kept == Some(target_of(request)),
{
    let (last, outcome) = made;
    assert(work_asks(steps).len() == steps.len());
    if start is AlreadyApplied || (work_asks(steps) == seq![WorkAsk::Begin] && outcome is Err
        && step_refused(steps[0], outcome->Err_0)) {
        assert(work_asked(steps[0].request) == work_asks(steps)[0]);
        lemma_leads_one(ask, first, steps, last);
    } else {
        let (worked, work, end) = choose|
            worked: Result<(Option<BuildSummary>, IncrementalSummary)>,
            work: Seq<WorkStep<X>>,
            end: Seq<WorkStep<X>>,
        |
            {
                &&& steps.len() > 0
                &&& work_asked(steps[0].request) == WorkAsk::Begin
                &&& step_done(steps[0])
                &&& steps == steps.take(1) + work + end
                &&& #[trigger] works_delta(request, locations, start, work, worked)
                &&& #[trigger] ends_update(request, worked, end, outcome)
            };
        let one = steps.take(1);
        let x2 = lemma_leads_split(ask, first, one + work, end, last);
        let x1 = lemma_leads_split(ask, first, one, work, x2);
        lemma_leads_one(ask, first, one, x1);
        assert(one[0] == steps[0]);
        lemma_work_stays_inside(request, locations, start, work, worked);
        lemma_inside(ask, view, x1, work, x2);
        lemma_update_ends(ask, view, request, worked, x2, end, last, outcome);
        if let Ok((summary, delta)) = worked {
            lemma_worked_is_new(request, locations, start, work, summary, delta);
            if !request.dry_run {
                lemma_work_advances(
                    ask,
                    view,
                    request,
                    locations,
                    start,
                    x1,
                    work,
                    x2,
                    (summary, delta),
                );
            }
        }
    }
}

/// An update moves the checkpoint to the target as a whole or not at all.
///
/// One that fails, a dry run and one that finds the target applied leave what
/// is kept as it was. Any other that succeeds keeps the target's snapshot with
/// its boundary and query version. Behind every success that is no dry run the
/// target is kept.
pub proof fn lemma_update_is_whole<X, F: Fn(X, &WorkRequest) -> (X, Result<WorkReply>)>(
    ask: F,
    view: spec_fn(X) -> WorkState,
    request: UpdateRequest,
    locations: Seq<ObjectLocation>,
    first: X,
    steps: Seq<WorkStep<X>>,
    made: (X, Result<(BuildSummary, IncrementalSummary)>),
)
    requires
        updates_work(ask, first, request, locations, steps, made),
        keeps_work(ask, view),
    ensures
        made.1 is Err || request.dry_run || made.1->Ok_0.1.already_applied ==> view(made.0).kept
            == view(first).kept,
        made.1 is Ok && !request.dry_run ==> view(made.0).kept == Some(target_of(request)),
{
    let (last, outcome) = made;
    if steps.len() > 0 {
        let one = steps.take(1);
        let rest = steps.skip(1);
        assert(steps =~= one + rest);
        let x1 = lemma_leads_split(ask, first, one, rest, last);
        lemma_leads_one(ask, first, one, x1);
        assert(one[0] == steps[0]);
        if let Ok(WorkReply::State(state)) = steps[0].reply {
            let started = choose|start: Result<IncrementalStart>| #[trigger]
                starts(
                    *request.target,
                    *request.plan,
                    state,
                    request.as_of_epoch,
                    request.query_version@,
                    start,
                ) && match start {
                    Err(error) => steps.len() == 1 && outcome == Err::<
                        (BuildSummary, IncrementalSummary),
                        Error,
                    >(error),
                    Ok(start) => updates_from(request, locations, start, steps.skip(1), outcome),
                };
            match started {
                Err(error) => {
                    assert(rest =~= Seq::empty());
                },
                Ok(start) => {
                    lemma_from_start(ask, view, request, locations, start, x1, rest, made);
                },
            }
        } else {
            assert(rest =~= Seq::empty());
        }
    }
}

} // verus!
