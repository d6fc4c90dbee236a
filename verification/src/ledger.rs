//! One transaction of the ledger.
//!
//! The ledger is asked one thing after another inside one transaction. Every
//! question takes the transaction and gives it back, so that questions stand in
//! one order, and what ends the transaction takes it for good: it is kept or
//! dropped once, and nothing is asked behind that.

use vstd::prelude::*;
use vstd::string::*;

use crate::error::{Error, Result};
use crate::flexible_publish::{FlexibleProductRow, PublishedFlexible};
use crate::publish::{
    ObjectRow, OverviewRow, PublishedActivity, PublishedCohort, PublishedIdentity, RunRow,
    ValidationRecord,
};
use crate::publish_ranking::StoredRanking;
use crate::publish_relay::StoredRelays;
use crate::publish_serving::StoredServing;
use crate::publish_tables::{texts, Relation};
use crate::publisher_publish::PublisherProductRow;
use crate::relay_publish::RelayProductRow;
use crate::semantic_publish::{PublishedSemantic, SemanticProductRow};
use crate::serving_publish::ServingProductRow;
use crate::steps::{ask_step, leads, lemma_leads_join, Step};
use crate::text::optional_text;
use crate::zap_publish::{PublishedZapDistinct, SemanticBaseline, ZapProductRow};

verus! {

/// A product that is published beside the run.
#[derive(Clone, Copy, Debug, PartialEq, Eq, Structural)]
pub enum SideProduct {
    /// Flexible distinct leaves.
    Flexible,
    /// Semantic rollups.
    Semantic,
    /// Participants of the semantic zaps.
    Zap,
    /// The relay distribution.
    Relay,
    /// The publisher ranking.
    Ranking,
    /// Serving facts.
    Serving,
}

/// A table of a product.
#[derive(Clone, Copy, Debug, PartialEq, Eq, Structural)]
pub enum SideTable {
    /// Flexible distinct leaves.
    FlexibleLeaves,
    /// Engagement days.
    Engagement,
    /// Long-form days.
    Longform,
    /// Zap days.
    Zaps,
    /// Amounts of zaps.
    Histogram,
    /// Rejected zaps.
    Rejections,
    /// Leaves of the zap participants.
    ZapLeaves,
    /// Relays.
    Relays,
    /// Ranked publishers.
    Rankings,
    /// Hours of the serving facts.
    Hours,
    /// Kinds of the serving facts.
    Kinds,
}

/// The row of a product.
pub enum SideRow {
    /// Flexible distinct leaves.
    Flexible(FlexibleProductRow),
    /// Semantic rollups.
    Semantic(SemanticProductRow),
    /// Participants of the semantic zaps.
    Zap(ZapProductRow),
    /// The relay distribution.
    Relay(RelayProductRow),
    /// The publisher ranking.
    Ranking(PublisherProductRow),
    /// Serving facts.
    Serving(ServingProductRow),
}

/// What the ledger holds of a product.
pub enum SideStored {
    /// Flexible distinct leaves.
    Flexible(PublishedFlexible),
    /// Semantic rollups.
    Semantic(PublishedSemantic),
    /// Participants of the semantic zaps.
    Zap(PublishedZapDistinct),
    /// The relay distribution.
    Relay(StoredRelays),
    /// The publisher ranking.
    Ranking(StoredRanking),
    /// Serving facts.
    Serving(StoredServing),
}

/// An object of the snapshot of a run.
pub struct RunInput {
    /// Key of the object in its store.
    pub object_key: String,
    /// Work unit that wrote the object.
    pub work_unit_id: String,
    /// Hexadecimal SHA-256 digest of the bytes.
    pub sha256: String,
    /// Sizes of the object.
    pub sizes: ObjectRow,
    /// Earliest event timestamp, as decimal text.
    pub min_created_at: Option<String>,
    /// Latest event timestamp, as decimal text.
    pub max_created_at: Option<String>,
}

/// A run that is new to the ledger.
pub struct NewRun {
    /// Deterministic run identifier.
    pub run_id: String,
    /// Snapshot of the run.
    pub snapshot_id: String,
    /// When the build started.
    pub started_at: String,
    /// When the build completed.
    pub completed_at: String,
    /// The run that is current, if any.
    pub previous: Option<String>,
    /// Whether the build started from a run.
    pub incremental: bool,
    /// Version of the queries.
    pub query_version: String,
    /// Version of the program.
    pub code_version: String,
    /// Counts of the run.
    pub row: RunRow,
    /// Counts of the overview.
    pub overview: OverviewRow,
    /// What was validated.
    pub validation: ValidationRecord,
    /// Objects of the snapshot.
    pub objects: Vec<RunInput>,
}

/// What the ledger holds of a staged run.
pub struct PublishedTables {
    /// The first-seen product.
    pub identity: PublishedIdentity,
    /// The activity product.
    pub activity: PublishedActivity,
    /// The cohort product.
    pub cohort: PublishedCohort,
}

/// The run that is current, as stored.
#[derive(Clone, Debug, PartialEq, Eq)]
pub struct LedgerRun {
    /// Identifier of the run.
    pub run_id: String,
    /// Snapshot of the run.
    pub snapshot_id: String,
    /// Query version of the run.
    pub query_version: String,
    /// Boundary of the run.
    pub as_of_epoch: i64,
    /// Activity evidence of the run, if any.
    pub activity_evidence_sha256: Option<String>,
}

/// What the ledger is asked.
pub enum LedgerRequest {
    /// Which run is current; no other publication may change it meanwhile.
    LockCurrent,
    /// What is stored of the current run.
    CurrentRun,
    /// The current run, and the semantic product behind it.
    SemanticProduct {
        /// Identity of the semantic product.
        product_id: String,
    },
    /// Whether a run is stored.
    RunStored {
        /// Identifier of the run.
        run_id: String,
    },
    /// Insert a run with its inputs and its overview.
    InsertRun(NewRun),
    /// Mark every applied object as inactive.
    RetireObjects,
    /// Mark an object as applied by the run.
    ApplyObject {
        /// Identifier of the run.
        run_id: String,
        /// The object.
        input: RunInput,
    },
    /// Copy lines into a table of the run.
    CopyRows {
        /// The table.
        relation: Relation,
        /// The lines.
        lines: Vec<String>,
    },
    /// What is stored of a run.
    RunTables {
        /// Identifier of the run.
        run_id: String,
    },
    /// Make the run current.
    PointTo {
        /// Identifier of the run.
        run_id: String,
    },
    /// Whether a product is stored.
    ProductStored {
        /// The product.
        side: SideProduct,
        /// Identity of the product.
        product_id: String,
    },
    /// Insert the row of a product.
    InsertProduct {
        /// Identity of the run, or of the product, that the product belongs to.
        parent: String,
        /// Identity of the product.
        product_id: String,
        /// The row.
        row: SideRow,
    },
    /// Copy lines into a table of a product.
    CopyProduct {
        /// The table.
        table: SideTable,
        /// The lines.
        lines: Vec<String>,
    },
    /// What is stored of a product.
    StoredProduct {
        /// The product.
        side: SideProduct,
        /// Identity of the product.
        product_id: String,
    },
}

/// What the ledger answers.
pub enum LedgerReply {
    /// The current run, if any.
    Current(Option<String>),
    /// What is stored of the current run.
    Run(LedgerRun),
    /// The current run, and the semantic product behind it.
    Semantic(String, SemanticBaseline),
    /// Whether it is stored.
    Known(bool),
    /// It is done.
    Done,
    /// So many rows were stored or changed.
    Rows(u64),
    /// What is stored of a run.
    Tables(PublishedTables),
    /// What is stored of a product.
    Product(SideStored),
}

/// What is asked, as mathematical values.
pub enum Ask {
    /// The current run, under a lock.
    LockCurrent,
    /// What is stored of the current run.
    CurrentRun,
    /// The semantic product.
    SemanticProduct(Seq<char>),
    /// Whether a run is stored.
    RunStored(Seq<char>),
    /// Insert a run.
    InsertRun(NewRun),
    /// Retire all objects.
    RetireObjects,
    /// Apply an object for a run.
    ApplyObject(Seq<char>, RunInput),
    /// Copy lines of a run.
    CopyRows(Relation, Seq<Seq<char>>),
    /// What is stored of a run.
    RunTables(Seq<char>),
    /// Make a run current.
    PointTo(Seq<char>),
    /// Whether a product is stored.
    ProductStored(SideProduct, Seq<char>),
    /// Insert the row of a product that belongs to the first identity.
    InsertProduct(Seq<char>, Seq<char>, SideRow),
    /// Copy lines of a product.
    CopyProduct(SideTable, Seq<Seq<char>>),
    /// What is stored of a product.
    StoredProduct(SideProduct, Seq<char>),
}

/// The request as mathematical values.
pub open spec fn asked(request: LedgerRequest) -> Ask {
    match request {
        LedgerRequest::LockCurrent => Ask::LockCurrent,
        LedgerRequest::CurrentRun => Ask::CurrentRun,
        LedgerRequest::SemanticProduct { product_id } => Ask::SemanticProduct(product_id@),
        LedgerRequest::RunStored { run_id } => Ask::RunStored(run_id@),
        LedgerRequest::InsertRun(run) => Ask::InsertRun(run),
        LedgerRequest::RetireObjects => Ask::RetireObjects,
        LedgerRequest::ApplyObject { run_id, input } => Ask::ApplyObject(run_id@, input),
        LedgerRequest::CopyRows { relation, lines } => Ask::CopyRows(relation, texts(lines@)),
        LedgerRequest::RunTables { run_id } => Ask::RunTables(run_id@),
        LedgerRequest::PointTo { run_id } => Ask::PointTo(run_id@),
        LedgerRequest::ProductStored { side, product_id } => Ask::ProductStored(side, product_id@),
        LedgerRequest::InsertProduct { parent, product_id, row } => Ask::InsertProduct(
            parent@,
            product_id@,
            row,
        ),
        LedgerRequest::CopyProduct { table, lines } => Ask::CopyProduct(table, texts(lines@)),
        LedgerRequest::StoredProduct { side, product_id } => Ask::StoredProduct(side, product_id@),
    }
}

/// The answer is of the kind that the question asks for.
pub open spec fn answers(ask: Ask, reply: LedgerReply) -> bool {
    match ask {
        Ask::LockCurrent => reply is Current,
        Ask::CurrentRun => reply is Run,
        Ask::SemanticProduct(_) => reply is Semantic,
        Ask::RunStored(_) | Ask::ProductStored(_, _) => reply is Known,
        Ask::InsertRun(_) | Ask::RetireObjects => reply is Done,
        Ask::PointTo(_) | Ask::InsertProduct(_, _, _) => reply is Done,
        Ask::ApplyObject(_, _) => reply is Rows,
        Ask::CopyRows(_, _) | Ask::CopyProduct(_, _) => reply is Rows,
        Ask::RunTables(_) => reply is Tables,
        Ask::StoredProduct(_, _) => reply is Product,
    }
}

/// The functions that work on one open transaction `X`.
pub struct Ledger<'a, F, K, R> {
    /// Asks inside of the transaction.
    pub ask: &'a F,
    /// Keeps all changes of the transaction.
    pub commit: &'a K,
    /// Drops all changes of the transaction.
    pub rollback: &'a R,
}

/// Every function may be called.
pub open spec fn ledger_callable<
    X,
    F: Fn(X, &LedgerRequest) -> (X, Result<LedgerReply>),
    K: Fn(X) -> Result<()>,
    R: Fn(X),
>(ledger: Ledger<F, K, R>) -> bool {
    &&& forall|x: X, request: &LedgerRequest| #[trigger] call_requires(*ledger.ask, (x, request))
    &&& forall|x: X| #[trigger] call_requires(*ledger.commit, (x,))
    &&& forall|x: X| #[trigger] call_requires(*ledger.rollback, (x,))
}

/// One question and its answer, with the transaction before and behind it.
pub type Exchange<X> = Step<X, LedgerRequest, LedgerReply>;

/// What was asked.
pub open spec fn asks<X>(trace: Seq<Exchange<X>>) -> Seq<Ask> {
    Seq::new(trace.len(), |i: int| asked(trace[i].request))
}

/// Every question was answered.
pub open spec fn answered<X>(trace: Seq<Exchange<X>>) -> bool {
    forall|i: int| 0 <= i < trace.len() ==> (#[trigger] trace[i]).reply is Ok
}

/// `a` is a beginning of `b`.
pub open spec fn begins(a: Seq<Ask>, b: Seq<Ask>) -> bool {
    a.len() <= b.len() && a == b.take(a.len() as int)
}

/// Exchanges that meet can be joined.
pub proof fn lemma_join<X, F: Fn(X, &LedgerRequest) -> (X, Result<LedgerReply>)>(
    ask: F,
    x: X,
    a: Seq<Exchange<X>>,
    y: X,
    b: Seq<Exchange<X>>,
    z: X,
)
    requires
        leads(ask, x, a, y),
        leads(ask, y, b, z),
    ensures
        leads(ask, x, a + b, z),
        asks(a + b) == asks(a) + asks(b),
        answered(a) && answered(b) ==> answered(a + b),
{
    lemma_leads_join(ask, x, a, y, b, z);
    assert(asks(a + b) =~= asks(a) + asks(b));
    assert forall|i: int| answered(a) && answered(b) && 0 <= i < (a + b).len() implies (
    #[trigger] (a + b)[i]).reply is Ok by {
        if i < a.len() {
            assert((a + b)[i] == a[i]);
        } else {
            assert((a + b)[i] == b[i - a.len()]);
        }
    }
}

/// A beginning of a part that stands behind whole parts is one of the whole.
pub proof fn lemma_begins(head: Seq<Ask>, part: Seq<Ask>, whole: Seq<Ask>, rest: Seq<Ask>)
    requires
        begins(part, whole),
    ensures
        begins(head + part, head + whole + rest),
{
    assert(head + part =~= (head + whole + rest).take((head + part).len() as int));
}

/// How a transaction ended.
pub enum Ended<X> {
    /// It was never opened.
    Unopened,
    /// All changes were dropped.
    Dropped(X),
    /// All changes were kept.
    Kept(X),
    /// It could not be kept.
    Refused(X),
}

/// The transaction ended this way, and `error` is why it could not be kept.
pub open spec fn ends<X, K: Fn(X) -> Result<()>, R: Fn(X)>(
    commit: K,
    rollback: R,
    end: Ended<X>,
    outcome: Result<()>,
) -> bool {
    match end {
        Ended::Unopened => outcome is Err,
        Ended::Dropped(x) => outcome is Err && call_ensures(rollback, (x,), ()),
        Ended::Kept(x) => outcome is Ok && call_ensures(commit, (x,), Ok(())),
        Ended::Refused(x) => outcome is Err && call_ensures(commit, (x,), Err(outcome->Err_0)),
    }
}

/// Ask one thing.
pub(crate) fn ask_one<X, F: Fn(X, &LedgerRequest) -> (X, Result<LedgerReply>)>(
    ask: &F,
    x: X,
    request: LedgerRequest,
) -> (answer: (X, Result<LedgerReply>, Ghost<Seq<Exchange<X>>>))
    requires
        forall|x: X, request: &LedgerRequest| #[trigger] call_requires(*ask, (x, request)),
    ensures
        answer.2@ == seq![Step { before: x, request, after: answer.0, reply: answer.1 }],
        leads(*ask, x, answer.2@, answer.0),
        asks(answer.2@) == seq![asked(request)],
        answer.1 is Ok ==> answered(answer.2@),
{
    let (x, reply, Ghost(trace)) = ask_step(ask, x, request);
    assert(asks(trace) =~= seq![asked(request)]);
    (x, reply, Ghost(trace))
}

/// The answer that a change is owed.
#[derive(Clone, Copy, Debug, PartialEq, Eq)]
pub enum Owed {
    /// That it is done.
    Done,
    /// So many rows of a relation.
    Rows(&'static str, u64),
    /// That exactly one row changed; otherwise the message is the refusal.
    One(&'static str),
}

/// A change of the ledger.
pub struct Change {
    /// What is asked.
    pub request: LedgerRequest,
    /// What is owed.
    pub owed: Owed,
}

/// The questions of the changes.
pub open spec fn changes(script: Seq<Change>) -> Seq<Ask> {
    Seq::new(script.len(), |i: int| asked(script[i].request))
}

/// The answer is the one that is owed.
pub open spec fn is_owed(owed: Owed, reply: Result<LedgerReply>) -> bool {
    match owed {
        Owed::Done => reply matches Ok(LedgerReply::Done),
        Owed::Rows(_, rows) => reply matches Ok(LedgerReply::Rows(stored)) && stored == rows,
        Owed::One(_) => reply matches Ok(LedgerReply::Rows(stored)) && stored == 1,
    }
}

/// How another answer is reported.
pub open spec fn refuses(owed: Owed, reply: Result<LedgerReply>, error: Error) -> bool {
    match reply {
        Err(reason) => error == reason,
        Ok(LedgerReply::Rows(copied)) => match owed {
            Owed::Rows(relation, rows) => copied != rows && error == (Error::CopyCount {
                relation,
                copied,
                owed: rows,
            }),
            Owed::One(message) => copied != 1 && error == Error::Validation(message),
            Owed::Done => error is Validation,
        },
        Ok(_) => error is Validation,
    }
}

/// What making the changes one after another comes to: all of them are made and
/// answered as owed, or the last that was asked for was not.
pub open spec fn makes<X>(
    script: Seq<Change>,
    trace: Seq<Exchange<X>>,
    outcome: Result<()>,
) -> bool {
    &&& begins(asks(trace), changes(script))
    &&& match outcome {
        Ok(_) => {
            &&& trace.len() == script.len()
            &&& forall|i: int|
                0 <= i < trace.len() ==> is_owed(script[i].owed, (#[trigger] trace[i]).reply)
        },
        Err(error) => {
            &&& trace.len() > 0
            &&& !is_owed(script[trace.len() - 1].owed, trace.last().reply)
            &&& refuses(script[trace.len() - 1].owed, trace.last().reply, error)
        },
    }
}

/// Whether the answer is the one that is owed.
fn check_owed(owed: Owed, reply: Result<LedgerReply>) -> (outcome: Result<()>)
    ensures
        outcome is Ok <==> is_owed(owed, reply),
        outcome is Err ==> refuses(owed, reply, outcome->Err_0),
{
    match reply {
        Err(error) => Err(error),
        Ok(LedgerReply::Done) => match owed {
            Owed::Done => Ok(()),
            _ => Err(Error::Validation("the ledger counted no rows")),
        },
        Ok(LedgerReply::Rows(copied)) => match owed {
            Owed::Done => Err(Error::Validation("the ledger gave another answer")),
            Owed::Rows(relation, owed) => if copied == owed {
                Ok(())
            } else {
                Err(Error::CopyCount { relation, copied, owed })
            },
            Owed::One(message) => if copied == 1 {
                Ok(())
            } else {
                Err(Error::Validation(message))
            },
        },
        Ok(_) => Err(Error::Validation("the ledger gave another answer")),
    }
}

/// Make changes one after another.
pub(crate) fn make_changes<X, F: Fn(X, &LedgerRequest) -> (X, Result<LedgerReply>)>(
    ask: &F,
    x: X,
    script: Vec<Change>,
) -> (made: (X, Result<()>, Ghost<Seq<Exchange<X>>>))
    requires
        forall|x: X, request: &LedgerRequest| #[trigger] call_requires(*ask, (x, request)),
    ensures
        leads(*ask, x, made.2@, made.0),
        makes(script@, made.2@, made.1),
        made.1 is Ok ==> answered(made.2@) && asks(made.2@) == changes(script@),
{
    let ghost first = x;
    let ghost mut trace: Seq<Exchange<X>> = Seq::empty();
    let mut held: X = x;
    let mut i: usize = 0;
    while i < script.len()
        invariant
            i <= script@.len(),
            first == x,
            forall|x: X, request: &LedgerRequest| #[trigger] call_requires(*ask, (x, request)),
            leads(*ask, first, trace, held),
            trace.len() == i,
            forall|j: int| 0 <= j < i ==> is_owed(script@[j].owed, (#[trigger] trace[j]).reply),
            forall|j: int| 0 <= j < i ==> (#[trigger] trace[j]).request == script@[j].request,
        decreases script.len() - i,
    {
        let ghost before = held;
        let (after, reply) = ask(held, &script[i].request);
        let ghost step = Step {
            before,
            request: script@[i as int].request,
            after,
            reply,
        };
        let ghost longer = trace.push(step);
        proof {
            assert(longer.drop_last() =~= trace);
            assert(longer.last() == step);
            assert(leads(*ask, first, longer, after));
            assert forall|j: int| 0 <= j < longer.len() implies (#[trigger] longer[j]).request
                == script@[j].request by {
                if j < trace.len() {
                    assert(longer[j] == trace[j]);
                }
            }
            assert(asks(longer) =~= changes(script@).take(longer.len() as int));
        }
        held = after;
        match check_owed(script[i].owed, reply) {
            Ok(()) => {},
            Err(error) => {
                return (held, Err(error), Ghost(longer));
            },
        }
        proof {
            assert forall|j: int| 0 <= j < longer.len() implies is_owed(
                script@[j].owed,
                (#[trigger] longer[j]).reply,
            ) by {
                if j < trace.len() {
                    assert(longer[j] == trace[j]);
                }
            }
            trace = longer;
        }
        i += 1;
    }
    proof {
        assert(asks(trace) =~= changes(script@));
        assert(changes(script@) =~= changes(script@).take(trace.len() as int));
    }
    (held, Ok(()), Ghost(trace))
}

/// Drop the transaction.
pub(crate) fn drop_changes<X, R: Fn(X)>(rollback: &R, x: X)
    requires
        forall|x: X| #[trigger] call_requires(*rollback, (x,)),
    ensures
        call_ensures(*rollback, (x,), ()),
{
    let done = rollback(x);
    assert(done == ());
}

/// What the ledger holds.
pub struct LedgerState {
    /// The current run.
    pub current: Option<Seq<char>>,
    /// Runs by their identifier.
    pub runs: Map<Seq<char>, NewRun>,
    /// The runs that applied active objects, and the keys of these.
    pub active: Set<(Seq<char>, Seq<char>)>,
    /// Lines of the tables of the runs.
    pub rows: Map<Relation, Seq<Seq<char>>>,
    /// Products by their identity.
    pub products: Map<(SideProduct, Seq<char>), SideRow>,
    /// Lines of the tables of the products.
    pub product_rows: Map<SideTable, Seq<Seq<char>>>,
}

/// The product that a row belongs to.
pub open spec fn side_of_row(row: SideRow) -> SideProduct {
    match row {
        SideRow::Flexible(_) => SideProduct::Flexible,
        SideRow::Semantic(_) => SideProduct::Semantic,
        SideRow::Zap(_) => SideProduct::Zap,
        SideRow::Relay(_) => SideProduct::Relay,
        SideRow::Ranking(_) => SideProduct::Ranking,
        SideRow::Serving(_) => SideProduct::Serving,
    }
}

/// The state behind an answered question.
pub open spec fn changed(state: LedgerState, ask: Ask) -> LedgerState {
    match ask {
        Ask::InsertRun(run) => LedgerState { runs: state.runs.insert(run.run_id@, run), ..state },
        Ask::RetireObjects => LedgerState { active: Set::empty(), ..state },
        Ask::ApplyObject(run_id, input) => LedgerState {
            active: state.active.insert((run_id, input.object_key@)),
            ..state
        },
        Ask::CopyRows(relation, lines) => LedgerState {
            rows: state.rows.insert(relation, state.rows[relation] + lines),
            ..state
        },
        Ask::PointTo(run_id) => LedgerState { current: Some(run_id), ..state },
        Ask::InsertProduct(_, product_id, row) => LedgerState {
            products: state.products.insert((side_of_row(row), product_id), row),
            ..state
        },
        Ask::CopyProduct(table, lines) => LedgerState {
            product_rows: state.product_rows.insert(table, state.product_rows[table] + lines),
            ..state
        },
        _ => state,
    }
}

/// The state behind answered questions.
pub open spec fn after_all(state: LedgerState, asks: Seq<Ask>) -> LedgerState
    decreases asks.len(),
{
    if asks.len() == 0 {
        state
    } else {
        changed(after_all(state, asks.drop_last()), asks.last())
    }
}

/// The answer is true of the state.
pub open spec fn tells(state: LedgerState, ask: Ask, reply: LedgerReply) -> bool {
    match ask {
        Ask::LockCurrent => reply matches LedgerReply::Current(current) ==> optional_text(current)
            == state.current,
        Ask::RunStored(run_id) => reply matches LedgerReply::Known(known) ==> known
            == state.runs.contains_key(run_id),
        Ask::ProductStored(side, product_id) => reply matches LedgerReply::Known(known) ==> known
            == state.products.contains_key((side, product_id)),
        _ => true,
    }
}

/// `ask` works on a ledger: `view` is what the transaction would keep, answered
/// questions change it as they say, and answers are true of it.
pub open spec fn keeps_state<X, F: Fn(X, &LedgerRequest) -> (X, Result<LedgerReply>)>(
    ask: F,
    view: spec_fn(X) -> LedgerState,
) -> bool {
    forall|x: X, request: LedgerRequest, y: X, reply: LedgerReply| #[trigger]
        call_ensures(ask, (x, &request), (y, Ok::<LedgerReply, Error>(reply))) ==> view(y)
            == changed(view(x), asked(request)) && tells(view(x), asked(request), reply)
}

/// What the ledger holds once the transaction ended.
pub open spec fn state_after<X>(
    view: spec_fn(X) -> LedgerState,
    before: LedgerState,
    end: Ended<X>,
) -> LedgerState {
    match end {
        Ended::Kept(x) => view(x),
        _ => before,
    }
}

/// Answered questions lead to the state behind them.
pub proof fn lemma_trace_changes<X, F: Fn(X, &LedgerRequest) -> (X, Result<LedgerReply>)>(
    ask: F,
    view: spec_fn(X) -> LedgerState,
    x: X,
    trace: Seq<Exchange<X>>,
    y: X,
)
    requires
        keeps_state(ask, view),
        leads(ask, x, trace, y),
        answered(trace),
    ensures
        view(y) == after_all(view(x), asks(trace)),
        forall|i: int|
            0 <= i < trace.len() ==> tells(
                after_all(view(x), asks(trace).take(i)),
                asked((#[trigger] trace[i]).request),
                trace[i].reply->Ok_0,
            ),
    decreases trace.len(),
{
    if trace.len() > 0 {
        let less = trace.drop_last();
        let last = trace.last();
        assert forall|i: int| 0 <= i < less.len() implies (#[trigger] less[i]).reply is Ok by {
            assert(less[i] == trace[i]);
        }
        lemma_trace_changes(ask, view, x, less, last.before);
        assert(asks(trace).drop_last() =~= asks(less));
        assert(trace[trace.len() - 1].reply is Ok);
        assert(call_ensures(
            ask,
            (last.before, &last.request),
            (last.after, Ok::<LedgerReply, Error>(last.reply->Ok_0)),
        ));
        assert forall|i: int| 0 <= i < trace.len() implies tells(
            after_all(view(x), asks(trace).take(i)),
            asked((#[trigger] trace[i]).request),
            trace[i].reply->Ok_0,
        ) by {
            if i < less.len() {
                assert(less[i] == trace[i]);
                assert(asks(trace).take(i) =~= asks(less).take(i));
            } else {
                assert(asks(trace).take(i) =~= asks(less));
            }
        }
    } else {
        assert(asks(trace) =~= Seq::empty());
    }
}

/// Questions one after another change the state one after another.
pub proof fn lemma_after_join(state: LedgerState, a: Seq<Ask>, b: Seq<Ask>)
    ensures
        after_all(state, a + b) == after_all(after_all(state, a), b),
    decreases b.len(),
{
    if b.len() == 0 {
        assert(a + b =~= a);
    } else {
        lemma_after_join(state, a, b.drop_last());
        assert((a + b).drop_last() =~= a + b.drop_last());
    }
}

} // verus!
