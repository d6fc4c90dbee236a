//! What publications leave in the ledger.
//!
//! The ledger is seen through `view`: what an open transaction would keep. A
//! transaction that is kept leaves that; any other leaves the ledger as it was.

use vstd::prelude::*;

use crate::error::{Error, Result};
use crate::ledger::{
    after_all, answers, asked, asks, begins, changed, changes, keeps_state, lemma_after_join,
    lemma_trace_changes, side_of_row, state_after, tells, Ask, Exchange, Ledger, LedgerReply,
    LedgerRequest, LedgerState, NewRun, SideProduct, SideRow, SideTable,
};
use crate::products::PublicationProducts;
use crate::publish::{
    current_after, decides, expected_text, published_after, verdict, PublicationStep,
    PublishOutcome,
};
use crate::publish_run::{
    decided, identity_of, is_new_run, joined, object_asks, part_publishes, point_asks,
    publishes_run, run_script, sides_published, sides_script, stage_asks, RunRequest, RunTrace,
};
use crate::publish_side::{
    alone_script, baseline_ask, id_of, last_of, names_product, publishes_alone, row_is, side_of,
    side_script, tables_of, write_asks, ProductOutcome, SideChoice, SideItem, SideLines, SideRun,
};
use crate::publish_tables::table_asks;
use crate::steps::{leads, lemma_leads_one, lemma_leads_split};
use crate::text::optional_text;

verus! {

/// Lines behind those of their tables.
pub open spec fn appended(
    rows: Map<SideTable, Seq<Seq<char>>>,
    tables: Seq<SideLines>,
) -> Map<SideTable, Seq<Seq<char>>>
    decreases tables.len(),
{
    if tables.len() == 0 {
        rows
    } else {
        let before = appended(rows, tables.drop_last());
        before.insert(tables.last().table, before[tables.last().table] + tables.last().lines)
    }
}

/// The copies of tables.
pub open spec fn copies(tables: Seq<SideLines>) -> Seq<Ask> {
    Seq::new(tables.len(), |i: int| Ask::CopyProduct(tables[i].table, tables[i].lines))
}

/// Copies put lines behind those of their tables, and change nothing else.
proof fn lemma_copies(state: LedgerState, tables: Seq<SideLines>)
    ensures
        after_all(state, copies(tables)) == (LedgerState {
            product_rows: appended(state.product_rows, tables),
            ..state
        }),
    decreases tables.len(),
{
    if tables.len() > 0 {
        lemma_copies(state, tables.drop_last());
        assert(copies(tables).drop_last() =~= copies(tables.drop_last()));
    }
}

/// One question changes the state once.
pub proof fn lemma_one(state: LedgerState, ask: Ask)
    ensures
        after_all(state, seq![ask]) == changed(state, ask),
{
    assert(seq![ask].drop_last() =~= Seq::empty());
    assert(after_all(state, Seq::empty()) == state);
    reveal_with_fuel(after_all, 2);
}

/// The ledger with the product, if it was not stored.
pub open spec fn with_product(
    state: LedgerState,
    item: SideItem,
    parent: Seq<char>,
    choice: SideChoice,
) -> LedgerState {
    if choice.known {
        state
    } else {
        LedgerState {
            products: state.products.insert(
                (side_of_row(choice.row), id_of(item, parent)),
                choice.row,
            ),
            product_rows: appended(state.product_rows, tables_of(item, id_of(item, parent))),
            ..state
        }
    }
}

/// What is asked to publish a product adds the product.
pub proof fn lemma_side_script(
    state: LedgerState,
    item: SideItem,
    parent: Seq<char>,
    choice: SideChoice,
)
    ensures
        after_all(state, side_script(item, parent, choice)) == with_product(
            state,
            item,
            parent,
            choice,
        ),
{
    let id = id_of(item, parent);
    let tables = tables_of(item, id);
    let head = seq![Ask::ProductStored(side_of(item), id)];
    let tail = seq![Ask::StoredProduct(side_of(item), id)];
    lemma_one(state, head[0]);
    if choice.known {
        assert(side_script(item, parent, choice) =~= head + tail);
        lemma_after_join(state, head, tail);
        lemma_one(state, tail[0]);
    } else {
        let insert = seq![Ask::InsertProduct(parent, id, choice.row)];
        assert(write_asks(item, parent, choice.row) =~= insert + copies(tables));
        assert(side_script(item, parent, choice) =~= head + (insert + copies(tables)) + tail);
        lemma_after_join(state, head, insert + copies(tables));
        lemma_after_join(state, insert, copies(tables));
        lemma_one(state, insert[0]);
        let inserted = changed(state, insert[0]);
        lemma_copies(inserted, tables);
        let written = after_all(inserted, copies(tables));
        lemma_after_join(state, head + (insert + copies(tables)), tail);
        lemma_one(written, tail[0]);
    }
}

/// A publication of a product that fails leaves the ledger as it was.
pub proof fn lemma_failed_product_changes_nothing<
    X,
    B: FnOnce() -> Result<X>,
    F: Fn(X, &LedgerRequest) -> (X, Result<LedgerReply>),
    K: Fn(X) -> Result<()>,
    R: Fn(X),
>(
    begin: B,
    ledger: Ledger<F, K, R>,
    item: SideItem,
    parent: Seq<char>,
    query_version: Seq<char>,
    run: SideRun<X>,
    error: Error,
    view: spec_fn(X) -> LedgerState,
    before: LedgerState,
)
    requires
        publishes_alone(begin, ledger, item, parent, query_version, run, Err(error)),
    ensures
        state_after(view, before, run.end) == before,
{
}

/// The row of a product tells which product it is.
proof fn lemma_row_side(item: SideItem, parent: Seq<char>, row: SideRow)
    requires
        row_is(item, parent, row),
    ensures
        side_of_row(row) == side_of(item),
{
}

/// A publication that succeeds asks whether the product is stored, and leaves
/// the ledger with the product.
proof fn lemma_side_run<
    X,
    B: FnOnce() -> Result<X>,
    F: Fn(X, &LedgerRequest) -> (X, Result<LedgerReply>),
    K: Fn(X) -> Result<()>,
    R: Fn(X),
>(
    begin: B,
    ledger: Ledger<F, K, R>,
    item: SideItem,
    parent: Seq<char>,
    query_version: Seq<char>,
    run: SideRun<X>,
    outcome: ProductOutcome,
    view: spec_fn(X) -> LedgerState,
    before: LedgerState,
)
    requires
        publishes_alone(begin, ledger, item, parent, query_version, run, Ok(outcome)),
        keeps_state(*ledger.ask, view),
        run.begun matches Ok(first) && view(first) == before,
    ensures
        state_after(view, before, run.end) == with_product(before, item, parent, run.choice),
        run.choice.known == before.products.contains_key((side_of(item), id_of(item, parent))),
        names_product(outcome, run.choice.known, id_of(item, parent)),
        !run.choice.known ==> row_is(item, parent, run.choice.row),
{
    let first = run.begun->Ok_0;
    let last = last_of(run.end)->0;
    let trace = run.trace;
    let script = side_script(item, parent, run.choice);
    let head = seq![baseline_ask(item, parent)];
    lemma_trace_changes(*ledger.ask, view, first, trace, last);
    assert(alone_script(item, parent, run.choice) =~= head + script);
    lemma_after_join(before, head, script);
    lemma_one(before, head[0]);
    lemma_side_script(before, item, parent, run.choice);
    let ask = Ask::ProductStored(side_of(item), id_of(item, parent));
    assert(script[0] == ask);
    assert(script.len() >= 1);
    assert(trace.len() == script.len() + 1) by {
        assert(asks(trace).len() == trace.len());
    }
    assert(trace.skip(1)[0] == trace[1]);
    assert(asks(trace)[1] == ask);
    assert(asked(trace[1].request) == ask);
    assert(asks(trace).take(1) =~= head);
    assert(tells(before, ask, trace[1].reply->Ok_0));
}

/// A publication of a product that succeeds leaves the product in the ledger.
///
/// It reports a new product exactly where the ledger did not hold it, and then
/// adds its row and its lines. Otherwise it changes nothing. The current run
/// and the runs stay as they were.
pub proof fn lemma_published_product_is_stored<
    X,
    B: FnOnce() -> Result<X>,
    F: Fn(X, &LedgerRequest) -> (X, Result<LedgerReply>),
    K: Fn(X) -> Result<()>,
    R: Fn(X),
>(
    begin: B,
    ledger: Ledger<F, K, R>,
    item: SideItem,
    parent: Seq<char>,
    query_version: Seq<char>,
    run: SideRun<X>,
    outcome: ProductOutcome,
    view: spec_fn(X) -> LedgerState,
    before: LedgerState,
)
    requires
        publishes_alone(begin, ledger, item, parent, query_version, run, Ok(outcome)),
        keeps_state(*ledger.ask, view),
        run.begun matches Ok(first) && view(first) == before,
    ensures
        ({
            let id = id_of(item, parent);
            let after = state_after(view, before, run.end);
            &&& after.current == before.current
            &&& after.runs == before.runs
            &&& after.rows == before.rows
            &&& after.active == before.active
            &&& after.products.contains_key((side_of(item), id))
            &&& outcome is Published <==> !before.products.contains_key((side_of(item), id))
            &&& outcome is AlreadyPublished ==> after == before
            &&& outcome matches ProductOutcome::Published { product_id } ==> {
                &&& product_id@ == id
                &&& row_is(item, parent, run.choice.row)
                &&& after.products == before.products.insert((side_of(item), id), run.choice.row)
                &&& after.product_rows == appended(before.product_rows, tables_of(item, id))
            }
        }),
{
    lemma_side_run(begin, ledger, item, parent, query_version, run, outcome, view, before);
    if !run.choice.known {
        lemma_row_side(item, parent, run.choice.row);
    }
}

/// The same publication made again, of what the first one left, finds the
/// product and adds nothing.
pub proof fn lemma_repeated_product_adds_nothing<
    X,
    B: FnOnce() -> Result<X>,
    F: Fn(X, &LedgerRequest) -> (X, Result<LedgerReply>),
    K: Fn(X) -> Result<()>,
    R: Fn(X),
>(
    begin: B,
    again: B,
    ledger: Ledger<F, K, R>,
    item: SideItem,
    parent: Seq<char>,
    query_version: Seq<char>,
    first: SideRun<X>,
    second: SideRun<X>,
    outcome: ProductOutcome,
    repeated: ProductOutcome,
    view: spec_fn(X) -> LedgerState,
    before: LedgerState,
)
    requires
        publishes_alone(begin, ledger, item, parent, query_version, first, Ok(outcome)),
        publishes_alone(again, ledger, item, parent, query_version, second, Ok(repeated)),
        keeps_state(*ledger.ask, view),
        first.begun matches Ok(x) && view(x) == before,
        second.begun matches Ok(y) && view(y) == state_after(view, before, first.end),
    ensures
        repeated matches ProductOutcome::AlreadyPublished { product_id } && product_id@ == id_of(
            item,
            parent,
        ),
        state_after(view, state_after(view, before, first.end), second.end) == state_after(
            view,
            before,
            first.end,
        ),
{
    lemma_published_product_is_stored(
        begin,
        ledger,
        item,
        parent,
        query_version,
        first,
        outcome,
        view,
        before,
    );
    lemma_published_product_is_stored(
        again,
        ledger,
        item,
        parent,
        query_version,
        second,
        repeated,
        view,
        state_after(view, before, first.end),
    );
}

/// Applying objects changes which objects are active, and nothing else.
proof fn lemma_only_objects(state: LedgerState, asks: Seq<Ask>)
    requires
        forall|i: int|
            0 <= i < asks.len() ==> (#[trigger] asks[i] is RetireObjects || asks[i] is ApplyObject),
    ensures
        after_all(state, asks) == (LedgerState {
            active: after_all(state, asks).active,
            ..state
        }),
    decreases asks.len(),
{
    if asks.len() > 0 {
        let less = asks.drop_last();
        assert forall|i: int| 0 <= i < less.len() implies (#[trigger] less[i] is RetireObjects
            || less[i] is ApplyObject) by {
            assert(less[i] == asks[i]);
        }
        lemma_only_objects(state, less);
        assert(asks[asks.len() - 1] == asks.last());
    }
}

/// Copies of tables of a run change the lines of the runs, and nothing else.
proof fn lemma_only_rows(state: LedgerState, other: LedgerState, asks: Seq<Ask>)
    requires
        forall|i: int| 0 <= i < asks.len() ==> #[trigger] asks[i] is CopyRows,
        state.rows == other.rows,
    ensures
        after_all(state, asks) == (LedgerState { rows: after_all(other, asks).rows, ..state }),
    decreases asks.len(),
{
    if asks.len() > 0 {
        let less = asks.drop_last();
        assert forall|i: int| 0 <= i < less.len() implies #[trigger] less[i] is CopyRows by {
            assert(less[i] == asks[i]);
        }
        lemma_only_rows(state, other, less);
        assert(asks[asks.len() - 1] == asks.last());
    }
}

/// The key of a product.
pub open spec fn key_of(side: (SideItem, Seq<char>)) -> (SideProduct, Seq<char>) {
    (side_of(side.0), id_of(side.0, side.1))
}

/// The row that is inserted for a product that is not stored.
#[verifier::opaque]
spec fn rows_fit(side: (SideItem, Seq<char>), choice: SideChoice) -> bool {
    !choice.known ==> row_is(side.0, side.1, choice.row)
}

/// What publishing one product asks, in order.
#[verifier::opaque]
spec fn one_side(side: (SideItem, Seq<char>), choice: SideChoice) -> Seq<Ask> {
    side_script(side.0, side.1, choice)
}

/// The ledger told the truth about the first `n` products.
spec fn told(
    state: LedgerState,
    sides: Seq<(SideItem, Seq<char>)>,
    choices: Seq<SideChoice>,
    n: int,
) -> bool {
    forall|k: int|
        0 <= k < n ==> {
            &&& (#[trigger] choices[k]).known == after_all(
                state,
                sides_script(sides, choices, k),
            ).products.contains_key(key_of(sides[k]))
            &&& rows_fit(sides[k], choices[k])
        }
}

/// Publishing a product leaves it in the ledger, and changes nothing but
/// products.
proof fn lemma_side_effect(state: LedgerState, side: (SideItem, Seq<char>), choice: SideChoice)
    requires
        choice.known == state.products.contains_key(key_of(side)),
        rows_fit(side, choice),
    ensures
        ({
            let after = after_all(state, one_side(side, choice));
            &&& after == (LedgerState {
                products: after.products,
                product_rows: after.product_rows,
                ..state
            })
            &&& after.products.contains_key(key_of(side))
            &&& forall|key: (SideProduct, Seq<char>)| #[trigger]
                state.products.contains_key(key) ==> after.products.contains_key(key)
        }),
{
    reveal(rows_fit);
    reveal(one_side);
    lemma_side_script(state, side.0, side.1, choice);
    if !choice.known {
        lemma_row_side(side.0, side.1, choice.row);
    }
}

/// The script of one more product.
proof fn lemma_one_more(
    sides: Seq<(SideItem, Seq<char>)>,
    choices: Seq<SideChoice>,
    n: int,
)
    requires
        n > 0,
    ensures
        sides_script(sides, choices, n) == sides_script(sides, choices, n - 1) + one_side(
            sides[n - 1],
            choices[n - 1],
        ),
{
    reveal(one_side);
}

/// Publishing products leaves them in the ledger, and changes nothing but
/// products.
#[verifier::rlimit(30)]
#[verifier::spinoff_prover]
proof fn lemma_sides(
    state: LedgerState,
    sides: Seq<(SideItem, Seq<char>)>,
    choices: Seq<SideChoice>,
    n: int,
)
    requires
        told(state, sides, choices, n),
    ensures
        ({
            let after = after_all(state, sides_script(sides, choices, n));
            &&& after == (LedgerState {
                products: after.products,
                product_rows: after.product_rows,
                ..state
            })
            &&& forall|k: int|
                0 <= k < n ==> after.products.contains_key(#[trigger] key_of(sides[k]))
        }),
    decreases n,
{
    if n > 0 {
        lemma_sides(state, sides, choices, n - 1);
        let before = after_all(state, sides_script(sides, choices, n - 1));
        assert(choices[n - 1].known == before.products.contains_key(key_of(sides[n - 1])));
        lemma_one_more(sides, choices, n);
        lemma_after_join(
            state,
            sides_script(sides, choices, n - 1),
            one_side(sides[n - 1], choices[n - 1]),
        );
        lemma_side_effect(before, sides[n - 1], choices[n - 1]);
    }
}

/// A part stands behind the parts before it.
proof fn lemma_joined_at<X>(parts: Seq<Seq<Exchange<X>>>, k: int, n: int)
    requires
        0 <= k < n <= parts.len(),
        parts[k].len() > 0,
    ensures
        joined(parts, k).len() < joined(parts, n).len(),
        joined(parts, n)[joined(parts, k).len() as int] == parts[k][0],
        joined(parts, n).take(joined(parts, k).len() as int) == joined(parts, k),
    decreases n - k,
{
    if k == n - 1 {
        assert(joined(parts, n).take(joined(parts, k).len() as int) =~= joined(parts, k));
    } else {
        lemma_joined_at(parts, k, n - 1);
        assert(joined(parts, n).take(joined(parts, k).len() as int) =~= joined(
            parts,
            n - 1,
        ).take(joined(parts, k).len() as int));
    }
}

/// The parts of published products ask what their products ask.
proof fn lemma_joined_asks<X>(
    sides: Seq<(SideItem, Seq<char>)>,
    choices: Seq<SideChoice>,
    parts: Seq<Seq<Exchange<X>>>,
    n: int,
)
    requires
        sides_published(sides, choices, parts, n),
    ensures
        asks(joined(parts, n)) == sides_script(sides, choices, n),
    decreases n,
{
    if n > 0 {
        lemma_joined_asks(sides, choices, parts, n - 1);
        assert(part_publishes(sides[n - 1], choices[n - 1], parts[n - 1]));
        assert(asks(joined(parts, n)) =~= asks(joined(parts, n - 1)) + asks(parts[n - 1]));
    } else {
        assert(asks(joined(parts, n)) =~= Seq::empty());
    }
}

/// A publication of a run that fails leaves the ledger as it was.
pub proof fn lemma_failed_run_changes_nothing<
    X,
    B: FnOnce() -> Result<X>,
    F: Fn(X, &LedgerRequest) -> (X, Result<LedgerReply>),
    K: Fn(X) -> Result<()>,
    R: Fn(X),
>(
    begin: B,
    ledger: Ledger<F, K, R>,
    request: RunRequest,
    products: PublicationProducts,
    sides: Seq<(SideItem, Seq<char>)>,
    made: RunTrace<X>,
    error: Error,
    view: spec_fn(X) -> LedgerState,
    before: LedgerState,
)
    requires
        publishes_run(begin, ledger, request, products, sides, made, Err(error)),
    ensures
        state_after(view, before, made.end) == before,
{
}

/// The state behind the staged run.
spec fn staged_state(
    before: LedgerState,
    request: RunRequest,
    products: PublicationProducts,
    step: PublicationStep,
    run: NewRun,
) -> LedgerState {
    after_all(before, stage_asks(request, products, step, run))
}

/// Staging a run stores it with its lines where it is new, and changes nothing
/// else but the active objects.
proof fn lemma_staged(
    before: LedgerState,
    request: RunRequest,
    products: PublicationProducts,
    step: PublicationStep,
    run: NewRun,
)
    ensures
        ({
            let id = identity_of(request, products);
            let after = staged_state(before, request, products, step, run);
            after == if step is Insert {
                LedgerState {
                    runs: before.runs.insert(run.run_id@, run),
                    active: after.active,
                    rows: after_all(before, table_asks(id, *request.rows, products)).rows,
                    ..before
                }
            } else {
                LedgerState { active: after.active, ..before }
            }
        }),
{
    let id = identity_of(request, products);
    let objects = object_asks(id, request.objects@);
    if step is Insert {
        let head = seq![Ask::InsertRun(run)];
        let tables = table_asks(id, *request.rows, products);
        lemma_after_join(before, head, objects);
        lemma_one(before, head[0]);
        let inserted = changed(before, head[0]);
        lemma_only_objects(inserted, objects);
        let applied = after_all(inserted, objects);
        lemma_after_join(before, head + objects, tables);
        lemma_only_rows(applied, before, tables);
    } else {
        lemma_only_objects(before, objects);
    }
}

/// Every answer tells the state that the ledger had.
spec fn answers_truly<X>(before: LedgerState, trace: Seq<Exchange<X>>) -> bool {
    forall|i: int|
        0 <= i < trace.len() ==> tells(
            after_all(before, asks(trace).take(i)),
            asked((#[trigger] trace[i]).request),
            trace[i].reply->Ok_0,
        )
}

/// The two questions, the stage and the read leave the staged state.
proof fn lemma_run_base(
    before: LedgerState,
    request: RunRequest,
    products: PublicationProducts,
    step: PublicationStep,
    run: NewRun,
)
    ensures
        ({
            let id = identity_of(request, products);
            after_all(
                before,
                seq![Ask::LockCurrent, Ask::RunStored(id)] + stage_asks(
                    request,
                    products,
                    step,
                    run,
                ) + seq![Ask::RunTables(id)],
            ) == staged_state(before, request, products, step, run)
        }),
{
    let id = identity_of(request, products);
    let two = seq![Ask::LockCurrent, Ask::RunStored(id)];
    let stage = stage_asks(request, products, step, run);
    assert(two =~= seq![Ask::LockCurrent] + seq![Ask::RunStored(id)]);
    lemma_after_join(before, seq![Ask::LockCurrent], seq![Ask::RunStored(id)]);
    lemma_one(before, Ask::LockCurrent);
    lemma_one(before, Ask::RunStored(id));
    lemma_after_join(before, two, stage);
    lemma_after_join(before, two + stage, seq![Ask::RunTables(id)]);
    lemma_one(after_all(before, two + stage), Ask::RunTables(id));
}

/// The script of a run leaves the staged state with its products, and the run
/// current where it is new.
#[verifier::rlimit(60)]
#[verifier::spinoff_prover]
proof fn lemma_run_script<X>(
    before: LedgerState,
    request: RunRequest,
    products: PublicationProducts,
    sides: Seq<(SideItem, Seq<char>)>,
    made: RunTrace<X>,
)
    requires
        changes(made.script) == stage_asks(request, products, made.step, made.run),
        told(
            staged_state(before, request, products, made.step, made.run),
            sides,
            made.choices,
            sides.len() as int,
        ),
    ensures
        ({
            let id = identity_of(request, products);
            let after = after_all(before, run_script(id, sides, made));
            &&& after.current == if made.step is Insert {
                Some(id)
            } else {
                before.current
            }
            &&& after.runs == if made.step is Insert {
                before.runs.insert(made.run.run_id@, made.run)
            } else {
                before.runs
            }
            &&& after.rows == if made.step is Insert {
                after_all(before, table_asks(id, *request.rows, products)).rows
            } else {
                before.rows
            }
            &&& forall|k: int|
                0 <= k < sides.len() ==> after.products.contains_key(#[trigger] key_of(sides[k]))
        }),
{
    let id = identity_of(request, products);
    let n = sides.len() as int;
    let staged = staged_state(before, request, products, made.step, made.run);
    let base = seq![Ask::LockCurrent, Ask::RunStored(id)] + changes(made.script) + seq![
        Ask::RunTables(id),
    ];
    let beside = sides_script(sides, made.choices, n);
    let point = point_asks(id, made.step);
    lemma_run_base(before, request, products, made.step, made.run);
    lemma_staged(before, request, products, made.step, made.run);
    lemma_after_join(before, base, beside);
    lemma_after_join(before, base + beside, point);
    lemma_sides(staged, sides, made.choices, n);
    let sided = after_all(staged, beside);
    if made.step is Insert {
        lemma_one(sided, Ask::PointTo(id));
    }
}

/// The place of a part among the exchanges of a run.
proof fn lemma_part_place<X>(
    base: Seq<Ask>,
    point: Seq<Ask>,
    parts: Seq<Seq<Exchange<X>>>,
    trace: Seq<Exchange<X>>,
    k: int,
    n: int,
)
    requires
        0 <= k < n <= parts.len(),
        parts[k].len() > 0,
        asks(trace) == base + asks(joined(parts, n)) + point,
        trace.subrange(base.len() as int, base.len() + joined(parts, n).len() as int) == joined(
            parts,
            n,
        ),
    ensures
        ({
            let at = base.len() + joined(parts, k).len() as int;
            &&& at < trace.len()
            &&& trace[at] == parts[k][0]
            &&& asks(trace).take(at) == base + asks(joined(parts, k))
        }),
{
    let all = joined(parts, n);
    let place = joined(parts, k).len() as int;
    let at = base.len() + place;
    lemma_joined_at(parts, k, n);
    assert(asks(all).len() == all.len());
    assert(asks(trace).len() == trace.len());
    assert(trace.subrange(base.len() as int, base.len() + all.len() as int)[place] == all[place]);
    assert(asks(all).take(place) =~= asks(all.take(place)));
    assert(asks(trace).take(at) =~= base + asks(all).take(place));
}

/// The ledger told the truth about the products beside the run.
proof fn lemma_told<X>(
    before: LedgerState,
    base: Seq<Ask>,
    point: Seq<Ask>,
    sides: Seq<(SideItem, Seq<char>)>,
    choices: Seq<SideChoice>,
    parts: Seq<Seq<Exchange<X>>>,
    trace: Seq<Exchange<X>>,
)
    requires
        asks(trace) == base + sides_script(sides, choices, sides.len() as int) + point,
        parts.len() == sides.len(),
        sides_published(sides, choices, parts, sides.len() as int),
        ({
            let all = joined(parts, sides.len() as int);
            trace.subrange(base.len() as int, base.len() + all.len() as int) == all
        }),
        answers_truly(before, trace),
    ensures
        told(after_all(before, base), sides, choices, sides.len() as int),
{
    let n = sides.len() as int;
    lemma_joined_asks(sides, choices, parts, n);
    assert forall|k: int| 0 <= k < n implies {
        &&& (#[trigger] choices[k]).known == after_all(
            after_all(before, base),
            sides_script(sides, choices, k),
        ).products.contains_key(key_of(sides[k]))
        &&& rows_fit(sides[k], choices[k])
    } by {
        reveal(rows_fit);
        assert(part_publishes(sides[k], choices[k], parts[k]));
        lemma_part_first(sides[k], choices[k], parts[k]);
        lemma_part_place(base, point, parts, trace, k, n);
        lemma_joined_asks(sides, choices, parts, k);
        lemma_after_join(before, base, sides_script(sides, choices, k));
        let at = base.len() + joined(parts, k).len() as int;
        assert(tells(
            after_all(before, asks(trace).take(at)),
            asked(trace[at].request),
            trace[at].reply->Ok_0,
        ));
    }
}

/// A part begins with the question whether its product is stored.
proof fn lemma_part_first<X>(
    side: (SideItem, Seq<char>),
    choice: SideChoice,
    part: Seq<Exchange<X>>,
)
    requires
        part_publishes(side, choice, part),
    ensures
        part.len() > 0,
        asked(part[0].request) == Ask::ProductStored(key_of(side).0, key_of(side).1),
        part[0].reply == Ok::<LedgerReply, Error>(LedgerReply::Known(choice.known)),
        !choice.known ==> row_is(side.0, side.1, choice.row),
{
    assert(asks(part) == side_script(side.0, side.1, choice));
    assert(asks(part).len() == part.len());
    assert(asks(part)[0] == asked(part[0].request));
}

/// The ledger's first two answers are the state before the publication, and so
/// is the verdict.
proof fn lemma_run_answers<X>(
    before: LedgerState,
    request: RunRequest,
    products: PublicationProducts,
    sides: Seq<(SideItem, Seq<char>)>,
    made: RunTrace<X>,
)
    requires
        asks(made.trace) == run_script(identity_of(request, products), sides, made),
        decided(identity_of(request, products), request, made),
        answers_truly(before, made.trace),
    ensures
        optional_text(made.current) == before.current,
        made.known == before.runs.contains_key(identity_of(request, products)),
        ({
            let answer = verdict(
                identity_of(request, products),
                before.runs.dom(),
                before.current,
                expected_text(request.expected_previous),
            );
            match made.step {
                PublicationStep::Insert => answer is Insert,
                PublicationStep::Reconcile => answer is Reconcile,
            }
        }),
{
    let id = identity_of(request, products);
    let trace = made.trace;
    assert(asks(trace).take(0) =~= Seq::empty());
    assert(asks(trace)[0] == Ask::LockCurrent);
    assert(tells(before, asked(trace[0].request), trace[0].reply->Ok_0));
    assert(asks(trace).take(1) =~= seq![Ask::LockCurrent]);
    lemma_one(before, Ask::LockCurrent);
    assert(asks(trace)[1] == Ask::RunStored(id));
    assert(tells(before, asked(trace[1].request), trace[1].reply->Ok_0));
    assert(before.runs.dom().contains(id) == made.known);
}

/// A publication of a run that succeeds leaves the run current and all of its
/// products stored.
///
/// It reports a new run exactly where the ledger did not hold it, and then adds
/// the run with its lines. Otherwise the run was current, and runs and lines
/// stay as they were. The runs that are stored, and the current run, are those
/// behind the verdict.
#[verifier::rlimit(60)]
#[verifier::spinoff_prover]
pub proof fn lemma_published_run_is_stored<
    X,
    B: FnOnce() -> Result<X>,
    F: Fn(X, &LedgerRequest) -> (X, Result<LedgerReply>),
    K: Fn(X) -> Result<()>,
    R: Fn(X),
>(
    begin: B,
    ledger: Ledger<F, K, R>,
    request: RunRequest,
    products: PublicationProducts,
    sides: Seq<(SideItem, Seq<char>)>,
    made: RunTrace<X>,
    outcome: PublishOutcome,
    view: spec_fn(X) -> LedgerState,
    before: LedgerState,
)
    requires
        publishes_run(begin, ledger, request, products, sides, made, Ok(outcome)),
        keeps_state(*ledger.ask, view),
        made.begun matches Ok(first) && view(first) == before,
    ensures
        ({
            let id = identity_of(request, products);
            let after = state_after(view, before, made.end);
            let answer = verdict(
                id,
                before.runs.dom(),
                before.current,
                expected_text(request.expected_previous),
            );
            &&& after.current == Some(id)
            &&& after.current == current_after(answer, id, before.current)
            &&& after.runs.dom() == published_after(answer, id, before.runs.dom())
            &&& forall|k: int|
                0 <= k < sides.len() ==> after.products.contains_key(#[trigger] key_of(sides[k]))
            &&& match outcome {
                PublishOutcome::Published { run_id, previous_run_id } => {
                    &&& answer is Insert
                    &&& run_id@ == id
                    &&& optional_text(previous_run_id) == before.current
                    &&& is_new_run(made.run, request, products, previous_run_id)
                    &&& after.runs == before.runs.insert(id, made.run)
                    &&& after.rows == after_all(
                        before,
                        table_asks(id, *request.rows, products),
                    ).rows
                },
                PublishOutcome::AlreadyCurrent { run_id } => {
                    &&& answer is Reconcile
                    &&& run_id@ == id
                    &&& before.current == Some(id)
                    &&& after.runs == before.runs
                    &&& after.rows == before.rows
                },
            }
        }),
{
    let id = identity_of(request, products);
    let first = made.begun->Ok_0;
    let last = last_of(made.end)->0;
    lemma_trace_changes(*ledger.ask, view, first, made.trace, last);
    assert(answers_truly(before, made.trace));
    lemma_run_base(before, request, products, made.step, made.run);
    lemma_told(
        before,
        seq![Ask::LockCurrent, Ask::RunStored(id)] + changes(made.script) + seq![
            Ask::RunTables(id),
        ],
        point_asks(id, made.step),
        sides,
        made.choices,
        made.parts,
        made.trace,
    );
    lemma_run_script(before, request, products, sides, made);
    lemma_run_answers(before, request, products, sides, made);
    assert(before.runs.insert(id, made.run).dom() =~= before.runs.dom().insert(id));
}

/// The first two answers of the ledger, where they came.
spec fn first_answers<X>(made: RunTrace<X>) -> bool {
    forall|i: int|
        0 <= i < made.trace.len() && i < 2 ==> ((#[trigger] made.trace[i]).reply matches Ok(reply)
            && answers(asked(made.trace[i].request), reply))
}

/// Where the verdict refuses the run, the publication asks two questions and
/// fails by its own decision.
proof fn lemma_refused_early<
    X,
    B: FnOnce() -> Result<X>,
    F: Fn(X, &LedgerRequest) -> (X, Result<LedgerReply>),
    K: Fn(X) -> Result<()>,
    R: Fn(X),
>(
    begin: B,
    ledger: Ledger<F, K, R>,
    request: RunRequest,
    products: PublicationProducts,
    sides: Seq<(SideItem, Seq<char>)>,
    made: RunTrace<X>,
    outcome: Result<PublishOutcome>,
    current: Option<Seq<char>>,
    stored: bool,
)
    requires
        publishes_run(begin, ledger, request, products, sides, made, outcome),
        made.begun is Ok,
        first_answers(made),
        made.trace.len() > 0 ==> (made.trace[0].reply matches Ok(LedgerReply::Current(found))
            ==> optional_text(found) == current),
        made.trace.len() > 1 ==> (made.trace[1].reply matches Ok(LedgerReply::Known(known))
            ==> known == stored),
        forall|published: Set<Seq<char>>| #[trigger]
            published.contains(identity_of(request, products)) == stored ==> !(verdict(
                identity_of(request, products),
                published,
                current,
                expected_text(request.expected_previous),
            ) is Insert) && !(verdict(
                identity_of(request, products),
                published,
                current,
                expected_text(request.expected_previous),
            ) is Reconcile),
    ensures
        outcome is Err,
        made.trace.len() == 2,
        optional_text(made.current) == current,
        made.known == stored,
        decides(
            identity_of(request, products),
            made.known,
            made.current,
            request.expected_previous,
            Err(outcome->Err_0),
        ),
{
    let id = identity_of(request, products);
    let script = run_script(id, sides, made);
    let some = if stored {
        set![id]
    } else {
        Set::empty()
    };
    assert(some.contains(id) == stored);
    assert(script[0] == Ask::LockCurrent);
    assert(script[1] == Ask::RunStored(id));
    assert(!decided(id, request, made));
    let n = made.trace.len() as int;
    assert(asks(made.trace).len() == n);
    if n > 0 {
        assert(asks(made.trace)[n - 1] == asked(made.trace[n - 1].request));
        assert(asks(made.trace)[n - 1] == script[n - 1]);
        assert(made.trace.last() == made.trace[n - 1]);
    }
}

/// A run that the ledger does not hold, and that was built from another run
/// than the current one, is refused as such; so is a run that the ledger holds
/// and that is not current.
pub proof fn lemma_changed_baseline_is_refused<
    X,
    B: FnOnce() -> Result<X>,
    F: Fn(X, &LedgerRequest) -> (X, Result<LedgerReply>),
    K: Fn(X) -> Result<()>,
    R: Fn(X),
>(
    begin: B,
    ledger: Ledger<F, K, R>,
    request: RunRequest,
    products: PublicationProducts,
    sides: Seq<(SideItem, Seq<char>)>,
    made: RunTrace<X>,
    outcome: Result<PublishOutcome>,
    view: spec_fn(X) -> LedgerState,
    before: LedgerState,
)
    requires
        publishes_run(begin, ledger, request, products, sides, made, outcome),
        keeps_state(*ledger.ask, view),
        made.begun matches Ok(first) && view(first) == before,
        forall|i: int|
            0 <= i < made.trace.len() && i < 2 ==> ((
            #[trigger] made.trace[i]).reply matches Ok(reply) && answers(
                asked(made.trace[i].request),
                reply,
            )),
    ensures
        !before.runs.contains_key(identity_of(request, products)) && expected_text(
            request.expected_previous,
        ) is Some && before.current != expected_text(request.expected_previous) ==> (outcome matches
            Err(Error::PublicationBaselineChanged { expected, actual }) && optional_text(expected)
            == expected_text(request.expected_previous) && optional_text(actual)
            == before.current),
        before.runs.contains_key(identity_of(request, products)) && before.current != Some(
            identity_of(request, products),
        ) ==> (outcome matches Err(Error::StalePublishedRun(run_id)) && run_id@ == identity_of(
            request,
            products,
        )),
{
    let id = identity_of(request, products);
    let expected = expected_text(request.expected_previous);
    let stored = before.runs.contains_key(id);
    let refused = (!stored && expected is Some && before.current != expected) || (stored
        && before.current != Some(id));
    if refused {
        lemma_told_first(*ledger.ask, view, before, made, last_of(made.end)->0, id, run_script(
            id,
            sides,
            made,
        ));
        lemma_refused_early(
            begin,
            ledger,
            request,
            products,
            sides,
            made,
            outcome,
            before.current,
            stored,
        );
        assert(before.runs.dom().contains(id) == made.known);
    }
}

/// The first two answers are true of the ledger.
proof fn lemma_told_first<X, F: Fn(X, &LedgerRequest) -> (X, Result<LedgerReply>)>(
    ask: F,
    view: spec_fn(X) -> LedgerState,
    before: LedgerState,
    made: RunTrace<X>,
    last: X,
    id: Seq<char>,
    script: Seq<Ask>,
)
    requires
        keeps_state(ask, view),
        made.begun matches Ok(first) && view(first) == before && leads(
            ask,
            first,
            made.trace,
            last,
        ),
        first_answers(made),
        begins(asks(made.trace), script),
        script.len() >= 2,
        script[0] == Ask::LockCurrent,
        script[1] == Ask::RunStored(id),
    ensures
        made.trace.len() > 0 ==> (made.trace[0].reply matches Ok(LedgerReply::Current(found))
            ==> optional_text(found) == before.current),
        made.trace.len() > 1 ==> (made.trace[1].reply matches Ok(LedgerReply::Known(known))
            ==> known == before.runs.contains_key(id)),
{
    let trace = made.trace;
    let first = made.begun->Ok_0;
    assert(asks(trace).len() == trace.len());
    if trace.len() > 0 {
        let one = trace.take(1);
        let rest = trace.skip(1);
        assert(trace =~= one + rest);
        let x1 = lemma_leads_split(ask, first, one, rest, last);
        lemma_leads_one(ask, first, one, x1);
        assert(one[0] == trace[0]);
        assert(asks(trace)[0] == script[0]);
        assert(asked(trace[0].request) == Ask::LockCurrent);
        assert(call_ensures(
            ask,
            (first, &trace[0].request),
            (x1, Ok::<LedgerReply, Error>(trace[0].reply->Ok_0)),
        ));
        assert(view(x1) == before);
        if trace.len() > 1 {
            let two = rest.take(1);
            assert(rest =~= two + rest.skip(1));
            let x2 = lemma_leads_split(ask, x1, two, rest.skip(1), last);
            lemma_leads_one(ask, x1, two, x2);
            assert(two[0] == trace[1]);
            assert(asks(trace)[1] == script[1]);
            assert(asked(trace[1].request) == Ask::RunStored(id));
            assert(call_ensures(
                ask,
                (x1, &trace[1].request),
                (x2, Ok::<LedgerReply, Error>(trace[1].reply->Ok_0)),
            ));
        }
    }
}

/// A run that was published, and is published again before another, is current
/// already, and adds no run and no line.
pub proof fn lemma_repeated_run_adds_nothing<
    X,
    B: FnOnce() -> Result<X>,
    F: Fn(X, &LedgerRequest) -> (X, Result<LedgerReply>),
    K: Fn(X) -> Result<()>,
    R: Fn(X),
>(
    begin: B,
    again: B,
    ledger: Ledger<F, K, R>,
    request: RunRequest,
    products: PublicationProducts,
    sides: Seq<(SideItem, Seq<char>)>,
    first: RunTrace<X>,
    second: RunTrace<X>,
    outcome: PublishOutcome,
    repeated: PublishOutcome,
    view: spec_fn(X) -> LedgerState,
    before: LedgerState,
)
    requires
        publishes_run(begin, ledger, request, products, sides, first, Ok(outcome)),
        publishes_run(again, ledger, request, products, sides, second, Ok(repeated)),
        keeps_state(*ledger.ask, view),
        first.begun matches Ok(x) && view(x) == before,
        second.begun matches Ok(y) && view(y) == state_after(view, before, first.end),
    ensures
        repeated is AlreadyCurrent,
        ({
            let stored = state_after(view, before, first.end);
            let after = state_after(view, stored, second.end);
            after.current == stored.current && after.runs == stored.runs && after.rows
                == stored.rows
        }),
{
    lemma_published_run_is_stored(
        begin,
        ledger,
        request,
        products,
        sides,
        first,
        outcome,
        view,
        before,
    );
    let stored = state_after(view, before, first.end);
    let id = identity_of(request, products);
    assert(stored.runs.dom().contains(id));
    lemma_published_run_is_stored(
        again,
        ledger,
        request,
        products,
        sides,
        second,
        repeated,
        view,
        stored,
    );
}

} // verus!
