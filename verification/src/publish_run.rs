//! The publication of one run, from its products to the commit.
//!
//! A publication validates its products. Then, inside of one transaction, it
//! holds the run against the ledger, stages it, reconciles what is stored,
//! publishes the products beside it and makes it current. The transaction is
//! kept where all of this succeeds, and dropped otherwise.

use vstd::prelude::*;
use vstd::string::*;

use crate::artifact::CatalogObject;
use crate::digest::sha256_text;
use crate::error::{Error, Result};
use crate::fixed_activity::weeks_defined;
use crate::flexible_publish::ValidatedFlexibleDistinctPublication;
use crate::flexible_windows::read_flexible_distinct_leaves;
use crate::leaf_stream::{holds_leaves, leaf_views, FlexibleLeaf};
use crate::ledger::{
    answered, answers, ask_one, asked, asks, begins, changes, drop_changes, ends, is_owed,
    ledger_callable, lemma_begins, lemma_join, make_changes, makes, refuses, Ask, Change, Ended,
    Exchange, Ledger, LedgerReply, LedgerRequest, NewRun, Owed, PublishedTables, RunInput,
};
use crate::products::{
    products_fit, products_refusal, reports, validate_products, Generation, ProductReads,
    PublicationProducts,
};
use crate::publication::columns_error;
use crate::publish::{
    activity_accounts, activity_outcome, cohort_accounts, cohort_outcome, decide_publication,
    decides, eligible_pubkeys, finish_publication, identity_accounts, identity_outcome,
    is_object_row, is_overview_row, is_run_row, is_sum_error, object_error, object_fits,
    object_row, overview_counts, overview_fits, overview_row, product_sizes, query_version,
    reconcile_published_activity, reconcile_published_cohort, reconcile_published_identity,
    records_counts, records_digests, run_counts, run_fits, run_id, run_message, run_row, sizes_of,
    sums_overflow, validation_record, version_of, BuildSummary, ObjectRow, OverviewCounts,
    OverviewRow, ProductSizes, PublicationStep, PublishOutcome, QueryVersions, RunRow,
};
use crate::publish_semantic::{list_days, lists_days, SemanticDays};
use crate::publish_side::{
    done, id_of, item_holds, last_of, publish_item, publishes_item, side_fails, side_script,
    ProductOutcome, SideChoice, SideItem,
};
use crate::publish_tables::{fills_tables, table_asks, table_changes, EventRows};
use crate::publisher_artifact::{holds_ranking, ranking_artifact};
use crate::publisher_ledger::PublisherRankingRow;
use crate::publisher_state::read_publisher_ranking_rows;
use crate::semantic_publish::semantic_product_id;
use crate::steps::leads;
use crate::text::copy_optional;
use crate::zap_evidence::ZapRevalidation;

verus! {

/// What a publication is made for.
pub struct RunRequest<'a> {
    /// The snapshot and its boundary.
    pub generation: Generation<'a>,
    /// Objects of the snapshot.
    pub objects: &'a Vec<CatalogObject>,
    /// Version of the program.
    pub code_version: &'a str,
    /// Versions of the queries.
    pub versions: QueryVersions<'a>,
    /// The run that the build started from, if any.
    pub expected_previous: Option<&'a str>,
    /// Counts of the build.
    pub summary: BuildSummary,
    /// Counts of the overview.
    pub overview: OverviewCounts,
    /// Event counts.
    pub rows: &'a EventRows,
    /// When the build started.
    pub started_at: &'a str,
    /// When the build completed.
    pub completed_at: &'a str,
}

/// The identifier of the run that is published.
pub open spec fn identity_of(request: RunRequest, products: PublicationProducts) -> Seq<char> {
    sha256_text(
        run_message(request.generation, request.versions, request.code_version@, products),
    )
}

/// The rows of the products beside the run.
pub struct SideRows {
    /// Flexible distinct leaves.
    pub leaves: Vec<FlexibleLeaf>,
    /// The tolerance evidence of the leaves.
    pub validated: ValidatedFlexibleDistinctPublication,
    /// Days of the semantic rollups.
    pub days: SemanticDays,
    /// Ranked publishers.
    pub ranking: Vec<PublisherRankingRow>,
}

/// The rows are those of the products.
pub open spec fn rows_are(
    rows: SideRows,
    products: PublicationProducts,
    reads: ProductReads,
) -> bool {
    &&& products.flexible matches Some(flexible) ==> holds_leaves(
        reads.flexible.leaves@,
        leaf_views(rows.leaves@),
    ) && rows.validated.validation_sha256@ == flexible.validation_evidence_sha256@
    &&& products.semantic matches Some(semantic) ==> lists_days(
        rows.days,
        semantic.product.evidence.rollups,
    )
    &&& products.publisher is Some ==> holds_ranking(reads.ranking@, rows.ranking@)
}

/// The artifacts hold as many rows as their products name.
pub open spec fn rows_readable(products: PublicationProducts, reads: ProductReads) -> bool {
    &&& products.flexible matches Some(flexible) ==> exists|leaves: Seq<(u32, u16, Seq<u8>)>|
        #[trigger] holds_leaves(reads.flexible.leaves@, leaves) && leaves.len()
            == flexible.product.evidence.leaf_artifact.row_count
    &&& products.publisher matches Some(publisher) ==> ranking_artifact(
        reads.ranking@,
        publisher.evidence.ranking_artifact.row_count as int,
    )
}

/// The products beside the run, each with the identity that it belongs to, in
/// the order in which they are published.
pub open spec fn sides_of<'a>(
    products: PublicationProducts<'a>,
    rows: &'a SideRows,
    run_id: Seq<char>,
) -> Seq<(SideItem<'a>, Seq<char>)> {
    let semantic_id = match products.semantic {
        Some(semantic) => id_of(SideItem::Semantic(semantic.product, &rows.days), run_id),
        None => Seq::empty(),
    };
    (match products.flexible {
        Some(flexible) => seq![
            (SideItem::Flexible(flexible.product, &rows.leaves, &rows.validated), run_id),
        ],
        None => Seq::empty(),
    }) + (match products.semantic {
        Some(semantic) => seq![
            (SideItem::Semantic(semantic.product, &rows.days), run_id),
            (SideItem::Zap(semantic.zap_distinct), semantic_id),
        ],
        None => Seq::empty(),
    }) + (match products.relay {
        Some(relay) => seq![(SideItem::Relay(relay), run_id)],
        None => Seq::empty(),
    }) + (match products.publisher {
        Some(publisher) => seq![(SideItem::Ranking(publisher, &rows.ranking), run_id)],
        None => Seq::empty(),
    })
}

/// A product beside the run, with the identity that it belongs to.
struct SideEntry<'a> {
    item: SideItem<'a>,
    parent: String,
}

/// The entries as mathematical values.
spec fn entries_of<'a>(entries: Seq<SideEntry<'a>>) -> Seq<(SideItem<'a>, Seq<char>)> {
    Seq::new(entries.len(), |i: int| (entries[i].item, entries[i].parent@))
}

/// What is asked to publish the first `n` products beside the run, in order.
pub open spec fn sides_script(
    sides: Seq<(SideItem, Seq<char>)>,
    choices: Seq<SideChoice>,
    n: int,
) -> Seq<Ask>
    decreases n,
{
    if n <= 0 {
        Seq::empty()
    } else {
        sides_script(sides, choices, n - 1) + side_script(
            sides[n - 1].0,
            sides[n - 1].1,
            choices[n - 1],
        )
    }
}

/// The first `n` parts one behind another.
pub open spec fn joined<X>(parts: Seq<Seq<Exchange<X>>>, n: int) -> Seq<Exchange<X>>
    decreases n,
{
    if n <= 0 {
        Seq::empty()
    } else {
        joined(parts, n - 1) + parts[n - 1]
    }
}

/// A product was published by its part of the exchanges.
pub open spec fn part_publishes<X>(
    side: (SideItem, Seq<char>),
    choice: SideChoice,
    part: Seq<Exchange<X>>,
) -> bool {
    exists|published: ProductOutcome| #[trigger]
        publishes_item(side.0, side.1, choice, part, Ok(published))
}

/// The first `n` products were published, each by its part of the exchanges.
pub open spec fn sides_published<X>(
    sides: Seq<(SideItem, Seq<char>)>,
    choices: Seq<SideChoice>,
    parts: Seq<Seq<Exchange<X>>>,
    n: int,
) -> bool {
    &&& choices.len() == sides.len()
    &&& n <= parts.len()
    &&& forall|i: int|
        0 <= i < n ==> part_publishes(sides[i], choices[i], #[trigger] parts[i])
}

/// Choices that agree on the first products ask the same of them.
proof fn lemma_sides_same(
    sides: Seq<(SideItem, Seq<char>)>,
    a: Seq<SideChoice>,
    b: Seq<SideChoice>,
    n: int,
)
    requires
        forall|i: int| 0 <= i < n ==> a[i] == b[i],
    ensures
        sides_script(sides, a, n) == sides_script(sides, b, n),
    decreases n,
{
    if n > 0 {
        lemma_sides_same(sides, a, b, n - 1);
    }
}

/// What is asked of the first products begins what is asked of more.
proof fn lemma_sides_begin(
    sides: Seq<(SideItem, Seq<char>)>,
    choices: Seq<SideChoice>,
    part: Seq<Ask>,
    k: int,
    n: int,
)
    requires
        k <= n,
        begins(part, sides_script(sides, choices, k)),
    ensures
        begins(part, sides_script(sides, choices, n)),
    decreases n - k,
{
    if k < n {
        lemma_sides_begin(sides, choices, part, k, n - 1);
        if n > 0 {
            let less = sides_script(sides, choices, n - 1);
            let more = sides_script(sides, choices, n);
            assert(more.take(part.len() as int) =~= less.take(part.len() as int));
        }
    }
}

/// Publish the products beside the run.
fn publish_entries<X, F: Fn(X, &LedgerRequest) -> (X, Result<LedgerReply>)>(
    ask: &F,
    x: X,
    entries: &Vec<SideEntry>,
) -> (made: (
    X,
    Result<()>,
    Ghost<Seq<Exchange<X>>>,
    Ghost<Seq<SideChoice>>,
    Ghost<Seq<Seq<Exchange<X>>>>,
))
    requires
        forall|i: int| 0 <= i < entries@.len() ==> item_holds((#[trigger] entries@[i]).item),
        forall|x: X, request: &LedgerRequest| #[trigger] call_requires(*ask, (x, request)),
    ensures
        ({
            let sides = entries_of(entries@);
            let n = sides.len() as int;
            let (y, outcome, trace, choices, parts) = made;
            &&& leads(*ask, x, trace@, y)
            &&& choices@.len() == n
            &&& begins(asks(trace@), sides_script(sides, choices@, n))
            &&& match outcome {
                Ok(_) => {
                    &&& asks(trace@) == sides_script(sides, choices@, n)
                    &&& answered(trace@)
                    &&& parts@.len() == n
                    &&& trace@ == joined(parts@, n)
                    &&& sides_published(sides, choices@, parts@, n)
                },
                Err(error) => exists|k: int|
                    0 <= k < n && side_fails((#[trigger] sides[k]).0, sides[k].1, trace@, error),
            }
        }),
{
    let ghost sides = entries_of(entries@);
    let ghost n = sides.len() as int;
    let ghost first = x;
    let ghost mut trace: Seq<Exchange<X>> = Seq::empty();
    let ghost mut choices: Seq<SideChoice> = Seq::new(sides.len(), |i: int| arbitrary());
    let ghost mut parts: Seq<Seq<Exchange<X>>> = Seq::empty();
    let mut held: X = x;
    let mut i: usize = 0;
    assert(asks(trace) =~= Seq::empty());
    while i < entries.len()
        invariant
            i <= entries@.len(),
            first == x,
            sides == entries_of(entries@),
            n == sides.len(),
            forall|i: int| 0 <= i < entries@.len() ==> item_holds((#[trigger] entries@[i]).item),
            forall|x: X, request: &LedgerRequest| #[trigger] call_requires(*ask, (x, request)),
            leads(*ask, first, trace, held),
            choices.len() == n,
            parts.len() == i,
            asks(trace) == sides_script(sides, choices, i as int),
            answered(trace),
            trace == joined(parts, i as int),
            sides_published(sides, choices, parts, i as int),
        decreases entries.len() - i,
    {
        let ghost before = held;
        let entry: &SideEntry = &entries[i];
        let (after, outcome, Ghost(part), Ghost(choice)) = publish_item(
            ask,
            held,
            &entry.item,
            entry.parent.as_str(),
        );
        held = after;
        let ghost chosen = choices.update(i as int, choice);
        let ghost longer = trace + part;
        proof {
            lemma_join(*ask, first, trace, before, part, held);
            lemma_sides_same(sides, choices, chosen, i as int);
            assert(sides[i as int] == (entry.item, entry.parent@));
            let own = side_script(sides[i as int].0, sides[i as int].1, choice);
            lemma_begins(asks(trace), asks(part), own, Seq::empty());
            assert(asks(trace) + own + Seq::empty() =~= sides_script(sides, chosen, i + 1));
            lemma_sides_begin(sides, chosen, asks(longer), i + 1, n);
        }
        match outcome {
            Ok(published) => {
                proof {
                    let more = parts.push(part);
                    assert(part_publishes(sides[i as int], choice, part));
                    assert(joined(more, i as int) == joined(parts, i as int)) by {
                        lemma_joined_same(more, parts, i as int);
                    }
                    assert forall|k: int| 0 <= k < i + 1 implies part_publishes(
                        sides[k],
                        chosen[k],
                        #[trigger] more[k],
                    ) by {
                        if k < i {
                            assert(more[k] == parts[k]);
                        }
                    }
                    assert(asks(longer) =~= sides_script(sides, chosen, i + 1));
                    parts = more;
                    choices = chosen;
                    trace = longer;
                }
            },
            Err(error) => {
                proof {
                    assert(part.len() > 0);
                    assert(longer.last() == part.last());
                    assert(side_fails(sides[i as int].0, sides[i as int].1, longer, error));
                }
                return (held, Err(error), Ghost(longer), Ghost(chosen), Ghost(parts));
            },
        }
        i += 1;
    }
    assert(sides_script(sides, choices, n) =~= sides_script(sides, choices, n).take(
        trace.len() as int,
    )) by {
        assert(asks(trace).len() == trace.len());
    }
    (held, Ok(()), Ghost(trace), Ghost(choices), Ghost(parts))
}

/// Parts that agree join alike.
proof fn lemma_joined_same<X>(a: Seq<Seq<Exchange<X>>>, b: Seq<Seq<Exchange<X>>>, n: int)
    requires
        forall|i: int| 0 <= i < n ==> a[i] == b[i],
    ensures
        joined(a, n) == joined(b, n),
    decreases n,
{
    if n > 0 {
        lemma_joined_same(a, b, n - 1);
    }
}

/// An object as it is inserted.
pub open spec fn input_of(object: CatalogObject) -> RunInput {
    RunInput {
        object_key: object.object_key,
        work_unit_id: object.work_unit_id,
        sha256: object.sha256,
        sizes: ObjectRow {
            byte_size: object.byte_size as i64,
            row_count: object.row_count as i64,
        },
        min_created_at: object.min_created_at,
        max_created_at: object.max_created_at,
    }
}

/// The inputs are the objects, and their sizes fit their columns.
pub open spec fn are_inputs(inputs: Seq<RunInput>, objects: Seq<CatalogObject>) -> bool {
    &&& inputs.len() == objects.len()
    &&& forall|i: int|
        0 <= i < inputs.len() ==> (#[trigger] inputs[i]) == input_of(objects[i]) && object_fits(
            objects[i],
        )
}

/// The first objects have sizes that fit their columns.
pub open spec fn objects_fit(objects: Seq<CatalogObject>, count: int) -> bool {
    forall|i: int| 0 <= i < count ==> object_fits(#[trigger] objects[i])
}

/// An object's size does not fit its column; `error` is that of the first.
pub open spec fn object_refused(objects: Seq<CatalogObject>, error: Error) -> bool {
    exists|i: int|
        {
            &&& 0 <= i < objects.len()
            &&& objects_fit(objects, i)
            &&& !object_fits(#[trigger] objects[i])
            &&& error == object_error(objects[i])
        }
}

/// An object as it is inserted.
fn run_input(object: &CatalogObject, sizes: ObjectRow) -> (input: RunInput)
    requires
        is_object_row(sizes, *object),
    ensures
        input == input_of(*object),
{
    RunInput {
        object_key: object.object_key.clone(),
        work_unit_id: object.work_unit_id.clone(),
        sha256: object.sha256.clone(),
        sizes,
        min_created_at: copy_optional(&object.min_created_at),
        max_created_at: copy_optional(&object.max_created_at),
    }
}

/// The objects as they are inserted.
fn run_inputs(objects: &Vec<CatalogObject>) -> (outcome: Result<Vec<RunInput>>)
    ensures
        match outcome {
            Ok(inputs) => are_inputs(inputs@, objects@),
            Err(error) => object_refused(objects@, error),
        },
{
    let mut inputs: Vec<RunInput> = Vec::new();
    let mut i: usize = 0;
    while i < objects.len()
        invariant
            i <= objects@.len(),
            inputs@.len() == i,
            forall|j: int|
                0 <= j < i ==> (#[trigger] inputs@[j]) == input_of(objects@[j]) && object_fits(
                    objects@[j],
                ),
        decreases objects.len() - i,
    {
        match object_row(&objects[i]) {
            Ok(row) => {
                inputs.push(run_input(&objects[i], row));
            },
            Err(error) => {
                proof {
                    assert forall|j: int| 0 <= j < i implies object_fits(
                        #[trigger] objects@[j],
                    ) by {
                        assert(inputs@[j] == input_of(objects@[j]));
                    }
                    assert(objects_fit(objects@, i as int));
                    assert(!object_fits(objects@[i as int]));
                }
                return Err(error);
            },
        }
        i += 1;
    }
    Ok(inputs)
}

/// The run that is inserted.
pub open spec fn is_new_run(
    run: NewRun,
    request: RunRequest,
    products: PublicationProducts,
    current: Option<String>,
) -> bool {
    &&& run.run_id@ == identity_of(request, products)
    &&& run.snapshot_id@ == request.generation.snapshot_id@
    &&& run.started_at@ == request.started_at@
    &&& run.completed_at@ == request.completed_at@
    &&& run.previous == current
    &&& run.incremental == request.expected_previous is Some
    &&& run.query_version@ == version_of(request.versions, products)
    &&& run.code_version@ == request.code_version@
    &&& is_run_row(run.row, request.generation.as_of_epoch, request.summary, sizes_of(products))
    &&& is_overview_row(run.overview, request.overview, eligible_pubkeys(products))
    &&& records_counts(run.validation, request.summary, products)
    &&& records_digests(run.validation, products)
    &&& are_inputs(run.objects@, request.objects@)
}

/// The questions that apply the objects of a run: exactly those of its snapshot
/// are active.
pub open spec fn object_asks(run_id: Seq<char>, objects: Seq<CatalogObject>) -> Seq<Ask> {
    seq![Ask::RetireObjects] + Seq::new(
        objects.len(),
        |i: int| Ask::ApplyObject(run_id, input_of(objects[i])),
    )
}

/// What staging the run asks: a new run is inserted and its tables are filled,
/// and the objects of the run are applied.
pub open spec fn stage_asks(
    request: RunRequest,
    products: PublicationProducts,
    step: PublicationStep,
    run: NewRun,
) -> Seq<Ask> {
    let run_id = identity_of(request, products);
    if step is Insert {
        seq![Ask::InsertRun(run)] + object_asks(run_id, request.objects@) + table_asks(
            run_id,
            *request.rows,
            products,
        )
    } else {
        object_asks(run_id, request.objects@)
    }
}

/// The answers that staging the run is owed.
pub open spec fn stage_owed(
    script: Seq<Change>,
    request: RunRequest,
    products: PublicationProducts,
    step: PublicationStep,
) -> bool {
    let run_id = identity_of(request, products);
    let objects = request.objects@.len();
    let from = if step is Insert {
        1int
    } else {
        0int
    };
    &&& step is Insert ==> script[0].owed is Done
    &&& script[from].owed is Done
    &&& forall|i: int|
        from + 1 <= i < from + 1 + objects ==> (#[trigger] script[i]).owed is One
    &&& step is Insert ==> fills_tables(
        script.skip(from + 1 + objects),
        run_id,
        *request.rows,
        request.summary,
        products,
    )
}

/// `script` stages the run.
pub open spec fn stages(
    script: Seq<Change>,
    request: RunRequest,
    products: PublicationProducts,
    current: Option<String>,
    step: PublicationStep,
    run: NewRun,
) -> bool {
    &&& changes(script) == stage_asks(request, products, step, run)
    &&& stage_owed(script, request, products, step)
    &&& step is Insert ==> is_new_run(run, request, products, current)
}

/// The run cannot be staged: a number does not fit its column. Those of the run
/// come before those of its objects, and those of the overview come last.
pub open spec fn stage_refused(
    request: RunRequest,
    products: PublicationProducts,
    step: PublicationStep,
    error: Error,
) -> bool {
    let sizes = sizes_of(products);
    if step is Insert && !run_fits(request.generation.as_of_epoch, request.summary, sizes) {
        error == columns_error(run_counts(request.generation.as_of_epoch, request.summary, sizes))
    } else if !objects_fit(request.objects@, request.objects@.len() as int) {
        object_refused(request.objects@, error)
    } else {
        &&& step is Insert
        &&& !overview_fits(request.overview, eligible_pubkeys(products))
        &&& error == columns_error(overview_counts(request.overview, eligible_pubkeys(products)))
    }
}

/// The changes that apply the objects of a run.
fn object_changes(
    run_id: &String,
    objects: &Vec<CatalogObject>,
) -> (script: Vec<Change>)
    requires
        forall|i: int| 0 <= i < objects@.len() ==> object_fits(#[trigger] objects@[i]),
    ensures
        changes(script@) == object_asks(run_id@, objects@),
        script@.len() == objects@.len() + 1,
        script@[0].owed is Done,
        forall|i: int| 1 <= i < script@.len() ==> (#[trigger] script@[i]).owed is One,
{
    let mut script: Vec<Change> = Vec::new();
    script.push(Change { request: LedgerRequest::RetireObjects, owed: Owed::Done });
    let mut i: usize = 0;
    while i < objects.len()
        invariant
            i <= objects@.len(),
            forall|i: int| 0 <= i < objects@.len() ==> object_fits(#[trigger] objects@[i]),
            script@.len() == i + 1,
            script@[0].owed is Done,
            forall|j: int| 1 <= j < script@.len() ==> (#[trigger] script@[j]).owed is One,
            forall|j: int|
                0 <= j < script@.len() ==> asked((#[trigger] script@[j]).request) == object_asks(
                    run_id@,
                    objects@,
                )[j],
        decreases objects.len() - i,
    {
        assert(object_fits(objects@[i as int]));
        let sizes: ObjectRow = ObjectRow {
            byte_size: objects[i].byte_size as i64,
            row_count: objects[i].row_count as i64,
        };
        script.push(
            Change {
                request: LedgerRequest::ApplyObject {
                    run_id: run_id.clone(),
                    input: run_input(&objects[i], sizes),
                },
                owed: Owed::One(
                    "immutable applied object conflicts with its existing ledger identity",
                ),
            },
        );
        i += 1;
    }
    assert(changes(script@) =~= object_asks(run_id@, objects@));
    script
}

/// The changes that stage a run.
fn stage_changes(
    request: &RunRequest,
    products: &PublicationProducts,
    run_id: &String,
    current: &Option<String>,
    step: PublicationStep,
) -> (outcome: Result<(Vec<Change>, Ghost<NewRun>)>)
    requires
        run_id@ == identity_of(*request, *products),
    ensures
        match outcome {
            Ok((script, run)) => stages(script@, *request, *products, *current, step, run@),
            Err(error) => stage_refused(*request, *products, step, error),
        },
{
    let insert: bool = match step {
        PublicationStep::Insert => true,
        PublicationStep::Reconcile => false,
    };
    let sizes: ProductSizes = product_sizes(products);
    let row: Option<RunRow> = if insert {
        match run_row(request.generation.as_of_epoch, request.summary, sizes) {
            Ok(row) => Some(row),
            Err(error) => {
                return Err(error);
            },
        }
    } else {
        None
    };
    let objects: Vec<RunInput> = match run_inputs(request.objects) {
        Ok(inputs) => inputs,
        Err(error) => {
            return Err(error);
        },
    };
    proof {
        assert forall|i: int| 0 <= i < request.objects@.len() implies object_fits(
            #[trigger] request.objects@[i],
        ) by {
            assert(objects@[i] == input_of(request.objects@[i]));
        }
    }
    let mut applied: Vec<Change> = object_changes(run_id, request.objects);
    let row: RunRow = match row {
        Some(row) => row,
        None => {
            let ghost none: NewRun = arbitrary();
            return Ok((applied, Ghost(none)));
        },
    };
    let ghost applying = applied@;
    let overview: OverviewRow = match overview_row(request.overview, sizes.eligible_pubkeys) {
        Ok(row) => row,
        Err(error) => {
            return Err(error);
        },
    };
    let run: NewRun = NewRun {
        run_id: run_id.clone(),
        snapshot_id: request.generation.snapshot_id.to_owned(),
        started_at: request.started_at.to_owned(),
        completed_at: request.completed_at.to_owned(),
        previous: copy_optional(current),
        incremental: request.expected_previous.is_some(),
        query_version: query_version(request.versions, products).to_owned(),
        code_version: request.code_version.to_owned(),
        row,
        overview,
        validation: validation_record(request.summary, products),
        objects,
    };
    let ghost inserted = run;
    let mut script: Vec<Change> = Vec::new();
    script.push(Change { request: LedgerRequest::InsertRun(run), owed: Owed::Done });
    let ghost head = script@;
    script.append(&mut applied);
    let mut tables: Vec<Change> = table_changes(
        run_id.as_str(),
        request.rows,
        request.summary,
        products,
    );
    let ghost filling = tables@;
    script.append(&mut tables);
    proof {
        assert(script@ =~= head + applying + filling);
        assert(changes(script@) =~= stage_asks(*request, *products, step, inserted)) by {
            assert(changes(head + applying + filling) =~= changes(head) + changes(applying)
                + changes(filling));
            assert(changes(head) =~= seq![Ask::InsertRun(inserted)]);
        }
        assert(script@.skip(2 + request.objects@.len() as int) =~= filling);
        assert(script@[1] == applying[0]);
        assert forall|i: int| 2 <= i < 2 + request.objects@.len() implies (
        #[trigger] script@[i]).owed is One by {
            assert(script@[i] == applying[i - 1]);
        }
    }
    Ok((script, Ghost(inserted)))
}

/// What is stored accounts for the products.
pub open spec fn accounts(tables: PublishedTables, products: PublicationProducts) -> bool {
    &&& identity_accounts(tables.identity, products)
    &&& activity_accounts(tables.activity, products)
    &&& cohort_accounts(tables.cohort, products)
}

/// The error is that of the first tables that do not account for the products.
pub open spec fn is_tables_error(
    tables: PublishedTables,
    products: PublicationProducts,
    error: Error,
) -> bool {
    if !identity_accounts(tables.identity, products) {
        identity_outcome(tables.identity, products) == Err::<(), Error>(error)
    } else if !activity_accounts(tables.activity, products) {
        if sums_overflow(products) {
            is_sum_error(products, error)
        } else {
            activity_outcome(tables.activity, products) == Err::<(), Error>(error)
        }
    } else {
        cohort_outcome(tables.cohort, products) == Err::<(), Error>(error)
    }
}

/// Hold what is stored of a run against the products.
fn check_tables(tables: PublishedTables, products: &PublicationProducts) -> (outcome: Result<()>)
    ensures
        outcome is Ok <==> accounts(tables, *products),
        outcome is Err ==> is_tables_error(tables, *products, outcome->Err_0),
{
    match reconcile_published_identity(tables.identity, products) {
        Ok(()) => {},
        Err(error) => {
            return Err(error);
        },
    }
    match reconcile_published_activity(tables.activity, products) {
        Ok(()) => {},
        Err(error) => {
            return Err(error);
        },
    }
    reconcile_published_cohort(tables.cohort, products)
}

/// The run is reported as current already, or as new.
pub open spec fn reports_run(
    outcome: PublishOutcome,
    step: PublicationStep,
    run_id: Seq<char>,
    current: Option<String>,
) -> bool {
    match outcome {
        PublishOutcome::AlreadyCurrent { run_id: id } => step is Reconcile && id@ == run_id,
        PublishOutcome::Published { run_id: id, previous_run_id } => step is Insert && id@
            == run_id && previous_run_id == current,
    }
}

/// One transaction that publishes a run.
pub struct RunTrace<X> {
    /// What opening it gave.
    pub begun: Result<X>,
    /// What was asked and answered.
    pub trace: Seq<Exchange<X>>,
    /// The run that was current.
    pub current: Option<String>,
    /// Whether the run was stored.
    pub known: bool,
    /// What the publication had to do.
    pub step: PublicationStep,
    /// The run that is inserted.
    pub run: NewRun,
    /// The changes that stage the run.
    pub script: Seq<Change>,
    /// What the ledger decided of the products beside the run.
    pub choices: Seq<SideChoice>,
    /// The exchanges that publish these products.
    pub parts: Seq<Seq<Exchange<X>>>,
    /// How the transaction ended.
    pub end: Ended<X>,
}

/// The last question of a publication makes a new run current.
pub open spec fn point_asks(run_id: Seq<char>, step: PublicationStep) -> Seq<Ask> {
    if step is Insert {
        seq![Ask::PointTo(run_id)]
    } else {
        Seq::empty()
    }
}

/// What is asked to publish the run, in order.
pub open spec fn run_script<X>(
    run_id: Seq<char>,
    sides: Seq<(SideItem, Seq<char>)>,
    made: RunTrace<X>,
) -> Seq<Ask> {
    seq![Ask::LockCurrent, Ask::RunStored(run_id)] + changes(made.script) + seq![
        Ask::RunTables(run_id),
    ] + sides_script(sides, made.choices, sides.len() as int) + point_asks(run_id, made.step)
}

/// The ledger's first two answers decide what the publication does.
pub open spec fn decided<X>(run_id: Seq<char>, request: RunRequest, made: RunTrace<X>) -> bool {
    &&& made.trace.len() >= 2
    &&& made.trace[0].reply == Ok::<LedgerReply, Error>(LedgerReply::Current(made.current))
    &&& made.trace[1].reply == Ok::<LedgerReply, Error>(LedgerReply::Known(made.known))
    &&& decides(run_id, made.known, made.current, request.expected_previous, Ok(made.step))
}

/// The publication succeeded.
pub open spec fn succeeds<X>(
    request: RunRequest,
    products: PublicationProducts,
    sides: Seq<(SideItem, Seq<char>)>,
    made: RunTrace<X>,
    outcome: PublishOutcome,
) -> bool {
    &&& made.end is Kept
    &&& completes(request, products, sides, made)
    &&& reports_run(outcome, made.step, identity_of(request, products), made.current)
}

/// Every question of the publication was asked and answered as owed.
pub open spec fn completes<X>(
    request: RunRequest,
    products: PublicationProducts,
    sides: Seq<(SideItem, Seq<char>)>,
    made: RunTrace<X>,
) -> bool {
    let run_id = identity_of(request, products);
    let staged = 2 + made.script.len() as int;
    &&& asks(made.trace) == run_script(run_id, sides, made)
    &&& answered(made.trace)
    &&& decided(run_id, request, made)
    &&& stages(made.script, request, products, made.current, made.step, made.run)
    &&& makes(made.script, made.trace.subrange(2, staged), Ok(()))
    &&& made.trace[staged].reply matches Ok(LedgerReply::Tables(tables)) && accounts(
        tables,
        products,
    )
    &&& made.parts.len() == sides.len()
    &&& sides_published(sides, made.choices, made.parts, sides.len() as int)
    &&& made.trace.subrange(
        staged + 1,
        staged + 1 + joined(made.parts, sides.len() as int).len() as int,
    ) == joined(made.parts, sides.len() as int)
    &&& made.step is Insert ==> made.trace.last().reply == Ok::<LedgerReply, Error>(
        LedgerReply::Done,
    )
}

/// Why the publication failed.
pub open spec fn fails<X>(
    request: RunRequest,
    products: PublicationProducts,
    sides: Seq<(SideItem, Seq<char>)>,
    made: RunTrace<X>,
    error: Error,
) -> bool {
    let run_id = identity_of(request, products);
    ||| made.end is Unopened
    ||| made.end is Refused && completes(request, products, sides, made)
    ||| made.end is Dropped && made.trace.len() == 2 && decides(
        run_id,
        made.known,
        made.current,
        request.expected_previous,
        Err(error),
    ) && made.trace[0].reply == Ok::<LedgerReply, Error>(LedgerReply::Current(made.current))
        && made.trace[1].reply == Ok::<LedgerReply, Error>(LedgerReply::Known(made.known))
    ||| made.end is Dropped && made.trace.len() == 2 && decided(
        run_id,
        request,
        made,
    ) && stage_refused(
        request,
        products,
        made.step,
        error,
    )
    ||| made.end is Dropped && made.trace.len() > 0 && answer_fails(products, sides, made, error)
}

/// The last answer of the ledger is not the one that is owed.
pub open spec fn answer_fails<X>(
    products: PublicationProducts,
    sides: Seq<(SideItem, Seq<char>)>,
    made: RunTrace<X>,
    error: Error,
) -> bool {
    let at = made.trace.len() - 3;
    ||| made.trace.last().reply == Err::<LedgerReply, Error>(error)
    ||| made.trace.last().reply matches Ok(reply) && !answers(
        asked(made.trace.last().request),
        reply,
    ) && error is Validation
    ||| 0 <= at < made.script.len() && !is_owed(made.script[at].owed, made.trace.last().reply)
        && refuses(made.script[at].owed, made.trace.last().reply, error)
    ||| made.trace.last().reply matches Ok(LedgerReply::Tables(tables)) && !accounts(
        tables,
        products,
    ) && is_tables_error(tables, products, error)
    ||| exists|k: int|
        0 <= k < sides.len() && side_fails(
            (#[trigger] sides[k]).0,
            sides[k].1,
            made.trace,
            error,
        )
}

/// What the publication of a run comes to.
///
/// All questions stand in one transaction and in one order. It is kept exactly
/// where the publication succeeds, behind the last question, and dropped where
/// it fails.
pub open spec fn publishes_run<
    X,
    B: FnOnce() -> Result<X>,
    F: Fn(X, &LedgerRequest) -> (X, Result<LedgerReply>),
    K: Fn(X) -> Result<()>,
    R: Fn(X),
>(
    begin: B,
    ledger: Ledger<F, K, R>,
    request: RunRequest,
    products: PublicationProducts,
    sides: Seq<(SideItem, Seq<char>)>,
    made: RunTrace<X>,
    outcome: Result<PublishOutcome>,
) -> bool {
    let run_id = identity_of(request, products);
    &&& call_ensures(begin, (), made.begun)
    &&& ends(*ledger.commit, *ledger.rollback, made.end, done(outcome))
    &&& begins(asks(made.trace), run_script(run_id, sides, made))
    &&& made.trace.len() > 2 ==> decided(run_id, request, made) && stages(
        made.script,
        request,
        products,
        made.current,
        made.step,
        made.run,
    )
    &&& match made.begun {
        Err(error) => made.end is Unopened && outcome == Err::<PublishOutcome, Error>(error)
            && made.trace.len() == 0,
        Ok(first) => last_of(made.end) is Some && leads(
            *ledger.ask,
            first,
            made.trace,
            last_of(made.end)->0,
        ),
    }
    &&& match outcome {
        Ok(published) => succeeds(request, products, sides, made, published),
        Err(error) => fails(request, products, sides, made, error),
    }
}

/// A transaction that failed behind `trace`.
spec fn failed<X>(
    begun: Result<X>,
    made: RunTrace<X>,
    trace: Seq<Exchange<X>>,
    last: X,
) -> RunTrace<X> {
    RunTrace { begun, trace, end: Ended::Dropped(last), ..made }
}

/// The exchanges of a publication up to the products beside the run.
spec fn reached<X, F: Fn(X, &LedgerRequest) -> (X, Result<LedgerReply>)>(
    ask: F,
    first: X,
    request: RunRequest,
    products: PublicationProducts,
    made: RunTrace<X>,
    last: X,
) -> bool {
    let run_id = identity_of(request, products);
    let staged = 2 + made.script.len() as int;
    &&& leads(ask, first, made.trace, last)
    &&& answered(made.trace)
    &&& made.trace.len() == staged + 1
    &&& asks(made.trace) == seq![Ask::LockCurrent, Ask::RunStored(run_id)] + changes(made.script)
        + seq![Ask::RunTables(run_id)]
    &&& decided(run_id, request, made)
    &&& stages(made.script, request, products, made.current, made.step, made.run)
    &&& makes(made.script, made.trace.subrange(2, staged), Ok(()))
    &&& made.trace[staged].reply matches Ok(LedgerReply::Tables(tables)) && accounts(
        tables,
        products,
    )
}

/// Lock the ledger, stage the run and hold what is stored against the products.
#[verifier::rlimit(60)]
#[verifier::spinoff_prover]
fn stage_run<X, F: Fn(X, &LedgerRequest) -> (X, Result<LedgerReply>)>(
    ask: &F,
    x: X,
    request: &RunRequest,
    products: &PublicationProducts,
    run_id: &String,
    Ghost(sides): Ghost<Seq<(SideItem, Seq<char>)>>,
) -> (made: (X, Result<(PublicationStep, Option<String>)>, Ghost<RunTrace<X>>))
    requires
        run_id@ == identity_of(*request, *products),
        forall|x: X, request: &LedgerRequest| #[trigger] call_requires(*ask, (x, request)),
    ensures
        ({
            let (y, outcome, trace) = made;
            let run_id = identity_of(*request, *products);
            match outcome {
                Ok((step, current)) => {
                    &&& reached(*ask, x, *request, *products, trace@, y)
                    &&& trace@.step == step
                    &&& trace@.current == current
                },
                Err(error) => {
                    &&& leads(*ask, x, trace@.trace, y)
                    &&& begins(asks(trace@.trace), run_script(run_id, sides, trace@))
                    &&& trace@.trace.len() > 2 ==> decided(run_id, *request, trace@) && stages(
                        trace@.script,
                        *request,
                        *products,
                        trace@.current,
                        trace@.step,
                        trace@.run,
                    )
                    &&& trace@.end is Dropped
                    &&& trace@.end->Dropped_0 == y
                    &&& fails(*request, *products, sides, trace@, error)
                },
            }
        }),
{
    let ghost first = x;
    let ghost id = run_id@;
    let ghost blank: RunTrace<X> = arbitrary();
    let ghost lock = seq![Ask::LockCurrent];
    let ghost both = seq![Ask::LockCurrent, Ask::RunStored(id)];
    let (x, reply, Ghost(t0)) = ask_one(ask, x, LedgerRequest::LockCurrent);
    let ghost x1 = x;
    let ghost early = failed(blank.begun, blank, t0, x1);
    proof {
        assert(asks(t0) =~= lock);
        assert(asks(t0) =~= run_script(id, sides, early).take(1));
    }
    let current: Option<String> = match reply {
        Ok(LedgerReply::Current(current)) => current,
        Ok(_) => {
            return (x, Err(Error::Validation("the ledger gave another answer")), Ghost(early));
        },
        Err(error) => {
            return (x, Err(error), Ghost(early));
        },
    };
    let (x, reply, Ghost(t1)) = ask_one(
        ask,
        x,
        LedgerRequest::RunStored { run_id: run_id.clone() },
    );
    let ghost x2 = x;
    let ghost two = t0 + t1;
    let ghost asking = failed(blank.begun, RunTrace { current, ..blank }, two, x2);
    proof {
        lemma_join(*ask, first, t0, x1, t1, x2);
        assert(asks(two) =~= both);
        assert(asks(two) =~= run_script(id, sides, asking).take(2));
        assert(two.last() == t1.last());
        assert(two[0] == t0[0]);
        assert(two[1] == t1[0]);
    }
    let known: bool = match reply {
        Ok(LedgerReply::Known(known)) => known,
        Ok(_) => {
            return (x, Err(Error::Validation("the ledger gave another answer")), Ghost(asking));
        },
        Err(error) => {
            return (x, Err(error), Ghost(asking));
        },
    };
    let step: PublicationStep = match decide_publication(
        run_id.as_str(),
        known,
        &current,
        request.expected_previous,
    ) {
        Ok(step) => step,
        Err(error) => {
            let ghost refused = RunTrace { known, ..asking };
            assert(asks(two) =~= run_script(id, sides, refused).take(2));
            return (x, Err(error), Ghost(refused));
        },
    };
    let ghost deciding = RunTrace { known, step, ..asking };
    assert(decided(id, *request, deciding));
    let (script, Ghost(run)) = match stage_changes(request, products, run_id, &current, step) {
        Ok(staged) => staged,
        Err(error) => {
            assert(asks(two) =~= run_script(id, sides, deciding).take(2));
            return (x, Err(error), Ghost(deciding));
        },
    };
    let ghost planned = script@;
    let (x, made, Ghost(t2)) = make_changes(ask, x, script);
    let ghost x3 = x;
    let ghost three = two + t2;
    let ghost staging = RunTrace {
        run,
        script: planned,
        trace: three,
        end: Ended::Dropped(x3),
        ..deciding
    };
    let ghost rest = seq![Ask::RunTables(id)] + sides_script(
        sides,
        staging.choices,
        sides.len() as int,
    ) + point_asks(id, step);
    proof {
        lemma_join(*ask, first, two, x2, t2, x3);
        lemma_begins(both, asks(t2), changes(planned), rest);
        assert(both + changes(planned) + rest =~= run_script(id, sides, staging));
        assert(three[0] == two[0] && three[1] == two[1]);
        assert(decided(id, *request, staging));
        if t2.len() > 0 {
            assert(three.last() == t2.last());
        }
    }
    match made {
        Ok(()) => {},
        Err(error) => {
            return (x, Err(error), Ghost(staging));
        },
    }
    let (x, reply, Ghost(t3)) = ask_one(
        ask,
        x,
        LedgerRequest::RunTables { run_id: run_id.clone() },
    );
    let ghost x4 = x;
    let ghost four = three + t3;
    let ghost reading = RunTrace { trace: four, end: Ended::Dropped(x4), ..staging };
    proof {
        lemma_join(*ask, first, three, x3, t3, x4);
        assert(asks(t3) =~= seq![Ask::RunTables(id)]);
        assert(asks(four) =~= both + changes(planned) + seq![Ask::RunTables(id)]);
        let tail = sides_script(sides, reading.choices, sides.len() as int) + point_asks(id, step);
        assert(asks(four) + tail =~= run_script(id, sides, reading));
        assert(asks(four) =~= run_script(id, sides, reading).take(asks(four).len() as int));
        assert(four.last() == t3.last());
        assert(four[0] == two[0] && four[1] == two[1]);
        assert(decided(id, *request, reading));
        assert(four.subrange(2, 2 + planned.len() as int) =~= t2);
        assert(four[2 + planned.len() as int] == t3[0]);
    }
    let tables: PublishedTables = match reply {
        Ok(LedgerReply::Tables(tables)) => tables,
        Ok(_) => {
            return (x, Err(Error::Validation("the ledger gave another answer")), Ghost(reading));
        },
        Err(error) => {
            return (x, Err(error), Ghost(reading));
        },
    };
    match check_tables(tables, products) {
        Ok(()) => {},
        Err(error) => {
            return (x, Err(error), Ghost(reading));
        },
    }
    (x, Ok((step, current)), Ghost(reading))
}

/// Publish a run inside of one transaction.
#[verifier::rlimit(60)]
#[verifier::spinoff_prover]
fn run_transaction<
    X,
    B: FnOnce() -> Result<X>,
    F: Fn(X, &LedgerRequest) -> (X, Result<LedgerReply>),
    K: Fn(X) -> Result<()>,
    R: Fn(X),
>(
    begin: B,
    ledger: &Ledger<F, K, R>,
    request: &RunRequest,
    products: &PublicationProducts,
    run_id: String,
    entries: &Vec<SideEntry>,
) -> (made: (Result<PublishOutcome>, Ghost<RunTrace<X>>))
    requires
        run_id@ == identity_of(*request, *products),
        forall|i: int| 0 <= i < entries@.len() ==> item_holds((#[trigger] entries@[i]).item),
        call_requires(begin, ()),
        ledger_callable::<X, F, K, R>(*ledger),
    ensures
        publishes_run(
            begin,
            *ledger,
            *request,
            *products,
            entries_of(entries@),
            made.1@,
            made.0,
        ),
{
    let ghost sides = entries_of(entries@);
    let ghost n = sides.len() as int;
    let ghost id = run_id@;
    let begun: Result<X> = begin();
    let ghost opened = begun;
    let x: X = match begun {
        Ok(x) => x,
        Err(error) => {
            let ghost blank: RunTrace<X> = arbitrary();
            let ghost none = RunTrace {
                begun: opened,
                trace: Seq::empty(),
                end: Ended::Unopened,
                ..blank
            };
            assert(asks(none.trace) =~= run_script(id, sides, none).take(0));
            return (Err(error), Ghost(none));
        },
    };
    let ghost first = x;
    let (x, staged, Ghost(reading)) = stage_run(
        ledger.ask,
        x,
        request,
        products,
        &run_id,
        Ghost(sides),
    );
    let ghost x1 = x;
    let (step, current) = match staged {
        Ok(decided) => decided,
        Err(error) => {
            drop_changes(ledger.rollback, x);
            let ghost dropped = RunTrace { begun: opened, ..reading };
            assert(run_script(id, sides, dropped) == run_script(id, sides, reading));
            return (Err(error), Ghost(dropped));
        },
    };
    let ghost head = asks(reading.trace);
    let (x, published, Ghost(t1), Ghost(choices), Ghost(parts)) = publish_entries(
        ledger.ask,
        x,
        entries,
    );
    let ghost x2 = x;
    let ghost beside = reading.trace + t1;
    let ghost siding = RunTrace {
        begun: opened,
        trace: beside,
        choices,
        parts,
        end: Ended::Dropped(x2),
        ..reading
    };
    let ghost script = sides_script(sides, choices, n);
    proof {
        lemma_join(*ledger.ask, first, reading.trace, x1, t1, x2);
        lemma_begins(head, asks(t1), script, point_asks(id, step));
        assert(head + script + point_asks(id, step) =~= run_script(id, sides, siding));
        assert(beside[0] == reading.trace[0] && beside[1] == reading.trace[1]);
        assert(decided(id, *request, siding));
        if t1.len() > 0 {
            assert(beside.last() == t1.last());
        }
    }
    match published {
        Ok(()) => {},
        Err(error) => {
            drop_changes(ledger.rollback, x);
            proof {
                let k = choose|k: int|
                    0 <= k < n && side_fails((#[trigger] sides[k]).0, sides[k].1, t1, error);
                assert(side_fails(sides[k].0, sides[k].1, beside, error));
            }
            return (Err(error), Ghost(siding));
        },
    }
    let insert: bool = match step {
        PublicationStep::Insert => true,
        PublicationStep::Reconcile => false,
    };
    let mut pointing: Vec<Change> = Vec::new();
    if insert {
        pointing.push(
            Change {
                request: LedgerRequest::PointTo { run_id: run_id.clone() },
                owed: Owed::Done,
            },
        );
    }
    let ghost last_changes = pointing@;
    assert(changes(last_changes) =~= point_asks(id, step));
    let (x, pointed, Ghost(t2)) = make_changes(ledger.ask, x, pointing);
    let ghost x3 = x;
    let ghost whole = beside + t2;
    let ghost pointer = RunTrace { trace: whole, end: Ended::Dropped(x3), ..siding };
    proof {
        lemma_join(*ledger.ask, first, beside, x2, t2, x3);
        lemma_begins(head + script, asks(t2), point_asks(id, step), Seq::empty());
        assert(head + script + point_asks(id, step) + Seq::empty() =~= run_script(
            id,
            sides,
            pointer,
        ));
        assert(whole[0] == beside[0] && whole[1] == beside[1]);
        assert(decided(id, *request, pointer));
        if t2.len() > 0 {
            assert(whole.last() == t2.last());
        }
    }
    match pointed {
        Ok(()) => {},
        Err(error) => {
            drop_changes(ledger.rollback, x);
            assert(asks(t2)[t2.len() - 1] == changes(last_changes)[t2.len() - 1]);
            return (Err(error), Ghost(pointer));
        },
    }
    proof {
        let staged = 2 + reading.script.len() as int;
        assert(whole.subrange(2, staged) =~= reading.trace.subrange(2, staged));
        assert(whole[staged] == reading.trace[staged]);
        assert(whole.subrange(staged + 1, staged + 1 + t1.len() as int) =~= t1);
        if insert {
            assert(is_owed(last_changes[0].owed, t2[0].reply));
        }
    }
    let ghost held = current;
    let commit: &K = ledger.commit;
    match commit(x) {
        Ok(done) => {
            assert(done == ());
            assert(call_ensures(*ledger.commit, (x3,), Ok(())));
            let ghost kept = RunTrace { end: Ended::Kept(x3), ..pointer };
            assert(run_script(id, sides, kept) == run_script(id, sides, pointer));
            assert(decided(id, *request, kept));
            (Ok(finish_publication(step, run_id, current)), Ghost(kept))
        },
        Err(error) => {
            let ghost refused = RunTrace { end: Ended::Refused(x3), ..pointer };
            assert(run_script(id, sides, refused) == run_script(id, sides, pointer));
            assert(decided(id, *request, refused));
            (Err(error), Ghost(refused))
        },
    }
}

/// Read the rows of the products beside the run.
fn read_rows(products: &PublicationProducts, reads: &ProductReads) -> (outcome: Result<SideRows>)
    ensures
        outcome is Ok <==> rows_readable(*products, *reads),
        match outcome {
            Ok(rows) => rows_are(rows, *products, *reads),
            Err(error) => error is Invalid,
        },
{
    let mut leaves: Vec<FlexibleLeaf> = Vec::new();
    let mut validation_sha256: String = "".to_owned();
    if let Some(flexible) = products.flexible {
        leaves = match read_flexible_distinct_leaves(flexible.product, reads.flexible.leaves) {
            Ok(leaves) => leaves,
            Err(error) => {
                return Err(error);
            },
        };
        assert(leaf_views(leaves@).len() == leaves@.len());
        validation_sha256 = flexible.validation_evidence_sha256.to_owned();
    }
    let days: SemanticDays = match products.semantic {
        Some(semantic) => list_days(&semantic.product.evidence.rollups),
        None => SemanticDays {
            engagement: Vec::new(),
            longform: Vec::new(),
            zaps: Vec::new(),
        },
    };
    let mut ranking: Vec<PublisherRankingRow> = Vec::new();
    if let Some(publisher) = products.publisher {
        ranking = match read_publisher_ranking_rows(publisher, reads.ranking) {
            Ok(rows) => rows,
            Err(error) => {
                return Err(error);
            },
        };
    }
    Ok(
        SideRows {
            leaves,
            validated: ValidatedFlexibleDistinctPublication { validation_sha256 },
            days,
            ranking,
        },
    )
}

/// List the products beside the run.
fn list_entries<'a>(products: &PublicationProducts<'a>, rows: &'a SideRows, run_id: &str) -> (
    entries: Vec<SideEntry<'a>>)
    requires
        products.semantic matches Some(semantic) ==> lists_days(
            rows.days,
            semantic.product.evidence.rollups,
        ),
    ensures
        entries_of(entries@) == sides_of(*products, rows, run_id@),
        forall|i: int| 0 <= i < entries@.len() ==> item_holds((#[trigger] entries@[i]).item),
{
    let mut entries: Vec<SideEntry<'a>> = Vec::new();
    if let Some(flexible) = products.flexible {
        entries.push(
            SideEntry {
                item: SideItem::Flexible(flexible.product, &rows.leaves, &rows.validated),
                parent: run_id.to_owned(),
            },
        );
    }
    if let Some(semantic) = products.semantic {
        entries.push(
            SideEntry {
                item: SideItem::Semantic(semantic.product, &rows.days),
                parent: run_id.to_owned(),
            },
        );
        entries.push(
            SideEntry {
                item: SideItem::Zap(semantic.zap_distinct),
                parent: semantic_product_id(run_id, semantic.product),
            },
        );
    }
    if let Some(relay) = products.relay {
        entries.push(SideEntry { item: SideItem::Relay(relay), parent: run_id.to_owned() });
    }
    if let Some(publisher) = products.publisher {
        entries.push(
            SideEntry {
                item: SideItem::Ranking(publisher, &rows.ranking),
                parent: run_id.to_owned(),
            },
        );
    }
    assert(entries_of(entries@) =~= sides_of(*products, rows, run_id@));
    entries
}

/// What the publication of a build and its products comes to.
pub open spec fn publishes<
    X,
    B: FnOnce() -> Result<X>,
    F: Fn(X, &LedgerRequest) -> (X, Result<LedgerReply>),
    K: Fn(X) -> Result<()>,
    R: Fn(X),
>(
    begin: B,
    ledger: Ledger<F, K, R>,
    request: RunRequest,
    products: PublicationProducts,
    reads: ProductReads,
    zap: Option<ZapRevalidation>,
    outcome: Result<PublishOutcome>,
) -> bool {
    if !products_fit(request.generation, products, reads, zap) {
        outcome is Err && reports(
            Err(outcome->Err_0),
            products_refusal(request.generation, products, reads, zap),
        )
    } else if !rows_readable(products, reads) {
        outcome is Err && outcome->Err_0 is Invalid
    } else {
        exists|rows: SideRows, made: RunTrace<X>| #[trigger]
            publishes_run(
                begin,
                ledger,
                request,
                products,
                sides_of(products, &rows, identity_of(request, products)),
                made,
                outcome,
            ) && rows_are(rows, products, reads)
    }
}

/// Publish a build and its products as one run.
///
/// `begin` opens the transaction. `zap` is what the participants were rebuilt
/// to, where they take part.
pub fn publish_kind<
    X,
    B: FnOnce() -> Result<X>,
    F: Fn(X, &LedgerRequest) -> (X, Result<LedgerReply>),
    K: Fn(X) -> Result<()>,
    R: Fn(X),
>(
    request: &RunRequest,
    products: PublicationProducts,
    reads: ProductReads,
    zap: Option<ZapRevalidation>,
    begin: B,
    ledger: &Ledger<F, K, R>,
) -> (outcome: Result<PublishOutcome>)
    requires
        products.activity is Some ==> weeks_defined(
            reads.activity@,
            products.activity->0.evidence.as_of_epoch as int,
        ),
        products.semantic is Some && zap is Some ==> {
            let evidence = products.semantic->0.zap_distinct.evidence;
            &&& zap->0.chunk_checkpoints@.len() == evidence.chunk_checkpoints@.len()
            &&& zap->0.merge_checkpoints@.len() == evidence.merge_checkpoints@.len()
        },
        call_requires(begin, ()),
        ledger_callable::<X, F, K, R>(*ledger),
    ensures
        publishes(begin, *ledger, *request, products, reads, zap, outcome),
{
    match validate_products(request.generation, products, reads, zap) {
        Ok(()) => {},
        Err(error) => {
            return Err(error);
        },
    }
    let rows: SideRows = match read_rows(&products, &reads) {
        Ok(rows) => rows,
        Err(error) => {
            return Err(error);
        },
    };
    let run_id: String = run_id(
        request.generation,
        request.versions,
        request.code_version,
        &products,
    );
    let entries: Vec<SideEntry> = list_entries(&products, &rows, run_id.as_str());
    let (outcome, Ghost(made)) = run_transaction(
        begin,
        ledger,
        request,
        &products,
        run_id,
        &entries,
    );
    assert(publishes_run(
        begin,
        *ledger,
        *request,
        products,
        sides_of(products, &rows, identity_of(*request, products)),
        made,
        outcome,
    ));
    outcome
}

} // verus!
