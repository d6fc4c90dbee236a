//! What names, sizes and boundaries of products say.

use vstd::prelude::*;

use crate::activity_tables::{ActiveUsersPeriod, DistinctPubkeysPeriod};
use crate::bytes::be_bytes;
use crate::disk::{run_budget, run_bytes, DiskBudget, WorkFile};
use crate::error::Result;
use crate::merge::{div_up, generations, total_rows, CompletedRun};
use crate::products::{CohortRetentionPeriod, Generation, PublicationProducts};
use crate::publish::{
    active_sum, activity_accounts, cohort_accounts, distinct_sum, identity_accounts,
    period_zero_rows, run_message, run_parts, PublishedActivity, PublishedCohort,
    PublishedIdentity, QueryVersions,
};
use crate::publisher_artifact::{kind_code, ranking_record};
use crate::publisher_ledger::PublisherRankingRow;
use crate::publisher_product::BoundedPublisherRanking;
use crate::relay_build::BoundedRelayDistribution;
use crate::runs::{append_parts, product_message};
use crate::semantic_build::BoundedSemanticFacts;
use crate::serving_facts::BoundedServingFacts;
use crate::words::{lemma_written_big_endian, word32, word64};
use crate::zap_evidence::BoundedZapDistinct;

verus! {

/// A ranked publisher is written as its window in days, its kind, its key, its
/// events, its kinds, and its first and last second; 65536 stands for all
/// kinds.
pub proof fn lemma_ranking_layout(row: PublisherRankingRow)
    ensures
        ranking_record(row).len() == 64,
        word32(ranking_record(row), 0) == row.days,
        row.kind is None ==> word32(ranking_record(row), 4) == 65_536,
        row.kind is Some ==> word32(ranking_record(row), 4) == row.kind->0,
        ranking_record(row).subrange(8, 40) == row.pubkey@,
        word64(ranking_record(row), 40) == row.event_count,
        word64(ranking_record(row), 48) == row.kinds_count,
        word32(ranking_record(row), 56) == row.first_event,
        word32(ranking_record(row), 60) == row.last_event,
{
    lemma_written_big_endian(row.days as nat);
    lemma_written_big_endian(kind_code(row.kind));
    lemma_written_big_endian(row.event_count as nat);
    lemma_written_big_endian(row.kinds_count as nat);
    lemma_written_big_endian(row.first_event as nat);
    lemma_written_big_endian(row.last_event as nat);
    assert(ranking_record(row).subrange(8, 40) =~= row.pubkey@);
}

/// The texts with a zero byte before each.
pub open spec fn zeroed(a: Seq<char>, b: Seq<char>) -> Seq<u8> {
    seq![0u8] + vstd::utf8::encode_utf8(a) + seq![0u8] + vstd::utf8::encode_utf8(b)
}

/// A digest of two parts covers the prefix and both parts, each behind a zero
/// byte.
pub proof fn lemma_digest_covers_parts(prefix: Seq<char>, a: Seq<char>, b: Seq<char>)
    ensures
        product_message(prefix, seq![a, b]) == vstd::utf8::encode_utf8(prefix) + zeroed(a, b),
{
    reveal_with_fuel(append_parts, 3);
    let parts = seq![a, b];
    assert(parts.drop_last() =~= seq![a]);
    assert(seq![a].drop_last() =~= Seq::<Seq<char>>::empty());
    assert(product_message(prefix, parts) =~= vstd::utf8::encode_utf8(prefix) + zeroed(a, b));
}

/// The names of products cover the run, or the semantic product, and the
/// evidence, under a prefix of their own.
pub proof fn lemma_products_are_named_by_their_evidence(
    run_id: Seq<char>,
    semantic: BoundedSemanticFacts,
    serving: BoundedServingFacts,
    ranking: BoundedPublisherRanking,
    relay: BoundedRelayDistribution,
    zap: BoundedZapDistinct,
)
    ensures
        crate::publish_semantic::product_of(run_id, semantic) == crate::digest::sha256_text(
            vstd::utf8::encode_utf8("pensieve-semantic-product-v2"@) + zeroed(
                run_id,
                semantic.evidence_sha256@,
            ),
        ),
        crate::publish_serving::product_of(run_id, serving) == crate::digest::sha256_text(
            vstd::utf8::encode_utf8("pensieve-serving-facts-product-v1"@) + zeroed(
                run_id,
                serving.evidence_sha256@,
            ),
        ),
        crate::publish_ranking::product_of(run_id, ranking) == crate::digest::sha256_text(
            vstd::utf8::encode_utf8("pensieve-publisher-ranking-product-v1"@) + zeroed(
                run_id,
                ranking.evidence_sha256@,
            ),
        ),
        crate::publish_relay::product_of(run_id, relay) == crate::digest::sha256_text(
            vstd::utf8::encode_utf8("pensieve-relay-distribution-product-v1"@) + zeroed(
                run_id,
                relay.evidence_sha256@,
            ),
        ),
        crate::publish_zap::product_of(run_id, zap) == crate::digest::sha256_text(
            vstd::utf8::encode_utf8("pensieve-zap-distinct-product-v1"@) + zeroed(
                run_id,
                zap.evidence_sha256@,
            ),
        ),
{
    lemma_digest_covers_parts(
        "pensieve-semantic-product-v2"@,
        run_id,
        semantic.evidence_sha256@,
    );
    lemma_digest_covers_parts(
        "pensieve-serving-facts-product-v1"@,
        run_id,
        serving.evidence_sha256@,
    );
    lemma_digest_covers_parts(
        "pensieve-publisher-ranking-product-v1"@,
        run_id,
        ranking.evidence_sha256@,
    );
    lemma_digest_covers_parts(
        "pensieve-relay-distribution-product-v1"@,
        run_id,
        relay.evidence_sha256@,
    );
    lemma_digest_covers_parts("pensieve-zap-distinct-product-v1"@, run_id, zap.evidence_sha256@);
}

/// Texts, each behind a zero byte.
pub open spec fn all_zeroed(texts: Seq<Seq<char>>) -> Seq<u8>
    decreases texts.len(),
{
    if texts.len() == 0 {
        Seq::empty()
    } else {
        all_zeroed(texts.drop_last()) + seq![0u8] + vstd::utf8::encode_utf8(texts.last())
    }
}

proof fn lemma_appended(head: Seq<u8>, texts: Seq<Seq<char>>)
    ensures
        append_parts(head, texts) == head + all_zeroed(texts),
    decreases texts.len(),
{
    if texts.len() == 0 {
        assert(head + all_zeroed(texts) =~= head);
    } else {
        lemma_appended(head, texts.drop_last());
        assert(append_parts(head, texts) =~= head + all_zeroed(texts));
    }
}

/// The name of a run covers its snapshot, its boundary in eight bytes, its query
/// version, its code version, and the digests of its products. The version is
/// that of the highest product: cohorts, activity, publishers, or none.
pub proof fn lemma_run_is_named_by_its_inputs(
    generation: Generation,
    versions: QueryVersions,
    code_version: Seq<char>,
    products: PublicationProducts,
)
    ensures
        run_message(generation, versions, code_version, products) == vstd::utf8::encode_utf8(
            generation.snapshot_id@,
        ) + seq![0u8] + be_bytes(generation.as_of_epoch as nat, 8) + all_zeroed(
            run_parts(versions, code_version, products),
        ),
        ({
            let parts = run_parts(versions, code_version, products);
            &&& parts.len() >= 2
            &&& products.cohort is Some ==> parts[0] == versions.cohort@
            &&& products.cohort is None && products.activity is Some ==> parts[0]
                == versions.activity@
            &&& products.cohort is None && products.activity is None && products.identity is Some
                ==> parts[0] == versions.identity@
            &&& products.cohort is None && products.activity is None && products.identity is None
                ==> parts[0] == versions.base@
            &&& parts[1] == code_version
            &&& products.identity is Some ==> parts.contains(
                products.identity->0.evidence_sha256@,
            ) && parts.contains(products.identity->0.evidence.metric_sha256@) && parts.contains(
                products.identity->0.evidence.final_artifact.sha256@,
            )
            &&& products.activity is Some ==> parts.contains(
                products.activity->0.evidence_sha256@,
            ) && parts.contains(products.activity->0.evidence.metric_sha256@) && parts.contains(
                products.activity->0.evidence.activity_artifact.sha256@,
            ) && parts.contains(products.activity->0.evidence.flags_artifact.sha256@)
            &&& products.cohort is Some ==> parts.contains(
                products.cohort->0.evidence_sha256@,
            ) && parts.contains(products.cohort->0.evidence.metric_sha256@)
        }),
{
    let parts = run_parts(versions, code_version, products);
    let head = vstd::utf8::encode_utf8(generation.snapshot_id@).push(0u8) + be_bytes(
        generation.as_of_epoch as nat,
        8,
    );
    lemma_appended(head, parts);
    assert(run_message(generation, versions, code_version, products) =~= vstd::utf8::encode_utf8(
        generation.snapshot_id@,
    ) + seq![0u8] + be_bytes(generation.as_of_epoch as nat, 8) + all_zeroed(parts));
    let i: int = 2;
    let a: int = if products.identity is Some {
        i + 3
    } else {
        i
    };
    let c: int = if products.activity is Some {
        a + 4
    } else {
        a
    };
    if products.identity is Some {
        let product = *products.identity->0;
        assert(parts[i] == product.evidence_sha256@);
        assert(parts[i + 1] == product.evidence.metric_sha256@);
        assert(parts[i + 2] == product.evidence.final_artifact.sha256@);
    }
    if products.activity is Some {
        let product = *products.activity->0;
        assert(parts[a] == product.evidence_sha256@);
        assert(parts[a + 1] == product.evidence.metric_sha256@);
        assert(parts[a + 2] == product.evidence.activity_artifact.sha256@);
        assert(parts[a + 3] == product.evidence.flags_artifact.sha256@);
    }
    if products.cohort is Some {
        let product = *products.cohort->0;
        assert(parts[c] == product.evidence_sha256@);
        assert(parts[c + 1] == product.evidence.metric_sha256@);
    }
}

/// Published estimates are asked for whole hours up to the boundary, those of
/// zap participants for whole days and at least one.
pub proof fn lemma_published_windows_are_whole(
    since: u64,
    until: u64,
    through: u64,
    hours: Result<()>,
    days: Result<()>,
)
    requires
        call_ensures(crate::flexible_publish::validate_window, (since, until, through), hours),
        call_ensures(crate::zap_publish::validate_window, (since, until, through), days),
    ensures
        hours is Ok <==> {
            &&& exists|n: int| since == #[trigger] (3_600 * n)
            &&& exists|n: int| until == #[trigger] (3_600 * n)
            &&& since <= until <= through
        },
        days is Ok <==> {
            &&& exists|n: int| since == #[trigger] (86_400 * n)
            &&& exists|n: int| until == #[trigger] (86_400 * n)
            &&& since < until <= through
        },
{
    assert(since == 3_600 * (since as int / 3_600) + since as int % 3_600);
    assert(until == 3_600 * (until as int / 3_600) + until as int % 3_600);
    assert(since == 86_400 * (since as int / 86_400) + since as int % 86_400);
    assert(until == 86_400 * (until as int / 86_400) + until as int % 86_400);
}

/// Stored tables are accepted only where they hold the rows and sums of the
/// products of the run, and nothing for products without a part in it.
pub proof fn lemma_stored_tables_hold_the_products(
    identity: PublishedIdentity,
    activity: PublishedActivity,
    cohort: PublishedCohort,
    products: PublicationProducts,
)
    ensures
        identity_accounts(identity, products) ==> match products.identity {
            Some(product) => {
                &&& identity.eligible_pubkeys == product.evidence.eligible_pubkeys
                &&& identity.total_pubkeys == product.evidence.eligible_pubkeys
                &&& identity.table_sum == product.evidence.eligible_pubkeys
                &&& identity.table_rows == product.evidence.new_users_daily@.len()
                &&& identity.new_users_daily_rows == product.evidence.new_users_daily@.len()
            },
            None => identity.eligible_pubkeys == 0 && identity.total_pubkeys == 0
                && identity.table_sum == 0 && identity.table_rows == 0,
        },
        activity_accounts(activity, products) ==> match products.activity {
            Some(product) => {
                &&& activity.distinct_rows == product.evidence.distinct_period_rows
                &&& activity.distinct_table_rows == product.evidence.distinct_period_rows
                &&& activity.active_rows == product.evidence.active_period_rows
                &&& activity.active_table_rows == product.evidence.active_period_rows
                &&& activity.distinct_sum == distinct_sum(product.evidence.distinct_pubkeys@)
                &&& activity.active_sum == active_sum(product.evidence.active_users@)
            },
            None => activity.distinct_table_rows == 0 && activity.active_table_rows == 0
                && activity.distinct_sum == 0 && activity.active_sum == 0,
        },
        cohort_accounts(cohort, products) ==> match products.cohort {
            Some(product) => {
                &&& cohort.rows == product.evidence.period_rows
                &&& cohort.table_rows == product.evidence.period_rows
                &&& cohort.table_sum == product.evidence.active_pubkeys_sum
                &&& cohort.period_zero_rows == period_zero_rows(product.evidence.periods@)
            },
            None => cohort.rows == 0 && cohort.table_rows == 0 && cohort.table_sum == 0
                && cohort.period_zero_rows == 0,
        },
{
}

/// The sums add up the publishers of every row, and rows of the first period
/// are those of a cohort in the period of its start.
pub proof fn lemma_published_sums_add_rows(
    distinct: Seq<DistinctPubkeysPeriod>,
    one: DistinctPubkeysPeriod,
    active: Seq<ActiveUsersPeriod>,
    users: ActiveUsersPeriod,
    cohorts: Seq<CohortRetentionPeriod>,
    cohort: CohortRetentionPeriod,
)
    ensures
        distinct_sum(Seq::empty()) == 0,
        distinct_sum(distinct.push(one)) == distinct_sum(distinct) + one.unique_pubkeys,
        active_sum(Seq::empty()) == 0,
        active_sum(active.push(users)) == active_sum(active) + users.active_users,
        period_zero_rows(Seq::empty()) == 0,
        period_zero_rows(cohorts.push(cohort)) == period_zero_rows(cohorts) + if cohort.cohort_start@
            == cohort.activity_period@ {
            1int
        } else {
            0
        },
{
    assert(distinct.push(one).drop_last() =~= distinct);
    assert(active.push(users).drop_last() =~= active);
    assert(cohorts.push(cohort).drop_last() =~= cohorts);
}

/// What a build may still write is its estimate less what it has, and never
/// less than nothing; only files of runs, and of leaves where they count, are
/// what it has.
pub proof fn lemma_budgets_count_runs(
    estimate: u64,
    retained: u64,
    reserve: u64,
    budget: DiskBudget,
    files: Seq<WorkFile>,
    file: WorkFile,
    with_leaves: bool,
)
    requires
        call_ensures(run_budget, (estimate, retained, reserve), budget),
    ensures
        retained <= estimate ==> budget.output_bytes + retained == estimate,
        retained > estimate ==> budget.output_bytes == 0,
        budget.retained_bytes == retained,
        budget.reserve_bytes == reserve,
        budget.temporary_bytes == 0,
        run_bytes(Seq::empty(), with_leaves) == 0,
        run_bytes(files.push(file), with_leaves) == run_bytes(files, with_leaves) + match file.extension {
            Some(name) => if name@ == "run"@ || (with_leaves && name@ == "leaves"@) {
                file.byte_size as int
            } else {
                0
            },
            None => 0,
        },
{
    assert(files.push(file).drop_last() =~= files);
}

/// So many runs need just so many groups; and merging writes every row once for
/// each round and once at first.
pub proof fn lemma_rounds_shrink_runs(runs: int, fan_in: int)
    requires
        0 <= runs,
        2 <= fan_in,
    ensures
        fan_in * div_up(runs, fan_in) >= runs,
        fan_in * (div_up(runs, fan_in) - 1) < runs,
        runs <= 1 ==> generations(runs, fan_in) == 1,
        runs > 1 ==> generations(runs, fan_in) == 1 + generations(div_up(runs, fan_in), fan_in),
{
    vstd::arithmetic::div_mod::lemma_fundamental_div_mod(runs, fan_in);
    vstd::arithmetic::div_mod::lemma_mod_bound(runs, fan_in);
    let q = runs / fan_in;
    assert(fan_in * (q + 1) == fan_in * q + fan_in) by (nonlinear_arith);
    assert(fan_in * (q - 1) == fan_in * q - fan_in) by (nonlinear_arith);
    if runs > 1 {
        crate::merge::lemma_round_shrinks(runs, fan_in);
    }
}

/// Rows of runs add up.
pub proof fn lemma_rows_add_up(runs: Seq<CompletedRun>, run: CompletedRun)
    ensures
        total_rows(Seq::empty()) == 0,
        total_rows(runs.push(run)) == total_rows(runs) + run.checkpoint.artifact.row_count,
{
    assert(runs.push(run).drop_last() =~= runs);
}

} // verus!
