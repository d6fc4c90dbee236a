//! What the scans of a source keep and count, and how a source is cut.

use vstd::prelude::*;

use crate::activity_build::{scan_activity, scan_step, scanned_activity_record, ScannedActivity};
use crate::artifact::EncodedRun;
use crate::bytes::{be_bytes, lemma_lex_antisymmetric, lemma_lex_transitive, lex_less};
use crate::error::Result;
use crate::first_seen_build::{scan_first_seen, ScannedFirstSeen};
use crate::flexible_build::{is_chunk, plan_source_chunks, SourceChunk};
use crate::merge::div_up;
use crate::records::record;
use crate::relay_build::{
    eligible_count, memberships_among, state_totals, winners_among, BatchStats, CandidateTotals,
};
use crate::relay_distribution::{relay_tags, valid_tags};
use crate::relay_rows::{ids_differ, is_eligible, is_winner, lemma_one_winner, RelayCandidate};
use crate::relay_scan::{scans_rows, takes_row, ScannedRelayRow};
use crate::serving_facts::{scan_content_facts, scanned_record, unique_content, ScannedContent};
use crate::words::{cut, lemma_records_are_cut, lemma_written_big_endian, word16, word32, word64};

verus! {

/// A scan of activity writes its rows one behind the other: the publisher, the
/// second, the kind and the event. It refuses rows that do not increase.
pub proof fn lemma_activity_rows_are_written(
    rows: &Vec<ScannedActivity>,
    outcome: Result<EncodedRun>,
    i: int,
    j: int,
)
    requires
        call_ensures(scan_activity, (rows,), outcome),
        outcome is Ok,
        0 <= i < rows@.len(),
    ensures
        ({
            let records = cut(outcome->Ok_0.bytes@, 70);
            &&& records.len() == rows@.len()
            &&& records[i].subrange(0, 32) == rows@[i].pubkey@
            &&& word32(records[i], 32) == rows@[i].created_at
            &&& word16(records[i], 36) == rows@[i].kind
            &&& records[i].subrange(38, 70) == rows@[i].id@
            &&& i < j < rows@.len() ==> lex_less(records[i], records[j])
        }),
    decreases j,
{
    let bytes = outcome->Ok_0.bytes@;
    lemma_records_are_cut(bytes, 70);
    lemma_written_big_endian(rows@[i].created_at as nat);
    lemma_written_big_endian(rows@[i].kind as nat);
    let row = record(bytes, 70, i);
    assert(row == scanned_activity_record(rows@[i]));
    assert(row.subrange(0, 32) =~= rows@[i].pubkey@);
    assert(row.subrange(38, 70) =~= rows@[i].id@);
    let second = be_bytes(rows@[i].created_at as nat, 4);
    let kind = be_bytes(rows@[i].kind as nat, 2);
    assert(forall|k: int| 0 <= k < 4 ==> row[32 + k] == second[k]);
    assert(forall|k: int| 0 <= k < 2 ==> row[36 + k] == kind[k]);
    if i < j < rows@.len() {
        assert(scan_step(rows@, j));
        if i < j - 1 {
            lemma_activity_rows_are_written(rows, outcome, i, j - 1);
            lemma_lex_transitive(
                scanned_activity_record(rows@[i]),
                scanned_activity_record(rows@[j - 1]),
                scanned_activity_record(rows@[j]),
            );
        }
    }
}

/// A scan of first seconds writes every publisher once, in order, with its
/// second behind.
pub proof fn lemma_first_seconds_are_written(
    rows: &Vec<ScannedFirstSeen>,
    outcome: Result<EncodedRun>,
    i: int,
    j: int,
)
    requires
        call_ensures(scan_first_seen, (rows,), outcome),
        outcome is Ok,
        0 <= i < rows@.len(),
    ensures
        ({
            let records = cut(outcome->Ok_0.bytes@, 40);
            &&& records.len() == rows@.len()
            &&& records[i].subrange(0, 32) == rows@[i].pubkey@
            &&& word64(records[i], 32) == rows@[i].first_seen
            &&& i < j < rows@.len() ==> lex_less(rows@[i].pubkey@, rows@[j].pubkey@)
        }),
    decreases j,
{
    let bytes = outcome->Ok_0.bytes@;
    lemma_records_are_cut(bytes, 40);
    lemma_written_big_endian(rows@[i].first_seen as nat);
    let row = record(bytes, 40, i);
    assert(row == crate::first_seen_build::scanned_seen_record(rows@[i]));
    assert(row.subrange(0, 32) =~= rows@[i].pubkey@);
    let second = be_bytes(rows@[i].first_seen as nat, 8);
    assert(forall|k: int| 0 <= k < 8 ==> row[32 + k] == second[k]);
    if i < j < rows@.len() {
        assert(crate::first_seen_build::scan_step(rows@, j));
        if i < j - 1 {
            lemma_first_seconds_are_written(rows, outcome, i, j - 1);
            lemma_lex_transitive(rows@[i].pubkey@, rows@[j - 1].pubkey@, rows@[j].pubkey@);
        }
    }
}

proof fn lemma_content_is_kept(rows: Seq<ScannedContent>, count: int, i: int)
    requires
        0 <= i < count <= rows.len(),
        crate::serving_facts::scan_agrees(rows),
    ensures
        unique_content(rows, count).contains(scanned_record(rows[i])),
    decreases count,
{
    let earlier = unique_content(rows, count - 1);
    if i < count - 1 {
        lemma_content_is_kept(rows, count - 1, i);
        let k = choose|k: int| 0 <= k < earlier.len() && earlier[k] == scanned_record(rows[i]);
        assert(unique_content(rows, count)[k] == earlier[k]);
    } else if count >= 2 && rows[count - 2].id@ == rows[count - 1].id@ {
        lemma_content_is_kept(rows, count - 1, count - 2);
        assert(crate::serving_facts::scan_step(rows, count - 1));
        if lex_less(rows[count - 2].id@, rows[count - 1].id@) {
            lemma_lex_antisymmetric(rows[count - 2].id@, rows[count - 1].id@);
        }
        assert(scanned_record(rows[count - 2]) == scanned_record(rows[count - 1]));
    } else {
        assert(unique_content(rows, count)[earlier.len() as int] == scanned_record(rows[i]));
    }
}

proof fn lemma_kept_content_is_scanned(rows: Seq<ScannedContent>, count: int, k: int) -> (i: int)
    requires
        0 <= count <= rows.len(),
        0 <= k < unique_content(rows, count).len(),
    ensures
        0 <= i < count,
        unique_content(rows, count)[k] == scanned_record(rows[i]),
        k > 0 ==> i > 0 && rows[i - 1].id@ != rows[i].id@,
        unique_content(rows, count).len() <= count,
    decreases count,
{
    let earlier = unique_content(rows, count - 1);
    if count >= 2 && rows[count - 2].id@ == rows[count - 1].id@ {
        lemma_kept_content_is_scanned(rows, count - 1, k)
    } else if k < earlier.len() {
        lemma_kept_content_is_scanned(rows, count - 1, k)
    } else {
        if earlier.len() > 0 {
            let other = lemma_kept_content_is_scanned(rows, count - 1, 0);
        }
        count - 1
    }
}

/// A scan of content keeps one record for every event, with its identity and
/// its length, and no other record.
pub proof fn lemma_content_is_kept_once(
    objects: usize,
    rows: &Vec<ScannedContent>,
    outcome: Result<EncodedRun>,
    i: int,
    k: int,
)
    requires
        call_ensures(scan_content_facts, (objects, rows), outcome),
        outcome is Ok,
    ensures
        ({
            let records = cut(outcome->Ok_0.bytes@, 40);
            &&& outcome->Ok_0.rows == records.len() <= rows@.len()
            &&& 0 <= i < rows@.len() ==> exists|r: int|
                0 <= r < records.len() && (#[trigger] records[r]).subrange(0, 32) == rows@[i].id@
                    && word64(records[r], 32) == rows@[i].content_bytes
            &&& 0 <= k < records.len() ==> exists|r: int|
                0 <= r < rows@.len() && (#[trigger] rows@[r]).id@ == records[k].subrange(0, 32)
                    && rows@[r].content_bytes == word64(records[k], 32)
        }),
{
    let bytes = outcome->Ok_0.bytes@;
    let records = cut(bytes, 40);
    let unique = unique_content(rows@, rows@.len() as int);
    lemma_records_are_cut(bytes, 40);
    assert(records.len() == unique.len());
    if unique.len() > 0 {
        let first = lemma_kept_content_is_scanned(rows@, rows@.len() as int, 0);
    }
    assert forall|r: int, at: int| 0 <= r < records.len() && 0 <= at < rows@.len() && unique[r]
        == #[trigger] scanned_record(rows@[at]) implies (#[trigger] records[r]).subrange(0, 32)
        == rows@[at].id@ && word64(records[r], 32) == rows@[at].content_bytes by {
        lemma_written_big_endian(rows@[at].content_bytes as nat);
        assert(records[r] == record(bytes, 40, r));
        assert(rows@[at].id@.len() == 32);
        assert(records[r].subrange(0, 32) =~= rows@[at].id@);
        let written = be_bytes(rows@[at].content_bytes as nat, 8);
        assert(forall|n: int| 0 <= n < 8 ==> records[r][32 + n] == written[n]);
    }
    if 0 <= i < rows@.len() {
        lemma_content_is_kept(rows@, rows@.len() as int, i);
        let r = choose|r: int| 0 <= r < unique.len() && unique[r] == scanned_record(rows@[i]);
        assert(records[r].subrange(0, 32) == rows@[i].id@);
    }
    if 0 <= k < records.len() {
        let r = lemma_kept_content_is_scanned(rows@, rows@.len() as int, k);
        assert(records[k].subrange(0, 32) == rows@[r].id@);
    }
}

/// The chunks of a source follow one another without a gap from its first
/// record to its last. Each but the last holds a whole batch.
pub proof fn lemma_chunks_part_the_source(
    total: u64,
    per_batch: u64,
    outcome: Result<Vec<SourceChunk>>,
    i: int,
)
    requires
        call_ensures(plan_source_chunks, (total, per_batch), outcome),
        outcome is Ok,
        per_batch > 0,
        0 <= i < outcome->Ok_0@.len(),
    ensures
        ({
            let chunks = outcome->Ok_0@;
            &&& chunks[0].offset == 0
            &&& 0 < chunks[i].rows <= per_batch
            &&& i + 1 < chunks.len() ==> chunks[i].rows == per_batch && chunks[i + 1].offset
                == chunks[i].offset + chunks[i].rows
            &&& i + 1 == chunks.len() ==> chunks[i].offset + chunks[i].rows == total
        }),
{
    let chunks = outcome->Ok_0@;
    let p = per_batch as int;
    let t = total as int;
    assert(is_chunk(chunks[0], 0, t, p));
    assert(is_chunk(chunks[i], i, t, p));
    vstd::arithmetic::div_mod::lemma_fundamental_div_mod(t, p);
    let q = t / p;
    let m = t % p;
    assert(0 * p == 0);
    if i + 1 < chunks.len() {
        assert(is_chunk(chunks[i + 1], i + 1, t, p));
        assert((i + 1) * p == i * p + p) by (nonlinear_arith);
    } else {
        assert(chunks.len() == div_up(t, p));
        if m == 0 {
            assert(i == q - 1);
            assert(i * p == p * q - p) by (nonlinear_arith)
                requires
                    i == q - 1,
            ;
        } else {
            assert(i == q);
            assert(i * p == p * q) by (nonlinear_arith)
                requires
                    i == q,
            ;
        }
    }
}

/// The publishers with a list up to the boundary.
pub open spec fn listed_by(candidates: Seq<RelayCandidate>, as_of: u64, count: int) -> Set<
    Seq<u8>,
> {
    Set::new(
        |who: Seq<u8>|
            exists|i: int|
                0 <= i < count && is_winner(candidates, as_of, i) && (
                #[trigger] candidates[i]).pubkey@ == who,
    )
}

proof fn lemma_winners_are_publishers(candidates: Seq<RelayCandidate>, as_of: u64, count: int)
    requires
        ids_differ(candidates),
        0 <= count <= candidates.len(),
    ensures
        listed_by(candidates, as_of, count).finite(),
        listed_by(candidates, as_of, count).len() == winners_among(candidates, as_of, count),
    decreases count,
{
    let set = listed_by(candidates, as_of, count);
    if count == 0 {
        assert(set =~= Set::empty());
    } else {
        lemma_winners_are_publishers(candidates, as_of, count - 1);
        let fewer = listed_by(candidates, as_of, count - 1);
        let who = candidates[count - 1].pubkey@;
        if is_winner(candidates, as_of, count - 1) {
            assert(set =~= fewer.insert(who)) by {
                assert(set.contains(who)) by {
                    assert(candidates[count - 1].pubkey@ == who);
                }
            }
            assert(!fewer.contains(who)) by {
                if fewer.contains(who) {
                    let i = choose|i: int|
                        0 <= i < count - 1 && is_winner(candidates, as_of, i) && (
                        #[trigger] candidates[i]).pubkey@ == who;
                    let winner = lemma_one_winner(candidates, as_of, count - 1);
                    assert(i == winner);
                    assert(count - 1 == winner);
                }
            }
        } else {
            assert(set =~= fewer);
        }
    }
}

proof fn lemma_candidates_are_filtered(candidates: Seq<RelayCandidate>, as_of: u64, count: int)
    requires
        0 <= count <= candidates.len(),
    ensures
        eligible_count(candidates, as_of, count) == candidates.take(count).filter(
            |candidate: RelayCandidate| candidate.created_at <= as_of,
        ).len(),
        memberships_among(candidates, count) == candidates.take(count).fold_left(
            0int,
            |sum: int, candidate: RelayCandidate| sum + candidate.memberships@.len(),
        ),
    decreases count,
{
    reveal(Seq::filter);
    if count > 0 {
        lemma_candidates_are_filtered(candidates, as_of, count - 1);
        assert(candidates.take(count).drop_last() =~= candidates.take(count - 1));
    }
}

/// The totals of stored lists count the lists, those up to the boundary, the
/// publishers of these, and the relays that all lists name.
pub proof fn lemma_totals_count_lists(
    candidates: &Vec<RelayCandidate>,
    as_of: u64,
    outcome: Result<CandidateTotals>,
    who: Seq<u8>,
)
    requires
        call_ensures(state_totals, (candidates, as_of), outcome),
        outcome is Ok,
        ids_differ(candidates@),
    ensures
        ({
            let totals = outcome->Ok_0;
            let lists = candidates@;
            let publishers = listed_by(lists, as_of, lists.len() as int);
            &&& totals.candidate_events == lists.len()
            &&& totals.eligible_candidate_events == lists.filter(
                |candidate: RelayCandidate| candidate.created_at <= as_of,
            ).len()
            &&& totals.winning_pubkeys == publishers.len()
            &&& publishers.contains(who) <==> exists|i: int|
                0 <= i < lists.len() && (#[trigger] lists[i]).created_at <= as_of
                    && lists[i].pubkey@ == who
            &&& totals.candidate_memberships == lists.fold_left(
                0int,
                |sum: int, candidate: RelayCandidate| sum + candidate.memberships@.len(),
            )
        }),
{
    let lists = candidates@;
    let n = lists.len() as int;
    assert(lists.take(n) =~= lists);
    lemma_candidates_are_filtered(lists, as_of, n);
    lemma_winners_are_publishers(lists, as_of, n);
    let publishers = listed_by(lists, as_of, n);
    if exists|i: int|
        0 <= i < lists.len() && (#[trigger] lists[i]).created_at <= as_of && lists[i].pubkey@
            == who {
        let i = choose|i: int|
            0 <= i < lists.len() && (#[trigger] lists[i]).created_at <= as_of && lists[i].pubkey@
                == who;
        let winner = lemma_one_winner(lists, as_of, i);
        assert(is_winner(lists, as_of, winner));
        assert(is_eligible(lists, as_of, winner));
        assert(lists[winner].pubkey@ == who);
    }
    if publishers.contains(who) {
        let i = choose|i: int|
            0 <= i < n && is_winner(lists, as_of, i) && (#[trigger] lists[i]).pubkey@ == who;
        assert(is_eligible(lists, as_of, i));
    }
}

/// A scan of relay lists counts every row, and every row of the kind of relay
/// lists.
pub proof fn lemma_scan_counts_rows<N: Fn(&str) -> Option<String>>(
    trail: Seq<(Seq<RelayCandidate>, BatchStats)>,
    normalize: N,
    first: Seq<RelayCandidate>,
    rows: Seq<ScannedRelayRow>,
    count: int,
)
    requires
        scans_rows(trail, normalize, first, rows, count),
    ensures
        trail.last().1.physical_rows == count,
        trail.last().1.physical_relay_events == rows.take(count).filter(
            |row: ScannedRelayRow| row.event.kind == 10_002,
        ).len(),
    decreases count,
{
    reveal(Seq::filter);
    if count > 0 {
        let shorter = trail.drop_last();
        assert forall|i: int| 0 <= i < count - 1 implies takes_row(
            normalize,
            rows[i],
            #[trigger] shorter[i],
            shorter[i + 1],
        ) by {
            assert(takes_row(normalize, rows[i], trail[i], trail[i + 1]));
        }
        lemma_scan_counts_rows(shorter, normalize, first, rows, count - 1);
        assert(takes_row(normalize, rows[count - 1], trail[count - 1], trail[count]));
        assert(rows.take(count).drop_last() =~= rows.take(count - 1));
    } else {
        assert(rows.take(0) =~= Seq::empty());
    }
}

/// The relay tags of a list are those named `r`. The valid ones have an address
/// that is accepted.
pub proof fn lemma_relay_tags_are_filtered(
    tags: Seq<Vec<String>>,
    normalized: Seq<Option<String>>,
    count: int,
)
    requires
        0 <= count <= tags.len() == normalized.len(),
    ensures
        relay_tags(tags, count) == tags.take(count).filter(
            |tag: Vec<String>| tag@.len() > 0 && tag@[0]@ == "r"@,
        ).len(),
        valid_tags(tags, normalized, count) == Seq::new(
            count as nat,
            |i: int| (tags[i]@, normalized[i]),
        ).filter(
            |pair: (Seq<String>, Option<String>)|
                pair.0.len() > 1 && pair.0[0]@ == "r"@ && pair.1 is Some,
        ).len(),
    decreases count,
{
    reveal(Seq::filter);
    let pairs = Seq::new(count as nat, |i: int| (tags[i]@, normalized[i]));
    if count > 0 {
        lemma_relay_tags_are_filtered(tags, normalized, count - 1);
        assert(tags.take(count).drop_last() =~= tags.take(count - 1));
        assert(pairs.drop_last() =~= Seq::new(
            (count - 1) as nat,
            |i: int| (tags[i]@, normalized[i]),
        ));
    }
}

} // verus!
