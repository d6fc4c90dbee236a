//! The relay lists that a scan adds to the state.
//!
//! The state keeps one candidate for every event ID, by increasing ID. A row
//! with a known ID has to repeat the candidate's publisher and time. Its tags are
//! counted like those of every other row, and it is not kept.

use vstd::prelude::*;
use vstd::string::*;

use crate::bytes::{
    bytes_equal, bytes_less, lemma_lex_antisymmetric, lemma_lex_total, lemma_lex_transitive,
    lex_less,
};
use crate::error::{Error, Result};
use crate::relay_build::{
    admit_event, check_duplicate, count_tags, decode_tags, is_whole, json_tags, no_stats,
    tag_views, BatchStats, RelayListKey, ScannedRelayEvent,
};
use crate::relay_distribution::{
    are_memberships, is_relay_tag, relay_tags, tag_is_relay, valid_tags, RelayMembership,
};
use crate::relay_rows::{id_at, ids_differ, RelayCandidate};

verus! {

/// One row of a scan, with its tags as JSON.
#[derive(Clone, Debug, PartialEq, Eq)]
pub struct ScannedRelayRow {
    /// The event.
    pub event: ScannedRelayEvent,
    /// Its tags.
    pub tags_json: String,
}

/// Event IDs strictly increase.
pub open spec fn ids_increase(candidates: Seq<RelayCandidate>) -> bool {
    forall|i: int, j: int|
        0 <= i < j < candidates.len() ==> lex_less(
            #[trigger] id_at(candidates, i),
            #[trigger] id_at(candidates, j),
        )
}

/// Increasing IDs differ.
pub proof fn lemma_increasing_ids_differ(candidates: Seq<RelayCandidate>)
    requires
        ids_increase(candidates),
    ensures
        ids_differ(candidates),
{
    assert forall|i: int, j: int| 0 <= i < j < candidates.len() implies #[trigger] id_at(
        candidates,
        i,
    ) != #[trigger] id_at(candidates, j) by {
        lemma_lex_antisymmetric(id_at(candidates, i), id_at(candidates, j));
    }
}

/// Candidate `i` has the ID.
pub open spec fn is_known(candidates: Seq<RelayCandidate>, id: Seq<u8>, i: int) -> bool {
    0 <= i < candidates.len() && id_at(candidates, i) == id
}

/// Some candidate has the ID.
pub open spec fn has_id(candidates: Seq<RelayCandidate>, id: Seq<u8>) -> bool {
    exists|i: int| #[trigger] is_known(candidates, id, i)
}

/// The first place whose ID does not sort before `id`.
fn lower_bound(candidates: &Vec<RelayCandidate>, id: &[u8; 32]) -> (place: usize)
    requires
        ids_increase(candidates@),
    ensures
        place <= candidates@.len(),
        forall|i: int| 0 <= i < place ==> lex_less(#[trigger] id_at(candidates@, i), id@),
        forall|i: int|
            place <= i < candidates@.len() ==> !lex_less(#[trigger] id_at(candidates@, i), id@),
{
    let mut low: usize = 0;
    let mut high: usize = candidates.len();
    while low < high
        invariant
            ids_increase(candidates@),
            low <= high <= candidates@.len(),
            forall|i: int| 0 <= i < low ==> lex_less(#[trigger] id_at(candidates@, i), id@),
            forall|i: int|
                high <= i < candidates@.len() ==> !lex_less(
                    #[trigger] id_at(candidates@, i),
                    id@,
                ),
        decreases high - low,
    {
        let middle: usize = low + (high - low) / 2;
        let less: bool = bytes_less(&candidates[middle].event_id, id);
        proof {
            let pivot = id_at(candidates@, middle as int);
            assert forall|i: int| 0 <= i < candidates@.len() implies (less && i <= middle
                ==> lex_less(#[trigger] id_at(candidates@, i), id@)) && (!less && i >= middle
                ==> !lex_less(id_at(candidates@, i), id@)) by {
                if less && i < middle {
                    lemma_lex_transitive(id_at(candidates@, i), pivot, id@);
                }
                if !less && i > middle && lex_less(id_at(candidates@, i), id@) {
                    lemma_lex_transitive(pivot, id_at(candidates@, i), id@);
                }
            }
        }
        if less {
            low = middle + 1;
        } else {
            high = middle;
        }
    }
    low
}

/// `after` holds the candidates of `before` and `candidate`, by increasing ID.
pub open spec fn inserts(
    before: Seq<RelayCandidate>,
    candidate: RelayCandidate,
    after: Seq<RelayCandidate>,
) -> bool {
    ids_increase(after) && exists|place: int|
        0 <= place <= before.len() && after == #[trigger] before.insert(place, candidate)
}

/// Insert a candidate before the first greater ID.
fn insert_candidate(candidates: &mut Vec<RelayCandidate>, place: usize, candidate: RelayCandidate)
    requires
        ids_increase(old(candidates)@),
        place <= old(candidates)@.len(),
        !has_id(old(candidates)@, candidate.event_id@),
        forall|i: int|
            0 <= i < place ==> lex_less(
                #[trigger] id_at(old(candidates)@, i),
                candidate.event_id@,
            ),
        forall|i: int|
            place <= i < old(candidates)@.len() ==> !lex_less(
                #[trigger] id_at(old(candidates)@, i),
                candidate.event_id@,
            ),
    ensures
        inserts(old(candidates)@, candidate, final(candidates)@),
{
    let ghost before = candidates@;
    candidates.insert(place, candidate);
    proof {
        let after = candidates@;
        let id = candidate.event_id@;
        assert(after == before.insert(place as int, candidate));
        assert forall|i: int| place <= i < before.len() implies lex_less(
            id,
            #[trigger] id_at(before, i),
        ) by {
            lemma_lex_total(id, id_at(before, i));
            assert(!is_known(before, id, i));
        }
        assert forall|i: int, j: int| 0 <= i < j < after.len() implies lex_less(
            #[trigger] id_at(after, i),
            #[trigger] id_at(after, j),
        ) by {
            let from = if i < place {
                i
            } else {
                i - 1
            };
            let to = if j < place {
                j
            } else {
                j - 1
            };
            if i != place {
                assert(id_at(after, i) == id_at(before, from));
            }
            if j != place {
                assert(id_at(after, j) == id_at(before, to));
            }
        }
    }
}

/// `out` is what the URL is normalized to.
pub open spec fn url_gives<N: Fn(&str) -> Option<String>>(
    normalize: N,
    url: Seq<char>,
    out: Option<String>,
) -> bool {
    exists|text: &str| text@ == url && #[trigger] call_ensures(normalize, (text,), out)
}

/// `normalized` is what the URLs of the relay tags are normalized to.
pub open spec fn normalizes<N: Fn(&str) -> Option<String>>(
    normalize: N,
    tags: Seq<Vec<String>>,
    normalized: Seq<Option<String>>,
) -> bool {
    &&& normalized.len() == tags.len()
    &&& forall|i: int|
        0 <= i < tags.len() ==> if is_relay_tag(tags[i]@) && tags[i]@.len() > 1 {
            url_gives(normalize, tags[i]@[1]@, #[trigger] normalized[i])
        } else {
            normalized[i] is None
        }
}

/// Normalize the URLs of the relay tags.
fn normalize_tags<N: Fn(&str) -> Option<String>>(tags: &Vec<Vec<String>>, normalize: &N) -> (
    normalized: Vec<Option<String>>)
    requires
        forall|url: &str| #[trigger] call_requires(*normalize, (url,)),
    ensures
        normalizes(*normalize, tags@, normalized@),
{
    let mut normalized: Vec<Option<String>> = Vec::new();
    let mut i: usize = 0;
    while i < tags.len()
        invariant
            i <= tags@.len(),
            forall|url: &str| #[trigger] call_requires(*normalize, (url,)),
            normalized@.len() == i,
            forall|j: int|
                0 <= j < i ==> if is_relay_tag(tags@[j]@) && tags@[j]@.len() > 1 {
                    url_gives(*normalize, tags@[j]@[1]@, #[trigger] normalized@[j])
                } else {
                    normalized@[j] is None
                },
        decreases tags.len() - i,
    {
        let tag: &Vec<String> = &tags[i];
        if tag_is_relay(tag) && tag.len() > 1 {
            let url: &str = tag[1].as_str();
            let out: Option<String> = normalize(url);
            assert(url_gives(*normalize, tags@[i as int]@[1]@, out));
            normalized.push(out);
        } else {
            normalized.push(None);
        }
        i += 1;
    }
    normalized
}

/// The row is a relay list with the candidate's ID, and repeats it.
pub open spec fn repeats(row: ScannedRelayRow, candidate: RelayCandidate) -> bool {
    &&& candidate.event_id@ == row.event.event_id@
    &&& candidate.pubkey@ == row.event.pubkey@
    &&& candidate.created_at == row.event.created_at
}

/// `candidate` is the relay list of a row with the tags.
pub open spec fn is_list(
    candidate: RelayCandidate,
    row: ScannedRelayRow,
    tags: Seq<Vec<String>>,
    normalized: Seq<Option<String>>,
) -> bool {
    repeats(row, candidate) && are_memberships(candidate.memberships@, tags, normalized)
}

/// The row has the tags, and their URLs are normalized.
pub open spec fn reads_tags<N: Fn(&str) -> Option<String>>(
    normalize: N,
    row: ScannedRelayRow,
    tags: Seq<Vec<String>>,
    normalized: Seq<Option<String>>,
) -> bool {
    json_tags(row.tags_json@) == Some(tag_views(tags)) && normalizes(normalize, tags, normalized)
}

/// `after` counts one more row than `before`, and `lists` more relay lists.
pub open spec fn counts_row(before: BatchStats, after: BatchStats, lists: int) -> bool {
    &&& after.physical_rows == before.physical_rows + 1
    &&& after.physical_relay_events == before.physical_relay_events + lists
}

/// `after` counts the same tags as `before`.
pub open spec fn same_tags(before: BatchStats, after: BatchStats) -> bool {
    &&& after.raw_relay_tags == before.raw_relay_tags
    &&& after.invalid_relay_tags == before.invalid_relay_tags
    &&& after.duplicate_relay_tags == before.duplicate_relay_tags
}

/// `after` counts the tags of a relay list behind `before`.
pub open spec fn adds_tags(
    before: BatchStats,
    after: BatchStats,
    tags: Seq<Vec<String>>,
    normalized: Seq<Option<String>>,
    memberships: int,
) -> bool {
    let raw = relay_tags(tags, tags.len() as int);
    let valid = valid_tags(tags, normalized, tags.len() as int);
    &&& after.raw_relay_tags == before.raw_relay_tags + raw
    &&& after.invalid_relay_tags == before.invalid_relay_tags + raw - valid
    &&& after.duplicate_relay_tags == before.duplicate_relay_tags + valid - memberships
}

/// The tags of a relay list are counted.
pub open spec fn counts_list<N: Fn(&str) -> Option<String>>(
    normalize: N,
    row: ScannedRelayRow,
    before: BatchStats,
    after: BatchStats,
    tags: Seq<Vec<String>>,
    normalized: Seq<Option<String>>,
    memberships: Seq<RelayMembership>,
) -> bool {
    &&& reads_tags(normalize, row, tags, normalized)
    &&& are_memberships(memberships, tags, normalized)
    &&& adds_tags(before, after, tags, normalized, memberships.len() as int)
}

/// A new relay list is kept with its memberships and its tags are counted.
pub open spec fn adds_list<N: Fn(&str) -> Option<String>>(
    normalize: N,
    row: ScannedRelayRow,
    before: (Seq<RelayCandidate>, BatchStats),
    after: (Seq<RelayCandidate>, BatchStats),
    tags: Seq<Vec<String>>,
    normalized: Seq<Option<String>>,
    candidate: RelayCandidate,
) -> bool {
    &&& reads_tags(normalize, row, tags, normalized)
    &&& is_list(candidate, row, tags, normalized)
    &&& inserts(before.0, candidate, after.0)
    &&& adds_tags(before.1, after.1, tags, normalized, candidate.memberships@.len() as int)
}

/// `after` is what a row makes of the candidates and the counts `before`.
pub open spec fn takes_row<N: Fn(&str) -> Option<String>>(
    normalize: N,
    row: ScannedRelayRow,
    before: (Seq<RelayCandidate>, BatchStats),
    after: (Seq<RelayCandidate>, BatchStats),
) -> bool {
    if row.event.kind != 10_002 {
        after.0 == before.0 && counts_row(before.1, after.1, 0) && same_tags(before.1, after.1)
    } else {
        &&& is_whole(row.event)
        &&& counts_row(before.1, after.1, 1)
        &&& if has_id(before.0, row.event.event_id@) {
            &&& after.0 == before.0
            &&& exists|i: int| #[trigger]
                is_known(before.0, row.event.event_id@, i) && repeats(row, before.0[i])
            &&& exists|
                tags: Seq<Vec<String>>,
                normalized: Seq<Option<String>>,
                memberships: Seq<RelayMembership>,
            | #[trigger]
                counts_list(
                    normalize,
                    row,
                    before.1,
                    after.1,
                    tags,
                    normalized,
                    memberships,
                )
        } else {
            exists|
                tags: Seq<Vec<String>>,
                normalized: Seq<Option<String>>,
                candidate: RelayCandidate,
            | #[trigger]
                adds_list(normalize, row, before, after, tags, normalized, candidate)
        }
    }
}

/// The tags of a relay list cannot be counted behind `stats`.
pub open spec fn tags_overflow(
    stats: BatchStats,
    tags: Seq<Vec<String>>,
    normalized: Seq<Option<String>>,
) -> bool {
    let raw = relay_tags(tags, tags.len() as int);
    let valid = valid_tags(tags, normalized, tags.len() as int);
    ||| stats.raw_relay_tags + raw > u64::MAX
    ||| stats.invalid_relay_tags + raw - valid > u64::MAX
    ||| exists|memberships: Seq<RelayMembership>| #[trigger]
        are_memberships(memberships, tags, normalized) && stats.duplicate_relay_tags + valid
            - memberships.len() > u64::MAX
}

/// A row cannot be taken behind the candidates and the counts.
pub open spec fn refuses_row<N: Fn(&str) -> Option<String>>(
    normalize: N,
    row: ScannedRelayRow,
    before: (Seq<RelayCandidate>, BatchStats),
) -> bool {
    ||| before.1.physical_rows == u64::MAX
    ||| row.event.kind == 10_002 && {
        ||| before.1.physical_relay_events == u64::MAX
        ||| !is_whole(row.event)
        ||| exists|i: int| #[trigger]
            is_known(before.0, row.event.event_id@, i) && !repeats(row, before.0[i])
        ||| json_tags(row.tags_json@) is None
        ||| exists|tags: Seq<Vec<String>>, normalized: Seq<Option<String>>| #[trigger]
            reads_tags(normalize, row, tags, normalized) && tags_overflow(
                before.1,
                tags,
                normalized,
            )
    }
}

/// Take one row into the candidates and the counts.
fn take_row<N: Fn(&str) -> Option<String>>(
    candidates: &mut Vec<RelayCandidate>,
    stats: &mut BatchStats,
    row: &ScannedRelayRow,
    normalize: &N,
) -> (outcome: Result<()>)
    requires
        ids_increase(old(candidates)@),
        forall|url: &str| #[trigger] call_requires(*normalize, (url,)),
    ensures
        match outcome {
            Ok(_) => takes_row(
                *normalize,
                *row,
                (old(candidates)@, *old(stats)),
                (final(candidates)@, *final(stats)),
            ) && ids_increase(final(candidates)@),
            Err(error) => error is Invalid && refuses_row(
                *normalize,
                *row,
                (old(candidates)@, *old(stats)),
            ),
        },
{
    let ghost before = (candidates@, *stats);
    let key: RelayListKey = match admit_event(stats, &row.event) {
        Ok(Some(key)) => key,
        Ok(None) => {
            return Ok(());
        },
        Err(error) => {
            return Err(error);
        },
    };
    let place: usize = lower_bound(candidates, &key.event_id);
    let known: bool = place < candidates.len() && bytes_equal(
        &candidates[place].event_id,
        &key.event_id,
    );
    if known {
        let held: &RelayCandidate = &candidates[place];
        assert(is_known(before.0, row.event.event_id@, place as int));
        if held.created_at > i64::MAX as u64 {
            return Err(Error::Invalid("duplicate relay event ID has conflicting canonical fields"));
        }
        match check_duplicate(&key, &held.pubkey, held.created_at as i64) {
            Ok(()) => {},
            Err(error) => {
                return Err(error);
            },
        }
        assert(repeats(*row, before.0[place as int]));
    }
    proof {
        let id = row.event.event_id@;
        if !known {
            assert forall|i: int| !(#[trigger] is_known(before.0, id, i)) by {
                if is_known(before.0, id, i) {
                    lemma_lex_antisymmetric(id, id);
                    if place < i {
                        assert(lex_less(id_at(before.0, place as int), id_at(before.0, i)));
                    }
                }
            }
        }
        assert(known == has_id(before.0, id));
    }
    let tags: Vec<Vec<String>> = match decode_tags(row.tags_json.as_str()) {
        Ok(tags) => tags,
        Err(error) => {
            return Err(error);
        },
    };
    let normalized: Vec<Option<String>> = normalize_tags(&tags, normalize);
    assert(reads_tags(*normalize, *row, tags@, normalized@));
    let memberships: Vec<RelayMembership> = match count_tags(stats, &tags, &normalized) {
        Ok(memberships) => memberships,
        Err(error) => {
            assert(tags_overflow(before.1, tags@, normalized@));
            return Err(error);
        },
    };
    if known {
        assert(counts_list(
            *normalize,
            *row,
            before.1,
            *stats,
            tags@,
            normalized@,
            memberships@,
        ));
        return Ok(());
    }
    let candidate: RelayCandidate = RelayCandidate {
        event_id: key.event_id,
        pubkey: key.pubkey,
        created_at: key.created_at as u64,
        memberships,
    };
    let ghost kept = candidate;
    insert_candidate(candidates, place, candidate);
    assert(adds_list(
        *normalize,
        *row,
        before,
        (candidates@, *stats),
        tags@,
        normalized@,
        kept,
    ));
    Ok(())
}

/// Counts of a scan that has not begun.
pub open spec fn empty_stats() -> BatchStats {
    BatchStats {
        physical_rows: 0,
        physical_relay_events: 0,
        raw_relay_tags: 0,
        invalid_relay_tags: 0,
        duplicate_relay_tags: 0,
    }
}

/// `trail` are the candidates and the counts before and behind each of the
/// first `count` rows.
pub open spec fn scans_rows<N: Fn(&str) -> Option<String>>(
    trail: Seq<(Seq<RelayCandidate>, BatchStats)>,
    normalize: N,
    first: Seq<RelayCandidate>,
    rows: Seq<ScannedRelayRow>,
    count: int,
) -> bool {
    &&& 0 <= count <= rows.len()
    &&& trail.len() == count + 1
    &&& trail[0] == (first, empty_stats())
    &&& forall|i: int|
        0 <= i < count ==> takes_row(normalize, rows[i], #[trigger] trail[i], trail[i + 1])
}

/// What scanning rows behind the candidates comes to.
pub open spec fn scan_outcome<N: Fn(&str) -> Option<String>>(
    normalize: N,
    first: Seq<RelayCandidate>,
    rows: Seq<ScannedRelayRow>,
    outcome: Result<(Vec<RelayCandidate>, BatchStats)>,
) -> bool {
    match outcome {
        Ok((candidates, stats)) => exists|trail: Seq<(Seq<RelayCandidate>, BatchStats)>| #[trigger]
            scans_rows(trail, normalize, first, rows, rows.len() as int) && trail.last() == (
                candidates@,
                stats,
            ),
        Err(error) => error is Invalid && exists|
            trail: Seq<(Seq<RelayCandidate>, BatchStats)>,
            count: int,
        | #[trigger]
            scans_rows(trail, normalize, first, rows, count) && count < rows.len() && refuses_row(
                normalize,
                rows[count],
                trail.last(),
            ),
    }
}

/// Scan the rows of a batch into the candidates.
pub fn scan_rows<N: Fn(&str) -> Option<String>>(
    first: Vec<RelayCandidate>,
    rows: &Vec<ScannedRelayRow>,
    normalize: &N,
) -> (outcome: Result<(Vec<RelayCandidate>, BatchStats)>)
    requires
        ids_increase(first@),
        forall|url: &str| #[trigger] call_requires(*normalize, (url,)),
    ensures
        scan_outcome(*normalize, first@, rows@, outcome),
        outcome is Ok ==> ids_increase(outcome->Ok_0.0@),
{
    let mut candidates: Vec<RelayCandidate> = first;
    let mut stats: BatchStats = no_stats();
    let ghost mut trail: Seq<(Seq<RelayCandidate>, BatchStats)> = seq![(first@, stats)];
    let mut i: usize = 0;
    while i < rows.len()
        invariant
            i <= rows@.len(),
            ids_increase(candidates@),
            forall|url: &str| #[trigger] call_requires(*normalize, (url,)),
            scans_rows(trail, *normalize, first@, rows@, i as int),
            trail.last() == (candidates@, stats),
        decreases rows.len() - i,
    {
        let ghost before = (candidates@, stats);
        match take_row(&mut candidates, &mut stats, &rows[i], normalize) {
            Ok(()) => {},
            Err(error) => {
                assert(scans_rows(trail, *normalize, first@, rows@, i as int));
                return Err(error);
            },
        }
        proof {
            let longer = trail.push((candidates@, stats));
            assert forall|k: int| 0 <= k < i + 1 implies takes_row(
                *normalize,
                rows@[k],
                #[trigger] longer[k],
                longer[k + 1],
            ) by {
                if k < i {
                    assert(longer[k] == trail[k] && longer[k + 1] == trail[k + 1]);
                } else {
                    assert(longer[k] == before);
                }
            }
            trail = longer;
        }
        i += 1;
    }
    assert(scans_rows(trail, *normalize, first@, rows@, rows@.len() as int));
    Ok((candidates, stats))
}

/// A candidate of `before` is one of `after`.
proof fn lemma_kept<N: Fn(&str) -> Option<String>>(
    normalize: N,
    row: ScannedRelayRow,
    before: (Seq<RelayCandidate>, BatchStats),
    after: (Seq<RelayCandidate>, BatchStats),
    candidate: RelayCandidate,
)
    requires
        takes_row(normalize, row, before, after),
        before.0.contains(candidate),
    ensures
        after.0.contains(candidate),
{
    if after.0 != before.0 {
        let (tags, normalized, new) = choose|
            tags: Seq<Vec<String>>,
            normalized: Seq<Option<String>>,
            new: RelayCandidate,
        | #[trigger] adds_list(normalize, row, before, after, tags, normalized, new);
        let place = choose|place: int|
            0 <= place <= before.0.len() && after.0 == #[trigger] before.0.insert(place, new);
        let i = choose|i: int| 0 <= i < before.0.len() && before.0[i] == candidate;
        if i < place {
            assert(after.0[i] == candidate);
        } else {
            assert(after.0[i + 1] == candidate);
        }
    }
}

/// Candidates stay through the rows from `from` to `to`.
proof fn lemma_kept_through<N: Fn(&str) -> Option<String>>(
    trail: Seq<(Seq<RelayCandidate>, BatchStats)>,
    normalize: N,
    first: Seq<RelayCandidate>,
    rows: Seq<ScannedRelayRow>,
    count: int,
    from: int,
    to: int,
    candidate: RelayCandidate,
)
    requires
        scans_rows(trail, normalize, first, rows, count),
        0 <= from <= to <= count,
        trail[from].0.contains(candidate),
    ensures
        trail[to].0.contains(candidate),
    decreases to - from,
{
    if from < to {
        lemma_kept(normalize, rows[from], trail[from], trail[from + 1], candidate);
        lemma_kept_through(
            trail,
            normalize,
            first,
            rows,
            count,
            from + 1,
            to,
            candidate,
        );
    }
}

/// A scan loses no candidate, and keeps one for every relay list it reads.
pub proof fn lemma_scan_keeps_lists<N: Fn(&str) -> Option<String>>(
    trail: Seq<(Seq<RelayCandidate>, BatchStats)>,
    normalize: N,
    first: Seq<RelayCandidate>,
    rows: Seq<ScannedRelayRow>,
)
    requires
        scans_rows(trail, normalize, first, rows, rows.len() as int),
    ensures
        forall|candidate: RelayCandidate| #[trigger]
            first.contains(candidate) ==> trail.last().0.contains(candidate),
        forall|i: int|
            0 <= i < rows.len() && (#[trigger] rows[i]).event.kind == 10_002 ==> exists|
                candidate: RelayCandidate,
            | #[trigger] trail.last().0.contains(candidate) && repeats(rows[i], candidate),
{
    let n = rows.len() as int;
    assert forall|candidate: RelayCandidate| #[trigger]
        first.contains(candidate) implies trail.last().0.contains(candidate) by {
        lemma_kept_through(trail, normalize, first, rows, n, 0, n, candidate);
    }
    assert forall|i: int| 0 <= i < n && (#[trigger] rows[i]).event.kind == 10_002 implies exists|
        candidate: RelayCandidate,
    | #[trigger] trail.last().0.contains(candidate) && repeats(rows[i], candidate) by {
        let row = rows[i];
        let (before, after) = (trail[i], trail[i + 1]);
        assert(takes_row(normalize, row, before, after));
        let id = row.event.event_id@;
        let held = if has_id(before.0, id) {
            let k = choose|k: int| #[trigger] is_known(before.0, id, k) && repeats(row, before.0[k]);
            assert(after.0.contains(before.0[k]));
            before.0[k]
        } else {
            let (tags, normalized, new) = choose|
                tags: Seq<Vec<String>>,
                normalized: Seq<Option<String>>,
                new: RelayCandidate,
            | #[trigger] adds_list(normalize, row, before, after, tags, normalized, new);
            let place = choose|place: int|
                0 <= place <= before.0.len() && after.0 == #[trigger] before.0.insert(place, new);
            assert(after.0[place] == new);
            new
        };
        assert(repeats(row, held));
        assert(after.0.contains(held));
        lemma_kept_through(trail, normalize, first, rows, n, i + 1, n, held);
        assert(trail.last().0.contains(held));
    }
}

/// Rows that were scanned already change no candidate.
pub proof fn lemma_replay_keeps_candidates<N: Fn(&str) -> Option<String>>(
    trail: Seq<(Seq<RelayCandidate>, BatchStats)>,
    again: Seq<(Seq<RelayCandidate>, BatchStats)>,
    normalize: N,
    first: Seq<RelayCandidate>,
    rows: Seq<ScannedRelayRow>,
)
    requires
        scans_rows(trail, normalize, first, rows, rows.len() as int),
        scans_rows(again, normalize, trail.last().0, rows, rows.len() as int),
    ensures
        again.last().0 == trail.last().0,
{
    lemma_scan_keeps_lists(trail, normalize, first, rows);
    lemma_replay_to(trail, again, normalize, first, rows, rows.len() as int);
}

/// The first `count` rows of a replay change no candidate.
proof fn lemma_replay_to<N: Fn(&str) -> Option<String>>(
    trail: Seq<(Seq<RelayCandidate>, BatchStats)>,
    again: Seq<(Seq<RelayCandidate>, BatchStats)>,
    normalize: N,
    first: Seq<RelayCandidate>,
    rows: Seq<ScannedRelayRow>,
    count: int,
)
    requires
        scans_rows(again, normalize, trail.last().0, rows, rows.len() as int),
        0 <= count <= rows.len(),
        forall|i: int|
            0 <= i < rows.len() && (#[trigger] rows[i]).event.kind == 10_002 ==> exists|
                candidate: RelayCandidate,
            | #[trigger] trail.last().0.contains(candidate) && repeats(rows[i], candidate),
    ensures
        again[count].0 == trail.last().0,
    decreases count,
{
    if count > 0 {
        lemma_replay_to(trail, again, normalize, first, rows, count - 1);
        let row = rows[count - 1];
        let before = again[count - 1];
        assert(takes_row(normalize, row, before, again[count - 1 + 1]));
        if row.event.kind == 10_002 {
            let held = choose|candidate: RelayCandidate| #[trigger]
                trail.last().0.contains(candidate) && repeats(row, candidate);
            let k = choose|k: int| 0 <= k < before.0.len() && before.0[k] == held;
            assert(is_known(before.0, row.event.event_id@, k));
        }
    }
}

} // verus!
