//! What a relay distribution says of the relay lists.

use vstd::prelude::*;

use crate::bytes::{lemma_lex_total, lex_less};
use crate::relay_build::BatchStats;
use crate::relay_distribution::{
    are_memberships, has_membership, is_membership, lists_relay, marker, names_relay, permits_read,
    permits_write, reads_relay, writes_relay, RelayDistributionRow, RelayMembership,
};
use crate::relay_rows::{
    counts_as, describes_relay, distributes, has_relay, is_eligible, is_winner, member_count,
    relay_count, url_at, winner_count, Mode, RelayCandidate,
};
use crate::relay_scan::{scans_rows, takes_row, ScannedRelayRow};
use crate::sorting::Ordered;
use crate::text_map::{lemma_text_order, text_less};

verus! {

/// Tag `i` is `["r", url, ..]`, where `url` is what its second position is
/// normalized to.
pub open spec fn is_tag_for(
    tags: Seq<Vec<String>>,
    normalized: Seq<Option<String>>,
    url: Seq<char>,
    i: int,
) -> bool {
    &&& 0 <= i < tags.len()
    &&& tags[i]@.len() >= 2
    &&& tags[i]@[0]@ == "r"@
    &&& normalized[i] matches Some(canonical) && canonical@ == url
}

/// Tag `i` has the marker in its third position.
pub open spec fn is_marked(tags: Seq<Vec<String>>, i: int, mark: Seq<char>) -> bool {
    tags[i]@.len() >= 3 && tags[i]@[2]@ == mark
}

/// Tag `i` has no marker, or an empty one.
pub open spec fn is_unmarked(tags: Seq<Vec<String>>, i: int) -> bool {
    tags[i]@.len() == 2 || is_marked(tags, i, ""@)
}

/// The membership of a relay reads exactly where one of its tags is marked
/// `read` or has no marker, and writes exactly where one is marked `write` or
/// has none.
pub proof fn lemma_markers_give_modes(
    memberships: Seq<RelayMembership>,
    tags: Seq<Vec<String>>,
    normalized: Seq<Option<String>>,
    m: int,
)
    requires
        are_memberships(memberships, tags, normalized),
        0 <= m < memberships.len(),
    ensures
        ({
            let url = memberships[m].relay_url@;
            &&& exists|i: int| #[trigger] is_tag_for(tags, normalized, url, i)
            &&& memberships[m].read <==> exists|i: int| #[trigger]
                is_tag_for(tags, normalized, url, i) && (is_unmarked(tags, i) || is_marked(
                    tags,
                    i,
                    "read"@,
                ))
            &&& memberships[m].write <==> exists|i: int| #[trigger]
                is_tag_for(tags, normalized, url, i) && (is_unmarked(tags, i) || is_marked(
                    tags,
                    i,
                    "write"@,
                ))
        }),
{
    let url = memberships[m].relay_url@;
    let n = tags.len() as int;
    assert(is_membership(memberships[m], tags, normalized));
    assert forall|i: int| 0 <= i < n implies {
        &&& #[trigger] names_relay(tags[i]@, normalized[i], url) == is_tag_for(
            tags,
            normalized,
            url,
            i,
        )
        &&& is_tag_for(tags, normalized, url, i) ==> permits_read(marker(tags[i]@)) == (
        is_unmarked(tags, i) || is_marked(tags, i, "read"@))
        &&& is_tag_for(tags, normalized, url, i) ==> permits_write(marker(tags[i]@)) == (
        is_unmarked(tags, i) || is_marked(tags, i, "write"@))
    } by {}
    let i = choose|i: int| 0 <= i < n && #[trigger] names_relay(tags[i]@, normalized[i], url);
    assert(is_tag_for(tags, normalized, url, i));
    if memberships[m].read {
        let i = choose|i: int|
            0 <= i < n && #[trigger] names_relay(tags[i]@, normalized[i], url) && permits_read(
                marker(tags[i]@),
            );
        assert(is_tag_for(tags, normalized, url, i));
    }
    if memberships[m].write {
        let i = choose|i: int|
            0 <= i < n && #[trigger] names_relay(tags[i]@, normalized[i], url) && permits_write(
                marker(tags[i]@),
            );
        assert(is_tag_for(tags, normalized, url, i));
    }
    if exists|i: int| #[trigger]
        is_tag_for(tags, normalized, url, i) && (is_unmarked(tags, i) || is_marked(
            tags,
            i,
            "read"@,
        )) {
        let i = choose|i: int| #[trigger]
            is_tag_for(tags, normalized, url, i) && (is_unmarked(tags, i) || is_marked(
                tags,
                i,
                "read"@,
            ));
        assert(names_relay(tags[i]@, normalized[i], url));
        assert(reads_relay(tags, normalized, url, n));
    }
    if exists|i: int| #[trigger]
        is_tag_for(tags, normalized, url, i) && (is_unmarked(tags, i) || is_marked(
            tags,
            i,
            "write"@,
        )) {
        let i = choose|i: int| #[trigger]
            is_tag_for(tags, normalized, url, i) && (is_unmarked(tags, i) || is_marked(
                tags,
                i,
                "write"@,
            ));
        assert(names_relay(tags[i]@, normalized[i], url));
        assert(writes_relay(tags, normalized, url, n));
    }
}

/// Every relay that a tag names has exactly one membership.
pub proof fn lemma_tagged_relay_has_one_membership(
    memberships: Seq<RelayMembership>,
    tags: Seq<Vec<String>>,
    normalized: Seq<Option<String>>,
    url: Seq<char>,
    i: int,
) -> (m: int)
    requires
        are_memberships(memberships, tags, normalized),
        is_tag_for(tags, normalized, url, i),
    ensures
        0 <= m < memberships.len(),
        memberships[m].relay_url@ == url,
        forall|k: int|
            0 <= k < memberships.len() && (#[trigger] memberships[k]).relay_url@ == url ==> k == m,
{
    assert(names_relay(tags[i]@, normalized[i], url));
    assert(lists_relay(tags, normalized, url, tags.len() as int));
    assert(has_membership(memberships, url));
    let m = choose|m: int| 0 <= m < memberships.len() && #[trigger] memberships[m].relay_url@
        == url;
    assert forall|k: int|
        0 <= k < memberships.len() && (#[trigger] memberships[k]).relay_url@ == url implies k
        == m by {
        lemma_text_order(url, url);
        if k < m {
            assert(text_less(memberships[k].relay_url@, memberships[m].relay_url@));
        }
        if m < k {
            assert(text_less(memberships[m].relay_url@, memberships[k].relay_url@));
        }
    }
    m
}

/// A relay that only tags marked `read` name is read and not written; one that
/// only tags marked `write` name is written and not read; one with a tag of each
/// or an unmarked tag is both; and other markers enable neither.
pub proof fn lemma_marked_relays(
    memberships: Seq<RelayMembership>,
    tags: Seq<Vec<String>>,
    normalized: Seq<Option<String>>,
    m: int,
)
    requires
        are_memberships(memberships, tags, normalized),
        0 <= m < memberships.len(),
    ensures
        ({
            let url = memberships[m].relay_url@;
            &&& (forall|i: int| #[trigger]
                is_tag_for(tags, normalized, url, i) ==> is_marked(tags, i, "read"@))
                ==> memberships[m].read && !memberships[m].write
            &&& (forall|i: int| #[trigger]
                is_tag_for(tags, normalized, url, i) ==> is_marked(tags, i, "write"@))
                ==> !memberships[m].read && memberships[m].write
            &&& (exists|i: int| #[trigger]
                is_tag_for(tags, normalized, url, i) && is_unmarked(tags, i))
                ==> memberships[m].read && memberships[m].write
            &&& (forall|i: int| #[trigger]
                is_tag_for(tags, normalized, url, i) ==> !is_unmarked(tags, i) && !is_marked(
                    tags,
                    i,
                    "read"@,
                ) && !is_marked(tags, i, "write"@)) ==> !memberships[m].read
                && !memberships[m].write
        }),
{
    reveal_strlit("");
    reveal_strlit("read");
    reveal_strlit("write");
    assert("read"@.len() == 4 && "write"@.len() == 5 && ""@.len() == 0);
    lemma_markers_give_modes(memberships, tags, normalized, m);
}

/// Of the lists of a publisher up to the boundary, the latest one counts, and of
/// equally late ones that with the largest event ID.
pub proof fn lemma_latest_list_counts(candidates: Seq<RelayCandidate>, as_of: u64, i: int, j: int)
    requires
        is_winner(candidates, as_of, i),
        0 <= j < candidates.len(),
        candidates[j].pubkey@ == candidates[i].pubkey@,
        candidates[j].created_at <= as_of,
    ensures
        candidates[i].created_at <= as_of,
        candidates[j].created_at <= candidates[i].created_at,
        candidates[j].created_at == candidates[i].created_at ==> candidates[j].event_id@
            == candidates[i].event_id@ || lex_less(
            candidates[j].event_id@,
            candidates[i].event_id@,
        ),
{
    assert(is_eligible(candidates, as_of, j));
    lemma_lex_total(candidates[j].event_id@, candidates[i].event_id@);
}

/// The list names the relay for the use: any, reading, or writing.
pub open spec fn uses_relay(candidate: RelayCandidate, url: Seq<char>, mode: Mode) -> bool {
    exists|m: int|
        {
            &&& 0 <= m < candidate.memberships@.len()
            &&& (#[trigger] candidate.memberships@[m]).relay_url@ == url
            &&& mode is Read ==> candidate.memberships@[m].read
            &&& mode is Write ==> candidate.memberships@[m].write
        }
}

/// The places of the winning lists that name the relay for the use.
pub open spec fn users_of(
    candidates: Seq<RelayCandidate>,
    as_of: u64,
    url: Seq<char>,
    mode: Mode,
) -> Set<int> {
    Set::new(|i: int| is_winner(candidates, as_of, i) && uses_relay(candidates[i], url, mode))
}

/// No list names a relay twice.
pub open spec fn lists_are_sets(candidates: Seq<RelayCandidate>) -> bool {
    forall|i: int, a: int, b: int|
        0 <= i < candidates.len() && 0 <= a < b < candidates[i].memberships@.len()
            ==> #[trigger] candidates[i].memberships@[a].relay_url@
            != #[trigger] candidates[i].memberships@[b].relay_url@
}

/// A row counts the winning lists that name its relay: in all, for reading, and
/// for writing. There are no more readers or writers than users.
pub proof fn lemma_row_counts_its_users(
    rows: Seq<RelayDistributionRow>,
    candidates: Seq<RelayCandidate>,
    as_of: u64,
    minimum_users: u64,
    r: int,
)
    requires
        distributes(rows, candidates, as_of, minimum_users),
        lists_are_sets(candidates),
        0 <= r < rows.len(),
    ensures
        ({
            let url = rows[r].relay_url@;
            &&& rows[r].user_count == users_of(candidates, as_of, url, Mode::Any).len()
            &&& rows[r].read_count == users_of(candidates, as_of, url, Mode::Read).len()
            &&& rows[r].write_count == users_of(candidates, as_of, url, Mode::Write).len()
            &&& rows[r].user_count >= minimum_users
            &&& rows[r].user_count > 0
            &&& rows[r].read_count <= rows[r].user_count
            &&& rows[r].write_count <= rows[r].user_count
        }),
{
    let url = rows[r].relay_url@;
    assert(describes_relay(rows[r], candidates, as_of, minimum_users));
    lemma_relay_count(candidates, as_of, url, Mode::Any);
    lemma_relay_count(candidates, as_of, url, Mode::Read);
    lemma_relay_count(candidates, as_of, url, Mode::Write);
    let any = users_of(candidates, as_of, url, Mode::Any);
    assert(users_of(candidates, as_of, url, Mode::Read).subset_of(any));
    assert(users_of(candidates, as_of, url, Mode::Write).subset_of(any));
    vstd::set_lib::lemma_len_subset(users_of(candidates, as_of, url, Mode::Read), any);
    vstd::set_lib::lemma_len_subset(users_of(candidates, as_of, url, Mode::Write), any);
}

/// A relay with enough users has exactly one row; rows with more users come
/// first, and of as many those with the smaller URL.
pub proof fn lemma_used_relays_have_rows(
    rows: Seq<RelayDistributionRow>,
    candidates: Seq<RelayCandidate>,
    as_of: u64,
    minimum_users: u64,
    url: Seq<char>,
)
    requires
        distributes(rows, candidates, as_of, minimum_users),
        lists_are_sets(candidates),
    ensures
        users_of(candidates, as_of, url, Mode::Any).len() >= minimum_users && users_of(
            candidates,
            as_of,
            url,
            Mode::Any,
        ).len() > 0 ==> exists|r: int|
            0 <= r < rows.len() && (#[trigger] rows[r]).relay_url@ == url,
        forall|a: int, b: int|
            0 <= a < b < rows.len() ==> (#[trigger] rows[a]).relay_url@ != (
            #[trigger] rows[b]).relay_url@ && rows[a].user_count >= rows[b].user_count && (
            rows[a].user_count == rows[b].user_count ==> text_less(
                rows[a].relay_url@,
                rows[b].relay_url@,
            )),
{
    lemma_relay_count(candidates, as_of, url, Mode::Any);
    if users_of(candidates, as_of, url, Mode::Any).len() >= minimum_users && users_of(
        candidates,
        as_of,
        url,
        Mode::Any,
    ).len() > 0 {
        assert(relay_count(candidates, as_of, url, Mode::Any) > 0);
        assert(has_relay(rows, url));
        let r = choose|r: int| 0 <= r < rows.len() && #[trigger] url_at(rows, r) == url;
        assert(rows[r].relay_url@ == url);
    }
    assert forall|a: int, b: int| 0 <= a < b < rows.len() implies (#[trigger] rows[a]).relay_url@
        != (#[trigger] rows[b]).relay_url@ && rows[a].user_count >= rows[b].user_count && (
    rows[a].user_count == rows[b].user_count ==> text_less(
        rows[a].relay_url@,
        rows[b].relay_url@,
    )) by {
        assert(url_at(rows, a) != url_at(rows, b));
        assert(rows[a].at_most(rows[b]));
    }
}

/// Counting memberships of lists counts the lists.
proof fn lemma_relay_count(
    candidates: Seq<RelayCandidate>,
    as_of: u64,
    url: Seq<char>,
    mode: Mode,
)
    requires
        lists_are_sets(candidates),
    ensures
        relay_count(candidates, as_of, url, mode) == users_of(candidates, as_of, url, mode).len(),
        users_of(candidates, as_of, url, mode).finite(),
{
    lemma_winner_count(candidates, as_of, url, mode, candidates.len() as int);
    let upto = users_of(candidates, as_of, url, mode).filter(
        |i: int| i < candidates.len() as int,
    );
    assert(upto =~= users_of(candidates, as_of, url, mode));
}

proof fn lemma_winner_count(
    candidates: Seq<RelayCandidate>,
    as_of: u64,
    url: Seq<char>,
    mode: Mode,
    count: int,
)
    requires
        lists_are_sets(candidates),
        0 <= count <= candidates.len(),
    ensures
        winner_count(candidates, as_of, url, mode, count) == users_of(
            candidates,
            as_of,
            url,
            mode,
        ).filter(|i: int| i < count).len(),
        users_of(candidates, as_of, url, mode).filter(|i: int| i < count).finite(),
    decreases count,
{
    let all = users_of(candidates, as_of, url, mode);
    let upto = all.filter(|i: int| i < count);
    if count == 0 {
        assert(upto =~= Set::empty());
    } else {
        lemma_winner_count(candidates, as_of, url, mode, count - 1);
        let last = count - 1;
        let before = all.filter(|i: int| i < last);
        let memberships = candidates[last].memberships@;
        lemma_member_count(candidates, last, url, mode, memberships.len() as int);
        if all.contains(last) {
            assert(upto =~= before.insert(last));
            let m = choose|m: int|
                {
                    &&& 0 <= m < memberships.len()
                    &&& (#[trigger] memberships[m]).relay_url@ == url
                    &&& mode is Read ==> memberships[m].read
                    &&& mode is Write ==> memberships[m].write
                };
            assert(counts_as(memberships[m], url, mode));
        } else {
            assert(upto =~= before);
            if is_winner(candidates, as_of, last) {
                assert forall|m: int| 0 <= m < memberships.len() implies !counts_as(
                    #[trigger] memberships[m],
                    url,
                    mode,
                ) by {
                    if counts_as(memberships[m], url, mode) {
                        assert(uses_relay(candidates[last], url, mode));
                    }
                }
            }
        }
    }
}

/// At most one membership of a list is that of a relay.
proof fn lemma_member_count(
    candidates: Seq<RelayCandidate>,
    c: int,
    url: Seq<char>,
    mode: Mode,
    count: int,
)
    requires
        lists_are_sets(candidates),
        0 <= c < candidates.len(),
        0 <= count <= candidates[c].memberships@.len(),
    ensures
        member_count(candidates[c].memberships@, url, mode, count) == if exists|m: int|
            0 <= m < count && counts_as(#[trigger] candidates[c].memberships@[m], url, mode) {
            1int
        } else {
            0int
        },
    decreases count,
{
    let memberships = candidates[c].memberships@;
    if count > 0 {
        lemma_member_count(candidates, c, url, mode, count - 1);
        if counts_as(memberships[count - 1], url, mode) {
            assert forall|m: int| 0 <= m < count - 1 implies !counts_as(
                #[trigger] memberships[m],
                url,
                mode,
            ) by {
                assert(candidates[c].memberships@[m].relay_url@ != candidates[c].memberships@[count
                    - 1].relay_url@);
            }
        }
    }
}

/// Only relay lists, events of kind 10002, become candidates: each new one
/// repeats the event ID, publisher and time of such an event.
pub proof fn lemma_only_relay_lists_are_kept<N: Fn(&str) -> Option<String>>(
    trail: Seq<(Seq<RelayCandidate>, BatchStats)>,
    normalize: N,
    first: Seq<RelayCandidate>,
    rows: Seq<ScannedRelayRow>,
    count: int,
    candidate: RelayCandidate,
)
    requires
        scans_rows(trail, normalize, first, rows, count),
        trail.last().0.contains(candidate),
    ensures
        first.contains(candidate) || exists|i: int|
            {
                &&& 0 <= i < count
                &&& (#[trigger] rows[i]).event.kind == 10_002
                &&& rows[i].event.event_id@ == candidate.event_id@
                &&& rows[i].event.pubkey@ == candidate.pubkey@
                &&& rows[i].event.created_at == candidate.created_at
            },
    decreases count,
{
    if count > 0 {
        let earlier = trail.drop_last();
        assert(scans_rows(earlier, normalize, first, rows, count - 1)) by {
            assert forall|i: int| 0 <= i < count - 1 implies takes_row(
                normalize,
                rows[i],
                #[trigger] earlier[i],
                earlier[i + 1],
            ) by {
                assert(takes_row(normalize, rows[i], trail[i], trail[i + 1]));
            }
        }
        assert(takes_row(normalize, rows[count - 1], trail[count - 1], trail[count]));
        assert(earlier.last() == trail[count - 1]);
        let before = trail[count - 1].0;
        let after = trail[count].0;
        if before.contains(candidate) {
            lemma_only_relay_lists_are_kept(
                earlier,
                normalize,
                first,
                rows,
                count - 1,
                candidate,
            );
        } else {
            let row = rows[count - 1];
            let (tags, normalized, added) = choose|
                tags: Seq<Vec<String>>,
                normalized: Seq<Option<String>>,
                added: RelayCandidate,
            | #[trigger]
                crate::relay_scan::adds_list(
                    normalize,
                    row,
                    trail[count - 1],
                    trail[count],
                    tags,
                    normalized,
                    added,
                );
            let place = choose|place: int|
                0 <= place <= before.len() && after == #[trigger] before.insert(place, added);
            let k = choose|k: int| 0 <= k < after.len() && after[k] == candidate;
            if k < place {
                assert(before[k] == candidate);
            } else if k > place {
                assert(before[k - 1] == candidate);
            }
            assert(candidate == added);
            assert(rows[count - 1].event.kind == 10_002);
        }
    }
}

} // verus!
