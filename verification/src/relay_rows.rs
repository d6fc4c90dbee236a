//! The current relay distribution of candidate relay lists.
//!
//! Each publisher has one winning list: the latest up to the boundary, and of
//! equally late ones that with the largest event ID.

use vstd::prelude::*;
use vstd::string::*;

use crate::bytes::{
    bytes_equal, bytes_less, lemma_lex_antisymmetric, lemma_lex_total, lemma_lex_transitive,
    lex_less,
};
use crate::error::{Error, Result};
use crate::relay_distribution::{
    lemma_one_list_wins, relay_list_wins, supersedes, RelayDistributionRow, RelayListIdentity,
    RelayMembership,
};
use crate::sorting::{in_order, lemma_repeats, lemma_sorts_members, sort_ordered, sorts, Ordered};
use crate::text::text_equal;
use crate::text_map::{lemma_text_order, text_before, text_less, TextMap};

verus! {

/// One canonical relay list with its memberships.
#[derive(Clone, Debug, PartialEq, Eq)]
pub struct RelayCandidate {
    /// Canonical event ID.
    pub event_id: [u8; 32],
    /// Publisher of the list.
    pub pubkey: [u8; 32],
    /// Creation time in Unix seconds.
    pub created_at: u64,
    /// Relays of the list.
    pub memberships: Vec<RelayMembership>,
}

/// The identity by which lists replace each other.
pub open spec fn identity_of(candidate: RelayCandidate) -> RelayListIdentity {
    RelayListIdentity { created_at: candidate.created_at, event_id: candidate.event_id }
}

/// No two candidates have the same event ID.
pub open spec fn ids_differ(candidates: Seq<RelayCandidate>) -> bool {
    forall|i: int, j: int|
        0 <= i < j < candidates.len() ==> #[trigger] id_at(candidates, i) != #[trigger] id_at(
            candidates,
            j,
        )
}

/// Event ID of candidate `i`.
pub open spec fn id_at(candidates: Seq<RelayCandidate>, i: int) -> Seq<u8> {
    candidates[i].event_id@
}

/// Candidate `i` lies within the boundary.
pub open spec fn is_eligible(candidates: Seq<RelayCandidate>, as_of: u64, i: int) -> bool {
    0 <= i < candidates.len() && candidates[i].created_at <= as_of
}

/// Candidate `i` lies within the boundary, and no list of its publisher there
/// replaces it.
pub open spec fn is_winner(candidates: Seq<RelayCandidate>, as_of: u64, i: int) -> bool {
    &&& is_eligible(candidates, as_of, i)
    &&& forall|j: int| #[trigger]
        is_eligible(candidates, as_of, j) && candidates[j].pubkey@ == candidates[i].pubkey@
            ==> !supersedes(identity_of(candidates[j]), identity_of(candidates[i]))
}

/// What is counted of the memberships of a relay.
#[derive(Clone, Copy, Debug, PartialEq, Eq, Structural)]
pub enum Mode {
    /// Any membership.
    Any,
    /// Memberships for reads.
    Read,
    /// Memberships for writes.
    Write,
}

/// The membership counts.
pub open spec fn counts_as(membership: RelayMembership, url: Seq<char>, mode: Mode) -> bool {
    &&& membership.relay_url@ == url
    &&& match mode {
        Mode::Any => true,
        Mode::Read => membership.read,
        Mode::Write => membership.write,
    }
}

/// Of the first `count` memberships, those that count.
pub open spec fn member_count(
    memberships: Seq<RelayMembership>,
    url: Seq<char>,
    mode: Mode,
    count: int,
) -> int
    decreases count,
{
    if count <= 0 {
        0
    } else {
        member_count(memberships, url, mode, count - 1) + if counts_as(
            memberships[count - 1],
            url,
            mode,
        ) {
            1int
        } else {
            0int
        }
    }
}

/// Memberships of the winning lists among the first `count` candidates.
pub open spec fn winner_count(
    candidates: Seq<RelayCandidate>,
    as_of: u64,
    url: Seq<char>,
    mode: Mode,
    count: int,
) -> int
    decreases count,
{
    if count <= 0 {
        0
    } else {
        winner_count(candidates, as_of, url, mode, count - 1) + if is_winner(
            candidates,
            as_of,
            count - 1,
        ) {
            member_count(
                candidates[count - 1].memberships@,
                url,
                mode,
                candidates[count - 1].memberships@.len() as int,
            )
        } else {
            0int
        }
    }
}

/// Memberships of all winning lists.
pub open spec fn relay_count(
    candidates: Seq<RelayCandidate>,
    as_of: u64,
    url: Seq<char>,
    mode: Mode,
) -> int {
    winner_count(candidates, as_of, url, mode, candidates.len() as int)
}

impl Ordered for RelayDistributionRow {
    /// More users first, then the smaller URL.
    open spec fn at_most(self, other: Self) -> bool {
        ||| self.user_count > other.user_count
        ||| {
            &&& self.user_count == other.user_count
            &&& text_less(self.relay_url@, other.relay_url@) || self.relay_url@ == other.relay_url@
        }
    }

    proof fn lemma_total(a: Self, b: Self) {
        lemma_text_order(a.relay_url@, b.relay_url@);
    }

    proof fn lemma_transitive(a: Self, b: Self, c: Self) {
        if text_less(a.relay_url@, b.relay_url@) && text_less(b.relay_url@, c.relay_url@) {
            lemma_lex_transitive(
                vstd::utf8::encode_utf8(a.relay_url@),
                vstd::utf8::encode_utf8(b.relay_url@),
                vstd::utf8::encode_utf8(c.relay_url@),
            );
        }
    }

    fn may_precede(&self, other: &Self) -> (before: bool) {
        if self.user_count != other.user_count {
            return self.user_count > other.user_count;
        }
        text_before(self.relay_url.as_str(), other.relay_url.as_str()) || text_equal(
            self.relay_url.as_str(),
            other.relay_url.as_str(),
        )
    }
}

/// A candidate as it competes for its publisher.
#[derive(Clone, Copy, Debug, PartialEq, Eq)]
pub struct Contender {
    /// Publisher.
    pub pubkey: [u8; 32],
    /// Identity of the list.
    pub identity: RelayListIdentity,
    /// Place among the candidates.
    pub index: usize,
}

impl Ordered for Contender {
    /// By publisher, then the replacing list first.
    open spec fn at_most(self, other: Self) -> bool {
        ||| lex_less(self.pubkey@, other.pubkey@)
        ||| self.pubkey@ == other.pubkey@ && !supersedes(other.identity, self.identity)
    }

    proof fn lemma_total(a: Self, b: Self) {
        lemma_lex_total(a.pubkey@, b.pubkey@);
        lemma_one_list_wins(a.identity, b.identity);
    }

    proof fn lemma_transitive(a: Self, b: Self, c: Self) {
        if lex_less(a.pubkey@, b.pubkey@) && lex_less(b.pubkey@, c.pubkey@) {
            lemma_lex_transitive(a.pubkey@, b.pubkey@, c.pubkey@);
        }
        let x = a.identity.event_id@;
        let y = b.identity.event_id@;
        let z = c.identity.event_id@;
        lemma_lex_total(x, y);
        lemma_lex_total(y, z);
        lemma_lex_total(x, z);
        lemma_lex_antisymmetric(x, y);
        lemma_lex_antisymmetric(y, z);
        lemma_lex_antisymmetric(x, z);
        if lex_less(y, x) && lex_less(z, y) {
            lemma_lex_transitive(z, y, x);
        }
    }

    fn may_precede(&self, other: &Self) -> (before: bool) {
        if bytes_less(self.pubkey.as_slice(), other.pubkey.as_slice()) {
            return true;
        }
        bytes_equal(self.pubkey.as_slice(), other.pubkey.as_slice()) && !relay_list_wins(
            other.identity,
            self.identity,
        )
    }
}

/// The contender of candidate `i`.
pub open spec fn contender_of(candidates: Seq<RelayCandidate>, i: int) -> Contender {
    Contender {
        pubkey: candidates[i].pubkey,
        identity: identity_of(candidates[i]),
        index: i as usize,
    }
}

/// The eligible candidates as contenders.
fn list_contenders(candidates: &Vec<RelayCandidate>, as_of: u64) -> (contenders: Vec<Contender>)
    ensures
        forall|k: int|
            0 <= k < contenders@.len() ==> is_eligible(
                candidates@,
                as_of,
                (#[trigger] contenders@[k]).index as int,
            ) && contenders@[k] == contender_of(candidates@, contenders@[k].index as int),
        forall|i: int| #[trigger]
            is_eligible(candidates@, as_of, i) ==> contenders@.contains(
                contender_of(candidates@, i),
            ),
        offered_in_order(contenders@),
{
    let mut contenders: Vec<Contender> = Vec::new();
    let mut i: usize = 0;
    while i < candidates.len()
        invariant
            i <= candidates@.len(),
            forall|k: int|
                0 <= k < contenders@.len() ==> is_eligible(
                    candidates@,
                    as_of,
                    (#[trigger] contenders@[k]).index as int,
                ) && contenders@[k] == contender_of(candidates@, contenders@[k].index as int),
            forall|j: int| #[trigger]
                is_eligible(candidates@, as_of, j) && j < i ==> contenders@.contains(
                    contender_of(candidates@, j),
                ),
            offered_in_order(contenders@),
            forall|k: int| 0 <= k < contenders@.len() ==> (#[trigger] contenders@[k]).index < i,
        decreases candidates.len() - i,
    {
        let ghost before = contenders@;
        if candidates[i].created_at <= as_of {
            let one: Contender = Contender {
                pubkey: candidates[i].pubkey,
                identity: RelayListIdentity {
                    created_at: candidates[i].created_at,
                    event_id: candidates[i].event_id,
                },
                index: i,
            };
            contenders.push(one);
            assert(one == contender_of(candidates@, i as int));
            assert(contenders@[before.len() as int] == one);
        }
        proof {
            assert forall|j: int| #[trigger]
                is_eligible(candidates@, as_of, j) && j < i + 1 implies contenders@.contains(
                contender_of(candidates@, j),
            ) by {
                if j < i {
                    let k = choose|k: int|
                        0 <= k < before.len() && before[k] == contender_of(candidates@, j);
                    assert(contenders@[k] == before[k]);
                }
            }
        }
        i += 1;
    }
    contenders
}

/// The first contender of every publisher is the winning list.
proof fn lemma_first_wins(
    candidates: Seq<RelayCandidate>,
    as_of: u64,
    sorted: Seq<Contender>,
    k: int,
)
    requires
        ids_differ(candidates),
        candidates.len() <= usize::MAX,
        in_order(sorted),
        forall|x: int|
            0 <= x < sorted.len() ==> is_eligible(
                candidates,
                as_of,
                (#[trigger] sorted[x]).index as int,
            ) && sorted[x] == contender_of(candidates, sorted[x].index as int),
        forall|i: int| #[trigger]
            is_eligible(candidates, as_of, i) ==> sorted.contains(contender_of(candidates, i)),
        0 <= k < sorted.len(),
        forall|x: int, y: int|
            0 <= x < y < sorted.len() ==> (#[trigger] sorted[x]).index != (
            #[trigger] sorted[y]).index,
    ensures
        is_winner(candidates, as_of, sorted[k].index as int) <==> k == 0 || sorted[k - 1].pubkey@
            != sorted[k].pubkey@,
{
    let i = sorted[k].index as int;
    assert(sorted[k] == contender_of(candidates, i));
    if k > 0 && sorted[k - 1].pubkey@ == sorted[k].pubkey@ {
        let j = sorted[k - 1].index as int;
        assert(sorted[k - 1] == contender_of(candidates, j));
        assert(sorted[k - 1].at_most(sorted[k]));
        lemma_lex_antisymmetric(sorted[k].pubkey@, sorted[k].pubkey@);
        assert(i != j);
        assert(id_at(candidates, i) != id_at(candidates, j));
        lemma_one_list_wins(identity_of(candidates[j]), identity_of(candidates[i]));
        assert(supersedes(identity_of(candidates[j]), identity_of(candidates[i])));
        assert(is_eligible(candidates, as_of, j));
    } else {
        assert forall|j: int| #[trigger]
            is_eligible(candidates, as_of, j) && candidates[j].pubkey@
                == candidates[i].pubkey@ implies !supersedes(
            identity_of(candidates[j]),
            identity_of(candidates[i]),
        ) by {
            assert(sorted.contains(contender_of(candidates, j)));
            let m = choose|m: int| 0 <= m < sorted.len() && sorted[m] == contender_of(candidates, j);
            lemma_lex_antisymmetric(sorted[k].pubkey@, sorted[k].pubkey@);
            if m < k {
                assert(sorted[m].at_most(sorted[k - 1]) || m == k - 1);
                assert(sorted[k - 1].at_most(sorted[k]));
                let a = sorted[m].pubkey@;
                let b = sorted[k - 1].pubkey@;
                lemma_lex_antisymmetric(a, b);
            } else if m > k {
                assert(sorted[k].at_most(sorted[m]));
            } else {
                lemma_one_list_wins(identity_of(candidates[i]), identity_of(candidates[i]));
            }
        }
    }
}

/// Contenders of different candidates differ, however they are sorted.
proof fn lemma_indexes_differ(
    sorted: Seq<Contender>,
    source: Seq<Contender>,
)
    requires
        sorts(sorted, source),
        forall|x: int, y: int|
            0 <= x < y < source.len() ==> (#[trigger] source[x]).index != (
            #[trigger] source[y]).index,
    ensures
        forall|x: int, y: int|
            0 <= x < y < sorted.len() ==> (#[trigger] sorted[x]).index != (
            #[trigger] sorted[y]).index,
{
    broadcast use vstd::seq_lib::group_to_multiset_ensures;
    lemma_sorts_members(sorted, source);
    assert forall|x: int, y: int| 0 <= x < y < sorted.len() implies (#[trigger] sorted[x]).index
        != (#[trigger] sorted[y]).index by {
        if sorted[x].index == sorted[y].index {
            let a = sorted[x];
            let b = sorted[y];
            assert(sorted.contains(a) && sorted.contains(b));
            let p = choose|p: int| 0 <= p < source.len() && source[p] == a;
            let q = choose|q: int| 0 <= q < source.len() && source[q] == b;
            if p < q {
                assert(source[p].index != source[q].index);
            } else if q < p {
                assert(source[q].index != source[p].index);
            } else {
                assert(a == b);
                let (r, t) = lemma_repeats(sorted, source, x, y);
                assert(source[r].index != source[t].index);
            }
        }
    }
}

/// Mark the winning candidates.
pub fn mark_winners(candidates: &Vec<RelayCandidate>, as_of: u64) -> (winners: Vec<bool>)
    requires
        ids_differ(candidates@),
    ensures
        winners@.len() == candidates@.len(),
        forall|i: int|
            0 <= i < winners@.len() ==> (#[trigger] winners@[i]) == is_winner(
                candidates@,
                as_of,
                i,
            ),
{
    let source: Vec<Contender> = list_contenders(candidates, as_of);
    let ghost offered = source@;
    proof {
        assert forall|x: int, y: int| 0 <= x < y < offered.len() implies (
        #[trigger] offered[x]).index != (#[trigger] offered[y]).index by {
            assert(offered[x].index < offered[y].index);
        }
    }
    let sorted: Vec<Contender> = sort_ordered(source);
    let ghost order = sorted@;
    proof {
        lemma_sorts_members(order, offered);
        lemma_indexes_differ(order, offered);
        assert forall|x: int| 0 <= x < order.len() implies is_eligible(
            candidates@,
            as_of,
            (#[trigger] order[x]).index as int,
        ) && order[x] == contender_of(candidates@, order[x].index as int) by {
            assert(order.contains(order[x]));
            assert(offered.contains(order[x]));
            let k = choose|k: int| 0 <= k < offered.len() && offered[k] == order[x];
            assert(is_eligible(candidates@, as_of, offered[k].index as int));
        }
        assert forall|i: int| #[trigger] is_eligible(candidates@, as_of, i) implies order.contains(
            contender_of(candidates@, i),
        ) by {
            assert(offered.contains(contender_of(candidates@, i)));
        }
    }
    let mut winners: Vec<bool> = Vec::new();
    let mut filled: usize = 0;
    while filled < candidates.len()
        invariant
            filled <= candidates@.len(),
            winners@.len() == filled,
            forall|i: int| 0 <= i < filled ==> !#[trigger] winners@[i],
        decreases candidates.len() - filled,
    {
        winners.push(false);
        filled += 1;
    }
    let mut k: usize = 0;
    while k < sorted.len()
        invariant
            k <= sorted@.len(),
            order == sorted@,
            ids_differ(candidates@),
            candidates@.len() <= usize::MAX,
            in_order(order),
            winners@.len() == candidates@.len(),
            forall|x: int|
                0 <= x < order.len() ==> is_eligible(
                    candidates@,
                    as_of,
                    (#[trigger] order[x]).index as int,
                ) && order[x] == contender_of(candidates@, order[x].index as int),
            forall|i: int| #[trigger]
                is_eligible(candidates@, as_of, i) ==> order.contains(contender_of(candidates@, i)),
            forall|x: int, y: int|
                0 <= x < y < order.len() ==> (#[trigger] order[x]).index != (
                #[trigger] order[y]).index,
            forall|i: int|
                0 <= i < winners@.len() && #[trigger] winners@[i] ==> is_winner(
                    candidates@,
                    as_of,
                    i,
                ),
            forall|x: int|
                0 <= x < k && is_winner(candidates@, as_of, (#[trigger] order[x]).index as int)
                    ==> winners@[order[x].index as int],
        decreases sorted.len() - k,
    {
        let contender: Contender = sorted[k];
        let first: bool = k == 0 || !bytes_equal(
            sorted[k - 1].pubkey.as_slice(),
            contender.pubkey.as_slice(),
        );
        proof {
            assert(is_eligible(candidates@, as_of, order[k as int].index as int));
            lemma_first_wins(candidates@, as_of, order, k as int);
        }
        let ghost before = winners@;
        if first {
            winners.set(contender.index, true);
        }
        proof {
            assert forall|x: int|
                0 <= x < k + 1 && is_winner(
                    candidates@,
                    as_of,
                    (#[trigger] order[x]).index as int,
                ) implies winners@[order[x].index as int] by {
                if x < k {
                    assert(before[order[x].index as int]);
                }
            }
        }
        k += 1;
    }
    proof {
        assert forall|i: int| 0 <= i < winners@.len() implies (#[trigger] winners@[i])
            == is_winner(candidates@, as_of, i) by {
            if is_winner(candidates@, as_of, i) {
                assert(is_eligible(candidates@, as_of, i));
                assert(order.contains(contender_of(candidates@, i)));
                let x = choose|x: int|
                    0 <= x < order.len() && order[x] == contender_of(candidates@, i);
                assert(order[x].index == i);
            }
        }
    }
    winners
}

/// Contenders are listed by increasing place.
spec fn offered_in_order(offered: Seq<Contender>) -> bool {
    forall|x: int, y: int|
        0 <= x < y < offered.len() ==> (#[trigger] offered[x]).index < (#[trigger] offered[y]).index
}

/// Counts of a mode never exceed all memberships.
proof fn lemma_member_bounds(memberships: Seq<RelayMembership>, url: Seq<char>, count: int)
    requires
        0 <= count <= memberships.len(),
    ensures
        0 <= member_count(memberships, url, Mode::Read, count) <= member_count(
            memberships,
            url,
            Mode::Any,
            count,
        ),
        0 <= member_count(memberships, url, Mode::Write, count) <= member_count(
            memberships,
            url,
            Mode::Any,
            count,
        ),
        member_count(memberships, url, Mode::Any, count) <= member_count(
            memberships,
            url,
            Mode::Any,
            memberships.len() as int,
        ),
    decreases memberships.len() - count, count,
{
    if count > 0 {
        lemma_member_nonnegative(memberships, url, count);
    }
    if count < memberships.len() {
        lemma_member_bounds(memberships, url, count + 1);
        lemma_member_nonnegative(memberships, url, count);
    } else {
        lemma_member_nonnegative(memberships, url, count);
    }
}

proof fn lemma_member_nonnegative(memberships: Seq<RelayMembership>, url: Seq<char>, count: int)
    ensures
        0 <= member_count(memberships, url, Mode::Read, count) <= member_count(
            memberships,
            url,
            Mode::Any,
            count,
        ),
        0 <= member_count(memberships, url, Mode::Write, count) <= member_count(
            memberships,
            url,
            Mode::Any,
            count,
        ),
    decreases count,
{
    if count > 0 {
        lemma_member_nonnegative(memberships, url, count - 1);
    }
}

/// Counts of winners grow with the candidates, and no mode exceeds all.
pub(crate) proof fn lemma_winner_bounds(
    candidates: Seq<RelayCandidate>,
    as_of: u64,
    url: Seq<char>,
    count: int,
)
    requires
        0 <= count <= candidates.len(),
    ensures
        0 <= winner_count(candidates, as_of, url, Mode::Read, count) <= winner_count(
            candidates,
            as_of,
            url,
            Mode::Any,
            count,
        ),
        0 <= winner_count(candidates, as_of, url, Mode::Write, count) <= winner_count(
            candidates,
            as_of,
            url,
            Mode::Any,
            count,
        ),
        winner_count(candidates, as_of, url, Mode::Any, count) <= relay_count(
            candidates,
            as_of,
            url,
            Mode::Any,
        ),
    decreases candidates.len() - count, count,
{
    lemma_winner_nonnegative(candidates, as_of, url, count);
    if count < candidates.len() {
        lemma_winner_bounds(candidates, as_of, url, count + 1);
        lemma_member_nonnegative(
            candidates[count].memberships@,
            url,
            candidates[count].memberships@.len() as int,
        );
    }
}

proof fn lemma_winner_nonnegative(
    candidates: Seq<RelayCandidate>,
    as_of: u64,
    url: Seq<char>,
    count: int,
)
    ensures
        0 <= winner_count(candidates, as_of, url, Mode::Read, count) <= winner_count(
            candidates,
            as_of,
            url,
            Mode::Any,
            count,
        ),
        0 <= winner_count(candidates, as_of, url, Mode::Write, count) <= winner_count(
            candidates,
            as_of,
            url,
            Mode::Any,
            count,
        ),
    decreases count,
{
    if count > 0 {
        lemma_winner_nonnegative(candidates, as_of, url, count - 1);
        lemma_member_nonnegative(
            candidates[count - 1].memberships@,
            url,
            candidates[count - 1].memberships@.len() as int,
        );
    }
}

/// Memberships counted before membership `c` of winning candidate `i`.
spec fn counted_before(
    candidates: Seq<RelayCandidate>,
    as_of: u64,
    url: Seq<char>,
    mode: Mode,
    i: int,
    c: int,
) -> int {
    winner_count(candidates, as_of, url, mode, i) + member_count(
        candidates[i].memberships@,
        url,
        mode,
        c,
    )
}

/// The map holds the counts of every relay.
spec fn holds_counts(
    map: TextMap<(u64, u64, u64)>,
    any: spec_fn(Seq<char>) -> int,
    read: spec_fn(Seq<char>) -> int,
    write: spec_fn(Seq<char>) -> int,
) -> bool {
    forall|url: Seq<char>|
        {
            &&& #[trigger] map.map().contains_key(url) <==> any(url) > 0
            &&& map.map().contains_key(url) ==> {
                &&& map.map()[url].0 == any(url)
                &&& map.map()[url].1 == read(url)
                &&& map.map()[url].2 == write(url)
            }
        }
}

/// The map holds the counts of the first `i` candidates.
spec fn tallies_winners(
    map: TextMap<(u64, u64, u64)>,
    candidates: Seq<RelayCandidate>,
    as_of: u64,
    i: int,
) -> bool {
    holds_counts(
        map,
        |url: Seq<char>| winner_count(candidates, as_of, url, Mode::Any, i),
        |url: Seq<char>| winner_count(candidates, as_of, url, Mode::Read, i),
        |url: Seq<char>| winner_count(candidates, as_of, url, Mode::Write, i),
    )
}

/// The map holds the counts up to membership `c` of candidate `i`.
spec fn tallies_within(
    map: TextMap<(u64, u64, u64)>,
    candidates: Seq<RelayCandidate>,
    as_of: u64,
    i: int,
    c: int,
) -> bool {
    holds_counts(
        map,
        |url: Seq<char>| counted_before(candidates, as_of, url, Mode::Any, i, c),
        |url: Seq<char>| counted_before(candidates, as_of, url, Mode::Read, i, c),
        |url: Seq<char>| counted_before(candidates, as_of, url, Mode::Write, i, c),
    )
}

/// The users of some relay leave the counter range.
pub open spec fn users_overflow(candidates: Seq<RelayCandidate>, as_of: u64) -> bool {
    exists|url: Seq<char>| #[trigger]
        relay_count(candidates, as_of, url, Mode::Any) > u64::MAX
}

/// Add the memberships of one winning candidate.
fn add_memberships(
    map: &mut TextMap<(u64, u64, u64)>,
    candidates: &Vec<RelayCandidate>,
    index: usize,
    Ghost(as_of): Ghost<u64>,
) -> (outcome: Result<()>)
    requires
        old(map).wf(),
        index < candidates@.len(),
        is_winner(candidates@, as_of, index as int),
        tallies_winners(*old(map), candidates@, as_of, index as int),
    ensures
        final(map).wf(),
        match outcome {
            Ok(()) => tallies_winners(*final(map), candidates@, as_of, index + 1),
            Err(error) => error is Invalid && users_overflow(candidates@, as_of),
        },
{
    let ghost all = candidates@;
    let ghost i = index as int;
    let ghost members = all[i].memberships@;
    let mut c: usize = 0;
    proof {
        assert(tallies_within(*map, all, as_of, i, 0)) by {
            assert forall|url: Seq<char>|
                {
                    &&& #[trigger] map.map().contains_key(url) <==> counted_before(
                        all,
                        as_of,
                        url,
                        Mode::Any,
                        i,
                        0,
                    ) > 0
                    &&& map.map().contains_key(url) ==> {
                        &&& map.map()[url].0 == counted_before(all, as_of, url, Mode::Any, i, 0)
                        &&& map.map()[url].1 == counted_before(all, as_of, url, Mode::Read, i, 0)
                        &&& map.map()[url].2 == counted_before(all, as_of, url, Mode::Write, i, 0)
                    }
                } by {
                assert(map.map().contains_key(url) <==> winner_count(all, as_of, url, Mode::Any, i)
                    > 0);
            }
        }
    }
    while c < candidates[index].memberships.len()
        invariant
            c <= members.len(),
            index < candidates@.len(),
            all == candidates@,
            i == index,
            members == all[i].memberships@,
            is_winner(all, as_of, i),
            map.wf(),
            tallies_within(*map, all, as_of, i, c as int),
        decreases members.len() - c,
    {
        let membership: &RelayMembership = &candidates[index].memberships[c];
        let ghost name = membership.relay_url@;
        let ghost before = map.map();
        let known: (u64, u64, u64) = match map.find(membership.relay_url.as_str()) {
            Some(place) => map.entries[place].1,
            None => (0, 0, 0),
        };
        proof {
            assert(before.contains_key(name) <==> counted_before(
                all,
                as_of,
                name,
                Mode::Any,
                i,
                c as int,
            ) > 0);
            lemma_winner_bounds(all, as_of, name, i);
            lemma_winner_bounds(all, as_of, name, i + 1);
            lemma_member_bounds(members, name, c as int);
            lemma_member_bounds(members, name, c + 1);
        }
        if known.0 == u64::MAX {
            proof {
                assert(counted_before(all, as_of, name, Mode::Any, i, c + 1) > u64::MAX);
                assert(relay_count(all, as_of, name, Mode::Any) > u64::MAX);
            }
            return Err(Error::Invalid("relay users overflowed"));
        }
        let reads: u64 = if membership.read {
            known.1 + 1
        } else {
            known.1
        };
        let writes: u64 = if membership.write {
            known.2 + 1
        } else {
            known.2
        };
        map.insert(membership.relay_url.clone(), (known.0 + 1, reads, writes));
        proof {
            assert forall|url: Seq<char>|
                {
                    &&& #[trigger] map.map().contains_key(url) <==> counted_before(
                        all,
                        as_of,
                        url,
                        Mode::Any,
                        i,
                        c + 1,
                    ) > 0
                    &&& map.map().contains_key(url) ==> {
                        &&& map.map()[url].0 == counted_before(all, as_of, url, Mode::Any, i, c + 1)
                        &&& map.map()[url].1 == counted_before(
                            all,
                            as_of,
                            url,
                            Mode::Read,
                            i,
                            c + 1,
                        )
                        &&& map.map()[url].2 == counted_before(
                            all,
                            as_of,
                            url,
                            Mode::Write,
                            i,
                            c + 1,
                        )
                    }
                } by {
                assert(before.contains_key(url) <==> counted_before(
                    all,
                    as_of,
                    url,
                    Mode::Any,
                    i,
                    c as int,
                ) > 0);
            }
        }
        c += 1;
    }
    proof {
        assert forall|url: Seq<char>|
            {
                &&& #[trigger] map.map().contains_key(url) <==> winner_count(
                    all,
                    as_of,
                    url,
                    Mode::Any,
                    i + 1,
                ) > 0
                &&& map.map().contains_key(url) ==> {
                    &&& map.map()[url].0 == winner_count(all, as_of, url, Mode::Any, i + 1)
                    &&& map.map()[url].1 == winner_count(all, as_of, url, Mode::Read, i + 1)
                    &&& map.map()[url].2 == winner_count(all, as_of, url, Mode::Write, i + 1)
                }
            } by {
            assert(map.map().contains_key(url) <==> counted_before(
                all,
                as_of,
                url,
                Mode::Any,
                i,
                members.len() as int,
            ) > 0);
        }
    }
    Ok(())
}

/// Count the relays of the winning candidates.
fn count_relays(candidates: &Vec<RelayCandidate>, as_of: u64) -> (outcome: Result<
    TextMap<(u64, u64, u64)>,
>)
    requires
        ids_differ(candidates@),
    ensures
        match outcome {
            Ok(map) => map.wf() && tallies_winners(
                map,
                candidates@,
                as_of,
                candidates@.len() as int,
            ),
            Err(error) => error is Invalid && users_overflow(candidates@, as_of),
        },
{
    let winners: Vec<bool> = mark_winners(candidates, as_of);
    let mut map: TextMap<(u64, u64, u64)> = TextMap::new();
    let mut i: usize = 0;
    while i < candidates.len()
        invariant
            i <= candidates@.len(),
            winners@.len() == candidates@.len(),
            forall|k: int|
                0 <= k < winners@.len() ==> (#[trigger] winners@[k]) == is_winner(
                    candidates@,
                    as_of,
                    k,
                ),
            map.wf(),
            tallies_winners(map, candidates@, as_of, i as int),
        decreases candidates.len() - i,
    {
        if winners[i] {
            match add_memberships(&mut map, candidates, i, Ghost(as_of)) {
                Ok(()) => {},
                Err(error) => {
                    return Err(error);
                },
            }
        } else {
            proof {
                assert forall|url: Seq<char>|
                    {
                        &&& #[trigger] map.map().contains_key(url) <==> winner_count(
                            candidates@,
                            as_of,
                            url,
                            Mode::Any,
                            i + 1,
                        ) > 0
                        &&& map.map().contains_key(url) ==> {
                            &&& map.map()[url].0 == winner_count(
                                candidates@,
                                as_of,
                                url,
                                Mode::Any,
                                i + 1,
                            )
                            &&& map.map()[url].1 == winner_count(
                                candidates@,
                                as_of,
                                url,
                                Mode::Read,
                                i + 1,
                            )
                            &&& map.map()[url].2 == winner_count(
                                candidates@,
                                as_of,
                                url,
                                Mode::Write,
                                i + 1,
                            )
                        }
                    } by {
                    assert(map.map().contains_key(url) <==> winner_count(
                        candidates@,
                        as_of,
                        url,
                        Mode::Any,
                        i as int,
                    ) > 0);
                }
            }
        }
        i += 1;
    }
    Ok(map)
}

/// The row holds the counts of its relay, which has enough users.
pub open spec fn describes_relay(
    row: RelayDistributionRow,
    candidates: Seq<RelayCandidate>,
    as_of: u64,
    minimum_users: u64,
) -> bool {
    &&& row.user_count == relay_count(candidates, as_of, row.relay_url@, Mode::Any)
    &&& row.read_count == relay_count(candidates, as_of, row.relay_url@, Mode::Read)
    &&& row.write_count == relay_count(candidates, as_of, row.relay_url@, Mode::Write)
    &&& row.user_count > 0
    &&& row.user_count >= minimum_users
}

/// Some row is that of the relay.
pub open spec fn has_relay(rows: Seq<RelayDistributionRow>, url: Seq<char>) -> bool {
    exists|i: int| 0 <= i < rows.len() && #[trigger] url_at(rows, i) == url
}

/// Relay of row `i`.
pub open spec fn url_at(rows: Seq<RelayDistributionRow>, i: int) -> Seq<char> {
    rows[i].relay_url@
}

/// `rows` is the distribution of the winning lists: every relay with enough
/// users once, more users first, then the smaller URL.
pub open spec fn distributes(
    rows: Seq<RelayDistributionRow>,
    candidates: Seq<RelayCandidate>,
    as_of: u64,
    minimum_users: u64,
) -> bool {
    &&& in_order(rows)
    &&& forall|i: int, j: int|
        0 <= i < j < rows.len() ==> #[trigger] url_at(rows, i) != #[trigger] url_at(rows, j)
    &&& forall|i: int|
        0 <= i < rows.len() ==> describes_relay(
            #[trigger] rows[i],
            candidates,
            as_of,
            minimum_users,
        )
    &&& forall|url: Seq<char>|
        {
            let users = #[trigger] relay_count(candidates, as_of, url, Mode::Any);
            users > 0 && users >= minimum_users ==> has_relay(rows, url)
        }
}

/// The current relay distribution of candidate lists.
pub fn materialize_rows(
    candidates: &Vec<RelayCandidate>,
    as_of: u64,
    minimum_users: u64,
) -> (outcome: Result<Vec<RelayDistributionRow>>)
    requires
        ids_differ(candidates@),
    ensures
        outcome is Ok <==> !users_overflow(candidates@, as_of),
        match outcome {
            Ok(rows) => distributes(rows@, candidates@, as_of, minimum_users),
            Err(error) => error is Invalid,
        },
{
    let map: TextMap<(u64, u64, u64)> = match count_relays(candidates, as_of) {
        Ok(map) => map,
        Err(error) => {
            return Err(error);
        },
    };
    let ghost all = candidates@;
    assert(!users_overflow(all, as_of)) by {
        assert forall|url: Seq<char>| (#[trigger] relay_count(all, as_of, url, Mode::Any))
            <= u64::MAX by {
            assert(map.map().contains_key(url) <==> winner_count(
                all,
                as_of,
                url,
                Mode::Any,
                all.len() as int,
            ) > 0);
        }
    }
    let mut rows: Vec<RelayDistributionRow> = Vec::new();
    let mut i: usize = 0;
    while i < map.entries.len()
        invariant
            i <= map.entries@.len(),
            all == candidates@,
            map.wf(),
            tallies_winners(map, all, as_of, all.len() as int),
            forall|k: int|
                0 <= k < rows@.len() ==> describes_relay(
                    #[trigger] rows@[k],
                    all,
                    as_of,
                    minimum_users,
                ),
            forall|k: int, l: int|
                0 <= k < l < rows@.len() ==> #[trigger] url_at(rows@, k) != #[trigger] url_at(
                    rows@,
                    l,
                ),
            forall|k: int|
                0 <= k < rows@.len() ==> exists|e: int|
                    0 <= e < i && #[trigger] map.entries@[e].0@ == #[trigger] url_at(rows@, k),
            forall|e: int|
                0 <= e < i && (#[trigger] map.entries@[e]).1.0 >= minimum_users ==> has_relay(
                    rows@,
                    map.entries@[e].0@,
                ),
        decreases map.entries.len() - i,
    {
        let counts: (u64, u64, u64) = map.entries[i].1;
        let ghost before = rows@;
        let ghost name = map.entries@[i as int].0@;
        proof {
            assert(map.at(name, i as int));
            map.lemma_at(name, i as int);
            assert(map.map().contains_key(name) <==> winner_count(
                all,
                as_of,
                name,
                Mode::Any,
                all.len() as int,
            ) > 0);
        }
        if counts.0 >= minimum_users {
            let row: RelayDistributionRow = RelayDistributionRow {
                relay_url: map.entries[i].0.clone(),
                user_count: counts.0,
                read_count: counts.1,
                write_count: counts.2,
            };
            rows.push(row);
            proof {
                assert(describes_relay(row, all, as_of, minimum_users));
                assert(url_at(rows@, before.len() as int) == name);
                assert forall|k: int, l: int| 0 <= k < l < rows@.len() implies #[trigger] url_at(
                    rows@,
                    k,
                ) != #[trigger] url_at(rows@, l) by {
                    if l < before.len() {
                        assert(url_at(before, k) != url_at(before, l));
                    } else {
                        assert(url_at(before, k) == url_at(rows@, k));
                        let e = choose|e: int|
                            0 <= e < i && #[trigger] map.entries@[e].0@ == url_at(before, k);
                        assert(map.at(map.entries@[e].0@, e));
                        if map.entries@[e].0@ == name {
                            assert(map.at(name, e));
                        }
                    }
                }
            }
        }
        proof {
            assert forall|k: int| 0 <= k < rows@.len() implies exists|e: int|
                0 <= e < i + 1 && #[trigger] map.entries@[e].0@ == #[trigger] url_at(rows@, k) by {
                if k < before.len() {
                    assert(url_at(before, k) == url_at(rows@, k));
                    let e = choose|e: int|
                        0 <= e < i && #[trigger] map.entries@[e].0@ == url_at(before, k);
                    assert(map.entries@[e].0@ == url_at(rows@, k));
                } else {
                    assert(map.entries@[i as int].0@ == url_at(rows@, k));
                }
            }
            assert forall|e: int|
                0 <= e < i + 1 && (#[trigger] map.entries@[e]).1.0 >= minimum_users implies has_relay(
                rows@,
                map.entries@[e].0@,
            ) by {
                if e < i {
                    assert(has_relay(before, map.entries@[e].0@));
                    let k = choose|k: int|
                        0 <= k < before.len() && #[trigger] url_at(before, k)
                            == map.entries@[e].0@;
                    assert(url_at(rows@, k) == map.entries@[e].0@);
                } else {
                    assert(url_at(rows@, before.len() as int) == name);
                }
            }
        }
        i += 1;
    }
    let ghost listed = rows@;
    proof {
        assert forall|url: Seq<char>|
            {
                let users = #[trigger] relay_count(all, as_of, url, Mode::Any);
                users > 0 && users >= minimum_users ==> has_relay(listed, url)
            } by {
            let users = relay_count(all, as_of, url, Mode::Any);
            if users > 0 && users >= minimum_users {
                assert(map.map().contains_key(url) <==> winner_count(
                    all,
                    as_of,
                    url,
                    Mode::Any,
                    all.len() as int,
                ) > 0);
                let e = choose|e: int| #[trigger] map.at(url, e);
                map.lemma_at(url, e);
                assert(map.entries@[e].1.0 >= minimum_users);
            }
        }
    }
    let sorted: Vec<RelayDistributionRow> = sort_ordered(rows);
    proof {
        lemma_sorted_distribution(sorted@, listed, all, as_of, minimum_users);
    }
    Ok(sorted)
}

/// Sorting the listed relays gives the distribution.
proof fn lemma_sorted_distribution(
    sorted: Seq<RelayDistributionRow>,
    listed: Seq<RelayDistributionRow>,
    candidates: Seq<RelayCandidate>,
    as_of: u64,
    minimum_users: u64,
)
    requires
        sorts(sorted, listed),
        forall|i: int, j: int|
            0 <= i < j < listed.len() ==> #[trigger] url_at(listed, i) != #[trigger] url_at(
                listed,
                j,
            ),
        forall|i: int|
            0 <= i < listed.len() ==> describes_relay(
                #[trigger] listed[i],
                candidates,
                as_of,
                minimum_users,
            ),
        forall|url: Seq<char>|
            {
                let users = #[trigger] relay_count(candidates, as_of, url, Mode::Any);
                users > 0 && users >= minimum_users ==> has_relay(listed, url)
            },
    ensures
        distributes(sorted, candidates, as_of, minimum_users),
{
    broadcast use vstd::seq_lib::group_to_multiset_ensures;
    lemma_sorts_members(sorted, listed);
    assert forall|i: int, j: int| 0 <= i < j < sorted.len() implies #[trigger] url_at(sorted, i)
        != #[trigger] url_at(sorted, j) by {
        if url_at(sorted, i) == url_at(sorted, j) {
            let a = sorted[i];
            let b = sorted[j];
            assert(sorted.contains(a) && sorted.contains(b));
            let p = choose|p: int| 0 <= p < listed.len() && listed[p] == a;
            let q = choose|q: int| 0 <= q < listed.len() && listed[q] == b;
            assert(url_at(listed, p) == url_at(listed, q));
            assert(p == q);
            let (r, t) = lemma_repeats(sorted, listed, i, j);
            assert(url_at(listed, r) == url_at(listed, t));
        }
    }
    assert forall|i: int| 0 <= i < sorted.len() implies describes_relay(
        #[trigger] sorted[i],
        candidates,
        as_of,
        minimum_users,
    ) by {
        assert(sorted.contains(sorted[i]));
        let p = choose|p: int| 0 <= p < listed.len() && listed[p] == sorted[i];
        assert(describes_relay(listed[p], candidates, as_of, minimum_users));
    }
    assert forall|url: Seq<char>|
        {
            let users = #[trigger] relay_count(candidates, as_of, url, Mode::Any);
            users > 0 && users >= minimum_users ==> has_relay(sorted, url)
        } by {
        let users = relay_count(candidates, as_of, url, Mode::Any);
        if users > 0 && users >= minimum_users {
            assert(has_relay(listed, url));
            let k = choose|k: int| 0 <= k < listed.len() && #[trigger] url_at(listed, k) == url;
            assert(listed.contains(listed[k]));
            assert(sorted.contains(listed[k]));
            let p = choose|p: int| 0 <= p < sorted.len() && sorted[p] == listed[k];
            assert(url_at(sorted, p) == url);
        }
    }
}

/// Replacing lists is transitive.
proof fn lemma_supersedes_transitive(
    a: RelayListIdentity,
    b: RelayListIdentity,
    c: RelayListIdentity,
)
    requires
        supersedes(a, b),
        supersedes(b, c),
    ensures
        supersedes(a, c),
{
    if a.created_at == b.created_at && b.created_at == c.created_at {
        lemma_lex_transitive(c.event_id@, b.event_id@, a.event_id@);
    }
}

/// Among the first `count` candidates, some list of the publisher is replaced by
/// no other.
proof fn lemma_best_list(
    candidates: Seq<RelayCandidate>,
    as_of: u64,
    start: int,
    count: int,
) -> (best: int)
    requires
        is_eligible(candidates, as_of, start),
        start < count <= candidates.len(),
    ensures
        is_eligible(candidates, as_of, best),
        candidates[best].pubkey@ == candidates[start].pubkey@,
        forall|j: int|
            0 <= j < count && #[trigger] is_eligible(candidates, as_of, j) && candidates[j].pubkey@
                == candidates[start].pubkey@ ==> !supersedes(
                identity_of(candidates[j]),
                identity_of(candidates[best]),
            ),
    decreases count,
{
    let last = count - 1;
    if start == last {
        lemma_best_before(candidates, as_of, start, last, start)
    } else {
        let earlier = lemma_best_list(candidates, as_of, start, count - 1);
        if is_eligible(candidates, as_of, last) && candidates[last].pubkey@
            == candidates[start].pubkey@ && supersedes(
            identity_of(candidates[last]),
            identity_of(candidates[earlier]),
        ) {
            assert forall|j: int|
                0 <= j < count && #[trigger] is_eligible(candidates, as_of, j)
                    && candidates[j].pubkey@ == candidates[start].pubkey@ implies !supersedes(
                identity_of(candidates[j]),
                identity_of(candidates[last]),
            ) by {
                lemma_one_list_wins(identity_of(candidates[j]), identity_of(candidates[last]));
                if supersedes(identity_of(candidates[j]), identity_of(candidates[last])) {
                    lemma_supersedes_transitive(
                        identity_of(candidates[j]),
                        identity_of(candidates[last]),
                        identity_of(candidates[earlier]),
                    );
                }
            }
            last
        } else {
            earlier
        }
    }
}

/// The better of `best` and the earlier lists of its publisher.
proof fn lemma_best_before(
    candidates: Seq<RelayCandidate>,
    as_of: u64,
    start: int,
    count: int,
    best: int,
) -> (found: int)
    requires
        is_eligible(candidates, as_of, start),
        is_eligible(candidates, as_of, best),
        candidates[best].pubkey@ == candidates[start].pubkey@,
        0 <= count <= candidates.len(),
    ensures
        is_eligible(candidates, as_of, found),
        candidates[found].pubkey@ == candidates[start].pubkey@,
        !supersedes(identity_of(candidates[best]), identity_of(candidates[found])),
        forall|j: int|
            0 <= j < count && #[trigger] is_eligible(candidates, as_of, j) && candidates[j].pubkey@
                == candidates[start].pubkey@ ==> !supersedes(
                identity_of(candidates[j]),
                identity_of(candidates[found]),
            ),
    decreases count,
{
    lemma_one_list_wins(identity_of(candidates[best]), identity_of(candidates[best]));
    if count == 0 {
        best
    } else {
        let found = lemma_best_before(candidates, as_of, start, count - 1, best);
        let last = count - 1;
        if is_eligible(candidates, as_of, last) && candidates[last].pubkey@
            == candidates[start].pubkey@ && supersedes(
            identity_of(candidates[last]),
            identity_of(candidates[found]),
        ) {
            assert forall|j: int|
                (0 <= j < count || j == best) && #[trigger] is_eligible(candidates, as_of, j)
                    && candidates[j].pubkey@ == candidates[start].pubkey@ implies !supersedes(
                identity_of(candidates[j]),
                identity_of(candidates[last]),
            ) by {
                lemma_one_list_wins(identity_of(candidates[j]), identity_of(candidates[last]));
                if supersedes(identity_of(candidates[j]), identity_of(candidates[last])) {
                    lemma_supersedes_transitive(
                        identity_of(candidates[j]),
                        identity_of(candidates[last]),
                        identity_of(candidates[found]),
                    );
                }
            }
            last
        } else {
            found
        }
    }
}

/// Every publisher with an eligible list has exactly one winning list.
pub proof fn lemma_one_winner(candidates: Seq<RelayCandidate>, as_of: u64, start: int) -> (winner:
    int)
    requires
        ids_differ(candidates),
        is_eligible(candidates, as_of, start),
    ensures
        is_winner(candidates, as_of, winner),
        candidates[winner].pubkey@ == candidates[start].pubkey@,
        forall|i: int| #[trigger]
            is_winner(candidates, as_of, i) && candidates[i].pubkey@ == candidates[start].pubkey@
                ==> i == winner,
{
    let winner = lemma_best_list(candidates, as_of, start, candidates.len() as int);
    assert(is_winner(candidates, as_of, winner));
    assert forall|i: int| #[trigger]
        is_winner(candidates, as_of, i) && candidates[i].pubkey@
            == candidates[start].pubkey@ implies i == winner by {
        lemma_one_list_wins(identity_of(candidates[i]), identity_of(candidates[winner]));
        assert(is_eligible(candidates, as_of, i));
        assert(is_eligible(candidates, as_of, winner));
        assert(id_at(candidates, i) == id_at(candidates, winner));
    }
    winner
}

/// The rows hold the same values.
pub open spec fn same_relay(a: RelayDistributionRow, b: RelayDistributionRow) -> bool {
    &&& a.relay_url@ == b.relay_url@
    &&& a.user_count == b.user_count
    &&& a.read_count == b.read_count
    &&& a.write_count == b.write_count
}

/// The rows agree pairwise.
pub open spec fn same_relays(
    a: Seq<RelayDistributionRow>,
    b: Seq<RelayDistributionRow>,
) -> bool {
    &&& a.len() == b.len()
    &&& forall|i: int| 0 <= i < a.len() ==> #[trigger] same_relay(a[i], b[i])
}

/// Whether the rows agree pairwise.
pub fn relays_equal(a: &Vec<RelayDistributionRow>, b: &Vec<RelayDistributionRow>) -> (same: bool)
    ensures
        same == same_relays(a@, b@),
{
    if a.len() != b.len() {
        return false;
    }
    let mut i: usize = 0;
    while i < a.len()
        invariant
            i <= a@.len(),
            a@.len() == b@.len(),
            forall|j: int| 0 <= j < i ==> #[trigger] same_relay(a@[j], b@[j]),
        decreases a.len() - i,
    {
        if !text_equal(a[i].relay_url.as_str(), b[i].relay_url.as_str()) || a[i].user_count
            != b[i].user_count || a[i].read_count != b[i].read_count || a[i].write_count
            != b[i].write_count {
            assert(!same_relay(a@[i as int], b@[i as int]));
            return false;
        }
        i += 1;
    }
    true
}

/// There is one distribution.
pub proof fn lemma_distribution_unique(
    a: Seq<RelayDistributionRow>,
    b: Seq<RelayDistributionRow>,
    candidates: Seq<RelayCandidate>,
    as_of: u64,
    minimum_users: u64,
)
    requires
        distributes(a, candidates, as_of, minimum_users),
    ensures
        distributes(b, candidates, as_of, minimum_users) <==> same_relays(a, b),
{
    if distributes(b, candidates, as_of, minimum_users) {
        let n = if a.len() < b.len() {
            a.len() as int
        } else {
            b.len() as int
        };
        lemma_distribution_prefix(a, b, candidates, as_of, minimum_users, n);
        if a.len() < b.len() {
            lemma_has_row(a, b, candidates, as_of, minimum_users, n);
            let i = choose|i: int|
                0 <= i < a.len() && #[trigger] url_at(a, i) == url_at(b, n);
            assert(same_relay(a[i], b[i]));
            assert(url_at(b, i) == url_at(b, n));
        }
        if b.len() < a.len() {
            lemma_has_row(b, a, candidates, as_of, minimum_users, n);
            let i = choose|i: int|
                0 <= i < b.len() && #[trigger] url_at(b, i) == url_at(a, n);
            assert(same_relay(a[i], b[i]));
            assert(url_at(a, i) == url_at(a, n));
        }
    }
    if same_relays(a, b) {
        assert forall|i: int| 0 <= i < b.len() implies #[trigger] url_at(b, i) == url_at(a, i) by {
            assert(same_relay(a[i], b[i]));
        }
        assert forall|i: int, j: int| 0 <= i < j < b.len() implies #[trigger] b[i].at_most(
            #[trigger] b[j],
        ) by {
            assert(same_relay(a[i], b[i]));
            assert(same_relay(a[j], b[j]));
            assert(a[i].at_most(a[j]));
        }
        assert forall|i: int, j: int| 0 <= i < j < b.len() implies #[trigger] url_at(b, i)
            != #[trigger] url_at(b, j) by {
            assert(url_at(a, i) != url_at(a, j));
        }
        assert forall|i: int| 0 <= i < b.len() implies describes_relay(
            #[trigger] b[i],
            candidates,
            as_of,
            minimum_users,
        ) by {
            assert(same_relay(a[i], b[i]));
            assert(describes_relay(a[i], candidates, as_of, minimum_users));
        }
        assert forall|url: Seq<char>|
            {
                let users = #[trigger] relay_count(candidates, as_of, url, Mode::Any);
                users > 0 && users >= minimum_users ==> has_relay(b, url)
            } by {
            let users = relay_count(candidates, as_of, url, Mode::Any);
            if users > 0 && users >= minimum_users {
                assert(has_relay(a, url));
                let k = choose|k: int| 0 <= k < a.len() && #[trigger] url_at(a, k) == url;
                assert(url_at(b, k) == url);
            }
        }
    }
}

/// A row of the one distribution is in the other.
proof fn lemma_has_row(
    a: Seq<RelayDistributionRow>,
    b: Seq<RelayDistributionRow>,
    candidates: Seq<RelayCandidate>,
    as_of: u64,
    minimum_users: u64,
    i: int,
)
    requires
        distributes(a, candidates, as_of, minimum_users),
        distributes(b, candidates, as_of, minimum_users),
        0 <= i < b.len(),
    ensures
        has_relay(a, url_at(b, i)),
{
    assert(describes_relay(b[i], candidates, as_of, minimum_users));
    assert(relay_count(candidates, as_of, url_at(b, i), Mode::Any) > 0);
}

/// Distributions agree as far as both reach.
proof fn lemma_distribution_prefix(
    a: Seq<RelayDistributionRow>,
    b: Seq<RelayDistributionRow>,
    candidates: Seq<RelayCandidate>,
    as_of: u64,
    minimum_users: u64,
    n: int,
)
    requires
        distributes(a, candidates, as_of, minimum_users),
        distributes(b, candidates, as_of, minimum_users),
        0 <= n <= a.len(),
        n <= b.len(),
    ensures
        forall|i: int| 0 <= i < n ==> #[trigger] same_relay(a[i], b[i]),
    decreases n,
{
    if n > 0 {
        lemma_distribution_prefix(a, b, candidates, as_of, minimum_users, n - 1);
        let x = a[n - 1];
        let y = b[n - 1];
        lemma_has_row(b, a, candidates, as_of, minimum_users, n - 1);
        lemma_has_row(a, b, candidates, as_of, minimum_users, n - 1);
        let j = choose|j: int| 0 <= j < b.len() && #[trigger] url_at(b, j) == url_at(a, n - 1);
        let k = choose|k: int| 0 <= k < a.len() && #[trigger] url_at(a, k) == url_at(b, n - 1);
        assert(describes_relay(x, candidates, as_of, minimum_users));
        assert(describes_relay(y, candidates, as_of, minimum_users));
        assert(describes_relay(a[k], candidates, as_of, minimum_users));
        assert(describes_relay(b[j], candidates, as_of, minimum_users));
        if j < n - 1 {
            assert(same_relay(a[j], b[j]));
            assert(url_at(a, j) == url_at(a, n - 1));
        }
        if k < n - 1 {
            assert(same_relay(a[k], b[k]));
            assert(url_at(b, k) == url_at(b, n - 1));
        }
        if x.relay_url@ != y.relay_url@ {
            assert(b[n - 1].at_most(b[j]));
            assert(a[n - 1].at_most(a[k]));
            lemma_text_order(x.relay_url@, y.relay_url@);
        }
    }
}

} // verus!
