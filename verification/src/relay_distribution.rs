//! Exact deterministic semantics of the current relay distribution.

use vstd::prelude::*;
use vstd::string::*;

use crate::bytes::{bytes_less, lex_less};
use crate::text::text_equal;
use crate::text_map::{text_less, TextMap};

verus! {

/// Stable current-state product version.
pub const RELAY_DISTRIBUTION_VERSION: &'static str = "relay-distribution-current-v1";

/// Canonical identity used to choose one latest relay list of each publisher.
#[derive(Clone, Copy, Debug, PartialEq, Eq, PartialOrd, Ord)]
pub struct RelayListIdentity {
    /// Event creation time in Unix seconds.
    pub created_at: u64,
    /// Canonical event ID used as the deterministic equal-time tie-breaker.
    pub event_id: [u8; 32],
}

/// Deduplicated membership contributed by one winning event.
#[derive(Clone, Debug, PartialEq, Eq)]
pub struct RelayMembership {
    /// Canonical public secure-websocket URL.
    pub relay_url: String,
    /// The event permits reading from this relay.
    pub read: bool,
    /// The event permits writing to this relay.
    pub write: bool,
}

/// One final relay distribution row.
#[derive(Clone, Debug, PartialEq, Eq)]
pub struct RelayDistributionRow {
    /// Canonical relay URL.
    pub relay_url: String,
    /// Unique winning publishers that list the relay in any mode.
    pub user_count: u64,
    /// Unique winning publishers that list the relay for reads.
    pub read_count: u64,
    /// Unique winning publishers that list the relay for writes.
    pub write_count: u64,
}

/// `candidate` is later than `current`, or as late with the larger event ID.
pub open spec fn supersedes(candidate: RelayListIdentity, current: RelayListIdentity) -> bool {
    ||| candidate.created_at > current.created_at
    ||| candidate.created_at == current.created_at && lex_less(
        current.event_id@,
        candidate.event_id@,
    )
}

/// Return whether `candidate` deterministically replaces `current`.
pub fn relay_list_wins(candidate: RelayListIdentity, current: RelayListIdentity) -> (wins: bool)
    ensures
        wins == supersedes(candidate, current),
{
    if candidate.created_at != current.created_at {
        return candidate.created_at > current.created_at;
    }
    bytes_less(current.event_id.as_slice(), candidate.event_id.as_slice())
}

/// Of two different lists one wins, and never both.
pub proof fn lemma_one_list_wins(a: RelayListIdentity, b: RelayListIdentity)
    ensures
        !(supersedes(a, b) && supersedes(b, a)),
        supersedes(a, b) || supersedes(b, a) || (a.created_at == b.created_at && a.event_id@
            == b.event_id@),
{
    crate::bytes::lemma_lex_antisymmetric(a.event_id@, b.event_id@);
    crate::bytes::lemma_lex_total(a.event_id@, b.event_id@);
}

/// The tag is a relay tag.
pub open spec fn is_relay_tag(tag: Seq<String>) -> bool {
    tag.len() > 0 && tag[0]@ == "r"@
}

/// The tag names the relay, given what its second position was normalized to.
pub open spec fn names_relay(
    tag: Seq<String>,
    normalized: Option<String>,
    url: Seq<char>,
) -> bool {
    is_relay_tag(tag) && tag.len() > 1 && normalized is Some && normalized->0@ == url
}

/// Marker of a relay tag, empty where there is none.
pub open spec fn marker(tag: Seq<String>) -> Seq<char> {
    if tag.len() > 2 {
        tag[2]@
    } else {
        ""@
    }
}

/// The marker permits reading.
pub open spec fn permits_read(marker: Seq<char>) -> bool {
    marker == ""@ || marker == "read"@
}

/// The marker permits writing.
pub open spec fn permits_write(marker: Seq<char>) -> bool {
    marker == ""@ || marker == "write"@
}

/// One of the first `count` tags names the relay.
pub open spec fn lists_relay(
    tags: Seq<Vec<String>>,
    normalized: Seq<Option<String>>,
    url: Seq<char>,
    count: int,
) -> bool {
    exists|i: int|
        0 <= i < count && #[trigger] names_relay(tags[i]@, normalized[i], url)
}

/// One of the first `count` tags permits reading from the relay.
pub open spec fn reads_relay(
    tags: Seq<Vec<String>>,
    normalized: Seq<Option<String>>,
    url: Seq<char>,
    count: int,
) -> bool {
    exists|i: int|
        0 <= i < count && #[trigger] names_relay(tags[i]@, normalized[i], url) && permits_read(
            marker(tags[i]@),
        )
}

/// One of the first `count` tags permits writing to the relay.
pub open spec fn writes_relay(
    tags: Seq<Vec<String>>,
    normalized: Seq<Option<String>>,
    url: Seq<char>,
    count: int,
) -> bool {
    exists|i: int|
        0 <= i < count && #[trigger] names_relay(tags[i]@, normalized[i], url) && permits_write(
            marker(tags[i]@),
        )
}

/// Relay tags among the first `count`.
pub open spec fn relay_tags(tags: Seq<Vec<String>>, count: int) -> int
    decreases count,
{
    if count <= 0 {
        0
    } else {
        relay_tags(tags, count - 1) + if is_relay_tag(tags[count - 1]@) {
            1int
        } else {
            0int
        }
    }
}

/// The tag names a relay with a canonical URL.
pub open spec fn is_valid_tag(tag: Seq<String>, normalized: Option<String>) -> bool {
    is_relay_tag(tag) && tag.len() > 1 && normalized is Some
}

/// Tags among the first `count` that name a relay with a canonical URL.
pub open spec fn valid_tags(
    tags: Seq<Vec<String>>,
    normalized: Seq<Option<String>>,
    count: int,
) -> int
    decreases count,
{
    if count <= 0 {
        0
    } else {
        valid_tags(tags, normalized, count - 1) + if is_valid_tag(
            tags[count - 1]@,
            normalized[count - 1],
        ) {
            1int
        } else {
            0int
        }
    }
}

/// `memberships` holds every relay that the tags name once, by URL, with the
/// modes that any of its tags permits.
pub open spec fn are_memberships(
    memberships: Seq<RelayMembership>,
    tags: Seq<Vec<String>>,
    normalized: Seq<Option<String>>,
) -> bool {
    let n = tags.len() as int;
    &&& forall|i: int, j: int|
        0 <= i < j < memberships.len() ==> text_less(
            #[trigger] memberships[i].relay_url@,
            #[trigger] memberships[j].relay_url@,
        )
    &&& forall|i: int|
        0 <= i < memberships.len() ==> is_membership(
            #[trigger] memberships[i],
            tags,
            normalized,
        )
    &&& forall|url: Seq<char>| #[trigger]
        lists_relay(tags, normalized, url, n) ==> has_membership(memberships, url)
}

/// The membership is that of a relay that the tags name.
pub open spec fn is_membership(
    membership: RelayMembership,
    tags: Seq<Vec<String>>,
    normalized: Seq<Option<String>>,
) -> bool {
    let url = membership.relay_url@;
    let n = tags.len() as int;
    &&& lists_relay(tags, normalized, url, n)
    &&& membership.read == reads_relay(tags, normalized, url, n)
    &&& membership.write == writes_relay(tags, normalized, url, n)
}

/// Some membership has the URL.
pub open spec fn has_membership(memberships: Seq<RelayMembership>, url: Seq<char>) -> bool {
    exists|i: int| 0 <= i < memberships.len() && #[trigger] memberships[i].relay_url@ == url
}

/// Whether the tag is a relay tag.
pub fn tag_is_relay(tag: &Vec<String>) -> (yes: bool)
    ensures
        yes == is_relay_tag(tag@),
{
    tag.len() > 0 && text_equal(tag[0].as_str(), "r")
}

/// The modes that a relay tag permits.
fn tag_modes(tag: &Vec<String>) -> (modes: (bool, bool))
    ensures
        modes.0 == permits_read(marker(tag@)),
        modes.1 == permits_write(marker(tag@)),
{
    let text: &str = if tag.len() > 2 {
        tag[2].as_str()
    } else {
        ""
    };
    let both: bool = text_equal(text, "");
    (both || text_equal(text, "read"), both || text_equal(text, "write"))
}

/// The map holds the relays of the first `count` tags.
spec fn tracks_relays(
    map: TextMap<(bool, bool)>,
    tags: Seq<Vec<String>>,
    normalized: Seq<Option<String>>,
    count: int,
) -> bool {
    forall|url: Seq<char>|
        {
            &&& #[trigger] map.map().contains_key(url) == lists_relay(tags, normalized, url, count)
            &&& map.map().contains_key(url) ==> map.map()[url].0 == reads_relay(
                tags,
                normalized,
                url,
                count,
            ) && map.map()[url].1 == writes_relay(tags, normalized, url, count)
        }
}

/// One more tag adds what it names.
proof fn lemma_relay_step(
    tags: Seq<Vec<String>>,
    normalized: Seq<Option<String>>,
    url: Seq<char>,
    count: int,
)
    requires
        0 <= count < tags.len(),
    ensures
        ({
            let names = names_relay(tags[count]@, normalized[count], url);
            let mark = marker(tags[count]@);
            &&& lists_relay(tags, normalized, url, count + 1) == (lists_relay(
                tags,
                normalized,
                url,
                count,
            ) || names)
            &&& reads_relay(tags, normalized, url, count + 1) == (reads_relay(
                tags,
                normalized,
                url,
                count,
            ) || (names && permits_read(mark)))
            &&& writes_relay(tags, normalized, url, count + 1) == (writes_relay(
                tags,
                normalized,
                url,
                count,
            ) || (names && permits_write(mark)))
        }),
{
    let names = names_relay(tags[count]@, normalized[count], url);
    if lists_relay(tags, normalized, url, count) {
        let i = choose|i: int|
            0 <= i < count && #[trigger] names_relay(tags[i]@, normalized[i], url);
        assert(names_relay(tags[i]@, normalized[i], url));
    }
    if reads_relay(tags, normalized, url, count) {
        let i = choose|i: int|
            0 <= i < count && #[trigger] names_relay(tags[i]@, normalized[i], url) && permits_read(
                marker(tags[i]@),
            );
        assert(names_relay(tags[i]@, normalized[i], url));
    }
    if writes_relay(tags, normalized, url, count) {
        let i = choose|i: int|
            0 <= i < count && #[trigger] names_relay(tags[i]@, normalized[i], url)
                && permits_write(marker(tags[i]@));
        assert(names_relay(tags[i]@, normalized[i], url));
    }
}

/// Deduplicate the relay tags of one winning event.
///
/// `normalized` holds, for each tag, the canonical URL of its second position,
/// if it has one. Missing and empty markers mean both modes; `read` and `write`
/// enable their mode; any other marker keeps the membership and enables neither.
pub fn relay_memberships(tags: &[Vec<String>], normalized: &[Option<String>]) -> (memberships: Vec<
    RelayMembership,
>)
    requires
        normalized@.len() == tags@.len(),
    ensures
        are_memberships(memberships@, tags@, normalized@),
        memberships@.len() <= valid_tags(tags@, normalized@, tags@.len() as int),
{
    let mut by_url: TextMap<(bool, bool)> = TextMap::new();
    let mut i: usize = 0;
    proof {
        assert(tracks_relays(by_url, tags@, normalized@, 0));
    }
    while i < tags.len()
        invariant
            i <= tags@.len(),
            normalized@.len() == tags@.len(),
            by_url.wf(),
            tracks_relays(by_url, tags@, normalized@, i as int),
            by_url.entries@.len() <= valid_tags(tags@, normalized@, i as int),
        decreases tags@.len() - i,
    {
        let tag: &Vec<String> = &tags[i];
        let ghost before = by_url.map();
        proof {
            assert forall|url: Seq<char>| #![trigger lists_relay(tags@, normalized@, url, i + 1)]
                true implies {
                let names = names_relay(tags@[i as int]@, normalized@[i as int], url);
                let mark = marker(tags@[i as int]@);
                &&& lists_relay(tags@, normalized@, url, i + 1) == (lists_relay(
                    tags@,
                    normalized@,
                    url,
                    i as int,
                ) || names)
                &&& reads_relay(tags@, normalized@, url, i + 1) == (reads_relay(
                    tags@,
                    normalized@,
                    url,
                    i as int,
                ) || (names && permits_read(mark)))
                &&& writes_relay(tags@, normalized@, url, i + 1) == (writes_relay(
                    tags@,
                    normalized@,
                    url,
                    i as int,
                ) || (names && permits_write(mark)))
            } by {
                lemma_relay_step(tags@, normalized@, url, i as int);
            }
        }
        if tag_is_relay(tag) && tag.len() > 1 {
            match &normalized[i] {
                None => {},
                Some(url) => {
                    let modes: (bool, bool) = tag_modes(tag);
                    let known: (bool, bool) = match by_url.find(url.as_str()) {
                        Some(place) => by_url.entries[place].1,
                        None => (false, false),
                    };
                    proof {
                        if !before.contains_key(url@) {
                            assert(!lists_relay(tags@, normalized@, url@, i as int));
                            if reads_relay(tags@, normalized@, url@, i as int) {
                                let k = choose|k: int|
                                    0 <= k < i && #[trigger] names_relay(
                                        tags@[k]@,
                                        normalized@[k],
                                        url@,
                                    ) && permits_read(marker(tags@[k]@));
                                assert(names_relay(tags@[k]@, normalized@[k], url@));
                            }
                            if writes_relay(tags@, normalized@, url@, i as int) {
                                let k = choose|k: int|
                                    0 <= k < i && #[trigger] names_relay(
                                        tags@[k]@,
                                        normalized@[k],
                                        url@,
                                    ) && permits_write(marker(tags@[k]@));
                                assert(names_relay(tags@[k]@, normalized@[k], url@));
                            }
                        }
                        assert(before.contains_key(url@) ==> known == before[url@]);
                        assert(names_relay(tags@[i as int]@, normalized@[i as int], url@));
                    }
                    by_url.insert(url.clone(), (known.0 || modes.0, known.1 || modes.1));
                },
            }
        }
        proof {
            assert forall|url: Seq<char>|
                {
                    &&& #[trigger] by_url.map().contains_key(url) == lists_relay(
                        tags@,
                        normalized@,
                        url,
                        i + 1,
                    )
                    &&& by_url.map().contains_key(url) ==> by_url.map()[url].0 == reads_relay(
                        tags@,
                        normalized@,
                        url,
                        i + 1,
                    ) && by_url.map()[url].1 == writes_relay(tags@, normalized@, url, i + 1)
                } by {
                lemma_relay_step(tags@, normalized@, url, i as int);
                assert(before.contains_key(url) == lists_relay(tags@, normalized@, url, i as int));
            }
        }
        i += 1;
    }
    let mut memberships: Vec<RelayMembership> = Vec::new();
    let mut j: usize = 0;
    while j < by_url.entries.len()
        invariant
            j <= by_url.entries@.len(),
            memberships@.len() == j,
            forall|k: int|
                0 <= k < j ==> (#[trigger] memberships@[k]).relay_url == by_url.entries@[k].0
                    && memberships@[k].read == by_url.entries@[k].1.0 && memberships@[k].write
                    == by_url.entries@[k].1.1,
        decreases by_url.entries.len() - j,
    {
        let modes: (bool, bool) = by_url.entries[j].1;
        memberships.push(
            RelayMembership {
                relay_url: by_url.entries[j].0.clone(),
                read: modes.0,
                write: modes.1,
            },
        );
        j += 1;
    }
    proof {
        assert forall|k: int| 0 <= k < memberships@.len() implies is_membership(
            #[trigger] memberships@[k],
            tags@,
            normalized@,
        ) by {
            let url = memberships@[k].relay_url@;
            assert(by_url.at(url, k));
            by_url.lemma_at(url, k);
        }
        assert forall|url: Seq<char>| #[trigger]
            lists_relay(tags@, normalized@, url, tags@.len() as int) implies has_membership(
            memberships@,
            url,
        ) by {
            assert(by_url.map().contains_key(url));
            let k = choose|k: int| #[trigger] by_url.at(url, k);
            assert(memberships@[k].relay_url@ == url);
        }
        assert forall|a: int, b: int| 0 <= a < b < memberships@.len() implies text_less(
            #[trigger] memberships@[a].relay_url@,
            #[trigger] memberships@[b].relay_url@,
        ) by {
            assert(text_less(by_url.entries@[a].0@, by_url.entries@[b].0@));
        }
    }
    memberships
}

} // verus!
