//! What the participants of zaps are counted from.
//!
//! An identity is 41 bytes: the first second of a UTC day in eight, the role in
//! one, and the participant's key in 32.

use vstd::prelude::*;

use crate::bytes::be_bytes;
use crate::day_laws::in_day;
use crate::rollups::day_of;
use crate::semantic_totals::{SemanticPayload, SemanticRecord};
use crate::words::{cut, lemma_big_endian, lemma_records_are_cut, lemma_written_big_endian, word64};
use crate::zap_distinct::{
    cuts_groups, describes_identity, error_ppm, follows_group, group_end, holds_run, identity_at,
    identity_record, record_identities, ZapGroup, ZapParticipantRole,
};

verus! {

/// The identity is that of a participant of a zap at the second.
pub open spec fn takes_part(
    identity: Seq<u8>,
    second: u64,
    role: ZapParticipantRole,
    key: Seq<u8>,
) -> bool {
    &&& identity.len() == 41
    &&& in_day(word64(identity, 0), second as int)
    &&& role is Sender ==> identity[8] == 0
    &&& role is Recipient ==> identity[8] == 1
    &&& identity.subrange(9, 41) == key
}

/// An accepted zap up to the boundary gives one identity for its sender and one
/// for its recipient, as far as their keys are known; nothing else gives any.
pub proof fn lemma_zaps_have_two_sides(record: SemanticRecord, as_of: u64, i: int)
    ensures
        ({
            let found = record_identities(record, as_of);
            &&& record.created_at > as_of || !(record.payload is Zap) ==> found.len() == 0
            &&& record.created_at <= as_of ==> match record.payload {
                SemanticPayload::Zap { sender_pubkey, recipient_pubkey, .. } => {
                    &&& found.len() == (if sender_pubkey is Some {
                        1int
                    } else {
                        0int
                    }) + (if recipient_pubkey is Some {
                        1int
                    } else {
                        0int
                    })
                    &&& sender_pubkey is Some ==> takes_part(
                        found[0],
                        record.created_at,
                        ZapParticipantRole::Sender,
                        sender_pubkey->0@,
                    )
                    &&& recipient_pubkey is Some ==> takes_part(
                        found[found.len() - 1],
                        record.created_at,
                        ZapParticipantRole::Recipient,
                        recipient_pubkey->0@,
                    )
                },
                _ => true,
            }
        }),
{
    let day = day_of(record.created_at);
    assert forall|role: ZapParticipantRole, key: [u8; 32]| takes_part(
        #[trigger] identity_record(day, role, key@),
        record.created_at,
        role,
        key@,
    ) by {
        lemma_identity(day, role, key@);
    }
}

/// The parts of an identity.
proof fn lemma_identity(day: u64, role: ZapParticipantRole, key: Seq<u8>)
    requires
        key.len() == 32,
    ensures
        identity_record(day, role, key).len() == 41,
        word64(identity_record(day, role, key), 0) == day,
        role is Sender ==> identity_record(day, role, key)[8] == 0,
        role is Recipient ==> identity_record(day, role, key)[8] == 1,
        identity_record(day, role, key).subrange(9, 41) == key,
{
    lemma_written_big_endian(day as nat);
    let head = be_bytes(day as nat, 8);
    let identity = identity_record(day, role, key);
    assert(identity.subrange(9, 41) =~= key);
    assert(forall|i: int| 0 <= i < 8 ==> #[trigger] identity[i] == head[i]);
    assert(identity[0] == head[0] && identity[1] == head[1] && identity[2] == head[2]
        && identity[3] == head[3] && identity[4] == head[4] && identity[5] == head[5]
        && identity[6] == head[6] && identity[7] == head[7]);
}

/// Every identity of a cut artifact belongs to a group of its day and role, and
/// the group counts as many identities as it spans.
pub proof fn lemma_participant_has_its_group(groups: Seq<ZapGroup>, identities: Seq<u8>, i: int)
    requires
        cuts_groups(groups, identities, cut(identities, 41).len() as int),
        0 <= i < cut(identities, 41).len(),
    ensures
        exists|g: int|
            {
                &&& 0 <= g < groups.len()
                &&& (#[trigger] groups[g]).start <= i
                &&& i < groups[g].start + groups[g].exact_identities
                &&& groups[g].day_epoch == word64(cut(identities, 41)[i], 0)
                &&& groups[g].role is Sender ==> cut(identities, 41)[i][8] == 0
                &&& groups[g].role is Recipient ==> cut(identities, 41)[i][8] == 1
            },
{
    lemma_records_are_cut(identities, 41);
    let g = lemma_group_of(groups, identities, cut(identities, 41).len() as int, i, 0);
    let identity = cut(identities, 41)[i];
    assert(identity == identity_at(identities, i));
    assert(holds_run(groups[g], identities));
    assert(describes_identity(groups[g], identity_at(identities, i)));
    lemma_big_endian(identity, 0);
}

/// A place lies in one of the groups from `g` on.
proof fn lemma_group_of(
    groups: Seq<ZapGroup>,
    identities: Seq<u8>,
    count: int,
    i: int,
    g: int,
) -> (found: int)
    requires
        cuts_groups(groups, identities, count),
        0 <= g < groups.len(),
        groups[g].start <= i < count,
    ensures
        0 <= found < groups.len(),
        groups[found].start <= i < group_end(groups[found]),
    decreases groups.len() - g,
{
    if i < group_end(groups[g]) {
        g
    } else {
        if g + 1 < groups.len() {
            assert(follows_group(groups, g + 1, identities));
        }
        lemma_group_of(groups, identities, count, i, g + 1)
    }
}

/// The error of an estimate is its distance from the exact number in millionths
/// of this number, rounded down; it is the same above and below.
pub proof fn lemma_error_is_relative(exact: u64, distance: u64)
    requires
        exact > 0,
        distance <= exact,
        exact + distance <= u64::MAX,
        distance * 1_000_000 <= u64::MAX,
    ensures
        error_ppm(exact, (exact + distance) as u64) * exact <= distance * 1_000_000,
        distance * 1_000_000 < (error_ppm(exact, (exact + distance) as u64) + 1) * exact,
        error_ppm(exact, (exact - distance) as u64) == error_ppm(exact, (exact + distance) as u64),
        error_ppm(0, 0) == 0,
        distance > 0 ==> error_ppm(0, distance) == 1_000_000,
{
    let n = distance * 1_000_000;
    let d = exact as int;
    vstd::arithmetic::div_mod::lemma_fundamental_div_mod(n, d);
    vstd::arithmetic::div_mod::lemma_mod_bound(n, d);
    let q = n / d;
    assert(q * d == d * q && (q + 1) * d == d * q + d) by (nonlinear_arith);
    if distance == 0 {
        assert(0int / d == 0) by (nonlinear_arith)
            requires
                d > 0,
        ;
    }
}

} // verus!
