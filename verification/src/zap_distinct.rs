//! Exact zap-participant identities and mergeable daily sketches.
//!
//! An identity is a UTC day, a participant role and a publisher key. Sorted
//! identities of one day and role form the leaf of that day, whose sketch is
//! made outside and comes in as bytes with its estimate.

use vstd::prelude::*;
use vstd::string::*;

use crate::artifact::{EncodedRun, RunCheckpoint};
use crate::bytes::{
    be_bytes, be_nat, bytes_less, lemma_be_bytes_round_trip, lemma_be_limits,
    lemma_be_nat_round_trip, lemma_be_order, lemma_lex_antisymmetric, lemma_lex_join,
    lemma_lex_split, lex_less, push_be, push_bytes, read_32, read_u64,
};
use crate::calendar::floor_day;
use crate::digest::{sha256_hex, sha256_text};
use crate::error::{checked_add, Error, Result};
use crate::records::{record, record_count, PlainReader};
use crate::rollups::day_of;
use crate::run_writer::encode_unique;
use crate::semantic_totals::{SemanticPayload, SemanticRecord};
use crate::text::text_equal;
use crate::unique_sort::{lists_unique, sort_unique};

verus! {

/// Encoded bytes for day, participant role, and publisher key.
pub const ZAP_IDENTITY_BYTES: usize = 41;

/// Stable product version.
pub const ZAP_DISTINCT_VERSION: &'static str = "zap-distinct-daily-v3";

/// Schema of the completion evidence.
pub const EVIDENCE_SCHEMA_VERSION: u32 = 1;

/// Runner identity.
pub const RUNNER_VERSION: &'static str = "pensieve-analytics-zap-distinct-v3";

/// Maximum accepted relative error of a leaf.
pub const MAX_RELATIVE_ERROR_PPM: u64 = 20_000;

/// Zap participant role encoded in an identity key.
#[derive(Clone, Copy, Debug, PartialEq, Eq, Structural)]
pub enum ZapParticipantRole {
    /// Validated upper-case `P` sender.
    Sender,
    /// Validated lower-case `p` recipient.
    Recipient,
}

/// Code of a role.
pub open spec fn role_byte(role: ZapParticipantRole) -> u8 {
    match role {
        ZapParticipantRole::Sender => 0,
        ZapParticipantRole::Recipient => 1,
    }
}

impl ZapParticipantRole {
    /// Code of the role.
    pub fn code(self) -> (code: u8)
        ensures
            code == role_byte(self),
    {
        match self {
            ZapParticipantRole::Sender => 0,
            ZapParticipantRole::Recipient => 1,
        }
    }

    /// The role with a code.
    pub fn from_code(code: u8) -> (role: Result<Self>)
        ensures
            match role {
                Ok(found) => role_byte(found) == code,
                Err(error) => code > 1 && error == Error::Invalid(
                    "zap identity has an invalid participant role",
                ),
            },
    {
        match code {
            0 => Ok(ZapParticipantRole::Sender),
            1 => Ok(ZapParticipantRole::Recipient),
            _ => Err(Error::Invalid("zap identity has an invalid participant role")),
        }
    }
}

/// The encoding of an identity.
pub open spec fn identity_record(day: u64, role: ZapParticipantRole, pubkey: Seq<u8>) -> Seq<u8> {
    be_bytes(day as nat, 8).push(role_byte(role)) + pubkey
}

/// Encode an identity.
pub fn encode_identity(day_epoch: u64, role: ZapParticipantRole, pubkey: [u8; 32]) -> (encoded: [u8;
    41])
    ensures
        encoded@ == identity_record(day_epoch, role, pubkey@),
{
    let mut bytes: Vec<u8> = Vec::new();
    push_be(&mut bytes, day_epoch, 8);
    bytes.push(role.code());
    push_bytes(&mut bytes, pubkey.as_slice());
    proof {
        lemma_be_bytes_round_trip(day_epoch as nat, 8);
        assert(bytes@ =~= identity_record(day_epoch, role, pubkey@));
    }
    let mut encoded: [u8; 41] = [0u8; 41];
    let mut i: usize = 0;
    while i < 41
        invariant
            i <= 41,
            bytes@.len() == 41,
            forall|j: int| 0 <= j < i ==> encoded@[j] == bytes@[j],
        decreases 41 - i,
    {
        encoded[i] = bytes[i];
        i += 1;
    }
    assert(encoded@ =~= bytes@);
    encoded
}

/// A day boundary and a known role.
pub open spec fn is_identity(bytes: Seq<u8>) -> bool {
    &&& be_nat(bytes.subrange(0, 8)) % 86_400 == 0
    &&& bytes[8] <= 1
}

/// Decode an identity.
pub fn decode_identity(encoded: &[u8]) -> (identity: Result<(u64, ZapParticipantRole, [u8; 32])>)
    requires
        encoded@.len() == 41,
    ensures
        match identity {
            Ok((day, role, pubkey)) => {
                &&& is_identity(encoded@)
                &&& encoded@ == identity_record(day, role, pubkey@)
                &&& day == be_nat(encoded@.subrange(0, 8))
                &&& role_byte(role) == encoded@[8]
                &&& pubkey@ == encoded@.subrange(9, 41)
            },
            Err(error) => {
                &&& !is_identity(encoded@)
                &&& error == if be_nat(encoded@.subrange(0, 8)) % 86_400 != 0 {
                    Error::Invalid("zap identity day is not UTC-aligned")
                } else {
                    Error::Invalid("zap identity has an invalid participant role")
                }
            },
        },
{
    let day: u64 = read_u64(encoded, 0);
    if day % 86_400 != 0 {
        return Err(Error::Invalid("zap identity day is not UTC-aligned"));
    }
    let role: ZapParticipantRole = match ZapParticipantRole::from_code(encoded[8]) {
        Ok(role) => role,
        Err(error) => {
            return Err(error);
        },
    };
    let pubkey: [u8; 32] = read_32(encoded, 9);
    proof {
        lemma_be_nat_round_trip(encoded@.subrange(0, 8));
        assert(identity_record(day, role, pubkey@) =~= encoded@);
    }
    Ok((day, role, pubkey))
}

/// An identity is read back from its encoding.
pub proof fn lemma_identity_round_trip(day: u64, role: ZapParticipantRole, pubkey: Seq<u8>)
    requires
        pubkey.len() == 32,
    ensures
        identity_record(day, role, pubkey).len() == 41,
        be_nat(identity_record(day, role, pubkey).subrange(0, 8)) == day,
        identity_record(day, role, pubkey)[8] == role_byte(role),
        identity_record(day, role, pubkey).subrange(9, 41) == pubkey,
        day % 86_400 == 0 ==> is_identity(identity_record(day, role, pubkey)),
{
    lemma_be_limits();
    lemma_be_bytes_round_trip(day as nat, 8);
    let bytes = identity_record(day, role, pubkey);
    assert(bytes.subrange(0, 8) =~= be_bytes(day as nat, 8));
    assert(bytes.subrange(9, 41) =~= pubkey);
}

/// Encoded identities sort by day, then role, then publisher key.
pub proof fn lemma_identity_order(
    day: u64,
    role: ZapParticipantRole,
    pubkey: Seq<u8>,
    other_day: u64,
    other_role: ZapParticipantRole,
    other_pubkey: Seq<u8>,
)
    requires
        pubkey.len() == 32,
        other_pubkey.len() == 32,
    ensures
        lex_less(
            identity_record(day, role, pubkey),
            identity_record(other_day, other_role, other_pubkey),
        ) <==> {
            ||| day < other_day
            ||| day == other_day && role_byte(role) < role_byte(other_role)
            ||| day == other_day && role == other_role && lex_less(pubkey, other_pubkey)
        },
{
    let a = identity_record(day, role, pubkey);
    let b = identity_record(other_day, other_role, other_pubkey);
    lemma_identity_round_trip(day, role, pubkey);
    lemma_identity_round_trip(other_day, other_role, other_pubkey);
    let da = a.take(8);
    let db = b.take(8);
    assert(da =~= a.subrange(0, 8));
    assert(db =~= b.subrange(0, 8));
    lemma_be_order(da, db);
    let ra = a.skip(8);
    let rb = b.skip(8);
    assert(ra.take(1) =~= seq![role_byte(role)]);
    assert(rb.take(1) =~= seq![role_byte(other_role)]);
    assert(ra.skip(1) =~= pubkey);
    assert(rb.skip(1) =~= other_pubkey);
    lemma_one_byte(role_byte(role), role_byte(other_role));
    lemma_lex_antisymmetric(da, db);
    lemma_lex_antisymmetric(ra.take(1), rb.take(1));
    if lex_less(a, b) {
        lemma_lex_split(a, b, 8);
        if da == db {
            lemma_lex_split(ra, rb, 1);
        }
    }
    if day < other_day {
        lemma_lex_join(a, b, 8);
    } else if day == other_day && role_byte(role) < role_byte(other_role) {
        lemma_lex_join(ra, rb, 1);
        lemma_lex_join(a, b, 8);
    } else if day == other_day && role == other_role && lex_less(pubkey, other_pubkey) {
        lemma_lex_join(ra, rb, 1);
        lemma_lex_join(a, b, 8);
    }
}

proof fn lemma_one_byte(a: u8, b: u8)
    ensures
        lex_less(seq![a], seq![b]) <==> a < b,
        seq![a] == seq![b] <==> a == b,
{
    if a < b {
        assert(crate::bytes::first_difference(seq![a], seq![b], 0));
    }
    if lex_less(seq![a], seq![b]) {
        let i = choose|i: int| crate::bytes::first_difference(seq![a], seq![b], i);
    }
    assert(seq![a][0] == a && seq![b][0] == b);
}

/// Relative error of an estimate in parts per million, rounded down.
pub open spec fn error_ppm(exact: u64, estimate: u64) -> int {
    let difference = if exact < estimate {
        estimate - exact
    } else {
        exact - estimate
    };
    if exact == 0 {
        if estimate == 0 {
            0
        } else {
            1_000_000
        }
    } else if difference * 1_000_000 > u64::MAX {
        u64::MAX as int / exact as int
    } else {
        difference * 1_000_000 / exact as int
    }
}

/// Relative error of an estimate in parts per million.
pub fn relative_error_ppm(exact: u64, estimate: u64) -> (ppm: u64)
    ensures
        ppm == error_ppm(exact, estimate),
{
    if exact == 0 {
        if estimate == 0 {
            return 0;
        }
        return 1_000_000;
    }
    let difference: u64 = if exact < estimate {
        estimate - exact
    } else {
        exact - estimate
    };
    match difference.checked_mul(1_000_000) {
        Some(scaled) => scaled / exact,
        None => u64::MAX / exact,
    }
}

/// An exact estimate has no error.
pub proof fn lemma_exact_estimate(exact: u64)
    ensures
        error_ppm(exact, exact) == 0,
{
    if exact > 0 {
        assert(0int / (exact as int) == 0) by (nonlinear_arith)
            requires
                exact > 0,
        ;
    }
}

/// One immutable daily mergeable participant leaf.
#[derive(Clone, Debug, PartialEq, Eq)]
pub struct ZapDistinctLeaf {
    /// UTC day start as Unix seconds.
    pub day_epoch: u64,
    /// Sender or recipient domain.
    pub role: ZapParticipantRole,
    /// Exact unique identities in this daily leaf.
    pub exact_identities: u64,
    /// Rounded sketch estimate for validation and serving diagnostics.
    pub estimated_identities: u64,
    /// Relative error in integer parts per million.
    pub relative_error_ppm: u64,
    /// Versioned deterministic sketch bytes.
    pub sketch: Vec<u8>,
}

/// A finished sketch: its estimate and its bytes.
#[derive(Clone, Debug, PartialEq, Eq)]
pub struct SketchResult {
    /// Rounded estimate.
    pub estimate: u64,
    /// Serialized sketch.
    pub sketch: Vec<u8>,
}

/// Finish the leaf of a group from its sketch; refused where the estimate is
/// off by more than the tolerance.
pub fn finish_leaf(
    day_epoch: u64,
    role: ZapParticipantRole,
    exact_identities: u64,
    finished: SketchResult,
) -> (leaf: Result<ZapDistinctLeaf>)
    ensures
        match leaf {
            Ok(leaf) => {
                &&& error_ppm(exact_identities, finished.estimate) <= MAX_RELATIVE_ERROR_PPM
                &&& leaf.day_epoch == day_epoch
                &&& leaf.role == role
                &&& leaf.exact_identities == exact_identities
                &&& leaf.estimated_identities == finished.estimate
                &&& leaf.relative_error_ppm == error_ppm(exact_identities, finished.estimate)
                &&& leaf.sketch == finished.sketch
            },
            Err(error) => {
                &&& error_ppm(exact_identities, finished.estimate) > MAX_RELATIVE_ERROR_PPM
                &&& error == Error::Invalid("zap distinct leaf exceeds the error tolerance")
            },
        },
{
    let ppm: u64 = relative_error_ppm(exact_identities, finished.estimate);
    if ppm > MAX_RELATIVE_ERROR_PPM {
        return Err(Error::Invalid("zap distinct leaf exceeds the error tolerance"));
    }
    Ok(
        ZapDistinctLeaf {
            day_epoch,
            role,
            exact_identities,
            estimated_identities: finished.estimate,
            relative_error_ppm: ppm,
            sketch: finished.sketch,
        },
    )
}

/// The identities of a record not later than `as_of`: sender, then recipient.
pub open spec fn record_identities(record: SemanticRecord, as_of: u64) -> Seq<Seq<u8>> {
    if record.created_at > as_of {
        Seq::empty()
    } else {
        match record.payload {
            SemanticPayload::Zap { sender_pubkey, recipient_pubkey, .. } => {
                let day = day_of(record.created_at);
                let sender = match sender_pubkey {
                    Some(key) => seq![identity_record(day, ZapParticipantRole::Sender, key@)],
                    None => Seq::empty(),
                };
                let recipient = match recipient_pubkey {
                    Some(key) => seq![identity_record(day, ZapParticipantRole::Recipient, key@)],
                    None => Seq::empty(),
                };
                sender + recipient
            },
            _ => Seq::empty(),
        }
    }
}

/// The encoded rows.
pub open spec fn row_views(rows: Seq<[u8; 41]>) -> Seq<Seq<u8>> {
    Seq::new(rows.len(), |i: int| rows[i]@)
}

/// The identities of a record not later than `as_of_epoch`.
pub fn zap_identities(record: &SemanticRecord, as_of_epoch: u64) -> (rows: Vec<[u8; 41]>)
    ensures
        row_views(rows@) == record_identities(*record, as_of_epoch),
        rows@.len() <= 2,
{
    let mut rows: Vec<[u8; 41]> = Vec::new();
    if record.created_at <= as_of_epoch {
        if let SemanticPayload::Zap { sender_pubkey, recipient_pubkey, .. } = record.payload {
            let day: u64 = floor_day(record.created_at);
            if let Some(key) = sender_pubkey {
                rows.push(encode_identity(day, ZapParticipantRole::Sender, key));
            }
            if let Some(key) = recipient_pubkey {
                rows.push(encode_identity(day, ZapParticipantRole::Recipient, key));
            }
        }
    }
    assert(row_views(rows@) =~= record_identities(*record, as_of_epoch));
    rows
}

/// Identities that wait to be sorted into a chunk.
pub struct IdentityChunks {
    /// Waiting identities.
    pub buffer: Vec<[u8; 41]>,
    /// Most identities of one chunk.
    pub limit: usize,
    /// Identities taken in so far.
    pub physical_identities: u64,
    /// Most bytes that waited at once.
    pub max_buffered_bytes: usize,
}

impl IdentityChunks {
    /// Start with no identities.
    pub fn new(limit: usize) -> (chunks: Self)
        ensures
            chunks.buffer@ == Seq::<[u8; 41]>::empty(),
            chunks.limit == limit,
            chunks.physical_identities == 0,
            chunks.max_buffered_bytes == 0,
    {
        IdentityChunks { buffer: Vec::new(), limit, physical_identities: 0, max_buffered_bytes: 0 }
    }

    /// Take in one identity; tells whether the chunk is full.
    pub fn push(&mut self, identity: [u8; 41]) -> (full: Result<bool>)
        requires
            old(self).buffer@.len() < old(self).limit,
        ensures
            final(self).buffer@ == old(self).buffer@.push(identity),
            final(self).limit == old(self).limit,
            match full {
                Ok(full) => {
                    &&& full == (final(self).buffer@.len() == final(self).limit)
                    &&& final(self).physical_identities == old(self).physical_identities + 1
                    &&& final(self).max_buffered_bytes == crate::merge::larger(
                        old(self).max_buffered_bytes as int,
                        (final(self).buffer@.len() * 41) as int,
                    )
                },
                Err(error) => {
                    ||| old(self).physical_identities == u64::MAX && error == Error::Invalid(
                        "physical zap identities overflowed",
                    )
                    ||| final(self).buffer@.len() * 41 > usize::MAX && error == Error::Invalid(
                        "zap identity buffer overflowed",
                    )
                },
            },
    {
        self.buffer.push(identity);
        match checked_add(self.physical_identities, 1, "physical zap identities overflowed") {
            Ok(total) => {
                self.physical_identities = total;
            },
            Err(error) => {
                return Err(error);
            },
        }
        match self.buffer.len().checked_mul(ZAP_IDENTITY_BYTES) {
            None => {
                return Err(Error::Invalid("zap identity buffer overflowed"));
            },
            Some(bytes) => {
                if bytes > self.max_buffered_bytes {
                    self.max_buffered_bytes = bytes;
                }
            },
        }
        Ok(self.buffer.len() == self.limit)
    }

    /// Sort the waiting identities into a chunk, each once, and start the next.
    pub fn take_chunk(&mut self) -> (chunk: IdentityChunk)
        ensures
            final(self).buffer@ == Seq::<[u8; 41]>::empty(),
            final(self).limit == old(self).limit,
            final(self).physical_identities == old(self).physical_identities,
            final(self).max_buffered_bytes == old(self).max_buffered_bytes,
            lists_unique(chunk.unique@, old(self).buffer@),
            chunk.duplicate_rows == old(self).buffer@.len() - chunk.unique@.len(),
            chunk.run.rows == chunk.unique@.len(),
            chunk.run.bytes@.len() == 41 * chunk.unique@.len(),
            forall|i: int|
                0 <= i < chunk.unique@.len() ==> #[trigger] record(chunk.run.bytes@, 41, i)
                    == chunk.unique@[i]@,
            chunk.run.keys_are(
                chunk.unique@.len() > 0,
                chunk.unique@[0]@,
                chunk.unique@[chunk.unique@.len() - 1]@,
            ),
            chunk.sha256@ == sha256_text(chunk.run.bytes@),
    {
        let unique: Vec<[u8; 41]> = sort_unique(&self.buffer);
        let duplicate_rows: u64 = (self.buffer.len() - unique.len()) as u64;
        self.buffer.clear();
        let run: EncodedRun = encode_unique(&unique);
        let sha256: String = sha256_hex(run.bytes.as_slice());
        IdentityChunk { unique, duplicate_rows, run, sha256 }
    }
}

/// A sorted chunk of unique identities.
pub struct IdentityChunk {
    /// The identities.
    pub unique: Vec<[u8; 41]>,
    /// Identities that were repeated.
    pub duplicate_rows: u64,
    /// The encoded chunk.
    pub run: EncodedRun,
    /// SHA-256 of the encoded chunk.
    pub sha256: String,
}

/// Check a chunk run that is to be reused.
pub fn check_reused_chunk(checkpoint: &RunCheckpoint, chunk: &IdentityChunk) -> (outcome: Result<()>)
    ensures
        outcome is Ok <==> checkpoint.artifact.row_count == chunk.run.rows
            && checkpoint.artifact.sha256@ == chunk.sha256@,
        outcome is Err ==> outcome == Err::<(), Error>(
            Error::Invalid("reusable zap identity chunk differs from deterministic input"),
        ),
{
    if checkpoint.artifact.row_count != chunk.run.rows || !text_equal(
        checkpoint.artifact.sha256.as_str(),
        chunk.sha256.as_str(),
    ) {
        return Err(
            Error::Invalid("reusable zap identity chunk differs from deterministic input"),
        );
    }
    Ok(())
}

/// One run of consecutive identities of a day and role.
#[derive(Clone, Copy, Debug, PartialEq, Eq, Structural)]
pub struct ZapGroup {
    /// UTC day start as Unix seconds.
    pub day_epoch: u64,
    /// Participant role.
    pub role: ZapParticipantRole,
    /// First identity of the run.
    pub start: usize,
    /// Number of identities.
    pub exact_identities: u64,
}

/// Identity number `index`.
pub open spec fn identity_at(bytes: Seq<u8>, index: int) -> Seq<u8> {
    record(bytes, 41, index)
}

/// The day and role bytes of an identity.
pub open spec fn group_key(bytes: Seq<u8>, index: int) -> Seq<u8> {
    identity_at(bytes, index).take(9)
}

/// The identity is one, and exceeds its neighbour of the same day and role.
pub open spec fn continues_group(bytes: Seq<u8>, index: int) -> bool {
    &&& is_identity(identity_at(bytes, index))
    &&& index > 0 && group_key(bytes, index - 1) == group_key(bytes, index) ==> lex_less(
        identity_at(bytes, index - 1),
        identity_at(bytes, index),
    )
}

/// Whole identities, increasing within each run of one day and role.
pub open spec fn is_identity_stream(bytes: Seq<u8>) -> bool {
    &&& bytes.len() % 41 == 0
    &&& forall|i: int| 0 <= i < record_count(bytes, 41) ==> #[trigger] continues_group(bytes, i)
}

/// The groups cut the first `count` identities into maximal runs of one day
/// and role.
pub open spec fn cuts_groups(groups: Seq<ZapGroup>, bytes: Seq<u8>, count: int) -> bool {
    &&& count == 0 <==> groups.len() == 0
    &&& groups.len() > 0 ==> groups[0].start == 0
    &&& groups.len() > 0 ==> group_end(groups.last()) == count
    &&& forall|g: int| 0 <= g < groups.len() ==> #[trigger] holds_run(groups[g], bytes)
    &&& forall|g: int| 0 < g < groups.len() ==> #[trigger] follows_group(groups, g, bytes)
}

/// End of a group.
pub open spec fn group_end(group: ZapGroup) -> int {
    group.start + group.exact_identities
}

/// Every identity of the run has the day and role of the group.
pub open spec fn holds_run(group: ZapGroup, bytes: Seq<u8>) -> bool {
    &&& group.exact_identities > 0
    &&& forall|i: int|
        group.start <= i < group_end(group) ==> describes_identity(
            group,
            #[trigger] identity_at(bytes, i),
        )
}

/// Group `g` starts where the one before it ends, with another day or role.
pub open spec fn follows_group(groups: Seq<ZapGroup>, g: int, bytes: Seq<u8>) -> bool {
    &&& groups[g].start == group_end(groups[g - 1])
    &&& group_key(bytes, groups[g].start - 1) != group_key(bytes, groups[g].start as int)
}

/// The identity has the day and role of the group.
pub open spec fn describes_identity(group: ZapGroup, identity: Seq<u8>) -> bool {
    &&& be_nat(identity.subrange(0, 8)) == group.day_epoch
    &&& identity[8] == role_byte(group.role)
}

/// Read the next identity of an artifact; a partial last one is refused.
pub fn read_identity<'a>(reader: &mut PlainReader<'a>) -> (outcome: Result<Option<&'a [u8]>>)
    requires
        old(reader).wf(),
        old(reader).width() == 41,
    ensures
        final(reader).wf(),
        final(reader).source() == old(reader).source(),
        final(reader).width() == 41,
        ({
            let bytes = old(reader).source();
            let index = old(reader).position();
            match outcome {
                Ok(None) => {
                    &&& index == record_count(bytes, 41)
                    &&& final(reader).position() == index
                    &&& bytes.len() % 41 == 0
                },
                Ok(Some(found)) => {
                    &&& index < record_count(bytes, 41)
                    &&& found@ == identity_at(bytes, index)
                    &&& found@.len() == 41
                    &&& final(reader).position() == index + 1
                },
                Err(error) => {
                    &&& error == Error::Invalid("truncated zap identity artifact")
                    &&& final(reader).position() == index
                    &&& index == record_count(bytes, 41)
                    &&& bytes.len() % 41 != 0
                },
            }
        }),
{
    match reader.next() {
        Ok(found) => Ok(found),
        Err(_) => Err(Error::Invalid("truncated zap identity artifact")),
    }
}

/// Cut an identity artifact into runs of one day and role.
pub fn build_groups(bytes: &[u8]) -> (outcome: Result<Vec<ZapGroup>>)
    ensures
        outcome is Ok <==> is_identity_stream(bytes@),
        match outcome {
            Ok(groups) => cuts_groups(groups@, bytes@, record_count(bytes@, 41)),
            Err(error) => error is Invalid,
        },
{
    let ghost total = record_count(bytes@, 41);
    let mut reader: PlainReader = PlainReader::new(bytes, ZAP_IDENTITY_BYTES);
    let mut groups: Vec<ZapGroup> = Vec::new();
    let mut previous: Vec<u8> = Vec::new();
    let mut index: usize = 0;
    loop
        invariant
            total == record_count(bytes@, 41),
            reader.wf(),
            reader.source() == bytes@,
            reader.width() == 41,
            reader.position() == index,
            0 <= index <= total,
            index > 0 ==> previous@ == identity_at(bytes@, index - 1),
            forall|i: int| 0 <= i < index ==> #[trigger] continues_group(bytes@, i),
            cuts_groups(groups@, bytes@, index as int),
            groups@.len() <= index,
        ensures
            index == total,
            bytes@.len() % 41 == 0,
        decreases total - index,
    {
        proof {
            reader.lemma_position();
        }
        let found: &[u8] = match read_identity(&mut reader) {
            Err(error) => {
                return Err(error);
            },
            Ok(None) => {
                break ;
            },
            Ok(Some(found)) => found,
        };
        let ghost at = index as int;
        let (day, role, _pubkey): (u64, ZapParticipantRole, [u8; 32]) = match decode_identity(
            found,
        ) {
            Ok(identity) => identity,
            Err(error) => {
                assert(!continues_group(bytes@, at));
                return Err(error);
            },
        };
        let ghost before = groups@;
        proof {
            reader.lemma_position();
        }
        let same: bool = groups.len() > 0 && groups[groups.len() - 1].day_epoch == day
            && groups[groups.len() - 1].role == role;
        proof {
            if index > 0 {
                let last = before[before.len() - 1];
                assert(holds_run(last, bytes@));
                assert(describes_identity(last, identity_at(bytes@, at - 1)));
                lemma_group_keys(bytes@, at - 1, at);
            }
        }
        if same {
            assert(group_key(bytes@, at - 1) == group_key(bytes@, at));
            if !bytes_less(previous.as_slice(), found) {
                assert(!continues_group(bytes@, at));
                return Err(Error::Invalid("zap identity leaf is not sorted"));
            }
            let place: usize = groups.len() - 1;
            let mut last: ZapGroup = groups[place];
            last.exact_identities = last.exact_identities + 1;
            groups.set(place, last);
            assert(continues_group(bytes@, at));
            proof {
                lemma_extend_group(before, groups@, bytes@, at);
            }
        } else {
            groups.push(ZapGroup { day_epoch: day, role, start: index, exact_identities: 1 });
            proof {
                if index > 0 {
                    assert(group_key(bytes@, at - 1) != group_key(bytes@, at));
                }
                assert(continues_group(bytes@, at));
                lemma_start_group(before, groups@, bytes@, at);
            }
        }
        previous = vstd::slice::slice_to_vec(found);
        index += 1;
    }
    Ok(groups)
}

/// Identities have the same key exactly where day and role agree.
proof fn lemma_group_keys(bytes: Seq<u8>, a: int, b: int)
    requires
        0 <= a < record_count(bytes, 41),
        0 <= b < record_count(bytes, 41),
    ensures
        group_key(bytes, a) == group_key(bytes, b) <==> {
            &&& be_nat(identity_at(bytes, a).subrange(0, 8)) == be_nat(
                identity_at(bytes, b).subrange(0, 8),
            )
            &&& identity_at(bytes, a)[8] == identity_at(bytes, b)[8]
        },
{
    let x = identity_at(bytes, a);
    let y = identity_at(bytes, b);
    assert(x.len() == 41 && y.len() == 41);
    lemma_be_order(x.subrange(0, 8), y.subrange(0, 8));
    if group_key(bytes, a) == group_key(bytes, b) {
        assert(x.subrange(0, 8) =~= x.take(9).take(8));
        assert(y.subrange(0, 8) =~= y.take(9).take(8));
        assert(x.take(9)[8] == x[8] && y.take(9)[8] == y[8]);
    }
    if x.subrange(0, 8) == y.subrange(0, 8) && x[8] == y[8] {
        assert forall|i: int| 0 <= i < 9 implies x.take(9)[i] == y.take(9)[i] by {
            if i < 8 {
                assert(x.subrange(0, 8)[i] == y.subrange(0, 8)[i]);
            }
        }
        assert(x.take(9) =~= y.take(9));
    }
}

/// One more identity of the last group.
proof fn lemma_extend_group(
    before: Seq<ZapGroup>,
    after: Seq<ZapGroup>,
    bytes: Seq<u8>,
    at: int,
)
    requires
        cuts_groups(before, bytes, at),
        before.len() > 0,
        after.len() == before.len(),
        forall|g: int| 0 <= g < before.len() - 1 ==> after[g] == before[g],
        ({
            let old_last = before[before.len() - 1];
            let new_last = after[after.len() - 1];
            &&& new_last.day_epoch == old_last.day_epoch
            &&& new_last.role == old_last.role
            &&& new_last.start == old_last.start
            &&& new_last.exact_identities == old_last.exact_identities + 1
            &&& describes_identity(new_last, identity_at(bytes, at))
        }),
    ensures
        cuts_groups(after, bytes, at + 1),
{
    let n = before.len() - 1;
    assert forall|g: int| 0 <= g < after.len() implies #[trigger] holds_run(after[g], bytes) by {
        assert(holds_run(before[g], bytes));
        if g == n {
            assert forall|i: int| after[n].start <= i < group_end(after[n]) implies describes_identity(
                after[n],
                #[trigger] identity_at(bytes, i),
            ) by {
                if i < at {
                    assert(describes_identity(before[n], identity_at(bytes, i)));
                }
            }
        }
    }
    assert forall|g: int| 0 < g < after.len() implies #[trigger] follows_group(after, g, bytes) by {
        assert(follows_group(before, g, bytes));
        assert(after[g - 1] == before[g - 1]);
        assert(after[g].start == before[g].start);
    }
}

/// The first identity of a new group.
proof fn lemma_start_group(
    before: Seq<ZapGroup>,
    after: Seq<ZapGroup>,
    bytes: Seq<u8>,
    at: int,
)
    requires
        cuts_groups(before, bytes, at),
        0 <= at,
        after.len() == before.len() + 1,
        forall|g: int| 0 <= g < before.len() ==> after[g] == before[g],
        ({
            let last = after[after.len() - 1];
            &&& last.start == at
            &&& last.exact_identities == 1
            &&& describes_identity(last, identity_at(bytes, at))
        }),
        at > 0 ==> group_key(bytes, at - 1) != group_key(bytes, at),
    ensures
        cuts_groups(after, bytes, at + 1),
{
    let n = before.len() as int;
    assert forall|g: int| 0 <= g < after.len() implies #[trigger] holds_run(after[g], bytes) by {
        if g < n {
            assert(holds_run(before[g], bytes));
        }
    }
    assert forall|g: int| 0 < g < after.len() implies #[trigger] follows_group(after, g, bytes) by {
        if g < n {
            assert(follows_group(before, g, bytes));
        }
    }
}

/// The cut of an artifact into groups is unique.
pub proof fn lemma_groups_unique(
    a: Seq<ZapGroup>,
    b: Seq<ZapGroup>,
    bytes: Seq<u8>,
    count: int,
)
    requires
        0 <= count <= record_count(bytes, 41),
        cuts_groups(a, bytes, count),
        cuts_groups(b, bytes, count),
    ensures
        a == b,
{
    let n = if a.len() < b.len() {
        a.len() as int
    } else {
        b.len() as int
    };
    lemma_groups_prefix(a, b, bytes, count, n);
    if a.len() < b.len() {
        if n > 0 {
            assert(a[n - 1] == b[n - 1]);
            lemma_group_before_end(b, bytes, count, n - 1);
        }
    }
    if b.len() < a.len() {
        if n > 0 {
            assert(a[n - 1] == b[n - 1]);
            lemma_group_before_end(a, bytes, count, n - 1);
        }
    }
    assert(a =~= b);
}

/// A group that is not the last ends before the end.
proof fn lemma_group_before_end(groups: Seq<ZapGroup>, bytes: Seq<u8>, count: int, g: int)
    requires
        cuts_groups(groups, bytes, count),
        0 <= g < groups.len() - 1,
    ensures
        group_end(groups[g]) < count,
    decreases groups.len() - g,
{
    assert(follows_group(groups, g + 1, bytes));
    assert(holds_run(groups[g + 1], bytes));
    if g + 1 < groups.len() - 1 {
        lemma_group_before_end(groups, bytes, count, g + 1);
    }
}

/// Every group ends no later than the end.
proof fn lemma_group_within(groups: Seq<ZapGroup>, bytes: Seq<u8>, count: int, g: int)
    requires
        cuts_groups(groups, bytes, count),
        0 <= g < groups.len(),
    ensures
        group_end(groups[g]) <= count,
{
    if g < groups.len() - 1 {
        lemma_group_before_end(groups, bytes, count, g);
    }
}

proof fn lemma_groups_prefix(
    a: Seq<ZapGroup>,
    b: Seq<ZapGroup>,
    bytes: Seq<u8>,
    count: int,
    n: int,
)
    requires
        0 <= count <= record_count(bytes, 41),
        cuts_groups(a, bytes, count),
        cuts_groups(b, bytes, count),
        0 <= n <= a.len(),
        n <= b.len(),
    ensures
        forall|g: int| 0 <= g < n ==> a[g] == b[g],
    decreases n,
{
    if n > 0 {
        lemma_groups_prefix(a, b, bytes, count, n - 1);
        let x = a[n - 1];
        let y = b[n - 1];
        if n > 1 {
            assert(follows_group(a, n - 1, bytes));
            assert(follows_group(b, n - 1, bytes));
            assert(a[n - 2] == b[n - 2]);
        }
        assert(x.start == y.start);
        assert(holds_run(x, bytes));
        assert(holds_run(y, bytes));
        lemma_group_within(a, bytes, count, n - 1);
        lemma_group_within(b, bytes, count, n - 1);
        assert(describes_identity(x, identity_at(bytes, x.start as int)));
        assert(describes_identity(y, identity_at(bytes, x.start as int)));
        lemma_no_shorter_group(a, b, bytes, count, n - 1);
        lemma_no_shorter_group(b, a, bytes, count, n - 1);
        assert(x.role == y.role);
    }
}

/// A group does not end inside a run of its day and role.
proof fn lemma_no_shorter_group(
    a: Seq<ZapGroup>,
    b: Seq<ZapGroup>,
    bytes: Seq<u8>,
    count: int,
    g: int,
)
    requires
        0 <= count <= record_count(bytes, 41),
        cuts_groups(a, bytes, count),
        cuts_groups(b, bytes, count),
        0 <= g < a.len(),
        g < b.len(),
        a[g].start == b[g].start,
    ensures
        a[g].exact_identities >= b[g].exact_identities,
{
    if a[g].exact_identities < b[g].exact_identities {
        lemma_group_within(b, bytes, count, g);
        assert(holds_run(a[g], bytes));
        assert(holds_run(b[g], bytes));
        let end = group_end(a[g]);
        if g == a.len() - 1 {
            assert(end == count);
        } else {
            assert(follows_group(a, g + 1, bytes));
            assert(a[g + 1].start == end);
            assert(describes_identity(b[g], identity_at(bytes, end)));
            assert(describes_identity(b[g], identity_at(bytes, end - 1)));
            lemma_group_keys(bytes, end - 1, end);
        }
    }
}

} // verus!
