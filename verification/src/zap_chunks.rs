//! Zap participants of semantic records, sorted chunk by chunk.

use vstd::prelude::*;

use crate::error::Result;
use crate::flexible_build::smaller;
use crate::merge::div_up;
use crate::ordered::map_total;
use crate::records::record;
use crate::rollups::{one_if, SemanticRollups, ZapDay};
use crate::semantic_laws::{daily, lemma_zap_total};
use crate::semantic_totals::{
    recipient_on, rollups_match, sender_on, sum_records, totals_zaps, SemanticPayload,
    SemanticRecord,
};
use crate::unique_sort::{holds, increasing};
use crate::zap_distinct::{
    record_identities, row_views, zap_identities, IdentityChunk, IdentityChunks,
};
use crate::zap_evidence::day_participants;

verus! {

/// The identities of the first `count` records, in their order.
pub open spec fn all_identities(records: Seq<SemanticRecord>, as_of: u64, count: int) -> Seq<
    Seq<u8>,
>
    decreases count,
{
    if count <= 0 {
        Seq::empty()
    } else {
        all_identities(records, as_of, count - 1) + record_identities(records[count - 1], as_of)
    }
}

/// The sorted chunks of a build.
pub struct ChunkedIdentities {
    /// The chunks, in order.
    pub chunks: Vec<IdentityChunk>,
    /// Identities taken in.
    pub physical_identities: u64,
    /// Identities that were repeated within a chunk.
    pub duplicate_rows: u64,
    /// Most bytes that waited at once.
    pub max_buffered_bytes: usize,
}

/// The chunk holds exactly the identities of `source`, each once and in order.
pub open spec fn chunk_holds(chunk: IdentityChunk, source: Seq<Seq<u8>>) -> bool {
    &&& increasing(chunk.unique@)
    &&& forall|identity: Seq<u8>| #[trigger]
        holds(chunk.unique@, identity) <==> source.contains(identity)
    &&& chunk.duplicate_rows == source.len() - chunk.unique@.len()
    &&& chunk.run.rows == chunk.unique@.len()
    &&& chunk.run.bytes@.len() == 41 * chunk.unique@.len()
    &&& forall|i: int|
        0 <= i < chunk.unique@.len() ==> #[trigger] record(chunk.run.bytes@, 41, i)
            == chunk.unique@[i]@
}

/// The identities that chunk `c` sorts.
pub open spec fn chunk_source(all: Seq<Seq<u8>>, limit: int, c: int) -> Seq<Seq<u8>> {
    all.subrange(c * limit, smaller((c + 1) * limit, all.len() as int))
}

/// Repetitions within the first `count` chunks.
pub open spec fn chunk_duplicates(chunks: Seq<IdentityChunk>, count: int) -> int
    decreases count,
{
    if count <= 0 {
        0
    } else {
        chunk_duplicates(chunks, count - 1) + chunks[count - 1].duplicate_rows
    }
}

/// Identities of the first `count` chunks.
pub open spec fn chunk_rows(chunks: Seq<IdentityChunk>, count: int) -> int
    decreases count,
{
    if count <= 0 {
        0
    } else {
        chunk_rows(chunks, count - 1) + chunks[count - 1].unique@.len()
    }
}

/// The chunks cut the identities into runs of `limit` and sort each.
pub open spec fn sorts_chunks(
    chunked: ChunkedIdentities,
    all: Seq<Seq<u8>>,
    limit: int,
) -> bool {
    &&& chunked.chunks@.len() == div_up(all.len() as int, limit)
    &&& forall|c: int|
        0 <= c < chunked.chunks@.len() ==> chunk_holds(
            #[trigger] chunked.chunks@[c],
            chunk_source(all, limit, c),
        )
    &&& chunked.physical_identities == all.len()
    &&& chunked.duplicate_rows == chunk_duplicates(
        chunked.chunks@,
        chunked.chunks@.len() as int,
    )
    &&& chunked.max_buffered_bytes == 41 * smaller(limit, all.len() as int)
}

/// What was taken in so far: full chunks, and the identities that wait.
spec fn in_progress(
    chunks: Seq<IdentityChunk>,
    waiting: IdentityChunks,
    duplicates: int,
    taken: Seq<Seq<u8>>,
    limit: int,
) -> bool {
    let n = chunks.len() as int;
    &&& waiting.limit == limit
    &&& waiting.buffer@.len() < limit
    &&& taken.len() == n * limit + waiting.buffer@.len()
    &&& row_views(waiting.buffer@) == taken.subrange(n * limit, taken.len() as int)
    &&& waiting.physical_identities == taken.len()
    &&& waiting.max_buffered_bytes == 41 * smaller(limit, taken.len() as int)
    &&& forall|c: int|
        0 <= c < n ==> chunk_holds(
            #[trigger] chunks[c],
            taken.subrange(c * limit, (c + 1) * limit),
        )
    &&& duplicates == chunk_duplicates(chunks, n)
    &&& duplicates <= n * limit
}

/// Chunks before `count` do not depend on later ones.
proof fn lemma_duplicates_prefix(a: Seq<IdentityChunk>, b: Seq<IdentityChunk>, count: int)
    requires
        0 <= count <= a.len(),
        a.len() <= b.len(),
        forall|c: int| 0 <= c < a.len() ==> a[c] == b[c],
    ensures
        chunk_duplicates(a, count) == chunk_duplicates(b, count),
    decreases count,
{
    if count > 0 {
        lemma_duplicates_prefix(a, b, count - 1);
    }
}

/// Sort the waiting identities into the next chunk.
fn close_chunk(
    chunks: &mut Vec<IdentityChunk>,
    waiting: &mut IdentityChunks,
    Ghost(source): Ghost<Seq<Seq<u8>>>,
) -> (duplicates: u64)
    requires
        row_views(old(waiting).buffer@) == source,
    ensures
        final(chunks)@.len() == old(chunks)@.len() + 1,
        final(chunks)@.drop_last() == old(chunks)@,
        chunk_holds(final(chunks)@.last(), source),
        duplicates == final(chunks)@.last().duplicate_rows,
        duplicates <= source.len(),
        final(waiting).buffer@ == Seq::<[u8; 41]>::empty(),
        final(waiting).limit == old(waiting).limit,
        final(waiting).physical_identities == old(waiting).physical_identities,
        final(waiting).max_buffered_bytes == old(waiting).max_buffered_bytes,
{
    let ghost rows = waiting.buffer@;
    let chunk: IdentityChunk = waiting.take_chunk();
    let duplicates: u64 = chunk.duplicate_rows;
    proof {
        assert forall|identity: Seq<u8>| #[trigger] holds(chunk.unique@, identity) <==> source.contains(
            identity,
        ) by {
            if holds(rows, identity) {
                let i = choose|i: int| 0 <= i < rows.len() && #[trigger] rows[i]@ == identity;
                assert(source[i] == identity);
            }
            if source.contains(identity) {
                let i = choose|i: int| 0 <= i < source.len() && source[i] == identity;
                assert(rows[i]@ == identity);
            }
            assert(holds(chunk.unique@, identity) <==> holds(rows, identity));
        }
        assert(chunk_holds(chunk, source));
    }
    chunks.push(chunk);
    assert(chunks@.drop_last() =~= old(chunks)@);
    duplicates
}

/// Take in one identity, and close the chunk where it is full.
fn take_in(
    chunks: &mut Vec<IdentityChunk>,
    waiting: &mut IdentityChunks,
    duplicates: u64,
    identity: [u8; 41],
    Ghost(taken): Ghost<Seq<Seq<u8>>>,
) -> (outcome: Result<u64>)
    requires
        in_progress(
            old(chunks)@,
            *old(waiting),
            duplicates as int,
            taken,
            old(waiting).limit as int,
        ),
    ensures
        match outcome {
            Ok(total) => final(waiting).limit == old(waiting).limit && in_progress(
                final(chunks)@,
                *final(waiting),
                total as int,
                taken.push(identity@),
                old(waiting).limit as int,
            ),
            Err(error) => {
                &&& error is Invalid
                &&& taken.len() + 1 > u64::MAX || 41 * smaller(
                    old(waiting).limit as int,
                    taken.len() as int + 1,
                ) > usize::MAX
            },
        },
{
    let ghost limit = waiting.limit as int;
    let ghost n = chunks@.len() as int;
    let ghost more = taken.push(identity@);
    let ghost old_chunks = chunks@;
    let ghost old_waiting = *waiting;
    proof {
        assert(n * limit >= 0) by (nonlinear_arith)
            requires
                n >= 0,
                limit >= 0,
        ;
    }
    let full: bool = match waiting.push(identity) {
        Ok(full) => full,
        Err(error) => {
            proof {
                assert(old_waiting.buffer@.len() + 1 <= smaller(limit, taken.len() as int + 1));
            }
            return Err(error);
        },
    };
    proof {
        assert(row_views(waiting.buffer@) =~= more.subrange(n * limit, more.len() as int)) by {
            assert(row_views(waiting.buffer@).drop_last() =~= row_views(old_waiting.buffer@));
            assert(taken.subrange(n * limit, taken.len() as int) =~= more.subrange(
                n * limit,
                taken.len() as int,
            ));
            assert forall|i: int| 0 <= i < waiting.buffer@.len() implies row_views(
                waiting.buffer@,
            )[i] == more.subrange(n * limit, more.len() as int)[i] by {
                if i < old_waiting.buffer@.len() {
                    assert(row_views(waiting.buffer@)[i] == row_views(old_waiting.buffer@)[i]);
                    assert(taken.subrange(n * limit, taken.len() as int)[i] == taken[n * limit + i]);
                }
            }
        }
        if n == 0 {
            assert(n * limit == 0) by (nonlinear_arith)
                requires
                    n == 0,
            ;
        } else {
            assert(n * limit >= limit) by (nonlinear_arith)
                requires
                    n >= 1,
                    limit >= 0,
            ;
        }
        assert(waiting.max_buffered_bytes == 41 * smaller(limit, more.len() as int));
        assert forall|c: int| 0 <= c < n implies chunk_holds(
            #[trigger] old_chunks[c],
            more.subrange(c * limit, (c + 1) * limit),
        ) by {
            assert(0 <= c * limit && (c + 1) * limit <= n * limit && c * limit <= (c + 1) * limit)
                by (nonlinear_arith)
                requires
                    0 <= c < n,
                    limit >= 0,
            ;
            assert(more.subrange(c * limit, (c + 1) * limit) =~= taken.subrange(
                c * limit,
                (c + 1) * limit,
            ));
        }
    }
    if !full {
        return Ok(duplicates);
    }
    proof {
        assert((n + 1) * limit == n * limit + limit) by (nonlinear_arith);
        assert(more.len() == (n + 1) * limit);
    }
    let found: u64 = close_chunk(
        chunks,
        waiting,
        Ghost(more.subrange(n * limit, more.len() as int)),
    );
    proof {
        assert(chunks@[n] == chunks@.last());
        assert forall|c: int| 0 <= c < n implies chunks@[c] == old_chunks[c] by {
            assert(chunks@.drop_last()[c] == old_chunks[c]);
        }
        lemma_duplicates_prefix(old_chunks, chunks@, n);
        assert(row_views(waiting.buffer@) =~= more.subrange((n + 1) * limit, more.len() as int));
        assert forall|c: int| 0 <= c < n + 1 implies chunk_holds(
            #[trigger] chunks@[c],
            more.subrange(c * limit, (c + 1) * limit),
        ) by {
            if c < n {
                assert(chunk_holds(old_chunks[c], more.subrange(c * limit, (c + 1) * limit)));
            }
        }
        assert(duplicates + found == chunk_duplicates(chunks@, n + 1));
        assert(in_progress(chunks@, *waiting, duplicates + found, more, limit));
    }
    Ok(duplicates + found)
}

/// Sort the participants of all records not later than `as_of_epoch` into
/// chunks of `limit` identities; the last chunk holds what is left.
pub fn chunk_identities(records: &Vec<SemanticRecord>, as_of_epoch: u64, limit: usize) -> (outcome:
    Result<ChunkedIdentities>)
    requires
        limit > 0,
    ensures
        ({
            let all = all_identities(records@, as_of_epoch, records@.len() as int);
            match outcome {
                Ok(chunked) => sorts_chunks(chunked, all, limit as int),
                Err(error) => {
                    &&& error is Invalid
                    &&& all.len() > u64::MAX || 41 * smaller(limit as int, all.len() as int)
                        > usize::MAX
                },
            }
        }),
{
    let mut chunks: Vec<IdentityChunk> = Vec::new();
    let mut waiting: IdentityChunks = IdentityChunks::new(limit);
    let mut duplicates: u64 = 0;
    let mut i: usize = 0;
    let ghost total = records@.len() as int;
    proof {
        let none = all_identities(records@, as_of_epoch, 0);
        assert(row_views(waiting.buffer@) =~= none.subrange(0, 0));
    }
    while i < records.len()
        invariant
            i <= records@.len(),
            total == records@.len(),
            limit > 0,
            waiting.limit == limit,
            in_progress(
                chunks@,
                waiting,
                duplicates as int,
                all_identities(records@, as_of_epoch, i as int),
                limit as int,
            ),
        decreases records.len() - i,
    {
        let rows: Vec<[u8; 41]> = zap_identities(&records[i], as_of_epoch);
        let ghost before = all_identities(records@, as_of_epoch, i as int);
        let ghost added = record_identities(records@[i as int], as_of_epoch);
        let ghost after = all_identities(records@, as_of_epoch, i + 1);
        let mut k: usize = 0;
        assert(before + added.take(0) =~= before);
        while k < rows.len()
            invariant
                i < records@.len(),
                total == records@.len(),
                k <= rows@.len(),
                limit > 0,
                waiting.limit == limit,
                row_views(rows@) == added,
                after == before + added,
                after == all_identities(records@, as_of_epoch, i + 1),
                in_progress(
                    chunks@,
                    waiting,
                    duplicates as int,
                    before + added.take(k as int),
                    limit as int,
                ),
            decreases rows.len() - k,
        {
            let ghost taken = before + added.take(k as int);
            assert(taken.push(rows@[k as int]@) =~= before + added.take(k + 1)) by {
                assert(added[k as int] == rows@[k as int]@);
            }
            match take_in(&mut chunks, &mut waiting, duplicates, rows[k], Ghost(taken)) {
                Ok(sum) => {
                    duplicates = sum;
                },
                Err(error) => {
                    proof {
                        lemma_identities_grow(records@, as_of_epoch, i + 1, total);
                        assert(taken.len() + 1 <= after.len());
                    }
                    return Err(error);
                },
            }
            k += 1;
        }
        assert(before + added.take(k as int) =~= after);
        i += 1;
    }
    let ghost all = all_identities(records@, as_of_epoch, total);
    let ghost n = chunks@.len() as int;
    let ghost full = chunks@;
    proof {
        let len = all.len() as int;
        let rest = waiting.buffer@.len() as int;
        let size = limit as int;
        vstd::arithmetic::div_mod::lemma_fundamental_div_mod_converse(len, size, n, rest);
        assert forall|c: int| 0 <= c < n implies chunk_holds(
            #[trigger] full[c],
            chunk_source(all, size, c),
        ) by {
            assert((c + 1) * size <= n * size) by (nonlinear_arith)
                requires
                    0 <= c < n,
                    size >= 0,
            ;
        }
    }
    if waiting.buffer.len() > 0 {
        let ghost source = all.subrange(n * limit, all.len() as int);
        proof {
            assert((n + 1) * limit == n * limit + limit) by (nonlinear_arith);
            assert(source =~= chunk_source(all, limit as int, n));
        }
        let found: u64 = close_chunk(&mut chunks, &mut waiting, Ghost(source));
        proof {
            assert(chunks@[n] == chunks@.last());
            assert forall|c: int| 0 <= c < n implies chunks@[c] == full[c] by {
                assert(chunks@.drop_last()[c] == full[c]);
            }
            lemma_duplicates_prefix(full, chunks@, n);
            assert forall|c: int| 0 <= c < n + 1 implies chunk_holds(
                #[trigger] chunks@[c],
                chunk_source(all, limit as int, c),
            ) by {
                if c < n {
                    assert(chunk_holds(full[c], chunk_source(all, limit as int, c)));
                }
            }
        }
        duplicates = duplicates + found;
    }
    assert(chunks@.len() == div_up(all.len() as int, limit as int));
    let physical_identities: u64 = waiting.physical_identities;
    let max_buffered_bytes: usize = waiting.max_buffered_bytes;
    Ok(
        ChunkedIdentities {
            chunks,
            physical_identities,
            duplicate_rows: duplicates,
            max_buffered_bytes,
        },
    )
}

/// More records have no fewer identities.
proof fn lemma_identities_grow(records: Seq<SemanticRecord>, as_of: u64, a: int, b: int)
    requires
        0 <= a <= b,
    ensures
        all_identities(records, as_of, a).len() <= all_identities(records, as_of, b).len(),
    decreases b - a,
{
    if a < b {
        lemma_identities_grow(records, as_of, a, b - 1);
    }
}

/// Chunking neither loses nor adds an identity.
pub proof fn lemma_chunking_keeps_identities(
    chunked: ChunkedIdentities,
    all: Seq<Seq<u8>>,
    limit: int,
    identity: Seq<u8>,
)
    requires
        limit > 0,
        sorts_chunks(chunked, all, limit),
    ensures
        all.contains(identity) <==> exists|c: int|
            0 <= c < chunked.chunks@.len() && holds(
                (#[trigger] chunked.chunks@[c]).unique@,
                identity,
            ),
{
    let len = all.len() as int;
    let n = chunked.chunks@.len() as int;
    if all.contains(identity) {
        let i = choose|i: int| 0 <= i < all.len() && all[i] == identity;
        let c = i / limit;
        assert(c * limit <= i < (c + 1) * limit && 0 <= c && c < div_up(len, limit)) by {
            vstd::arithmetic::div_mod::lemma_fundamental_div_mod(i, limit);
            vstd::arithmetic::div_mod::lemma_fundamental_div_mod(len, limit);
            let q = len / limit;
            let r = len % limit;
            let m = i % limit;
            assert(c * limit <= i < (c + 1) * limit && 0 <= c) by (nonlinear_arith)
                requires
                    i == limit * c + m,
                    0 <= m < limit,
                    i >= 0,
            ;
            assert(if r == 0 {
                c < q
            } else {
                c <= q
            }) by (nonlinear_arith)
                requires
                    i == limit * c + m,
                    0 <= m < limit,
                    len == limit * q + r,
                    0 <= r < limit,
                    i < len,
            ;
        }
        let source = chunk_source(all, limit, c);
        assert(source[i - c * limit] == identity);
        assert(source.contains(identity));
        assert(chunk_holds(chunked.chunks@[c], source));
        assert(holds(chunked.chunks@[c].unique@, identity));
    }
    if exists|c: int|
        0 <= c < n && holds((#[trigger] chunked.chunks@[c]).unique@, identity) {
        let c = choose|c: int|
            0 <= c < n && holds((#[trigger] chunked.chunks@[c]).unique@, identity);
        let source = chunk_source(all, limit, c);
        assert(chunk_holds(chunked.chunks@[c], source));
        assert(source.contains(identity));
        let i = choose|i: int| 0 <= i < source.len() && source[i] == identity;
        vstd::arithmetic::div_mod::lemma_fundamental_div_mod(len, limit);
        let q = len / limit;
        let r = len % limit;
        assert(0 <= c * limit < len) by (nonlinear_arith)
            requires
                0 <= c,
                c < if r == 0 {
                    q
                } else {
                    q + 1
                },
                len == limit * q + r,
                0 <= r < limit,
                0 < limit,
        ;
        assert((c + 1) * limit == c * limit + limit) by (nonlinear_arith);
        assert(all[c * limit + i] == identity);
    }
}

/// Validated participants of a record.
pub open spec fn participants() -> spec_fn(SemanticRecord) -> int {
    |r: SemanticRecord|
        match r.payload {
            SemanticPayload::Zap { sender_pubkey, recipient_pubkey, .. } => one_if(
                sender_pubkey is Some,
            ) + one_if(recipient_pubkey is Some),
            _ => 0,
        }
}

/// Records up to the boundary have one identity for each participant.
proof fn lemma_identity_count(records: Seq<SemanticRecord>, as_of: u64, count: int)
    requires
        0 <= count <= records.len(),
        forall|i: int| 0 <= i < count ==> (#[trigger] records[i]).created_at <= as_of,
    ensures
        all_identities(records, as_of, count).len() == sum_records(
            records.take(count),
            participants(),
        ),
    decreases count,
{
    if count > 0 {
        lemma_identity_count(records, as_of, count - 1);
        assert(records.take(count).drop_last() =~= records.take(count - 1));
        assert(records.take(count).last() == records[count - 1]);
    } else {
        assert(records.take(0) =~= Seq::empty());
    }
}

/// The senders and recipients of a day add up to its participants.
proof fn lemma_both_roles(records: Seq<SemanticRecord>, day: u64)
    ensures
        sum_records(records, sender_on(day)) + sum_records(records, recipient_on(day))
            == sum_records(records, daily(participants(), day)),
    decreases records.len(),
{
    if records.len() > 0 {
        lemma_both_roles(records.drop_last(), day);
    }
}

/// The participants of the semantic rollups are as many as the identities of
/// their records, where no record is later than the boundary.
pub proof fn lemma_participants_are_identities(
    rollups: SemanticRollups,
    records: Seq<SemanticRecord>,
    as_of: u64,
)
    requires
        rollups_match(rollups, records),
        forall|i: int| 0 <= i < records.len() ==> (#[trigger] records[i]).created_at <= as_of,
    ensures
        map_total(rollups.zaps@, day_participants()) == all_identities(
            records,
            as_of,
            records.len() as int,
        ).len(),
{
    lemma_identity_count(records, as_of, records.len() as int);
    assert(records.take(records.len() as int) =~= records);
    assert forall|row: ZapDay, day: u64| #[trigger]
        totals_zaps(row, records, day) implies day_participants()(row) == sum_records(
        records,
        daily(participants(), day),
    ) by {
        lemma_both_roles(records, day);
    }
    lemma_zap_total(rollups, records, day_participants(), participants());
}

} // verus!
