//! One bounded build of zap participants, from semantic facts to the evidence.

use vstd::prelude::*;

use crate::batches::reconciles;
use crate::build_runs::starts_with;
use crate::disk::{budget_of, completed_run_bytes, run_budget, run_bytes, DiskBudget, WorkFile};
use crate::error::{Error, Result};
use crate::flexible_build::smaller;
use crate::merge::{merge_to_single, merges_outcome, CompletedRun, MergeOutcome};
use crate::records::record_count;
use crate::runs::{checkpoint_paths, list_checkpoints};
use crate::semantic_build::BoundedSemanticFacts;
use crate::semantic_totals::SemanticRecord;
use crate::zap_chunks::{all_identities, chunk_identities, sorts_chunks, ChunkedIdentities};
use crate::zap_distinct::{
    build_groups, check_reused_chunk, cuts_groups, is_identity_stream, IdentityChunk, SketchResult,
    ZapDistinctLeaf, ZapGroup,
};
use crate::zap_evidence::{
    build_leaves, check_evidence, chunk_count, complete_zap_distinct, completes_zap, config_fits,
    estimate_run_bytes, estimates_hold, evidence_accounts, leaf_of, validate_config,
    worst_case_bytes, ZapDistinctConfig, ZapDistinctEvidence,
};

verus! {

/// The functions that a build is handed.
pub struct ZapSteps<'a, P, C, E, M, R, S> {
    /// Reserves disk space.
    pub reserve: &'a P,
    /// Stores the chunk with a number, or finds it stored.
    pub publish: &'a C,
    /// Makes the empty run of a build without identities.
    pub empty: &'a E,
    /// Merges a group of a round.
    pub merge: &'a M,
    /// Reads the bytes of a run.
    pub read: &'a R,
    /// Sketches the groups of identities.
    pub sketch: &'a S,
}

/// The steps may be called on everything.
pub open spec fn steps_callable<
    P: Fn(DiskBudget) -> Result<()>,
    C: Fn(usize, &IdentityChunk) -> Result<CompletedRun>,
    E: Fn() -> Result<CompletedRun>,
    M: Fn(u32, usize, &[CompletedRun]) -> Result<(CompletedRun, usize)>,
    R: Fn(&CompletedRun) -> Result<Vec<u8>>,
    S: Fn(&Vec<ZapGroup>, &Vec<u8>) -> Result<Vec<SketchResult>>,
>(steps: ZapSteps<P, C, E, M, R, S>) -> bool {
    &&& forall|budget: DiskBudget| #[trigger] call_requires(*steps.reserve, (budget,))
    &&& forall|index: usize, chunk: &IdentityChunk| #[trigger]
        call_requires(*steps.publish, (index, chunk))
    &&& call_requires(*steps.empty, ())
    &&& forall|round: u32, group: usize, given: &[CompletedRun]| #[trigger]
        call_requires(*steps.merge, (round, group, given))
    &&& forall|run: &CompletedRun| #[trigger] call_requires(*steps.read, (run,))
    &&& forall|groups: &Vec<ZapGroup>, bytes: &Vec<u8>| #[trigger]
        call_requires(*steps.sketch, (groups, bytes))
}

/// The stored run holds the chunk.
pub open spec fn run_holds(run: CompletedRun, chunk: IdentityChunk) -> bool {
    &&& run.checkpoint.artifact.row_count == chunk.run.rows
    &&& run.checkpoint.artifact.sha256@ == chunk.sha256@
}

/// `made` is an outcome of storing the chunk with the number `i`.
pub open spec fn publish_gives<C: Fn(usize, &IdentityChunk) -> Result<CompletedRun>>(
    publish: C,
    chunks: Seq<IdentityChunk>,
    i: int,
    made: Result<CompletedRun>,
) -> bool {
    call_ensures(publish, (i as usize, &chunks[i]), made)
}

/// `runs` are those of the first chunks.
pub open spec fn stores_chunks<C: Fn(usize, &IdentityChunk) -> Result<CompletedRun>>(
    publish: C,
    chunks: Seq<IdentityChunk>,
    runs: Seq<CompletedRun>,
) -> bool {
    forall|i: int|
        0 <= i < runs.len() ==> publish_gives(publish, chunks, i, Ok(#[trigger] runs[i]))
            && run_holds(runs[i], chunks[i])
}

/// What storing the chunks comes to.
pub open spec fn chunks_outcome<C: Fn(usize, &IdentityChunk) -> Result<CompletedRun>>(
    publish: C,
    chunks: Seq<IdentityChunk>,
    outcome: Result<Vec<CompletedRun>>,
) -> bool {
    match outcome {
        Ok(runs) => runs@.len() == chunks.len() && stores_chunks(publish, chunks, runs@),
        Err(error) => exists|runs: Seq<CompletedRun>, made: Result<CompletedRun>|
            {
                &&& runs.len() < chunks.len()
                &&& #[trigger] stores_chunks(publish, chunks, runs)
                &&& #[trigger] publish_gives(publish, chunks, runs.len() as int, made)
                &&& match made {
                    Err(refused) => error == refused,
                    Ok(run) => error is Invalid && !run_holds(run, chunks[runs.len() as int]),
                }
            },
    }
}

/// Store every chunk.
fn publish_chunks<C: Fn(usize, &IdentityChunk) -> Result<CompletedRun>>(
    publish: &C,
    chunks: &Vec<IdentityChunk>,
) -> (outcome: Result<Vec<CompletedRun>>)
    requires
        forall|index: usize, chunk: &IdentityChunk| #[trigger]
            call_requires(*publish, (index, chunk)),
    ensures
        chunks_outcome(*publish, chunks@, outcome),
{
    let mut runs: Vec<CompletedRun> = Vec::new();
    let mut i: usize = 0;
    while i < chunks.len()
        invariant
            i <= chunks@.len(),
            runs@.len() == i,
            forall|index: usize, chunk: &IdentityChunk| #[trigger]
                call_requires(*publish, (index, chunk)),
            forall|j: int|
                0 <= j < i ==> publish_gives(*publish, chunks@, j, Ok(#[trigger] runs@[j]))
                    && run_holds(runs@[j], chunks@[j]),
        decreases chunks.len() - i,
    {
        match publish(i, &chunks[i]) {
            Err(error) => {
                assert(stores_chunks(*publish, chunks@, runs@));
                assert(publish_gives(*publish, chunks@, runs@.len() as int, Err(error)));
                return Err(error);
            },
            Ok(run) => {
                assert(publish_gives(*publish, chunks@, i as int, Ok(run)));
                match check_reused_chunk(&run.checkpoint, &chunks[i]) {
                    Ok(()) => {},
                    Err(error) => {
                        assert(stores_chunks(*publish, chunks@, runs@));
                        assert(publish_gives(*publish, chunks@, runs@.len() as int, Ok(run)));
                        assert(!run_holds(run, chunks@[i as int]));
                        return Err(error);
                    },
                }
                runs.push(run);
            },
        }
        i += 1;
    }
    Ok(runs)
}

/// The leaves of the groups.
pub open spec fn leaves_of(
    leaves: Seq<ZapDistinctLeaf>,
    groups: Seq<ZapGroup>,
    finished: Seq<SketchResult>,
) -> bool {
    &&& leaves.len() == groups.len()
    &&& forall|g: int|
        0 <= g < groups.len() ==> leaf_of(#[trigger] leaves[g], groups[g], finished[g])
}

/// What a build has come to before its leaves.
pub struct ZapBuild<'a> {
    /// The semantic facts.
    pub semantic: &'a BoundedSemanticFacts,
    /// Resource settings.
    pub config: &'a ZapDistinctConfig,
    /// Precision of the sketches.
    pub sketch_lg_k: u8,
}

/// What sketched groups come to.
pub open spec fn evidence_from_leaves(
    build: ZapBuild,
    physical_identities: u64,
    max_buffered_bytes: usize,
    chunk_duplicates: u64,
    chunk_checkpoints: Seq<String>,
    merged: MergeOutcome,
    bytes: Seq<u8>,
    groups: Seq<ZapGroup>,
    finished: Seq<SketchResult>,
    outcome: Result<ZapDistinctEvidence>,
) -> bool {
    if groups.len() == finished.len() && estimates_hold(groups, finished) && reconciles(
        physical_identities,
        merged.final_run.checkpoint.artifact.row_count,
        chunk_duplicates,
        merged.duplicate_rows,
    ) {
        exists|leaves: Seq<ZapDistinctLeaf>, evidence: ZapDistinctEvidence|
            {
                &&& leaves_of(leaves, groups, finished)
                &&& #[trigger] completes_zap(
                    evidence,
                    *build.semantic,
                    *build.config,
                    physical_identities,
                    max_buffered_bytes,
                    chunk_checkpoints,
                    merged,
                    leaves,
                    build.sketch_lg_k,
                )
                &&& if evidence_accounts(evidence, bytes, *build.semantic, build.sketch_lg_k) {
                    outcome == Ok::<ZapDistinctEvidence, Error>(evidence)
                } else {
                    outcome is Err && outcome->Err_0 is Invalid
                }
            }
    } else {
        outcome is Err && outcome->Err_0 is Invalid
    }
}

/// What the identities of a build come to.
pub open spec fn evidence_from_identities<
    S: Fn(&Vec<ZapGroup>, &Vec<u8>) -> Result<Vec<SketchResult>>,
>(
    sketch: S,
    build: ZapBuild,
    chunked: ChunkedIdentities,
    chunk_checkpoints: Seq<String>,
    merged: MergeOutcome,
    bytes: Vec<u8>,
    outcome: Result<ZapDistinctEvidence>,
) -> bool {
    if !is_identity_stream(bytes@) {
        outcome is Err && outcome->Err_0 is Invalid
    } else {
        exists|groups: Vec<ZapGroup>, finished: Result<Vec<SketchResult>>|
            {
                &&& cuts_groups(groups@, bytes@, record_count(bytes@, 41))
                &&& #[trigger] call_ensures(sketch, (&groups, &bytes), finished)
                &&& match finished {
                    Err(error) => outcome == Err::<ZapDistinctEvidence, Error>(error),
                    Ok(finished) => evidence_from_leaves(
                        build,
                        chunked.physical_identities,
                        chunked.max_buffered_bytes,
                        chunked.duplicate_rows,
                        chunk_checkpoints,
                        merged,
                        bytes@,
                        groups@,
                        finished@,
                        outcome,
                    ),
                }
            }
    }
}

/// What the stored chunks of a build come to.
pub open spec fn evidence_from_runs<
    P: Fn(DiskBudget) -> Result<()>,
    C: Fn(usize, &IdentityChunk) -> Result<CompletedRun>,
    E: Fn() -> Result<CompletedRun>,
    M: Fn(u32, usize, &[CompletedRun]) -> Result<(CompletedRun, usize)>,
    R: Fn(&CompletedRun) -> Result<Vec<u8>>,
    S: Fn(&Vec<ZapGroup>, &Vec<u8>) -> Result<Vec<SketchResult>>,
>(
    steps: ZapSteps<P, C, E, M, R, S>,
    build: ZapBuild,
    chunked: ChunkedIdentities,
    runs: Seq<CompletedRun>,
    outcome: Result<ZapDistinctEvidence>,
) -> bool {
    exists|merged: Result<MergeOutcome>| #[trigger]
        merges_outcome(
            *steps.merge,
            runs,
            build.config.merge_fan_in as int,
            41,
            true,
            merged,
        ) && match merged {
            Err(error) => outcome == Err::<ZapDistinctEvidence, Error>(error),
            Ok(merged) => exists|read: Result<Vec<u8>>| #[trigger]
                call_ensures(*steps.read, (&merged.final_run,), read) && match read {
                    Err(error) => outcome == Err::<ZapDistinctEvidence, Error>(error),
                    Ok(bytes) => evidence_from_identities(
                        *steps.sketch,
                        build,
                        chunked,
                        checkpoint_paths(runs),
                        merged,
                        bytes,
                        outcome,
                    ),
                },
        }
}

/// What the chunks of a build come to.
pub open spec fn evidence_from_chunks<
    P: Fn(DiskBudget) -> Result<()>,
    C: Fn(usize, &IdentityChunk) -> Result<CompletedRun>,
    E: Fn() -> Result<CompletedRun>,
    M: Fn(u32, usize, &[CompletedRun]) -> Result<(CompletedRun, usize)>,
    R: Fn(&CompletedRun) -> Result<Vec<u8>>,
    S: Fn(&Vec<ZapGroup>, &Vec<u8>) -> Result<Vec<SketchResult>>,
>(
    steps: ZapSteps<P, C, E, M, R, S>,
    build: ZapBuild,
    chunked: ChunkedIdentities,
    outcome: Result<ZapDistinctEvidence>,
) -> bool {
    exists|stored: Result<Vec<CompletedRun>>| #[trigger]
        chunks_outcome(*steps.publish, chunked.chunks@, stored) && match stored {
            Err(error) => outcome == Err::<ZapDistinctEvidence, Error>(error),
            Ok(runs) => exists|started: Result<Seq<CompletedRun>>| #[trigger]
                starts_with(*steps.empty, runs@, started) && match started {
                    Err(error) => outcome == Err::<ZapDistinctEvidence, Error>(error),
                    Ok(all) => evidence_from_runs(steps, build, chunked, all, outcome),
                },
        }
}

/// What a build of zap participants comes to.
pub open spec fn builds_zap<
    P: Fn(DiskBudget) -> Result<()>,
    C: Fn(usize, &IdentityChunk) -> Result<CompletedRun>,
    E: Fn() -> Result<CompletedRun>,
    M: Fn(u32, usize, &[CompletedRun]) -> Result<(CompletedRun, usize)>,
    R: Fn(&CompletedRun) -> Result<Vec<u8>>,
    S: Fn(&Vec<ZapGroup>, &Vec<u8>) -> Result<Vec<SketchResult>>,
>(
    steps: ZapSteps<P, C, E, M, R, S>,
    build: ZapBuild,
    retained: int,
    records: Seq<SemanticRecord>,
    outcome: Result<ZapDistinctEvidence>,
) -> bool {
    let accepted = build.semantic.evidence.domain_counts.accepted_zaps as int;
    let limit = build.config.chunk_records as int;
    let bytes = worst_case_bytes(accepted, limit, build.config.merge_fan_in as int);
    let all = all_identities(
        records,
        build.semantic.evidence.as_of_epoch,
        records.len() as int,
    );
    if !config_fits(*build.semantic, *build.config) || 2 * accepted > u64::MAX || chunk_count(
        2 * accepted,
        limit,
    ) > usize::MAX || bytes > u64::MAX || retained > u64::MAX {
        outcome is Err && outcome->Err_0 is Invalid
    } else {
        let budget = budget_of(
            bytes as u64,
            retained as u64,
            build.config.disk_reserve_bytes,
        );
        ||| outcome is Err && call_ensures(*steps.reserve, (budget,), Err(outcome->Err_0))
        ||| call_ensures(*steps.reserve, (budget,), Ok(())) && outcome is Err
            && outcome->Err_0 is Invalid && (all.len() > u64::MAX || 41 * smaller(
            limit,
            all.len() as int,
        ) > usize::MAX)
        ||| call_ensures(*steps.reserve, (budget,), Ok(())) && exists|
            chunked: ChunkedIdentities,
        | #[trigger]
            sorts_chunks(chunked, all, limit) && evidence_from_chunks(
                steps,
                build,
                chunked,
                outcome,
            )
    }
}

/// Finish the leaves of sketched groups, complete the evidence and check it.
fn finish_leaves(
    build: &ZapBuild,
    physical_identities: u64,
    max_buffered_bytes: usize,
    chunk_duplicates: u64,
    chunk_checkpoints: Vec<String>,
    merged: MergeOutcome,
    bytes: &Vec<u8>,
    groups: &Vec<ZapGroup>,
    finished: Vec<SketchResult>,
) -> (outcome: Result<ZapDistinctEvidence>)
    ensures
        evidence_from_leaves(
            *build,
            physical_identities,
            max_buffered_bytes,
            chunk_duplicates,
            chunk_checkpoints@,
            merged,
            bytes@,
            groups@,
            finished@,
            outcome,
        ),
{
    let ghost sketched = finished@;
    let leaves: Vec<ZapDistinctLeaf> = match build_leaves(groups, finished) {
        Ok(leaves) => leaves,
        Err(error) => {
            return Err(error);
        },
    };
    let ghost made = leaves@;
    assert(leaves_of(made, groups@, sketched));
    let evidence: ZapDistinctEvidence = match complete_zap_distinct(
        build.semantic,
        build.config,
        physical_identities,
        max_buffered_bytes,
        chunk_duplicates,
        chunk_checkpoints,
        merged,
        leaves,
        build.sketch_lg_k,
    ) {
        Ok(evidence) => evidence,
        Err(error) => {
            return Err(error);
        },
    };
    match check_evidence(&evidence, bytes.as_slice(), build.semantic, build.sketch_lg_k) {
        Ok(()) => Ok(evidence),
        Err(error) => Err(error),
    }
}

/// Merge stored chunks, sketch their identities and complete the evidence.
fn finish_runs<
    P: Fn(DiskBudget) -> Result<()>,
    C: Fn(usize, &IdentityChunk) -> Result<CompletedRun>,
    E: Fn() -> Result<CompletedRun>,
    M: Fn(u32, usize, &[CompletedRun]) -> Result<(CompletedRun, usize)>,
    R: Fn(&CompletedRun) -> Result<Vec<u8>>,
    S: Fn(&Vec<ZapGroup>, &Vec<u8>) -> Result<Vec<SketchResult>>,
>(
    steps: &ZapSteps<P, C, E, M, R, S>,
    build: &ZapBuild,
    chunked: &ChunkedIdentities,
    runs: Vec<CompletedRun>,
) -> (outcome: Result<ZapDistinctEvidence>)
    requires
        steps_callable(*steps),
        build.config.merge_fan_in >= 2,
        runs@.len() > 0,
    ensures
        evidence_from_runs(*steps, *build, *chunked, runs@, outcome),
{
    let ghost all = runs@;
    let paths: Vec<String> = list_checkpoints(&runs);
    let merging: Result<MergeOutcome> = merge_to_single(
        runs,
        build.config.merge_fan_in,
        41,
        true,
        steps.merge,
    );
    let ghost given = merging;
    assert(merges_outcome(
        *steps.merge,
        all,
        build.config.merge_fan_in as int,
        41,
        true,
        given,
    ));
    let merged: MergeOutcome = match merging {
        Ok(merged) => merged,
        Err(error) => {
            return Err(error);
        },
    };
    let ghost last = merged;
    let read: &R = steps.read;
    let reading: Result<Vec<u8>> = read(&merged.final_run);
    let ghost held = reading;
    assert(call_ensures(*steps.read, (&last.final_run,), held));
    let bytes: Vec<u8> = match reading {
        Ok(bytes) => bytes,
        Err(error) => {
            return Err(error);
        },
    };
    let groups: Vec<ZapGroup> = match build_groups(bytes.as_slice()) {
        Ok(groups) => groups,
        Err(error) => {
            assert(evidence_from_identities(
                *steps.sketch,
                *build,
                *chunked,
                paths@,
                last,
                bytes,
                Err(error),
            ));
            return Err(error);
        },
    };
    let sketch: &S = steps.sketch;
    let sketching: Result<Vec<SketchResult>> = sketch(&groups, &bytes);
    let ghost sketched = sketching;
    assert(call_ensures(*steps.sketch, (&groups, &bytes), sketched));
    let outcome: Result<ZapDistinctEvidence> = match sketching {
        Ok(finished) => finish_leaves(
            build,
            chunked.physical_identities,
            chunked.max_buffered_bytes,
            chunked.duplicate_rows,
            paths,
            merged,
            &bytes,
            &groups,
            finished,
        ),
        Err(error) => Err(error),
    };
    assert(evidence_from_identities(
        *steps.sketch,
        *build,
        *chunked,
        checkpoint_paths(all),
        last,
        bytes,
        outcome,
    ));
    outcome
}

/// Build the zap participants of semantic facts.
///
/// `records` are the records of the facts, and `files` are the files of the
/// work root. Reading the stored sketches and checkpoints back is the part of
/// `load_bounded_zap_distinct`.
pub fn build_bounded_zap_distinct<
    P: Fn(DiskBudget) -> Result<()>,
    C: Fn(usize, &IdentityChunk) -> Result<CompletedRun>,
    E: Fn() -> Result<CompletedRun>,
    M: Fn(u32, usize, &[CompletedRun]) -> Result<(CompletedRun, usize)>,
    R: Fn(&CompletedRun) -> Result<Vec<u8>>,
    S: Fn(&Vec<ZapGroup>, &Vec<u8>) -> Result<Vec<SketchResult>>,
>(
    build: &ZapBuild,
    records: &Vec<SemanticRecord>,
    files: &Vec<WorkFile>,
    steps: &ZapSteps<P, C, E, M, R, S>,
) -> (outcome: Result<ZapDistinctEvidence>)
    requires
        steps_callable(*steps),
    ensures
        builds_zap(*steps, *build, run_bytes(files@, false), records@, outcome),
{
    match validate_config(build.semantic, build.config) {
        Ok(()) => {},
        Err(error) => {
            return Err(error);
        },
    }
    let bytes: u64 = match estimate_run_bytes(build.semantic, build.config) {
        Ok(bytes) => bytes,
        Err(error) => {
            return Err(error);
        },
    };
    let retained: u64 = match completed_run_bytes(files, false) {
        Ok(retained) => retained,
        Err(error) => {
            return Err(error);
        },
    };
    let budget: DiskBudget = run_budget(bytes, retained, build.config.disk_reserve_bytes);
    let reserve: &P = steps.reserve;
    match reserve(budget) {
        Ok(done) => {
            assert(done == ());
            assert(call_ensures(*steps.reserve, (budget,), Ok(())));
        },
        Err(error) => {
            return Err(error);
        },
    }
    let chunked: ChunkedIdentities = match chunk_identities(
        records,
        build.semantic.evidence.as_of_epoch,
        build.config.chunk_records,
    ) {
        Ok(chunked) => chunked,
        Err(error) => {
            return Err(error);
        },
    };
    let storing: Result<Vec<CompletedRun>> = publish_chunks(steps.publish, &chunked.chunks);
    let ghost stored = storing;
    let mut runs: Vec<CompletedRun> = match storing {
        Ok(runs) => runs,
        Err(error) => {
            assert(chunks_outcome(*steps.publish, chunked.chunks@, stored));
            assert(evidence_from_chunks(*steps, *build, chunked, Err(error)));
            return Err(error);
        },
    };
    let ghost chunk_runs = runs@;
    if runs.len() == 0 {
        let empty: &E = steps.empty;
        match empty() {
            Ok(run) => {
                let ghost only = run;
                runs.push(run);
                assert(runs@ =~= seq![only]);
            },
            Err(error) => {
                assert(starts_with(*steps.empty, chunk_runs, Err(error)));
                assert(evidence_from_chunks(*steps, *build, chunked, Err(error)));
                return Err(error);
            },
        }
    }
    let ghost all = runs@;
    assert(starts_with(*steps.empty, chunk_runs, Ok(all)));
    let outcome: Result<ZapDistinctEvidence> = finish_runs(steps, build, &chunked, runs);
    assert(evidence_from_chunks(*steps, *build, chunked, outcome));
    outcome
}

} // verus!
