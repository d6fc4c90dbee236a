//! Names and identities of runs.

use vstd::prelude::*;
use vstd::string::*;

use crate::artifact::{InputIdentity, RunIdentity};
use crate::bytes::{be_bytes, push_be, push_bytes};
use crate::digest::{sha256_hex, sha256_text};
use crate::error::{Error, Result};
use crate::merge::CompletedRun;
use crate::text::{push_zero_padded, strip_prefix, without_prefix, zero_padded};
use crate::text_map::{lemma_text_order, text_before, text_less};

verus! {

/// The identity of one stage of a product.
pub open spec fn identifies_stage(
    run: RunIdentity,
    snapshot_id: Seq<char>,
    as_of: u64,
    product: Seq<char>,
    version: Seq<char>,
    key_space: Seq<char>,
) -> bool {
    &&& run.snapshot_id@ == snapshot_id
    &&& run.as_of == as_of
    &&& run.product@ == product
    &&& run.product_version@ == version
    &&& run.key_space@ == key_space
}

/// The identity of the stage `stage` of the product `product`.
pub fn stage_identity(
    snapshot_id: &str,
    as_of: u64,
    product: &str,
    stage: &str,
    version: &str,
    key_space: &str,
) -> (run: RunIdentity)
    ensures
        identifies_stage(
            run,
            snapshot_id@,
            as_of,
            product@ + "-"@ + stage@,
            version@,
            key_space@,
        ),
{
    let mut name: String = product.to_owned();
    name.append("-");
    name.append(stage);
    RunIdentity {
        snapshot_id: snapshot_id.to_owned(),
        as_of,
        product: name,
        product_version: version.to_owned(),
        key_space: key_space.to_owned(),
    }
}

/// A run as an input under its own name.
pub fn named_input(run: &CompletedRun) -> (input: InputIdentity)
    ensures
        input.identity == run.identity,
        input.byte_size == run.checkpoint.artifact.byte_size,
        input.row_count == run.checkpoint.artifact.row_count,
        input.sha256 == run.checkpoint.artifact.sha256,
{
    InputIdentity {
        identity: run.identity.clone(),
        byte_size: run.checkpoint.artifact.byte_size,
        row_count: run.checkpoint.artifact.row_count,
        sha256: run.checkpoint.artifact.sha256.clone(),
    }
}

/// A run as an input under the digest of its records.
pub fn digest_input(run: &CompletedRun) -> (input: InputIdentity)
    ensures
        input.identity@ == "sha256:"@ + run.checkpoint.artifact.sha256@,
        input.byte_size == run.checkpoint.artifact.byte_size,
        input.row_count == run.checkpoint.artifact.row_count,
        input.sha256 == run.checkpoint.artifact.sha256,
{
    let mut identity: String = "sha256:".to_owned();
    identity.append(run.checkpoint.artifact.sha256.as_str());
    InputIdentity {
        identity,
        byte_size: run.checkpoint.artifact.byte_size,
        row_count: run.checkpoint.artifact.row_count,
        sha256: run.checkpoint.artifact.sha256.clone(),
    }
}

/// The input of a build without objects: the catalog itself, whose digest is
/// its snapshot identity.
pub fn empty_input(snapshot_id: &str) -> (outcome: Result<InputIdentity>)
    ensures
        match outcome {
            Ok(input) => {
                &&& without_prefix(snapshot_id@, "sha256:"@) == Some(input.sha256@)
                &&& input.identity@ == "catalog:"@ + snapshot_id@
                &&& input.byte_size == 0
                &&& input.row_count == 0
            },
            Err(error) => {
                &&& without_prefix(snapshot_id@, "sha256:"@) is None
                &&& error == Error::Invalid("snapshot is not a SHA-256 ID")
            },
        },
{
    match strip_prefix(snapshot_id, "sha256:") {
        None => Err(Error::Invalid("snapshot is not a SHA-256 ID")),
        Some(digest) => {
            let mut identity: String = "catalog:".to_owned();
            identity.append(snapshot_id);
            Ok(InputIdentity { identity, byte_size: 0, row_count: 0, sha256: digest.to_owned() })
        },
    }
}

/// File stem of a batch run.
pub open spec fn batch_stem_text(index: nat) -> Seq<char> {
    "batch-"@ + zero_padded(index, 8)
}

/// File stem of a batch run.
pub fn batch_stem(index: usize) -> (stem: String)
    ensures
        stem@ == batch_stem_text(index as nat),
{
    let mut stem: String = "batch-".to_owned();
    push_zero_padded(&mut stem, index as u64, 8);
    stem
}

/// File stem of a merge run: round, group, and the start of the digest of its
/// inputs.
pub open spec fn merge_stem_text(round: nat, group: nat, digest: Seq<char>) -> Seq<char> {
    "merge-"@ + zero_padded(round, 4) + "-"@ + zero_padded(group, 8) + "-"@ + digest.take(16)
}

/// File stem of a merge run.
pub fn merge_stem(round: u32, group: usize, digest: &str) -> (stem: String)
    requires
        16 <= digest@.len(),
    ensures
        stem@ == merge_stem_text(round as nat, group as nat, digest@),
{
    let mut stem: String = "merge-".to_owned();
    push_zero_padded(&mut stem, round as u64, 4);
    stem.append("-");
    push_zero_padded(&mut stem, group as u64, 8);
    stem.append("-");
    assert(digest@.subrange(0, 16) =~= digest@.take(16));
    stem.append(digest.substring_char(0, 16));
    stem
}

/// `a` comes before `b`: earlier for the first key, later for the last.
pub open spec fn key_precedes(last: bool, a: Seq<char>, b: Seq<char>) -> bool {
    if last {
        text_less(b, a)
    } else {
        text_less(a, b)
    }
}

/// The first (or last) key of a run.
pub open spec fn end_key(run: CompletedRun, last: bool) -> Option<String> {
    if last {
        run.checkpoint.artifact.max_key
    } else {
        run.checkpoint.artifact.min_key
    }
}

/// `key` is the first (or last) of the runs that have one, absent where none
/// has.
pub open spec fn is_merged_key(
    runs: Seq<CompletedRun>,
    last: bool,
    key: Option<String>,
) -> bool {
    match key {
        None => forall|i: int| 0 <= i < runs.len() ==> end_key(#[trigger] runs[i], last) is None,
        Some(text) => {
            &&& exists|i: int|
                0 <= i < runs.len() && end_key(#[trigger] runs[i], last) is Some && end_key(
                    runs[i],
                    last,
                )->0@ == text@
            &&& forall|i: int|
                0 <= i < runs.len() && end_key(#[trigger] runs[i], last) is Some ==> !key_precedes(
                    last,
                    end_key(runs[i], last)->0@,
                    text@,
                )
        },
    }
}

/// The first (or last) key of the run that merges `runs[start..end]`.
pub fn merged_key(runs: &Vec<CompletedRun>, start: usize, end: usize, last: bool) -> (key: Option<
    String,
>)
    requires
        start <= end <= runs@.len(),
    ensures
        is_merged_key(runs@.subrange(start as int, end as int), last, key),
{
    let mut key: Option<String> = None;
    let ghost all = runs@.subrange(start as int, end as int);
    let mut i: usize = start;
    while i < end
        invariant
            start <= i <= end <= runs@.len(),
            all == runs@.subrange(start as int, end as int),
            is_merged_key(all.take(i - start), last, key),
        decreases end - i,
    {
        let ghost k = i - start;
        let ghost earlier = all.take(k);
        let ghost more = all.take(k + 1);
        let ghost before = key;
        let run: &CompletedRun = &runs[i];
        assert(more[k] == *run);
        let candidate: &Option<String> = if last {
            &run.checkpoint.artifact.max_key
        } else {
            &run.checkpoint.artifact.min_key
        };
        if let Some(text) = candidate {
            let replace: bool = match &key {
                None => true,
                Some(best) => if last {
                    text_before(best.as_str(), text.as_str())
                } else {
                    text_before(text.as_str(), best.as_str())
                },
            };
            if replace {
                key = Some(text.clone());
            }
        }
        proof {
            assert forall|j: int| 0 <= j < k implies more[j] == earlier[j] by {}
            lemma_merged_key_step(earlier, more, *run, last, before, key);
        }
        i += 1;
    }
    assert(all.take(end - start) =~= all);
    key
}

/// One more run keeps or replaces the merged key.
proof fn lemma_merged_key_step(
    earlier: Seq<CompletedRun>,
    more: Seq<CompletedRun>,
    run: CompletedRun,
    last: bool,
    before: Option<String>,
    after: Option<String>,
)
    requires
        is_merged_key(earlier, last, before),
        more.len() == earlier.len() + 1,
        forall|j: int| 0 <= j < earlier.len() ==> more[j] == earlier[j],
        more[earlier.len() as int] == run,
        match end_key(run, last) {
            None => after == before,
            Some(text) => if before is None || key_precedes(last, text@, before->0@) {
                after == Some(text)
            } else {
                after == before
            },
        },
    ensures
        is_merged_key(more, last, after),
{
    let n = earlier.len() as int;
    if after is Some {
        let best = after->0@;
        if after == end_key(run, last) && (before is None || key_precedes(
            last,
            best,
            before->0@,
        )) {
            assert(end_key(more[n], last)->0@ == best);
            assert forall|i: int|
                0 <= i < more.len() && end_key(#[trigger] more[i], last) is Some implies !key_precedes(
                last,
                end_key(more[i], last)->0@,
                best,
            ) by {
                let other = end_key(more[i], last)->0@;
                lemma_text_order(other, best);
                if i < n {
                    assert(more[i] == earlier[i]);
                    assert(end_key(earlier[i], last) is Some);
                    if key_precedes(last, other, best) {
                        let old_best = before->0@;
                        if last {
                            crate::bytes::lemma_lex_transitive(
                                vstd::utf8::encode_utf8(old_best),
                                vstd::utf8::encode_utf8(best),
                                vstd::utf8::encode_utf8(other),
                            );
                        } else {
                            crate::bytes::lemma_lex_transitive(
                                vstd::utf8::encode_utf8(other),
                                vstd::utf8::encode_utf8(best),
                                vstd::utf8::encode_utf8(old_best),
                            );
                        }
                        assert(key_precedes(last, other, old_best));
                    }
                }
            }
        } else {
            let i = choose|i: int|
                0 <= i < earlier.len() && end_key(#[trigger] earlier[i], last) is Some && end_key(
                    earlier[i],
                    last,
                )->0@ == best;
            assert(more[i] == earlier[i]);
            assert(end_key(more[i], last)->0@ == best);
            assert forall|j: int|
                0 <= j < more.len() && end_key(#[trigger] more[j], last) is Some implies !key_precedes(
                last,
                end_key(more[j], last)->0@,
                best,
            ) by {
                if j < n {
                    assert(more[j] == earlier[j]);
                    assert(end_key(earlier[j], last) is Some);
                }
            }
        }
    } else {
        assert forall|i: int| 0 <= i < more.len() implies end_key(#[trigger] more[i], last) is None by {
            if i < n {
                assert(more[i] == earlier[i]);
                assert(end_key(earlier[i], last) is None);
            }
        }
    }
}

/// The UTF-8 bytes of a text.
pub open spec fn text_bytes(text: Seq<char>) -> Seq<u8> {
    vstd::utf8::encode_utf8(text)
}

/// What a merge digest covers of one input.
pub open spec fn input_message(input: InputIdentity) -> Seq<u8> {
    text_bytes(input.identity@).push(0u8) + text_bytes(input.sha256@) + be_bytes(
        input.byte_size as nat,
        8,
    ) + be_bytes(input.row_count as nat, 8)
}

/// What a merge digest covers: its prefix, a zero byte, and every input.
pub open spec fn merge_message(prefix: Seq<char>, inputs: Seq<InputIdentity>) -> Seq<u8>
    decreases inputs.len(),
{
    if inputs.len() == 0 {
        text_bytes(prefix).push(0u8)
    } else {
        merge_message(prefix, inputs.drop_last()) + input_message(inputs.last())
    }
}

/// The digest that names a merge by its inputs.
pub fn merge_identity(prefix: &str, inputs: &Vec<InputIdentity>) -> (digest: String)
    ensures
        digest@ == sha256_text(merge_message(prefix@, inputs@)),
        digest@.len() == 64,
{
    let mut message: Vec<u8> = Vec::new();
    push_bytes(&mut message, prefix.as_bytes());
    message.push(0u8);
    let mut i: usize = 0;
    proof {
        assert(inputs@.take(0) =~= Seq::empty());
        assert(message@ =~= merge_message(prefix@, inputs@.take(0)));
    }
    while i < inputs.len()
        invariant
            i <= inputs@.len(),
            message@ == merge_message(prefix@, inputs@.take(i as int)),
        decreases inputs.len() - i,
    {
        let input: &InputIdentity = &inputs[i];
        let ghost before = message@;
        push_bytes(&mut message, input.identity.as_str().as_bytes());
        message.push(0u8);
        push_bytes(&mut message, input.sha256.as_str().as_bytes());
        push_be(&mut message, input.byte_size, 8);
        push_be(&mut message, input.row_count, 8);
        proof {
            assert(message@ =~= before + input_message(*input));
            assert(inputs@.take(i + 1).drop_last() =~= inputs@.take(i as int));
        }
        i += 1;
    }
    assert(inputs@.take(inputs@.len() as int) =~= inputs@);
    sha256_hex(message.as_slice())
}

/// A head and parts, with a zero byte before every part.
pub open spec fn append_parts(head: Seq<u8>, parts: Seq<Seq<char>>) -> Seq<u8>
    decreases parts.len(),
{
    if parts.len() == 0 {
        head
    } else {
        append_parts(head, parts.drop_last()).push(0u8) + text_bytes(parts.last())
    }
}

/// What a product digest covers: its prefix and its parts, with a zero byte
/// between any two.
pub open spec fn product_message(prefix: Seq<char>, parts: Seq<Seq<char>>) -> Seq<u8> {
    append_parts(text_bytes(prefix), parts)
}

/// The digest of a head and parts, with a zero byte before every part.
pub fn digest_from(head: &[u8], parts: &[&str]) -> (digest: String)
    ensures
        digest@ == sha256_text(append_parts(head@, text_views(parts@))),
        digest@.len() == 64,
{
    let mut message: Vec<u8> = Vec::new();
    push_bytes(&mut message, head);
    let ghost views = text_views(parts@);
    let mut i: usize = 0;
    proof {
        assert(views.take(0) =~= Seq::empty());
        assert(message@ =~= append_parts(head@, views.take(0)));
    }
    while i < parts.len()
        invariant
            i <= parts@.len(),
            views == text_views(parts@),
            message@ == append_parts(head@, views.take(i as int)),
        decreases parts@.len() - i,
    {
        message.push(0u8);
        push_bytes(&mut message, parts[i].as_bytes());
        proof {
            assert(views.take(i + 1).drop_last() =~= views.take(i as int));
            assert(views.take(i + 1).last() == parts@[i as int]@);
        }
        i += 1;
    }
    assert(views.take(views.len() as int) =~= views);
    sha256_hex(message.as_slice())
}

/// The digest of a prefix and parts, with a zero byte before every part.
pub fn digest_parts(prefix: &str, parts: &[&str]) -> (digest: String)
    ensures
        digest@ == sha256_text(product_message(prefix@, text_views(parts@))),
        digest@.len() == 64,
{
    digest_from(prefix.as_bytes(), parts)
}

/// The texts of the parts.
pub open spec fn text_views(parts: Seq<&str>) -> Seq<Seq<char>> {
    Seq::new(parts.len(), |i: int| parts[i]@)
}

/// The digest that names a product by the run that it belongs to and by its
/// evidence.
pub fn product_identity(prefix: &str, run_id: &str, evidence_sha256: &str) -> (digest: String)
    ensures
        digest@ == sha256_text(product_message(prefix@, seq![run_id@, evidence_sha256@])),
        digest@.len() == 64,
{
    let parts: [&str; 2] = [run_id, evidence_sha256];
    proof {
        assert(text_views(parts@) =~= seq![run_id@, evidence_sha256@]);
    }
    digest_parts(prefix, parts.as_slice())
}

/// The checkpoints of runs.
pub open spec fn checkpoint_paths(runs: Seq<CompletedRun>) -> Seq<String> {
    Seq::new(runs.len(), |i: int| runs[i].checkpoint_path)
}

/// The checkpoints of runs.
pub fn list_checkpoints(runs: &Vec<CompletedRun>) -> (paths: Vec<String>)
    ensures
        paths@ == checkpoint_paths(runs@),
{
    let mut paths: Vec<String> = Vec::new();
    let mut i: usize = 0;
    while i < runs.len()
        invariant
            i <= runs@.len(),
            paths@ =~= checkpoint_paths(runs@.take(i as int)),
        decreases runs.len() - i,
    {
        paths.push(runs[i].checkpoint_path.clone());
        i += 1;
    }
    assert(runs@.take(runs@.len() as int) =~= runs@);
    paths
}

} // verus!
