//! Identities of immutable artifacts, inputs and runs.

use vstd::prelude::*;

use crate::digest::{hex_text, sha256_hex, sha256_text};
use crate::text::text_equal;

verus! {

/// Identity of one immutable record artifact.
#[derive(Clone, Debug, PartialEq, Eq)]
pub struct ArtifactIdentity {
    /// Location of the artifact.
    pub path: String,
    /// Size in bytes.
    pub byte_size: u64,
    /// Number of records.
    pub row_count: u64,
    /// Hexadecimal first key.
    pub min_key: Option<String>,
    /// Hexadecimal last key.
    pub max_key: Option<String>,
    /// Hexadecimal SHA-256 digest of the bytes.
    pub sha256: String,
}

/// Identity of one immutable input.
#[derive(Clone, Debug, PartialEq, Eq)]
pub struct InputIdentity {
    /// Name of the input.
    pub identity: String,
    /// Size in bytes.
    pub byte_size: u64,
    /// Number of rows.
    pub row_count: u64,
    /// Hexadecimal SHA-256 digest of the bytes.
    pub sha256: String,
}

/// Identity of one run of a product stage.
#[derive(Clone, Debug, PartialEq, Eq)]
pub struct RunIdentity {
    /// Frozen catalog snapshot.
    pub snapshot_id: String,
    /// Fixed analytics boundary.
    pub as_of: u64,
    /// Product and stage.
    pub product: String,
    /// Version of the product.
    pub product_version: String,
    /// Layout of the record keys.
    pub key_space: String,
}

/// Immutable record of one completed run.
#[derive(Clone, Debug, PartialEq, Eq)]
pub struct RunCheckpoint {
    /// Schema of the checkpoint.
    pub schema_version: u32,
    /// Identity of the runner.
    pub runner_version: String,
    /// Identity of the run.
    pub run: RunIdentity,
    /// Inputs of the run.
    pub inputs: Vec<InputIdentity>,
    /// Output of the run.
    pub artifact: ArtifactIdentity,
}

/// One immutable object of a catalog.
#[derive(Clone, Debug, PartialEq, Eq)]
pub struct CatalogObject {
    /// Key of the object in its store.
    pub object_key: String,
    /// Work unit that wrote the object.
    pub work_unit_id: String,
    /// Hexadecimal SHA-256 digest of the bytes.
    pub sha256: String,
    /// Size in bytes.
    pub byte_size: u64,
    /// Number of rows.
    pub row_count: u64,
    /// Earliest event timestamp, as decimal text.
    pub min_created_at: Option<String>,
    /// Latest event timestamp, as decimal text.
    pub max_created_at: Option<String>,
}

/// Most bytes and rows that one scan takes.
#[derive(Clone, Copy, Debug, PartialEq, Eq, Structural)]
pub struct BatchLimits {
    /// Most bytes.
    pub max_bytes: u64,
    /// Most rows.
    pub max_rows: u64,
}

/// One scan of a build.
#[derive(Clone, Debug, PartialEq, Eq)]
pub struct InputBatch {
    /// Number of the batch.
    pub index: usize,
    /// Inputs of the batch.
    pub inputs: Vec<InputIdentity>,
    /// Total bytes of the inputs.
    pub byte_size: u64,
    /// Total rows of the inputs.
    pub row_count: u64,
}

/// What one streaming merge read and wrote.
#[derive(Clone, Copy, Debug, PartialEq, Eq, Structural)]
pub struct MergeStats {
    /// Records read.
    pub input_records: u64,
    /// Records written.
    pub output_records: u64,
    /// Records suppressed as duplicates.
    pub duplicate_records: u64,
    /// Most record bytes held at once.
    pub peak_buffered_bytes: usize,
}

/// The bytes of a finished run, with its row count and its first and last key.
#[derive(Clone, Debug, PartialEq, Eq)]
pub struct EncodedRun {
    /// The records.
    pub bytes: Vec<u8>,
    /// Number of records.
    pub rows: u64,
    /// Hexadecimal first key.
    pub min_key: Option<String>,
    /// Hexadecimal last key.
    pub max_key: Option<String>,
}

impl EncodedRun {
    /// The keys are the hexadecimal texts of `first` and `last`, or absent
    /// where the run is empty.
    pub open spec fn keys_are(&self, filled: bool, first: Seq<u8>, last: Seq<u8>) -> bool {
        if filled {
            &&& self.min_key is Some
            &&& self.max_key is Some
            &&& self.min_key->0@ == hex_text(first)
            &&& self.max_key->0@ == hex_text(last)
        } else {
            self.min_key is None && self.max_key is None
        }
    }
}

/// The artifact has the size and the digest of `bytes`, and holds records of
/// `width` bytes.
pub open spec fn describes_records(
    artifact: ArtifactIdentity,
    width: int,
    bytes: Seq<u8>,
) -> bool {
    &&& artifact.byte_size == bytes.len()
    &&& artifact.byte_size == artifact.row_count * width
    &&& artifact.sha256@ == sha256_text(bytes)
}

/// Whether the artifact has the size and the digest of `bytes`, and holds
/// records of `width` bytes.
pub fn artifact_describes(artifact: &ArtifactIdentity, width: usize, bytes: &[u8]) -> (same: bool)
    requires
        0 < width,
    ensures
        same == describes_records(*artifact, width as int, bytes@),
{
    let length: u64 = bytes.len() as u64;
    if artifact.byte_size != length {
        return false;
    }
    match artifact.row_count.checked_mul(width as u64) {
        None => {
            return false;
        },
        Some(total) => {
            if artifact.byte_size != total {
                return false;
            }
        },
    }
    text_equal(artifact.sha256.as_str(), sha256_hex(bytes).as_str())
}

/// The inputs of objects.
pub open spec fn object_input_list(objects: Seq<CatalogObject>) -> Seq<InputIdentity> {
    Seq::new(objects.len(), |i: int| object_input(objects[i]))
}

/// The inputs of a catalog: each object under its key.
pub fn object_inputs(objects: &Vec<CatalogObject>) -> (inputs: Vec<InputIdentity>)
    ensures
        inputs@ == object_input_list(objects@),
{
    let mut inputs: Vec<InputIdentity> = Vec::new();
    let mut i: usize = 0;
    while i < objects.len()
        invariant
            i <= objects.len(),
            inputs@.len() == i,
            forall|j: int|
                0 <= j < inputs@.len() ==> (#[trigger] inputs@[j]) == object_input(objects@[j]),
        decreases objects.len() - i,
    {
        let object: &CatalogObject = &objects[i];
        inputs.push(
            InputIdentity {
                identity: object.object_key.clone(),
                byte_size: object.byte_size,
                row_count: object.row_count,
                sha256: object.sha256.clone(),
            },
        );
        i += 1;
    }
    assert(inputs@ =~= object_input_list(objects@));
    inputs
}

/// The input that a catalog object stands for.
pub open spec fn object_input(object: CatalogObject) -> InputIdentity {
    InputIdentity {
        identity: object.object_key,
        byte_size: object.byte_size,
        row_count: object.row_count,
        sha256: object.sha256,
    }
}

/// The inputs agree in every field.
pub open spec fn same_input(a: InputIdentity, b: InputIdentity) -> bool {
    &&& a.identity@ == b.identity@
    &&& a.byte_size == b.byte_size
    &&& a.row_count == b.row_count
    &&& a.sha256@ == b.sha256@
}

/// Whether the inputs agree in every field.
pub fn input_equal(a: &InputIdentity, b: &InputIdentity) -> (same: bool)
    ensures
        same == same_input(*a, *b),
{
    text_equal(a.identity.as_str(), b.identity.as_str()) && a.byte_size == b.byte_size
        && a.row_count == b.row_count && text_equal(a.sha256.as_str(), b.sha256.as_str())
}

/// The lists agree input by input.
pub open spec fn same_inputs(a: Seq<InputIdentity>, b: Seq<InputIdentity>) -> bool {
    &&& a.len() == b.len()
    &&& forall|i: int| 0 <= i < a.len() ==> same_input(#[trigger] a[i], b[i])
}

/// Whether the lists agree input by input.
pub fn inputs_equal(a: &Vec<InputIdentity>, b: &Vec<InputIdentity>) -> (same: bool)
    ensures
        same == same_inputs(a@, b@),
{
    if a.len() != b.len() {
        return false;
    }
    let mut i: usize = 0;
    while i < a.len()
        invariant
            i <= a@.len(),
            a@.len() == b@.len(),
            forall|j: int| 0 <= j < i ==> same_input(#[trigger] a@[j], b@[j]),
        decreases a.len() - i,
    {
        if !input_equal(&a[i], &b[i]) {
            assert(!same_input(a@[i as int], b@[i as int]));
            return false;
        }
        i += 1;
    }
    true
}

/// A copy of an artifact identity.
pub fn copy_artifact(artifact: &ArtifactIdentity) -> (copy: ArtifactIdentity)
    ensures
        copy == *artifact,
{
    ArtifactIdentity {
        path: artifact.path.clone(),
        byte_size: artifact.byte_size,
        row_count: artifact.row_count,
        min_key: match &artifact.min_key {
            Some(key) => Some(key.clone()),
            None => None,
        },
        max_key: match &artifact.max_key {
            Some(key) => Some(key.clone()),
            None => None,
        },
        sha256: artifact.sha256.clone(),
    }
}

} // verus!
