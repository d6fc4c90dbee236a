//! Locations of immutable catalog objects.

use vstd::prelude::*;
use vstd::string::*;

use crate::artifact::CatalogObject;
use crate::error::{Error, Result};
use crate::text::{chars_of, find_char, strip_prefix, without_prefix};

verus! {

/// One object location that the query engine reads.
#[derive(Clone, Debug, PartialEq, Eq)]
pub enum ObjectLocation {
    /// A local file below an operator-provided immutable lake root.
    Local(String),
    /// An object read directly from S3-compatible storage.
    S3(String),
}

impl ObjectLocation {
    /// The path or URI of the location.
    pub open spec fn address(&self) -> Seq<char> {
        match self {
            ObjectLocation::Local(path) => path@,
            ObjectLocation::S3(uri) => uri@,
        }
    }

    /// The path or URI that `read_parquet` takes.
    pub fn duckdb_path(&self) -> (path: String)
        ensures
            path@ == self.address(),
    {
        match self {
            ObjectLocation::Local(path) => path.clone(),
            ObjectLocation::S3(uri) => uri.clone(),
        }
    }
}

/// A validated immutable list of active objects.
#[derive(Clone, Debug, PartialEq, Eq)]
pub struct CatalogSnapshot {
    /// Digest identity of the snapshot.
    pub snapshot_id: String,
    /// Namespace of the object store.
    pub store_id: String,
    /// Active objects in canonical order.
    pub objects: Vec<CatalogObject>,
    /// Physical rows of all objects.
    pub physical_rows: u64,
}

/// A validated snapshot plus resolved object locations.
#[derive(Clone, Debug, PartialEq, Eq)]
pub struct ResolvedSnapshot {
    /// Validated immutable snapshot.
    pub catalog: CatalogSnapshot,
    /// Locations in the order of the objects.
    pub locations: Vec<ObjectLocation>,
    /// S3 endpoint hostname when locations are remote.
    pub s3_endpoint: Option<String>,
    /// S3 bucket when locations are remote.
    pub s3_bucket: Option<String>,
}

/// What is at the path of an object below a local root.
#[derive(Clone, Debug, PartialEq, Eq)]
pub struct LocalFile {
    /// Path of the object.
    pub path: String,
    /// Whether a file is there.
    pub is_file: bool,
}

/// Scheme of a store namespace.
pub const S3_SCHEME: &'static str = "s3+https://";

/// A name part of a namespace: not empty, without separators.
pub open spec fn is_name_part(part: Seq<char>) -> bool {
    &&& part.len() > 0
    &&& !part.contains('/')
    &&& !part.contains('?')
    &&& !part.contains('#')
}

/// `store_id` is the scheme, the endpoint, a slash and the bucket.
pub open spec fn names_store(
    store_id: Seq<char>,
    endpoint: Seq<char>,
    bucket: Seq<char>,
) -> bool {
    &&& store_id == S3_SCHEME@ + endpoint + seq!['/'] + bucket
    &&& is_name_part(endpoint)
    &&& is_name_part(bucket)
}

/// Whether a range of characters is a name part.
fn check_name_part(chars: &Vec<char>, start: usize, end: usize) -> (valid: bool)
    requires
        start <= end <= chars@.len(),
    ensures
        valid == is_name_part(chars@.subrange(start as int, end as int)),
{
    let ghost part = chars@.subrange(start as int, end as int);
    if start == end {
        return false;
    }
    let mut i: usize = start;
    while i < end
        invariant
            start <= i <= end <= chars@.len(),
            part == chars@.subrange(start as int, end as int),
            forall|j: int|
                start <= j < i ==> chars@[j] != '/' && chars@[j] != '?' && chars@[j] != '#',
        decreases end - i,
    {
        let c: char = chars[i];
        if c == '/' || c == '?' || c == '#' {
            assert(part[i - start] == c);
            return false;
        }
        i += 1;
    }
    proof {
        assert forall|k: int| 0 <= k < part.len() implies part[k] != '/' && part[k] != '?'
            && part[k] != '#' by {
            assert(part[k] == chars@[start + k]);
        }
    }
    true
}

/// Split a store namespace into endpoint and bucket.
pub fn parse_s3_store_id(store_id: &str) -> (outcome: Result<(String, String)>)
    ensures
        match outcome {
            Ok((endpoint, bucket)) => names_store(store_id@, endpoint@, bucket@),
            Err(error) => {
                &&& error is UnsupportedStoreId
                &&& error->UnsupportedStoreId_0@ == store_id@
                &&& forall|endpoint: Seq<char>, bucket: Seq<char>|
                    #![trigger names_store(store_id@, endpoint, bucket)]
                    !names_store(store_id@, endpoint, bucket)
            },
        },
{
    let namespace: &str = match strip_prefix(store_id, S3_SCHEME) {
        Some(namespace) => namespace,
        None => {
            proof {
                assert forall|e: Seq<char>, b: Seq<char>| !#[trigger] names_store(store_id@, e, b)
                    by {
                    if names_store(store_id@, e, b) {
                        lemma_behind_scheme(store_id@, e, b);
                    }
                }
            }
            return Err(Error::UnsupportedStoreId(store_id.to_owned()));
        },
    };
    let ghost rest = namespace@;
    let chars: Vec<char> = chars_of(namespace);
    let slash: usize = match find_char(&chars, '/', 0) {
        Some(index) => index,
        None => {
            proof {
                assert forall|e: Seq<char>, b: Seq<char>| !#[trigger] names_store(store_id@, e, b)
                    by {
                    if names_store(store_id@, e, b) {
                        lemma_behind_scheme(store_id@, e, b);
                        assert(rest[e.len() as int] == '/');
                    }
                }
            }
            return Err(Error::UnsupportedStoreId(store_id.to_owned()));
        },
    };
    let count: usize = chars.len();
    let ghost head = rest.subrange(0, slash as int);
    let ghost tail = rest.subrange(slash + 1, count as int);
    proof {
        assert forall|e: Seq<char>, b: Seq<char>| #[trigger]
            names_store(store_id@, e, b) implies e == head && b == tail by {
            lemma_behind_scheme(store_id@, e, b);
            lemma_first_slash(rest, e, b, slash as int);
        }
    }
    if !check_name_part(&chars, 0, slash) || !check_name_part(&chars, slash + 1, count) {
        return Err(Error::UnsupportedStoreId(store_id.to_owned()));
    }
    proof {
        assert(rest =~= head + seq!['/'] + tail);
        assert(store_id@ =~= S3_SCHEME@ + rest);
        assert(store_id@ =~= S3_SCHEME@ + head + seq!['/'] + tail);
    }
    let endpoint: String = namespace.substring_char(0, slash).to_owned();
    let bucket: String = namespace.substring_char(slash + 1, count).to_owned();
    Ok((endpoint, bucket))
}

/// What stands behind the scheme of a store namespace.
proof fn lemma_behind_scheme(store_id: Seq<char>, endpoint: Seq<char>, bucket: Seq<char>)
    requires
        names_store(store_id, endpoint, bucket),
    ensures
        without_prefix(store_id, S3_SCHEME@) == Some(endpoint + seq!['/'] + bucket),
{
    let scheme = S3_SCHEME@;
    assert(store_id.take(scheme.len() as int) =~= scheme);
    assert(store_id.skip(scheme.len() as int) =~= endpoint + seq!['/'] + bucket);
}

/// The first slash ends the endpoint.
proof fn lemma_first_slash(rest: Seq<char>, endpoint: Seq<char>, bucket: Seq<char>, slash: int)
    requires
        rest == endpoint + seq!['/'] + bucket,
        is_name_part(endpoint),
        0 <= slash < rest.len(),
        rest[slash] == '/',
        forall|i: int| 0 <= i < slash ==> rest[i] != '/',
    ensures
        endpoint == rest.subrange(0, slash),
        bucket == rest.subrange(slash + 1, rest.len() as int),
{
    assert(rest[endpoint.len() as int] == '/');
    if slash < endpoint.len() {
        assert(endpoint[slash] == '/');
        assert(endpoint.contains('/'));
    }
    assert(slash == endpoint.len());
    assert(endpoint =~= rest.subrange(0, slash));
    assert(bucket =~= rest.subrange(slash + 1, rest.len() as int));
}

/// The URI of an object of a bucket.
pub open spec fn s3_uri(bucket: Seq<char>, key: Seq<char>) -> Seq<char> {
    "s3://"@ + bucket + "/"@ + key
}

/// The remote locations of objects, in their order.
pub fn s3_locations(bucket: &str, objects: &Vec<CatalogObject>) -> (locations: Vec<ObjectLocation>)
    ensures
        locations@.len() == objects@.len(),
        forall|i: int|
            0 <= i < locations@.len() ==> (#[trigger] locations@[i]) is S3 && locations@[i].address()
                == s3_uri(bucket@, objects@[i].object_key@),
{
    let mut locations: Vec<ObjectLocation> = Vec::new();
    let mut i: usize = 0;
    while i < objects.len()
        invariant
            i <= objects@.len(),
            locations@.len() == i,
            forall|j: int|
                0 <= j < i ==> (#[trigger] locations@[j]) is S3 && locations@[j].address()
                    == s3_uri(bucket@, objects@[j].object_key@),
        decreases objects.len() - i,
    {
        let mut uri: String = "s3://".to_owned();
        uri.append(bucket);
        uri.append("/");
        uri.append(objects[i].object_key.as_str());
        locations.push(ObjectLocation::S3(uri));
        i += 1;
    }
    locations
}

/// The snapshot reads every object of the catalog from the bucket that its
/// store identity names.
pub open spec fn resolves_remotely(resolved: ResolvedSnapshot, catalog: CatalogSnapshot) -> bool {
    &&& resolved.catalog == catalog
    &&& resolved.s3_endpoint is Some
    &&& resolved.s3_bucket is Some
    &&& names_store(catalog.store_id@, resolved.s3_endpoint->0@, resolved.s3_bucket->0@)
    &&& resolved.locations@.len() == catalog.objects@.len()
    &&& forall|i: int|
        0 <= i < resolved.locations@.len() ==> (#[trigger] resolved.locations@[i]) is S3
            && resolved.locations@[i].address() == s3_uri(
            resolved.s3_bucket->0@,
            catalog.objects@[i].object_key@,
        )
}

/// Resolve a catalog in remote mode: every object is read from the bucket that
/// its store identity names.
pub fn resolve_remote(catalog: CatalogSnapshot) -> (outcome: Result<ResolvedSnapshot>)
    ensures
        match outcome {
            Ok(resolved) => resolves_remotely(resolved, catalog),
            Err(error) => {
                &&& error is UnsupportedStoreId
                &&& error->UnsupportedStoreId_0@ == catalog.store_id@
                &&& forall|endpoint: Seq<char>, bucket: Seq<char>|
                    !#[trigger] names_store(catalog.store_id@, endpoint, bucket)
            },
        },
{
    match parse_s3_store_id(catalog.store_id.as_str()) {
        Err(error) => Err(error),
        Ok((endpoint, bucket)) => {
            let locations: Vec<ObjectLocation> = s3_locations(bucket.as_str(), &catalog.objects);
            Ok(
                ResolvedSnapshot {
                    catalog,
                    locations,
                    s3_endpoint: Some(endpoint),
                    s3_bucket: Some(bucket),
                },
            )
        },
    }
}

/// The first `count` files are there.
pub open spec fn all_there(files: Seq<LocalFile>, count: int) -> bool {
    forall|i: int| 0 <= i < count ==> (#[trigger] files[i]).is_file
}

/// The locations are those of the local files.
pub open spec fn are_local(locations: Seq<ObjectLocation>, files: Seq<LocalFile>) -> bool {
    &&& locations.len() == files.len()
    &&& forall|i: int|
        0 <= i < files.len() ==> (#[trigger] locations[i]) is Local && locations[i].address()
            == files[i].path@
}

/// The locations of local files, or an error that names the first that is
/// missing.
pub fn local_locations(files: &Vec<LocalFile>) -> (outcome: Result<Vec<ObjectLocation>>)
    ensures
        outcome is Ok <==> all_there(files@, files@.len() as int),
        match outcome {
            Ok(locations) => are_local(locations@, files@),
            Err(error) => exists|i: int|
                0 <= i < files@.len() && all_there(files@, i) && !(#[trigger] files@[i]).is_file
                    && error == Error::MissingLocalObject(files@[i].path),
        },
{
    let mut locations: Vec<ObjectLocation> = Vec::new();
    let mut i: usize = 0;
    while i < files.len()
        invariant
            i <= files@.len(),
            all_there(files@, i as int),
            are_local(locations@, files@.take(i as int)),
        decreases files.len() - i,
    {
        if !files[i].is_file {
            let path: String = files[i].path.clone();
            assert(!files@[i as int].is_file && path == files@[i as int].path);
            return Err(Error::MissingLocalObject(path));
        }
        locations.push(ObjectLocation::Local(files[i].path.clone()));
        i += 1;
    }
    assert(files@.take(files@.len() as int) =~= files@);
    Ok(locations)
}

/// Resolve a snapshot below a local root, where `local` gives what is at the
/// path of each object, or else in its S3 namespace.
pub fn resolve_snapshot(catalog: CatalogSnapshot, local: Option<Vec<LocalFile>>) -> (outcome:
    Result<ResolvedSnapshot>)
    requires
        local is Some ==> local->0@.len() == catalog.objects@.len(),
    ensures
        local is Some ==> (outcome is Ok <==> all_there(local->0@, local->0@.len() as int)),
        match outcome {
            Ok(resolved) => match local {
                Some(files) => {
                    &&& resolved.catalog == catalog
                    &&& are_local(resolved.locations@, files@)
                    &&& resolved.s3_endpoint is None
                    &&& resolved.s3_bucket is None
                },
                None => resolves_remotely(resolved, catalog),
            },
            Err(error) => match local {
                Some(files) => exists|i: int|
                    0 <= i < files@.len() && all_there(files@, i) && !(
                    #[trigger] files@[i]).is_file && error == Error::MissingLocalObject(
                        files@[i].path,
                    ),
                None => {
                    &&& error is UnsupportedStoreId
                    &&& error->UnsupportedStoreId_0@ == catalog.store_id@
                    &&& forall|endpoint: Seq<char>, bucket: Seq<char>|
                        !#[trigger] names_store(catalog.store_id@, endpoint, bucket)
                },
            },
        },
{
    match local {
        Some(files) => match local_locations(&files) {
            Ok(locations) => Ok(
                ResolvedSnapshot { catalog, locations, s3_endpoint: None, s3_bucket: None },
            ),
            Err(error) => Err(error),
        },
        None => resolve_remote(catalog),
    }
}

} // verus!
