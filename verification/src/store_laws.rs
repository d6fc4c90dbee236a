//! Where the objects of a snapshot lie, and what the files of a run are called.

use vstd::prelude::*;
use vstd::string::*;

use crate::artifact::CatalogObject;
use crate::bytes::lex_less;
use crate::error::Result;
use crate::input::{
    is_name_part, local_locations, names_store, parse_s3_store_id, s3_locations, LocalFile,
    ObjectLocation,
};
use crate::merge::CompletedRun;
use crate::runs::{batch_stem, end_key, merge_stem, merged_key};
use crate::text::{decimal, decimal_value, zero_padded, zeros};
use crate::words::lemma_decimal_reads_back;

verus! {

/// A part of a store's name: some characters, none of them a slash, a question
/// mark or a number sign.
pub open spec fn plain_part(part: Seq<char>) -> bool {
    part.len() > 0 && forall|i: int|
        0 <= i < part.len() ==> (#[trigger] part[i]) != '/' && part[i] != '?' && part[i] != '#'
}

/// A store is named by `s3+https://`, its endpoint, a slash and its bucket. Just
/// the names of this form are read, and the parts come out as they stand.
pub proof fn lemma_store_names_are_read(
    store_id: &str,
    outcome: Result<(String, String)>,
    endpoint: Seq<char>,
    bucket: Seq<char>,
)
    requires
        call_ensures(parse_s3_store_id, (store_id,), outcome),
    ensures
        outcome is Ok ==> {
            let parts = outcome->Ok_0;
            &&& store_id@ == "s3+https://"@ + parts.0@ + seq!['/'] + parts.1@
            &&& plain_part(parts.0@)
            &&& plain_part(parts.1@)
        },
        plain_part(endpoint) && plain_part(bucket) && store_id@ == "s3+https://"@ + endpoint + seq![
            '/',
        ] + bucket ==> outcome is Ok && (outcome->Ok_0).0@ == endpoint && (outcome->Ok_0).1@
            == bucket,
{
    if outcome is Ok {
        let parts = outcome->Ok_0;
        lemma_plain_part(parts.0@);
        lemma_plain_part(parts.1@);
    }
    if plain_part(endpoint) && plain_part(bucket) && store_id@ == "s3+https://"@ + endpoint + seq![
        '/',
    ] + bucket {
        lemma_plain_part(endpoint);
        lemma_plain_part(bucket);
        assert(names_store(store_id@, endpoint, bucket));
        let parts = outcome->Ok_0;
        let scheme = "s3+https://"@;
        let n = scheme.len() as int;
        let a = endpoint.len() as int;
        let b = parts.0@.len() as int;
        if a < b {
            assert(store_id@[n + a] == '/');
            assert(store_id@[n + a] == parts.0@[a]);
        }
        if b < a {
            assert(store_id@[n + b] == '/');
            assert(store_id@[n + b] == endpoint[b]);
        }
        assert(store_id@.subrange(n, n + a) == endpoint);
        assert(store_id@.subrange(n, n + a) == parts.0@);
        assert(store_id@.subrange(n + a + 1, store_id@.len() as int) == bucket);
        assert(store_id@.subrange(n + a + 1, store_id@.len() as int) == parts.1@);
    }
}

proof fn lemma_plain_part(part: Seq<char>)
    ensures
        plain_part(part) <==> is_name_part(part),
{
    if is_name_part(part) {
        assert forall|i: int| 0 <= i < part.len() implies (#[trigger] part[i]) != '/' && part[i]
            != '?' && part[i] != '#' by {
            assert(part.contains(part[i]));
        }
    }
}

/// Every object lies under its key in the bucket, or at its path, in the order
/// of the objects.
pub proof fn lemma_objects_lie_under_their_keys(
    bucket: &str,
    objects: &Vec<CatalogObject>,
    locations: Vec<ObjectLocation>,
    files: &Vec<LocalFile>,
    outcome: Result<Vec<ObjectLocation>>,
    i: int,
)
    requires
        call_ensures(s3_locations, (bucket, objects), locations),
        call_ensures(local_locations, (files,), outcome),
    ensures
        locations@.len() == objects@.len(),
        0 <= i < objects@.len() ==> (locations@[i] matches ObjectLocation::S3(uri) && uri@
            == "s3://"@ + bucket@ + "/"@ + objects@[i].object_key@),
        outcome is Ok <==> forall|k: int| 0 <= k < files@.len() ==> (#[trigger] files@[k]).is_file,
        outcome is Ok ==> (outcome->Ok_0)@.len() == files@.len(),
        outcome is Ok && 0 <= i < files@.len() ==> (
        (outcome->Ok_0)@[i] matches ObjectLocation::Local(path) && path@ == files@[i].path@),
{
    if 0 <= i < objects@.len() {
        assert(locations@[i] is S3);
    }
    if outcome is Ok && 0 <= i < files@.len() {
        assert((outcome->Ok_0)@[i] is Local);
    }
}

proof fn lemma_leading_zeros(count: nat, digits: Seq<char>)
    ensures
        decimal_value(zeros(count) + digits) == decimal_value(digits),
    decreases count + digits.len(),
{
    let text = zeros(count) + digits;
    if digits.len() > 0 {
        lemma_leading_zeros(count, digits.drop_last());
        assert(text.drop_last() =~= zeros(count) + digits.drop_last());
        assert(text.last() == digits.last());
    } else if count > 0 {
        let fewer = (count - 1) as nat;
        lemma_leading_zeros(fewer, digits);
        assert(text.drop_last() =~= zeros(fewer) + digits);
        assert(text.last() == '0');
    } else {
        assert(text =~= digits);
    }
}

proof fn lemma_zero_padded(n: nat, width: nat)
    requires
        0 < width,
    ensures
        decimal_value(zero_padded(n, width)) == n,
        zero_padded(n, width).len() >= width,
        zero_padded(n, width).len() > width ==> zero_padded(n, width)[0] != '0',
{
    lemma_decimal_reads_back(n);
    if decimal(n).len() < width {
        lemma_leading_zeros((width - decimal(n).len()) as nat, decimal(n));
    }
}

/// The name of a batch holds its number, with at least eight digits. That of a
/// merge holds its round, with at least four, its group, with at least eight,
/// and the start of its digest.
pub proof fn lemma_stems_hold_their_numbers(
    index: usize,
    batch: String,
    round: u32,
    group: usize,
    digest: &str,
    merge: String,
)
    requires
        call_ensures(batch_stem, (index,), batch),
        call_ensures(merge_stem, (round, group, digest), merge),
        16 <= digest@.len(),
    ensures
        exists|digits: Seq<char>| #[trigger]
            decimal_value(digits) == index && digits.len() >= 8 && (digits.len() > 8 ==> digits[0]
                != '0') && batch@ == "batch-"@ + digits,
        exists|first: Seq<char>, second: Seq<char>| #[trigger]
            decimal_value(first) == round && #[trigger] decimal_value(second) == group
                && first.len() >= 4 && second.len() >= 8 && merge@ == "merge-"@ + first + "-"@
                + second + "-"@ + digest@.subrange(0, 16),
{
    lemma_zero_padded(index as nat, 8);
    lemma_zero_padded(round as nat, 4);
    lemma_zero_padded(group as nat, 8);
    assert(decimal_value(zero_padded(index as nat, 8)) == index);
    assert(decimal_value(zero_padded(round as nat, 4)) == round);
    assert(decimal_value(zero_padded(group as nat, 8)) == group);
    assert(digest@.take(16) =~= digest@.subrange(0, 16));
}

/// The first key of merged runs is the least of their first keys, and the last
/// key is the greatest of their last keys.
pub proof fn lemma_merged_keys_bound_the_runs(
    runs: &Vec<CompletedRun>,
    start: usize,
    end: usize,
    first: Option<String>,
    last: Option<String>,
    i: int,
)
    requires
        call_ensures(merged_key, (runs, start, end, false), first),
        call_ensures(merged_key, (runs, start, end, true), last),
        start <= i < end <= runs@.len(),
    ensures
        runs@[i].checkpoint.artifact.min_key matches Some(key) ==> first is Some && !lex_less(
            vstd::utf8::encode_utf8(key@),
            vstd::utf8::encode_utf8(first->0@),
        ),
        runs@[i].checkpoint.artifact.max_key matches Some(key) ==> last is Some && !lex_less(
            vstd::utf8::encode_utf8(last->0@),
            vstd::utf8::encode_utf8(key@),
        ),
        first is Some ==> exists|k: int|
            start <= k < end && (#[trigger] runs@[k]).checkpoint.artifact.min_key is Some
                && runs@[k].checkpoint.artifact.min_key->0@ == first->0@,
        last is Some ==> exists|k: int|
            start <= k < end && (#[trigger] runs@[k]).checkpoint.artifact.max_key is Some
                && runs@[k].checkpoint.artifact.max_key->0@ == last->0@,
{
    let part = runs@.subrange(start as int, end as int);
    assert(part[i - start] == runs@[i]);
    assert(end_key(part[i - start], false) == runs@[i].checkpoint.artifact.min_key);
    assert(end_key(part[i - start], true) == runs@[i].checkpoint.artifact.max_key);
    if first is Some {
        let k = choose|k: int|
            0 <= k < part.len() && end_key(#[trigger] part[k], false) is Some && end_key(
                part[k],
                false,
            )->0@ == first->0@;
        assert(runs@[k + start] == part[k]);
    }
    if last is Some {
        let k = choose|k: int|
            0 <= k < part.len() && end_key(#[trigger] part[k], true) is Some && end_key(
                part[k],
                true,
            )->0@ == last->0@;
        assert(runs@[k + start] == part[k]);
    }
}

} // verus!
