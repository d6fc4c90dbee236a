//! What is accepted as a number, a digest, a known input or a published value.

use vstd::prelude::*;

use crate::artifact::InputIdentity;
use crate::digest::{hex_bytes, hex_digit, hex_text, hex_value, is_sha256};
use crate::error::Result;
use crate::flexible_distinct::{is_leaf_stream, FlexibleDistinctEvidence};
use crate::flexible_publish::sketch_bytes;
use crate::input_index::{
    holds_input, inputs_hold_all, is_last_input, list_pending, names_input, pending_places,
};
use crate::leaf_stream::{leaf_record, leaf_records};
use crate::publication::{fields_outcome, reconcile_fields, FieldCheck};
use crate::publisher_artifact::read_ranking_artifact;
use crate::publisher_ledger::PublisherRankingRow;
use crate::text::{all_digits, decimal, parse_unsigned};
use crate::words::lemma_decimal_reads_back;

verus! {

/// A number is read from its digits, with or without a plus before them. What
/// starts with anything else is no number.
pub proof fn lemma_numbers_are_read(text: &str, value: Option<u64>, n: u64)
    requires
        call_ensures(parse_unsigned, (text,), value),
    ensures
        text@ == decimal(n as nat) ==> value == Some(n),
        text@ == seq!['+'] + decimal(n as nat) ==> value == Some(n),
        text@.len() == 0 ==> value is None,
        text@.len() > 0 && text@[0] != '+' && !('0' <= text@[0] <= '9') ==> value is None,
        forall|i: int|
            0 < i < text@.len() && !('0' <= #[trigger] text@[i] <= '9') ==> value is None,
{
    lemma_decimal_reads_back(n as nat);
    let digits = decimal(n as nat);
    assert(all_digits(digits));
    if text@ == seq!['+'] + digits {
        assert(text@.skip(1) =~= digits);
    }
    if value is Some {
        if text@.len() > 0 && text@[0] == '+' {
            assert forall|i: int| 0 < i < text@.len() implies '0' <= #[trigger] text@[i] <= '9' by {
                assert(text@.skip(1)[i - 1] == text@[i]);
            }
        }
    }
}

/// A digest is the lower-case text of 32 bytes, and nothing else is.
pub proof fn lemma_digests_are_texts_of_bytes(text: &str, valid: bool, bytes: Seq<u8>)
    requires
        call_ensures(is_sha256, (text,), valid),
    ensures
        bytes.len() == 32 && text@ == hex_text(bytes) ==> valid,
        valid ==> text@ == hex_text(hex_bytes(text@)) && hex_bytes(text@).len() == 32,
{
    if valid {
        let read = hex_bytes(text@);
        let back = hex_text(read);
        assert forall|i: int| 0 <= i < 64 implies #[trigger] back[i] == text@[i] by {
            let k = i / 2;
            let high = hex_value(text@[2 * k])->0;
            let low = hex_value(text@[2 * k + 1])->0;
            assert('0' <= text@[2 * k] <= '9' || 'a' <= text@[2 * k] <= 'f');
            assert('0' <= text@[2 * k + 1] <= '9' || 'a' <= text@[2 * k + 1] <= 'f');
            assert(read[k] == high * 16 + low);
            assert(hex_digit(high) == text@[2 * k]);
            assert(hex_digit(low) == text@[2 * k + 1]);
            assert(read[k] as int / 16 == high && read[k] as int % 16 == low);
        }
        assert(back =~= text@);
    }
}

proof fn lemma_places_are_pending(
    inputs: Seq<InputIdentity>,
    applied: Seq<InputIdentity>,
    count: int,
    i: int,
)
    requires
        0 <= count <= inputs.len() <= usize::MAX,
    ensures
        ({
            let places = pending_places(inputs, applied, count);
            &&& 0 <= i < count && !names_input(applied, inputs[i].identity@) ==> places.contains(
                i as usize,
            )
            &&& forall|k: int|
                0 <= k < places.len() ==> (#[trigger] places[k]) < count && !names_input(
                    applied,
                    inputs[places[k] as int].identity@,
                )
            &&& forall|j: int, k: int|
                0 <= j < k < places.len() ==> (#[trigger] places[j]) < (#[trigger] places[k])
        }),
    decreases count,
{
    if count > 0 {
        lemma_places_are_pending(inputs, applied, count - 1, i);
        let earlier = pending_places(inputs, applied, count - 1);
        let places = pending_places(inputs, applied, count);
        if 0 <= i < count - 1 && !names_input(applied, inputs[i].identity@) {
            let k = choose|k: int| 0 <= k < earlier.len() && earlier[k] == i as usize;
            assert(places[k] == i as usize);
        }
        if i == count - 1 && !names_input(applied, inputs[i].identity@) {
            assert(places[earlier.len() as int] == i as usize);
        }
    }
}

/// The pending inputs are, in order, those whose names none of the applied ones
/// has.
pub proof fn lemma_pending_inputs_are_unnamed(
    inputs: &Vec<InputIdentity>,
    applied: &Vec<InputIdentity>,
    places: Vec<usize>,
    i: int,
)
    requires
        call_ensures(list_pending, (inputs, applied), places),
        0 <= i < inputs@.len(),
    ensures
        places@.contains(i as usize) <==> forall|j: int|
            0 <= j < applied@.len() ==> (#[trigger] applied@[j]).identity@
                != inputs@[i].identity@,
        forall|j: int, k: int|
            0 <= j < k < places@.len() ==> (#[trigger] places@[j]) < (#[trigger] places@[k]),
{
    assert(inputs.len() == inputs@.len());
    lemma_places_are_pending(inputs@, applied@, inputs@.len() as int, i);
}

/// Inputs hold others where each of those stands among them with its name, its
/// size, its rows and its digest.
pub proof fn lemma_held_inputs_agree(
    inputs: &Vec<InputIdentity>,
    wanted: &Vec<InputIdentity>,
    held: bool,
    i: int,
)
    requires
        call_ensures(inputs_hold_all, (inputs, wanted), held),
        held,
        0 <= i < wanted@.len(),
    ensures
        exists|j: int|
            {
                &&& 0 <= j < inputs@.len()
                &&& (#[trigger] inputs@[j]).identity@ == wanted@[i].identity@
                &&& inputs@[j].byte_size == wanted@[i].byte_size
                &&& inputs@[j].row_count == wanted@[i].row_count
                &&& inputs@[j].sha256@ == wanted@[i].sha256@
            },
{
    assert(holds_input(inputs@, wanted@[i]));
    let j = choose|j: int| #[trigger]
        is_last_input(inputs@, j, wanted@[i].identity@) && crate::artifact::same_input(
            inputs@[j],
            wanted@[i],
        );
    assert(inputs@[j].identity@ == wanted@[i].identity@);
}

proof fn lemma_fields_agree(checks: Seq<FieldCheck>, message: &'static str, i: int)
    requires
        0 <= i < checks.len(),
        fields_outcome(checks, message) is Ok,
    ensures
        checks[i] matches FieldCheck::Same(same) ==> same,
        checks[i] matches FieldCheck::Count { stored, owed, .. } ==> stored == owed,
    decreases checks.len(),
{
    if i > 0 {
        lemma_fields_agree(checks.skip(1), message, i - 1);
        assert(checks.skip(1)[i - 1] == checks[i]);
    }
}

proof fn lemma_agreeing_fields_pass(checks: Seq<FieldCheck>, message: &'static str)
    requires
        forall|i: int|
            0 <= i < checks.len() ==> match #[trigger] checks[i] {
                FieldCheck::Same(same) => same,
                FieldCheck::Count { stored, owed, .. } => stored == owed,
            },
    ensures
        fields_outcome(checks, message) is Ok,
    decreases checks.len(),
{
    if checks.len() > 0 {
        assert forall|i: int| 0 <= i < checks.skip(1).len() implies match #[trigger] checks.skip(
            1,
        )[i] {
            FieldCheck::Same(same) => same,
            FieldCheck::Count { stored, owed, .. } => stored == owed,
        } by {
            assert(checks.skip(1)[i] == checks[i + 1]);
        }
        assert(checks[0] == checks[0]);
        lemma_agreeing_fields_pass(checks.skip(1), message);
    }
}

/// Stored values pass where all of them are the values that are owed, and only
/// there.
pub proof fn lemma_stored_values_are_the_owed_ones(
    checks: &[FieldCheck],
    message: &'static str,
    outcome: Result<()>,
)
    requires
        call_ensures(reconcile_fields, (checks, message), outcome),
    ensures
        outcome is Ok <==> forall|i: int|
            0 <= i < checks@.len() ==> match #[trigger] checks@[i] {
                FieldCheck::Same(same) => same,
                FieldCheck::Count { stored, owed, .. } => stored == owed,
            },
{
    if outcome is Ok {
        assert forall|i: int| 0 <= i < checks@.len() implies match #[trigger] checks@[i] {
            FieldCheck::Same(same) => same,
            FieldCheck::Count { stored, owed, .. } => stored == owed,
        } by {
            lemma_fields_agree(checks@, message, i);
        }
    }
    if forall|i: int|
        0 <= i < checks@.len() ==> match #[trigger] checks@[i] {
            FieldCheck::Same(same) => same,
            FieldCheck::Count { stored, owed, .. } => stored == owed,
        } {
        lemma_agreeing_fields_pass(checks@, message);
    }
}

/// A stored ranking is read only with events and kinds in every row, and no
/// first event behind the last.
pub proof fn lemma_read_rankings_are_sound(
    bytes: &[u8],
    expected_rows: u64,
    outcome: Result<Vec<PublisherRankingRow>>,
    i: int,
)
    requires
        call_ensures(read_ranking_artifact, (bytes, expected_rows), outcome),
        outcome is Ok,
        0 <= i < outcome->Ok_0@.len(),
    ensures
        ({
            let row = outcome->Ok_0@[i];
            &&& outcome->Ok_0@.len() == expected_rows
            &&& row.event_count > 0
            &&& row.kinds_count > 0
            &&& row.first_event <= row.last_event
        }),
{
    assert(crate::publisher_artifact::metrics_valid(outcome->Ok_0@[i]));
}

/// The bytes of the sketches of leaves.
pub open spec fn sketch_sum(leaves: Seq<(u32, u16, Seq<u8>)>) -> nat
    decreases leaves.len(),
{
    if leaves.len() == 0 {
        0
    } else {
        leaves[0].2.len() + sketch_sum(leaves.skip(1))
    }
}

proof fn lemma_leaf_heads(leaves: Seq<(u32, u16, Seq<u8>)>)
    ensures
        leaf_records(leaves).len() == 10 * leaves.len() + sketch_sum(leaves),
    decreases leaves.len(),
{
    if leaves.len() > 0 {
        lemma_leaf_heads(leaves.skip(1));
        let leaf = leaves[0];
        crate::words::lemma_written_big_endian(leaf.0 as nat);
        crate::words::lemma_written_big_endian(leaf.1 as nat);
        crate::words::lemma_written_big_endian(leaf.2.len());
        assert(leaf_record(leaf).len() == 10 + leaf.2.len());
    }
}

/// The bytes that are reported for the sketches of a product are those of the
/// sketches in its leaves.
pub proof fn lemma_sketch_bytes_are_reported(
    evidence: &FlexibleDistinctEvidence,
    leaves: Seq<(u32, u16, Seq<u8>)>,
    outcome: Result<u64>,
)
    requires
        call_ensures(sketch_bytes, (evidence,), outcome),
        evidence.leaf_artifact.byte_size == leaf_records(leaves).len(),
        evidence.leaf_artifact.row_count == leaves.len(),
    ensures
        outcome is Ok,
        outcome->Ok_0 == sketch_sum(leaves),
{
    lemma_leaf_heads(leaves);
}

/// The leaves of a product are of whole hours up to its end.
pub proof fn lemma_leaves_end_in_time(
    bytes: Seq<u8>,
    leaves: Seq<(u32, u16, Seq<u8>)>,
    rows: int,
    complete_through: int,
    i: int,
)
    requires
        is_leaf_stream(bytes, leaves, rows, complete_through),
        0 <= i < leaves.len(),
    ensures
        leaves.len() == rows,
        leaves[i].0 * 3_600 + 3_600 <= complete_through,
{
}

} // verus!
