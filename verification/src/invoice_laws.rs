//! What a zap says: its amount, its bucket and its participants.

use vstd::prelude::*;

use crate::digest::{hex_bytes, hex_value};
use crate::semantic_facts::{
    bucket_of, classify_engagement, classify_longform, classify_zap, first_tag, has_tag,
    invoice_amount, is_named, is_pubkey_text, leading_digits, parse_bolt11_msats, rejection_index,
    scaled_amount, tag_value, zap_histogram_bucket, zap_refusal, EngagementFact, LongformFact,
    ZapFact, ZapRejection,
};
use crate::text::{decimal_value, is_digit, without_prefix};

verus! {

/// Picobitcoins in one unit of an invoice.
pub open spec fn pico_per_unit(unit: char) -> int {
    if unit == 'm' {
        1_000_000_000
    } else if unit == 'u' {
        1_000_000
    } else if unit == 'n' {
        1_000
    } else {
        1
    }
}

/// The letter is a unit of an invoice.
pub open spec fn is_unit(unit: char) -> bool {
    unit == 'm' || unit == 'u' || unit == 'n' || unit == 'p'
}

/// The text is decimal digits, and at least one.
pub open spec fn is_number(digits: Seq<char>) -> bool {
    digits.len() > 0 && forall|i: int|
        0 <= i < digits.len() ==> '0' <= #[trigger] digits[i] <= '9'
}

/// The invoice `lnbc`, digits, a unit, `1`, and anything.
pub open spec fn invoice_of(digits: Seq<char>, unit: char, rest: Seq<char>) -> Seq<char> {
    seq!['l', 'n', 'b', 'c'] + digits + seq![unit, '1'] + rest
}

/// `msats` is the whole number of millisatoshis in so many picobitcoins; a
/// millisatoshi is ten picobitcoins.
pub open spec fn holds_msats(pico: int, msats: int) -> bool {
    10 * msats <= pico < 10 * msats + 10
}

/// The invoice starts with `lnbc`, and the digits end with the unit.
proof fn lemma_invoice_parts(digits: Seq<char>, unit: char, rest: Seq<char>)
    requires
        is_number(digits),
        !is_digit(unit),
    ensures
        ({
            let suffix = digits + seq![unit, '1'] + rest;
            &&& without_prefix(invoice_of(digits, unit, rest), "lnbc"@) == Some(suffix)
            &&& leading_digits(suffix) == digits.len()
            &&& suffix.take(digits.len() as int) == digits
            &&& suffix[digits.len() as int] == unit
            &&& suffix[digits.len() as int + 1] == '1'
            &&& suffix.len() >= digits.len() + 2
        }),
{
    reveal_strlit("lnbc");
    let invoice = invoice_of(digits, unit, rest);
    let suffix = digits + seq![unit, '1'] + rest;
    assert("lnbc"@ =~= seq!['l', 'n', 'b', 'c']);
    assert(invoice.take(4) =~= "lnbc"@);
    assert(invoice.skip(4) =~= suffix);
    lemma_leading(digits, seq![unit, '1'] + rest);
    assert(digits + (seq![unit, '1'] + rest) =~= suffix);
    assert(suffix.take(digits.len() as int) =~= digits);
}

/// Leading digits end where something else begins.
proof fn lemma_leading(digits: Seq<char>, rest: Seq<char>)
    requires
        forall|i: int| 0 <= i < digits.len() ==> '0' <= #[trigger] digits[i] <= '9',
        rest.len() > 0 ==> !is_digit(rest[0]),
    ensures
        leading_digits(digits + rest) == digits.len(),
    decreases digits.len(),
{
    if digits.len() == 0 {
        assert(digits + rest =~= rest);
    } else {
        let fewer = digits.skip(1);
        assert forall|i: int| 0 <= i < fewer.len() implies '0' <= #[trigger] fewer[i] <= '9' by {
            assert(fewer[i] == digits[i + 1]);
        }
        lemma_leading(fewer, rest);
        assert((digits + rest).skip(1) =~= fewer + rest);
        assert((digits + rest)[0] == digits[0]);
    }
}

/// An invoice is read as the whole millisatoshis in its number of units: a
/// milli, micro, nano or pico bitcoin each. Nothing is refused but amounts of
/// no millisatoshi, of more than a billion, and those beyond the counters.
pub proof fn lemma_invoice_is_worth_its_units(
    invoice: &str,
    read: core::result::Result<u64, ZapRejection>,
    digits: Seq<char>,
    unit: char,
    rest: Seq<char>,
    msats: int,
)
    requires
        call_ensures(parse_bolt11_msats, (invoice,), read),
        invoice@ == invoice_of(digits, unit, rest),
        is_number(digits),
        is_unit(unit),
        holds_msats(decimal_value(digits) * pico_per_unit(unit), msats),
    ensures
        decimal_value(digits) > u64::MAX || msats > u64::MAX ==> read
            == Err::<u64, ZapRejection>(ZapRejection::AmountOverflow),
        decimal_value(digits) <= u64::MAX && msats <= u64::MAX ==> {
            &&& msats == 0 ==> read == Err::<u64, ZapRejection>(ZapRejection::ZeroAmount)
            &&& 0 < msats <= 1_000_000_000 ==> read == Ok::<u64, ZapRejection>(msats as u64)
            &&& 1_000_000_000 < msats ==> read == Err::<u64, ZapRejection>(
                ZapRejection::AmountAboveLimit,
            )
        },
{
    lemma_invoice_parts(digits, unit, rest);
    let amount = decimal_value(digits);
    assert(read == invoice_amount(invoice@));
    assert(scaled_amount(amount, unit) == Some(msats as nat));
}

/// Only such invoices are read: an amount comes from `lnbc`, digits, a unit and
/// `1`, and is between one and a billion millisatoshis.
pub proof fn lemma_read_invoice_has_units(
    invoice: &str,
    read: core::result::Result<u64, ZapRejection>,
) -> (parts: (Seq<char>, char, Seq<char>))
    requires
        call_ensures(parse_bolt11_msats, (invoice,), read),
        read is Ok,
    ensures
        is_number(parts.0),
        is_unit(parts.1),
        invoice@ == invoice_of(parts.0, parts.1, parts.2),
        holds_msats(decimal_value(parts.0) * pico_per_unit(parts.1), read->Ok_0 as int),
        0 < read->Ok_0 <= 1_000_000_000,
{
    reveal_strlit("lnbc");
    assert("lnbc"@ =~= seq!['l', 'n', 'b', 'c']);
    let suffix = without_prefix(invoice@, "lnbc"@)->0;
    let count = leading_digits(suffix) as int;
    lemma_digits_lead(suffix);
    let digits = suffix.take(count);
    let unit = suffix[count];
    let rest = suffix.skip(count + 2);
    assert forall|i: int| 0 <= i < digits.len() implies '0' <= #[trigger] digits[i] <= '9' by {
        assert(digits[i] == suffix[i]);
    }
    assert(invoice@ =~= invoice@.take(4) + suffix);
    assert(suffix =~= digits + seq![unit, '1'] + rest);
    assert(invoice@ =~= invoice_of(digits, unit, rest));
    (digits, unit, rest)
}

/// Leading digits are digits.
proof fn lemma_digits_lead(text: Seq<char>)
    ensures
        leading_digits(text) <= text.len(),
        forall|i: int| 0 <= i < leading_digits(text) ==> '0' <= #[trigger] text[i] <= '9',
    decreases text.len(),
{
    if text.len() > 0 && is_digit(text[0]) {
        let rest = text.skip(1);
        lemma_digits_lead(rest);
        assert forall|i: int| 0 <= i < leading_digits(text) implies '0' <= #[trigger] text[i]
            <= '9' by {
            if i > 0 {
                assert(rest[i - 1] == text[i]);
            }
        }
    }
}

/// The units agree: a thousand of one are one of the next, and ten of the
/// smallest are a millisatoshi. Amounts of the larger three are proportional.
pub proof fn lemma_units_agree(a: nat)
    ensures
        scaled_amount(1_000 * a, 'p') == scaled_amount(a, 'n'),
        scaled_amount(1_000 * a, 'n') == scaled_amount(a, 'u'),
        scaled_amount(1_000 * a, 'u') == scaled_amount(a, 'm'),
        scaled_amount(10 * a, 'p') == Some(a),
        forall|unit: char|
            unit == 'm' || unit == 'u' || unit == 'n' ==> #[trigger] scaled_amount(a, unit) is Some
                && scaled_amount(1, unit) is Some && scaled_amount(a, unit)->0 == a
                * scaled_amount(1, unit)->0,
        forall|unit: char| #[trigger]
            scaled_amount(a, unit) is Some <==> unit == 'm' || unit == 'u' || unit == 'n' || unit
                == 'p',
{
}

/// Upper bounds of the buckets in satoshis; the last bucket has none.
pub open spec fn bucket_bounds() -> Seq<int> {
    seq![
        10,
        21,
        50,
        100,
        250,
        500,
        750,
        1_000,
        2_500,
        5_000,
        7_500,
        10_000,
        25_000,
        50_000,
        75_000,
        100_000,
    ]
}

/// The bucket of an amount is the first whose bound its whole satoshis do not
/// exceed, and the last where they exceed all.
pub proof fn lemma_bucket_bounds_amount(amount_msats: u64, bucket: u8)
    requires
        call_ensures(zap_histogram_bucket, (amount_msats,), bucket),
    ensures
        bucket <= 16,
        bucket < 16 ==> amount_msats < 1_000 * (bucket_bounds()[bucket as int] + 1),
        bucket > 0 ==> amount_msats >= 1_000 * (bucket_bounds()[bucket - 1] + 1),
{
}

/// A larger amount is in no smaller bucket.
pub proof fn lemma_buckets_grow(a: int, b: int)
    requires
        a <= b,
    ensures
        0 <= bucket_of(a) <= bucket_of(b) <= 16,
        bucket_of(b) < 16 ==> b <= bucket_bounds()[bucket_of(b)],
        bucket_of(b) > 0 ==> b > bucket_bounds()[bucket_of(b) - 1],
{
}

/// The tag at `i` is the first with the name in its first position.
pub open spec fn first_named(tags: Seq<Vec<String>>, name: Seq<char>, i: int) -> bool {
    &&& 0 <= i < tags.len()
    &&& tags[i]@.len() > 0 && tags[i]@[0]@ == name
    &&& forall|j: int|
        0 <= j < i ==> (#[trigger] tags[j])@.len() == 0 || tags[j]@[0]@ != name
}

/// No tag has the name in its first position.
pub open spec fn none_named(tags: Seq<Vec<String>>, name: Seq<char>) -> bool {
    forall|j: int|
        0 <= j < tags.len() ==> (#[trigger] tags[j])@.len() == 0 || tags[j]@[0]@ != name
}

/// The value of a name is the second position of the first tag with the name.
pub proof fn lemma_first_tag_has_the_value(tags: Seq<Vec<String>>, name: Seq<char>, i: int)
    ensures
        first_named(tags, name, i) ==> has_tag(tags, name) && tag_value(tags, name) == if tags[i]@.len()
            > 1 {
            Some(tags[i]@[1]@)
        } else {
            None
        },
        none_named(tags, name) ==> !has_tag(tags, name) && tag_value(tags, name) is None,
        !has_tag(tags, name) ==> none_named(tags, name),
{
    if first_named(tags, name, i) {
        assert(is_named(tags[i], name));
        assert(first_tag(tags, name, i));
        let other = choose|k: int| first_tag(tags, name, k);
        assert(first_tag(tags, name, other));
        if other < i {
            assert(is_named(tags[other], name));
        }
        if i < other {
            assert(!is_named(tags[i], name));
        }
    }
    if none_named(tags, name) {
        assert forall|j: int| 0 <= j < tags.len() implies !is_named(#[trigger] tags[j], name) by {}
    }
    if !has_tag(tags, name) {
        assert forall|j: int| 0 <= j < tags.len() implies (#[trigger] tags[j])@.len() == 0
            || tags[j]@[0]@ != name by {
            assert(!is_named(tags[j], name));
        }
    }
}

/// Events of kind 9735 and no others are zaps. The first `bolt11` tag decides:
/// without one or without its value the zap is refused, and else as its invoice
/// is.
pub proof fn lemma_first_invoice_decides(
    kind: u16,
    tags: &[Vec<String>],
    class: Option<core::result::Result<ZapFact, ZapRejection>>,
    i: int,
    invoice: &str,
    read: core::result::Result<u64, ZapRejection>,
)
    requires
        call_ensures(classify_zap, (kind, tags), class),
        call_ensures(parse_bolt11_msats, (invoice,), read),
    ensures
        class is Some <==> kind == 9_735,
        kind == 9_735 && none_named(tags@, "bolt11"@) ==> class->0
            == Err::<ZapFact, ZapRejection>(ZapRejection::MissingBolt11),
        kind == 9_735 && first_named(tags@, "bolt11"@, i) && tags@[i]@.len() == 1 ==> class->0
            == Err::<ZapFact, ZapRejection>(ZapRejection::MissingBolt11Value),
        kind == 9_735 && first_named(tags@, "bolt11"@, i) && tags@[i]@.len() > 1 && tags@[i]@[1]@
            == invoice@ ==> match read {
            Ok(msats) => class->0 is Ok && (class->0)->Ok_0.amount_msats == msats,
            Err(reason) => class->0 == Err::<ZapFact, ZapRejection>(reason),
        },
{
    lemma_first_tag_has_the_value(tags@, "bolt11"@, i);
    if kind == 9_735 {
        if class->0 is Err {
            assert(zap_refusal(tags@) == Some((class->0)->Err_0));
        } else {
            assert(zap_refusal(tags@) is None);
        }
    }
}

/// An accepted zap names the first `p` tag as its recipient and the first `P`
/// tag as its sender; their keys are known where they are 64 hexadecimal digits;
/// and its bucket is that of its amount.
pub proof fn lemma_zap_names_its_participants(
    kind: u16,
    tags: &[Vec<String>],
    class: Option<core::result::Result<ZapFact, ZapRejection>>,
    i: int,
)
    requires
        call_ensures(classify_zap, (kind, tags), class),
        class is Some,
        class->0 is Ok,
    ensures
        ({
            let fact = (class->0)->Ok_0;
            &&& 0 < fact.amount_msats <= 1_000_000_000
            &&& none_named(tags@, "p"@) ==> fact.recipient is None && fact.recipient_pubkey is None
            &&& none_named(tags@, "P"@) ==> fact.sender is None && fact.sender_pubkey is None
            &&& first_named(tags@, "p"@, i) && tags@[i]@.len() > 1 ==> names(
                fact.recipient,
                fact.recipient_pubkey,
                tags@[i]@[1]@,
            )
            &&& first_named(tags@, "P"@, i) && tags@[i]@.len() > 1 ==> names(
                fact.sender,
                fact.sender_pubkey,
                tags@[i]@[1]@,
            )
            &&& fact.histogram_bucket <= 16
            &&& fact.histogram_bucket < 16 ==> fact.amount_msats < 1_000 * (
            bucket_bounds()[fact.histogram_bucket as int] + 1)
            &&& fact.histogram_bucket > 0 ==> fact.amount_msats >= 1_000 * (
            bucket_bounds()[fact.histogram_bucket - 1] + 1)
        }),
{
    let fact = (class->0)->Ok_0;
    lemma_first_tag_has_the_value(tags@, "p"@, i);
    lemma_first_tag_has_the_value(tags@, "P"@, i);
    if first_named(tags@, "p"@, i) && tags@[i]@.len() > 1 {
        lemma_pubkey_text(tags@[i]@[1]@);
    }
    if first_named(tags@, "P"@, i) && tags@[i]@.len() > 1 {
        lemma_pubkey_text(tags@[i]@[1]@);
    }
    lemma_buckets_grow(0, fact.amount_msats as int / 1_000);
}

/// Value of a hexadecimal digit of either case.
pub open spec fn nibble_value(c: char) -> int {
    if '0' <= c <= '9' {
        c as int - 48
    } else if 'a' <= c <= 'f' {
        c as int - 87
    } else {
        c as int - 55
    }
}

/// The text is 64 hexadecimal digits of either case.
pub open spec fn is_key_text(text: Seq<char>) -> bool {
    &&& text.len() == 64
    &&& forall|i: int|
        0 <= i < 64 ==> '0' <= #[trigger] text[i] <= '9' || 'a' <= text[i] <= 'f' || 'A' <= text[i]
            <= 'F'
}

/// The name is the text, and the key is what it writes, if it writes one.
pub open spec fn names(name: Option<String>, key: Option<[u8; 32]>, text: Seq<char>) -> bool {
    &&& name is Some && name->0@ == text
    &&& key is Some <==> is_key_text(text)
    &&& key is Some ==> forall|i: int|
        0 <= i < 32 ==> #[trigger] key->0@[i] == 16 * nibble_value(text[2 * i]) + nibble_value(
            text[2 * i + 1],
        )
}

proof fn lemma_pubkey_text(text: Seq<char>)
    ensures
        is_pubkey_text(text) <==> is_key_text(text),
        is_pubkey_text(text) ==> hex_bytes(text).len() == 32 && forall|i: int|
            0 <= i < 32 ==> #[trigger] hex_bytes(text)[i] == 16 * nibble_value(text[2 * i])
                + nibble_value(text[2 * i + 1]),
{
    if is_pubkey_text(text) {
        assert forall|i: int| 0 <= i < 64 implies '0' <= #[trigger] text[i] <= '9' || 'a'
            <= text[i] <= 'f' || 'A' <= text[i] <= 'F' by {
            assert(hex_value(text[i]) is Some);
        }
        assert forall|i: int| 0 <= i < 32 implies #[trigger] hex_bytes(text)[i] == 16
            * nibble_value(text[2 * i]) + nibble_value(text[2 * i + 1]) by {
            assert(hex_value(text[2 * i]) is Some);
            assert(hex_value(text[2 * i + 1]) is Some);
        }
    }
    if is_key_text(text) {
        assert forall|i: int| 0 <= i < text.len() implies hex_value(#[trigger] text[i]) is Some by {
            assert('0' <= text[i] <= '9' || 'a' <= text[i] <= 'f' || 'A' <= text[i] <= 'F');
        }
    }
}

/// Notes of kind 1 are replies exactly where some tag is named `e`, kind 7 is a
/// reaction, and no other kind engages.
pub proof fn lemma_replies_have_event_tags(
    kind: u16,
    tags: &[Vec<String>],
    fact: EngagementFact,
)
    requires
        call_ensures(classify_engagement, (kind, tags), fact),
    ensures
        fact is Reply <==> kind == 1 && exists|i: int|
            0 <= i < tags@.len() && (#[trigger] tags@[i])@.len() > 0 && tags@[i]@[0]@ == "e"@,
        fact is OriginalNote <==> kind == 1 && none_named(tags@, "e"@),
        fact is Reaction <==> kind == 7,
        fact is Other <==> kind != 1 && kind != 7,
{
    lemma_first_tag_has_the_value(tags@, "e"@, 0);
    if has_tag(tags@, "e"@) {
        let i = choose|i: int| 0 <= i < tags@.len() && is_named(#[trigger] tags@[i], "e"@);
        assert(tags@[i]@.len() > 0 && tags@[i]@[0]@ == "e"@);
    }
}

/// Articles are the events of kind 30023, and count their UTF-8 bytes.
pub proof fn lemma_articles(kind: u16, content: &str, fact: Option<LongformFact>)
    requires
        call_ensures(classify_longform, (kind, content), fact),
    ensures
        fact is Some <==> kind == 30_023,
        fact is Some ==> fact->0.content_bytes == vstd::utf8::encode_utf8(content@).len(),
{
}

/// Refusals are counted by reason, in this order.
pub proof fn lemma_refusals_are_told_apart(a: ZapRejection, b: ZapRejection)
    ensures
        rejection_index(a) == rejection_index(b) <==> a == b,
        0 <= rejection_index(a) < 6,
        rejection_index(ZapRejection::MissingBolt11) < rejection_index(
            ZapRejection::MissingBolt11Value,
        ) < rejection_index(ZapRejection::MalformedBolt11) < rejection_index(
            ZapRejection::AmountOverflow,
        ) < rejection_index(ZapRejection::ZeroAmount) < rejection_index(
            ZapRejection::AmountAboveLimit,
        ),
{
}

} // verus!
