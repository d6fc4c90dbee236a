//! Exact, bounded-state semantic classification of events.
//!
//! Classification is separate from aggregation and publication, so a scan can
//! account for every event while retaining only fixed-size counters and
//! additive day keys.

use std::collections::BTreeMap;
use vstd::prelude::*;
use vstd::string::*;

use crate::bytes::read_32;
use crate::digest::{decode_hex, hex_bytes, is_hex_text};
use crate::text::{
    all_digits, chars_of, decimal_value, is_digit, parse_digits, strip_prefix, text_equal,
    without_prefix,
};

verus! {

/// Maximum accepted zap amount.
pub const MAX_ZAP_AMOUNT_MSATS: u64 = 1_000_000_000;

/// Inclusive whole-satoshi upper bounds used by the public histogram.
pub const ZAP_HISTOGRAM_UPPER_SATS: [u64; 16] = [
    10,
    21,
    50,
    100,
    250,
    500,
    750,
    1_000,
    2_500,
    5_000,
    7_500,
    10_000,
    25_000,
    50_000,
    75_000,
    100_000,
];

/// Classification of one event for the engagement product.
#[derive(Clone, Copy, Debug, PartialEq, Eq, Structural)]
pub enum EngagementFact {
    /// Kind-1 event with at least one tag whose first element is `e`.
    Reply,
    /// Kind-1 event without an `e` tag.
    OriginalNote,
    /// Kind-7 reaction event.
    Reaction,
    /// Event outside the engagement product.
    Other,
}

/// The tag's first element is `name`.
pub open spec fn is_named(tag: Vec<String>, name: Seq<char>) -> bool {
    tag@.len() > 0 && tag@[0]@ == name
}

/// Some tag's first element is `name`.
pub open spec fn has_tag(tags: Seq<Vec<String>>, name: Seq<char>) -> bool {
    exists|i: int| 0 <= i < tags.len() && is_named(#[trigger] tags[i], name)
}

/// The engagement class of an event.
pub open spec fn engagement_of(kind: u16, tags: Seq<Vec<String>>) -> EngagementFact {
    if kind == 1 {
        if has_tag(tags, "e"@) {
            EngagementFact::Reply
        } else {
            EngagementFact::OriginalNote
        }
    } else if kind == 7 {
        EngagementFact::Reaction
    } else {
        EngagementFact::Other
    }
}

/// The first tag whose first element is `name`.
fn find_tag(tags: &[Vec<String>], name: &str) -> (place: Option<usize>)
    ensures
        match place {
            Some(index) => {
                &&& index < tags@.len()
                &&& is_named(tags@[index as int], name@)
                &&& forall|i: int| 0 <= i < index ==> !is_named(#[trigger] tags@[i], name@)
            },
            None => !has_tag(tags@, name@),
        },
{
    let mut i: usize = 0;
    while i < tags.len()
        invariant
            i <= tags@.len(),
            forall|j: int| 0 <= j < i ==> !is_named(#[trigger] tags@[j], name@),
        decreases tags.len() - i,
    {
        let tag: &Vec<String> = &tags[i];
        if tag.len() > 0 && text_equal(tag[0].as_str(), name) {
            return Some(i);
        }
        i += 1;
    }
    None
}

/// Classify engagement exactly as the public endpoint does.
pub fn classify_engagement(kind: u16, tags: &[Vec<String>]) -> (fact: EngagementFact)
    ensures
        fact == engagement_of(kind, tags@),
{
    if kind == 1 {
        if find_tag(tags, "e").is_some() {
            EngagementFact::Reply
        } else {
            EngagementFact::OriginalNote
        }
    } else if kind == 7 {
        EngagementFact::Reaction
    } else {
        EngagementFact::Other
    }
}

/// Additive facts for one long-form event.
#[derive(Clone, Copy, Debug, PartialEq, Eq, Structural)]
pub struct LongformFact {
    /// Exact UTF-8 byte length.
    pub content_bytes: u64,
}

/// Number of UTF-8 bytes of a text.
pub open spec fn utf8_len(text: Seq<char>) -> nat {
    vstd::utf8::encode_utf8(text).len()
}

/// A long-form fact for kind 30023.
pub fn classify_longform(kind: u16, content: &str) -> (fact: Option<LongformFact>)
    ensures
        kind != 30_023 ==> fact is None,
        kind == 30_023 ==> fact is Some && fact->0.content_bytes == utf8_len(content@),
{
    if kind != 30_023 {
        return None;
    }
    let bytes: &[u8] = content.as_bytes();
    Some(LongformFact { content_bytes: bytes.len() as u64 })
}

/// Why a kind-9735 event did not produce a positive canonical zap fact.
#[derive(Clone, Copy, Debug, PartialEq, Eq, Structural)]
pub enum ZapRejection {
    /// No positional `bolt11` tag exists.
    MissingBolt11,
    /// The first positional `bolt11` tag has no value.
    MissingBolt11Value,
    /// The first invoice does not use the accepted lower-case mainnet shape.
    MalformedBolt11,
    /// Decimal parsing or multiplier conversion overflowed `u64`.
    AmountOverflow,
    /// Pico conversion truncated the amount to zero millisatoshis.
    ZeroAmount,
    /// The parsed amount exceeds the ceiling.
    AmountAboveLimit,
}

/// Place of a reason in the rejection counters.
pub open spec fn rejection_index(reason: ZapRejection) -> int {
    match reason {
        ZapRejection::MissingBolt11 => 0,
        ZapRejection::MissingBolt11Value => 1,
        ZapRejection::MalformedBolt11 => 2,
        ZapRejection::AmountOverflow => 3,
        ZapRejection::ZeroAmount => 4,
        ZapRejection::AmountAboveLimit => 5,
    }
}

impl ZapRejection {
    /// Place of the reason in the rejection counters.
    pub fn ordinal(self) -> (index: usize)
        ensures
            index == rejection_index(self),
            index < 6,
    {
        match self {
            ZapRejection::MissingBolt11 => 0,
            ZapRejection::MissingBolt11Value => 1,
            ZapRejection::MalformedBolt11 => 2,
            ZapRejection::AmountOverflow => 3,
            ZapRejection::ZeroAmount => 4,
            ZapRejection::AmountAboveLimit => 5,
        }
    }
}

/// One accepted, additive zap fact.
#[derive(Clone, Debug, PartialEq, Eq)]
pub struct ZapFact {
    /// Exact parsed amount in millisatoshis.
    pub amount_msats: u64,
    /// First positional lower-case `p` tag, if present.
    pub recipient: Option<String>,
    /// First positional upper-case `P` tag, if present.
    pub sender: Option<String>,
    /// Validated 32-byte recipient key, when the positional value is hexadecimal.
    pub recipient_pubkey: Option<[u8; 32]>,
    /// Validated 32-byte sender key, when the positional value is hexadecimal.
    pub sender_pubkey: Option<[u8; 32]>,
    /// Fixed public histogram bucket, 0 to 16.
    pub histogram_bucket: u8,
}

/// `index` is the first tag named `name`.
pub open spec fn first_tag(tags: Seq<Vec<String>>, name: Seq<char>, index: int) -> bool {
    &&& 0 <= index < tags.len()
    &&& is_named(tags[index], name)
    &&& forall|i: int| 0 <= i < index ==> !is_named(#[trigger] tags[i], name)
}

/// The second element of the first tag named `name`.
pub open spec fn tag_value(tags: Seq<Vec<String>>, name: Seq<char>) -> Option<Seq<char>> {
    let index = choose|i: int| first_tag(tags, name, i);
    if has_tag(tags, name) && tags[index]@.len() > 1 {
        Some(tags[index]@[1]@)
    } else {
        None
    }
}

/// The first tag named `name` is unique.
proof fn lemma_first_tag(tags: Seq<Vec<String>>, name: Seq<char>, index: int)
    requires
        first_tag(tags, name, index),
    ensures
        has_tag(tags, name),
        index == choose|i: int| first_tag(tags, name, i),
{
    let other = choose|i: int| first_tag(tags, name, i);
    assert(first_tag(tags, name, other));
    if other < index {
        assert(!is_named(tags[other], name));
    }
    if index < other {
        assert(!is_named(tags[index], name));
    }
}

/// The second element of the first tag named `name`: absent where there is no
/// such tag, and absent inside where the tag has no second element.
pub fn first_tag_value<'a>(tags: &'a [Vec<String>], name: &str) -> (value: Option<Option<&'a str>>)
    ensures
        match value {
            None => !has_tag(tags@, name@),
            Some(None) => has_tag(tags@, name@) && tag_value(tags@, name@) is None,
            Some(Some(text)) => has_tag(tags@, name@) && tag_value(tags@, name@) == Some(text@),
        },
{
    match find_tag(tags, name) {
        None => None,
        Some(index) => {
            proof {
                assert(first_tag(tags@, name@, index as int));
                lemma_first_tag(tags@, name@, index as int);
            }
            let tag: &'a Vec<String> = &tags[index];
            if tag.len() > 1 {
                Some(Some(tag[1].as_str()))
            } else {
                Some(None)
            }
        },
    }
}

/// Number of leading decimal digits.
pub open spec fn leading_digits(text: Seq<char>) -> nat
    decreases text.len(),
{
    if text.len() == 0 || !is_digit(text[0]) {
        0
    } else {
        1 + leading_digits(text.skip(1))
    }
}

/// The digits end where the first other character stands.
proof fn lemma_leading_digits(text: Seq<char>, count: int)
    requires
        0 <= count <= text.len(),
        forall|i: int| 0 <= i < count ==> is_digit(#[trigger] text[i]),
        count < text.len() ==> !is_digit(text[count]),
    ensures
        leading_digits(text) == count,
    decreases count,
{
    if count > 0 {
        let rest = text.skip(1);
        assert(is_digit(text[0]));
        assert forall|i: int| 0 <= i < count - 1 implies is_digit(#[trigger] rest[i]) by {
            assert(rest[i] == text[i + 1]);
        }
        if count < text.len() {
            assert(rest[count - 1] == text[count]);
        }
        lemma_leading_digits(rest, count - 1);
    }
}

/// An amount with its multiplier in millisatoshis, where the letter is one.
pub open spec fn scaled_amount(amount: nat, multiplier: char) -> Option<nat> {
    if multiplier == 'm' {
        Some(amount * 100_000_000)
    } else if multiplier == 'u' {
        Some(amount * 100_000)
    } else if multiplier == 'n' {
        Some(amount * 100)
    } else if multiplier == 'p' {
        Some(amount / 10)
    } else {
        None
    }
}

/// The amount of a lower-case mainnet invoice: `lnbc`, decimal digits, one
/// multiplier letter and `1`.
pub open spec fn invoice_amount(invoice: Seq<char>) -> core::result::Result<u64, ZapRejection> {
    match without_prefix(invoice, "lnbc"@) {
        None => Err(ZapRejection::MalformedBolt11),
        Some(suffix) => {
            let count = leading_digits(suffix) as int;
            let amount = decimal_value(suffix.take(count));
            if count == 0 {
                Err(ZapRejection::MalformedBolt11)
            } else if amount > u64::MAX {
                Err(ZapRejection::AmountOverflow)
            } else if suffix.len() < count + 2 || suffix[count + 1] != '1' {
                Err(ZapRejection::MalformedBolt11)
            } else {
                match scaled_amount(amount, suffix[count]) {
                    None => Err(ZapRejection::MalformedBolt11),
                    Some(msats) => {
                        if msats > u64::MAX {
                            Err(ZapRejection::AmountOverflow)
                        } else if msats == 0 {
                            Err(ZapRejection::ZeroAmount)
                        } else if msats > MAX_ZAP_AMOUNT_MSATS {
                            Err(ZapRejection::AmountAboveLimit)
                        } else {
                            Ok(msats as u64)
                        }
                    },
                }
            }
        },
    }
}

/// Read the amount of a lower-case mainnet invoice.
pub fn parse_bolt11_msats(invoice: &str) -> (amount: core::result::Result<u64, ZapRejection>)
    ensures
        amount == invoice_amount(invoice@),
{
    let suffix: &str = match strip_prefix(invoice, "lnbc") {
        Some(suffix) => suffix,
        None => {
            return Err(ZapRejection::MalformedBolt11);
        },
    };
    let chars: Vec<char> = chars_of(suffix);
    let total: usize = chars.len();
    let mut count: usize = 0;
    while count < total && '0' <= chars[count] && chars[count] <= '9'
        invariant
            count <= total,
            total == chars@.len(),
            forall|i: int| 0 <= i < count ==> is_digit(#[trigger] chars@[i]),
        decreases total - count,
    {
        count += 1;
    }
    proof {
        lemma_leading_digits(chars@, count as int);
    }
    if count == 0 {
        return Err(ZapRejection::MalformedBolt11);
    }
    let parsed: Option<u64> = parse_digits(&chars, 0, count);
    proof {
        assert(chars@.subrange(0, count as int) =~= chars@.take(count as int));
        assert forall|i: int| 0 <= i < count implies is_digit(
            #[trigger] chars@.take(count as int)[i],
        ) by {
            assert(is_digit(chars@[i]));
        }
        assert(all_digits(chars@.take(count as int)));
    }
    let amount: u64 = match parsed {
        Some(amount) => amount,
        None => {
            return Err(ZapRejection::AmountOverflow);
        },
    };
    if total - count < 2 || chars[count + 1] != '1' {
        return Err(ZapRejection::MalformedBolt11);
    }
    let multiplier: char = chars[count];
    let scaled: Option<u64> = if multiplier == 'm' {
        amount.checked_mul(100_000_000)
    } else if multiplier == 'u' {
        amount.checked_mul(100_000)
    } else if multiplier == 'n' {
        amount.checked_mul(100)
    } else if multiplier == 'p' {
        Some(amount / 10)
    } else {
        return Err(ZapRejection::MalformedBolt11);
    };
    match scaled {
        None => Err(ZapRejection::AmountOverflow),
        Some(msats) => {
            if msats == 0 {
                Err(ZapRejection::ZeroAmount)
            } else if msats > MAX_ZAP_AMOUNT_MSATS {
                Err(ZapRejection::AmountAboveLimit)
            } else {
                Ok(msats)
            }
        },
    }
}

/// A text of 64 hexadecimal digits.
pub open spec fn is_pubkey_text(text: Seq<char>) -> bool {
    text.len() == 64 && is_hex_text(text)
}

/// The key that a text of 64 hexadecimal digits stands for.
pub fn parse_pubkey(value: &str) -> (key: Option<[u8; 32]>)
    ensures
        key is Some <==> is_pubkey_text(value@),
        key is Some ==> key->0@ == hex_bytes(value@),
{
    match decode_hex(value) {
        None => None,
        Some(bytes) => {
            if bytes.len() != 32 {
                return None;
            }
            let key: [u8; 32] = read_32(bytes.as_slice(), 0);
            assert(key@ =~= hex_bytes(value@));
            Some(key)
        },
    }
}

/// The bucket of a whole number of satoshis: the number of upper bounds below it.
pub open spec fn bucket_of(sats: int) -> int {
    if sats <= 10 {
        0
    } else if sats <= 21 {
        1
    } else if sats <= 50 {
        2
    } else if sats <= 100 {
        3
    } else if sats <= 250 {
        4
    } else if sats <= 500 {
        5
    } else if sats <= 750 {
        6
    } else if sats <= 1_000 {
        7
    } else if sats <= 2_500 {
        8
    } else if sats <= 5_000 {
        9
    } else if sats <= 7_500 {
        10
    } else if sats <= 10_000 {
        11
    } else if sats <= 25_000 {
        12
    } else if sats <= 50_000 {
        13
    } else if sats <= 75_000 {
        14
    } else if sats <= 100_000 {
        15
    } else {
        16
    }
}

/// The fixed public histogram bucket of a millisatoshi amount, by its whole
/// satoshis.
pub fn zap_histogram_bucket(amount_msats: u64) -> (bucket: u8)
    ensures
        bucket == bucket_of(amount_msats as int / 1_000),
        bucket <= 16,
{
    let sats: u64 = amount_msats / 1_000;
    let bounds: [u64; 16] = ZAP_HISTOGRAM_UPPER_SATS;
    let mut bucket: usize = 0;
    while bucket < 16 && sats > bounds[bucket]
        invariant
            bucket <= 16,
            bounds@ == ZAP_HISTOGRAM_UPPER_SATS@,
            forall|i: int| 0 <= i < bucket ==> sats > ZAP_HISTOGRAM_UPPER_SATS@[i],
        decreases 16 - bucket,
    {
        bucket += 1;
    }
    bucket as u8
}

/// The zap fact holds what the first positional tags say.
pub open spec fn describes_zap(fact: ZapFact, tags: Seq<Vec<String>>, amount: u64) -> bool {
    &&& fact.amount_msats == amount
    &&& crate::text::optional_text(fact.recipient) == tag_value(tags, "p"@)
    &&& crate::text::optional_text(fact.sender) == tag_value(tags, "P"@)
    &&& keeps_key(fact.recipient_pubkey, tag_value(tags, "p"@))
    &&& keeps_key(fact.sender_pubkey, tag_value(tags, "P"@))
    &&& fact.histogram_bucket == bucket_of(amount as int / 1_000)
}

/// The key is the one that the text writes, absent where it writes none.
pub open spec fn keeps_key(key: Option<[u8; 32]>, text: Option<Seq<char>>) -> bool {
    &&& key is Some <==> text is Some && is_pubkey_text(text->0)
    &&& key is Some ==> key->0@ == hex_bytes(text->0)
}

/// Classify one event into the canonical parsed-zap domain.
///
/// The first positional `bolt11`, `p`, and `P` tags own their respective
/// values: later tags do not repair an invalid first value. Valid keys are
/// recorded separately, so that missing or malformed identities can be
/// quantified without inventing a participant.
pub fn classify_zap(kind: u16, tags: &[Vec<String>]) -> (class: Option<
    core::result::Result<ZapFact, ZapRejection>,
>)
    ensures
        kind != 9_735 ==> class is None,
        kind == 9_735 ==> class is Some && match class->0 {
            Ok(fact) => {
                &&& tag_value(tags@, "bolt11"@) is Some
                &&& invoice_amount(tag_value(tags@, "bolt11"@)->0) == Ok::<u64, ZapRejection>(
                    fact.amount_msats,
                )
                &&& describes_zap(fact, tags@, fact.amount_msats)
            },
            Err(reason) => zap_refusal(tags@) == Some(reason),
        },
        kind == 9_735 ==> (class->0 is Err <==> zap_refusal(tags@) is Some),
{
    if kind != 9_735 {
        return None;
    }
    let invoice: &str = match first_tag_value(tags, "bolt11") {
        None => {
            return Some(Err(ZapRejection::MissingBolt11));
        },
        Some(None) => {
            return Some(Err(ZapRejection::MissingBolt11Value));
        },
        Some(Some(value)) => value,
    };
    let amount_msats: u64 = match parse_bolt11_msats(invoice) {
        Ok(amount) => amount,
        Err(reason) => {
            return Some(Err(reason));
        },
    };
    let (recipient, recipient_pubkey): (Option<String>, Option<[u8; 32]>) = tagged_key(tags, "p");
    let (sender, sender_pubkey): (Option<String>, Option<[u8; 32]>) = tagged_key(tags, "P");
    Some(
        Ok(
            ZapFact {
                amount_msats,
                recipient,
                sender,
                recipient_pubkey,
                sender_pubkey,
                histogram_bucket: zap_histogram_bucket(amount_msats),
            },
        ),
    )
}

/// Why the tags of a zap are refused, if they are.
pub open spec fn zap_refusal(tags: Seq<Vec<String>>) -> Option<ZapRejection> {
    if !has_tag(tags, "bolt11"@) {
        Some(ZapRejection::MissingBolt11)
    } else if tag_value(tags, "bolt11"@) is None {
        Some(ZapRejection::MissingBolt11Value)
    } else {
        match invoice_amount(tag_value(tags, "bolt11"@)->0) {
            Ok(_) => None,
            Err(reason) => Some(reason),
        }
    }
}

/// The value of the first tag named `name`, and the key that it writes.
fn tagged_key(tags: &[Vec<String>], name: &str) -> (found: (Option<String>, Option<[u8; 32]>))
    ensures
        crate::text::optional_text(found.0) == tag_value(tags@, name@),
        keeps_key(found.1, tag_value(tags@, name@)),
{
    match first_tag_value(tags, name) {
        Some(Some(text)) => (Some(text.to_owned()), parse_pubkey(text)),
        _ => (None, None),
    }
}

} // verus!
