//! SHA-256 digests and their hexadecimal text.

use sha2::Digest;
use vstd::prelude::*;

use crate::text::chars_of;

verus! {

/// The SHA-256 digest of a byte string.
pub uninterp spec fn sha256(message: Seq<u8>) -> Seq<u8>;

/// `sha2::Sha256::digest`: the 32-byte SHA-256 digest of `message`.
///
/// Taken without proof: the digest depends on the message alone, and `sha256`
/// names it.
#[verifier::external_body]
pub(crate) fn sha256_digest(message: &[u8]) -> (digest: [u8; 32])
    ensures
        digest@ == sha256(message@),
{
    sha2::Sha256::digest(message).into()
}

/// The lower-case hexadecimal digit of a number below sixteen.
pub open spec fn hex_digit(n: int) -> char {
    seq!['0', '1', '2', '3', '4', '5', '6', '7', '8', '9', 'a', 'b', 'c', 'd', 'e', 'f'][n]
}

/// Two lower-case hexadecimal digits for each byte, high half first.
pub open spec fn hex_text(bytes: Seq<u8>) -> Seq<char> {
    Seq::new(
        2 * bytes.len(),
        |i: int|
            if i % 2 == 0 {
                hex_digit(bytes[i / 2] as int / 16)
            } else {
                hex_digit(bytes[i / 2] as int % 16)
            },
    )
}

/// `hex::encode`: the lower-case hexadecimal text of `bytes`.
///
/// Taken without proof: each byte becomes its two digits, high half first.
#[verifier::external_body]
pub(crate) fn encode_hex(bytes: &[u8]) -> (text: String)
    ensures
        text@ == hex_text(bytes@),
{
    hex::encode(bytes)
}

/// The value of a hexadecimal digit of either case.
pub open spec fn hex_value(c: char) -> Option<int> {
    if '0' <= c <= '9' {
        Some(c as int - '0' as int)
    } else if 'a' <= c <= 'f' {
        Some(c as int - 'a' as int + 10)
    } else if 'A' <= c <= 'F' {
        Some(c as int - 'A' as int + 10)
    } else {
        None
    }
}

/// An even number of hexadecimal digits of either case.
pub open spec fn is_hex_text(text: Seq<char>) -> bool {
    &&& text.len() % 2 == 0
    &&& forall|i: int| 0 <= i < text.len() ==> hex_value(#[trigger] text[i]) is Some
}

/// The bytes that a hexadecimal text stands for.
pub open spec fn hex_bytes(text: Seq<char>) -> Seq<u8> {
    Seq::new(
        text.len() / 2,
        |i: int| (hex_value(text[2 * i])->0 * 16 + hex_value(text[2 * i + 1])->0) as u8,
    )
}

/// `hex::decode`: the bytes of a hexadecimal text of either case.
///
/// Taken without proof: decoding succeeds exactly on an even number of
/// hexadecimal digits, and each pair of digits becomes one byte.
#[verifier::external_body]
pub(crate) fn decode_hex(text: &str) -> (bytes: Option<Vec<u8>>)
    ensures
        bytes is Some <==> is_hex_text(text@),
        bytes is Some ==> bytes->0@ == hex_bytes(text@),
{
    hex::decode(text).ok()
}

/// The text of the SHA-256 digest of a message.
pub open spec fn sha256_text(message: Seq<u8>) -> Seq<char> {
    hex_text(sha256(message))
}

/// The hexadecimal SHA-256 digest of `message`.
pub fn sha256_hex(message: &[u8]) -> (text: String)
    ensures
        text@ == sha256_text(message@),
        text@.len() == 64,
{
    let digest: [u8; 32] = sha256_digest(message);
    encode_hex(digest.as_slice())
}

/// 64 lower-case hexadecimal digits.
pub open spec fn is_sha256_text(text: Seq<char>) -> bool {
    &&& text.len() == 64
    &&& forall|i: int|
        0 <= i < text.len() ==> ('0' <= #[trigger] text[i] <= '9' || 'a' <= text[i] <= 'f')
}

/// Whether the text is a SHA-256 identity: 64 lower-case hexadecimal digits.
pub fn is_sha256(value: &str) -> (valid: bool)
    ensures
        valid == is_sha256_text(value@),
{
    let chars: Vec<char> = chars_of(value);
    if chars.len() != 64 {
        return false;
    }
    let mut i: usize = 0;
    while i < 64
        invariant
            i <= 64,
            chars@ == value@,
            chars@.len() == 64,
            forall|j: int|
                0 <= j < i ==> ('0' <= #[trigger] value@[j] <= '9' || 'a' <= value@[j] <= 'f'),
        decreases 64 - i,
    {
        let c: char = chars[i];
        if !('0' <= c && c <= '9' || 'a' <= c && c <= 'f') {
            assert(!('0' <= value@[i as int] <= '9' || 'a' <= value@[i as int] <= 'f'));
            return false;
        }
        i += 1;
    }
    true
}

/// A digest text is 64 lower-case hexadecimal digits.
pub proof fn lemma_digest_text_shape(digest: Seq<u8>)
    requires
        digest.len() == 32,
    ensures
        is_sha256_text(hex_text(digest)),
{
    let text = hex_text(digest);
    assert forall|i: int| 0 <= i < text.len() implies ('0' <= #[trigger] text[i] <= '9' || 'a'
        <= text[i] <= 'f') by {
        let half = if i % 2 == 0 {
            digest[i / 2] as int / 16
        } else {
            digest[i / 2] as int % 16
        };
        assert(0 <= half < 16);
        assert(text[i] == hex_digit(half));
    }
}

/// Decoding a hexadecimal text gives back the bytes that it was made from.
pub proof fn lemma_hex_round_trip(bytes: Seq<u8>)
    ensures
        is_hex_text(hex_text(bytes)),
        hex_bytes(hex_text(bytes)) == bytes,
{
    let text = hex_text(bytes);
    assert forall|i: int| 0 <= i < bytes.len() implies {
        &&& #[trigger] hex_value(text[2 * i]) == Some(bytes[i] as int / 16)
        &&& hex_value(text[2 * i + 1]) == Some(bytes[i] as int % 16)
    } by {
        assert((2 * i) / 2 == i && (2 * i) % 2 == 0);
        assert((2 * i + 1) / 2 == i && (2 * i + 1) % 2 == 1);
        let high = bytes[i] as int / 16;
        let low = bytes[i] as int % 16;
        assert(0 <= high < 16 && 0 <= low < 16);
        assert(text[2 * i] == hex_digit(high));
        assert(text[2 * i + 1] == hex_digit(low));
    }
    assert forall|i: int| 0 <= i < text.len() implies hex_value(#[trigger] text[i]) is Some by {
        let k = i / 2;
        assert(0 <= k < bytes.len());
        assert(hex_value(text[2 * k]) == Some(bytes[k] as int / 16));
        assert(i == 2 * k || i == 2 * k + 1);
    }
    assert forall|i: int| 0 <= i < bytes.len() implies hex_bytes(text)[i] == bytes[i] by {
        assert(hex_value(text[2 * i]) == Some(bytes[i] as int / 16));
    }
    assert(hex_bytes(text) =~= bytes);
}

} // verus!
