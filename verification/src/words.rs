//! What the bytes and digits of records say, written out.
//!
//! Numbers in records are big-endian, records of one width follow each other
//! without a gap, and decimal texts have their most significant digit first.

use vstd::prelude::*;

use crate::bytes::{be_bytes, be_nat, first_difference, lemma_be_bytes_round_trip, lex_less};
use crate::digest::{hex_bytes, hex_text, is_hex_text};
use crate::records::{record, record_count};
use crate::text::{decimal, decimal_value, padded};

verus! {

/// The number in the two bytes from `at` on.
pub open spec fn word16(bytes: Seq<u8>, at: int) -> int {
    bytes[at] * 256 + bytes[at + 1]
}

/// The number in the four bytes from `at` on.
pub open spec fn word32(bytes: Seq<u8>, at: int) -> int {
    bytes[at] * 16_777_216 + bytes[at + 1] * 65_536 + bytes[at + 2] * 256 + bytes[at + 3]
}

/// The number in the eight bytes from `at` on.
pub open spec fn word64(bytes: Seq<u8>, at: int) -> int {
    word32(bytes, at) * 4_294_967_296 + word32(bytes, at + 4)
}

/// The records of `width` bytes, in order.
pub open spec fn cut(bytes: Seq<u8>, width: int) -> Seq<Seq<u8>> {
    Seq::new(
        (bytes.len() as int / width) as nat,
        |i: int| bytes.subrange(width * i, width * i + width),
    )
}

/// Numbers are read with the most significant byte first.
pub proof fn lemma_big_endian(bytes: Seq<u8>, at: int)
    requires
        0 <= at,
    ensures
        at + 2 <= bytes.len() ==> be_nat(bytes.subrange(at, at + 2)) == word16(bytes, at),
        at + 4 <= bytes.len() ==> be_nat(bytes.subrange(at, at + 4)) == word32(bytes, at),
        at + 8 <= bytes.len() ==> be_nat(bytes.subrange(at, at + 8)) == word64(bytes, at),
{
    reveal_with_fuel(be_nat, 9);
    if at + 2 <= bytes.len() {
        let s = bytes.subrange(at, at + 2);
        assert(s.drop_last() =~= bytes.subrange(at, at + 1));
        assert(bytes.subrange(at, at + 1).drop_last() =~= Seq::empty());
    }
    if at + 4 <= bytes.len() {
        assert(bytes.subrange(at, at + 4).drop_last() =~= bytes.subrange(at, at + 3));
        assert(bytes.subrange(at, at + 3).drop_last() =~= bytes.subrange(at, at + 2));
    }
    if at + 8 <= bytes.len() {
        assert(bytes.subrange(at, at + 8).drop_last() =~= bytes.subrange(at, at + 7));
        assert(bytes.subrange(at, at + 7).drop_last() =~= bytes.subrange(at, at + 6));
        assert(bytes.subrange(at, at + 6).drop_last() =~= bytes.subrange(at, at + 5));
        assert(bytes.subrange(at, at + 5).drop_last() =~= bytes.subrange(at, at + 4));
    }
}

/// Numbers are written with the most significant byte first, in as many bytes
/// as asked for.
pub proof fn lemma_written_big_endian(value: nat)
    ensures
        be_bytes(value, 2).len() == 2,
        be_bytes(value, 4).len() == 4,
        be_bytes(value, 8).len() == 8,
        value < 65_536 ==> word16(be_bytes(value, 2), 0) == value,
        value < 4_294_967_296 ==> word32(be_bytes(value, 4), 0) == value,
        value < 18_446_744_073_709_551_616 ==> word64(be_bytes(value, 8), 0) == value,
{
    crate::bytes::lemma_be_limits();
    lemma_be_bytes_round_trip(value, 2);
    lemma_be_bytes_round_trip(value, 4);
    lemma_be_bytes_round_trip(value, 8);
    let a = be_bytes(value, 2);
    let b = be_bytes(value, 4);
    let c = be_bytes(value, 8);
    assert(a.subrange(0, 2) =~= a);
    assert(b.subrange(0, 4) =~= b);
    assert(c.subrange(0, 8) =~= c);
    lemma_big_endian(a, 0);
    lemma_big_endian(b, 0);
    lemma_big_endian(c, 0);
}

/// Records follow each other without a gap: record `i` takes the bytes from
/// `width * i` on, and all whole records are counted.
pub proof fn lemma_records_are_cut(bytes: Seq<u8>, width: int)
    requires
        0 < width,
    ensures
        record_count(bytes, width) == cut(bytes, width).len(),
        forall|i: int|
            0 <= i < cut(bytes, width).len() ==> #[trigger] cut(bytes, width)[i] == record(
                bytes,
                width,
                i,
            ) && cut(bytes, width)[i].len() == width,
{
    let n = bytes.len() as int / width;
    assert(0 <= n && n * width <= bytes.len()) by (nonlinear_arith)
        requires
            n == bytes.len() as int / width,
            0 < width,
            0 <= bytes.len(),
    ;
    assert forall|i: int| 0 <= i < cut(bytes, width).len() implies #[trigger] cut(bytes, width)[i]
        == record(bytes, width, i) && cut(bytes, width)[i].len() == width by {
        assert(width * i == i * width && (i + 1) * width == width * i + width && i * width + width
            <= n * width) by (nonlinear_arith)
            requires
                0 <= i < n,
                0 < width,
        ;
    }
}

/// Byte strings are ordered by the first byte in which they differ, and a
/// beginning comes before the whole.
pub proof fn lemma_first_byte_decides(a: Seq<u8>, b: Seq<u8>, common: Seq<u8>)
    ensures
        a.len() > 0 && b.len() > 0 && a[0] < b[0] ==> lex_less(common + a, common + b)
            && !lex_less(common + b, common + a),
        b.len() > 0 ==> lex_less(common, common + b) && !lex_less(common + b, common),
{
    let n = common.len() as int;
    if a.len() > 0 && b.len() > 0 && a[0] < b[0] {
        assert(first_difference(common + a, common + b, n));
        crate::bytes::lemma_lex_antisymmetric(common + a, common + b);
    }
    if b.len() > 0 {
        assert(first_difference(common, common + b, n));
        crate::bytes::lemma_lex_antisymmetric(common, common + b);
    }
}

/// A further digit makes a decimal number ten times as large and adds the digit.
pub proof fn lemma_digits_are_decimal(text: Seq<char>, next: char)
    requires
        '0' <= next <= '9',
    ensures
        decimal_value(Seq::empty()) == 0,
        decimal_value(text.push(next)) == 10 * decimal_value(text) + (next as int - 48),
{
    assert(text.push(next).drop_last() =~= text);
}

/// A number is written in digits that read back as it, without leading zeros.
pub proof fn lemma_decimal_reads_back(n: nat)
    ensures
        decimal_value(decimal(n)) == n,
        decimal(n).len() > 0,
        forall|i: int| 0 <= i < decimal(n).len() ==> '0' <= #[trigger] decimal(n)[i] <= '9',
        decimal(n).len() > 1 ==> decimal(n)[0] != '0',
        n > 0 ==> decimal(n)[0] != '0',
    decreases n,
{
    if n < 10 {
        let s = decimal(n);
        assert(s.drop_last() =~= Seq::empty());
        reveal_with_fuel(decimal_value, 2);
    } else {
        lemma_decimal_reads_back(n / 10);
        let head = decimal(n / 10);
        let s = decimal(n);
        assert(s.drop_last() =~= head);
        assert(s[0] == head[0]);
        assert forall|i: int| 0 <= i < s.len() implies '0' <= #[trigger] s[i] <= '9' by {
            if i < head.len() {
                assert(s[i] == head[i]);
            }
        }
    }
}

/// A padded number has exactly `width` digits, which read back as it where it
/// has no more.
pub proof fn lemma_padded_reads_back(n: nat, width: nat)
    ensures
        padded(n, width).len() == width,
        decimal_value(padded(n, width)) == n % ten_to(width),
        forall|i: int| 0 <= i < width ==> '0' <= #[trigger] padded(n, width)[i] <= '9',
    decreases width,
{
    if width > 0 {
        let less = (width - 1) as nat;
        lemma_padded_reads_back(n / 10, less);
        let head = padded(n / 10, less);
        let s = padded(n, width);
        assert(s.drop_last() =~= head);
        assert forall|i: int| 0 <= i < width implies '0' <= #[trigger] s[i] <= '9' by {
            if i < less {
                assert(s[i] == head[i]);
            }
        }
        let m = ten_to(less);
        lemma_ten_to(less);
        assert((n / 10) % m * 10 + n % 10 == n % (10 * m)) by (nonlinear_arith)
            requires
                m > 0,
        {
            let q = (n / 10) / m;
            assert(n == 10 * (n / 10) + n % 10);
            assert(n / 10 == q * m + (n / 10) % m);
            let r = (n / 10) % m * 10 + n % 10;
            assert(n == q * (10 * m) + r);
            assert(0 <= r < 10 * m);
            vstd::arithmetic::div_mod::lemma_fundamental_div_mod_converse(
                n as int,
                (10 * m) as int,
                q as int,
                r as int,
            );
        }
    } else {
        assert(n % 1 == 0);
    }
}

/// Ten to the power of `width`.
pub open spec fn ten_to(width: nat) -> nat
    decreases width,
{
    if width == 0 {
        1
    } else {
        10 * ten_to((width - 1) as nat)
    }
}

proof fn lemma_ten_to(width: nat)
    ensures
        ten_to(width) > 0,
    decreases width,
{
    if width > 0 {
        lemma_ten_to((width - 1) as nat);
    }
}

/// Hexadecimal texts of digests are twice as long, lower case, and read back.
pub proof fn lemma_hex_pairs(bytes: Seq<u8>, i: int)
    requires
        0 <= i < bytes.len(),
    ensures
        hex_text(bytes).len() == 2 * bytes.len(),
        nibble(hex_text(bytes)[2 * i]) == Some(bytes[i] as int / 16),
        nibble(hex_text(bytes)[2 * i + 1]) == Some(bytes[i] as int % 16),
        hex_bytes(hex_text(bytes)) == bytes,
        is_hex_text(hex_text(bytes)),
{
    crate::digest::lemma_hex_round_trip(bytes);
    assert((2 * i) / 2 == i && (2 * i + 1) / 2 == i && (2 * i) % 2 == 0 && (2 * i + 1) % 2 == 1);
}

/// What a lower-case hexadecimal digit says.
pub open spec fn nibble(c: char) -> Option<int> {
    if '0' <= c <= '9' {
        Some(c as int - 48)
    } else if 'a' <= c <= 'f' {
        Some(c as int - 87)
    } else {
        None
    }
}

} // verus!
