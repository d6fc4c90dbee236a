//! Byte order and big-endian integers.
//!
//! Every artifact of the analytics products is a stream of records whose keys
//! sort as plain bytes. This module gives that order, the big-endian integers
//! stored inside the records, and the facts that tie the two together.

use vstd::prelude::*;

verus! {

/// The lexicographic order on byte strings: `a` and `b` agree below some index
/// at which `a` is smaller, or `a` is a proper prefix of `b`.
pub open spec fn lex_less(a: Seq<u8>, b: Seq<u8>) -> bool {
    exists|i: int| #[trigger] first_difference(a, b, i)
}

/// `a` and `b` agree below `i`, and `a` is smaller (or ends) at `i`.
pub open spec fn first_difference(a: Seq<u8>, b: Seq<u8>, i: int) -> bool {
    &&& 0 <= i < b.len()
    &&& i <= a.len()
    &&& forall|j: int| 0 <= j < i ==> a[j] == b[j]
    &&& i < a.len() ==> a[i] < b[i]
}

/// The order on byte strings is transitive.
pub proof fn lemma_lex_transitive(a: Seq<u8>, b: Seq<u8>, c: Seq<u8>)
    requires
        lex_less(a, b),
        lex_less(b, c),
    ensures
        lex_less(a, c),
{
    let i = choose|i: int| first_difference(a, b, i);
    let j = choose|j: int| first_difference(b, c, j);
    let k = if i < j {
        i
    } else {
        j
    };
    assert(first_difference(a, c, k));
}

/// No byte string sorts before itself, and no two sort before each other.
pub proof fn lemma_lex_antisymmetric(a: Seq<u8>, b: Seq<u8>)
    ensures
        !(lex_less(a, b) && lex_less(b, a)),
        !lex_less(a, a),
{
    if lex_less(a, b) && lex_less(b, a) {
        let i = choose|i: int| first_difference(a, b, i);
        let j = choose|j: int| first_difference(b, a, j);
        assert(false);
    }
    if lex_less(a, a) {
        let i = choose|i: int| first_difference(a, a, i);
        assert(false);
    }
}

/// Two byte strings are equal, or one sorts before the other.
pub proof fn lemma_lex_total(a: Seq<u8>, b: Seq<u8>)
    ensures
        a == b || lex_less(a, b) || lex_less(b, a),
    decreases a.len(),
{
    lemma_lex_total_from(a, b, 0);
}

proof fn lemma_lex_total_from(a: Seq<u8>, b: Seq<u8>, i: int)
    requires
        0 <= i <= a.len(),
        i <= b.len(),
        forall|j: int| 0 <= j < i ==> a[j] == b[j],
    ensures
        a == b || lex_less(a, b) || lex_less(b, a),
    decreases a.len() - i,
{
    if i == a.len() && i == b.len() {
        assert(a =~= b);
    } else if i == a.len() {
        assert(first_difference(a, b, i));
    } else if i == b.len() {
        assert(first_difference(b, a, i));
    } else if a[i] < b[i] {
        assert(first_difference(a, b, i));
    } else if b[i] < a[i] {
        assert(first_difference(b, a, i));
    } else {
        lemma_lex_total_from(a, b, i + 1);
    }
}

/// A byte string that sorts before another of the same length has a prefix
/// that sorts before the other's, or the same prefix and a smaller rest.
pub proof fn lemma_lex_split(a: Seq<u8>, b: Seq<u8>, at: int)
    requires
        a.len() == b.len(),
        0 <= at <= a.len(),
        lex_less(a, b),
    ensures
        lex_less(a.take(at), b.take(at)) || (a.take(at) == b.take(at) && lex_less(
            a.skip(at),
            b.skip(at),
        )),
{
    let i = choose|i: int| first_difference(a, b, i);
    if i < at {
        assert(first_difference(a.take(at), b.take(at), i));
    } else {
        assert(a.take(at) =~= b.take(at));
        assert(first_difference(a.skip(at), b.skip(at), i - at));
    }
}

/// A smaller prefix, or the same prefix and a smaller rest, makes a byte
/// string sort first.
pub proof fn lemma_lex_join(a: Seq<u8>, b: Seq<u8>, at: int)
    requires
        a.len() == b.len(),
        0 <= at <= a.len(),
        lex_less(a.take(at), b.take(at)) || (a.take(at) == b.take(at) && lex_less(
            a.skip(at),
            b.skip(at),
        )),
    ensures
        lex_less(a, b),
{
    if lex_less(a.take(at), b.take(at)) {
        let i = choose|i: int| first_difference(a.take(at), b.take(at), i);
        assert forall|j: int| 0 <= j < i implies a[j] == b[j] by {
            assert(a.take(at)[j] == b.take(at)[j]);
        }
        assert(first_difference(a, b, i));
    } else {
        let i = choose|i: int| first_difference(a.skip(at), b.skip(at), i);
        assert forall|j: int| 0 <= j < i + at implies a[j] == b[j] by {
            if j < at {
                assert(a.take(at)[j] == b.take(at)[j]);
            } else {
                assert(a.skip(at)[j - at] == b.skip(at)[j - at]);
            }
        }
        assert(first_difference(a, b, i + at));
    }
}

/// Whether two byte slices hold the same bytes.
pub fn bytes_equal(a: &[u8], b: &[u8]) -> (equal: bool)
    ensures
        equal == (a@ == b@),
{
    if a.len() != b.len() {
        return false;
    }
    let mut i: usize = 0;
    while i < a.len()
        invariant
            i <= a.len(),
            a.len() == b.len(),
            forall|j: int| 0 <= j < i ==> a@[j] == b@[j],
        decreases a.len() - i,
    {
        if a[i] != b[i] {
            return false;
        }
        i += 1;
    }
    assert(a@ =~= b@);
    true
}

/// Whether `a` sorts before `b`.
pub fn bytes_less(a: &[u8], b: &[u8]) -> (less: bool)
    ensures
        less == lex_less(a@, b@),
{
    let mut i: usize = 0;
    while i < a.len() && i < b.len()
        invariant
            i <= a.len(),
            i <= b.len(),
            forall|j: int| 0 <= j < i ==> a@[j] == b@[j],
        decreases a.len() - i,
    {
        if a[i] != b[i] {
            proof {
                if a[i as int] < b[i as int] {
                    assert(first_difference(a@, b@, i as int));
                } else {
                    assert(first_difference(b@, a@, i as int));
                    lemma_lex_antisymmetric(a@, b@);
                }
            }
            return a[i] < b[i];
        }
        i += 1;
    }
    proof {
        if i < b.len() {
            assert(first_difference(a@, b@, i as int));
        } else if a.len() == b.len() {
            assert(a@ =~= b@);
            lemma_lex_antisymmetric(a@, b@);
        } else {
            assert(first_difference(b@, a@, i as int));
            lemma_lex_antisymmetric(a@, b@);
        }
    }
    i < b.len()
}

/// The unsigned integer that a byte string stores with its highest byte first.
pub open spec fn be_nat(s: Seq<u8>) -> nat
    decreases s.len(),
{
    if s.len() == 0 {
        0
    } else {
        be_nat(s.drop_last()) * 256 + s.last() as nat
    }
}

/// The last `width` base-256 digits of `value`, highest first.
pub open spec fn be_bytes(value: nat, width: nat) -> Seq<u8>
    decreases width,
{
    if width == 0 {
        Seq::empty()
    } else {
        be_bytes(value / 256, (width - 1) as nat).push((value % 256) as u8)
    }
}

/// `256` to the power `width`: one more than the largest integer of that width.
pub open spec fn be_limit(width: nat) -> nat
    decreases width,
{
    if width == 0 {
        1
    } else {
        be_limit((width - 1) as nat) * 256
    }
}

/// The limits of the widths in use.
pub proof fn lemma_be_limits()
    ensures
        be_limit(1) == 0x100,
        be_limit(2) == 0x1_0000,
        be_limit(4) == 0x1_0000_0000,
        be_limit(8) == 0x1_0000_0000_0000_0000,
{
    reveal_with_fuel(be_limit, 9);
}

/// Wider integers have larger limits.
pub proof fn lemma_be_limit_monotone(a: nat, b: nat)
    requires
        a <= b,
    ensures
        be_limit(a) <= be_limit(b),
    decreases b,
{
    if a < b {
        lemma_be_limit_monotone(a, (b - 1) as nat);
    }
}

/// A stored integer is below the limit of its width.
pub proof fn lemma_be_nat_bound(s: Seq<u8>)
    ensures
        be_nat(s) < be_limit(s.len()),
    decreases s.len(),
{
    if s.len() > 0 {
        lemma_be_nat_bound(s.drop_last());
    }
}

/// An encoded integer has the requested width and reads back as the integer.
pub proof fn lemma_be_bytes_round_trip(value: nat, width: nat)
    ensures
        be_bytes(value, width).len() == width,
        value < be_limit(width) ==> be_nat(be_bytes(value, width)) == value,
    decreases width,
{
    if width > 0 {
        lemma_be_bytes_round_trip(value / 256, (width - 1) as nat);
        let head = be_bytes(value / 256, (width - 1) as nat);
        assert(be_bytes(value, width).drop_last() =~= head);
        if value < be_limit(width) {
            assert(value / 256 < be_limit((width - 1) as nat)) by (nonlinear_arith)
                requires
                    value < be_limit((width - 1) as nat) * 256,
            ;
        }
    }
}

/// Reading an integer and encoding it again gives the same bytes.
pub proof fn lemma_be_nat_round_trip(s: Seq<u8>)
    ensures
        be_bytes(be_nat(s), s.len()) == s,
    decreases s.len(),
{
    if s.len() > 0 {
        lemma_be_nat_round_trip(s.drop_last());
        let high = be_nat(s.drop_last());
        assert((high * 256 + s.last() as nat) / 256 == high);
        assert((high * 256 + s.last() as nat) % 256 == s.last() as nat);
        assert(be_bytes(be_nat(s), s.len()) =~= s);
    } else {
        assert(s =~= Seq::<u8>::empty());
    }
}

/// Integers of one width sort as their bytes do.
pub proof fn lemma_be_order(a: Seq<u8>, b: Seq<u8>)
    requires
        a.len() == b.len(),
    ensures
        lex_less(a, b) <==> be_nat(a) < be_nat(b),
        a == b <==> be_nat(a) == be_nat(b),
    decreases a.len(),
{
    if lex_less(a, b) {
        lemma_be_order_less(a, b);
    }
    if lex_less(b, a) {
        lemma_be_order_less(b, a);
    }
    lemma_lex_total(a, b);
}

proof fn lemma_be_order_less(a: Seq<u8>, b: Seq<u8>)
    requires
        a.len() == b.len(),
        lex_less(a, b),
    ensures
        be_nat(a) < be_nat(b),
    decreases a.len(),
{
    let i = choose|i: int| first_difference(a, b, i);
    if i == a.len() - 1 {
        assert(a.drop_last() =~= b.drop_last());
    } else {
        assert(first_difference(a.drop_last(), b.drop_last(), i));
        lemma_be_order_less(a.drop_last(), b.drop_last());
    }
}

/// The integer of joined byte strings.
pub proof fn lemma_be_join(a: Seq<u8>, b: Seq<u8>)
    ensures
        be_nat(a + b) == be_nat(a) * be_limit(b.len()) + be_nat(b),
    decreases b.len(),
{
    if b.len() == 0 {
        assert(a + b =~= a);
        assert(be_limit(b.len()) == 1);
        assert(be_nat(a) * 1 == be_nat(a)) by (nonlinear_arith);
    } else {
        assert((a + b).drop_last() =~= a + b.drop_last());
        assert((a + b).last() == b.last());
        lemma_be_join(a, b.drop_last());
        let high = be_nat(a);
        let limit = be_limit((b.len() - 1) as nat);
        let low = be_nat(b.drop_last());
        assert((high * limit + low) * 256 == high * (limit * 256) + low * 256) by (nonlinear_arith);
        assert(be_limit(b.len()) == limit * 256);
        assert(be_nat(a + b.drop_last()) == high * limit + low);
    }
}

/// Read the big-endian integer of `width` bytes that starts at `start`.
pub fn read_be(bytes: &[u8], start: usize, width: usize) -> (value: u64)
    requires
        width <= 8,
        start + width <= bytes.len(),
    ensures
        value == be_nat(bytes@.subrange(start as int, start + width)),
        value < be_limit(width as nat),
{
    let mut value: u64 = 0;
    let mut i: usize = 0;
    proof {
        assert(bytes@.subrange(start as int, start as int).len() == 0);
    }
    while i < width
        invariant
            i <= width <= 8,
            start + width <= bytes.len(),
            value == be_nat(bytes@.subrange(start as int, start + i)),
            value < be_limit(i as nat),
        decreases width - i,
    {
        proof {
            let next = bytes@.subrange(start as int, start + i + 1);
            assert(next.drop_last() =~= bytes@.subrange(start as int, start + i));
            lemma_be_nat_bound(next);
            lemma_be_limit_monotone((i + 1) as nat, 8);
            lemma_be_limits();
        }
        value = value * 256 + bytes[start + i] as u64;
        i += 1;
    }
    value
}

/// Read a big-endian `u16` at `start`.
pub fn read_u16(bytes: &[u8], start: usize) -> (value: u16)
    requires
        start + 2 <= bytes.len(),
    ensures
        value == be_nat(bytes@.subrange(start as int, start + 2)),
{
    proof {
        lemma_be_limits();
    }
    read_be(bytes, start, 2) as u16
}

/// Read a big-endian `u32` at `start`.
pub fn read_u32(bytes: &[u8], start: usize) -> (value: u32)
    requires
        start + 4 <= bytes.len(),
    ensures
        value == be_nat(bytes@.subrange(start as int, start + 4)),
{
    proof {
        lemma_be_limits();
    }
    read_be(bytes, start, 4) as u32
}

/// Read a big-endian `u64` at `start`.
pub fn read_u64(bytes: &[u8], start: usize) -> (value: u64)
    requires
        start + 8 <= bytes.len(),
    ensures
        value == be_nat(bytes@.subrange(start as int, start + 8)),
{
    read_be(bytes, start, 8)
}

/// Append `value` to `out` as `width` big-endian bytes.
pub fn push_be(out: &mut Vec<u8>, value: u64, width: usize)
    ensures
        final(out)@ == old(out)@ + be_bytes(value as nat, width as nat),
    decreases width,
{
    if width == 0 {
        assert(out@ + Seq::<u8>::empty() =~= out@);
        return ;
    }
    let ghost before = out@;
    push_be(out, value / 256, width - 1);
    out.push((value % 256) as u8);
    proof {
        let head = be_bytes((value / 256) as nat, (width - 1) as nat);
        assert(out@ =~= before + head.push((value % 256) as u8));
    }
}

/// Append every byte of `source` to `out`.
pub fn push_bytes(out: &mut Vec<u8>, source: &[u8])
    ensures
        final(out)@ == old(out)@ + source@,
{
    let ghost before = out@;
    let mut i: usize = 0;
    while i < source.len()
        invariant
            i <= source.len(),
            out@ == before + source@.take(i as int),
        decreases source.len() - i,
    {
        out.push(source[i]);
        assert(out@ =~= before + source@.take(i + 1));
        i += 1;
    }
    assert(source@.take(source@.len() as int) =~= source@);
}

/// The 32 bytes of `source` that start at `start`.
pub fn read_32(source: &[u8], start: usize) -> (bytes: [u8; 32])
    requires
        start + 32 <= source.len(),
    ensures
        bytes@ == source@.subrange(start as int, start + 32),
{
    let mut bytes: [u8; 32] = [0u8; 32];
    let mut i: usize = 0;
    while i < 32
        invariant
            i <= 32,
            start + 32 <= source.len(),
            forall|j: int| 0 <= j < i ==> bytes@[j] == source@[start + j],
        decreases 32 - i,
    {
        bytes[i] = source[start + i];
        i += 1;
    }
    assert(bytes@ =~= source@.subrange(start as int, start + 32));
    bytes
}

} // verus!
