//! Big-endian encodings of integers, and their order.

use vstd::prelude::*;

verus! {

/// The `width` bytes of `value` in base 256, most significant first.
pub open spec fn be_bytes(value: nat, width: nat) -> Seq<u8>
    decreases width,
{
    if width == 0 {
        Seq::empty()
    } else {
        be_bytes(value / 256, (width - 1) as nat).push((value % 256) as u8)
    }
}

/// The unsigned number whose 32 bits are the two's complement of `value`.
pub open spec fn unsigned_32(value: i32) -> nat {
    if value >= 0 {
        value as nat
    } else {
        (value + 0x1_0000_0000) as nat
    }
}

/// The unsigned number whose 64 bits are the two's complement of `value`.
pub open spec fn unsigned_64(value: i64) -> nat {
    if value >= 0 {
        value as nat
    } else {
        (value + 0x1_0000_0000_0000_0000) as nat
    }
}

/// The four big-endian two's-complement bytes of `value`.
pub open spec fn spec_encode_i32(value: i32) -> Seq<u8> {
    be_bytes(unsigned_32(value), 4)
}

/// The eight big-endian two's-complement bytes of `value`.
pub open spec fn spec_encode_i64(value: i64) -> Seq<u8> {
    be_bytes(unsigned_64(value), 8)
}

/// `a` and `b` agree before position `k`, where `a` holds the smaller byte.
pub open spec fn differs_at(a: Seq<u8>, b: Seq<u8>, k: int) -> bool {
    &&& 0 <= k < a.len()
    &&& k < b.len()
    &&& a.subrange(0, k) == b.subrange(0, k)
    &&& a[k] < b[k]
}

/// `a` sorts strictly before `b` in the byte-wise lexicographic order.
pub open spec fn lex_less(a: Seq<u8>, b: Seq<u8>) -> bool {
    ||| exists|k: int| differs_at(a, b, k)
    ||| (a.len() < b.len() && a == b.subrange(0, a.len() as int))
}

/// A number has as many big-endian bytes as are asked for.
pub proof fn lemma_be_bytes_len(value: nat, width: nat)
    ensures
        be_bytes(value, width).len() == width,
    decreases width,
{
    if width > 0 {
        lemma_be_bytes_len(value / 256, (width - 1) as nat);
    }
}

/// 256 to the power `width`.
pub open spec fn radix_power(width: nat) -> nat
    decreases width,
{
    if width == 0 {
        1
    } else {
        256 * radix_power((width - 1) as nat)
    }
}

/// Of two numbers that fit in `width` bytes, the smaller has the
/// lexicographically smaller big-endian bytes.
pub proof fn lemma_be_bytes_ordered(x: nat, y: nat, width: nat) -> (k: int)
    requires
        x < y,
        y < radix_power(width),
    ensures
        differs_at(be_bytes(x, width), be_bytes(y, width), k),
        lex_less(be_bytes(x, width), be_bytes(y, width)),
    decreases width,
{
    lemma_be_bytes_len(x, width);
    lemma_be_bytes_len(y, width);
    if width == 0 {
        assert(false);
        0
    } else {
        let rest = (width - 1) as nat;
        lemma_be_bytes_len(x / 256, rest);
        lemma_be_bytes_len(y / 256, rest);
        let a = be_bytes(x, width);
        let b = be_bytes(y, width);
        if x / 256 == y / 256 {
            let k = rest as int;
            assert(a.subrange(0, k) =~= be_bytes(x / 256, rest));
            assert(b.subrange(0, k) =~= be_bytes(y / 256, rest));
            assert(x % 256 < y % 256);
            assert(differs_at(a, b, k));
            k
        } else {
            assert(x / 256 < y / 256);
            assert(y / 256 < radix_power(rest));
            let k = lemma_be_bytes_ordered(x / 256, y / 256, rest);
            let p = be_bytes(x / 256, rest);
            let q = be_bytes(y / 256, rest);
            assert(a.subrange(0, k) =~= p.subrange(0, k));
            assert(b.subrange(0, k) =~= q.subrange(0, k));
            assert(a[k] == p[k]);
            assert(b[k] == q[k]);
            assert(differs_at(a, b, k));
            k
        }
    }
}

/// The four big-endian bytes of `value`.
pub fn encode_u32(value: u32) -> (bytes: Vec<u8>)
    ensures
        bytes@ == be_bytes(value as nat, 4),
{
    let b3: u8 = (value % 256) as u8;
    let r2: u32 = value / 256;
    let b2: u8 = (r2 % 256) as u8;
    let r1: u32 = r2 / 256;
    let b1: u8 = (r1 % 256) as u8;
    let r0: u32 = r1 / 256;
    let b0: u8 = (r0 % 256) as u8;
    let mut bytes: Vec<u8> = Vec::new();
    bytes.push(b0);
    bytes.push(b1);
    bytes.push(b2);
    bytes.push(b3);
    proof {
        reveal_with_fuel(be_bytes, 5);
        assert(bytes@ =~= be_bytes(value as nat, 4));
    }
    bytes
}

/// The eight big-endian bytes of `value`.
pub fn encode_u64(value: u64) -> (bytes: Vec<u8>)
    ensures
        bytes@ == be_bytes(value as nat, 8),
{
    let mut digits: Vec<u8> = Vec::new();
    let mut rest: u64 = value;
    let mut i: usize = 0;
    while i < 8
        invariant
            i <= 8,
            digits.len() == i,
            forall|w: nat| #![trigger be_bytes(rest as nat, w)]
                be_bytes(value as nat, w + i as nat) == be_bytes(rest as nat, w) + digits@.reverse(),
        decreases 8 - i,
    {
        let ghost before = rest;
        let ghost old_digits = digits@;
        let digit: u8 = (rest % 256) as u8;
        digits.push(digit);
        rest = rest / 256;
        i = i + 1;
        proof {
            assert forall|w: nat| #![trigger be_bytes(rest as nat, w)]
                be_bytes(value as nat, w + i as nat) == be_bytes(rest as nat, w)
                    + digits@.reverse() by {
                assert(be_bytes(value as nat, (w + 1) + (i - 1) as nat) == be_bytes(
                    before as nat,
                    w + 1,
                ) + old_digits.reverse());
                assert(be_bytes(before as nat, w + 1) == be_bytes(rest as nat, w).push(digit));
                assert(digits@.reverse() =~= seq![digit] + old_digits.reverse());
                assert(be_bytes(rest as nat, w).push(digit) + old_digits.reverse() =~= be_bytes(
                    rest as nat,
                    w,
                ) + digits@.reverse());
            }
        }
    }
    let mut bytes: Vec<u8> = Vec::new();
    let mut j: usize = 8;
    while j > 0
        invariant
            j <= 8,
            digits.len() == 8,
            bytes.len() == 8 - j,
            forall|k: int| 0 <= k < 8 - j ==> bytes@[k] == digits@[7 - k],
        decreases j,
    {
        j = j - 1;
        bytes.push(digits[j]);
    }
    proof {
        assert(be_bytes(value as nat, 0 + 8) == be_bytes(rest as nat, 0) + digits@.reverse());
        assert(bytes@ =~= digits@.reverse());
        assert(be_bytes(rest as nat, 0) + digits@.reverse() =~= digits@.reverse());
    }
    bytes
}

/// The four big-endian two's-complement bytes of `value`.
pub fn encode_i32(value: i32) -> (bytes: Vec<u8>)
    ensures
        bytes@ == spec_encode_i32(value),
{
    if value >= 0 {
        encode_u32(value as u32)
    } else {
        let wide: i64 = value as i64 + 0x1_0000_0000;
        encode_u32(wide as u32)
    }
}

/// The eight big-endian two's-complement bytes of `value`.
pub fn encode_i64(value: i64) -> (bytes: Vec<u8>)
    ensures
        bytes@ == spec_encode_i64(value),
{
    if value >= 0 {
        encode_u64(value as u64)
    } else {
        let wide: i128 = value as i128 + 0x1_0000_0000_0000_0000;
        encode_u64(wide as u64)
    }
}

/// Among 32-bit integers of one sign, the encoding keeps the numeric order.
pub proof fn law_i32_order_within_sign(a: i32, b: i32)
    requires
        a < b,
        (a >= 0) == (b >= 0),
    ensures
        lex_less(spec_encode_i32(a), spec_encode_i32(b)),
{
    reveal_with_fuel(radix_power, 5);
    lemma_be_bytes_ordered(unsigned_32(a), unsigned_32(b), 4);
}

/// Across the sign boundary the order is reversed: every negative 32-bit
/// integer is encoded after every non-negative one.
pub proof fn law_i32_negative_sorts_last(a: i32, b: i32)
    requires
        a < 0,
        0 <= b,
    ensures
        lex_less(spec_encode_i32(b), spec_encode_i32(a)),
{
    reveal_with_fuel(radix_power, 5);
    lemma_be_bytes_ordered(unsigned_32(b), unsigned_32(a), 4);
}

/// Among 64-bit integers of one sign, the encoding keeps the numeric order.
pub proof fn law_i64_order_within_sign(a: i64, b: i64)
    requires
        a < b,
        (a >= 0) == (b >= 0),
    ensures
        lex_less(spec_encode_i64(a), spec_encode_i64(b)),
{
    reveal_with_fuel(radix_power, 9);
    lemma_be_bytes_ordered(unsigned_64(a), unsigned_64(b), 8);
}

/// Across the sign boundary the order is reversed: every negative 64-bit
/// integer is encoded after every non-negative one.
pub proof fn law_i64_negative_sorts_last(a: i64, b: i64)
    requires
        a < 0,
        0 <= b,
    ensures
        lex_less(spec_encode_i64(b), spec_encode_i64(a)),
{
    reveal_with_fuel(radix_power, 9);
    lemma_be_bytes_ordered(unsigned_64(b), unsigned_64(a), 8);
}

} // verus!
