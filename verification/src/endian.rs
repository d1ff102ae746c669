//! Fixed-width integers as little-endian bytes.

use byteorder::{ByteOrder, LittleEndian};
use vstd::prelude::*;

verus! {

/// The number of values that `width` bytes can tell apart: 256 to the power `width`.
pub open spec fn radix(width: nat) -> nat
    decreases width,
{
    if width == 0 {
        1
    } else {
        256 * radix((width - 1) as nat)
    }
}

/// The `width` bytes of `value`, least significant first.
pub open spec fn le_bytes(value: nat, width: nat) -> Seq<u8>
    decreases width,
{
    if width == 0 {
        Seq::empty()
    } else {
        seq![(value % 256) as u8] + le_bytes(value / 256, (width - 1) as nat)
    }
}

/// The number that `bytes` spell, least significant first.
pub open spec fn le_value(bytes: Seq<u8>) -> nat
    decreases bytes.len(),
{
    if bytes.len() == 0 {
        0
    } else {
        bytes[0] as nat + 256 * le_value(bytes.drop_first())
    }
}

/// The two's complement of `value` in `width` bytes.
pub open spec fn unsigned_of(value: int, width: nat) -> nat {
    if value < 0 {
        (value + radix(width)) as nat
    } else {
        value as nat
    }
}

/// The signed number whose two's complement in `width` bytes is `value`.
pub open spec fn signed_of(value: nat, width: nat) -> int {
    if 2 * value >= radix(width) {
        value - radix(width)
    } else {
        value as int
    }
}

/// `radix` at the widths of the format's scalars.
pub proof fn lemma_radix_values()
    ensures
        radix(1) == 0x100,
        radix(2) == 0x1_0000,
        radix(4) == 0x1_0000_0000,
        radix(8) == 0x1_0000_0000_0000_0000,
{
    reveal_with_fuel(radix, 9);
}

/// A number at a width has as many bytes.
pub proof fn lemma_le_bytes_len(value: nat, width: nat)
    ensures
        le_bytes(value, width).len() == width,
    decreases width,
{
    if width > 0 {
        lemma_le_bytes_len(value / 256, (width - 1) as nat);
    }
}

/// Reading back the bytes of a number that fits in `width` bytes gives the number.
pub proof fn lemma_le_value_of_bytes(value: nat, width: nat)
    requires
        value < radix(width),
    ensures
        le_value(le_bytes(value, width)) == value,
    decreases width,
{
    if width > 0 {
        let rest = le_bytes(value / 256, (width - 1) as nat);
        let all = le_bytes(value, width);
        assert(all.drop_first() =~= rest);
        assert(value / 256 < radix((width - 1) as nat)) by (nonlinear_arith)
            requires
                value < 256 * radix((width - 1) as nat),
        ;
        lemma_le_value_of_bytes(value / 256, (width - 1) as nat);
        lemma_le_bytes_len(value, width);
        assert(value == value % 256 + 256 * (value / 256)) by (nonlinear_arith);
    }
}

/// Every byte string spells a number that fits in as many bytes.
pub proof fn lemma_le_value_bound(bytes: Seq<u8>)
    ensures
        le_value(bytes) < radix(bytes.len()),
    decreases bytes.len(),
{
    if bytes.len() > 0 {
        lemma_le_value_bound(bytes.drop_first());
        let rest = le_value(bytes.drop_first());
        let r = radix((bytes.len() - 1) as nat);
        assert(bytes[0] as nat + 256 * rest < 256 * r) by (nonlinear_arith)
            requires
                rest < r,
                (bytes[0] as nat) < 256,
        ;
    }
}

/// Only the low `width` bytes of a number reach its bytes.
pub proof fn lemma_le_bytes_wrap(value: nat, width: nat)
    ensures
        le_bytes(value, width) == le_bytes(value % radix(width), width),
    decreases width,
{
    if width > 0 {
        let r = radix((width - 1) as nat);
        let low = value % radix(width);
        lemma_le_bytes_wrap(value / 256, (width - 1) as nat);
        lemma_le_bytes_wrap(low / 256, (width - 1) as nat);
        assert(r > 0) by {
            lemma_radix_positive((width - 1) as nat);
        }
        assert(low % 256 == value % 256 && (low / 256) % r == (value / 256) % r) by {
            lemma_split_low(value, r);
        }
    }
}

/// `radix` is never zero.
pub proof fn lemma_radix_positive(width: nat)
    ensures
        radix(width) > 0,
    decreases width,
{
    if width > 0 {
        lemma_radix_positive((width - 1) as nat);
    }
}

/// The low byte and the bytes above it of a number cut to `256 * r`.
proof fn lemma_split_low(value: nat, r: nat)
    requires
        r > 0,
    ensures
        (value % (256 * r)) % 256 == value % 256,
        ((value % (256 * r)) / 256) % r == (value / 256) % r,
{
    let m = 256 * r;
    let q = value / m;
    let low = value % m;
    assert(value == m * q + low && 0 <= low < m) by (nonlinear_arith)
        requires
            m > 0,
            q == value / m,
            low == value % m,
    ;
    let a = low / 256;
    let b = low % 256;
    assert(low == 256 * a + b && 0 <= b < 256);
    assert(a < r) by (nonlinear_arith)
        requires
            256 * a + b < 256 * r,
            b >= 0,
    ;
    assert(value == 256 * (r * q + a) + b) by (nonlinear_arith)
        requires
            value == m * q + low,
            m == 256 * r,
            low == 256 * a + b,
    ;
    assert(value % 256 == b && value / 256 == r * q + a) by {
        vstd::arithmetic::div_mod::lemma_fundamental_div_mod_converse(
            value as int,
            256,
            (r * q + a) as int,
            b as int,
        );
    }
    assert((r * q + a) % r == a) by {
        vstd::arithmetic::div_mod::lemma_fundamental_div_mod_converse(
            (r * q + a) as int,
            r as int,
            q as int,
            a as int,
        );
    }
    assert(a % r == a) by {
        vstd::arithmetic::div_mod::lemma_small_mod(a, r);
    }
}

/// Calls `byteorder::LittleEndian::write_u16` on a two-byte buffer and hands the
/// buffer back. Trusted: the buffer holds the two bytes of `n`, least significant first.
#[verifier::external_body]
pub(crate) fn u16_to_bytes(n: u16) -> (bytes: [u8; 2])
    ensures
        bytes@ == le_bytes(n as nat, 2),
{
    let mut bytes = [0u8; 2];
    LittleEndian::write_u16(&mut bytes, n);
    bytes
}

/// Calls `byteorder::LittleEndian::write_u32` on a four-byte buffer and hands the
/// buffer back. Trusted: the buffer holds the four bytes of `n`, least significant first.
#[verifier::external_body]
pub(crate) fn u32_to_bytes(n: u32) -> (bytes: [u8; 4])
    ensures
        bytes@ == le_bytes(n as nat, 4),
{
    let mut bytes = [0u8; 4];
    LittleEndian::write_u32(&mut bytes, n);
    bytes
}

/// Calls `byteorder::LittleEndian::write_u64` on an eight-byte buffer and hands the
/// buffer back. Trusted: the buffer holds the eight bytes of `n`, least significant first.
#[verifier::external_body]
pub(crate) fn u64_to_bytes(n: u64) -> (bytes: [u8; 8])
    ensures
        bytes@ == le_bytes(n as nat, 8),
{
    let mut bytes = [0u8; 8];
    LittleEndian::write_u64(&mut bytes, n);
    bytes
}

/// Calls `byteorder::LittleEndian::read_u16`, which panics on fewer than two bytes.
/// Trusted: the result is the number that the first two bytes spell, least significant first.
#[verifier::external_body]
pub(crate) fn u16_from_bytes(bytes: &[u8]) -> (n: u16)
    requires
        bytes@.len() >= 2,
    ensures
        n as nat == le_value(bytes@.subrange(0, 2)),
{
    LittleEndian::read_u16(bytes)
}

/// Calls `byteorder::LittleEndian::read_u32`, which panics on fewer than four bytes.
/// Trusted: the result is the number that the first four bytes spell, least significant first.
#[verifier::external_body]
pub(crate) fn u32_from_bytes(bytes: &[u8]) -> (n: u32)
    requires
        bytes@.len() >= 4,
    ensures
        n as nat == le_value(bytes@.subrange(0, 4)),
{
    LittleEndian::read_u32(bytes)
}

/// Calls `byteorder::LittleEndian::read_u64`, which panics on fewer than eight bytes.
/// Trusted: the result is the number that the first eight bytes spell, least significant first.
#[verifier::external_body]
pub(crate) fn u64_from_bytes(bytes: &[u8]) -> (n: u64)
    requires
        bytes@.len() >= 8,
    ensures
        n as nat == le_value(bytes@.subrange(0, 8)),
{
    LittleEndian::read_u64(bytes)
}

} // verus!
