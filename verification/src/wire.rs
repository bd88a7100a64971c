//! Little-endian integers, as records and requests carry them.

use crate::pubkey::Pubkey;
use vstd::prelude::*;

verus! {

/// The number that a little-endian byte string denotes.
pub open spec fn le_value(bytes: Seq<u8>) -> nat
    decreases bytes.len(),
{
    if bytes.len() == 0 {
        0
    } else {
        (bytes[0] as nat) + 256 * le_value(bytes.skip(1))
    }
}

/// The `width` low-order base-256 digits of `value`, least significant first.
pub open spec fn le_bytes(value: nat, width: nat) -> Seq<u8>
    decreases width,
{
    if width == 0 {
        Seq::empty()
    } else {
        seq![(value % 256) as u8] + le_bytes(value / 256, (width - 1) as nat)
    }
}

/// 256 to the power `n`.
pub open spec fn pow256(n: nat) -> nat
    decreases n,
{
    if n == 0 {
        1
    } else {
        256 * pow256((n - 1) as nat)
    }
}

/// The signed number whose two's complement on 64 bits is `bits`.
pub open spec fn i64_of_bits(bits: nat) -> int {
    if bits < 0x8000_0000_0000_0000 {
        bits as int
    } else {
        bits - 0x1_0000_0000_0000_0000
    }
}

/// The two's complement of a signed number on 64 bits.
pub open spec fn bits_of_i64(value: int) -> nat {
    if value >= 0 {
        value as nat
    } else {
        (value + 0x1_0000_0000_0000_0000) as nat
    }
}

/// Eight bytes hold the numbers below two to the power 64.
pub proof fn lemma_pow256_8()
    ensures
        pow256(8) == 0x1_0000_0000_0000_0000,
{
    reveal_with_fuel(pow256, 9);
}

/// A string of `n` bytes denotes a number below 256 to the `n`.
pub proof fn lemma_le_value_bound(bytes: Seq<u8>)
    ensures
        le_value(bytes) < pow256(bytes.len()),
    decreases bytes.len(),
{
    if bytes.len() > 0 {
        lemma_le_value_bound(bytes.skip(1));
    }
}

/// The digits of a number have the width asked for.
pub proof fn lemma_le_bytes_len(value: nat, width: nat)
    ensures
        le_bytes(value, width).len() == width,
    decreases width,
{
    if width > 0 {
        lemma_le_bytes_len(value / 256, (width - 1) as nat);
    }
}

/// A number that fits the width is found again from its digits.
pub proof fn lemma_le_value_of_le_bytes(value: nat, width: nat)
    requires
        value < pow256(width),
    ensures
        le_value(le_bytes(value, width)) == value,
    decreases width,
{
    if width > 0 {
        let rest = le_bytes(value / 256, (width - 1) as nat);
        let all = le_bytes(value, width);
        lemma_le_value_of_le_bytes(value / 256, (width - 1) as nat);
        assert(all.skip(1) =~= rest);
    }
}

/// A byte string is the digits of the number it denotes.
pub proof fn lemma_le_bytes_of_le_value(bytes: Seq<u8>)
    ensures
        le_bytes(le_value(bytes), bytes.len()) == bytes,
    decreases bytes.len(),
{
    if bytes.len() > 0 {
        lemma_le_bytes_of_le_value(bytes.skip(1));
    }
}

/// Reads the unsigned 64-bit number that starts at `offset`.
pub fn read_u64(data: &[u8], offset: usize) -> (value: u64)
    requires
        offset + 8 <= data.len(),
    ensures
        value == le_value(data@.subrange(offset as int, offset + 8)),
{
    let mut value: u64 = 0;
    let mut i: usize = 8;
    while i > 0
        invariant
            i <= 8,
            offset + 8 <= data.len(),
            value == le_value(data@.subrange(offset + i, offset + 8)),
        decreases i,
    {
        i = i - 1;
        proof {
            let tail = data@.subrange(offset + i + 1, offset + 8);
            let longer = data@.subrange(offset + i, offset + 8);
            assert(longer.skip(1) =~= tail);
            lemma_le_value_bound(tail);
            reveal_with_fuel(pow256, 9);
        }
        value = value * 256 + data[offset + i] as u64;
    }
    value
}

/// Reads the signed 64-bit number that starts at `offset`.
pub fn read_i64(data: &[u8], offset: usize) -> (value: i64)
    requires
        offset + 8 <= data.len(),
    ensures
        value == i64_of_bits(le_value(data@.subrange(offset as int, offset + 8))),
{
    let bits: u64 = read_u64(data, offset);
    if bits < 0x8000_0000_0000_0000 {
        bits as i64
    } else {
        let low: u64 = bits - 0x8000_0000_0000_0000;
        (low as i64) + i64::MIN
    }
}

/// Appends the eight bytes of an unsigned 64-bit number.
pub fn write_u64(writer: &mut Vec<u8>, value: u64)
    ensures
        final(writer)@ == old(writer)@ + le_bytes(value as nat, 8),
{
    let mut rest: u64 = value;
    let mut i: usize = 0;
    while i < 8
        invariant
            i <= 8,
            writer@ + le_bytes(rest as nat, (8 - i) as nat) == old(writer)@ + le_bytes(
                value as nat,
                8,
            ),
        decreases 8 - i,
    {
        writer.push((rest % 256) as u8);
        rest = rest / 256;
        i = i + 1;
    }
}

/// Appends the eight bytes of a signed 64-bit number.
pub fn write_i64(writer: &mut Vec<u8>, value: i64)
    ensures
        final(writer)@ == old(writer)@ + le_bytes(bits_of_i64(value as int), 8),
{
    let bits: u64 = if value >= 0 {
        value as u64
    } else {
        let low: i64 = value - i64::MIN;
        (low as u64) + 0x8000_0000_0000_0000
    };
    write_u64(writer, bits);
}

/// Reads the key that starts at `offset`.
pub fn read_pubkey(data: &[u8], offset: usize) -> (key: Pubkey)
    requires
        offset + 32 <= data.len(),
    ensures
        key@ == data@.subrange(offset as int, offset + 32),
{
    let mut bytes: [u8; 32] = [0u8; 32];
    let mut i: usize = 0;
    while i < 32
        invariant
            i <= 32,
            offset + 32 <= data.len(),
            forall|j: int| 0 <= j < i ==> bytes@[j] == data@[offset + j],
        decreases 32 - i,
    {
        bytes[i] = data[offset + i];
        i = i + 1;
    }
    Pubkey(bytes)
}

/// Appends the 32 bytes of a key.
pub fn write_pubkey(writer: &mut Vec<u8>, key: &Pubkey)
    ensures
        final(writer)@ == old(writer)@ + key@,
{
    let mut i: usize = 0;
    while i < 32
        invariant
            i <= 32,
            writer@ == old(writer)@ + key@.subrange(0, i as int),
        decreases 32 - i,
    {
        writer.push(key.0[i]);
        i = i + 1;
    }
}

} // verus!
