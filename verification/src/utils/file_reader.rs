//! Numbers as they stand in a file: a run of bytes, least significant byte
//! first or most significant byte first.

use vstd::prelude::*;

verus! {

/// 256 to the power `exponent`: how many numbers `exponent` bytes can spell.
pub open spec fn pow256(exponent: nat) -> nat
    decreases exponent,
{
    if exponent == 0 {
        1
    } else {
        256 * pow256((exponent - 1) as nat)
    }
}

/// The number that `bytes` spell, most significant byte first.
pub open spec fn big_endian(bytes: Seq<u8>) -> nat
    decreases bytes.len(),
{
    if bytes.len() == 0 {
        0
    } else {
        256 * big_endian(bytes.drop_last()) + bytes.last() as nat
    }
}

/// The number that `bytes` spell, least significant byte first.
pub open spec fn little_endian(bytes: Seq<u8>) -> nat
    decreases bytes.len(),
{
    if bytes.len() == 0 {
        0
    } else {
        bytes.first() as nat + 256 * little_endian(bytes.drop_first())
    }
}

/// A number spelt with `n` bytes is below 256 to the power `n`.
pub proof fn lemma_big_endian_bound(bytes: Seq<u8>)
    ensures
        big_endian(bytes) < pow256(bytes.len()),
    decreases bytes.len(),
{
    if bytes.len() > 0 {
        lemma_big_endian_bound(bytes.drop_last());
    }
}

/// A number spelt with `n` bytes is below 256 to the power `n`.
pub proof fn lemma_little_endian_bound(bytes: Seq<u8>)
    ensures
        little_endian(bytes) < pow256(bytes.len()),
    decreases bytes.len(),
{
    if bytes.len() > 0 {
        lemma_little_endian_bound(bytes.drop_first());
    }
}

/// More bytes spell more numbers.
pub proof fn lemma_pow256_increases(low: nat, high: nat)
    requires
        low <= high,
    ensures
        pow256(low) <= pow256(high),
        pow256(low) > 0,
    decreases high,
{
    if low < high {
        lemma_pow256_increases(low, (high - 1) as nat);
    } else if low > 0 {
        lemma_pow256_increases((low - 1) as nat, (low - 1) as nat);
    }
}

/// Sixteen bytes fill a `u128`, eight a `u64`, four a `u32`, two a `u16`.
pub proof fn lemma_pow256_values()
    ensures
        pow256(1) == 0x100,
        pow256(2) == 0x1_0000,
        pow256(4) == 0x1_0000_0000,
        pow256(8) == 0x1_0000_0000_0000_0000,
        pow256(16) == 0x1_0000_0000_0000_0000_0000_0000_0000_0000,
{
    reveal_with_fuel(pow256, 17);
}

/// Reads up to sixteen bytes as a number, most significant byte first.
fn big_endian_value(bytes: &[u8]) -> (value: u128)
    requires
        bytes@.len() <= 16,
    ensures
        value == big_endian(bytes@),
{
    let mut value: u128 = 0;
    let mut i: usize = 0;
    while i < bytes.len()
        invariant
            i <= bytes@.len() <= 16,
            value == big_endian(bytes@.subrange(0, i as int)),
        decreases bytes@.len() - i,
    {
        proof {
            let read = bytes@.subrange(0, i as int);
            lemma_big_endian_bound(read);
            lemma_pow256_increases(i as nat, 15);
            lemma_pow256_values();
            assert(pow256(16) == 256 * pow256(15));
            assert(bytes@.subrange(0, i + 1).drop_last() =~= read);
            assert(bytes@.subrange(0, i + 1).last() == bytes@[i as int]);
        }
        value = value * 256 + bytes[i] as u128;
        i += 1;
    }
    proof {
        assert(bytes@.subrange(0, i as int) =~= bytes@);
    }
    value
}

/// Reads up to sixteen bytes as a number, least significant byte first.
fn little_endian_value(bytes: &[u8]) -> (value: u128)
    requires
        bytes@.len() <= 16,
    ensures
        value == little_endian(bytes@),
{
    let mut value: u128 = 0;
    let mut i: usize = bytes.len();
    while i > 0
        invariant
            i <= bytes@.len() <= 16,
            value == little_endian(bytes@.subrange(i as int, bytes@.len() as int)),
        decreases i,
    {
        proof {
            let read = bytes@.subrange(i as int, bytes@.len() as int);
            lemma_little_endian_bound(read);
            lemma_pow256_increases(read.len(), 15);
            lemma_pow256_values();
            assert(pow256(16) == 256 * pow256(15));
            assert(bytes@.subrange(i - 1, bytes@.len() as int).drop_first() =~= read);
            assert(bytes@.subrange(i - 1, bytes@.len() as int).first() == bytes@[i - 1]);
        }
        i -= 1;
        value = value * 256 + bytes[i] as u128;
    }
    proof {
        assert(bytes@.subrange(0, bytes@.len() as int) =~= bytes@);
    }
    value
}

/// The number that up to eight bytes spell, most significant byte first.
pub fn big_endian_u64(bytes: &[u8]) -> (value: u64)
    requires
        bytes@.len() <= 8,
    ensures
        value == big_endian(bytes@),
{
    proof {
        lemma_big_endian_bound(bytes@);
        lemma_pow256_increases(bytes@.len(), 8);
        lemma_pow256_values();
    }
    big_endian_value(bytes) as u64
}

/// The 16-bit number that two bytes spell, least significant byte first.
pub fn read_u16_from_bytes(bytes: &[u8; 2]) -> (value: u16)
    ensures
        value == little_endian(bytes@),
{
    proof {
        lemma_little_endian_bound(bytes@);
        lemma_pow256_values();
    }
    little_endian_value(bytes.as_slice()) as u16
}

/// The 32-bit number that four bytes spell, least significant byte first.
pub fn read_u32_from_bytes(bytes: &[u8; 4]) -> (value: u32)
    ensures
        value == little_endian(bytes@),
{
    proof {
        lemma_little_endian_bound(bytes@);
        lemma_pow256_values();
    }
    little_endian_value(bytes.as_slice()) as u32
}

/// The 64-bit number that eight bytes spell, least significant byte first.
pub fn read_u64_from_bytes(bytes: &[u8; 8]) -> (value: u64)
    ensures
        value == little_endian(bytes@),
{
    proof {
        lemma_little_endian_bound(bytes@);
        lemma_pow256_values();
    }
    little_endian_value(bytes.as_slice()) as u64
}

/// The 128-bit number that sixteen bytes spell, least significant byte
/// first.
pub fn read_u128_from_bytes(bytes: &[u8; 16]) -> (value: u128)
    ensures
        value == little_endian(bytes@),
{
    little_endian_value(bytes.as_slice())
}

/// The 16-bit number that two bytes spell, most significant byte first.
pub fn read_u16_from_swapped_bytes(bytes: &[u8; 2]) -> (value: u16)
    ensures
        value == big_endian(bytes@),
{
    proof {
        lemma_big_endian_bound(bytes@);
        lemma_pow256_values();
    }
    big_endian_value(bytes.as_slice()) as u16
}

/// The 32-bit number that four bytes spell, most significant byte first.
pub fn read_u32_from_swapped_bytes(bytes: &[u8; 4]) -> (value: u32)
    ensures
        value == big_endian(bytes@),
{
    proof {
        lemma_big_endian_bound(bytes@);
        lemma_pow256_values();
    }
    big_endian_value(bytes.as_slice()) as u32
}

/// The 64-bit number that eight bytes spell, most significant byte first.
pub fn read_u64_from_swapped_bytes(bytes: &[u8; 8]) -> (value: u64)
    ensures
        value == big_endian(bytes@),
{
    proof {
        lemma_big_endian_bound(bytes@);
        lemma_pow256_values();
    }
    big_endian_value(bytes.as_slice()) as u64
}

/// The 128-bit number that sixteen bytes spell, most significant byte first.
pub fn read_u128_from_swapped_bytes(bytes: &[u8; 16]) -> (value: u128)
    ensures
        value == big_endian(bytes@),
{
    big_endian_value(bytes.as_slice())
}

} // verus!
