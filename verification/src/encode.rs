//! Little-endian encodings of the elements of a frame.

use vstd::prelude::*;

verus! {

/// The four bytes of `x`, least significant first.
pub open spec fn u32_le(x: u32) -> Seq<u8> {
    seq![
        (x % 256) as u8,
        (x / 0x100 % 256) as u8,
        (x / 0x1_0000 % 256) as u8,
        (x / 0x100_0000 % 256) as u8,
    ]
}

/// The eight bytes of `x`, least significant first.
pub open spec fn u64_le(x: u64) -> Seq<u8> {
    seq![
        (x % 256) as u8,
        (x / 0x100 % 256) as u8,
        (x / 0x1_0000 % 256) as u8,
        (x / 0x100_0000 % 256) as u8,
        (x / 0x1_0000_0000 % 256) as u8,
        (x / 0x100_0000_0000 % 256) as u8,
        (x / 0x1_0000_0000_0000 % 256) as u8,
        (x / 0x100_0000_0000_0000 % 256) as u8,
    ]
}

/// The number that a sequence of bytes spells, least significant first.
pub open spec fn le_value(bytes: Seq<u8>) -> nat
    decreases bytes.len(),
{
    if bytes.len() == 0 {
        0
    } else {
        bytes[0] as nat + 256 * le_value(bytes.skip(1))
    }
}

/// `buffer` with the bytes from `offset` on replaced by `bytes`.
pub open spec fn overwritten(buffer: Seq<u8>, offset: int, bytes: Seq<u8>) -> Seq<u8>
    recommends
        0 <= offset,
        offset + bytes.len() <= buffer.len(),
{
    Seq::new(
        buffer.len(),
        |k: int|
            if offset <= k < offset + bytes.len() {
                bytes[k - offset]
            } else {
                buffer[k]
            },
    )
}

/// Writes `x` at `offset`, least significant byte first.
pub fn write_u32_le(buffer: &mut [u8], offset: usize, x: u32)
    requires
        offset + 4 <= old(buffer)@.len(),
    ensures
        final(buffer)@ == overwritten(old(buffer)@, offset as int, u32_le(x)),
{
    assert(x & 0xff == x % 256 && (x >> 8) & 0xff == x / 0x100 % 256 && (x >> 16) & 0xff == x
        / 0x1_0000 % 256 && (x >> 24) & 0xff == x / 0x100_0000 % 256) by (bit_vector);
    buffer[offset] = (x & 0xff) as u8;
    buffer[offset + 1] = ((x >> 8) & 0xff) as u8;
    buffer[offset + 2] = ((x >> 16) & 0xff) as u8;
    buffer[offset + 3] = ((x >> 24) & 0xff) as u8;
    assert(buffer@ =~= overwritten(old(buffer)@, offset as int, u32_le(x)));
}

/// Writes `x` at `offset`, least significant byte first.
pub fn write_u64_le(buffer: &mut [u8], offset: usize, x: u64)
    requires
        offset + 8 <= old(buffer)@.len(),
    ensures
        final(buffer)@ == overwritten(old(buffer)@, offset as int, u64_le(x)),
{
    assert(x & 0xff == x % 256 && (x >> 8) & 0xff == x / 0x100 % 256 && (x >> 16) & 0xff == x
        / 0x1_0000 % 256 && (x >> 24) & 0xff == x / 0x100_0000 % 256) by (bit_vector);
    assert((x >> 32) & 0xff == x / 0x1_0000_0000 % 256 && (x >> 40) & 0xff == x
        / 0x100_0000_0000 % 256 && (x >> 48) & 0xff == x / 0x1_0000_0000_0000 % 256 && (x >> 56)
        & 0xff == x / 0x100_0000_0000_0000 % 256) by (bit_vector);
    buffer[offset] = (x & 0xff) as u8;
    buffer[offset + 1] = ((x >> 8) & 0xff) as u8;
    buffer[offset + 2] = ((x >> 16) & 0xff) as u8;
    buffer[offset + 3] = ((x >> 24) & 0xff) as u8;
    buffer[offset + 4] = ((x >> 32) & 0xff) as u8;
    buffer[offset + 5] = ((x >> 40) & 0xff) as u8;
    buffer[offset + 6] = ((x >> 48) & 0xff) as u8;
    buffer[offset + 7] = ((x >> 56) & 0xff) as u8;
    assert(buffer@ =~= overwritten(old(buffer)@, offset as int, u64_le(x)));
}

/// The four bytes of `x` spell `x`.
pub proof fn lemma_u32_le_round_trip(x: u32)
    ensures
        u32_le(x).len() == 4,
        le_value(u32_le(x)) == x,
{
    let b = u32_le(x);
    reveal_with_fuel(le_value, 5);
    assert(b.skip(1).skip(1).skip(1).skip(1).len() == 0);
    assert(b.skip(1)[0] == b[1]);
    assert(b.skip(1).skip(1)[0] == b[2]);
    assert(b.skip(1).skip(1).skip(1)[0] == b[3]);
}

/// A 64-bit number is the sum of its bytes, each at its weight.
proof fn lemma_u64_byte_sum(x: u64)
    by (bit_vector)
    ensures
        x == (x % 256) + 0x100 * (x / 0x100 % 256) + 0x1_0000 * (x / 0x1_0000 % 256) + 0x100_0000
            * (x / 0x100_0000 % 256) + 0x1_0000_0000 * (x / 0x1_0000_0000 % 256)
            + 0x100_0000_0000 * (x / 0x100_0000_0000 % 256) + 0x1_0000_0000_0000 * (x
            / 0x1_0000_0000_0000 % 256) + 0x100_0000_0000_0000 * (x / 0x100_0000_0000_0000 % 256),
{
}

/// The eight bytes of `x` spell `x`.
pub proof fn lemma_u64_le_round_trip(x: u64)
    ensures
        u64_le(x).len() == 8,
        le_value(u64_le(x)) == x,
{
    let b = u64_le(x);
    let b1 = b.skip(1);
    let b2 = b1.skip(1);
    let b3 = b2.skip(1);
    let b4 = b3.skip(1);
    let b5 = b4.skip(1);
    let b6 = b5.skip(1);
    let b7 = b6.skip(1);
    let b8 = b7.skip(1);
    assert(b1[0] == b[1] && b2[0] == b[2] && b3[0] == b[3] && b4[0] == b[4]);
    assert(b5[0] == b[5] && b6[0] == b[6] && b7[0] == b[7] && b8.len() == 0);
    assert(le_value(b8) == 0);
    assert(le_value(b7) == b[7] + 256 * le_value(b8));
    assert(le_value(b6) == b[6] + 256 * le_value(b7));
    assert(le_value(b5) == b[5] + 256 * le_value(b6));
    assert(le_value(b4) == b[4] + 256 * le_value(b5));
    assert(le_value(b3) == b[3] + 256 * le_value(b4));
    assert(le_value(b2) == b[2] + 256 * le_value(b3));
    assert(le_value(b1) == b[1] + 256 * le_value(b2));
    assert(le_value(b) == b[0] + 256 * le_value(b1));
    assert(le_value(b) == b[0] + 0x100 * b[1] + 0x1_0000 * b[2] + 0x100_0000 * b[3]
        + 0x1_0000_0000 * b[4] + 0x100_0000_0000 * b[5] + 0x1_0000_0000_0000 * b[6]
        + 0x100_0000_0000_0000 * b[7]);
    lemma_u64_byte_sum(x);
}

} // verus!
