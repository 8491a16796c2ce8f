pub mod constant_pool;
pub mod instruction;
pub mod stack;
pub mod gen_spec;
pub mod ir;
pub mod method;
pub mod dir;
pub mod reljumps;
pub mod semantics;
pub mod stmt_semantics;
pub mod loop_semantics;
pub mod refs;

use vstd::prelude::*;

verus! {

/// The upper byte of an unsigned 16-bit value, as the class file stores it first.
pub fn high_byte(short: u16) -> (b: u8)
    ensures
        b == short / 256,
{
    assert((short >> 8u16) as u8 == short / 256) by (bit_vector);
    (short >> 8u16) as u8
}

/// The lower byte of an unsigned 16-bit value.
pub fn low_byte(short: u16) -> (b: u8)
    ensures
        b == short % 256,
{
    assert(short as u8 == short % 256) by (bit_vector);
    short as u8
}

/// The upper byte of a signed 16-bit value in two's complement.
pub fn shigh_byte(short: i16) -> (b: u8)
    ensures
        b == (short as u16) / 256,
{
    assert((short >> 8u16) as u8 == (short as u16) / 256) by (bit_vector);
    (short >> 8u16) as u8
}

/// The lower byte of a signed 16-bit value in two's complement.
pub fn slow_byte(short: i16) -> (b: u8)
    ensures
        b == (short as u16) % 256,
{
    assert(short as u8 == (short as u16) % 256) by (bit_vector);
    short as u8
}

/// Big-endian encoding of an unsigned 16-bit value.
pub open spec fn be16(v: u16) -> Seq<u8> {
    seq![(v / 256) as u8, (v % 256) as u8]
}

/// Big-endian encoding of an unsigned 32-bit value.
pub open spec fn be32(v: u32) -> Seq<u8> {
    seq![
        (v / 0x100_0000) as u8,
        ((v / 0x1_0000) % 256) as u8,
        ((v / 256) % 256) as u8,
        (v % 256) as u8
    ]
}

/// Appends the big-endian encoding of `v`.
pub fn push_u16(out: &mut Vec<u8>, v: u16)
    ensures
        final(out)@ == old(out)@ + be16(v),
{
    out.push(high_byte(v));
    out.push(low_byte(v));
}

/// Appends the big-endian encoding of `v`.
pub fn push_u32(out: &mut Vec<u8>, v: u32)
    ensures
        final(out)@ == old(out)@ + be32(v),
{
    assert((v >> 24u32) as u8 == (v / 0x100_0000) as u8) by (bit_vector);
    assert((v >> 16u32) as u8 == ((v / 0x1_0000) % 256) as u8) by (bit_vector);
    assert((v >> 8u32) as u8 == ((v / 256) % 256) as u8) by (bit_vector);
    assert(v as u8 == (v % 256) as u8) by (bit_vector);
    out.push((v >> 24u32) as u8);
    out.push((v >> 16u32) as u8);
    out.push((v >> 8u32) as u8);
    out.push(v as u8);
}

/// Appends all bytes of `src`.
pub fn append_bytes(out: &mut Vec<u8>, src: &[u8])
    ensures
        final(out)@ == old(out)@ + src@,
{
    let mut i: usize = 0;
    while i < src.len()
        invariant
            i <= src@.len(),
            out@ == old(out)@ + src@.subrange(0, i as int),
        decreases src@.len() - i,
    {
        out.push(src[i]);
        i = i + 1;
        assert(src@.subrange(0, i as int) == src@.subrange(0, i - 1).push(src@[i - 1]));
    }
    assert(src@.subrange(0, src@.len() as int) == src@);
}

} // verus!
