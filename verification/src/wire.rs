//! Big-endian integer encodings shared by the frame and message formats.

use vstd::prelude::*;

verus! {

/// The two big-endian bytes of a 16-bit value.
pub open spec fn spec_be16(x: u16) -> Seq<u8> {
    seq![(x >> 8) as u8, x as u8]
}

/// The 16-bit value carried by two big-endian bytes.
pub open spec fn spec_be16_val(hi: u8, lo: u8) -> u16 {
    (hi as u16) << 8 | (lo as u16)
}

/// The four big-endian bytes of a 32-bit value.
pub open spec fn spec_be32(x: u32) -> Seq<u8> {
    seq![(x >> 24) as u8, (x >> 16) as u8, (x >> 8) as u8, x as u8]
}

/// The 32-bit value carried by four big-endian bytes.
pub open spec fn spec_be32_val(b0: u8, b1: u8, b2: u8, b3: u8) -> u32 {
    (b0 as u32) << 24 | (b1 as u32) << 16 | (b2 as u32) << 8 | (b3 as u32)
}

/// Decoding the two bytes of `spec_be16` gives the value back.
pub proof fn lemma_be16_round_trip(x: u16)
    ensures
        spec_be16_val(spec_be16(x)[0], spec_be16(x)[1]) == x,
{
    assert(((((x >> 8) as u8) as u16) << 8 | ((x as u8) as u16)) == x) by (bit_vector);
}

/// Decoding the four bytes of `spec_be32` gives the value back.
pub proof fn lemma_be32_round_trip(x: u32)
    ensures
        spec_be32_val(spec_be32(x)[0], spec_be32(x)[1], spec_be32(x)[2], spec_be32(x)[3]) == x,
{
    assert((((x >> 24) as u8) as u32) << 24 | (((x >> 16) as u8) as u32) << 16 | (((x >> 8) as u8)
        as u32) << 8 | ((x as u8) as u32) == x) by (bit_vector);
}

/// Appends the big-endian encoding of `x` to `out`.
pub fn push_be16(out: &mut Vec<u8>, x: u16)
    ensures
        final(out)@ == old(out)@ + spec_be16(x),
{
    out.push((x >> 8) as u8);
    out.push(x as u8);
    assert(out@ =~= old(out)@ + spec_be16(x));
}

/// Appends the big-endian encoding of `x` to `out`.
pub fn push_be32(out: &mut Vec<u8>, x: u32)
    ensures
        final(out)@ == old(out)@ + spec_be32(x),
{
    out.push((x >> 24) as u8);
    out.push((x >> 16) as u8);
    out.push((x >> 8) as u8);
    out.push(x as u8);
    assert(out@ =~= old(out)@ + spec_be32(x));
}

/// Appends a byte slice to `out`.
pub fn append_bytes(out: &mut Vec<u8>, bytes: &[u8])
    ensures
        final(out)@ == old(out)@ + bytes@,
{
    let ghost pre = out@;
    out.extend_from_slice(bytes);
    proof {
        assert forall|j: int| 0 <= j < out@.len() implies out@[j] == (pre + bytes@)[j] by {
            if j >= pre.len() {
                assert(cloned::<u8>(bytes@[j - pre.len()], out@[j]));
            }
        }
        assert(out@ =~= pre + bytes@);
    }
}

/// Combines two big-endian bytes into the value they carry.
pub fn read_be16(hi: u8, lo: u8) -> (x: u16)
    ensures
        x == spec_be16_val(hi, lo),
{
    (hi as u16) << 8 | (lo as u16)
}

/// Combines four big-endian bytes into the value they carry.
pub fn read_be32(b0: u8, b1: u8, b2: u8, b3: u8) -> (x: u32)
    ensures
        x == spec_be32_val(b0, b1, b2, b3),
{
    (b0 as u32) << 24 | (b1 as u32) << 16 | (b2 as u32) << 8 | (b3 as u32)
}

} // verus!
