//! Ordered field writers over a growable byte buffer. Serialization appends
//! fields in wire order; values whose bytes depend on the final rendering
//! (lengths, checksums) are first emitted as zero placeholders and then
//! patched in place at their known offset.

use vstd::prelude::*;

verus! {

/// The two big-endian bytes of a 16-bit word.
pub open spec fn be16_bytes(x: u16) -> Seq<u8> {
    seq![((x >> 8u16) & 0xff) as u8, (x & 0xff) as u8]
}

/// A word reassembles from its big-endian bytes.
pub broadcast proof fn lemma_be16_bytes(x: u16)
    ensures
        #[trigger] crate::parse::be16(be16_bytes(x)[0], be16_bytes(x)[1]) == x,
{
    assert((((x >> 8u16) & 0xff) as u8 as u16) * 256 + ((x & 0xff) as u8 as u16) == x)
        by (bit_vector);
}

/// Append one byte.
pub fn be_u8(out: &mut Vec<u8>, x: u8)
    ensures
        final(out)@ =~= old(out)@.push(x),
{
    out.push(x);
}

/// Append a 16-bit word, big-endian.
pub fn be_u16(out: &mut Vec<u8>, x: u16)
    ensures
        final(out)@ =~= old(out)@ + be16_bytes(x),
{
    out.push(#[verifier::truncate] (((x >> 8u16) & 0xff) as u8));
    out.push(#[verifier::truncate] ((x & 0xffu16) as u8));
}

/// The four big-endian bytes of a 32-bit word.
pub open spec fn be32_bytes(x: u32) -> Seq<u8> {
    seq![
        ((x >> 24u32) & 0xff) as u8,
        ((x >> 16u32) & 0xff) as u8,
        ((x >> 8u32) & 0xff) as u8,
        (x & 0xff) as u8,
    ]
}

/// Append a 32-bit word, big-endian.
pub fn be_u32(out: &mut Vec<u8>, x: u32)
    ensures
        final(out)@ =~= old(out)@ + be32_bytes(x),
{
    out.push(#[verifier::truncate] (((x >> 24u32) & 0xff) as u8));
    out.push(#[verifier::truncate] (((x >> 16u32) & 0xff) as u8));
    out.push(#[verifier::truncate] (((x >> 8u32) & 0xff) as u8));
    out.push(#[verifier::truncate] ((x & 0xffu32) as u8));
}

/// Append a byte run.
pub fn put_slice(out: &mut Vec<u8>, s: &[u8])
    ensures
        final(out)@ =~= old(out)@ + s@,
{
    out.extend_from_slice(s);
    proof {
        assert(final(out)@ =~= old(out)@ + s@);
    }
}

/// Patch a rendered 16-bit field in place at its known offset, big-endian.
pub fn patch_be_u16(out: &mut Vec<u8>, at: usize, x: u16)
    requires
        at + 1 < old(out)@.len(),
    ensures
        final(out)@ =~= old(out)@.update(at as int, be16_bytes(x)[0]).update(
            at + 1,
            be16_bytes(x)[1],
        ),
{
    let n = out.len();
    proof {
        // at + 1 < n, a usize, so the index arithmetic below cannot wrap.
        assert(at + 1 < n);
    }
    out[at] = #[verifier::truncate] (((x >> 8u16) & 0xff) as u8);
    let i = at + 1;
    out[i] = #[verifier::truncate] ((x & 0xffu16) as u8);
}

} // verus!
