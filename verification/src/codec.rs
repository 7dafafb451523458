//! Little-endian field access inside 512-byte records.
//!
//! Every on-disk structure of this format is a single sector whose fields sit
//! at fixed byte offsets.  This module gives the byte-level primitives the
//! record codecs are built from: reading a little-endian integer at an
//! offset, and appending integers or raw byte runs while a record is being
//! encoded.

use vstd::prelude::*;
use vstd::bytes::spec_u32_from_le_bytes;
use vstd::bytes::spec_u32_to_le_bytes;
use vstd::bytes::spec_u64_from_le_bytes;
use vstd::bytes::spec_u64_to_le_bytes;
use vstd::bytes::u32_from_le_bytes;
use vstd::bytes::u32_to_le_bytes;
use vstd::bytes::u64_from_le_bytes;
use vstd::bytes::u64_to_le_bytes;
use vstd::slice::slice_subrange;

verus! {

/// The 64-bit little-endian integer stored at byte offset `off` of `s`.
pub open spec fn le64_at(s: Seq<u8>, off: int) -> u64 {
    spec_u64_from_le_bytes(s.subrange(off, off + 8))
}

/// The 32-bit little-endian integer stored at byte offset `off` of `s`.
pub open spec fn le32_at(s: Seq<u8>, off: int) -> u32 {
    spec_u32_from_le_bytes(s.subrange(off, off + 4))
}

/// Reads the 64-bit little-endian integer at byte offset `off`.
pub fn read_u64(s: &[u8], off: usize) -> (x: u64)
    requires
        off + 8 <= s@.len(),
    ensures
        x == le64_at(s@, off as int),
{
    let _len = s.len();
    u64_from_le_bytes(slice_subrange(s, off, off + 8))
}

/// Reads the 32-bit little-endian integer at byte offset `off`.
pub fn read_u32(s: &[u8], off: usize) -> (x: u32)
    requires
        off + 4 <= s@.len(),
    ensures
        x == le32_at(s@, off as int),
{
    let _len = s.len();
    u32_from_le_bytes(slice_subrange(s, off, off + 4))
}

/// Appends `x` to `out` as 8 little-endian bytes.
pub fn push_u64(out: &mut Vec<u8>, x: u64)
    ensures
        final(out)@ == old(out)@ + spec_u64_to_le_bytes(x),
        final(out)@.len() == old(out)@.len() + 8,
{
    let mut b = u64_to_le_bytes(x);
    out.append(&mut b);
    proof {
        vstd::bytes::lemma_auto_spec_u64_to_from_le_bytes();
    }
}

/// Appends `x` to `out` as 4 little-endian bytes.
pub fn push_u32(out: &mut Vec<u8>, x: u32)
    ensures
        final(out)@ == old(out)@ + spec_u32_to_le_bytes(x),
        final(out)@.len() == old(out)@.len() + 4,
{
    let mut b = u32_to_le_bytes(x);
    out.append(&mut b);
    proof {
        vstd::bytes::lemma_auto_spec_u32_to_from_le_bytes();
    }
}

/// Appends all of `src` to `out`.
pub fn push_bytes(out: &mut Vec<u8>, src: &[u8])
    ensures
        final(out)@ == old(out)@ + src@,
{
    let n = src.len();
    let mut i: usize = 0;
    while i < n
        invariant
            i <= n,
            n == src@.len(),
            out@ == old(out)@ + src@.subrange(0, i as int),
        decreases n - i,
    {
        out.push(src[i]);
        i += 1;
        proof {
            assert(out@ =~= old(out)@ + src@.subrange(0, i as int));
        }
    }
    proof {
        assert(out@ =~= old(out)@ + src@);
    }
}

/// Copies the byte range `[start, end)` of `s` into a fresh vector.
pub fn copy_range(s: &[u8], start: usize, end: usize) -> (r: Vec<u8>)
    requires
        start <= end <= s@.len(),
    ensures
        r@ == s@.subrange(start as int, end as int),
{
    let mut r: Vec<u8> = Vec::new();
    let mut i: usize = start;
    while i < end
        invariant
            start <= i <= end <= s@.len(),
            r@ == s@.subrange(start as int, i as int),
        decreases end - i,
    {
        r.push(s[i]);
        i += 1;
        proof {
            assert(r@ =~= s@.subrange(start as int, i as int));
        }
    }
    r
}

/// The little-endian bytes of `x` decode back to `x`.
pub proof fn lemma_le64_roundtrip(x: u64)
    ensures
        spec_u64_from_le_bytes(spec_u64_to_le_bytes(x)) == x,
        spec_u64_to_le_bytes(x).len() == 8,
{
    vstd::bytes::lemma_auto_spec_u64_to_from_le_bytes();
}

/// The little-endian bytes of `x` decode back to `x`.
pub proof fn lemma_le32_roundtrip(x: u32)
    ensures
        spec_u32_from_le_bytes(spec_u32_to_le_bytes(x)) == x,
        spec_u32_to_le_bytes(x).len() == 4,
{
    vstd::bytes::lemma_auto_spec_u32_to_from_le_bytes();
}

} // verus!
