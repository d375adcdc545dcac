//! Big-endian 32-bit fields and byte-range copies, the primitives the
//! container decoder is built from.

use vstd::prelude::*;

verus! {

/// The unsigned value of four bytes read in big-endian order.
pub open spec fn be_u32_of(b0: u8, b1: u8, b2: u8, b3: u8) -> u32 {
    ((b0 as u32) << 24) | ((b1 as u32) << 16) | ((b2 as u32) << 8) | (b3 as u32)
}

/// The big-endian 32-bit field of `b` that starts at offset `i`.
pub open spec fn be_u32_at(b: Seq<u8>, i: int) -> u32
    recommends
        0 <= i,
        i + 4 <= b.len(),
{
    be_u32_of(b[i], b[i + 1], b[i + 2], b[i + 3])
}

/// The four bytes that encode `v` in big-endian order.
pub open spec fn be_bytes_of(v: u32) -> Seq<u8> {
    seq![(v >> 24) as u8, ((v >> 16) & 0xff) as u8, ((v >> 8) & 0xff) as u8, (v & 0xff) as u8]
}

/// Reading back the four bytes that encode a value yields that value.
pub proof fn lemma_be_round_trip(v: u32)
    ensures
        be_u32_of(
            be_bytes_of(v)[0],
            be_bytes_of(v)[1],
            be_bytes_of(v)[2],
            be_bytes_of(v)[3],
        ) == v,
{
    assert((((v >> 24) as u8 as u32) << 24) | ((((v >> 16) & 0xff) as u8 as u32) << 16)
        | ((((v >> 8) & 0xff) as u8 as u32) << 8) | ((v & 0xff) as u8 as u32) == v)
        by (bit_vector);
}

/// Reads the big-endian 32-bit field of `data` that starts at offset `off`.
pub fn read_be_u32(data: &Vec<u8>, off: usize) -> (r: u32)
    requires
        off + 4 <= data@.len(),
    ensures
        r == be_u32_at(data@, off as int),
{
    let _len = data.len();
    ((data[off] as u32) << 24) | ((data[off + 1] as u32) << 16) | ((data[off + 2] as u32) << 8)
        | (data[off + 3] as u32)
}

/// Copies the `len` bytes of `v` that start at `start` into a fresh vector.
pub fn copy_range(v: &Vec<u8>, start: usize, len: usize) -> (r: Vec<u8>)
    requires
        start + len <= v@.len(),
    ensures
        r@ == v@.subrange(start as int, start as int + len as int),
{
    let n = v.len();
    let mut out: Vec<u8> = Vec::new();
    let mut i: usize = 0;
    while i < len
        invariant
            i <= len,
            start + len <= n == v@.len(),
            out@ == v@.subrange(start as int, start as int + i as int),
        decreases len - i,
    {
        out.push(v[start + i]);
        proof {
            assert(v@.subrange(start as int, start as int + i as int + 1) =~= v@.subrange(
                start as int,
                start as int + i as int,
            ).push(v@[start as int + i as int]));
        }
        i += 1;
    }
    out
}

} // verus!
