//! The nonce field: its byte encoding, how it is written into a buffer, and
//! how it is split into two 32-bit halves for callers without 64-bit integers.
use vstd::prelude::*;

verus! {

/// Number of bytes of the nonce field at the end of a buffer.
pub const NONCE_LEN: usize = 8;

/// Byte `j` (0 = least significant) of the little-endian encoding of `n`.
pub open spec fn le_byte(n: u64, j: nat) -> u8 {
    ((n >> ((8 * j) as u64)) & 0xffu64) as u8
}

/// `buffer` with its last eight bytes replaced by the little-endian bytes of `n`.
pub open spec fn overlay(buffer: Seq<u8>, n: u64) -> Seq<u8> {
    Seq::new(
        buffer.len(),
        |i: int|
            if i < buffer.len() - NONCE_LEN {
                buffer[i]
            } else {
                le_byte(n, (i - (buffer.len() - NONCE_LEN)) as nat)
            },
    )
}

/// Copies `buffer` and writes `nonce` little-endian into its last eight bytes;
/// the caller's buffer is left as it is.
pub fn with_nonce(buffer: &Vec<u8>, nonce: u64) -> (r: Vec<u8>)
    requires
        buffer@.len() >= NONCE_LEN,
    ensures
        r@ == overlay(buffer@, nonce),
{
    let head = buffer.len() - NONCE_LEN;
    let mut r: Vec<u8> = Vec::with_capacity(buffer.len());
    let mut i: usize = 0;
    while i < head
        invariant
            head == buffer@.len() - NONCE_LEN,
            i <= head,
            r@.len() == i,
            forall|k: int| 0 <= k < i ==> r@[k] == overlay(buffer@, nonce)[k],
        decreases head - i,
    {
        r.push(buffer[i]);
        i = i + 1;
    }
    let mut j: usize = 0;
    while j < NONCE_LEN
        invariant
            head == buffer@.len() - NONCE_LEN,
            j <= NONCE_LEN,
            r@.len() == head + j,
            forall|k: int| 0 <= k < head + j ==> r@[k] == overlay(buffer@, nonce)[k],
        decreases NONCE_LEN - j,
    {
        let b: u8 = ((nonce >> ((8 * j) as u64)) & 0xffu64) as u8;
        r.push(b);
        j = j + 1;
    }
    assert(r@ =~= overlay(buffer@, nonce));
    r
}

/// Splits a nonce into its low and high 32-bit halves.
pub fn nonce_halves(nonce: u64) -> (r: (u32, u32))
    ensures
        r.0 as int + r.1 as int * 0x1_0000_0000 == nonce as int,
{
    let lo64: u64 = nonce & 0xffff_ffffu64;
    let hi64: u64 = nonce >> 32u64;
    assert(nonce & 0xffff_ffffu64 <= 0xffff_ffffu64) by (bit_vector);
    assert(nonce >> 32u64 <= 0xffff_ffffu64) by (bit_vector);
    let lo: u32 = lo64 as u32;
    let hi: u32 = hi64 as u32;
    assert(((nonce & 0xffff_ffffu64) as int) + ((nonce >> 32u64) as int) * 0x1_0000_0000
        == nonce as int) by (bit_vector);
    (lo, hi)
}

/// Joins a low and a high 32-bit half into the nonce they stand for.
pub fn nonce_from_halves(lo: u32, hi: u32) -> (r: u64)
    ensures
        r as int == lo as int + hi as int * 0x1_0000_0000,
{
    let r: u64 = (lo as u64) | ((hi as u64) << 32u64);
    assert(((lo as u64) | ((hi as u64) << 32u64)) as int == lo as int + hi as int
        * 0x1_0000_0000) by (bit_vector);
    r
}

} // verus!
