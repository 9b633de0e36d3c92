//! Proof-of-work scoring. The score of a buffer is `3^z / len`, where `z` is
//! the number of trailing zero trits of the buffer's proof-of-work hash and
//! `len` its length in bytes. A buffer meets an integer target `t` exactly
//! when `3^z >= t * len`, which is how it is decided here, without division.
use vstd::prelude::*;
use crate::nonce::{overlay, with_nonce, NONCE_LEN};

verus! {

/// The number of trailing zero trits of the proof-of-work hash of `bytes`.
pub uninterp spec fn pow_zeros(bytes: Seq<u8>) -> nat;

/// Three to the power `n`.
pub open spec fn pow3(n: nat) -> nat
    decreases n,
{
    if n == 0 {
        1
    } else {
        3 * pow3((n - 1) as nat)
    }
}

/// Whether a hash with `zeros` trailing zero trits, over a buffer of `len`
/// bytes, reaches the score `target`.
pub open spec fn reaches(zeros: nat, len: nat, target: u32) -> bool {
    pow3(zeros) >= target as nat * len
}

/// Whether `buffer` with `nonce` written into its nonce field reaches `target`.
pub open spec fn meets(buffer: Seq<u8>, nonce: u64, target: u32) -> bool {
    reaches(pow_zeros(overlay(buffer, nonce)), buffer.len(), target)
}

proof fn lemma_pow3_monotonic(a: nat, b: nat)
    requires
        a <= b,
    ensures
        pow3(a) <= pow3(b),
    decreases b - a,
{
    if a < b {
        lemma_pow3_monotonic(a, (b - 1) as nat);
    }
}

/// Relies on bee_pow's `PoWScorer::hash` (Blake2b-256 of all but the last
/// eight bytes, encoded with those bytes as trits, then Curl-P) and on
/// `score::count_trailing_zeros` of that hash. The hash reads
/// `bytes.len() - 8`, so at least eight bytes are needed.
#[verifier::external_body]
fn hash_trailing_zeros(bytes: &Vec<u8>) -> (r: usize)
    requires
        bytes@.len() >= NONCE_LEN,
    ensures
        r as nat == pow_zeros(bytes@),
{
    let hash = bee_pow::score::PoWScorer::new().hash(bytes.as_slice());
    bee_pow::score::count_trailing_zeros(&hash)
}

/// Decides whether a hash with `zeros` trailing zero trits over a buffer of
/// `len` bytes has a score of at least `target`.
pub fn score_reaches(zeros: usize, len: usize, target: u32) -> (r: bool)
    ensures
        r == reaches(zeros as nat, len as nat, target),
{
    assert(target as int * len as int <= 0xffff_ffff * 0xffff_ffff_ffff_ffff) by (nonlinear_arith)
        requires
            target as int <= 0xffff_ffff,
            len as int <= 0xffff_ffff_ffff_ffff,
    ;
    let need: u128 = target as u128 * len as u128;
    let mut p: u128 = 1;
    let mut i: usize = 0;
    while i < zeros && p < need
        invariant
            i <= zeros,
            p as nat == pow3(i as nat),
            need as nat == target as nat * len as nat,
            need <= 0xffff_ffff * 0xffff_ffff_ffff_ffffu128,
        decreases zeros - i,
    {
        p = p * 3;
        i = i + 1;
    }
    if p >= need {
        proof {
            lemma_pow3_monotonic(i as nat, zeros as nat);
        }
        true
    } else {
        false
    }
}

/// Scores `buffer` with `nonce` in its nonce field and decides whether the
/// score reaches `target`.
pub fn candidate_meets(buffer: &Vec<u8>, nonce: u64, target: u32) -> (r: bool)
    requires
        buffer@.len() >= NONCE_LEN,
    ensures
        r == meets(buffer@, nonce, target),
{
    let candidate = with_nonce(buffer, nonce);
    let zeros = hash_trailing_zeros(&candidate);
    score_reaches(zeros, candidate.len(), target)
}

} // verus!
