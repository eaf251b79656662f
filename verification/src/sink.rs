//! Debug sink framing: the little-endian 16-bit encoding of captured PCM.
//!
//! The sink itself is a buffered file owned by the shell and must never
//! touch the realtime path; what is verified here is the framing — each
//! sample becomes exactly two bytes, low byte first, so the file is the
//! byte-identical concatenation of the delivered batches.

use vstd::prelude::*;

verus! {

/// The two's-complement 16-bit word of a sample, as an integer in
/// `[0, 65536)`: non-negative samples are themselves, negative samples
/// are shifted up by `65536`.
pub open spec fn le_word(s: i16) -> int {
    if s >= 0 {
        s as int
    } else {
        s as int + 0x10000
    }
}

/// Encodes a batch as interleaved little-endian signed 16-bit PCM: two
/// bytes per sample, low byte first, samples in order.
pub fn pcm_to_le_bytes(samples: &Vec<i16>) -> (r: Vec<u8>)
    ensures
        r@.len() == 2 * samples@.len(),
        forall|i: int|
            0 <= i < samples@.len() ==> (r@[2 * i] as int) + 0x100 * (r@[2 * i + 1] as int)
                == le_word(samples@[i]),
{
    let mut r: Vec<u8> = Vec::new();
    let mut idx: usize = 0;
    while idx < samples.len()
        invariant
            idx <= samples@.len(),
            r@.len() == 2 * idx,
            forall|i: int|
                0 <= i < idx ==> (r@[2 * i] as int) + 0x100 * (r@[2 * i + 1] as int) == le_word(
                    samples@[i],
                ),
        decreases samples@.len() - idx,
    {
        let s = samples[idx];
        let w: u16 = if s >= 0 {
            s as u16
        } else {
            ((s as i32) + 0x10000) as u16
        };
        let b0: u8 = (w % 0x100) as u8;
        let b1: u8 = (w / 0x100) as u8;
        proof {
            vstd::arithmetic::div_mod::lemma_fundamental_div_mod(w as int, 0x100);
        }
        r.push(b0);
        r.push(b1);
        idx = idx + 1;
    }
    r
}

} // verus!
