//! Sample conversion: fixed linear gain with saturation, channel downmix,
//! and the little-endian byte framing used by the debug sink.
//!
//! The converter works on samples that have already been quantized to the
//! signed 16-bit range by the capture edge; everything from there on is
//! integer arithmetic and is verified.

use vstd::prelude::*;

verus! {

/// One PCM sample scaled by an integer gain, saturated to the signed
/// 16-bit range. Clipping is bounded: a product past either bound lands
/// exactly on that bound.
pub open spec fn sat_gain(s: int, g: int) -> int {
    if s * g > i16::MAX as int {
        i16::MAX as int
    } else if s * g < i16::MIN as int {
        i16::MIN as int
    } else {
        s * g
    }
}

/// Applies a fixed linear gain to one sample, saturating at the 16-bit
/// bounds, so the result always lies in `[i16::MIN, i16::MAX]` and equals
/// the bound whenever the exact product reaches past it.
pub fn apply_gain(s: i16, gain: i16) -> (r: i16)
    ensures
        r as int == sat_gain(s as int, gain as int),
{
    proof {
        assert((s as int) * (gain as int) <= 0x4000_0000 && (s as int) * (gain as int)
            >= -0x4000_0000) by (nonlinear_arith)
            requires
                -0x8000 <= s as int <= 0x7fff,
                -0x8000 <= gain as int <= 0x7fff,
        ;
    }
    let wide: i32 = (s as i32) * (gain as i32);
    if wide > i16::MAX as i32 {
        i16::MAX
    } else if wide < i16::MIN as i32 {
        i16::MIN
    } else {
        wide as i16
    }
}

/// Converts a whole frame: every sample gets the same saturating gain.
/// Sample order is preserved, one output sample per input sample.
pub fn convert_batch(samples: &Vec<i16>, gain: i16) -> (r: Vec<i16>)
    ensures
        r@.len() == samples@.len(),
        forall|i: int|
            0 <= i < samples@.len() ==> r@[i] as int == sat_gain(samples@[i] as int, gain as int),
{
    let mut out: Vec<i16> = Vec::new();
    let mut idx: usize = 0;
    while idx < samples.len()
        invariant
            idx <= samples@.len(),
            out@.len() == idx,
            forall|i: int|
                0 <= i < idx ==> out@[i] as int == sat_gain(samples@[i] as int, gain as int),
        decreases samples@.len() - idx,
    {
        let c = apply_gain(samples[idx], gain);
        out.push(c);
        idx = idx + 1;
    }
    out
}

/// Sum of the first `j` channel values of group `k`, when the frame
/// interleaves `ch` channels.
pub open spec fn group_sum(s: Seq<i16>, ch: int, k: int, j: int) -> int
    decreases j,
{
    if j <= 0 {
        0
    } else {
        group_sum(s, ch, k, j - 1) + s[k * ch + (j - 1)]
    }
}

/// The mono sample for group `k`: the average over the channels,
/// rounded toward zero.
pub open spec fn mono_avg(s: Seq<i16>, ch: int, k: int) -> int {
    let total = group_sum(s, ch, k, ch);
    if total >= 0 {
        total / ch
    } else {
        -((-total) / ch)
    }
}

/// Downmixes an interleaved multi-channel frame to mono by averaging
/// each group of `channels` consecutive samples; a trailing group with
/// missing channels is dropped. Every mono sample is the channel
/// average, rounded toward zero, so it always fits the 16-bit range.
pub fn downmix(frame: &Vec<i16>, channels: usize) -> (r: Vec<i16>)
    requires
        1 <= channels <= 0xffff_ffff,
    ensures
        r@.len() == frame@.len() as int / channels as int,
        forall|k: int| 0 <= k < r@.len() ==> r@[k] as int == mono_avg(frame@, channels as int, k),
{
    let groups: usize = frame.len() / channels;
    proof {
        vstd::arithmetic::div_mod::lemma_fundamental_div_mod(frame@.len() as int, channels as int);
        vstd::arithmetic::div_mod::lemma_mod_bound(frame@.len() as int, channels as int);
    }
    let mut out: Vec<i16> = Vec::new();
    let mut k: usize = 0;
    while k < groups
        invariant
            1 <= channels <= 0xffff_ffff,
            frame@.len() <= usize::MAX as int,
            groups as int == frame@.len() as int / channels as int,
            (channels as int) * (groups as int) <= frame@.len(),
            k <= groups,
            out@.len() == k,
            forall|kk: int|
                0 <= kk < k ==> out@[kk] as int == mono_avg(frame@, channels as int, kk),
        decreases groups - k,
    {
        proof {
            assert((k as int) * (channels as int) + channels as int <= (channels as int) * (
            groups as int)) by (nonlinear_arith)
                requires
                    k as int + 1 <= groups as int,
                    channels as int >= 1,
            ;
        }
        let mut sum: i64 = 0;
        let mut j: usize = 0;
        while j < channels
            invariant
                1 <= channels <= 0xffff_ffff,
                frame@.len() <= usize::MAX as int,
                j <= channels,
                (k as int) * (channels as int) + channels as int <= frame@.len(),
                sum == group_sum(frame@, channels as int, k as int, j as int),
                -0x8000 * (j as int) <= sum <= 0x7fff * (j as int),
            decreases channels - j,
        {
            let idx: usize = k * channels + j;
            sum = sum + (frame[idx] as i64);
            j = j + 1;
        }
        let avg: i16;
        if sum >= 0 {
            proof {
                vstd::arithmetic::div_mod::lemma_div_is_ordered(
                    sum as int,
                    (channels as int) * 0x7fff,
                    channels as int,
                );
                vstd::arithmetic::div_mod::lemma_div_multiples_vanish(0x7fff, channels as int);
            }
            let q: u64 = (sum as u64) / (channels as u64);
            avg = q as i16;
        } else {
            proof {
                vstd::arithmetic::div_mod::lemma_div_is_ordered(
                    -(sum as int),
                    (channels as int) * 0x8000,
                    channels as int,
                );
                vstd::arithmetic::div_mod::lemma_div_multiples_vanish(0x8000, channels as int);
            }
            let m: u64 = ((-sum) as u64) / (channels as u64);
            avg = (-(m as i64)) as i16;
        }
        out.push(avg);
        k = k + 1;
    }
    out
}

} // verus!
