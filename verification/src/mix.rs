//! The per-sample mixing arithmetic: gain and pan factors, sample scaling,
//! and saturating accumulation into the 16-bit output.
//!
//! All division here truncates toward zero, as the hardware integer division
//! does; `trunc_div` states that meaning for the contracts. A scaled sample
//! that leaves the 16-bit range is clamped to it rather than wrapped, and the
//! accumulators saturate, so no output value ever wraps.

use vstd::prelude::*;

verus! {

/// Division truncating toward zero (what `/` does in executable code),
/// stated over mathematical integers. Meaningful for `d > 0`.
pub open spec fn trunc_div(x: int, d: int) -> int {
    if x >= 0 {
        x / d
    } else {
        -((-x) / d)
    }
}

/// Clamp an integer into the signed 16-bit range.
pub open spec fn clamp_i16(x: int) -> i16 {
    if x > i16::MAX {
        i16::MAX
    } else if x < i16::MIN {
        i16::MIN
    } else {
        x as i16
    }
}

/// The gain applied to the left channel: `volume * max(pan, 128) / 128`.
/// At most `255 * 255 / 128 == 508`.
pub open spec fn spec_left_gain(volume: u8, pan: u8) -> int {
    (volume as int) * (if pan >= 128 { pan as int } else { 128 }) / 128
}

/// The gain applied to the right channel: `volume * (255 - min(pan, 128)) / 127`.
/// At most `255 * 255 / 127 == 512`. The two divisors differ by design; the
/// asymmetry is part of the panning law and is kept exactly.
pub open spec fn spec_right_gain(volume: u8, pan: u8) -> int {
    (volume as int) * (255 - (if pan <= 128 { pan as int } else { 128 })) / 127
}

/// A raw sample scaled by a gain factor: `raw * gain / 255`, truncating,
/// then clamped into the 16-bit range.
pub open spec fn spec_scale(raw: i16, gain: int) -> i16 {
    clamp_i16(trunc_div(raw as int * gain, 255))
}

/// One raw stereo pair scaled by the gains that a volume and pan position
/// yield.
pub open spec fn spec_mix_pair(raw: (i16, i16), volume: u8, pan: u8) -> (i16, i16) {
    (
        spec_scale(raw.0, spec_left_gain(volume, pan)),
        spec_scale(raw.1, spec_right_gain(volume, pan)),
    )
}

/// Saturating addition of two 16-bit samples.
pub open spec fn spec_sat_add(a: i16, b: i16) -> i16 {
    clamp_i16(a as int + b as int)
}

pub fn left_gain(volume: u8, pan: u8) -> (g: u32)
    ensures
        g as int == spec_left_gain(volume, pan),
        g <= 508,
{
    let p: u32 = if pan >= 128 {
        pan as u32
    } else {
        128
    };
    proof {
        vstd::arithmetic::mul::lemma_mul_upper_bound(volume as int, 255, p as int, 255);
        vstd::arithmetic::div_mod::lemma_div_is_ordered(
            (volume as int) * (p as int),
            65025,
            128,
        );
    }
    (volume as u32) * p / 128
}

pub fn right_gain(volume: u8, pan: u8) -> (g: u32)
    ensures
        g as int == spec_right_gain(volume, pan),
        g <= 512,
{
    let p: u32 = if pan <= 128 {
        pan as u32
    } else {
        128
    };
    proof {
        vstd::arithmetic::mul::lemma_mul_upper_bound(volume as int, 255, 255 - p as int, 255);
        vstd::arithmetic::div_mod::lemma_div_is_ordered(
            (volume as int) * (255 - p as int),
            65025,
            127,
        );
    }
    (volume as u32) * (255 - p) / 127
}

pub fn scale_sample(raw: i16, gain: u32) -> (r: i16)
    requires
        gain <= 512,
    ensures
        r == spec_scale(raw, gain as int),
{
    proof {
        assert((raw as int) * (gain as int) <= 32767 * 512 && (raw as int) * (gain as int)
            >= -32768 * 512) by (nonlinear_arith)
            requires
                -32768 <= raw as int <= 32767,
                0 <= gain as int <= 512,
        ;
    }
    let wide: i32 = (raw as i32) * (gain as i32);
    proof {
        if wide >= 0 {
            vstd::arithmetic::div_mod::lemma_div_pos_is_pos(wide as int, 255);
            vstd::arithmetic::div_mod::lemma_div_nonincreasing(wide as int, 255);
        } else {
            vstd::arithmetic::div_mod::lemma_div_pos_is_pos(-(wide as int), 255);
            vstd::arithmetic::div_mod::lemma_div_nonincreasing(-(wide as int), 255);
        }
    }
    let q: i32 = match wide.checked_div(255) {
        Some(v) => v,
        None => 0,
    };
    proof {
        assert(wide.checked_div(255) is Some);
        assert(q as int == trunc_div(wide as int, 255));
    }
    if q > 32767 {
        32767
    } else if q < -32768 {
        -32768
    } else {
        q as i16
    }
}

/// Saturation law: an accumulated sample is always in the signed 16-bit
/// range; a sum inside the range is kept exactly, and one outside it is
/// pinned to the nearer bound — it never wraps.
pub proof fn lemma_saturation(a: i16, b: i16)
    ensures
        -32768 <= spec_sat_add(a, b) as int <= 32767,
        (-32768 <= (a as int) + (b as int) <= 32767) ==> spec_sat_add(a, b) as int == (a as int)
            + (b as int),
        ((a as int) + (b as int) > 32767) ==> spec_sat_add(a, b) == 32767i16,
        ((a as int) + (b as int) < -32768) ==> spec_sat_add(a, b) == (-32768i16),
{
}

/// The gains that the `play` defaults (volume 255, pan 255) put on the two
/// channels: 508 on the left and 255 on the right. Scaling by 255 is exact
/// unity, so the right channel reproduces the source's raw samples; the
/// left channel is amplified by 508/255 and clamped. The stereo image of
/// the default pan is therefore not centered; that is the panning law's
/// intended shape.
pub proof fn lemma_play_default_gains(raw: i16)
    ensures
        spec_left_gain(255, 255) == 508,
        spec_right_gain(255, 255) == 255,
        spec_scale(raw, 255) == raw,
{
    if raw >= 0 {
        vstd::arithmetic::div_mod::lemma_div_by_multiple(raw as int, 255);
        assert((raw as int) * 255 == 255 * (raw as int));
    } else {
        vstd::arithmetic::div_mod::lemma_div_by_multiple(-(raw as int), 255);
        assert(-((raw as int) * 255) == 255 * (-(raw as int)));
    }
}

/// A sound panned full left (pan 0) at volume 255 gets gain 255 on the left
/// channel and 512 on the right: the right gain formula exceeds the unity
/// factor before clamping. A sample scaled by 512 that leaves the 16-bit
/// range is clamped to the nearer bound, not wrapped.
pub proof fn lemma_full_left_gains()
    ensures
        spec_left_gain(255, 0) == 255,
        spec_right_gain(255, 0) == 512,
        spec_scale(1000i16, 512) == 2007,
        spec_scale(32767i16, 512) == 32767,
        spec_scale(-32768i16, 512) == (-32768i16),
{
}

pub fn sat_add(a: i16, b: i16) -> (r: i16)
    ensures
        r == spec_sat_add(a, b),
{
    let s: i32 = (a as i32) + (b as i32);
    if s > 32767 {
        32767
    } else if s < -32768 {
        -32768
    } else {
        s as i16
    }
}

} // verus!
