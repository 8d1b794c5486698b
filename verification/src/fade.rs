//! The fade state machine: linear volume ramps advanced once per output
//! frame, as the mixing pass walks the active sounds.

use vstd::prelude::*;

verus! {

/// The fade mode of a playing sound. The payload is the ramp: the number of
/// frame advances between two one-unit volume steps.
#[derive(Clone, Copy, PartialEq, Eq, Structural, Debug)]
pub enum SoundFade {
    NoFade,
    FadeIn(u32),
    FadeOut(u32),
}

/// The part of a sound's state that the fade machine reads and writes:
/// the fade mode, the frames elapsed since the last volume step, the
/// current volume, and the liveness flag.
#[derive(Clone, Copy, PartialEq, Eq, Structural, Debug)]
pub struct FadeState {
    pub fade: SoundFade,
    pub counter: u32,
    pub volume: u8,
    pub destroyed: bool,
}

impl FadeState {
    /// The counter never sits at or above a nonzero ramp between steps, so
    /// advancing it by one cannot overflow.
    pub open spec fn wf(self) -> bool {
        match self.fade {
            SoundFade::NoFade => true,
            SoundFade::FadeIn(ramp) => self.counter == 0 || self.counter < ramp,
            SoundFade::FadeOut(ramp) => self.counter == 0 || self.counter < ramp,
        }
    }
}

/// One advance of the fade machine, taken once per output frame while the
/// sound is live. A fade-in step raises the volume by one each time the
/// counter fills the ramp, and falls back to `NoFade` once the volume has
/// been full for a whole ramp. A fade-out step lowers the volume the same
/// way and destroys the sound once it has sat at zero for a whole ramp.
pub open spec fn fade_step_spec(s: FadeState) -> FadeState {
    match s.fade {
        SoundFade::NoFade => s,
        SoundFade::FadeIn(ramp) => if s.counter + 1 >= ramp {
            if s.volume == 255 {
                FadeState { fade: SoundFade::NoFade, counter: 0, ..s }
            } else {
                FadeState { counter: 0, volume: (s.volume + 1) as u8, ..s }
            }
        } else {
            FadeState { counter: (s.counter + 1) as u32, ..s }
        },
        SoundFade::FadeOut(ramp) => if s.counter + 1 >= ramp {
            if s.volume == 0 {
                FadeState { fade: SoundFade::NoFade, counter: 0, destroyed: true, ..s }
            } else {
                FadeState { counter: 0, volume: (s.volume - 1) as u8, ..s }
            }
        } else {
            FadeState { counter: (s.counter + 1) as u32, ..s }
        },
    }
}

/// `n` advances of the fade machine.
pub open spec fn fade_iter(s: FadeState, n: nat) -> FadeState
    decreases n,
{
    if n == 0 {
        s
    } else {
        fade_step_spec(fade_iter(s, (n - 1) as nat))
    }
}

/// One advance keeps the state well formed.
pub proof fn lemma_fade_step_wf(s: FadeState)
    requires
        s.wf(),
    ensures
        fade_step_spec(s).wf(),
{
}

/// A fade-out step never raises the volume, a fade-in step never lowers it,
/// and a fade can only keep its mode or settle into `NoFade`, which is a
/// fixed point.
pub proof fn lemma_fade_step_monotone(s: FadeState)
    ensures
        s.fade is FadeOut ==> fade_step_spec(s).volume <= s.volume && (fade_step_spec(s).fade
            == s.fade || fade_step_spec(s).fade == SoundFade::NoFade),
        s.fade is FadeIn ==> fade_step_spec(s).volume >= s.volume && (fade_step_spec(s).fade
            == s.fade || fade_step_spec(s).fade == SoundFade::NoFade),
        s.fade is NoFade ==> fade_step_spec(s) == s,
{
}

/// Any number of advances keeps the state well formed.
pub proof fn lemma_fade_iter_wf(s: FadeState, n: nat)
    requires
        s.wf(),
    ensures
        fade_iter(s, n).wf(),
    decreases n,
{
    if n > 0 {
        lemma_fade_iter_wf(s, (n - 1) as nat);
        lemma_fade_step_wf(fade_iter(s, (n - 1) as nat));
    }
}

/// The state a `play_fade_in` registration starts from: silent, counter at
/// zero, fading in with the given ramp.
pub open spec fn fade_in_start(ramp: u32) -> FadeState {
    FadeState { fade: SoundFade::FadeIn(ramp), counter: 0, volume: 0, destroyed: false }
}

/// The state a `fade_out` call puts a sound of volume `volume` into.
pub open spec fn fade_out_start(ramp: u32, volume: u8) -> FadeState {
    FadeState { fade: SoundFade::FadeOut(ramp), counter: 0, volume, destroyed: false }
}

/// The exact shape of a fade-in after `n` frames, for `n` up to the frame on
/// which full volume is reached: the machine is still fading in, the sound
/// is alive, and `n == volume * ramp + counter` with `counter < ramp` — so
/// the volume after `n` frames is exactly `n / ramp`.
pub proof fn lemma_fade_in_shape(ramp: u32, n: nat)
    requires
        1 <= ramp,
        n <= 255 * ramp,
    ensures
        ({
            let s = fade_iter(fade_in_start(ramp), n);
            s.fade == SoundFade::FadeIn(ramp) && !s.destroyed && s.volume <= 255 && s.counter
                < ramp && n == (s.volume as int) * (ramp as int) + s.counter
        }),
    decreases n,
{
    if n > 0 {
        lemma_fade_in_shape(ramp, (n - 1) as nat);
        let s = fade_iter(fade_in_start(ramp), (n - 1) as nat);
        let v = s.volume as int;
        let r = ramp as int;
        let c = s.counter as int;
        if c + 1 >= r {
            assert(v < 255) by (nonlinear_arith)
                requires
                    n - 1 == v * r + c,
                    c == r - 1,
                    n <= 255 * r,
                    1 <= r,
                    0 <= v <= 255,
            ;
            assert(n == (v + 1) * r) by (nonlinear_arith)
                requires
                    n - 1 == v * r + c,
                    c == r - 1,
            ;
        }
    }
}

/// Law: a fade-in from volume 0 with ramp `ramp` is at full volume first
/// after exactly `255 * ramp` elapsed frames, and on the way there the
/// volume never decreases.
pub proof fn lemma_fade_in_reaches_full(ramp: u32, n: nat)
    requires
        1 <= ramp,
        n <= 255 * ramp,
    ensures
        fade_iter(fade_in_start(ramp), n).volume == 255 <==> n == 255 * ramp,
        !fade_iter(fade_in_start(ramp), n).destroyed,
        fade_iter(fade_in_start(ramp), n).volume <= fade_iter(fade_in_start(ramp), (n + 1) as nat).volume,
{
    lemma_fade_in_shape(ramp, n);
    let s = fade_iter(fade_in_start(ramp), n);
    let v = s.volume as int;
    let r = ramp as int;
    let c = s.counter as int;
    if n == 255 * ramp {
        assert(v == 255) by (nonlinear_arith)
            requires
                n == v * r + c,
                0 <= c < r,
                n == 255 * r,
                0 <= v <= 255,
        ;
    }
    if v == 255 {
        assert(n == 255 * r + c);
        assert(c == 0);
    }
    lemma_fade_step_monotone(s);
    assert(fade_iter(fade_in_start(ramp), (n + 1) as nat) == fade_step_spec(s));
}

/// The exact shape of a fade-out from volume `v0` after `n` frames. Before
/// frame `(v0 + 1) * ramp` the sound is alive and still fading, with
/// `n == (v0 - volume) * ramp + counter` — the volume after `n` frames is
/// `v0 - n / ramp` until it bottoms out at zero on frame `v0 * ramp`. On
/// frame `(v0 + 1) * ramp`, one whole ramp after the volume reached zero,
/// the machine destroys the sound.
pub proof fn lemma_fade_out_shape(ramp: u32, v0: u8, n: nat)
    requires
        1 <= ramp,
        n <= ((v0 as int) + 1) * (ramp as int),
    ensures
        ({
            let s = fade_iter(fade_out_start(ramp, v0), n);
            if n < ((v0 as int) + 1) * (ramp as int) {
                s.fade == SoundFade::FadeOut(ramp) && !s.destroyed && s.volume <= v0 && s.counter
                    < ramp && n == ((v0 as int) - (s.volume as int)) * (ramp as int) + s.counter
            } else {
                s.destroyed && s.volume == 0 && s.fade == SoundFade::NoFade && s.counter == 0
            }
        }),
    decreases n,
{
    let r = ramp as int;
    let v0i = v0 as int;
    if n > 0 {
        lemma_fade_out_shape(ramp, v0, (n - 1) as nat);
        let s = fade_iter(fade_out_start(ramp, v0), (n - 1) as nat);
        let v = s.volume as int;
        let c = s.counter as int;
        assert(n - 1 < (v0i + 1) * r);
        if c + 1 >= r {
            if v == 0 {
                assert(n == (v0i + 1) * r) by (nonlinear_arith)
                    requires
                        n - 1 == (v0i - v) * r + c,
                        c == r - 1,
                        v == 0,
                ;
            } else {
                assert(n == (v0i - (v - 1)) * r) by (nonlinear_arith)
                    requires
                        n - 1 == (v0i - v) * r + c,
                        c == r - 1,
                ;
                assert(n < (v0i + 1) * r) by (nonlinear_arith)
                    requires
                        n == (v0i - (v - 1)) * r,
                        1 <= v <= v0i,
                        1 <= r,
                ;
            }
        } else {
            assert(n < (v0i + 1) * r) by (nonlinear_arith)
                requires
                    n - 1 == (v0i - v) * r + c,
                    c + 1 < r,
                    0 <= v <= v0i,
                    1 <= r,
            ;
        }
    } else {
        assert(0 < (v0i + 1) * r) by (nonlinear_arith)
            requires
                1 <= r,
                0 <= v0i,
        ;
    }
}

/// Law: a fade-out from volume `v0` with ramp `ramp` has reached volume 0
/// exactly from frame `v0 * ramp` on, never raises the volume on the way,
/// and destroys the sound exactly on frame `(v0 + 1) * ramp`: one more
/// whole ramp elapses at volume zero before the machine retires it. A
/// destroyed sound contributes no audio and is pruned by the next pass.
pub proof fn lemma_fade_out_completes(ramp: u32, v0: u8, n: nat)
    requires
        1 <= ramp,
        n <= ((v0 as int) + 1) * (ramp as int),
    ensures
        (fade_iter(fade_out_start(ramp, v0), n).volume == 0) <==> n >= (v0 as int) * (ramp as int),
        fade_iter(fade_out_start(ramp, v0), n).destroyed <==> n == ((v0 as int) + 1) * (
        ramp as int),
        n < ((v0 as int) + 1) * (ramp as int) ==> fade_iter(fade_out_start(ramp, v0), n).volume
            >= fade_iter(fade_out_start(ramp, v0), (n + 1) as nat).volume,
{
    let r = ramp as int;
    let v0i = v0 as int;
    lemma_fade_out_shape(ramp, v0, n);
    let s = fade_iter(fade_out_start(ramp, v0), n);
    let v = s.volume as int;
    let c = s.counter as int;
    if n < (v0i + 1) * r {
        if v == 0 {
            assert(n >= v0i * r) by (nonlinear_arith)
                requires
                    n == (v0i - v) * r + c,
                    v == 0,
                    0 <= c,
            ;
        }
        if n >= v0i * r {
            assert(v == 0) by (nonlinear_arith)
                requires
                    n == (v0i - v) * r + c,
                    0 <= c < r,
                    n >= v0i * r,
                    0 <= v <= v0i,
            ;
        }
        lemma_fade_step_monotone(s);
        assert(fade_iter(fade_out_start(ramp, v0), (n + 1) as nat) == fade_step_spec(s));
    } else {
        assert(v0i * r < (v0i + 1) * r) by (nonlinear_arith)
            requires
                1 <= r,
        ;
    }
}

} // verus!
