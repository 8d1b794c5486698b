//! One playing sound: a decodable source plus its playback parameters, and
//! the per-frame work the mixing pass does on it.

use vstd::prelude::*;
use crate::fade::{FadeState, SoundFade, fade_iter, fade_step_spec};
use crate::mix::{left_gain, right_gain, sat_add, scale_sample, spec_mix_pair, spec_sat_add};

verus! {

/// A source of stereo sample pairs. `next_sample` must never fail:
/// exhaustion is reported through `done`, and an exhausted source keeps
/// returning silence. `spec_pending` is the abstract stream the source
/// still holds and `spec_done` its exhaustion flag; both executable
/// methods answer to them.
pub trait AudioSource: Sized {
    /// The stereo pairs this source will still yield, in order, before it
    /// turns to permanent silence.
    spec fn spec_pending(&self) -> Seq<(i16, i16)>;

    spec fn spec_done(&self) -> bool;

    /// Produce the next stereo sample pair: the head of `spec_pending`
    /// while pairs remain, then silence, the first silent pull marking the
    /// source exhausted. Once exhausted it stays exhausted, keeps its
    /// stream, and yields silence.
    fn next_sample(&mut self) -> (r: (i16, i16))
        ensures
            old(self).spec_done() ==> final(self).spec_done() && r == (0i16, 0i16)
                && final(self).spec_pending() == old(self).spec_pending(),
            !old(self).spec_done() && old(self).spec_pending().len() > 0
                ==> r == old(self).spec_pending()[0]
                && final(self).spec_pending() == old(self).spec_pending().skip(1)
                && !final(self).spec_done(),
            !old(self).spec_done() && old(self).spec_pending().len() == 0
                ==> final(self).spec_done() && r == (0i16, 0i16),
    ;

    /// Report whether the source is exhausted.
    fn done(&self) -> (r: bool)
        ensures
            r == self.spec_done(),
    ;
}

/// What one pull of a source with stream `pending` yields: the head while
/// pairs remain, silence after.
pub open spec fn source_head(pending: Seq<(i16, i16)>) -> (i16, i16) {
    if pending.len() > 0 {
        pending[0]
    } else {
        (0i16, 0i16)
    }
}

/// Both entries of output frame `i` received the contribution `c` by
/// saturating addition.
pub open spec fn frame_mixed(out0: Seq<i16>, out1: Seq<i16>, i: int, c: (i16, i16)) -> bool {
    &&& out1[2 * i] == spec_sat_add(out0[2 * i], c.0)
    &&& out1[2 * i + 1] == spec_sat_add(out0[2 * i + 1], c.1)
}

/// The contribution of frame `i` of a pass over `pre`: the raw pair the
/// source yielded on that frame, scaled by the gains of the volume the fade
/// machine had just stepped to and of the pan position.
pub open spec fn pass_contribution<S>(pre: Sound<S>, raws: Seq<(i16, i16)>, i: int) -> (i16, i16) {
    spec_mix_pair(raws[i], fade_iter(pre.fade_state(), (i + 1) as nat).volume, pre.pan)
}

/// The exact effect of one `frames`-frame mixing pass on one sound and on
/// the buffer. `raws` is the sequence of raw pairs the sound's source
/// yielded, one per frame on which it was sampled: the source's pending
/// stream served in order, then silence once it ran out. A record found
/// destroyed, or whose source is already exhausted, is sampled on no frame
/// at all. Sampling runs over an unbroken prefix of the pass: it stops
/// only when the pass ends, when the fade machine destroys the sound, or
/// when the source turns out exhausted — which can happen only once its
/// stream was fully served, and merely freezes the fade state and marks
/// the sound destroyed. While sampling runs, the fade machine advances
/// once per frame, and frame `i` adds `pass_contribution` of `raws[i]` to
/// the two buffer entries of frame `i` with saturating addition. Every
/// buffer entry past the sampled prefix is untouched.
pub open spec fn sound_pass<S: AudioSource>(
    pre: Sound<S>,
    post: Sound<S>,
    out0: Seq<i16>,
    out1: Seq<i16>,
    frames: int,
    raws: Seq<(i16, i16)>,
) -> bool {
    let fs0 = pre.fade_state();
    let p0 = pre.source.spec_pending();
    let m = raws.len() as int;
    &&& 0 <= m <= frames
    &&& post.id == pre.id
    &&& post.pan == pre.pan
    &&& pre.destroyed ==> m == 0
    &&& !pre.destroyed && pre.source.spec_done() ==> m == 0
    &&& forall|i: int|
        0 <= i < m ==> (#[trigger] raws[i]) == (if i < p0.len() {
            p0[i]
        } else {
            (0i16, 0i16)
        })
    &&& !pre.destroyed && !pre.source.spec_done() ==> m <= p0.len() + 1 && (m <= p0.len()
        ==> post.source.spec_pending() == p0.skip(m) && !post.source.spec_done()) && (m == p0.len()
        + 1 ==> post.source.spec_done())
    &&& ((post.fade_state() == fade_iter(fs0, raws.len()) && (m == frames || fade_iter(
        fs0,
        raws.len(),
    ).destroyed)) || (post.fade_state() == (FadeState {
        destroyed: true,
        ..fade_iter(fs0, raws.len())
    }) && !fade_iter(fs0, raws.len()).destroyed && m < frames && post.source.spec_done()))
    &&& m == 0 ==> post.source == pre.source
    &&& out1.len() == out0.len()
    &&& forall|i: int|
        0 <= i < m ==> #[trigger] frame_mixed(out0, out1, i, pass_contribution(pre, raws, i))
    &&& forall|k: int| 2 * m <= k < out0.len() ==> out1[k] == out0[k]
}

/// The pass happened for some sampled-prefix length: what `mix_into` owes
/// for every sound. The raw pairs themselves are pinned to the source's
/// pending stream; only where sampling stopped remains quantified.
pub open spec fn sound_pass_exists<S: AudioSource>(
    pre: Sound<S>,
    post: Sound<S>,
    out0: Seq<i16>,
    out1: Seq<i16>,
    frames: int,
) -> bool {
    exists|raws: Seq<(i16, i16)>| #[trigger] sound_pass(pre, post, out0, out1, frames, raws)
}

/// One playing instance: an owned source plus volume, pan, fade state and
/// the liveness flag. `id` is the stable handle under which the mixer's
/// callers address this sound.
pub struct Sound<S> {
    pub source: S,
    pub id: u64,
    pub volume: u8,
    pub pan: u8,
    pub fade: SoundFade,
    pub fade_sample: u32,
    pub destroyed: bool,
}

impl<S> Sound<S> {
    /// The fields the fade machine works on, as one value.
    pub open spec fn fade_state(&self) -> FadeState {
        FadeState {
            fade: self.fade,
            counter: self.fade_sample,
            volume: self.volume,
            destroyed: self.destroyed,
        }
    }

    pub open spec fn wf(&self) -> bool {
        self.fade_state().wf()
    }

    /// Runtime check of the well-formedness invariant, for callers outside
    /// verified code.
    pub fn wf_check(&self) -> (b: bool)
        ensures
            b == self.wf(),
    {
        match self.fade {
            SoundFade::NoFade => true,
            SoundFade::FadeIn(ramp) => self.fade_sample == 0 || self.fade_sample < ramp,
            SoundFade::FadeOut(ramp) => self.fade_sample == 0 || self.fade_sample < ramp,
        }
    }

    /// Begin a linear fade towards silence: one volume unit down every
    /// `ramp_samples` frames, starting from the current volume. The sound is
    /// destroyed once the ramp completes at volume zero.
    pub fn fade_out(&mut self, ramp_samples: u32)
        ensures
            *final(self) == (Sound { fade: SoundFade::FadeOut(ramp_samples), fade_sample: 0, ..*old(self) }),
            final(self).wf(),
    {
        self.fade = SoundFade::FadeOut(ramp_samples);
        self.fade_sample = 0;
    }

    /// Mark the sound for removal. It stops contributing audio and is pruned
    /// by the next mixing pass.
    pub fn destroy(&mut self)
        ensures
            *final(self) == (Sound { destroyed: true, ..*old(self) }),
    {
        self.destroyed = true;
    }

    /// Advance the fade machine by one frame.
    pub fn fade_step(&mut self)
        requires
            old(self).wf(),
        ensures
            final(self).wf(),
            final(self).fade_state() == fade_step_spec(old(self).fade_state()),
            final(self).source == old(self).source,
            final(self).id == old(self).id,
            final(self).pan == old(self).pan,
    {
        match self.fade {
            SoundFade::NoFade => {},
            SoundFade::FadeIn(ramp) => {
                self.fade_sample = self.fade_sample + 1;
                if self.fade_sample >= ramp {
                    if self.volume == 255 {
                        self.fade = SoundFade::NoFade;
                    } else {
                        self.volume = self.volume + 1;
                    }
                    self.fade_sample = 0;
                }
            },
            SoundFade::FadeOut(ramp) => {
                self.fade_sample = self.fade_sample + 1;
                if self.fade_sample >= ramp {
                    if self.volume == 0 {
                        self.destroyed = true;
                        self.fade = SoundFade::NoFade;
                    } else {
                        self.volume = self.volume - 1;
                    }
                    self.fade_sample = 0;
                }
            },
        }
    }
}

impl<S: AudioSource> Sound<S> {
    /// The whole per-frame work on one sound: skip it if destroyed, destroy
    /// it if its source is exhausted, otherwise advance the fade machine,
    /// pull one raw pair and scale it by the gains of the stepped volume and
    /// the pan position. Returns this sound's contribution to the frame.
    pub fn frame_step(&mut self) -> (r: (i16, i16))
        requires
            old(self).wf(),
        ensures
            final(self).wf(),
            final(self).id == old(self).id,
            final(self).pan == old(self).pan,
            old(self).destroyed ==> *final(self) == *old(self) && r == (0i16, 0i16),
            !old(self).destroyed && old(self).source.spec_done() ==> r == (0i16, 0i16)
                && *final(self) == (Sound { destroyed: true, ..*old(self) }),
            !old(self).destroyed && !old(self).source.spec_done() ==> final(self).fade_state()
                == fade_step_spec(old(self).fade_state()) && r == spec_mix_pair(
                source_head(old(self).source.spec_pending()),
                final(self).volume,
                old(self).pan,
            ) && (old(self).source.spec_pending().len() > 0 ==> final(self).source.spec_pending()
                == old(self).source.spec_pending().skip(1) && !final(self).source.spec_done()) && (
            old(self).source.spec_pending().len() == 0 ==> final(self).source.spec_done()),
    {
        if self.destroyed {
            return (0, 0);
        }
        if self.source.done() {
            self.destroyed = true;
            return (0, 0);
        }
        self.fade_step();
        let raw = self.source.next_sample();
        let gl = left_gain(self.volume, self.pan);
        let gr = right_gain(self.volume, self.pan);
        let out = (scale_sample(raw.0, gl), scale_sample(raw.1, gr));
        proof {
            assert(out == spec_mix_pair(raw, self.volume, self.pan));
        }
        out
    }

    /// Mix this sound's next `frames` contributions into the first
    /// `2 * frames` interleaved entries of `out`, with saturating addition:
    /// some sequence of source outputs explains the pass exactly, per
    /// `sound_pass`. A destroyed sound, and one whose source is already
    /// exhausted, leaves the buffer untouched; the latter is marked
    /// destroyed. A fade-out never raises the volume across the pass, a
    /// fade-in never lowers it, and an unfaded sound keeps its volume.
    pub fn mix_into(&mut self, out: &mut Vec<i16>, frames: usize)
        requires
            old(self).wf(),
            2 * (frames as int) <= old(out)@.len(),
        ensures
            final(self).wf(),
            final(self).id == old(self).id,
            final(self).pan == old(self).pan,
            final(out)@.len() == old(out)@.len(),
            sound_pass_exists(*old(self), *final(self), old(out)@, final(out)@, frames as int),
            forall|k: int|
                2 * (frames as int) <= k < old(out)@.len() ==> final(out)@[k] == old(out)@[k],
            old(self).destroyed ==> *final(self) == *old(self) && final(out)@ == old(out)@,
            frames == 0 ==> *final(self) == *old(self) && final(out)@ == old(out)@,
            !old(self).destroyed && old(self).source.spec_done() && frames >= 1 ==> final(out)@
                == old(out)@ && *final(self) == (Sound { destroyed: true, ..*old(self) }),
            old(self).fade is NoFade ==> final(self).fade is NoFade && final(self).volume == old(
                self,
            ).volume,
            old(self).fade is FadeOut ==> final(self).volume <= old(self).volume,
            old(self).fade is FadeIn ==> final(self).volume >= old(self).volume,
    {
        let ghost self0 = *self;
        let ghost out0 = out@;
        let ghost p0 = self0.source.spec_pending();
        let ghost mut raws: Seq<(i16, i16)> = Seq::empty();
        let ghost mut done_hit: bool = false;
        proof {
            assert(p0.skip(0) =~= p0);
        }
        let olen = out.len();
        let mut i: usize = 0;
        while i < frames
            invariant
                p0 == self0.source.spec_pending(),
                forall|j: int|
                    0 <= j < raws.len() ==> (#[trigger] raws[j]) == (if j < p0.len() {
                        p0[j]
                    } else {
                        (0i16, 0i16)
                    }),
                self0.destroyed ==> raws.len() == 0,
                !self0.destroyed && self0.source.spec_done() ==> raws.len() == 0,
                !self0.destroyed && !self0.source.spec_done() ==> raws.len() <= p0.len() + 1 && (
                raws.len() <= p0.len() ==> self.source.spec_pending() == p0.skip(raws.len() as int)
                    && !self.source.spec_done()) && (raws.len() == p0.len() + 1
                    ==> self.source.spec_done()),
                self.wf(),
                self.id == self0.id,
                self.pan == self0.pan,
                2 * (frames as int) <= out0.len(),
                out0.len() == olen as int,
                out@.len() == out0.len(),
                i <= frames,
                raws.len() <= i as int,
                !done_hit ==> self.fade_state() == fade_iter(self0.fade_state(), raws.len()) && (
                raws.len() == i as int || fade_iter(self0.fade_state(), raws.len()).destroyed),
                done_hit ==> self.fade_state() == (FadeState {
                    destroyed: true,
                    ..fade_iter(self0.fade_state(), raws.len())
                }) && !fade_iter(self0.fade_state(), raws.len()).destroyed && raws.len() < i as int
                    && self.source.spec_done(),
                raws.len() == 0 ==> self.source == self0.source,
                forall|j: int|
                    0 <= j < raws.len() ==> #[trigger] frame_mixed(
                        out0,
                        out@,
                        j,
                        pass_contribution(self0, raws, j),
                    ),
                forall|k: int| 2 * raws.len() <= k < out0.len() ==> out@[k] == out0[k],
                self0.destroyed ==> *self == self0 && out@ == out0,
                i == 0 ==> *self == self0 && out@ == out0,
                !self0.destroyed && self0.source.spec_done() && i >= 1 ==> out@ == out0 && *self
                    == (Sound { destroyed: true, ..self0 }),
                self0.fade is NoFade ==> self.fade is NoFade && self.volume == self0.volume,
                self0.fade is FadeOut ==> (self.fade == self0.fade || self.fade is NoFade)
                    && self.volume <= self0.volume,
                self0.fade is FadeIn ==> (self.fade == self0.fade || self.fade is NoFade)
                    && self.volume >= self0.volume,
            decreases frames - i,
        {
            let ghost self_pre = *self;
            let ghost out_pre = out@;
            let ghost raws_pre = raws;
            proof {
                crate::fade::lemma_fade_step_monotone(self_pre.fade_state());
            }
            let c = self.frame_step();
            let base = 2 * i;
            let l = sat_add(out[base], c.0);
            let r = sat_add(out[base + 1], c.1);
            out[base] = l;
            out[base + 1] = r;
            proof {
                if self_pre.destroyed || self_pre.source.spec_done() {
                    if !self_pre.destroyed {
                        done_hit = true;
                    }
                    assert(c == (0i16, 0i16));
                    assert(l == out_pre[base as int]);
                    assert(r == out_pre[base as int + 1]);
                    assert(out@ =~= out_pre);
                } else {
                    let raw = source_head(self_pre.source.spec_pending());
                    assert(c == spec_mix_pair(raw, self.volume, self_pre.pan));
                    assert(raws_pre.len() == i as int);
                    assert(raws_pre.len() <= p0.len());
                    assert(self_pre.source.spec_pending() == p0.skip(raws_pre.len() as int));
                    assert(raw == (if raws_pre.len() < p0.len() {
                        p0[raws_pre.len() as int]
                    } else {
                        (0i16, 0i16)
                    }));
                    if raws_pre.len() < p0.len() {
                        assert(p0.skip(raws_pre.len() as int).skip(1) =~= p0.skip(
                            raws_pre.len() as int + 1,
                        ));
                    }
                    assert(self_pre.fade_state() == fade_iter(self0.fade_state(), raws_pre.len()));
                    raws = raws_pre.push(raw);
                    assert(fade_iter(self0.fade_state(), raws.len()) == fade_step_spec(
                        fade_iter(self0.fade_state(), raws_pre.len()),
                    ));
                    assert(self.fade_state() == fade_iter(self0.fade_state(), raws.len()));
                    assert(out@[2 * (i as int)] == spec_sat_add(out0[2 * (i as int)], c.0));
                    assert(out@[2 * (i as int) + 1] == spec_sat_add(out0[2 * (i as int) + 1], c.1));
                    assert(pass_contribution(self0, raws, i as int) == c);
                    assert(frame_mixed(out0, out@, i as int, pass_contribution(self0, raws, i as int)));
                }
                assert forall|j: int| 0 <= j < raws_pre.len() implies #[trigger] frame_mixed(
                    out0,
                    out@,
                    j,
                    pass_contribution(self0, raws, j),
                ) by {
                    assert(frame_mixed(out0, out_pre, j, pass_contribution(self0, raws_pre, j)));
                    assert(raws[j] == raws_pre[j]);
                    assert(out@[2 * j] == out_pre[2 * j] && out@[2 * j + 1] == out_pre[2 * j + 1]);
                }
            }
            i = i + 1;
        }
        proof {
            assert(sound_pass(self0, *self, out0, out@, frames as int, raws));
        }
    }
}

} // verus!
