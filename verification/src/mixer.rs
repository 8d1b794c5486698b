//! The mixer: the ordered collection of active sounds, the operations that
//! register and address them, and the real-time mixing callback.

use vstd::prelude::*;
use crate::fade::SoundFade;
use crate::sound::{AudioSource, Sound, sound_pass_exists};

verus! {

/// The sound a `play` call registers: full volume, the default pan position
/// of 255, no fade.
pub open spec fn play_sound<S>(source: S, id: u64) -> Sound<S> {
    Sound {
        source,
        id,
        volume: 255,
        pan: 255,
        fade: SoundFade::NoFade,
        fade_sample: 0,
        destroyed: false,
    }
}

/// The sound a `play_fade_in` call registers: silent, the default pan
/// position of 255, fading in one volume unit every `ramp_samples` frames.
pub open spec fn fade_in_sound<S>(source: S, id: u64, ramp_samples: u32) -> Sound<S> {
    Sound {
        source,
        id,
        volume: 0,
        pan: 255,
        fade: SoundFade::FadeIn(ramp_samples),
        fade_sample: 0,
        destroyed: false,
    }
}

/// The ordered collection of live sounds. Sounds are addressed by the stable
/// ids that `play` and `play_fade_in` hand out; the order is insertion order
/// and carries no meaning for mixing.
pub struct AudioMixer<S> {
    pub sounds: Vec<Sound<S>>,
    pub next_id: u64,
}

impl<S> AudioMixer<S> {
    /// Every sound is well formed, and ids are fresh and pairwise distinct.
    pub open spec fn wf(&self) -> bool {
        &&& forall|j: int|
            0 <= j < self.sounds@.len() ==> (#[trigger] self.sounds@[j]).wf()
                && self.sounds@[j].id < self.next_id
        &&& forall|j: int, k: int|
            0 <= j < k < self.sounds@.len() ==> (#[trigger] self.sounds@[j]).id != (
            #[trigger] self.sounds@[k]).id
    }

    pub fn new() -> (m: Self)
        ensures
            m.wf(),
            m.sounds@.len() == 0,
            m.next_id == 0,
    {
        AudioMixer { sounds: Vec::new(), next_id: 0 }
    }

    /// Runtime check of the mixer invariant, for callers outside verified
    /// code.
    pub fn wf_check(&self) -> (b: bool)
        ensures
            b == self.wf(),
    {
        let n = self.sounds.len();
        let mut j: usize = 0;
        while j < n
            invariant
                n == self.sounds@.len(),
                j <= n,
                forall|a: int|
                    0 <= a < j ==> (#[trigger] self.sounds@[a]).wf() && self.sounds@[a].id
                        < self.next_id,
                forall|a: int, b: int|
                    0 <= a < b < j ==> (#[trigger] self.sounds@[a]).id != (
                    #[trigger] self.sounds@[b]).id,
            decreases n - j,
        {
            if !self.sounds[j].wf_check() || self.sounds[j].id >= self.next_id {
                return false;
            }
            let mut k: usize = 0;
            while k < j
                invariant
                    j < n,
                    n == self.sounds@.len(),
                    k <= j,
                    forall|a: int| 0 <= a < k ==> (#[trigger] self.sounds@[a]).id != self.sounds@[j as int].id,
                decreases j - k,
            {
                if self.sounds[k].id == self.sounds[j].id {
                    return false;
                }
                k = k + 1;
            }
            j = j + 1;
        }
        true
    }

    /// Register a sound at full volume with the default pan position, and
    /// return the id under which it can later be faded out or destroyed.
    pub fn play(&mut self, source: S) -> (id: u64)
        requires
            old(self).wf(),
            old(self).next_id < u64::MAX,
        ensures
            final(self).wf(),
            id == old(self).next_id,
            final(self).next_id == old(self).next_id + 1,
            final(self).sounds@ == old(self).sounds@.push(play_sound(source, id)),
            forall|j: int|
                0 <= j < old(self).sounds@.len() ==> (#[trigger] old(self).sounds@[j]).id != id,
    {
        let id = self.next_id;
        self.next_id = self.next_id + 1;
        self.sounds.push(
            Sound {
                source,
                id,
                volume: 255,
                pan: 255,
                fade: SoundFade::NoFade,
                fade_sample: 0,
                destroyed: false,
            },
        );
        id
    }

    /// Register a sound that starts silent and fades in, one volume unit
    /// every `ramp_samples` frames.
    pub fn play_fade_in(&mut self, source: S, ramp_samples: u32) -> (id: u64)
        requires
            old(self).wf(),
            old(self).next_id < u64::MAX,
        ensures
            final(self).wf(),
            id == old(self).next_id,
            final(self).next_id == old(self).next_id + 1,
            final(self).sounds@ == old(self).sounds@.push(
                fade_in_sound(source, id, ramp_samples),
            ),
            forall|j: int|
                0 <= j < old(self).sounds@.len() ==> (#[trigger] old(self).sounds@[j]).id != id,
    {
        let id = self.next_id;
        self.next_id = self.next_id + 1;
        self.sounds.push(
            Sound {
                source,
                id,
                volume: 0,
                pan: 255,
                fade: SoundFade::FadeIn(ramp_samples),
                fade_sample: 0,
                destroyed: false,
            },
        );
        id
    }

    /// Mark the sound with the given id for removal by the next mixing pass.
    /// Returns whether a sound with that id was found.
    pub fn destroy_sound(&mut self, id: u64) -> (found: bool)
        requires
            old(self).wf(),
        ensures
            final(self).wf(),
            final(self).next_id == old(self).next_id,
            final(self).sounds@.len() == old(self).sounds@.len(),
            forall|j: int|
                0 <= j < old(self).sounds@.len() && (#[trigger] old(self).sounds@[j]).id != id
                    ==> final(self).sounds@[j] == old(self).sounds@[j],
            forall|j: int|
                0 <= j < old(self).sounds@.len() && (#[trigger] old(self).sounds@[j]).id == id
                    ==> final(self).sounds@[j] == (Sound {
                    destroyed: true,
                    ..old(self).sounds@[j]
                }),
            found == exists|j: int|
                0 <= j < old(self).sounds@.len() && (#[trigger] old(self).sounds@[j]).id == id,
    {
        let ghost sounds0 = self.sounds@;
        let n = self.sounds.len();
        let mut j: usize = 0;
        while j < n
            invariant
                old(self).wf(),
                n == sounds0.len(),
                j <= n,
                *self == *old(self),
                sounds0 == old(self).sounds@,
                forall|a: int| 0 <= a < j ==> (#[trigger] sounds0[a]).id != id,
            decreases n - j,
        {
            if self.sounds[j].id == id {
                let s = &mut self.sounds[j];
                s.destroy();
                proof {
                    assert(self.sounds@ =~= sounds0.update(
                        j as int,
                        (Sound { destroyed: true, ..sounds0[j as int] }),
                    ));
                }
                return true;
            }
            j = j + 1;
        }
        false
    }

    /// Put the sound with the given id into a fade towards silence, one
    /// volume unit down every `ramp_samples` frames. Returns whether a sound
    /// with that id was found.
    pub fn fade_out_sound(&mut self, id: u64, ramp_samples: u32) -> (found: bool)
        requires
            old(self).wf(),
        ensures
            final(self).wf(),
            final(self).next_id == old(self).next_id,
            final(self).sounds@.len() == old(self).sounds@.len(),
            forall|j: int|
                0 <= j < old(self).sounds@.len() && (#[trigger] old(self).sounds@[j]).id != id
                    ==> final(self).sounds@[j] == old(self).sounds@[j],
            forall|j: int|
                0 <= j < old(self).sounds@.len() && (#[trigger] old(self).sounds@[j]).id == id
                    ==> final(self).sounds@[j] == (Sound {
                    fade: SoundFade::FadeOut(ramp_samples),
                    fade_sample: 0,
                    ..old(self).sounds@[j]
                }),
            found == exists|j: int|
                0 <= j < old(self).sounds@.len() && (#[trigger] old(self).sounds@[j]).id == id,
    {
        let ghost sounds0 = self.sounds@;
        let n = self.sounds.len();
        let mut j: usize = 0;
        while j < n
            invariant
                old(self).wf(),
                n == sounds0.len(),
                j <= n,
                *self == *old(self),
                sounds0 == old(self).sounds@,
                forall|a: int| 0 <= a < j ==> (#[trigger] sounds0[a]).id != id,
            decreases n - j,
        {
            if self.sounds[j].id == id {
                let s = &mut self.sounds[j];
                s.fade_out(ramp_samples);
                proof {
                    assert(self.sounds@ =~= sounds0.update(
                        j as int,
                        (Sound {
                            fade: SoundFade::FadeOut(ramp_samples),
                            fade_sample: 0,
                            ..sounds0[j as int]
                        }),
                    ));
                }
                return true;
            }
            j = j + 1;
        }
        false
    }
}

/// What pruning keeps: the live sounds, in their prior relative order.
pub open spec fn filter_live<S>(s: Seq<Sound<S>>) -> Seq<Sound<S>>
    decreases s.len(),
{
    if s.len() == 0 {
        Seq::empty()
    } else {
        let rest = filter_live(s.drop_last());
        if s.last().destroyed {
            rest
        } else {
            rest.push(s.last())
        }
    }
}

/// Pruning keeps only live records, and every record it keeps was in the
/// collection. In particular a destroyed sound is never retained.
pub proof fn lemma_filter_live_live<S>(s: Seq<Sound<S>>)
    ensures
        forall|x: Sound<S>| #[trigger]
            filter_live(s).contains(x) ==> !x.destroyed && s.contains(x),
    decreases s.len(),
{
    if s.len() > 0 {
        lemma_filter_live_live(s.drop_last());
        assert forall|x: Sound<S>| #[trigger]
            filter_live(s).contains(x) implies !x.destroyed && s.contains(x) by {
            let rest = filter_live(s.drop_last());
            if !s.last().destroyed && x == s.last() {
                assert(s.contains(x)) by {
                    assert(s[s.len() - 1] == x);
                }
            } else {
                assert(rest.contains(x));
                assert(s.drop_last().contains(x));
                let i = choose|i: int| 0 <= i < s.drop_last().len() && s.drop_last()[i] == x;
                assert(s[i] == x);
            }
        }
    }
}

/// Pruning keeps the ids pairwise distinct.
pub proof fn lemma_filter_live_distinct<S>(s: Seq<Sound<S>>)
    requires
        forall|j: int, k: int|
            0 <= j < k < s.len() ==> (#[trigger] s[j]).id != (#[trigger] s[k]).id,
    ensures
        forall|j: int, k: int|
            0 <= j < k < filter_live(s).len() ==> (#[trigger] filter_live(s)[j]).id != (
            #[trigger] filter_live(s)[k]).id,
    decreases s.len(),
{
    if s.len() > 0 {
        let prefix = s.drop_last();
        assert(forall|j: int, k: int|
            0 <= j < k < prefix.len() ==> (#[trigger] prefix[j]).id != (#[trigger] prefix[k]).id)
            by {
            assert(forall|j: int| 0 <= j < prefix.len() ==> prefix[j] == s[j]);
        }
        lemma_filter_live_distinct(prefix);
        lemma_filter_live_live(prefix);
        if !s.last().destroyed {
            let rest = filter_live(prefix);
            assert forall|j: int, k: int|
                0 <= j < k < filter_live(s).len() implies (#[trigger] filter_live(s)[j]).id != (
            #[trigger] filter_live(s)[k]).id by {
                if k == filter_live(s).len() - 1 {
                    assert(filter_live(s)[k] == s.last());
                    assert(rest.contains(rest[j])) by {
                        assert(filter_live(s)[j] == rest[j]);
                    }
                    assert(prefix.contains(rest[j]));
                    let i = choose|i: int| 0 <= i < prefix.len() && prefix[i] == rest[j];
                    assert(s[i] == rest[j]);
                    assert(s[i].id != s[s.len() - 1].id);
                } else {
                    assert(filter_live(s)[j] == rest[j] && filter_live(s)[k] == rest[k]);
                }
            }
        }
    }
}

/// The relation that one mixing pass establishes between a sound as the pass
/// found it and the same record after its frames were mixed: identity and
/// pan are untouched, a record found destroyed is untouched, and a live
/// record whose source was already exhausted is merely marked destroyed.
pub open spec fn processed_sound<S: AudioSource>(p: Sound<S>, m: Sound<S>, frames: int) -> bool {
    &&& m.wf()
    &&& m.id == p.id
    &&& m.pan == p.pan
    &&& p.destroyed ==> m == p
    &&& frames == 0 ==> m == p
    &&& !p.destroyed && p.source.spec_done() && frames >= 1 ==> m == (Sound {
        destroyed: true,
        ..p
    })
}

/// One mixing pass over the whole collection, before pruning.
pub open spec fn mixed_pass<S: AudioSource>(
    pre: Seq<Sound<S>>,
    mid: Seq<Sound<S>>,
    frames: int,
) -> bool {
    &&& mid.len() == pre.len()
    &&& forall|j: int| 0 <= j < pre.len() ==> processed_sound(pre[j], #[trigger] mid[j], frames)
}

impl<S: AudioSource> AudioMixer<S> {
    /// Remove the destroyed sounds, keeping the rest in order.
    fn prune(&mut self)
        ensures
            final(self).sounds@ == filter_live(old(self).sounds@),
            final(self).next_id == old(self).next_id,
    {
        let ghost sounds0 = self.sounds@;
        let mut kept: Vec<Sound<S>> = Vec::new();
        let ghost mut p: int = 0;
        while self.sounds.len() > 0
            invariant
                self.next_id == old(self).next_id,
                sounds0 == old(self).sounds@,
                0 <= p <= sounds0.len(),
                self.sounds@ =~= sounds0.skip(p),
                kept@ == filter_live(sounds0.take(p)),
            decreases self.sounds@.len(),
        {
            let s = self.sounds.remove(0);
            proof {
                assert(s == sounds0[p]);
                assert(self.sounds@ =~= sounds0.skip(p + 1));
            }
            let live = !s.destroyed;
            if live {
                kept.push(s);
            }
            proof {
                assert(sounds0.take(p + 1).drop_last() =~= sounds0.take(p));
                assert(sounds0.take(p + 1).last() == sounds0[p]);
                p = p + 1;
                assert(kept@ =~= filter_live(sounds0.take(p)));
            }
        }
        proof {
            assert(sounds0.take(p) =~= sounds0);
        }
        self.sounds = kept;
    }
}

/// Law: a live sound whose source is exhausted when a pass with at least
/// one frame finds it is marked destroyed by that pass and is not retained
/// by its pruning — it is gone within the one mixing pass.
pub proof fn lemma_done_sound_removed<S: AudioSource>(
    pre: Seq<Sound<S>>,
    mid: Seq<Sound<S>>,
    frames: int,
    j: int,
)
    requires
        mixed_pass(pre, mid, frames),
        0 <= j < pre.len(),
        !pre[j].destroyed,
        pre[j].source.spec_done(),
        frames >= 1,
    ensures
        mid[j].destroyed,
        !filter_live(mid).contains(mid[j]),
{
    lemma_filter_live_live(mid);
    assert(processed_sound(pre[j], mid[j], frames));
}

/// Law: a sound destroyed before a mixing pass is untouched by its mixing
/// and absent from its pruning.
pub proof fn lemma_destroyed_sound_removed<S: AudioSource>(
    pre: Seq<Sound<S>>,
    mid: Seq<Sound<S>>,
    frames: int,
    j: int,
)
    requires
        mixed_pass(pre, mid, frames),
        0 <= j < pre.len(),
        pre[j].destroyed,
    ensures
        mid[j] == pre[j],
        !filter_live(mid).contains(pre[j]),
{
    lemma_filter_live_live(mid);
    assert(processed_sound(pre[j], mid[j], frames));
}

/// A buffer with its first `frames` stereo frames zeroed and the rest kept:
/// what the mixing pass starts from.
pub open spec fn zeroed_frames(out: Seq<i16>, frames: int) -> Seq<i16> {
    Seq::new(out.len(), |k: int| if k < 2 * frames { 0i16 } else { out[k] })
}

/// The whole effect of one mixing pass, before pruning: the buffer's mixed
/// region is zeroed and then each sound in order adds its `sound_pass`
/// contributions — `bufs` is the chain of buffer states, from the zeroed
/// buffer to the final one, one step per sound. Along the way each sound
/// evolves exactly as `sound_pass` says: its fade machine advances once per
/// sampled frame, a record found destroyed is untouched, and a live record
/// whose source was exhausted is merely marked destroyed.
pub open spec fn callback_pass<S: AudioSource>(
    pre: Seq<Sound<S>>,
    mid: Seq<Sound<S>>,
    bufs: Seq<Seq<i16>>,
    out0: Seq<i16>,
    out1: Seq<i16>,
    frames: int,
) -> bool {
    &&& mixed_pass(pre, mid, frames)
    &&& bufs.len() == pre.len() + 1
    &&& bufs[0] == zeroed_frames(out0, frames)
    &&& bufs[pre.len() as int] == out1
    &&& forall|j: int|
        0 <= j < pre.len() ==> #[trigger] sound_pass_exists(
            pre[j],
            mid[j],
            bufs[j],
            bufs[j + 1],
            frames,
        )
}

/// The real-time entry point: owns the mixer and fills output buffers from
/// it, once per hardware callback.
pub struct AudioMixerCallback<S> {
    pub mixer: AudioMixer<S>,
}

impl<S: AudioSource> AudioMixerCallback<S> {
    pub fn new(mixer: AudioMixer<S>) -> (c: Self)
        ensures
            c.mixer == mixer,
    {
        AudioMixerCallback { mixer }
    }

    /// Mix one output buffer of interleaved stereo frames: zero the buffer,
    /// add every live sound's scaled contribution with saturating addition,
    /// then prune the sounds that are done or destroyed. The whole pass is
    /// pinned by `callback_pass`: per sound and frame, the fade machine
    /// advances once and the raw pair its source yielded lands in the
    /// buffer scaled by the stepped volume's gains. A trailing odd entry of
    /// the buffer is left untouched. Destroyed sounds contribute nothing
    /// and are gone afterwards; live sounds whose source was exhausted
    /// likewise; and if every sound was destroyed the buffer is pure
    /// silence.
    pub fn callback(&mut self, out: &mut Vec<i16>)
        requires
            old(self).mixer.wf(),
        ensures
            final(self).mixer.wf(),
            final(self).mixer.next_id == old(self).mixer.next_id,
            final(out)@.len() == old(out)@.len(),
            forall|k: int|
                2 * (old(out)@.len() / 2) <= k < old(out)@.len() ==> final(out)@[k]
                    == old(out)@[k],
            forall|j: int|
                0 <= j < final(self).mixer.sounds@.len()
                    ==> !(#[trigger] final(self).mixer.sounds@[j]).destroyed,
            forall|j: int|
                0 <= j < old(self).mixer.sounds@.len()
                    && (#[trigger] old(self).mixer.sounds@[j]).destroyed
                    ==> !final(self).mixer.sounds@.contains(old(self).mixer.sounds@[j]),
            (forall|j: int|
                0 <= j < old(self).mixer.sounds@.len()
                    ==> (#[trigger] old(self).mixer.sounds@[j]).destroyed) ==> forall|k: int|
                0 <= k < 2 * (old(out)@.len() / 2) ==> final(out)@[k] == 0,
            exists|mid: Seq<Sound<S>>, bufs: Seq<Seq<i16>>| #[trigger]
                callback_pass(
                    old(self).mixer.sounds@,
                    mid,
                    bufs,
                    old(out)@,
                    final(out)@,
                    old(out)@.len() as int / 2,
                ) && final(self).mixer.sounds@ == filter_live(mid),
    {
        let olen = out.len();
        let frames = olen / 2;
        let ghost outpre = out@;
        let mut i: usize = 0;
        while i < frames
            invariant
                out@.len() == outpre.len(),
                outpre.len() == olen as int,
                2 * (frames as int) <= olen as int,
                i <= frames,
                forall|k: int| 0 <= k < 2 * (i as int) ==> out@[k] == 0,
                forall|k: int| 2 * (i as int) <= k < outpre.len() ==> out@[k] == outpre[k],
            decreases frames - i,
        {
            out[2 * i] = 0;
            out[2 * i + 1] = 0;
            i = i + 1;
        }
        proof {
            assert(out@ =~= zeroed_frames(outpre, frames as int));
        }
        let ghost zeroed = out@;
        let ghost sounds0 = self.mixer.sounds@;
        let ghost mut bufs: Seq<Seq<i16>> = seq![out@];
        let n = self.mixer.sounds.len();
        let mut j: usize = 0;
        while j < n
            invariant
                old(self).mixer.wf(),
                sounds0 == old(self).mixer.sounds@,
                n == sounds0.len(),
                j <= n,
                self.mixer.next_id == old(self).mixer.next_id,
                self.mixer.sounds@.len() == n,
                out@.len() == zeroed.len(),
                zeroed.len() == olen as int,
                2 * (frames as int) <= olen as int,
                bufs.len() == j as int + 1,
                bufs[0] == zeroed,
                bufs[j as int] == out@,
                forall|a: int|
                    0 <= a < j ==> #[trigger] sound_pass_exists(
                        sounds0[a],
                        self.mixer.sounds@[a],
                        bufs[a],
                        bufs[a + 1],
                        frames as int,
                    ),
                forall|k: int| 2 * (frames as int) <= k < zeroed.len() ==> out@[k] == zeroed[k],
                forall|a: int| j <= a < n ==> self.mixer.sounds@[a] == sounds0[a],
                forall|a: int|
                    0 <= a < j ==> processed_sound(
                        sounds0[a],
                        #[trigger] self.mixer.sounds@[a],
                        frames as int,
                    ),
                (forall|a: int| 0 <= a < j ==> (#[trigger] sounds0[a]).destroyed) ==> out@
                    == zeroed,
            decreases n - j,
        {
            proof {
                assert((#[trigger] old(self).mixer.sounds@[j as int]).wf());
                assert(self.mixer.sounds@[j as int] == sounds0[j as int]);
                assert(sounds0[j as int].wf());
            }
            let ghost out_before = out@;
            let s = &mut self.mixer.sounds[j];
            s.mix_into(out, frames);
            proof {
                bufs = bufs.push(out@);
                assert(bufs[j as int] == out_before && bufs[j as int + 1] == out@);
                assert(sound_pass_exists(
                    sounds0[j as int],
                    self.mixer.sounds@[j as int],
                    bufs[j as int],
                    bufs[j as int + 1],
                    frames as int,
                ));
            }
            j = j + 1;
        }
        let ghost mid = self.mixer.sounds@;
        proof {
            assert(mixed_pass(sounds0, mid, frames as int));
            assert(bufs[sounds0.len() as int] == out@);
            assert(callback_pass(sounds0, mid, bufs, outpre, out@, frames as int));
        }
        self.mixer.prune();
        proof {
            lemma_filter_live_live(mid);
            lemma_filter_live_distinct(mid);
            assert forall|j: int| 0 <= j < final(self).mixer.sounds@.len() implies !(
            #[trigger] final(self).mixer.sounds@[j]).destroyed && final(self).mixer.sounds@[j].wf()
                && final(self).mixer.sounds@[j].id < final(self).mixer.next_id by {
                let x = final(self).mixer.sounds@[j];
                assert(filter_live(mid).contains(x));
                assert(mid.contains(x));
                let a = choose|a: int| 0 <= a < mid.len() && mid[a] == x;
                assert(processed_sound(sounds0[a], mid[a], frames as int));
            }
            assert forall|j: int|
                0 <= j < sounds0.len() && (#[trigger] sounds0[j]).destroyed
                implies !final(self).mixer.sounds@.contains(sounds0[j]) by {
                if final(self).mixer.sounds@.contains(sounds0[j]) {
                    assert(!sounds0[j].destroyed);
                }
            }
        }
    }
}

} // verus!
