//! The mixer and the mixing callback on concrete sounds.

use audio_mixer::{AudioMixer, AudioMixerCallback, AudioSource, Sound, SoundFade};

/// A source serving a fixed list of pairs, then reporting exhaustion.
struct BufSource {
    samples: Vec<(i16, i16)>,
    pos: usize,
}

impl BufSource {
    fn of(samples: Vec<(i16, i16)>) -> BufSource {
        BufSource { samples, pos: 0 }
    }

    fn constant(pair: (i16, i16), n: usize) -> BufSource {
        BufSource { samples: vec![pair; n], pos: 0 }
    }
}

impl AudioSource for BufSource {
    // ghost members; never called at runtime
    fn spec_pending(&self) -> vstd::prelude::Seq<(i16, i16)> {
        unreachable!()
    }

    fn spec_done(&self) -> bool {
        unreachable!()
    }

    fn next_sample(&mut self) -> (i16, i16) {
        if self.pos < self.samples.len() {
            let s = self.samples[self.pos];
            self.pos += 1;
            s
        } else {
            (0, 0)
        }
    }

    fn done(&self) -> bool {
        self.pos >= self.samples.len()
    }
}

#[test]
fn play_uses_the_default_parameters() {
    let mut mixer: AudioMixer<BufSource> = AudioMixer::new();
    let id = mixer.play(BufSource::of(vec![(1, 2)]));
    assert_eq!(id, 0);
    assert_eq!(mixer.sounds.len(), 1);
    assert_eq!(mixer.sounds[0].volume, 255);
    assert_eq!(mixer.sounds[0].pan, 255);
    assert_eq!(mixer.sounds[0].fade, SoundFade::NoFade);
    assert_eq!(mixer.sounds[0].fade_sample, 0);
    assert!(!mixer.sounds[0].destroyed);
    assert!(mixer.wf_check());
    let id2 = mixer.play(BufSource::of(vec![(3, 4)]));
    assert_eq!(id2, 1);
    assert!(mixer.wf_check());
}

#[test]
fn play_fade_in_starts_silent() {
    let mut mixer: AudioMixer<BufSource> = AudioMixer::new();
    let id = mixer.play_fade_in(BufSource::of(vec![(1, 2)]), 7);
    assert_eq!(id, 0);
    assert_eq!(mixer.sounds[0].volume, 0);
    assert_eq!(mixer.sounds[0].fade, SoundFade::FadeIn(7));
    assert_eq!(mixer.sounds[0].pan, 255);
}

#[test]
fn default_play_reproduces_right_channel() {
    // volume 255, pan 255: right gain is exactly 255/255 (unity), left is
    // 508/255 — verify the formula's integer results, not intuition.
    let mut cb = AudioMixerCallback::new(AudioMixer::new());
    cb.mixer.play(BufSource::of(vec![(100, 200), (-100, -200)]));
    let mut out = vec![7i16; 4];
    cb.callback(&mut out);
    assert_eq!(out, vec![199, 200, -199, -200]);
}

#[test]
fn full_left_pan_regression() {
    // volume 255, pan 0: rightVolume = 255*(255-0)/127 = 512; a scaled
    // sample leaving the 16-bit range is clamped, not wrapped.
    let mut cb = AudioMixerCallback::new(AudioMixer::new());
    cb.mixer.play(BufSource::of(vec![(1000, 1000), (32767, 32767)]));
    cb.mixer.sounds[0].pan = 0;
    let mut out = vec![0i16; 4];
    cb.callback(&mut out);
    // left gain 255 (unity), right gain 512
    assert_eq!(out, vec![1000, 2007, 32767, 32767]);
}

#[test]
fn mixing_saturates_never_wraps() {
    let mut cb = AudioMixerCallback::new(AudioMixer::new());
    cb.mixer.play(BufSource::of(vec![(0, 30000)]));
    cb.mixer.play(BufSource::of(vec![(0, 30000)]));
    let mut out = vec![0i16; 2];
    cb.callback(&mut out);
    assert_eq!(out[0], 0);
    assert_eq!(out[1], 32767);
    let mut cb = AudioMixerCallback::new(AudioMixer::new());
    cb.mixer.play(BufSource::of(vec![(-30000, 0)]));
    cb.mixer.play(BufSource::of(vec![(-30000, 0)]));
    let mut out = vec![0i16; 2];
    cb.callback(&mut out);
    assert_eq!(out[0], -32768);
    assert_eq!(out[1], 0);
}

#[test]
fn empty_mixer_writes_silence_and_keeps_odd_tail() {
    let mut cb: AudioMixerCallback<BufSource> = AudioMixerCallback::new(AudioMixer::new());
    let mut out = vec![5i16; 5];
    cb.callback(&mut out);
    // two frames are zeroed; the trailing odd entry is untouched
    assert_eq!(out, vec![0, 0, 0, 0, 5]);
}

#[test]
fn fade_in_ramp_one_raises_volume_each_frame() {
    // ramp 1: volume goes 1, 2, ... one step per frame; with raw 255 the
    // scaled outputs follow the integer formula exactly.
    let mut cb = AudioMixerCallback::new(AudioMixer::new());
    cb.mixer.play_fade_in(BufSource::constant((255, 255), 300), 1);
    let mut out = vec![0i16; 4];
    cb.callback(&mut out);
    // frame 1: volume 1: left 255*(1*255/128)/255 = 1, right 255*(1*127/127)/255 = 1
    // frame 2: volume 2: left gain 2*255/128 = 3 -> 3, right gain 2 -> 2
    assert_eq!(out, vec![1, 1, 3, 2]);
    assert_eq!(cb.mixer.sounds[0].volume, 2);
}

#[test]
fn fade_in_reaches_full_volume_after_255_ramp_frames() {
    let mut cb = AudioMixerCallback::new(AudioMixer::new());
    cb.mixer.play_fade_in(BufSource::constant((0, 0), 600), 2);
    // 255 * 2 = 510 frames to reach full volume
    let mut out = vec![0i16; 2 * 509];
    cb.callback(&mut out);
    assert_eq!(cb.mixer.sounds[0].volume, 254);
    let mut out = vec![0i16; 2];
    cb.callback(&mut out);
    assert_eq!(cb.mixer.sounds[0].volume, 255);
    assert_eq!(cb.mixer.sounds[0].fade, SoundFade::FadeIn(2));
    // two more frames: the machine settles into NoFade at full volume
    let mut out = vec![0i16; 4];
    cb.callback(&mut out);
    assert_eq!(cb.mixer.sounds[0].volume, 255);
    assert_eq!(cb.mixer.sounds[0].fade, SoundFade::NoFade);
}

#[test]
fn fade_out_destroys_after_one_ramp_past_zero() {
    let mut cb = AudioMixerCallback::new(AudioMixer::new());
    let id = cb.mixer.play(BufSource::constant((100, 100), 2000));
    assert!(cb.mixer.fade_out_sound(id, 2));
    assert_eq!(cb.mixer.sounds[0].fade, SoundFade::FadeOut(2));
    assert_eq!(cb.mixer.sounds[0].fade_sample, 0);
    // volume reaches 0 after 255*2 = 510 frames, destruction after 512
    let mut out = vec![0i16; 2 * 511];
    cb.callback(&mut out);
    assert_eq!(cb.mixer.sounds.len(), 1);
    assert_eq!(cb.mixer.sounds[0].volume, 0);
    assert!(!cb.mixer.sounds[0].destroyed);
    // volume 0: the last mixed frames are silent
    assert_eq!(out[2 * 510], 0);
    assert_eq!(out[2 * 510 + 1], 0);
    let mut out = vec![0i16; 2];
    cb.callback(&mut out);
    assert_eq!(cb.mixer.sounds.len(), 0);
    assert_eq!(out, vec![0, 0]);
}

#[test]
fn exhausted_source_is_removed_within_one_pass() {
    let mut cb = AudioMixerCallback::new(AudioMixer::new());
    cb.mixer.play(BufSource::of(vec![]));
    let mut out = vec![9i16; 4];
    cb.callback(&mut out);
    assert_eq!(cb.mixer.sounds.len(), 0);
    assert_eq!(out, vec![0, 0, 0, 0]);
}

#[test]
fn source_finishing_mid_buffer_goes_silent_then_away() {
    let mut cb = AudioMixerCallback::new(AudioMixer::new());
    cb.mixer.play(BufSource::of(vec![(100, 100)]));
    let mut out = vec![0i16; 6];
    cb.callback(&mut out);
    // one real frame, then the source reports done and the sound is pruned
    assert_eq!(out, vec![199, 100, 0, 0, 0, 0]);
    assert_eq!(cb.mixer.sounds.len(), 0);
}

#[test]
fn destroy_removes_within_one_pass_and_mutes() {
    let mut cb = AudioMixerCallback::new(AudioMixer::new());
    let id_a = cb.mixer.play(BufSource::constant((100, 100), 10));
    let id_b = cb.mixer.play(BufSource::constant((10, 10), 10));
    assert!(cb.mixer.destroy_sound(id_a));
    assert!(cb.mixer.sounds[0].destroyed);
    let mut out = vec![0i16; 2];
    cb.callback(&mut out);
    // only the live sound contributed
    assert_eq!(out, vec![19, 10]);
    assert_eq!(cb.mixer.sounds.len(), 1);
    assert_eq!(cb.mixer.sounds[0].id, id_b);
}

#[test]
fn destroy_sound_reports_whether_the_id_exists() {
    let mut mixer: AudioMixer<BufSource> = AudioMixer::new();
    let id = mixer.play(BufSource::of(vec![(1, 1)]));
    assert!(!mixer.destroy_sound(id + 7));
    assert!(!mixer.sounds[0].destroyed);
    assert!(mixer.destroy_sound(id));
    assert!(mixer.sounds[0].destroyed);
}

#[test]
fn fade_out_sound_reports_whether_the_id_exists() {
    let mut mixer: AudioMixer<BufSource> = AudioMixer::new();
    let id = mixer.play(BufSource::of(vec![(1, 1)]));
    assert!(!mixer.fade_out_sound(id + 1, 4));
    assert_eq!(mixer.sounds[0].fade, SoundFade::NoFade);
    assert!(mixer.fade_out_sound(id, 4));
    assert_eq!(mixer.sounds[0].fade, SoundFade::FadeOut(4));
}

#[test]
fn sound_fade_out_and_destroy_directly() {
    let mut s = Sound {
        source: BufSource::of(vec![(1, 1)]),
        id: 0,
        volume: 200,
        pan: 128,
        fade: SoundFade::NoFade,
        fade_sample: 0,
        destroyed: false,
    };
    s.fade_out(3);
    assert_eq!(s.fade, SoundFade::FadeOut(3));
    assert_eq!(s.fade_sample, 0);
    assert_eq!(s.volume, 200);
    s.destroy();
    assert!(s.destroyed);
}

#[test]
fn fade_step_follows_the_state_machine() {
    let mut s = Sound {
        source: BufSource::of(vec![]),
        id: 0,
        volume: 0,
        pan: 255,
        fade: SoundFade::FadeIn(2),
        fade_sample: 0,
        destroyed: false,
    };
    // volume after n steps is n / 2 while the ramp runs
    for n in 1..=510usize {
        s.fade_step();
        assert_eq!(s.volume as usize, n / 2);
        assert!(!s.destroyed);
    }
    assert_eq!(s.volume, 255);
    // a fade-out sits one whole ramp at zero before destruction
    let mut s = Sound {
        source: BufSource::of(vec![]),
        id: 0,
        volume: 2,
        pan: 255,
        fade: SoundFade::FadeOut(3),
        fade_sample: 0,
        destroyed: false,
    };
    let mut steps = 0usize;
    while !s.destroyed {
        s.fade_step();
        steps += 1;
        assert!(steps <= 9);
    }
    assert_eq!(steps, (2 + 1) * 3);
    assert_eq!(s.volume, 0);
    assert_eq!(s.fade, SoundFade::NoFade);
}

#[test]
fn mixer_ids_stay_distinct_after_pruning() {
    let mut cb = AudioMixerCallback::new(AudioMixer::new());
    let id_a = cb.mixer.play(BufSource::of(vec![]));
    let id_b = cb.mixer.play(BufSource::constant((1, 1), 50));
    let id_c = cb.mixer.play(BufSource::constant((2, 2), 50));
    let mut out = vec![0i16; 2];
    cb.callback(&mut out);
    assert_eq!(cb.mixer.sounds.len(), 2);
    assert_eq!(cb.mixer.sounds[0].id, id_b);
    assert_eq!(cb.mixer.sounds[1].id, id_c);
    assert!(cb.mixer.wf_check());
    let id_d = cb.mixer.play(BufSource::constant((3, 3), 50));
    assert!(id_d > id_a && id_d > id_c);
    assert!(cb.mixer.wf_check());
}

#[test]
fn wf_check_rejects_broken_states() {
    // a fade counter sitting at or past a nonzero ramp is not well formed
    let s = Sound {
        source: BufSource::of(vec![]),
        id: 0,
        volume: 10,
        pan: 255,
        fade: SoundFade::FadeIn(3),
        fade_sample: 3,
        destroyed: false,
    };
    assert!(!s.wf_check());
    let ok = Sound {
        source: BufSource::of(vec![]),
        id: 0,
        volume: 10,
        pan: 255,
        fade: SoundFade::FadeIn(3),
        fade_sample: 2,
        destroyed: false,
    };
    assert!(ok.wf_check());
    // an id at or past next_id, or a duplicated id, breaks the mixer invariant
    let sound = |id: u64| Sound {
        source: BufSource::of(vec![]),
        id,
        volume: 255,
        pan: 255,
        fade: SoundFade::NoFade,
        fade_sample: 0,
        destroyed: false,
    };
    let stale = AudioMixer { sounds: vec![sound(5)], next_id: 3 };
    assert!(!stale.wf_check());
    let duplicated = AudioMixer { sounds: vec![sound(1), sound(1)], next_id: 4 };
    assert!(!duplicated.wf_check());
    let fine = AudioMixer { sounds: vec![sound(1), sound(2)], next_id: 4 };
    assert!(fine.wf_check());
}

#[test]
fn frame_step_skips_destroyed_sounds() {
    let mut s = Sound {
        source: BufSource::constant((500, 500), 5),
        id: 0,
        volume: 255,
        pan: 255,
        fade: SoundFade::NoFade,
        fade_sample: 0,
        destroyed: true,
    };
    assert_eq!(s.frame_step(), (0, 0));
    assert!(s.destroyed);
    s.destroyed = false;
    // live again: one scaled pair, unity on the right channel
    assert_eq!(s.frame_step(), (996, 500));
}
