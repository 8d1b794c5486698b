//! A verified real-time stereo audio mixer.
//!
//! The library mixes an arbitrary number of independently playing sounds
//! into one interleaved 16-bit stereo buffer, applying per-sound volume,
//! panning and linear fade ramps, and prunes finished sounds after every
//! pass. Compressed audio enters through a streaming decoder adapter that
//! wraps an ogg/vorbis reader and serves one sample pair at a time.

pub mod fade;
pub mod mix;
pub mod sound;
pub mod mixer;
pub mod ogg;

pub use fade::SoundFade;
pub use fade::FadeState;
pub use sound::AudioSource;
pub use sound::Sound;
pub use mixer::AudioMixer;
pub use mixer::AudioMixerCallback;
pub use ogg::OggAudioSource;
pub use ogg::AudioError;
