//! The streaming decoder adapter: construction failure and the packet
//! splitting logic.

use audio_mixer::ogg::{interleaved_to_pairs, OggAudioSource};
use audio_mixer::AudioError;

#[test]
fn garbage_bytes_fail_to_open() {
    let r = OggAudioSource::new(vec![0, 1, 2, 3, 4, 5, 6, 7]);
    match r {
        Ok(_) => panic!("garbage opened as a container"),
        Err(e) => assert_eq!(e, AudioError::InvalidContainer),
    }
}

#[test]
fn empty_bytes_fail_to_open() {
    assert!(OggAudioSource::new(Vec::new()).is_err());
}

#[test]
fn interleaved_packet_splits_into_pairs() {
    let pairs = interleaved_to_pairs(&vec![1, 2, 3, 4, 5]);
    // the trailing odd sample is dropped
    assert_eq!(pairs, vec![(1, 2), (3, 4)]);
    assert_eq!(interleaved_to_pairs(&vec![]), vec![]);
    assert_eq!(interleaved_to_pairs(&vec![7]), vec![]);
    assert_eq!(interleaved_to_pairs(&vec![-1, -2]), vec![(-1, -2)]);
}
