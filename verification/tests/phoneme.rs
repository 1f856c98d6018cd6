//! Phoneme identifiers and buffer basics.

use voxlab::buffer::AudioBuffer;
use voxlab::ipa::{Phoneme, Vowel};
use voxlab::{MAX_ABS, SCALE};

#[test]
fn ipa_symbols() {
    assert_eq!(Phoneme::Space.ipa(), " ");
    assert_eq!(Phoneme::Vowel(Vowel::OpenBackUnrounded).ipa(), "\u{0251}");
    assert_eq!(Phoneme::Vowel(Vowel::CloseFrontUnrounded).ipa(), "i");
    assert_eq!(Vowel::CloseFrontUnrounded.ipa(), "i");
}

#[test]
fn buffer_len_and_well_formedness() {
    let buf = AudioBuffer { sample_rate: 44100, samples: vec![0, SCALE, -SCALE] };
    assert_eq!(buf.len(), 3);
    assert!(buf.is_well_formed());

    let loud = AudioBuffer { sample_rate: 44100, samples: vec![MAX_ABS + 1] };
    assert!(!loud.is_well_formed());

    let bad_rate = AudioBuffer { sample_rate: 0, samples: vec![0] };
    assert!(!bad_rate.is_well_formed());
}

#[test]
fn duplicate_copies_exactly() {
    let buf = AudioBuffer { sample_rate: 22050, samples: vec![1, -2, 3] };
    let copy = buf.duplicate();
    assert_eq!(copy.sample_rate, 22050);
    assert_eq!(copy.samples, vec![1, -2, 3]);
}
