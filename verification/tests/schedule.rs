//! Scheduling, voice data, and end-to-end rendering.

use voxlab::buffer::{AudioBuffer, MidiNote};
use voxlab::ipa::{Phoneme, Vowel};
use voxlab::samples::{SynthError, Voice};
use voxlab::scheduling::{GrainTimeline, InstanceId, PhonemeInstance, PhonemeOptions, Schedule,
    TransitionOptions};
use voxlab::SCALE;

fn sine(sample_rate: u32, period: usize, len: usize, amp: f64) -> AudioBuffer {
    let mut samples = Vec::with_capacity(len);
    for i in 0..len {
        let x = (i as f64) * 2.0 * std::f64::consts::PI / (period as f64);
        samples.push((x.sin() * amp * (SCALE as f64)) as i64);
    }
    AudioBuffer { sample_rate, samples }
}

fn instance(i: usize, note_semitones: i64, transition: Option<usize>) -> PhonemeInstance {
    PhonemeInstance {
        instance_id: InstanceId::new(i),
        steady_grains: 20,
        phoneme: Phoneme::Vowel(Vowel::CloseFrontUnrounded),
        length: SCALE,
        options: PhonemeOptions {
            next_transition: transition.map(|g| TransitionOptions { length_grains: g }),
        },
        note: MidiNote(note_semitones * SCALE),
    }
}

#[test]
fn schedule_maps_one_to_one() {
    let instances = vec![
        instance(0, 60, Some(10)),
        instance(1, 62, None),
        instance(2, 64, Some(5)),
        instance(3, 65, Some(7)),
    ];
    let timeline = instances.schedule();
    assert_eq!(timeline.events.len(), 4);
    for (i, e) in timeline.events.iter().enumerate() {
        assert_eq!(e.instance_id.index(), i);
        assert_eq!(e.note.0, instances[i].note.0);
        assert_eq!(e.length, instances[i].length);
    }
    assert_eq!(timeline.events[0].interp.unwrap().fade_len, 10);
    assert_eq!(timeline.events[0].interp.unwrap().target_grain, 0);
    assert!(timeline.events[1].interp.is_none());
    assert_eq!(timeline.events[2].interp.unwrap().fade_len, 5);
    assert!(timeline.events[3].interp.is_none(), "last instance never interpolates");
}

#[test]
fn schedule_three_instance_scenario() {
    let instances = vec![
        instance(0, 60, Some(10)),
        instance(1, 62, Some(10)),
        instance(2, 64, None),
    ];
    let timeline = instances.schedule();
    assert_eq!(timeline.events.len(), 3);
    let i0 = timeline.events[0].interp.expect("first transition");
    assert_eq!((i0.target_grain, i0.fade_len), (0, 10));
    let i1 = timeline.events[1].interp.expect("second transition");
    assert_eq!((i1.target_grain, i1.fade_len), (1, 10));
    assert!(timeline.events[2].interp.is_none());
}

fn test_voice() -> Voice {
    let vowel = Phoneme::Vowel(Vowel::CloseFrontUnrounded);
    let sample = sine(44100, 200, 16384, 0.8);
    Voice::new(44100, vec![(vowel, sample)], Vec::new())
}

#[test]
fn render_three_instances_produces_one_buffer() {
    let instances = vec![
        instance(0, 60, Some(10)),
        instance(1, 62, Some(10)),
        instance(2, 64, None),
    ];
    let timeline = instances.schedule();
    let mut voice = test_voice();
    let out = timeline.render(&mut voice).expect("render");
    assert_eq!(out.sample_rate, 44100);
    assert!(out.samples.len() > 16384, "len {}", out.samples.len());
    for &s in &out.samples {
        assert!(s.abs() <= 2 * SCALE, "sample {s}");
    }
}

#[test]
fn render_missing_phoneme_fails_to_load() {
    let instances = vec![PhonemeInstance {
        phoneme: Phoneme::Vowel(Vowel::OpenBackUnrounded),
        ..instance(0, 60, None)
    }];
    let timeline = instances.schedule();
    let mut voice = test_voice();
    assert_eq!(timeline.render(&mut voice).unwrap_err(), SynthError::LoadFailure);
}

#[test]
fn render_empty_timeline_is_empty() {
    let timeline = GrainTimeline { events: Vec::new() };
    let mut voice = test_voice();
    let out = timeline.render(&mut voice).expect("render");
    assert!(out.samples.is_empty());
}

#[test]
fn base_note_prefers_seeded_pitch() {
    let vowel = Phoneme::Vowel(Vowel::CloseFrontUnrounded);
    let sample = sine(44100, 200, 16384, 0.8);
    let mut voice = Voice::new(44100, vec![(vowel, sample)], vec![(vowel, MidiNote(7 * SCALE))]);
    assert_eq!(voice.base_note(vowel).unwrap().0, 7 * SCALE);
}

#[test]
fn base_note_estimates_and_memoizes() {
    let mut voice = test_voice();
    let vowel = Phoneme::Vowel(Vowel::CloseFrontUnrounded);
    let first = voice.base_note(vowel).expect("estimate");
    let second = voice.base_note(vowel).expect("cached");
    assert_eq!(first, second);
    // 44100 / 200 = 220.5 Hz is just under MIDI 57 (A3); the period
    // estimate may land up to an octave below on a pure tone.
    let semis = first.0 as f64 / SCALE as f64;
    assert!((40.0..=60.0).contains(&semis), "semis {semis}");
}

#[test]
fn base_note_of_silence_has_no_period() {
    let mut voice = test_voice();
    assert_eq!(voice.base_note(Phoneme::Space).unwrap_err(), SynthError::NoPeriodicSignal);
}

#[test]
fn space_sample_is_fixed_silence() {
    let voice = test_voice();
    let buf = voice.sample(Phoneme::Space).expect("silence");
    assert_eq!(buf.samples.len(), 256);
    assert!(buf.samples.iter().all(|&s| s == 0));
    assert_eq!(buf.sample_rate, 44100);
}

#[test]
fn pitch_marks_memoized_and_increasing() {
    let mut voice = test_voice();
    let vowel = Phoneme::Vowel(Vowel::CloseFrontUnrounded);
    let m1 = voice.pitch_marks(vowel).expect("marks");
    let m2 = voice.pitch_marks(vowel).expect("cached");
    assert_eq!(m1, m2);
    assert!(!m1.is_empty());
    for pair in m1.windows(2) {
        assert!(pair[0] < pair[1]);
    }
}

#[test]
fn instance_well_formedness() {
    let good = instance(0, 60, Some(10));
    assert!(good.is_well_formed());
    let bad = PhonemeInstance {
        options: PhonemeOptions {
            next_transition: Some(TransitionOptions { length_grains: 50 }),
        },
        ..instance(0, 60, None)
    };
    assert!(!bad.is_well_formed(), "transition longer than steady region");
    let bad_len = PhonemeInstance { length: 0, ..instance(0, 60, None) };
    assert!(!bad_len.is_well_formed());
}
