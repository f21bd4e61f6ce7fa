use std::cell::Cell;
use std::collections::HashMap;

use music_sequencer::{
    accept_generated, check_correct_frequency, CapabilityError, Frequency, Instrument,
    KeyGenerator, MissingBaseFrequencyError, MusicError, NoNotesInListError,
    NotValidFrequencyError, OriginalKeyNotFoundError, PCMAudio, PitchShifter,
    WrongSampleRateError,
};

const RATE: u32 = 48_000;

fn freq(value: f64) -> Frequency {
    Frequency { bits: value.to_bits() }
}

/// A generator that returns a recognisable sample at a chosen rate and
/// counts how often it was invoked.
struct CountingGenerator {
    rate: u32,
    calls: Cell<u32>,
}

impl KeyGenerator for CountingGenerator {
    fn generate(&self, frequency: Frequency) -> Result<PCMAudio, CapabilityError> {
        self.calls.set(self.calls.get() + 1);
        Ok(PCMAudio { samples: vec![vec![frequency.bits]], sample_rate: self.rate })
    }
}

/// A generator that always reports failure.
struct FailingGenerator;

impl KeyGenerator for FailingGenerator {
    fn generate(&self, _frequency: Frequency) -> Result<PCMAudio, CapabilityError> {
        Err(CapabilityError { message: String::from("synthesis unavailable") })
    }
}

/// A pitch shifter that keeps the buffer and stamps a chosen rate.
struct StampShifter {
    rate: u32,
}

impl PitchShifter for StampShifter {
    fn shift_pitch(
        &self,
        source: &PCMAudio,
        _source_frequency: Frequency,
        _target_frequency: Frequency,
    ) -> Result<PCMAudio, CapabilityError> {
        Ok(PCMAudio { samples: source.samples.clone(), sample_rate: self.rate })
    }
}

/// A pitch shifter that always reports failure.
struct FailingShifter;

impl PitchShifter for FailingShifter {
    fn shift_pitch(
        &self,
        _source: &PCMAudio,
        _source_frequency: Frequency,
        _target_frequency: Frequency,
    ) -> Result<PCMAudio, CapabilityError> {
        Err(CapabilityError { message: String::from("no dsp") })
    }
}

fn direct_instrument(rate: u32) -> Instrument<CountingGenerator> {
    Instrument {
        loopable: false,
        keys: HashMap::new(),
        base_frequency: None,
        key_gen_function: Some(CountingGenerator { rate, calls: Cell::new(0) }),
    }
}

fn derivation_instrument(base: Option<f64>) -> Instrument<CountingGenerator> {
    Instrument {
        loopable: false,
        keys: HashMap::new(),
        base_frequency: base.map(freq),
        key_gen_function: None,
    }
}

#[test]
fn check_correct_frequency_accepts_positive_normal() {
    assert!(check_correct_frequency(&freq(440.0)).is_ok());
    assert!(check_correct_frequency(&freq(0.0001)).is_ok());
    assert!(check_correct_frequency(&freq(f64::MAX)).is_ok());
}

#[test]
fn check_correct_frequency_rejects_unusable_values() {
    assert!(check_correct_frequency(&freq(0.0)).is_err());
    assert!(check_correct_frequency(&freq(-440.0)).is_err());
    assert!(check_correct_frequency(&freq(f64::NAN)).is_err());
    assert!(check_correct_frequency(&freq(f64::INFINITY)).is_err());
    assert!(check_correct_frequency(&freq(f64::NEG_INFINITY)).is_err());
    assert!(check_correct_frequency(&freq(f64::MIN_POSITIVE / 2.0)).is_err());
    assert!(check_correct_frequency(&freq(-0.0)).is_err());
}

#[test]
fn accept_generated_keeps_matching_sample_unchanged() {
    let sample = PCMAudio { samples: vec![vec![1, 2, 3]], sample_rate: RATE };
    let accepted = accept_generated(sample, RATE).unwrap();
    assert_eq!(accepted.samples, vec![vec![1, 2, 3]]);
    assert_eq!(accepted.sample_rate, RATE);
}

#[test]
fn accept_generated_rejects_mismatched_rate() {
    let sample = PCMAudio { samples: vec![vec![1]], sample_rate: RATE + 1 };
    let r = accept_generated(sample, RATE);
    assert!(matches!(r, Err(MusicError::WrongSampleRate(_))));
}

#[test]
fn gen_key_caches_generated_sample() {
    let shifter = StampShifter { rate: RATE };
    let mut instrument = direct_instrument(RATE);
    let f = freq(440.0);
    assert!(instrument.gen_key(&shifter, &f, RATE).is_ok());
    let cached = instrument.keys.get(&f.bits).unwrap();
    assert_eq!(cached.sample_rate, RATE);
    assert_eq!(cached.samples, vec![vec![f.bits]]);
}

#[test]
fn gen_key_is_idempotent() {
    let shifter = StampShifter { rate: RATE };
    let mut instrument = direct_instrument(RATE);
    let f = freq(440.0);
    assert!(instrument.gen_key(&shifter, &f, RATE).is_ok());
    let calls_after_first = instrument.key_gen_function.as_ref().unwrap().calls.get();
    let samples_after_first = instrument.keys.get(&f.bits).unwrap().samples.clone();
    // the second call is a no-op: no error, no new generation, no change
    assert!(instrument.gen_key(&shifter, &f, RATE).is_ok());
    assert_eq!(instrument.key_gen_function.as_ref().unwrap().calls.get(), calls_after_first);
    assert_eq!(instrument.keys.len(), 1);
    assert_eq!(instrument.keys.get(&f.bits).unwrap().samples, samples_after_first);
}

#[test]
fn gen_key_rejects_invalid_frequency_before_generation() {
    let shifter = StampShifter { rate: RATE };
    for bad in [0.0, f64::NAN, f64::INFINITY, f64::MIN_POSITIVE / 4.0, -1.0] {
        let mut instrument = direct_instrument(RATE);
        let r = instrument.gen_key(&shifter, &freq(bad), RATE);
        assert!(matches!(r, Err(MusicError::NotValidFrequency(_))));
        // the generator was never consulted and nothing was cached
        assert_eq!(instrument.key_gen_function.as_ref().unwrap().calls.get(), 0);
        assert!(instrument.keys.is_empty());
    }
}

#[test]
fn gen_key_rejects_wrong_sample_rate_and_discards() {
    let shifter = StampShifter { rate: RATE };
    let mut instrument = direct_instrument(RATE + 1);
    let f = freq(440.0);
    let r = instrument.gen_key(&shifter, &f, RATE);
    assert!(matches!(r, Err(MusicError::WrongSampleRate(_))));
    assert!(instrument.keys.get(&f.bits).is_none());
    assert!(instrument.keys.is_empty());
}

#[test]
fn gen_key_propagates_generator_failure() {
    let shifter = StampShifter { rate: RATE };
    let mut instrument: Instrument<FailingGenerator> = Instrument {
        loopable: false,
        keys: HashMap::new(),
        base_frequency: None,
        key_gen_function: Some(FailingGenerator),
    };
    let r = instrument.gen_key(&shifter, &freq(440.0), RATE);
    match r {
        Err(MusicError::Capability(e)) => assert_eq!(e.message, "synthesis unavailable"),
        other => panic!("expected a capability error, got {:?}", other),
    }
    assert!(instrument.keys.is_empty());
}

#[test]
fn gen_key_without_base_frequency_fails() {
    let shifter = StampShifter { rate: RATE };
    let mut instrument = derivation_instrument(None);
    let r = instrument.gen_key(&shifter, &freq(440.0), RATE);
    assert!(matches!(r, Err(MusicError::MissingBaseFrequency(_))));
    assert!(instrument.keys.is_empty());
}

#[test]
fn gen_key_without_cached_base_sample_fails() {
    let shifter = StampShifter { rate: RATE };
    let mut instrument = derivation_instrument(Some(261.63));
    let r = instrument.gen_key(&shifter, &freq(440.0), RATE);
    assert!(matches!(r, Err(MusicError::OriginalKeyNotFound(_))));
    assert!(instrument.keys.is_empty());
}

#[test]
fn gen_key_derives_from_base_sample() {
    let shifter = StampShifter { rate: RATE };
    let mut instrument = derivation_instrument(Some(261.63));
    let base = freq(261.63);
    instrument
        .keys
        .insert(base.bits, PCMAudio { samples: vec![vec![7, 8, 9]], sample_rate: RATE });
    let target = freq(440.0);
    assert!(instrument.gen_key(&shifter, &target, RATE).is_ok());
    let derived = instrument.keys.get(&target.bits).unwrap();
    assert_eq!(derived.sample_rate, RATE);
    assert_eq!(derived.samples, vec![vec![7, 8, 9]]);
    // the seed sample is still cached untouched
    assert_eq!(instrument.keys.get(&base.bits).unwrap().samples, vec![vec![7, 8, 9]]);
}

#[test]
fn gen_key_validates_derived_sample_rate() {
    let shifter = StampShifter { rate: RATE + 5 };
    let mut instrument = derivation_instrument(Some(261.63));
    let base = freq(261.63);
    instrument
        .keys
        .insert(base.bits, PCMAudio { samples: vec![vec![1]], sample_rate: RATE });
    let r = instrument.gen_key(&shifter, &freq(440.0), RATE);
    assert!(matches!(r, Err(MusicError::WrongSampleRate(_))));
    assert_eq!(instrument.keys.len(), 1);
}

#[test]
fn gen_key_propagates_shifter_failure() {
    let shifter = FailingShifter;
    let mut instrument = derivation_instrument(Some(261.63));
    let base = freq(261.63);
    instrument
        .keys
        .insert(base.bits, PCMAudio { samples: vec![vec![1]], sample_rate: RATE });
    let r = instrument.gen_key(&shifter, &freq(440.0), RATE);
    assert!(matches!(r, Err(MusicError::Capability(_))));
    assert_eq!(instrument.keys.len(), 1);
}

#[test]
fn change_pitch_validates_frequencies() {
    let shifter = StampShifter { rate: RATE };
    let mut pcm = PCMAudio { samples: vec![vec![1, 2]], sample_rate: RATE };
    let bad = freq(f64::NAN);
    let good = freq(440.0);
    assert!(matches!(
        pcm.change_pitch(&shifter, &bad, &good),
        Err(MusicError::NotValidFrequency(_))
    ));
    assert!(matches!(
        pcm.change_pitch(&shifter, &good, &bad),
        Err(MusicError::NotValidFrequency(_))
    ));
    assert_eq!(pcm.samples, vec![vec![1, 2]]);
    assert!(pcm.change_pitch(&shifter, &good, &freq(523.25)).is_ok());
}

#[test]
fn error_descriptions_are_stable() {
    assert_eq!(NoNotesInListError.description(), "There are no notes in the NotesList");
    assert_eq!(
        WrongSampleRateError.description(),
        "Custom Function returned PCM data at a different sample rate than the project default"
    );
    assert_eq!(NotValidFrequencyError.description(), "Value can not be a frequency");
    assert_eq!(
        MissingBaseFrequencyError.description(),
        "base_frequency value is not defined but needed"
    );
    assert_eq!(
        OriginalKeyNotFoundError.description(),
        "PCMAudio for key base_frequency is missing from keys HashMap"
    );
}
