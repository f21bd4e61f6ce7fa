use std::collections::HashMap;

use music_sequencer::{
    CapabilityError, Frequency, Instrument, InstrumentList, KeyGenerator, KeyHelper, MusicError,
    MusicSequencer, Note, NoteList, PCMAudio, PitchShifter,
};

const RATE: u32 = 48_000;

fn freq(value: f64) -> Frequency {
    Frequency { bits: value.to_bits() }
}

fn note(start_at: u32, end_at: u32, frequency: f64, instrument_id: u16) -> Note {
    Note {
        start_at,
        end_at,
        duration: end_at - start_at,
        frequency: freq(frequency),
        on_velocity: 100,
        off_velocity: 60,
        instrument_id,
    }
}

/// A generator whose samples carry the requested frequency's bits, at a
/// chosen rate.
struct TaggingGenerator {
    rate: u32,
}

impl KeyGenerator for TaggingGenerator {
    fn generate(&self, frequency: Frequency) -> Result<PCMAudio, CapabilityError> {
        Ok(PCMAudio { samples: vec![vec![frequency.bits]], sample_rate: self.rate })
    }
}

struct StampShifter {
    rate: u32,
}

impl PitchShifter for StampShifter {
    fn shift_pitch(
        &self,
        source: &PCMAudio,
        _source_frequency: Frequency,
        _target_frequency: Frequency,
    ) -> Result<PCMAudio, CapabilityError> {
        Ok(PCMAudio { samples: source.samples.clone(), sample_rate: self.rate })
    }
}

fn sequencer_with(
    notes: Vec<Note>,
    instruments: HashMap<u16, Instrument<TaggingGenerator>>,
) -> MusicSequencer<TaggingGenerator> {
    MusicSequencer {
        pcm: PCMAudio { samples: Vec::new(), sample_rate: RATE },
        note_list: NoteList { notes },
        instrument_list: InstrumentList { instruments },
        sample_rate: RATE,
    }
}

fn direct(rate: u32) -> Instrument<TaggingGenerator> {
    Instrument {
        loopable: false,
        keys: HashMap::new(),
        base_frequency: None,
        key_gen_function: Some(TaggingGenerator { rate }),
    }
}

#[test]
fn render_fills_every_required_key() {
    let mut instruments = HashMap::new();
    instruments.insert(1, direct(RATE));
    instruments.insert(2, direct(RATE));
    let mut sequencer = sequencer_with(
        vec![
            note(0, 10, 440.0, 1),
            note(5, 15, 523.25, 1),
            note(0, 10, 220.0, 2),
            note(20, 30, 440.0, 1),
        ],
        instruments,
    );
    let shifter = StampShifter { rate: RATE };
    assert!(sequencer.gen_instrument_keys(&shifter).is_ok());
    let one = &sequencer.instrument_list.instruments[&1];
    let two = &sequencer.instrument_list.instruments[&2];
    assert_eq!(one.keys.len(), 2);
    assert!(one.keys.contains_key(&440.0f64.to_bits()));
    assert!(one.keys.contains_key(&523.25f64.to_bits()));
    assert_eq!(two.keys.len(), 1);
    assert!(two.keys.contains_key(&220.0f64.to_bits()));
    assert_eq!(one.keys[&440.0f64.to_bits()].sample_rate, RATE);
}

#[test]
fn render_on_empty_note_list_fails() {
    let mut instruments = HashMap::new();
    instruments.insert(1, direct(RATE));
    let mut sequencer = sequencer_with(Vec::new(), instruments);
    let shifter = StampShifter { rate: RATE };
    let r = sequencer.gen_instrument_keys(&shifter);
    assert!(matches!(r, Err(MusicError::NoNotesInList(_))));
}

#[test]
fn render_keeps_partial_progress_on_failure() {
    // instrument 1 generates at the right rate, instrument 5 at a wrong
    // one: the render fails, but instrument 1 keeps its key.
    let mut instruments = HashMap::new();
    instruments.insert(1, direct(RATE));
    instruments.insert(5, direct(RATE + 3));
    let mut sequencer = sequencer_with(
        vec![note(0, 10, 440.0, 1), note(5, 15, 220.0, 5)],
        instruments,
    );
    let shifter = StampShifter { rate: RATE };
    let r = sequencer.gen_instrument_keys(&shifter);
    assert!(matches!(r, Err(MusicError::WrongSampleRate(_))));
    let one = &sequencer.instrument_list.instruments[&1];
    let five = &sequencer.instrument_list.instruments[&5];
    assert!(one.keys.contains_key(&440.0f64.to_bits()));
    assert!(five.keys.is_empty());
}

#[test]
fn render_with_invalid_frequency_fails_fast() {
    let mut instruments = HashMap::new();
    instruments.insert(1, direct(RATE));
    let mut sequencer = sequencer_with(vec![note(0, 10, f64::NAN, 1)], instruments);
    let shifter = StampShifter { rate: RATE };
    let r = sequencer.gen_instrument_keys(&shifter);
    assert!(matches!(r, Err(MusicError::NotValidFrequency(_))));
    assert!(sequencer.instrument_list.instruments[&1].keys.is_empty());
}

#[test]
fn render_is_a_no_op_when_everything_is_cached() {
    let mut instrument = direct(RATE);
    instrument
        .keys
        .insert(440.0f64.to_bits(), PCMAudio { samples: vec![vec![9]], sample_rate: RATE });
    let mut instruments = HashMap::new();
    instruments.insert(1, instrument);
    let mut sequencer = sequencer_with(vec![note(0, 10, 440.0, 1)], instruments);
    let shifter = StampShifter { rate: RATE };
    assert!(sequencer.gen_instrument_keys(&shifter).is_ok());
    let one = &sequencer.instrument_list.instruments[&1];
    assert_eq!(one.keys.len(), 1);
    assert_eq!(one.keys[&440.0f64.to_bits()].samples, vec![vec![9]]);
}

#[test]
fn key_helper_pairs_start_and_stop() {
    let mut helper = KeyHelper::new();
    helper.start_note(4, freq(440.0), 90, 2);
    helper.stop_note(freq(440.0), 10, 30);
    let list = helper.get_note_list();
    assert_eq!(list.notes.len(), 1);
    let n = &list.notes[0];
    assert_eq!(n.start_at, 4);
    assert_eq!(n.end_at, 10);
    assert_eq!(n.duration, 6);
    assert_eq!(n.frequency.bits, 440.0f64.to_bits());
    assert_eq!(n.on_velocity, 90);
    assert_eq!(n.off_velocity, 30);
    assert_eq!(n.instrument_id, 2);
}

#[test]
fn key_helper_drops_unmatched_stop() {
    let mut helper = KeyHelper::new();
    helper.stop_note(freq(440.0), 10, 30);
    assert_eq!(helper.get_note_list().notes.len(), 0);
}

#[test]
fn key_helper_keeps_first_start_of_a_frequency() {
    let mut helper = KeyHelper::new();
    helper.start_note(4, freq(440.0), 90, 2);
    helper.start_note(6, freq(440.0), 50, 3);
    helper.stop_note(freq(440.0), 10, 30);
    let list = helper.get_note_list();
    assert_eq!(list.notes.len(), 1);
    assert_eq!(list.notes[0].start_at, 4);
    assert_eq!(list.notes[0].instrument_id, 2);
}

#[test]
fn key_helper_tracks_frequencies_independently() {
    let mut helper = KeyHelper::new();
    helper.start_note(0, freq(440.0), 90, 1);
    helper.start_note(2, freq(523.25), 80, 1);
    helper.stop_note(freq(523.25), 5, 20);
    helper.stop_note(freq(440.0), 9, 10);
    let list = helper.get_note_list();
    assert_eq!(list.notes.len(), 2);
    assert_eq!(list.notes[0].frequency.bits, 523.25f64.to_bits());
    assert_eq!(list.notes[1].frequency.bits, 440.0f64.to_bits());
}
