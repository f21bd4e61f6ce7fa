//! Renders a symbolic music score into per-instrument, per-frequency audio
//! keys ready for mixing.
//!
//! A [`NoteList`] holds timed notes; its analysis derives, per instrument,
//! the distinct frequencies that are actually needed and the maximum
//! number of notes sounding at once. Each [`Instrument`] owns a cache
//! mapping a frequency to a validated [`PCMAudio`] sample, filled lazily:
//! either by a user-supplied generation capability or by pitch-shifting
//! the sample cached at the instrument's base frequency. The
//! [`MusicSequencer`] drives the analysis and the cache population.
//!
//! Frequencies are carried as exact IEEE 754 binary64 bit patterns (see
//! [`Frequency`]), so cache keys use exact, bit-identical equality and
//! NaN never reaches a key.

pub mod analysis;
pub mod error;
pub mod frequency;
pub mod instrument;
pub mod notes;
pub mod pcm;
pub mod sequencer;
pub mod utils;

pub use error::{
    CapabilityError, MissingBaseFrequencyError, MusicError, NoNotesInListError,
    NotValidFrequencyError, OriginalKeyNotFoundError, WrongSampleRateError,
    check_correct_frequency,
};
pub use frequency::Frequency;
pub use instrument::{Instrument, InstrumentList, KeyGenerator};
pub use notes::{InstrumentFrequencies, Note, NoteList};
pub use pcm::{accept_generated, PCMAudio, PitchShifter};
pub use sequencer::MusicSequencer;
pub use utils::{KeyHelper, PartialNote};
