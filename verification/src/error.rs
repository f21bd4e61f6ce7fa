use vstd::prelude::*;

use crate::frequency::Frequency;

verus! {

/// Analysis was requested on a note list that holds no notes.
#[derive(Clone, Copy, Debug, PartialEq, Eq, Structural)]
pub struct NoNotesInListError;

impl NoNotesInListError {
    /// A short account of the failure.
    pub fn description(&self) -> (r: &'static str)
        ensures
            r@ == "There are no notes in the NotesList"@,
    {
        "There are no notes in the NotesList"
    }
}

/// A generation capability returned PCM data at a different sample rate
/// than the project-wide configured rate.
#[derive(Clone, Copy, Debug, PartialEq, Eq, Structural)]
pub struct WrongSampleRateError;

impl WrongSampleRateError {
    /// A short account of the failure.
    pub fn description(&self) -> (r: &'static str)
        ensures
            r@ == "Custom Function returned PCM data at a different sample rate than the project default"@,
    {
        "Custom Function returned PCM data at a different sample rate than the project default"
    }
}

/// A value that is zero, subnormal, infinite, NaN or negative was offered
/// as a frequency.
#[derive(Clone, Copy, Debug, PartialEq, Eq, Structural)]
pub struct NotValidFrequencyError;

impl NotValidFrequencyError {
    /// A short account of the failure.
    pub fn description(&self) -> (r: &'static str)
        ensures
            r@ == "Value can not be a frequency"@,
    {
        "Value can not be a frequency"
    }
}

/// The derivation strategy was selected but the instrument has no base
/// frequency configured.
#[derive(Clone, Copy, Debug, PartialEq, Eq, Structural)]
pub struct MissingBaseFrequencyError;

impl MissingBaseFrequencyError {
    /// A short account of the failure.
    pub fn description(&self) -> (r: &'static str)
        ensures
            r@ == "base_frequency value is not defined but needed"@,
    {
        "base_frequency value is not defined but needed"
    }
}

/// The derivation strategy was selected but the cache holds no sample at
/// the instrument's base frequency.
#[derive(Clone, Copy, Debug, PartialEq, Eq, Structural)]
pub struct OriginalKeyNotFoundError;

impl OriginalKeyNotFoundError {
    /// A short account of the failure.
    pub fn description(&self) -> (r: &'static str)
        ensures
            r@ == "PCMAudio for key base_frequency is missing from keys HashMap"@,
    {
        "PCMAudio for key base_frequency is missing from keys HashMap"
    }
}

/// An opaque failure reported by a user-supplied capability (a key
/// generator or the pitch-shift routine). The core propagates it without
/// inspecting it.
#[derive(Clone, Debug, PartialEq, Eq)]
pub struct CapabilityError {
    pub message: String,
}

/// Every failure the core can report.
#[derive(Clone, Debug, PartialEq, Eq)]
pub enum MusicError {
    /// Analysis on an empty note list.
    NoNotesInList(NoNotesInListError),
    /// A capability produced a sample at the wrong sample rate.
    WrongSampleRate(WrongSampleRateError),
    /// A value unusable as a frequency.
    NotValidFrequency(NotValidFrequencyError),
    /// Derivation requested with no base frequency configured.
    MissingBaseFrequency(MissingBaseFrequencyError),
    /// Derivation requested with no cached sample at the base frequency.
    OriginalKeyNotFound(OriginalKeyNotFoundError),
    /// An opaque failure propagated from a capability.
    Capability(CapabilityError),
}

/// Accepts exactly the frequencies that stand for a positive, normal
/// number; anything else (zero, subnormal, infinite, NaN, negative) is
/// rejected.
pub fn check_correct_frequency(frequency: &Frequency) -> (r: Result<(), NotValidFrequencyError>)
    ensures
        r is Ok <==> frequency.valid(),
{
    if frequency.is_valid() {
        Ok(())
    } else {
        Err(NotValidFrequencyError)
    }
}

} // verus!
