use vstd::prelude::*;

use crate::error::{CapabilityError, MusicError, NotValidFrequencyError, WrongSampleRateError};
use crate::frequency::Frequency;

verus! {

/// A buffer of PCM samples tagged with the sample rate it was produced at.
/// Each channel is a sequence of samples, each sample carried as the bit
/// pattern of an IEEE 754 binary64 number; callers that hold floating-point
/// samples convert them with `f64::to_bits` at the boundary. Once a sample
/// is cached for use its rate must match the project-wide configured rate.
#[derive(Clone, Debug)]
pub struct PCMAudio {
    pub samples: Vec<Vec<u64>>,
    pub sample_rate: u32,
}

/// The pitch-shift capability: given a source sample, the frequency it was
/// recorded at and a target frequency, produce a new sample at the target
/// frequency. The core does not implement this DSP routine and does not
/// trust it: the caller of the capability validates the result's sample
/// rate itself, and any failure the capability reports is propagated as an
/// opaque error.
pub trait PitchShifter {
    /// Produces a new sample at `target_frequency` from `source`, which was
    /// recorded at `source_frequency`.
    fn shift_pitch(
        &self,
        source: &PCMAudio,
        source_frequency: Frequency,
        target_frequency: Frequency,
    ) -> Result<PCMAudio, CapabilityError>;
}

/// The core's validation of what a capability returned: a sample at the
/// configured project rate is accepted exactly as it came back, and a
/// sample at any other rate is rejected with a sample-rate mismatch, to
/// be discarded by the caller. Every sample that enters a cache passes
/// through here.
pub fn accept_generated(new_key: PCMAudio, project_sample_rate: u32) -> (r: Result<
    PCMAudio,
    MusicError,
>)
    ensures
        new_key.sample_rate == project_sample_rate ==> r == Ok::<PCMAudio, MusicError>(new_key),
        new_key.sample_rate != project_sample_rate ==> r == Err::<PCMAudio, MusicError>(
            MusicError::WrongSampleRate(WrongSampleRateError),
        ),
{
    if new_key.sample_rate == project_sample_rate {
        Ok(new_key)
    } else {
        Err(MusicError::WrongSampleRate(WrongSampleRateError))
    }
}

impl PCMAudio {
    /// Re-pitches this sample in place: both frequencies are validated,
    /// then the supplied pitch-shift capability produces the new buffer.
    /// On any failure the sample is left untouched.
    pub fn change_pitch<P: PitchShifter>(
        &mut self,
        shifter: &P,
        original_frequency: &Frequency,
        target_frequency: &Frequency,
    ) -> (r: Result<(), MusicError>)
        ensures
            r == Err::<(), MusicError>(MusicError::NotValidFrequency(NotValidFrequencyError))
                <==> (!original_frequency.valid() || !target_frequency.valid()),
            r is Err ==> *final(self) == *old(self) && (r matches Err(e) && (e matches
                MusicError::NotValidFrequency(..) || e matches MusicError::Capability(..))),
            r is Ok ==> original_frequency.valid() && target_frequency.valid(),
    {
        if !original_frequency.is_valid() || !target_frequency.is_valid() {
            return Err(MusicError::NotValidFrequency(NotValidFrequencyError));
        }
        match shifter.shift_pitch(self, *original_frequency, *target_frequency) {
            Ok(shifted) => {
                *self = shifted;
                Ok(())
            },
            Err(e) => Err(MusicError::Capability(e)),
        }
    }
}

} // verus!
