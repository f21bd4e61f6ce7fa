use vstd::prelude::*;

use std::collections::HashMap;

use crate::error::{
    CapabilityError, MissingBaseFrequencyError, MusicError, NotValidFrequencyError,
    OriginalKeyNotFoundError,
};
use crate::error::check_correct_frequency;
use crate::frequency::Frequency;
use crate::pcm::{accept_generated, PCMAudio, PitchShifter};

verus! {

/// The direct-generation capability: synthesise a sample for a frequency
/// from nothing. The core does not trust it: the caller validates the
/// result's sample rate itself, and any failure the capability reports is
/// propagated as an opaque error.
pub trait KeyGenerator {
    /// Produces a sample that sounds at `frequency`.
    fn generate(&self, frequency: Frequency) -> Result<PCMAudio, CapabilityError>;
}

/// An instrument: a cache of validated samples keyed by the exact bit
/// pattern of the frequency they sound at, plus how missing keys are
/// produced. With a generator configured the instrument synthesises keys
/// directly; without one it derives them by pitch-shifting the cached
/// sample at its base frequency.
#[derive(Clone, Debug)]
pub struct Instrument<G> {
    pub loopable: bool,
    pub keys: HashMap<u64, PCMAudio>,
    pub base_frequency: Option<Frequency>,
    pub key_gen_function: Option<G>,
}

/// A mapping from instrument identifier to instrument; identifiers are
/// unique by construction of the map.
#[derive(Clone, Debug)]
pub struct InstrumentList<G> {
    pub instruments: HashMap<u16, Instrument<G>>,
}

/// On success the cache gained exactly one entry, at the requested
/// frequency's bits, holding a sample at the configured project rate;
/// every other entry is untouched.
pub open spec fn generated_entry<G>(
    pre: Instrument<G>,
    post: Instrument<G>,
    frequency: Frequency,
    project_sample_rate: u32,
) -> bool {
    &&& post.keys@.contains_key(frequency.bits)
    &&& post.keys@ == pre.keys@.insert(frequency.bits, post.keys@[frequency.bits])
    &&& post.keys@[frequency.bits].sample_rate == project_sample_rate
}

/// Everything `gen_key` guarantees, as a relation between the instrument
/// before the call, the instrument after it, and the result.
pub open spec fn gen_key_post<G>(
    pre: Instrument<G>,
    post: Instrument<G>,
    frequency: Frequency,
    project_sample_rate: u32,
    r: Result<(), MusicError>,
) -> bool {
    &&& post.loopable == pre.loopable
    &&& post.base_frequency == pre.base_frequency
    &&& post.key_gen_function == pre.key_gen_function
    &&& (r is Err ==> post == pre)
    &&& if !frequency.valid() {
        r == Err::<(), MusicError>(MusicError::NotValidFrequency(NotValidFrequencyError))
    } else if pre.keys@.contains_key(frequency.bits) {
        r == Ok::<(), MusicError>(()) && post == pre
    } else if pre.key_gen_function is Some {
        match r {
            Ok(_) => generated_entry(pre, post, frequency, project_sample_rate),
            Err(e) => e matches MusicError::WrongSampleRate(..) || e matches
                MusicError::Capability(..),
        }
    } else if pre.base_frequency is None {
        r == Err::<(), MusicError>(MusicError::MissingBaseFrequency(MissingBaseFrequencyError))
    } else if !pre.keys@.contains_key(pre.base_frequency->Some_0.bits) {
        r == Err::<(), MusicError>(MusicError::OriginalKeyNotFound(OriginalKeyNotFoundError))
    } else if !pre.base_frequency->Some_0.valid() {
        r == Err::<(), MusicError>(MusicError::NotValidFrequency(NotValidFrequencyError))
    } else {
        match r {
            Ok(_) => generated_entry(pre, post, frequency, project_sample_rate),
            Err(e) => e matches MusicError::WrongSampleRate(..) || e matches
                MusicError::Capability(..),
        }
    }
}

impl<G: KeyGenerator> Instrument<G> {
    /// Guarantees that a validated sample for `frequency` is cached,
    /// producing it on demand exactly once.
    ///
    /// The frequency is validated first; an already cached frequency is a
    /// no-op. Otherwise, with a generator configured it is invoked and the
    /// result's sample rate must equal `project_sample_rate`; without one
    /// the cached sample at the base frequency is pitch-shifted to the
    /// target. On any failure the cache is left exactly as it was.
    pub fn gen_key<P: PitchShifter>(
        &mut self,
        shifter: &P,
        frequency: &Frequency,
        project_sample_rate: u32,
    ) -> (r: Result<(), MusicError>)
        ensures
            gen_key_post(*old(self), *final(self), *frequency, project_sample_rate, r),
    {
        if let Err(e) = check_correct_frequency(frequency) {
            return Err(MusicError::NotValidFrequency(e));
        }
        if self.keys.contains_key(&frequency.bits) {
            return Ok(());
        }
        match &self.key_gen_function {
            Some(generator) => {
                let generated = match generator.generate(*frequency) {
                    Ok(k) => k,
                    Err(e) => {
                        return Err(MusicError::Capability(e));
                    },
                };
                let new_key = match accept_generated(generated, project_sample_rate) {
                    Ok(k) => k,
                    Err(e) => {
                        return Err(e);
                    },
                };
                self.keys.insert(frequency.bits, new_key);
                Ok(())
            },
            None => {
                let base_frequency = match self.base_frequency {
                    Some(b) => b,
                    None => {
                        return Err(MusicError::MissingBaseFrequency(MissingBaseFrequencyError));
                    },
                };
                let mut new_key = match self.keys.get(&base_frequency.bits) {
                    Some(k) => k.clone(),
                    None => {
                        return Err(MusicError::OriginalKeyNotFound(OriginalKeyNotFoundError));
                    },
                };
                match new_key.change_pitch(shifter, &base_frequency, frequency) {
                    Ok(_) => {},
                    Err(e) => {
                        return Err(e);
                    },
                }
                let new_key = match accept_generated(new_key, project_sample_rate) {
                    Ok(k) => k,
                    Err(e) => {
                        return Err(e);
                    },
                };
                self.keys.insert(frequency.bits, new_key);
                Ok(())
            },
        }
    }
}

/// Key generation is idempotent: once a call has succeeded for a
/// frequency, a repeated call for the same frequency succeeds as well and
/// changes nothing the second time.
pub proof fn lemma_gen_key_idempotent<G>(
    first: Instrument<G>,
    mid: Instrument<G>,
    last: Instrument<G>,
    frequency: Frequency,
    project_sample_rate: u32,
    r2: Result<(), MusicError>,
)
    requires
        frequency.valid(),
        gen_key_post(first, mid, frequency, project_sample_rate, Ok(())),
        gen_key_post(mid, last, frequency, project_sample_rate, r2),
    ensures
        r2 == Ok::<(), MusicError>(()),
        last == mid,
{
    assert(mid.keys@.contains_key(frequency.bits));
}

} // verus!
