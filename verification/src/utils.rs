use vstd::prelude::*;

use std::collections::HashMap;

use crate::frequency::Frequency;
use crate::notes::{Note, NoteList};

verus! {

/// A note that has started sounding and not yet ended.
#[derive(Clone, Copy, Debug, PartialEq, Eq, Structural)]
pub struct PartialNote {
    pub start_at: u32,
    pub on_velocity: u32,
    pub instrument: u16,
}

/// Pairs raw start/stop events into complete notes: a started note waits,
/// keyed by the exact bits of its frequency, until a matching stop event
/// arrives and the completed note joins the note list.
#[derive(Clone, Debug)]
pub struct KeyHelper {
    pub current_keys: HashMap<u64, PartialNote>,
    pub note_list: NoteList,
}

impl KeyHelper {
    /// A helper with no sounding notes and an empty note list.
    pub fn new() -> (r: KeyHelper)
        ensures
            r.current_keys@ == Map::<u64, PartialNote>::empty(),
            r.note_list.notes@ == Seq::<Note>::empty(),
    {
        KeyHelper { current_keys: HashMap::new(), note_list: NoteList::new() }
    }

    /// Records that a note started sounding at `frequency`. If a note at
    /// exactly that frequency is already sounding, the earlier start wins
    /// and this event is dropped.
    pub fn start_note(
        &mut self,
        start_at: u32,
        frequency: Frequency,
        on_velocity: u32,
        instrument: u16,
    )
        ensures
            final(self).note_list == old(self).note_list,
            old(self).current_keys@.contains_key(frequency.bits) ==> final(self).current_keys@
                == old(self).current_keys@,
            !old(self).current_keys@.contains_key(frequency.bits) ==> final(self).current_keys@
                == old(self).current_keys@.insert(
                frequency.bits,
                (PartialNote { start_at, on_velocity, instrument }),
            ),
    {
        if !self.current_keys.contains_key(&frequency.bits) {
            self.current_keys.insert(
                frequency.bits,
                PartialNote { start_at, on_velocity, instrument },
            );
        }
    }

    /// Records that the note sounding at `frequency` stopped: the matching
    /// started note, if any, is completed and appended to the note list. A
    /// stop with no matching start is dropped. The stop may not precede
    /// the matching start.
    pub fn stop_note(&mut self, frequency: Frequency, end_at: u32, off_velocity: u32)
        requires
            old(self).current_keys@.contains_key(frequency.bits) ==> old(
                self,
            ).current_keys@[frequency.bits].start_at <= end_at,
        ensures
            final(self).current_keys@ == old(self).current_keys@,
            !old(self).current_keys@.contains_key(frequency.bits) ==> *final(self) == *old(self),
            old(self).current_keys@.contains_key(frequency.bits) ==> {
                let partial = old(self).current_keys@[frequency.bits];
                final(self).note_list.notes@ == old(self).note_list.notes@.push(
                    (Note {
                        start_at: partial.start_at,
                        end_at,
                        duration: (end_at - partial.start_at) as u32,
                        frequency,
                        on_velocity: partial.on_velocity,
                        off_velocity,
                        instrument_id: partial.instrument,
                    }),
                )
            },
    {
        match self.current_keys.get(&frequency.bits) {
            Some(partial) => {
                let partial = *partial;
                let new_note = Note {
                    start_at: partial.start_at,
                    end_at,
                    duration: end_at - partial.start_at,
                    frequency,
                    on_velocity: partial.on_velocity,
                    off_velocity,
                    instrument_id: partial.instrument,
                };
                self.note_list.add_note(new_note);
            },
            None => {},
        }
    }

    /// A copy of the notes paired so far.
    pub fn get_note_list(&self) -> (r: NoteList)
        ensures
            r.notes@ == self.note_list.notes@,
    {
        let mut notes: Vec<Note> = Vec::new();
        let n: usize = self.note_list.notes.len();
        let mut i: usize = 0;
        while i < n
            invariant
                i <= n,
                n == self.note_list.notes@.len(),
                notes@ == self.note_list.notes@.take(i as int),
            decreases n - i,
        {
            notes.push(self.note_list.notes[i]);
            proof {
                assert(self.note_list.notes@.take(i as int + 1) =~= self.note_list.notes@.take(
                    i as int,
                ).push(self.note_list.notes@[i as int]));
            }
            i = i + 1;
        }
        proof {
            assert(self.note_list.notes@.take(n as int) =~= self.note_list.notes@);
        }
        NoteList { notes }
    }
}

impl Default for KeyHelper {
    /// A helper with no sounding notes and an empty note list.
    fn default() -> (r: KeyHelper)
        ensures
            r.current_keys@ == Map::<u64, PartialNote>::empty(),
            r.note_list.notes@ == Seq::<Note>::empty(),
    {
        KeyHelper::new()
    }
}

} // verus!
