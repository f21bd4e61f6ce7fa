use vstd::prelude::*;

use crate::analysis::{
    frequencies_for, instrument_ids, insert_by_start, lemma_insert_by_start_split,
    lemma_max_overlap_permutation, lemma_sort_by_start_ensures, lemma_survivors_compose,
    lemma_survivors_len, lemma_sweep_is_max_overlap, lemma_take_step,
    lemma_well_timed_permutation, max_overlap, nat_max, sort_by_start, sorted_by_start,
    still_active, survivors, sweep_max, well_timed, window_after, window_size,
};
use crate::error::NoNotesInListError;
use crate::frequency::Frequency;

verus! {

/// One sounded pitch event: a note starts, sounds at one frequency on one
/// instrument, and ends. Its invariant: the end does not precede the start
/// and the duration is exactly their difference.
#[derive(Clone, Copy, Debug, PartialEq, Eq, Structural)]
pub struct Note {
    pub start_at: u32,
    pub end_at: u32,
    pub duration: u32,
    pub frequency: Frequency,
    pub on_velocity: u32,
    pub off_velocity: u32,
    pub instrument_id: u16,
}

/// An ordered collection of notes. Analysis calls may reorder it (sorting
/// by start time is destructive); callers needing the original order must
/// retain a copy beforehand.
#[derive(Clone, Debug)]
pub struct NoteList {
    pub notes: Vec<Note>,
}

/// One row of the required-frequency table: the distinct frequencies,
/// in first-occurrence order, referenced by the notes of one instrument.
#[derive(Clone, Debug)]
pub struct InstrumentFrequencies {
    pub instrument_id: u16,
    pub frequencies: Vec<Frequency>,
}

impl NoteList {
    /// An empty note list.
    pub fn new() -> (r: NoteList)
        ensures
            r.notes@ == Seq::<Note>::empty(),
    {
        NoteList { notes: Vec::new() }
    }

    /// Appends one note at the end.
    pub fn add_note(&mut self, new_note: Note)
        ensures
            final(self).notes@ == old(self).notes@.push(new_note),
    {
        self.notes.push(new_note);
    }

    /// Reorders the notes in place by non-decreasing start time. The sort
    /// is stable: notes with equal start times keep their original
    /// relative order. This is destructive; callers needing the original
    /// order must retain a copy beforehand.
    pub fn sort_by_time(&mut self)
        ensures
            final(self).notes@ == sort_by_start(old(self).notes@),
    {
        let ghost orig = self.notes@;
        let mut sorted_notes: Vec<Note> = Vec::new();
        let n: usize = self.notes.len();
        let mut i: usize = 0;
        while i < n
            invariant
                i <= n,
                n == orig.len(),
                self.notes@ == orig,
                sorted_notes@ == sort_by_start(orig.take(i as int)),
            decreases n - i,
        {
            let note = self.notes[i];
            let mut p: usize = sorted_notes.len();
            while p > 0 && sorted_notes[p - 1].start_at > note.start_at
                invariant
                    p <= sorted_notes@.len(),
                    forall|j: int|
                        p <= j < sorted_notes@.len() ==> (#[trigger] sorted_notes@[j]).start_at
                            > note.start_at,
                decreases p,
            {
                p = p - 1;
            }
            proof {
                lemma_insert_by_start_split(sorted_notes@, note, p as int);
                lemma_take_step(orig, i as int);
            }
            sorted_notes.insert(p, note);
            assert(sorted_notes@ == insert_by_start(sort_by_start(orig.take(i as int)), note));
            i = i + 1;
        }
        proof {
            assert(orig.take(n as int) =~= orig);
        }
        self.notes = sorted_notes;
    }

    /// Sorts the notes by start time (destructively, see
    /// [`Self::sort_by_time`]) and sweeps them once, keeping a window of
    /// the notes still sounding as each note is admitted: a note whose end
    /// precedes the admitted note's start is evicted first. The largest
    /// window observed is exactly the maximum number of notes sounding
    /// simultaneously. Fails when the list holds no notes.
    pub fn calc_max_notes_at_once(&mut self) -> (r: Result<u32, NoNotesInListError>)
        requires
            well_timed(old(self).notes@),
            old(self).notes@.len() <= u32::MAX,
        ensures
            final(self).notes@ == sort_by_start(old(self).notes@),
            match r {
                Ok(m) => old(self).notes@.len() > 0 && m as nat == max_overlap(old(self).notes@)
                    && m >= 1,
                Err(_) => old(self).notes@.len() == 0,
            },
    {
        if self.notes.is_empty() {
            proof {
                assert(self.notes@ =~= Seq::<Note>::empty());
                assert(sort_by_start(Seq::<Note>::empty()) == Seq::<Note>::empty());
            }
            return Err(NoNotesInListError);
        }
        let ghost orig = self.notes@;
        self.sort_by_time();
        let ghost s = self.notes@;
        proof {
            lemma_sort_by_start_ensures(orig);
            lemma_well_timed_permutation(orig, s);
        }
        let n: usize = self.notes.len();
        let mut window: Vec<Note> = Vec::new();
        let mut best: usize = 0;
        let mut i: usize = 0;
        while i < n
            invariant
                i <= n,
                n == s.len(),
                0 < s.len() <= u32::MAX,
                self.notes@ == s,
                sorted_by_start(s),
                well_timed(s),
                best == sweep_max(s, i as int),
                best <= i,
                i == 0 ==> window@ == Seq::<Note>::empty(),
                i > 0 ==> window@ == window_after(s, i as int - 1),
            decreases n - i,
        {
            let cur = self.notes[i];
            let mut kept: Vec<Note> = Vec::new();
            let wlen: usize = window.len();
            proof {
                assert(window@.take(0int) =~= Seq::<Note>::empty());
                assert(survivors(Seq::<Note>::empty(), cur.start_at) == Seq::<Note>::empty());
            }
            let mut j: usize = 0;
            while j < wlen
                invariant
                    j <= wlen,
                    wlen == window@.len(),
                    kept@ == survivors(window@.take(j as int), cur.start_at),
                decreases wlen - j,
            {
                let w = window[j];
                proof {
                    lemma_take_step(window@, j as int);
                }
                if cur.start_at <= w.end_at {
                    kept.push(w);
                }
                j = j + 1;
            }
            proof {
                assert(window@.take(wlen as int) =~= window@);
                if i == 0 {
                    assert(s.take(0int) =~= Seq::<Note>::empty());
                    assert(survivors(s.take(0int), cur.start_at) == Seq::<Note>::empty());
                } else {
                    assert(s[i as int - 1].start_at <= s[i as int].start_at);
                    lemma_survivors_compose(
                        s.take(i as int),
                        s[i as int - 1].start_at,
                        cur.start_at,
                    );
                }
                // kept now holds exactly the notes of the sorted prefix
                // that are still sounding at the admitted note's start
                assert(kept@ == survivors(s.take(i as int), cur.start_at));
            }
            window = kept;
            proof {
                lemma_take_step(s, i as int);
                assert(s[i as int].start_at <= s[i as int].end_at);
                assert(still_active(cur, cur.start_at));
            }
            window.push(cur);
            proof {
                assert(window@ == window_after(s, i as int));
                lemma_survivors_len(s.take(i as int + 1), cur.start_at);
                assert(window@.len() <= i + 1);
            }
            if window.len() > best {
                best = window.len();
            }
            proof {
                assert(sweep_max(s, i as int + 1) == nat_max(
                    window_size(s, i as int),
                    sweep_max(s, i as int),
                ));
            }
            i = i + 1;
        }
        proof {
            lemma_sweep_is_max_overlap(s);
            lemma_max_overlap_permutation(s, orig);
        }
        Ok(best as u32)
    }

    /// Produces, per instrument referenced by the notes, the distinct
    /// frequencies that instrument must render. Rows appear in the order
    /// each instrument is first referenced, and each row's frequencies in
    /// the order they are first referenced for that instrument, without
    /// repetition (by exact bit equality). Fails when the list holds no
    /// notes: an empty score has no sound to render, and the caller is
    /// told apart from a successful no-op.
    pub fn list_frequencies_used_by_instruments(&self) -> (r: Result<
        Vec<InstrumentFrequencies>,
        NoNotesInListError,
    >)
        ensures
            match r {
                Ok(table) => {
                    &&& self.notes@.len() > 0
                    &&& table@.len() == instrument_ids(self.notes@).len()
                    &&& forall|k: int|
                        0 <= k < table@.len() ==> (#[trigger] table@[k]).instrument_id
                            == instrument_ids(self.notes@)[k]
                    &&& forall|k: int|
                        0 <= k < table@.len() ==> (#[trigger] table@[k]).frequencies@
                            == frequencies_for(self.notes@, table@[k].instrument_id)
                },
                Err(_) => self.notes@.len() == 0,
            },
    {
        if self.notes.is_empty() {
            return Err(NoNotesInListError);
        }
        let ghost s = self.notes@;
        let n: usize = self.notes.len();
        let mut ids: Vec<u16> = Vec::new();
        proof {
            assert(s.take(0int) =~= Seq::<Note>::empty());
        }
        let mut i: usize = 0;
        while i < n
            invariant
                i <= n,
                n == s.len(),
                self.notes@ == s,
                ids@ == instrument_ids(s.take(i as int)),
            decreases n - i,
        {
            let note_id = self.notes[i].instrument_id;
            proof {
                lemma_take_step(s, i as int);
            }
            if !contains_id(&ids, note_id) {
                ids.push(note_id);
            }
            i = i + 1;
        }
        proof {
            assert(s.take(n as int) =~= s);
        }
        let mut table: Vec<InstrumentFrequencies> = Vec::new();
        let mut k: usize = 0;
        while k < ids.len()
            invariant
                k <= ids@.len(),
                n == s.len(),
                self.notes@ == s,
                ids@ == instrument_ids(s),
                table@.len() == k,
                forall|m: int|
                    0 <= m < k ==> (#[trigger] table@[m]).instrument_id == ids@[m],
                forall|m: int|
                    0 <= m < k ==> (#[trigger] table@[m]).frequencies@ == frequencies_for(
                        s,
                        ids@[m],
                    ),
            decreases ids@.len() - k,
        {
            let id = ids[k];
            let mut freqs: Vec<Frequency> = Vec::new();
            proof {
                assert(s.take(0int) =~= Seq::<Note>::empty());
            }
            let mut i2: usize = 0;
            while i2 < n
                invariant
                    i2 <= n,
                    n == s.len(),
                    self.notes@ == s,
                    freqs@ == frequencies_for(s.take(i2 as int), id),
                decreases n - i2,
            {
                let note = self.notes[i2];
                proof {
                    lemma_take_step(s, i2 as int);
                }
                if note.instrument_id == id {
                    if !contains_frequency(&freqs, note.frequency) {
                        freqs.push(note.frequency);
                    }
                }
                i2 = i2 + 1;
            }
            proof {
                assert(s.take(n as int) =~= s);
            }
            table.push(InstrumentFrequencies { instrument_id: id, frequencies: freqs });
            k = k + 1;
        }
        Ok(table)
    }

    /// Moves every note of `other` to the end of this list, leaving
    /// `other` empty.
    pub fn merge_other(&mut self, other: &mut NoteList)
        ensures
            final(self).notes@ == old(self).notes@ + old(other).notes@,
            final(other).notes@ == Seq::<Note>::empty(),
    {
        self.notes.append(&mut other.notes);
    }
}

/// Linear search for an instrument identifier.
fn contains_id(v: &Vec<u16>, x: u16) -> (r: bool)
    ensures
        r == v@.contains(x),
{
    let mut k: usize = 0;
    while k < v.len()
        invariant
            k <= v@.len(),
            forall|m: int| 0 <= m < k ==> v@[m] != x,
        decreases v@.len() - k,
    {
        if v[k] == x {
            return true;
        }
        k = k + 1;
    }
    false
}

/// Linear search for a frequency, by exact bit equality.
fn contains_frequency(v: &Vec<Frequency>, f: Frequency) -> (r: bool)
    ensures
        r == v@.contains(f),
{
    let mut k: usize = 0;
    while k < v.len()
        invariant
            k <= v@.len(),
            forall|m: int| 0 <= m < k ==> v@[m] != f,
        decreases v@.len() - k,
    {
        if v[k].bits == f.bits {
            assert(v@[k as int] == f);
            return true;
        }
        k = k + 1;
    }
    false
}

impl Default for NoteList {
    /// An empty note list.
    fn default() -> (r: NoteList)
        ensures
            r.notes@ == Seq::<Note>::empty(),
    {
        NoteList::new()
    }
}

} // verus!
