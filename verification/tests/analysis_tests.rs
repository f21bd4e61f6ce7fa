use music_sequencer::{Frequency, Note, NoteList};

fn freq(value: f64) -> Frequency {
    Frequency { bits: value.to_bits() }
}

fn note(start_at: u32, end_at: u32, frequency: f64, instrument_id: u16) -> Note {
    Note {
        start_at,
        end_at,
        duration: end_at - start_at,
        frequency: freq(frequency),
        on_velocity: 100,
        off_velocity: 60,
        instrument_id,
    }
}

#[test]
fn empty_list_analysis_fails() {
    let mut list = NoteList::new();
    assert!(list.calc_max_notes_at_once().is_err());
    assert!(list.list_frequencies_used_by_instruments().is_err());
}

#[test]
fn overlapping_pair_counts_two() {
    // (0,10), (5,15) and (20,30) on one instrument at one frequency:
    // only the first two sound together.
    let mut list = NoteList::new();
    list.add_note(note(0, 10, 440.0, 1));
    list.add_note(note(5, 15, 440.0, 1));
    list.add_note(note(20, 30, 440.0, 1));
    assert_eq!(list.calc_max_notes_at_once().unwrap(), 2);
}

#[test]
fn single_note_counts_one() {
    let mut list = NoteList::new();
    list.add_note(note(3, 9, 440.0, 1));
    assert_eq!(list.calc_max_notes_at_once().unwrap(), 1);
}

#[test]
fn touching_endpoints_overlap() {
    // A note ending exactly when another starts still sounds at that
    // instant: the sweep evicts only notes that ended strictly earlier.
    let mut list = NoteList::new();
    list.add_note(note(0, 5, 440.0, 1));
    list.add_note(note(5, 9, 440.0, 1));
    assert_eq!(list.calc_max_notes_at_once().unwrap(), 2);
}

#[test]
fn disjoint_notes_count_one() {
    let mut list = NoteList::new();
    list.add_note(note(0, 1, 440.0, 1));
    list.add_note(note(2, 3, 440.0, 1));
    list.add_note(note(4, 5, 440.0, 1));
    assert_eq!(list.calc_max_notes_at_once().unwrap(), 1);
}

#[test]
fn all_simultaneous_count_all() {
    let mut list = NoteList::new();
    for _ in 0..4 {
        list.add_note(note(10, 20, 440.0, 1));
    }
    assert_eq!(list.calc_max_notes_at_once().unwrap(), 4);
}

fn brute_force_max_overlap(notes: &[Note]) -> u32 {
    let mut best: u32 = 0;
    for probe in notes {
        let t = probe.start_at;
        let sounding = notes
            .iter()
            .filter(|n| n.start_at <= t && t <= n.end_at)
            .count() as u32;
        best = best.max(sounding);
    }
    best
}

#[test]
fn sweep_matches_brute_force_on_random_inputs() {
    // A small linear-congruential generator gives reproducible inputs.
    let mut state: u64 = 0x2545_f491_4f6c_dd1d;
    let mut next = move || {
        state = state.wrapping_mul(6364136223846793005).wrapping_add(1442695040888963407);
        (state >> 33) as u32
    };
    for round in 0..50 {
        let count = 1 + (next() % 12) as usize;
        let mut list = NoteList::new();
        for _ in 0..count {
            let start = next() % 40;
            let len = next() % 15;
            list.add_note(note(start, start + len, 440.0, (round % 3) as u16));
        }
        let expected = brute_force_max_overlap(&list.notes);
        let got = list.calc_max_notes_at_once().unwrap();
        assert_eq!(got, expected);
        assert!(got >= 1);
    }
}

#[test]
fn sort_by_time_orders_and_keeps_ties_stable() {
    let mut list = NoteList::new();
    list.add_note(note(9, 10, 440.0, 1));
    list.add_note(note(2, 4, 220.0, 2));
    list.add_note(note(9, 12, 330.0, 3));
    list.add_note(note(0, 1, 110.0, 4));
    list.sort_by_time();
    let starts: Vec<u32> = list.notes.iter().map(|n| n.start_at).collect();
    assert_eq!(starts, vec![0, 2, 9, 9]);
    // the two notes starting at 9 keep their original relative order
    assert_eq!(list.notes[2].instrument_id, 1);
    assert_eq!(list.notes[3].instrument_id, 3);
}

#[test]
fn required_frequencies_dedup_in_first_occurrence_order() {
    // instrument 1 at 440.0, 440.0, 523.25: the repeat is dropped and the
    // order of first occurrence is kept.
    let mut list = NoteList::new();
    list.add_note(note(0, 1, 440.0, 1));
    list.add_note(note(2, 3, 440.0, 1));
    list.add_note(note(4, 5, 523.25, 1));
    let table = list.list_frequencies_used_by_instruments().unwrap();
    assert_eq!(table.len(), 1);
    assert_eq!(table[0].instrument_id, 1);
    let freqs: Vec<f64> = table[0]
        .frequencies
        .iter()
        .map(|f| f64::from_bits(f.bits))
        .collect();
    assert_eq!(freqs, vec![440.0, 523.25]);
}

#[test]
fn required_frequencies_group_by_instrument() {
    let mut list = NoteList::new();
    list.add_note(note(0, 1, 440.0, 7));
    list.add_note(note(1, 2, 220.0, 3));
    list.add_note(note(2, 3, 523.25, 7));
    list.add_note(note(3, 4, 220.0, 3));
    let table = list.list_frequencies_used_by_instruments().unwrap();
    assert_eq!(table.len(), 2);
    assert_eq!(table[0].instrument_id, 7);
    assert_eq!(table[1].instrument_id, 3);
    assert_eq!(table[0].frequencies.len(), 2);
    assert_eq!(table[1].frequencies.len(), 1);
    assert_eq!(table[1].frequencies[0].bits, 220.0f64.to_bits());
}

#[test]
fn add_and_merge_concatenate() {
    let mut first = NoteList::new();
    first.add_note(note(0, 1, 440.0, 1));
    let mut second = NoteList::new();
    second.add_note(note(2, 3, 220.0, 2));
    second.add_note(note(4, 5, 330.0, 3));
    first.merge_other(&mut second);
    assert_eq!(first.notes.len(), 3);
    assert_eq!(second.notes.len(), 0);
    assert_eq!(first.notes[1].instrument_id, 2);
    assert_eq!(first.notes[2].instrument_id, 3);
}
