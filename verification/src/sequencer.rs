use vstd::prelude::*;

use crate::analysis::{
    frequencies_for, instrument_ids, lemma_frequencies_for_contains, lemma_instrument_ids_contains,
    lemma_instrument_ids_distinct,
};
use crate::error::MusicError;
use crate::frequency::Frequency;
use crate::instrument::{gen_key_post, Instrument, InstrumentList, KeyGenerator};
use crate::notes::{Note, NoteList};
use crate::pcm::{PCMAudio, PitchShifter};

verus! {

/// Every note's frequency is valid and already cached by the note's
/// instrument: nothing is left for key generation to do.
pub open spec fn all_keys_cached<G>(s: Seq<Note>, instruments: Map<u16, Instrument<G>>) -> bool {
    forall|i: int|
        0 <= i < s.len() ==> {
            let n = #[trigger] s[i];
            &&& n.frequency.valid()
            &&& instruments.contains_key(n.instrument_id)
            &&& instruments[n.instrument_id].keys@.contains_key(n.frequency.bits)
        }
}

/// The cache grew and nothing else moved: the instrument keeps its
/// configuration, loses no cached key, and every key it gained holds a
/// sample at the configured project rate.
pub open spec fn cache_only_grew<G>(pre: Instrument<G>, post: Instrument<G>, rate: u32) -> bool {
    &&& post.loopable == pre.loopable
    &&& post.base_frequency == pre.base_frequency
    &&& post.key_gen_function == pre.key_gen_function
    &&& pre.keys@.submap_of(post.keys@)
    &&& forall|b: u64|
        #[trigger] post.keys@.contains_key(b) && !pre.keys@.contains_key(b)
            ==> post.keys@[b].sample_rate == rate
}

/// Growing a cache twice grows it once.
proof fn lemma_cache_only_grew_trans<G>(
    a: Instrument<G>,
    b: Instrument<G>,
    c: Instrument<G>,
    rate: u32,
)
    requires
        cache_only_grew(a, b, rate),
        cache_only_grew(b, c, rate),
    ensures
        cache_only_grew(a, c, rate),
{
    vstd::map_lib::lemma_submap_of_trans(a.keys@, b.keys@, c.keys@);
    assert forall|k: u64|
        #[trigger] c.keys@.contains_key(k) && !a.keys@.contains_key(k)
            implies c.keys@[k].sample_rate == rate by {
        if b.keys@.contains_key(k) {
            assert(b.keys@[k] == c.keys@[k]);
        }
    }
}

/// One step of key generation leaves a cache that only grew.
proof fn lemma_gen_key_only_grows<G>(
    pre: Instrument<G>,
    post: Instrument<G>,
    frequency: Frequency,
    rate: u32,
    r: Result<(), MusicError>,
)
    requires
        gen_key_post(pre, post, frequency, rate, r),
    ensures
        cache_only_grew(pre, post, rate),
{
    if r is Err {
        assert(post == pre);
        assert(pre.keys@.submap_of(post.keys@));
    } else if !pre.keys@.contains_key(frequency.bits) {
        assert(post.keys@ == pre.keys@.insert(frequency.bits, post.keys@[frequency.bits]));
        assert(pre.keys@.submap_of(post.keys@));
    } else {
        assert(post == pre);
        assert(pre.keys@.submap_of(post.keys@));
    }
}

/// If every frequency an instrument must render was cached and valid to
/// begin with, each listed frequency is present in that instrument's
/// cache.
proof fn lemma_row_frequency_cached<G>(
    s: Seq<Note>,
    instruments: Map<u16, Instrument<G>>,
    id: u16,
    f: Frequency,
)
    requires
        all_keys_cached(s, instruments),
        frequencies_for(s, id).contains(f),
    ensures
        instruments.contains_key(id),
        f.valid(),
        instruments[id].keys@.contains_key(f.bits),
{
    lemma_frequencies_for_contains(s, id, f);
    let i = choose|i: int|
        0 <= i < s.len() && (#[trigger] s[i]).instrument_id == id && s[i].frequency == f;
    assert(s[i].frequency.valid());
}

/// Every row of the required-frequency table before row `m` is fully
/// cached: each of its frequencies has an entry in its instrument's cache.
pub open spec fn rows_cached_before<G>(
    s: Seq<Note>,
    instruments: Map<u16, Instrument<G>>,
    m: int,
) -> bool {
    forall|m2: int, jj: int|
        0 <= m2 < m && 0 <= jj < frequencies_for(s, instrument_ids(s)[m2]).len()
            ==> instruments[instrument_ids(s)[m2]].keys@.contains_key(
            (#[trigger] frequencies_for(s, instrument_ids(s)[m2])[jj]).bits,
        )
}

/// Row `m` of the required-frequency table is cached for its first `upto`
/// frequencies.
pub open spec fn row_cached_upto<G>(
    s: Seq<Note>,
    instruments: Map<u16, Instrument<G>>,
    m: int,
    upto: int,
) -> bool {
    forall|jj: int|
        0 <= jj < upto ==> instruments[instrument_ids(s)[m]].keys@.contains_key(
            (#[trigger] frequencies_for(s, instrument_ids(s)[m])[jj]).bits,
        )
}

/// Where a failed render stopped: key generation walked the table in
/// order and gave up at row `m`, frequency `jj`. Everything attempted
/// before that point is cached — earlier rows fully, row `m` up to `jj` —
/// and the failing frequency itself gained no entry (if it is valid; an
/// invalid one is rejected before the cache is even consulted).
pub open spec fn failed_at<G>(
    s: Seq<Note>,
    instruments: Map<u16, Instrument<G>>,
    m: int,
    jj: int,
) -> bool {
    &&& 0 <= m < instrument_ids(s).len()
    &&& 0 <= jj < frequencies_for(s, instrument_ids(s)[m]).len()
    &&& rows_cached_before(s, instruments, m)
    &&& row_cached_upto(s, instruments, m, jj)
    &&& (frequencies_for(s, instrument_ids(s)[m])[jj].valid()
        ==> !instruments[instrument_ids(s)[m]].keys@.contains_key(
            frequencies_for(s, instrument_ids(s)[m])[jj].bits,
        ))
}

/// Orchestrates a render: the note-list analysis feeds the per-instrument
/// key generation, against one explicit project-wide sample rate scoped to
/// this sequencer.
#[derive(Clone, Debug)]
pub struct MusicSequencer<G> {
    pub pcm: PCMAudio,
    pub note_list: NoteList,
    pub instrument_list: InstrumentList<G>,
    pub sample_rate: u32,
}

impl<G: KeyGenerator> MusicSequencer<G> {
    /// Ensures every frequency the notes demand is cached by its
    /// instrument: for each instrument of the analysis, every required
    /// frequency is generated on demand, in first-occurrence order. The
    /// call fails fast on the first error, and the keys cached up to that
    /// point stay cached: partial progress is kept, never rolled back.
    pub fn gen_instrument_keys<P: PitchShifter>(&mut self, shifter: &P) -> (r: Result<
        (),
        MusicError,
    >)
        requires
            forall|i: int|
                0 <= i < old(self).note_list.notes@.len()
                    ==> old(self).instrument_list.instruments@.contains_key(
                    (#[trigger] old(self).note_list.notes@[i]).instrument_id,
                ),
        ensures
            final(self).pcm == old(self).pcm,
            final(self).note_list == old(self).note_list,
            final(self).sample_rate == old(self).sample_rate,
            final(self).instrument_list.instruments@.dom()
                == old(self).instrument_list.instruments@.dom(),
            forall|id: u16|
                #[trigger] old(self).instrument_list.instruments@.contains_key(id)
                    ==> cache_only_grew(
                    old(self).instrument_list.instruments@[id],
                    final(self).instrument_list.instruments@[id],
                    old(self).sample_rate,
                ),
            r is Ok ==> old(self).note_list.notes@.len() > 0,
            r is Ok ==> forall|i: int|
                0 <= i < old(self).note_list.notes@.len() ==> {
                    let n = #[trigger] old(self).note_list.notes@[i];
                    &&& n.frequency.valid()
                    &&& final(self).instrument_list.instruments@[n.instrument_id].keys@
                        .contains_key(n.frequency.bits)
                },
            (r matches Err(MusicError::NoNotesInList(..))) <==> old(
                self,
            ).note_list.notes@.len() == 0,
            r is Err && old(self).note_list.notes@.len() > 0 ==> exists|m: int, jj: int|
                #[trigger] failed_at(
                    old(self).note_list.notes@,
                    final(self).instrument_list.instruments@,
                    m,
                    jj,
                ),
            old(self).note_list.notes@.len() > 0 && all_keys_cached(
                old(self).note_list.notes@,
                old(self).instrument_list.instruments@,
            ) ==> r is Ok && final(self).instrument_list.instruments@ == old(
                self,
            ).instrument_list.instruments@,
    {
        let table = match self.note_list.list_frequencies_used_by_instruments() {
            Ok(t) => t,
            Err(e) => {
                return Err(MusicError::NoNotesInList(e));
            },
        };
        let ghost s = self.note_list.notes@;
        let ghost insts0 = self.instrument_list.instruments@;
        let rate = self.sample_rate;
        let tlen: usize = table.len();
        let mut k: usize = 0;
        while k < tlen
            invariant
                k <= tlen,
                self.pcm == old(self).pcm,
                self.note_list == old(self).note_list,
                self.sample_rate == old(self).sample_rate,
                rate == old(self).sample_rate,
                s == old(self).note_list.notes@,
                insts0 == old(self).instrument_list.instruments@,
                s.len() > 0,
                forall|i: int|
                    0 <= i < s.len() ==> insts0.contains_key((#[trigger] s[i]).instrument_id),
                tlen == table@.len(),
                table@.len() == instrument_ids(s).len(),
                forall|m: int|
                    0 <= m < table@.len() ==> (#[trigger] table@[m]).instrument_id
                        == instrument_ids(s)[m],
                forall|m: int|
                    0 <= m < table@.len() ==> (#[trigger] table@[m]).frequencies@
                        == frequencies_for(s, table@[m].instrument_id),
                self.instrument_list.instruments@.dom() == insts0.dom(),
                forall|id: u16|
                    #[trigger] insts0.contains_key(id) ==> cache_only_grew(
                        insts0[id],
                        self.instrument_list.instruments@[id],
                        rate,
                    ),
                forall|m: int, jj: int|
                    0 <= m < k && 0 <= jj < table@[m].frequencies@.len() ==> {
                        let f = #[trigger] table@[m].frequencies@[jj];
                        &&& f.valid()
                        &&& self.instrument_list.instruments@[table@[m].instrument_id].keys@
                            .contains_key(f.bits)
                    },
                all_keys_cached(s, insts0) ==> self.instrument_list.instruments@ == insts0,
            decreases tlen - k,
        {
            let row_id = table[k].instrument_id;
            proof {
                assert(instrument_ids(s)[k as int] == row_id);
                assert(instrument_ids(s).contains(row_id));
                lemma_instrument_ids_contains(s, row_id);
                let i = choose|i: int|
                    0 <= i < s.len() && (#[trigger] s[i]).instrument_id == row_id;
                assert(insts0.contains_key(row_id));
            }
            let ghost m_start = self.instrument_list.instruments@;
            // the identifier was just shown to be present in the map, so
            // taking its instrument out cannot miss
            let mut instrument = match self.instrument_list.instruments.remove(&row_id) {
                Some(inst) => inst,
                None => unreached(),
            };
            let nf: usize = table[k].frequencies.len();
            let mut j: usize = 0;
            while j < nf
                invariant
                    j <= nf,
                    self.pcm == old(self).pcm,
                    self.note_list == old(self).note_list,
                    self.sample_rate == old(self).sample_rate,
                    rate == old(self).sample_rate,
                    s == old(self).note_list.notes@,
                    insts0 == old(self).instrument_list.instruments@,
                    s.len() > 0,
                    0 <= k < table@.len(),
                    tlen == table@.len(),
                    table@.len() == instrument_ids(s).len(),
                    forall|m: int|
                        0 <= m < table@.len() ==> (#[trigger] table@[m]).instrument_id
                            == instrument_ids(s)[m],
                    forall|m: int|
                        0 <= m < table@.len() ==> (#[trigger] table@[m]).frequencies@
                            == frequencies_for(s, table@[m].instrument_id),
                    nf == table@[k as int].frequencies@.len(),
                    row_id == table@[k as int].instrument_id,
                    m_start.contains_key(row_id),
                    m_start.dom() == insts0.dom(),
                    forall|id: u16|
                        #[trigger] insts0.contains_key(id) ==> cache_only_grew(
                            insts0[id],
                            m_start[id],
                            rate,
                        ),
                    forall|m: int, jj: int|
                        0 <= m < k && 0 <= jj < table@[m].frequencies@.len() ==> {
                            let f = #[trigger] table@[m].frequencies@[jj];
                            &&& f.valid()
                            &&& m_start[table@[m].instrument_id].keys@.contains_key(f.bits)
                        },
                    all_keys_cached(s, insts0) ==> m_start == insts0,
                    self.instrument_list.instruments@ == m_start.remove(row_id),
                    cache_only_grew(m_start[row_id], instrument, rate),
                    forall|jj: int|
                        0 <= jj < j ==> {
                            let f = #[trigger] table@[k as int].frequencies@[jj];
                            &&& f.valid()
                            &&& instrument.keys@.contains_key(f.bits)
                        },
                    all_keys_cached(s, insts0) ==> instrument == insts0[row_id],
                decreases nf - j,
            {
                let f = table[k].frequencies[j];
                let ghost instrument_pre = instrument;
                let result = instrument.gen_key(shifter, &f, rate);
                proof {
                    assert(gen_key_post(instrument_pre, instrument, f, rate, result));
                    lemma_gen_key_only_grows(instrument_pre, instrument, f, rate, result);
                    lemma_cache_only_grew_trans(
                        m_start[row_id],
                        instrument_pre,
                        instrument,
                        rate,
                    );
                    assert(frequencies_for(s, row_id)[j as int] == f);
                    assert(frequencies_for(s, row_id).contains(f));
                    if all_keys_cached(s, insts0) {
                        lemma_row_frequency_cached(s, insts0, row_id, f);
                        assert(instrument_pre == insts0[row_id]);
                        assert(instrument_pre.keys@.contains_key(f.bits));
                        assert(result is Ok && instrument == instrument_pre);
                    }
                }
                match result {
                    Ok(_) => {},
                    Err(e) => {
                        self.instrument_list.instruments.insert(row_id, instrument);
                        proof {
                            lemma_exit_state(
                                insts0,
                                m_start,
                                self.instrument_list.instruments@,
                                row_id,
                                instrument,
                                rate,
                            );
                            let m_now = self.instrument_list.instruments@;
                            assert(rows_cached_before(s, m_now, k as int)) by {
                                assert forall|m2: int, jj2: int|
                                    0 <= m2 < k && 0 <= jj2 < frequencies_for(
                                        s,
                                        instrument_ids(s)[m2],
                                    ).len() implies m_now[instrument_ids(s)[m2]].keys@
                                    .contains_key(
                                    (#[trigger] frequencies_for(
                                        s,
                                        instrument_ids(s)[m2],
                                    )[jj2]).bits,
                                ) by {
                                    lemma_instrument_ids_distinct(s, m2, k as int);
                                    assert(table@[m2].frequencies@[jj2].valid()
                                        && m_start[table@[m2].instrument_id].keys@.contains_key(
                                        table@[m2].frequencies@[jj2].bits,
                                    ));
                                    assert(m_now[instrument_ids(s)[m2]] == m_start[
                                        instrument_ids(s)[m2]]);
                                }
                            }
                            assert(row_cached_upto(s, m_now, k as int, j as int)) by {
                                assert forall|jj2: int| 0 <= jj2 < j implies m_now[
                                    instrument_ids(s)[k as int]].keys@.contains_key(
                                    (#[trigger] frequencies_for(
                                        s,
                                        instrument_ids(s)[k as int],
                                    )[jj2]).bits,
                                ) by {
                                    assert(table@[k as int].frequencies@[jj2].valid()
                                        && instrument.keys@.contains_key(
                                        table@[k as int].frequencies@[jj2].bits,
                                    ));
                                }
                            }
                            if f.valid() {
                                assert(!instrument_pre.keys@.contains_key(f.bits));
                            }
                            assert(failed_at(s, m_now, k as int, j as int));
                        }
                        return Err(e);
                    },
                }
                proof {
                    assert forall|jj: int| 0 <= jj < j + 1 implies {
                        let ff = #[trigger] table@[k as int].frequencies@[jj];
                        &&& ff.valid()
                        &&& instrument.keys@.contains_key(ff.bits)
                    } by {
                        let ff = table@[k as int].frequencies@[jj];
                        if jj < j {
                            assert(instrument_pre.keys@.contains_key(ff.bits));
                            assert(instrument_pre.keys@.submap_of(instrument.keys@));
                        }
                    }
                }
                j = j + 1;
            }
            self.instrument_list.instruments.insert(row_id, instrument);
            proof {
                lemma_exit_state(
                    insts0,
                    m_start,
                    self.instrument_list.instruments@,
                    row_id,
                    instrument,
                    rate,
                );
                if all_keys_cached(s, insts0) {
                    assert(self.instrument_list.instruments@ =~= insts0);
                }
                assert forall|m: int, jj: int|
                    0 <= m < k + 1 && 0 <= jj < table@[m].frequencies@.len() implies {
                    let f = #[trigger] table@[m].frequencies@[jj];
                    &&& f.valid()
                    &&& self.instrument_list.instruments@[table@[m].instrument_id].keys@
                        .contains_key(f.bits)
                } by {
                    if m < k {
                        lemma_instrument_ids_distinct(s, m, k as int);
                        assert(table@[m].instrument_id != row_id);
                        assert(self.instrument_list.instruments@[table@[m].instrument_id]
                            == m_start[table@[m].instrument_id]);
                    } else {
                        assert(self.instrument_list.instruments@[row_id] == instrument);
                    }
                }
            }
            k = k + 1;
        }
        proof {
            assert forall|i: int| 0 <= i < s.len() implies {
                let n = #[trigger] s[i];
                &&& n.frequency.valid()
                &&& self.instrument_list.instruments@[n.instrument_id].keys@.contains_key(
                    n.frequency.bits,
                )
            } by {
                let n = s[i];
                lemma_instrument_ids_contains(s, n.instrument_id);
                assert(instrument_ids(s).contains(n.instrument_id));
                let m = choose|m: int|
                    0 <= m < instrument_ids(s).len() && instrument_ids(s)[m] == n.instrument_id;
                lemma_frequencies_for_contains(s, n.instrument_id, n.frequency);
                assert(frequencies_for(s, n.instrument_id).contains(n.frequency));
                let jj = choose|jj: int|
                    0 <= jj < frequencies_for(s, n.instrument_id).len() && frequencies_for(
                        s,
                        n.instrument_id,
                    )[jj] == n.frequency;
                assert(table@[m].instrument_id == n.instrument_id);
                assert(table@[m].frequencies@[jj] == n.frequency);
            }
        }
        Ok(())
    }
}

/// Putting one processed instrument back: the map's domain is unchanged
/// and every cache has only grown since the start of the render.
proof fn lemma_exit_state<G>(
    insts0: Map<u16, Instrument<G>>,
    m_start: Map<u16, Instrument<G>>,
    m_now: Map<u16, Instrument<G>>,
    row_id: u16,
    instrument: Instrument<G>,
    rate: u32,
)
    requires
        m_start.contains_key(row_id),
        m_start.dom() == insts0.dom(),
        forall|id: u16|
            #[trigger] insts0.contains_key(id) ==> cache_only_grew(insts0[id], m_start[id], rate),
        cache_only_grew(m_start[row_id], instrument, rate),
        m_now == m_start.remove(row_id).insert(row_id, instrument),
    ensures
        m_now.dom() == insts0.dom(),
        forall|id: u16|
            #[trigger] insts0.contains_key(id) ==> cache_only_grew(insts0[id], m_now[id], rate),
        forall|id: u16| id != row_id && m_start.contains_key(id) ==> m_now[id] == m_start[id],
        m_now[row_id] == instrument,
{
    assert(m_now.dom() =~= insts0.dom());
    assert forall|id: u16| #[trigger] insts0.contains_key(id) implies cache_only_grew(
        insts0[id],
        m_now[id],
        rate,
    ) by {
        if id == row_id {
            lemma_cache_only_grew_trans(insts0[id], m_start[id], instrument, rate);
        } else {
            assert(m_now[id] == m_start[id]);
        }
    }
}

} // verus!
