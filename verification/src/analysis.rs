//! The mathematical model of the note-list analysis: what "sorted by start
//! time" means, what the true maximum number of simultaneously sounding
//! notes is, and which frequencies each instrument needs.

use vstd::prelude::*;

use crate::frequency::Frequency;
use crate::notes::Note;

verus! {

/// The larger of two naturals.
pub open spec fn nat_max(a: nat, b: nat) -> nat {
    if a >= b {
        a
    } else {
        b
    }
}

/// Every note of the sequence ends no earlier than it starts.
pub open spec fn well_timed(s: Seq<Note>) -> bool {
    forall|i: int| 0 <= i < s.len() ==> (#[trigger] s[i]).start_at <= s[i].end_at
}

/// The sequence is ordered by non-decreasing start time.
pub open spec fn sorted_by_start(s: Seq<Note>) -> bool {
    forall|i: int, j: int|
        0 <= i <= j < s.len() ==> (#[trigger] s[i]).start_at <= (#[trigger] s[j]).start_at
}

/// Inserts `n` after every element whose start time is at or before
/// `n`'s: the insertion step of a stable insertion sort.
pub open spec fn insert_by_start(s: Seq<Note>, n: Note) -> Seq<Note>
    decreases s.len(),
{
    if s.len() == 0 {
        seq![n]
    } else if s.last().start_at > n.start_at {
        insert_by_start(s.drop_last(), n).push(s.last())
    } else {
        s.push(n)
    }
}

/// The stable sort of `s` by start time: ties keep their original order.
pub open spec fn sort_by_start(s: Seq<Note>) -> Seq<Note>
    decreases s.len(),
{
    if s.len() == 0 {
        Seq::empty()
    } else {
        insert_by_start(sort_by_start(s.drop_last()), s.last())
    }
}

/// The note is sounding at instant `t`: it has started and not yet ended
/// (a note is considered sounding at both its endpoints).
pub open spec fn is_active_at(n: Note, t: u32) -> bool {
    n.start_at <= t && t <= n.end_at
}

/// How many notes of the sequence are sounding at instant `t`.
pub open spec fn active_at(s: Seq<Note>, t: u32) -> nat
    decreases s.len(),
{
    if s.len() == 0 {
        0
    } else {
        active_at(s.drop_last(), t) + if is_active_at(s.last(), t) {
            1nat
        } else {
            0nat
        }
    }
}

/// The largest count of simultaneously sounding notes, taking the maximum
/// of `active_at(s, _)` over the start instants of the notes in `pts`.
pub open spec fn max_active_over(s: Seq<Note>, pts: Seq<Note>) -> nat
    decreases pts.len(),
{
    if pts.len() == 0 {
        0
    } else {
        nat_max(
            active_at(s, pts.last().start_at),
            max_active_over(s, pts.drop_last()),
        )
    }
}

/// The true maximum number of simultaneously sounding notes of `s`: the
/// overlap count can only change at a start instant, so the maximum over
/// all instants is the maximum over the notes' own start instants.
pub open spec fn max_overlap(s: Seq<Note>) -> nat {
    max_active_over(s, s)
}

/// The note has not ended before instant `t`.
pub open spec fn still_active(n: Note, t: u32) -> bool {
    t <= n.end_at
}

/// The subsequence of notes that have not ended before instant `t`: what
/// the sweep keeps in its active window when the note starting at `t` is
/// admitted.
pub open spec fn survivors(s: Seq<Note>, t: u32) -> Seq<Note>
    decreases s.len(),
{
    if s.len() == 0 {
        Seq::empty()
    } else if still_active(s.last(), t) {
        survivors(s.drop_last(), t).push(s.last())
    } else {
        survivors(s.drop_last(), t)
    }
}

/// The sweep's active window right after admitting the note at index `i`
/// of the sorted sequence.
pub open spec fn window_after(s: Seq<Note>, i: int) -> Seq<Note> {
    survivors(s.take(i + 1), s[i].start_at)
}

/// The size of the sweep's window after admitting the note at index `i`.
pub open spec fn window_size(s: Seq<Note>, i: int) -> nat {
    window_after(s, i).len()
}

/// The largest window size the sweep has seen over its first `k` steps.
pub open spec fn sweep_max(s: Seq<Note>, k: int) -> nat
    decreases k,
{
    if k <= 0 {
        0
    } else {
        nat_max(window_size(s, k - 1), sweep_max(s, k - 1))
    }
}

/// The distinct instrument identifiers referenced by the notes, in
/// first-occurrence order.
pub open spec fn instrument_ids(s: Seq<Note>) -> Seq<u16>
    decreases s.len(),
{
    if s.len() == 0 {
        Seq::empty()
    } else {
        let prev = instrument_ids(s.drop_last());
        if prev.contains(s.last().instrument_id) {
            prev
        } else {
            prev.push(s.last().instrument_id)
        }
    }
}

/// Stepping a prefix: taking one element more appends exactly `s[i]`.
pub proof fn lemma_take_step(s: Seq<Note>, i: int)
    requires
        0 <= i < s.len(),
    ensures
        s.take(i + 1).drop_last() == s.take(i),
        s.take(i + 1).last() == s[i],
        s.take(i + 1).len() == i + 1,
{
    assert(s.take(i + 1).drop_last() =~= s.take(i));
}

/// An element of a sequence is an element of any reordering of it.
proof fn lemma_permutation_contains(s1: Seq<Note>, s2: Seq<Note>, x: Note)
    requires
        s1.to_multiset() == s2.to_multiset(),
        s1.contains(x),
    ensures
        s2.contains(x),
{
    broadcast use vstd::seq_lib::group_to_multiset_ensures;

    assert(s1.to_multiset().count(x) > 0);
    assert(s2.to_multiset().count(x) > 0);
}

/// Reordering a sequence of well-timed notes keeps every note well-timed.
pub proof fn lemma_well_timed_permutation(s1: Seq<Note>, s2: Seq<Note>)
    requires
        s1.to_multiset() == s2.to_multiset(),
        well_timed(s1),
    ensures
        well_timed(s2),
{
    assert forall|i: int| 0 <= i < s2.len() implies (#[trigger] s2[i]).start_at
        <= s2[i].end_at by {
        assert(s2.contains(s2[i]));
        lemma_permutation_contains(s2, s1, s2[i]);
        let j = choose|j: int| 0 <= j < s1.len() && s1[j] == s2[i];
        assert(s1[j].start_at <= s1[j].end_at);
    }
}

/// Removing one note lowers the count of sounding notes by exactly that
/// note's contribution.
proof fn lemma_active_at_remove(s: Seq<Note>, t: u32, i: int)
    requires
        0 <= i < s.len(),
    ensures
        active_at(s, t) == active_at(s.remove(i), t) + if is_active_at(s[i], t) {
            1nat
        } else {
            0nat
        },
    decreases s.len(),
{
    if i == s.len() - 1 {
        assert(s.remove(i) =~= s.drop_last());
    } else {
        assert(s.remove(i).drop_last() =~= s.drop_last().remove(i));
        assert(s.remove(i).last() == s.last());
        lemma_active_at_remove(s.drop_last(), t, i);
        assert(s.drop_last()[i] == s[i]);
    }
}

/// The count of sounding notes does not depend on the order of the notes.
pub proof fn lemma_active_at_permutation(s1: Seq<Note>, s2: Seq<Note>, t: u32)
    requires
        s1.to_multiset() == s2.to_multiset(),
    ensures
        active_at(s1, t) == active_at(s2, t),
    decreases s1.len(),
{
    broadcast use vstd::seq_lib::group_to_multiset_ensures;

    if s1.len() == 0 {
        assert(s1.to_multiset().len() == s1.len());
        assert(s2.to_multiset().len() == s2.len());
    } else {
        let x = s1.last();
        assert(s1.contains(x));
        lemma_permutation_contains(s1, s2, x);
        let j = choose|j: int| 0 <= j < s2.len() && s2[j] == x;
        lemma_active_at_remove(s2, t, j);
        assert(s1.drop_last().to_multiset() == s2.remove(j).to_multiset()) by {
            assert(s1 =~= s1.drop_last().push(x));
            assert(s1.to_multiset() == s1.drop_last().to_multiset().insert(x));
            assert(s1.drop_last().to_multiset() =~= s2.remove(j).to_multiset());
        }
        lemma_active_at_permutation(s1.drop_last(), s2.remove(j), t);
    }
}

/// Counting sounding notes splits over any cut of the sequence.
proof fn lemma_active_at_split(s: Seq<Note>, t: u32, m: int)
    requires
        0 <= m <= s.len(),
    ensures
        active_at(s, t) == active_at(s.take(m), t) + active_at(s.skip(m), t),
    decreases s.len() - m,
{
    if m == s.len() {
        assert(s.take(m) =~= s);
        assert(s.skip(m) =~= Seq::<Note>::empty());
    } else {
        lemma_active_at_split(s.drop_last(), t, m);
        assert(s.drop_last().take(m) =~= s.take(m));
        assert(s.drop_last().skip(m) =~= s.skip(m).drop_last());
        assert(s.skip(m).last() == s.last());
    }
}

/// If no note of the sequence is sounding at `t`, the count at `t` is zero.
proof fn lemma_active_at_none(s: Seq<Note>, t: u32)
    requires
        forall|k: int| 0 <= k < s.len() ==> !is_active_at(#[trigger] s[k], t),
    ensures
        active_at(s, t) == 0,
    decreases s.len(),
{
    if s.len() > 0 {
        lemma_active_at_none(s.drop_last(), t);
        assert(s.last() == s[s.len() - 1]);
    }
}

/// The window never holds more notes than the sequence it was taken from.
pub proof fn lemma_survivors_len(s: Seq<Note>, t: u32)
    ensures
        survivors(s, t).len() <= s.len(),
    decreases s.len(),
{
    if s.len() > 0 {
        lemma_survivors_len(s.drop_last(), t);
    }
}

/// Evicting at a later instant from an already evicted window gives the
/// same window as evicting from the full sequence at the later instant.
pub proof fn lemma_survivors_compose(s: Seq<Note>, t1: u32, t2: u32)
    requires
        t1 <= t2,
    ensures
        survivors(survivors(s, t1), t2) == survivors(s, t2),
    decreases s.len(),
{
    if s.len() > 0 {
        lemma_survivors_compose(s.drop_last(), t1, t2);
        if still_active(s.last(), t1) {
            let u = survivors(s.drop_last(), t1);
            assert(u.push(s.last()).drop_last() =~= u);
            assert(u.push(s.last()).last() == s.last());
        } else {
            assert(!still_active(s.last(), t2));
        }
    }
}

/// When every note of the sequence has started by `t`, the notes that have
/// not yet ended are exactly the notes sounding at `t`.
proof fn lemma_survivors_count(s: Seq<Note>, t: u32)
    requires
        forall|k: int| 0 <= k < s.len() ==> (#[trigger] s[k]).start_at <= t,
    ensures
        survivors(s, t).len() == active_at(s, t),
    decreases s.len(),
{
    if s.len() > 0 {
        lemma_survivors_count(s.drop_last(), t);
        assert(s.last() == s[s.len() - 1]);
    }
}

/// The insertion step keeps the sequence sorted and adds exactly the new
/// note to its contents.
proof fn lemma_insert_by_start_ensures(s: Seq<Note>, n: Note)
    requires
        sorted_by_start(s),
    ensures
        sorted_by_start(insert_by_start(s, n)),
        insert_by_start(s, n).to_multiset() == s.to_multiset().insert(n),
        insert_by_start(s, n).len() == s.len() + 1,
    decreases s.len(),
{
    broadcast use vstd::seq_lib::group_to_multiset_ensures;

    if s.len() == 0 {
        assert(seq![n] =~= Seq::<Note>::empty().push(n));
        assert(s =~= Seq::<Note>::empty());
        assert(seq![n].to_multiset() =~= s.to_multiset().insert(n));
    } else if s.last().start_at > n.start_at {
        let d = s.drop_last();
        assert(sorted_by_start(d)) by {
            assert(forall|i: int| 0 <= i < d.len() ==> d[i] == s[i]);
        }
        lemma_insert_by_start_ensures(d, n);
        let u = insert_by_start(d, n);
        assert forall|i: int| 0 <= i < u.len() implies (#[trigger] u[i]).start_at
            <= s.last().start_at by {
            assert(u.contains(u[i]));
            assert(u.to_multiset().count(u[i]) > 0);
            if u[i] != n {
                assert(d.to_multiset().count(u[i]) > 0);
                assert(d.contains(u[i]));
                let j = choose|j: int| 0 <= j < d.len() && d[j] == u[i];
                assert(s[j] == d[j]);
                assert(s[j].start_at <= s[s.len() - 1].start_at);
            }
        }
        assert(sorted_by_start(u.push(s.last()))) by {
            assert(forall|i: int| 0 <= i < u.len() ==> u.push(s.last())[i] == u[i]);
            assert(u.push(s.last())[u.len() as int] == s.last());
        }
        assert(u.push(s.last()).to_multiset() == s.to_multiset().insert(n)) by {
            assert(u.push(s.last()).to_multiset() == u.to_multiset().insert(s.last()));
            assert(s =~= d.push(s.last()));
            assert(s.to_multiset() == d.to_multiset().insert(s.last()));
            assert(d.to_multiset().insert(n).insert(s.last()) =~= d.to_multiset().insert(
                s.last(),
            ).insert(n));
        }
    } else {
        assert forall|i: int| 0 <= i < s.len() implies (#[trigger] s[i]).start_at
            <= n.start_at by {
            assert(s[i].start_at <= s[s.len() - 1].start_at);
        }
        assert(sorted_by_start(s.push(n))) by {
            assert(forall|i: int| 0 <= i < s.len() ==> s.push(n)[i] == s[i]);
            assert(s.push(n)[s.len() as int] == n);
        }
        assert(s.push(n).to_multiset() == s.to_multiset().insert(n));
    }
}

/// The stable sort orders the notes by start time and keeps exactly the
/// same notes.
pub proof fn lemma_sort_by_start_ensures(s: Seq<Note>)
    ensures
        sorted_by_start(sort_by_start(s)),
        sort_by_start(s).to_multiset() == s.to_multiset(),
        sort_by_start(s).len() == s.len(),
    decreases s.len(),
{
    broadcast use vstd::seq_lib::group_to_multiset_ensures;

    if s.len() == 0 {
        assert(sort_by_start(s).to_multiset() =~= s.to_multiset());
    } else {
        let d = s.drop_last();
        lemma_sort_by_start_ensures(d);
        lemma_insert_by_start_ensures(sort_by_start(d), s.last());
        assert(s =~= d.push(s.last()));
        assert(s.to_multiset() == d.to_multiset().insert(s.last()));
    }
}

/// Where the insertion step lands: if every element from `p` on starts
/// strictly later than `n`, and the element before `p` (if any) does not,
/// then `n` goes exactly at position `p`.
pub proof fn lemma_insert_by_start_split(s: Seq<Note>, n: Note, p: int)
    requires
        0 <= p <= s.len(),
        p == 0 || s[p - 1].start_at <= n.start_at,
        forall|j: int| p <= j < s.len() ==> (#[trigger] s[j]).start_at > n.start_at,
    ensures
        insert_by_start(s, n) == s.take(p).push(n) + s.skip(p),
    decreases s.len(),
{
    if s.len() == 0 {
        assert(seq![n] =~= s.take(p).push(n) + s.skip(p));
    } else if s.last().start_at > n.start_at {
        assert(p <= s.len() - 1);
        let d = s.drop_last();
        assert(forall|j: int| p <= j < d.len() ==> d[j] == s[j]);
        if p > 0 {
            assert(d[p - 1] == s[p - 1]);
        }
        lemma_insert_by_start_split(d, n, p);
        assert(d.take(p) =~= s.take(p));
        assert((d.take(p).push(n) + d.skip(p)).push(s.last()) =~= s.take(p).push(n) + s.skip(
            p,
        ));
    } else {
        assert(p == s.len());
        assert(s.push(n) =~= s.take(p).push(n) + s.skip(p));
    }
}

/// The sweep's running maximum dominates every window size it has seen.
proof fn lemma_sweep_max_ge(s: Seq<Note>, k: int, i: int)
    requires
        0 <= i < k,
    ensures
        sweep_max(s, k) >= window_size(s, i),
    decreases k,
{
    if i < k - 1 {
        lemma_sweep_max_ge(s, k - 1, i);
    }
}

/// The sweep's running maximum is one of the window sizes it has seen.
proof fn lemma_sweep_max_attained(s: Seq<Note>, k: int)
    requires
        k > 0,
    ensures
        exists|i: int| 0 <= i < k && sweep_max(s, k) == #[trigger] window_size(s, i),
    decreases k,
{
    if k == 1 {
        assert(sweep_max(s, 0) == 0);
        assert(sweep_max(s, 1) == window_size(s, 0));
    } else {
        lemma_sweep_max_attained(s, k - 1);
        if window_size(s, k - 1) < sweep_max(s, k - 1) {
            let i = choose|i: int| 0 <= i < k - 1 && sweep_max(s, k - 1) == #[trigger] window_size(
                s,
                i,
            );
            assert(sweep_max(s, k) == window_size(s, i));
        } else {
            assert(sweep_max(s, k) == window_size(s, k - 1));
        }
    }
}

/// The maximum over a set of start instants dominates the count at each
/// of those instants.
proof fn lemma_max_active_over_ge(s: Seq<Note>, pts: Seq<Note>, j: int)
    requires
        0 <= j < pts.len(),
    ensures
        max_active_over(s, pts) >= active_at(s, pts[j].start_at),
    decreases pts.len(),
{
    if j < pts.len() - 1 {
        lemma_max_active_over_ge(s, pts.drop_last(), j);
        assert(pts.drop_last()[j] == pts[j]);
    } else {
        assert(pts.last() == pts[j]);
    }
}

/// The maximum over a non-empty set of start instants is attained at one
/// of them.
proof fn lemma_max_active_over_attained(s: Seq<Note>, pts: Seq<Note>)
    requires
        pts.len() > 0,
    ensures
        exists|j: int|
            0 <= j < pts.len() && max_active_over(s, pts) == active_at(
                s,
                (#[trigger] pts[j]).start_at,
            ),
    decreases pts.len(),
{
    if pts.len() == 1 {
        assert(max_active_over(s, pts.drop_last()) == 0);
        assert(pts.last() == pts[0]);
        assert(max_active_over(s, pts) == active_at(s, pts[0].start_at));
    } else {
        lemma_max_active_over_attained(s, pts.drop_last());
        if active_at(s, pts.last().start_at) >= max_active_over(s, pts.drop_last()) {
            assert(max_active_over(s, pts) == active_at(
                s,
                pts[pts.len() - 1].start_at,
            ));
        } else {
            let j = choose|j: int|
                0 <= j < pts.drop_last().len() && max_active_over(s, pts.drop_last())
                    == active_at(s, (#[trigger] pts.drop_last()[j]).start_at);
            assert(pts.drop_last()[j] == pts[j]);
            assert(max_active_over(s, pts) == active_at(s, pts[j].start_at));
        }
    }
}

/// The true maximum overlap does not depend on the order of the notes.
pub proof fn lemma_max_overlap_permutation(s1: Seq<Note>, s2: Seq<Note>)
    requires
        s1.to_multiset() == s2.to_multiset(),
    ensures
        max_overlap(s1) == max_overlap(s2),
{
    broadcast use vstd::seq_lib::group_to_multiset_ensures;

    if s1.len() == 0 {
        assert(s1.to_multiset().len() == s1.len());
        assert(s2.to_multiset().len() == s2.len());
    } else {
        assert(s1.to_multiset().len() == s1.len());
        assert(s2.to_multiset().len() == s2.len());
        assert(max_overlap(s1) <= max_overlap(s2)) by {
            lemma_max_overlap_le(s1, s2);
        }
        assert(max_overlap(s2) <= max_overlap(s1)) by {
            lemma_max_overlap_le(s2, s1);
        }
    }
}

/// One direction of the order-independence of the true maximum overlap.
proof fn lemma_max_overlap_le(s1: Seq<Note>, s2: Seq<Note>)
    requires
        s1.to_multiset() == s2.to_multiset(),
        s1.len() > 0,
        s2.len() > 0,
    ensures
        max_overlap(s1) <= max_overlap(s2),
{
    lemma_max_active_over_attained(s1, s1);
    let j = choose|j: int|
        0 <= j < s1.len() && max_active_over(s1, s1) == active_at(
            s1,
            (#[trigger] s1[j]).start_at,
        );
    let x = s1[j];
    assert(s1.contains(x));
    lemma_permutation_contains(s1, s2, x);
    let j2 = choose|j2: int| 0 <= j2 < s2.len() && s2[j2] == x;
    lemma_max_active_over_ge(s2, s2, j2);
    lemma_active_at_permutation(s1, s2, x.start_at);
}

/// A count of zero means no note is sounding.
proof fn lemma_active_at_zero(s: Seq<Note>, t: u32)
    requires
        active_at(s, t) == 0,
    ensures
        forall|k: int| 0 <= k < s.len() ==> !is_active_at(#[trigger] s[k], t),
    decreases s.len(),
{
    if s.len() > 0 {
        lemma_active_at_zero(s.drop_last(), t);
        assert(s.last() == s[s.len() - 1]);
        assert forall|k: int| 0 <= k < s.len() implies !is_active_at(#[trigger] s[k], t) by {
            if k < s.len() - 1 {
                assert(!is_active_at(s.drop_last()[k], t));
                assert(s.drop_last()[k] == s[k]);
            }
        }
    }
}

/// If every note sounding at `t1` is also sounding at `t2`, the count at
/// `t1` is no larger.
proof fn lemma_active_at_monotone(s: Seq<Note>, t1: u32, t2: u32)
    requires
        forall|k: int|
            0 <= k < s.len() && is_active_at(#[trigger] s[k], t1) ==> is_active_at(s[k], t2),
    ensures
        active_at(s, t1) <= active_at(s, t2),
    decreases s.len(),
{
    if s.len() > 0 {
        lemma_active_at_monotone(s.drop_last(), t1, t2);
        assert(s.last() == s[s.len() - 1]);
    }
}

/// Among the notes sounding at `t` there is one whose start is latest.
proof fn lemma_latest_active_start(s: Seq<Note>, t: u32) -> (x: Note)
    requires
        active_at(s, t) > 0,
    ensures
        s.contains(x),
        is_active_at(x, t),
        forall|k: int|
            0 <= k < s.len() && is_active_at(#[trigger] s[k], t) ==> s[k].start_at <= x.start_at,
    decreases s.len(),
{
    let d = s.drop_last();
    assert(s.last() == s[s.len() - 1]);
    assert(forall|k: int| 0 <= k < d.len() ==> #[trigger] d[k] == s[k]);
    if is_active_at(s.last(), t) {
        if active_at(d, t) > 0 {
            let xr = lemma_latest_active_start(d, t);
            let j = choose|j: int| 0 <= j < d.len() && d[j] == xr;
            assert(s[j] == xr);
            let x = if xr.start_at >= s.last().start_at {
                xr
            } else {
                s.last()
            };
            assert forall|k: int|
                0 <= k < s.len() && is_active_at(#[trigger] s[k], t) implies s[k].start_at
                <= x.start_at by {
                if k < s.len() - 1 {
                    assert(d[k] == s[k]);
                    assert(d[k].start_at <= xr.start_at);
                }
            }
            x
        } else {
            lemma_active_at_zero(d, t);
            assert forall|k: int|
                0 <= k < s.len() && is_active_at(#[trigger] s[k], t) implies s[k].start_at
                <= s.last().start_at by {
                if k < s.len() - 1 {
                    assert(d[k] == s[k]);
                    assert(!is_active_at(d[k], t));
                }
            }
            s.last()
        }
    } else {
        let xr = lemma_latest_active_start(d, t);
        let j = choose|j: int| 0 <= j < d.len() && d[j] == xr;
        assert(s[j] == xr);
        assert forall|k: int|
            0 <= k < s.len() && is_active_at(#[trigger] s[k], t) implies s[k].start_at
            <= xr.start_at by {
            if k < s.len() - 1 {
                assert(d[k] == s[k]);
                assert(d[k].start_at <= xr.start_at);
            }
        }
        xr
    }
}

/// The maximum taken over the notes' start instants is the true maximum:
/// at every instant whatsoever, no more notes are sounding. (The count
/// can only rise when a note starts, so some start instant attains it.)
pub proof fn lemma_max_overlap_bounds_every_instant(s: Seq<Note>, t: u32)
    ensures
        active_at(s, t) <= max_overlap(s),
{
    if active_at(s, t) > 0 {
        let x = lemma_latest_active_start(s, t);
        assert forall|k: int|
            0 <= k < s.len() && is_active_at(#[trigger] s[k], t) implies is_active_at(
            s[k],
            x.start_at,
        ) by {
            assert(s[k].start_at <= x.start_at);
            assert(x.start_at <= t <= s[k].end_at);
        }
        lemma_active_at_monotone(s, t, x.start_at);
        let j = choose|j: int| 0 <= j < s.len() && s[j] == x;
        lemma_max_active_over_ge(s, s, j);
    }
}

/// Each window of the sweep counts no more notes than are truly sounding
/// at the admitted note's start instant.
proof fn lemma_window_le_active(s: Seq<Note>, i: int)
    requires
        sorted_by_start(s),
        0 <= i < s.len(),
    ensures
        window_size(s, i) <= active_at(s, s[i].start_at),
{
    let t = s[i].start_at;
    assert forall|k: int| 0 <= k < s.take(i + 1).len() implies (#[trigger] s.take(
        i + 1,
    )[k]).start_at <= t by {
        assert(s.take(i + 1)[k] == s[k]);
    }
    lemma_survivors_count(s.take(i + 1), t);
    lemma_active_at_split(s, t, i + 1);
}

/// At the last note of a run of equal start instants, the sweep's window
/// holds exactly the notes sounding at that instant.
proof fn lemma_window_at_last_tie(s: Seq<Note>, i: int)
    requires
        sorted_by_start(s),
        0 <= i < s.len(),
        i == s.len() - 1 || s[i + 1].start_at > s[i].start_at,
    ensures
        window_size(s, i) == active_at(s, s[i].start_at),
{
    let t = s[i].start_at;
    assert forall|k: int| 0 <= k < s.take(i + 1).len() implies (#[trigger] s.take(
        i + 1,
    )[k]).start_at <= t by {
        assert(s.take(i + 1)[k] == s[k]);
    }
    lemma_survivors_count(s.take(i + 1), t);
    lemma_active_at_split(s, t, i + 1);
    assert forall|k: int| 0 <= k < s.skip(i + 1).len() implies !is_active_at(
        #[trigger] s.skip(i + 1)[k],
        t,
    ) by {
        assert(s.skip(i + 1)[k] == s[k + i + 1]);
        assert(s[i + 1].start_at <= s[k + i + 1].start_at);
    }
    lemma_active_at_none(s.skip(i + 1), t);
}

/// In a sorted sequence, every note has a last note sharing its start
/// instant.
proof fn lemma_last_tie_exists(s: Seq<Note>, j: int) -> (i: int)
    requires
        sorted_by_start(s),
        0 <= j < s.len(),
    ensures
        j <= i < s.len(),
        s[i].start_at == s[j].start_at,
        i == s.len() - 1 || s[i + 1].start_at > s[j].start_at,
    decreases s.len() - j,
{
    if j == s.len() - 1 || s[j + 1].start_at > s[j].start_at {
        j
    } else {
        assert(s[j + 1].start_at == s[j].start_at);
        lemma_last_tie_exists(s, j + 1)
    }
}

/// The sweep computes the true maximum overlap: over a sorted sequence of
/// well-timed notes, the largest window size equals the largest count of
/// simultaneously sounding notes, and it is at least one.
pub proof fn lemma_sweep_is_max_overlap(s: Seq<Note>)
    requires
        sorted_by_start(s),
        well_timed(s),
        s.len() > 0,
    ensures
        sweep_max(s, s.len() as int) == max_overlap(s),
        max_overlap(s) >= 1,
{
    let k = s.len() as int;
    assert(sweep_max(s, k) <= max_overlap(s)) by {
        lemma_sweep_max_attained(s, k);
        let i = choose|i: int| 0 <= i < k && sweep_max(s, k) == #[trigger] window_size(s, i);
        lemma_window_le_active(s, i);
        lemma_max_active_over_ge(s, s, i);
    }
    assert(max_overlap(s) <= sweep_max(s, k)) by {
        lemma_max_active_over_attained(s, s);
        let j = choose|j: int|
            0 <= j < s.len() && max_active_over(s, s) == active_at(
                s,
                (#[trigger] s[j]).start_at,
            );
        let i = lemma_last_tie_exists(s, j);
        lemma_window_at_last_tie(s, i);
        lemma_sweep_max_ge(s, k, i);
    }
    assert(max_overlap(s) >= 1) by {
        assert(is_active_at(s[0], s[0].start_at));
        lemma_active_at_split(s, s[0].start_at, 1);
        assert(s.take(1).last() == s[0]);
        assert(s.take(1).drop_last() =~= Seq::<Note>::empty());
        assert(active_at(Seq::<Note>::empty(), s[0].start_at) == 0);
        assert(active_at(s.take(1), s[0].start_at) == 1);
        lemma_max_active_over_ge(s, s, 0);
    }
}

/// The distinct frequencies referenced by the notes of instrument `id`,
/// in first-occurrence order.
pub open spec fn frequencies_for(s: Seq<Note>, id: u16) -> Seq<Frequency>
    decreases s.len(),
{
    if s.len() == 0 {
        Seq::empty()
    } else {
        let prev = frequencies_for(s.drop_last(), id);
        if s.last().instrument_id == id && !prev.contains(s.last().frequency) {
            prev.push(s.last().frequency)
        } else {
            prev
        }
    }
}

/// An identifier is listed exactly when some note references it.
pub proof fn lemma_instrument_ids_contains(s: Seq<Note>, x: u16)
    ensures
        instrument_ids(s).contains(x) <==> exists|i: int|
            0 <= i < s.len() && (#[trigger] s[i]).instrument_id == x,
    decreases s.len(),
{
    if s.len() > 0 {
        let d = s.drop_last();
        lemma_instrument_ids_contains(d, x);
        let prev = instrument_ids(d);
        if prev.contains(x) {
            let i = choose|i: int| 0 <= i < d.len() && (#[trigger] d[i]).instrument_id == x;
            assert(s[i].instrument_id == x);
            if !prev.contains(s.last().instrument_id) {
                assert(prev.push(s.last().instrument_id).contains(x)) by {
                    let k = choose|k: int| 0 <= k < prev.len() && prev[k] == x;
                    assert(prev.push(s.last().instrument_id)[k] == x);
                }
            }
        } else {
            if s.last().instrument_id == x {
                assert(s[s.len() - 1].instrument_id == x);
                if !prev.contains(s.last().instrument_id) {
                    assert(prev.push(x)[prev.len() as int] == x);
                }
            } else {
                if instrument_ids(s).contains(x) {
                    if !prev.contains(s.last().instrument_id) {
                        let k = choose|k: int|
                            0 <= k < prev.push(s.last().instrument_id).len() && prev.push(
                                s.last().instrument_id,
                            )[k] == x;
                        assert(k < prev.len());
                        assert(prev[k] == x);
                    }
                }
                if exists|i: int| 0 <= i < s.len() && (#[trigger] s[i]).instrument_id == x {
                    let i = choose|i: int|
                        0 <= i < s.len() && (#[trigger] s[i]).instrument_id == x;
                    assert(i < d.len());
                    assert(d[i].instrument_id == x);
                }
            }
        }
    }
}

/// The listed identifiers are pairwise distinct.
pub proof fn lemma_instrument_ids_distinct(s: Seq<Note>, k1: int, k2: int)
    requires
        0 <= k1 < k2 < instrument_ids(s).len(),
    ensures
        instrument_ids(s)[k1] != instrument_ids(s)[k2],
    decreases s.len(),
{
    if s.len() > 0 {
        let prev = instrument_ids(s.drop_last());
        if prev.contains(s.last().instrument_id) {
            lemma_instrument_ids_distinct(s.drop_last(), k1, k2);
        } else {
            if k2 < prev.len() {
                lemma_instrument_ids_distinct(s.drop_last(), k1, k2);
                assert(instrument_ids(s)[k1] == prev[k1]);
                assert(instrument_ids(s)[k2] == prev[k2]);
            } else {
                assert(k2 == prev.len());
                assert(instrument_ids(s)[k2] == s.last().instrument_id);
                assert(instrument_ids(s)[k1] == prev[k1]);
                assert(prev.contains(prev[k1]));
            }
        }
    }
}

/// A frequency is listed for an instrument exactly when some note of that
/// instrument references it.
pub proof fn lemma_frequencies_for_contains(s: Seq<Note>, id: u16, f: Frequency)
    ensures
        frequencies_for(s, id).contains(f) <==> exists|i: int|
            0 <= i < s.len() && (#[trigger] s[i]).instrument_id == id && s[i].frequency == f,
    decreases s.len(),
{
    if s.len() > 0 {
        let d = s.drop_last();
        lemma_frequencies_for_contains(d, id, f);
        let prev = frequencies_for(d, id);
        let grows = s.last().instrument_id == id && !prev.contains(s.last().frequency);
        if prev.contains(f) {
            let i = choose|i: int|
                0 <= i < d.len() && (#[trigger] d[i]).instrument_id == id && d[i].frequency == f;
            assert(s[i].instrument_id == id && s[i].frequency == f);
            if grows {
                let k = choose|k: int| 0 <= k < prev.len() && prev[k] == f;
                assert(prev.push(s.last().frequency)[k] == f);
            }
        } else {
            if grows && s.last().frequency == f {
                assert(s[s.len() - 1].instrument_id == id && s[s.len() - 1].frequency == f);
                assert(prev.push(f)[prev.len() as int] == f);
            } else {
                if frequencies_for(s, id).contains(f) {
                    if grows {
                        let k = choose|k: int|
                            0 <= k < prev.push(s.last().frequency).len() && prev.push(
                                s.last().frequency,
                            )[k] == f;
                        assert(k < prev.len());
                        assert(prev[k] == f);
                    }
                }
                if exists|i: int|
                    0 <= i < s.len() && (#[trigger] s[i]).instrument_id == id && s[i].frequency
                        == f {
                    let i = choose|i: int|
                        0 <= i < s.len() && (#[trigger] s[i]).instrument_id == id && s[i].frequency
                            == f;
                    if i == s.len() - 1 {
                        assert(s.last().instrument_id == id && s.last().frequency == f);
                        assert(prev.contains(f) || grows);
                    } else {
                        assert(d[i].instrument_id == id && d[i].frequency == f);
                    }
                }
            }
        }
    }
}

/// The frequencies listed for an instrument are pairwise distinct.
pub proof fn lemma_frequencies_for_distinct(s: Seq<Note>, id: u16, k1: int, k2: int)
    requires
        0 <= k1 < k2 < frequencies_for(s, id).len(),
    ensures
        frequencies_for(s, id)[k1] != frequencies_for(s, id)[k2],
    decreases s.len(),
{
    if s.len() > 0 {
        let prev = frequencies_for(s.drop_last(), id);
        if s.last().instrument_id == id && !prev.contains(s.last().frequency) {
            if k2 < prev.len() {
                lemma_frequencies_for_distinct(s.drop_last(), id, k1, k2);
                assert(frequencies_for(s, id)[k1] == prev[k1]);
                assert(frequencies_for(s, id)[k2] == prev[k2]);
            } else {
                assert(k2 == prev.len());
                assert(frequencies_for(s, id)[k2] == s.last().frequency);
                assert(frequencies_for(s, id)[k1] == prev[k1]);
                assert(prev.contains(prev[k1]));
            }
        } else {
            lemma_frequencies_for_distinct(s.drop_last(), id, k1, k2);
        }
    }
}

} // verus!
