//! Memory-leak watch: how much each process grew since the last refresh, and for how many
//! refreshes in a row it grew by at least a mebibyte.
use vstd::prelude::*;

verus! {

/// Growth, in bytes, that counts toward a streak.
pub const STREAK_GROWTH: u64 = 1_048_576;

/// The value recorded for a PID: the first entry with that PID.
pub open spec fn recorded<T>(v: Seq<(Seq<char>, T)>, pid: Seq<char>) -> Option<T>
    decreases v.len(),
{
    if v.len() == 0 {
        None
    } else if v[0].0 == pid {
        Some(v[0].1)
    } else {
        recorded(v.drop_first(), pid)
    }
}

/// The record of a PID set to a value: its first entry changed, or a new entry at the end.
pub open spec fn with_record<T>(v: Seq<(Seq<char>, T)>, pid: Seq<char>, value: T) -> Seq<(Seq<char>, T)>
    decreases v.len(),
{
    if v.len() == 0 {
        seq![(pid, value)]
    } else if v[0].0 == pid {
        v.update(0, (pid, value))
    } else {
        seq![v[0]] + with_record(v.drop_first(), pid, value)
    }
}

/// How much a process grew: its memory now less what was recorded for it (0 when it
/// shrank or nothing was recorded).
pub open spec fn growth_of(baseline: Seq<(Seq<char>, u64)>, pid: Seq<char>, memory: u64) -> u64 {
    match recorded(baseline, pid) {
        Some(prev) => if memory >= prev {
            (memory - prev) as u64
        } else {
            0
        },
        None => 0,
    }
}

/// A streak after a refresh: one more (up to 255) when the process grew by at least a
/// mebibyte, else back to 0.
pub open spec fn next_streak(streak: u8, growth: u64) -> u8 {
    if growth >= STREAK_GROWTH {
        if streak == 255 {
            255
        } else {
            (streak + 1) as u8
        }
    } else {
        0
    }
}

/// The streaks after the processes `current` were seen, one after another.
pub open spec fn streaks_after(
    baseline: Seq<(Seq<char>, u64)>,
    streaks: Seq<(Seq<char>, u8)>,
    current: Seq<(Seq<char>, u64)>,
) -> Seq<(Seq<char>, u8)>
    decreases current.len(),
{
    if current.len() == 0 {
        streaks
    } else {
        let before = streaks_after(baseline, streaks, current.drop_last());
        let p = current.last();
        let old = match recorded(before, p.0) {
            Some(s) => s,
            None => 0,
        };
        with_record(before, p.0, next_streak(old, growth_of(baseline, p.0, p.1)))
    }
}

/// Whether some process of `current` has this PID.
pub open spec fn seen_now(current: Seq<(Seq<char>, u64)>, pid: Seq<char>) -> bool {
    exists|i: int| 0 <= i < current.len() && #[trigger] current[i].0 == pid
}

/// The test that keeps the streak of a process still running.
pub open spec fn still_running(current: Seq<(Seq<char>, u64)>) -> spec_fn((Seq<char>, u8)) -> bool {
    |p: (Seq<char>, u8)| seen_now(current, p.0)
}

/// One refresh of the watch over the processes `current` (PID and memory): the growth of
/// each process, its streak after it was seen, the streaks of the processes still there,
/// and the new baseline, which is `current`.
pub struct GrowthReport {
    pub growth: Vec<u64>,
    pub streak: Vec<u8>,
    pub streaks: Vec<(String, u8)>,
    pub baseline: Vec<(String, u64)>,
}

/// Entries keyed by PID, as plain values.
pub open spec fn pairs_view<T>(v: Seq<(String, T)>) -> Seq<(Seq<char>, T)> {
    v.map_values(|p: (String, T)| (p.0@, p.1))
}

fn recorded_in<T: Copy>(v: &Vec<(String, T)>, pid: &str) -> (r: Option<T>)
    ensures
        r == recorded(pairs_view(v@), pid@),
{
    let ghost vs = pairs_view(v@);
    assert(vs.skip(0) =~= vs);
    let mut k: usize = 0;
    while k < v.len()
        invariant
            k <= v@.len(),
            vs == pairs_view(v@),
            recorded(vs, pid@) == recorded(vs.skip(k as int), pid@),
        decreases v.len() - k,
    {
        assert(vs.skip(k as int)[0] == vs[k as int]);
        assert(vs.skip(k as int).drop_first() =~= vs.skip(k + 1));
        if crate::text::string_is(&v[k].0, pid) {
            return Some(v[k].1);
        }
        k = k + 1;
    }
    None
}

fn set_record(v: &mut Vec<(String, u8)>, pid: &str, value: u8)
    ensures
        pairs_view(final(v)@) == with_record(pairs_view(old(v)@), pid@, value),
{
    let ghost vs = pairs_view(v@);
    let mut k: usize = 0;
    while k < v.len() && !crate::text::string_is(&v[k].0, pid)
        invariant
            k <= v@.len(),
            vs == pairs_view(v@),
            forall|j: int| 0 <= j < k ==> #[trigger] vs[j].0 != pid@,
        decreases v.len() - k,
    {
        k = k + 1;
    }
    proof {
        lemma_with_record_at(vs, pid@, value, k as int);
    }
    if k < v.len() {
        let name = crate::text::string_of(&crate::text::chars_of(pid));
        v.set(k, (name, value));
        assert(pairs_view(v@) =~= vs.update(k as int, (pid@, value)));
    } else {
        v.push((crate::text::string_of(&crate::text::chars_of(pid)), value));
        assert(pairs_view(v@) =~= vs.push((pid@, value)));
    }
}

/// Setting a record changes the first entry with the PID, or appends one.
proof fn lemma_with_record_at<T>(v: Seq<(Seq<char>, T)>, pid: Seq<char>, value: T, k: int)
    requires
        0 <= k <= v.len(),
        forall|j: int| 0 <= j < k ==> #[trigger] v[j].0 != pid,
        k < v.len() ==> v[k].0 == pid,
    ensures
        k < v.len() ==> with_record(v, pid, value) == v.update(k, (pid, value)),
        k == v.len() ==> with_record(v, pid, value) == v.push((pid, value)),
    decreases k,
{
    if v.len() == 0 {
        assert(with_record(v, pid, value) =~= v.push((pid, value)));
    } else if k == 0 {
    } else {
        let t = v.drop_first();
        assert forall|j: int| 0 <= j < k - 1 implies #[trigger] t[j].0 != pid by {
            assert(t[j] == v[j + 1]);
        }
        lemma_with_record_at(t, pid, value, k - 1);
        if k < v.len() {
            assert(seq![v[0]] + t.update(k - 1, (pid, value)) =~= v.update(k, (pid, value)));
        } else {
            assert(seq![v[0]] + t.push((pid, value)) =~= v.push((pid, value)));
        }
    }
}

/// One refresh of the memory-leak watch (see `GrowthReport`).
pub fn track_memory_growth(
    baseline: &Vec<(String, u64)>,
    streaks: &Vec<(String, u8)>,
    current: &Vec<(String, u64)>,
) -> (r: GrowthReport)
    ensures
        r.growth@.len() == current@.len(),
        r.streak@.len() == current@.len(),
        forall|i: int|
            0 <= i < current@.len() ==> #[trigger] r.growth@[i] == growth_of(pairs_view(baseline@), current@[i].0@, current@[i].1),
        forall|i: int|
            0 <= i < current@.len() ==> #[trigger] r.streak@[i] == match recorded(
                streaks_after(pairs_view(baseline@), pairs_view(streaks@), pairs_view(current@).take(i + 1)),
                current@[i].0@,
            ) {
                Some(s) => s,
                None => 0u8,
            },
        pairs_view(r.streaks@) == streaks_after(pairs_view(baseline@), pairs_view(streaks@), pairs_view(current@)).filter(
            still_running(pairs_view(current@)),
        ),
        pairs_view(r.baseline@) == pairs_view(current@),
{
    let ghost bv = pairs_view(baseline@);
    let ghost cv = pairs_view(current@);
    let mut work: Vec<(String, u8)> = Vec::new();
    let mut k: usize = 0;
    while k < streaks.len()
        invariant
            k <= streaks@.len(),
            pairs_view(work@) == pairs_view(streaks@).take(k as int),
        decreases streaks.len() - k,
    {
        work.push((streaks[k].0.clone(), streaks[k].1));
        assert(pairs_view(streaks@).take(k + 1) =~= pairs_view(streaks@).take(k as int).push(pairs_view(streaks@)[k as int]));
        assert(pairs_view(work@) =~= pairs_view(streaks@).take(k + 1));
        k = k + 1;
    }
    assert(pairs_view(streaks@).take(streaks@.len() as int) =~= pairs_view(streaks@));
    let mut growth: Vec<u64> = Vec::new();
    let mut streak: Vec<u8> = Vec::new();
    let mut i: usize = 0;
    while i < current.len()
        invariant
            i <= current@.len(),
            bv == pairs_view(baseline@),
            cv == pairs_view(current@),
            growth@.len() == i,
            streak@.len() == i,
            pairs_view(work@) == streaks_after(bv, pairs_view(streaks@), cv.take(i as int)),
            forall|j: int| 0 <= j < i ==> #[trigger] growth@[j] == growth_of(bv, current@[j].0@, current@[j].1),
            forall|j: int|
                0 <= j < i ==> #[trigger] streak@[j] == match recorded(
                    streaks_after(bv, pairs_view(streaks@), cv.take(j + 1)),
                    current@[j].0@,
                ) {
                    Some(s) => s,
                    None => 0u8,
                },
        decreases current.len() - i,
    {
        let pid = current[i].0.as_str();
        let memory = current[i].1;
        let g = match recorded_in(baseline, pid) {
            Some(prev) => memory.saturating_sub(prev),
            None => 0,
        };
        let old = match recorded_in(&work, pid) {
            Some(s) => s,
            None => 0,
        };
        let next = if g >= STREAK_GROWTH {
            old.saturating_add(1)
        } else {
            0
        };
        proof {
            assert(cv.take(i + 1).drop_last() =~= cv.take(i as int));
            assert(cv.take(i + 1).last() == (current@[i as int].0@, current@[i as int].1));
        }
        let ghost before_work = pairs_view(work@);
        set_record(&mut work, pid, next);
        growth.push(g);
        streak.push(next);
        proof {
            let after = pairs_view(work@);
            assert(after == streaks_after(bv, pairs_view(streaks@), cv.take(i + 1)));
            lemma_recorded_after_set(before_work, pid@, next);
        }
        i = i + 1;
    }
    assert(cv.take(current@.len() as int) =~= cv);
    let ghost all = pairs_view(work@);
    let mut kept: Vec<(String, u8)> = Vec::new();
    let mut m: usize = 0;
    while m < work.len()
        invariant
            m <= work@.len(),
            all == pairs_view(work@),
            cv == pairs_view(current@),
            pairs_view(kept@) == all.take(m as int).filter(still_running(cv)),
        decreases work.len() - m,
    {
        let here = seen_in(current, work[m].0.as_str());
        let ghost before = pairs_view(kept@);
        if here {
            kept.push((work[m].0.clone(), work[m].1));
        }
        proof {
            assert(all.take(m + 1).drop_last() =~= all.take(m as int));
            assert(all.take(m + 1).last() == all[m as int]);
            assert(still_running(cv)(all[m as int]) == seen_now(cv, all[m as int].0));
            assert(pairs_view(kept@) =~= if seen_now(cv, all[m as int].0) {
                before.push(all[m as int])
            } else {
                before
            });
            assert(all.take(m + 1) =~= all.take(m as int).push(all[m as int]));
            all.take(m as int).lemma_filter_push(all[m as int], still_running(cv));
            assert(all.take(m + 1).filter(still_running(cv)) == if still_running(cv)(all[m as int]) {
                all.take(m as int).filter(still_running(cv)).push(all[m as int])
            } else {
                all.take(m as int).filter(still_running(cv))
            });
        }
        m = m + 1;
    }
    assert(all.take(work@.len() as int) =~= all);
    let mut base: Vec<(String, u64)> = Vec::new();
    let mut b: usize = 0;
    while b < current.len()
        invariant
            b <= current@.len(),
            pairs_view(base@) == pairs_view(current@).take(b as int),
        decreases current.len() - b,
    {
        base.push((current[b].0.clone(), current[b].1));
        assert(pairs_view(current@).take(b + 1) =~= pairs_view(current@).take(b as int).push(pairs_view(current@)[b as int]));
        assert(pairs_view(base@) =~= pairs_view(current@).take(b + 1));
        b = b + 1;
    }
    assert(pairs_view(current@).take(current@.len() as int) =~= pairs_view(current@));
    GrowthReport { growth, streak, streaks: kept, baseline: base }
}

/// After a record is set, it is what the PID reads.
proof fn lemma_recorded_after_set(v: Seq<(Seq<char>, u8)>, pid: Seq<char>, value: u8)
    ensures
        recorded(with_record(v, pid, value), pid) == Some(value),
    decreases v.len(),
{
    if v.len() > 0 && v[0].0 != pid {
        lemma_recorded_after_set(v.drop_first(), pid, value);
        assert((seq![v[0]] + with_record(v.drop_first(), pid, value)).drop_first() =~= with_record(
            v.drop_first(),
            pid,
            value,
        ));
    }
}

fn seen_in(current: &Vec<(String, u64)>, pid: &str) -> (b: bool)
    ensures
        b == seen_now(pairs_view(current@), pid@),
{
    let ghost cv = pairs_view(current@);
    let mut k: usize = 0;
    while k < current.len()
        invariant
            k <= current@.len(),
            cv == pairs_view(current@),
            forall|j: int| 0 <= j < k ==> #[trigger] cv[j].0 != pid@,
        decreases current.len() - k,
    {
        if crate::text::string_is(&current[k].0, pid) {
            assert(cv[k as int].0 == pid@);
            return true;
        }
        k = k + 1;
    }
    false
}

/// A process that keeps growing.
pub struct MemoryLeakSuspect {
    pub pid: String,
    pub name: String,
    pub current_memory: u64,
    pub growth_rate: u64,
    pub streak: u8,
}

pub open spec fn suspect_views(v: Seq<MemoryLeakSuspect>) -> Seq<(Seq<char>, Seq<char>, u64, u64, u8)> {
    v.map_values(|s: MemoryLeakSuspect| (s.pid@, s.name@, s.current_memory, s.growth_rate, s.streak))
}

/// Whether a suspect may be listed before another: faster growth first, then more memory.
pub open spec fn suspect_first(a: (Seq<char>, Seq<char>, u64, u64, u8), b: (Seq<char>, Seq<char>, u64, u64, u8)) -> bool {
    a.3 > b.3 || (a.3 == b.3 && a.2 >= b.2)
}

pub open spec fn suspects_sorted(s: Seq<(Seq<char>, Seq<char>, u64, u64, u8)>) -> bool {
    forall|i: int, j: int| 0 <= i < j < s.len() ==> suspect_first(#[trigger] s[i], #[trigger] s[j])
}

/// The suspects worth showing: fastest growth first, then most memory; the first six.
pub fn rank_leak_suspects(rows: Vec<MemoryLeakSuspect>) -> (r: Vec<MemoryLeakSuspect>)
    ensures
        exists|s: Seq<(Seq<char>, Seq<char>, u64, u64, u8)>| #[trigger] suspects_sorted(s) && s.to_multiset()
            == suspect_views(rows@).to_multiset() && suspect_views(r@) == crate::collectors::netstat::first_n(s, 6),
{
    let mut out: Vec<MemoryLeakSuspect> = Vec::new();
    let mut rest = rows;
    let ghost all = suspect_views(rest@);
    let mut taken: usize = 0;
    let n = rest.len();
    broadcast use vstd::seq_lib::group_to_multiset_ensures;

    while rest.len() > 0
        invariant
            taken + rest@.len() == n,
            all.len() == n,
            suspect_views(rest@) == all.skip(taken as int),
            suspects_sorted(suspect_views(out@)),
            suspect_views(out@).to_multiset() == all.take(taken as int).to_multiset(),
        decreases rest.len(),
    {
        let x = rest.remove(0);
        let ghost xv = (x.pid@, x.name@, x.current_memory, x.growth_rate, x.streak);
        assert(all.skip(taken as int)[0] == xv);
        assert(all.skip(taken + 1) =~= all.skip(taken as int).drop_first());
        let mut k: usize = 0;
        while k < out.len() && (out[k].growth_rate > x.growth_rate || (out[k].growth_rate == x.growth_rate
            && out[k].current_memory >= x.current_memory))
            invariant
                k <= out@.len(),
                xv == (x.pid@, x.name@, x.current_memory, x.growth_rate, x.streak),
                forall|j: int| 0 <= j < k ==> suspect_first(#[trigger] suspect_views(out@)[j], xv),
            decreases out.len() - k,
        {
            assert(suspect_views(out@)[k as int].3 == out@[k as int].growth_rate);
            assert(suspect_views(out@)[k as int].2 == out@[k as int].current_memory);
            k = k + 1;
        }
        let ghost ov = suspect_views(out@);
        proof {
            if k < out.len() {
                assert(ov[k as int].3 == out@[k as int].growth_rate);
                assert(ov[k as int].2 == out@[k as int].current_memory);
                assert forall|j: int| k <= j < ov.len() implies suspect_first(xv, #[trigger] ov[j]) by {
                    if j > k {
                        assert(suspect_first(ov[k as int], ov[j]));
                    }
                }
            }
        }
        out.insert(k, x);
        proof {
            assert(suspect_views(out@) =~= ov.insert(k as int, xv));
            let nv = suspect_views(out@);
            assert forall|i: int, j: int| 0 <= i < j < nv.len() implies suspect_first(#[trigger] nv[i], #[trigger] nv[j]) by {
                if j < k {
                    assert(nv[i] == ov[i] && nv[j] == ov[j]);
                } else if j == k {
                    assert(nv[i] == ov[i]);
                } else if i < k {
                    assert(nv[i] == ov[i] && nv[j] == ov[j - 1]);
                } else if i == k {
                    assert(nv[j] == ov[j - 1]);
                } else {
                    assert(nv[i] == ov[i - 1] && nv[j] == ov[j - 1]);
                }
            }
            vstd::seq_lib::to_multiset_insert(ov, k as int, xv);
            assert(all.take(taken + 1) =~= all.take(taken as int).push(xv));
            vstd::seq_lib::to_multiset_build(all.take(taken as int), xv);
            assert(suspect_views(out@).to_multiset() =~= all.take(taken + 1).to_multiset());
        }
        taken = taken + 1;
    }
    proof {
        assert(all.take(n as int) =~= all);
    }
    let ghost sorted = suspect_views(out@);
    while out.len() > 6
        invariant
            sorted.len() >= out@.len(),
            suspect_views(out@) == sorted.take(out@.len() as int),
            out@.len() == sorted.len() || out@.len() >= 6,
        decreases out.len(),
    {
        out.pop();
        assert(suspect_views(out@) =~= sorted.take(out@.len() as int));
    }
    assert(suspect_views(out@) =~= crate::collectors::netstat::first_n(sorted, 6));
    out
}

/// Whether a process looks like it leaks: it grew by a mebibyte or more on three refreshes
/// in a row, at 512 KiB per second or faster.
pub fn leak_suspected(streak: u8, growth_rate: u64) -> (b: bool)
    ensures
        b == (streak >= 3 && growth_rate >= 524_288),
{
    streak >= 3 && growth_rate >= 512 * 1024
}

} // verus!
