//! The rows of the processes tab: the name filter, the grouped orders and the process tree.
use crate::app::ProcessViewMode;
use crate::cli::ProcessSort;
use crate::order::{lemma_lex_asymmetric, lemma_lex_total, lemma_lex_transitive};
use crate::text::{
    chars_eq, chars_of, contains, less_than, lex_lt, lowercase, lowercase_of, parse_u32, parse_u32_spec,
    spec_contains, spec_trim, string_is, trim,
};
use vstd::prelude::*;

verus! {

/// What the processes tab needs of a process. The CPU load is given by its rank: 0 for the
/// busiest, equal loads sharing a rank.
pub struct ProcessEntry {
    pub pid: String,
    pub parent_pid: Option<String>,
    pub user: String,
    pub service_group: String,
    pub container_group: String,
    pub name: String,
    pub memory: u64,
    pub cpu_rank: u64,
}

pub struct ProcessEntryView {
    pub pid: Seq<char>,
    pub parent_pid: Option<Seq<char>>,
    pub user: Seq<char>,
    pub service_group: Seq<char>,
    pub container_group: Seq<char>,
    pub name: Seq<char>,
    pub memory: u64,
    pub cpu_rank: u64,
}

impl View for ProcessEntry {
    type V = ProcessEntryView;

    open spec fn view(&self) -> ProcessEntryView {
        ProcessEntryView {
            pid: self.pid@,
            parent_pid: match self.parent_pid {
                Some(p) => Some(p@),
                None => None,
            },
            user: self.user@,
            service_group: self.service_group@,
            container_group: self.container_group@,
            name: self.name@,
            memory: self.memory,
            cpu_rank: self.cpu_rank,
        }
    }
}

pub open spec fn entry_views(v: Seq<ProcessEntry>) -> Seq<ProcessEntryView> {
    v.map_values(|e: ProcessEntry| e@)
}

/// Whether a process name passes the filter: a blank filter passes all; otherwise the
/// lower-cased name contains the lower-cased filter.
pub open spec fn name_passes(filter: Seq<char>, name: Seq<char>) -> bool {
    spec_trim(filter).len() == 0 || spec_contains(lowercase_of(name), lowercase_of(filter))
}

/// The indices of the processes whose names pass the filter, in their order.
pub fn filtered_indices(entries: &Vec<ProcessEntry>, filter: &str) -> (r: Vec<usize>)
    ensures
        forall|a: int, b: int| 0 <= a < b < r@.len() ==> r@[a] < r@[b],
        forall|a: int| 0 <= a < r@.len() ==> r@[a] < entries@.len() && name_passes(filter@, entries@[r@[a] as int].name@),
        forall|i: int| 0 <= i < entries@.len() && name_passes(filter@, #[trigger] entries@[i].name@) ==> r@.contains(i as usize),
{
    let fc = chars_of(filter);
    let blank = trim(&fc).len() == 0;
    let needle = chars_of(lowercase(filter).as_str());
    let mut r: Vec<usize> = Vec::new();
    let mut i: usize = 0;
    while i < entries.len()
        invariant
            i <= entries@.len(),
            fc@ == filter@,
            blank == (spec_trim(filter@).len() == 0),
            needle@ == lowercase_of(filter@),
            forall|a: int, b: int| 0 <= a < b < r@.len() ==> r@[a] < r@[b],
            forall|a: int| 0 <= a < r@.len() ==> r@[a] < i && name_passes(filter@, entries@[r@[a] as int].name@),
            forall|k: int| 0 <= k < i && name_passes(filter@, #[trigger] entries@[k].name@) ==> r@.contains(k as usize),
        decreases entries.len() - i,
    {
        let keep = if blank {
            true
        } else {
            let name = chars_of(lowercase(entries[i].name.as_str()).as_str());
            contains(&name, &needle)
        };
        assert(keep == name_passes(filter@, entries@[i as int].name@));
        let ghost before = r@;
        if keep {
            r.push(i);
            assert(r@[r@.len() - 1] == i);
        }
        assert forall|k: int| 0 <= k < i + 1 && name_passes(filter@, entries@[k].name@) implies r@.contains(k as usize) by {
            if k == i {
                assert(r@[r@.len() - 1] == i);
            } else {
                assert(before.contains(k as usize));
                let j = choose|j: int| 0 <= j < before.len() && before[j] == k as usize;
                assert(r@[j] == k as usize);
            }
        }
        i = i + 1;
    }
    r
}

/// The orders in which process rows are listed.
#[derive(Clone, Copy, PartialEq, Eq, Structural)]
pub enum RowOrder {
    /// By user, then busiest first, then by name.
    ByUser,
    /// By service group, then busiest first, then by name.
    ByService,
    /// By container group, then busiest first, then by name.
    ByContainer,
    /// Busiest first, then by name.
    ByCpu,
    /// Largest memory first.
    ByMemory,
    /// By numeric PID (0 for one that is not a number).
    ByPid,
    /// By name.
    ByName,
}

/// The numeric PID, 0 when the text is not one.
pub open spec fn pid_number(pid: Seq<char>) -> u32 {
    match parse_u32_spec(pid) {
        Some(n) => n,
        None => 0,
    }
}

/// `a` may come before `b` by (text, rank, name): text ascending, rank ascending, name
/// ascending.
pub open spec fn key_le(ta: Seq<char>, ra: u64, na: Seq<char>, tb: Seq<char>, rb: u64, nb: Seq<char>) -> bool {
    lex_lt(ta, tb) || (ta == tb && (ra < rb || (ra == rb && !lex_lt(nb, na))))
}

/// Whether process `a` may be listed before process `b` in the given order.
pub open spec fn row_le(o: RowOrder, a: ProcessEntryView, b: ProcessEntryView) -> bool {
    match o {
        RowOrder::ByUser => key_le(a.user, a.cpu_rank, a.name, b.user, b.cpu_rank, b.name),
        RowOrder::ByService => key_le(
            a.service_group,
            a.cpu_rank,
            a.name,
            b.service_group,
            b.cpu_rank,
            b.name,
        ),
        RowOrder::ByContainer => key_le(
            a.container_group,
            a.cpu_rank,
            a.name,
            b.container_group,
            b.cpu_rank,
            b.name,
        ),
        RowOrder::ByCpu => key_le(Seq::empty(), a.cpu_rank, a.name, Seq::empty(), b.cpu_rank, b.name),
        RowOrder::ByMemory => a.memory >= b.memory,
        RowOrder::ByPid => pid_number(a.pid) <= pid_number(b.pid),
        RowOrder::ByName => !lex_lt(b.name, a.name),
    }
}

proof fn lemma_key_le_total(ta: Seq<char>, ra: u64, na: Seq<char>, tb: Seq<char>, rb: u64, nb: Seq<char>)
    ensures
        key_le(ta, ra, na, tb, rb, nb) || key_le(tb, rb, nb, ta, ra, na),
{
    lemma_lex_total(ta, tb);
    lemma_lex_asymmetric(na, nb);
}

proof fn lemma_key_le_transitive(
    ta: Seq<char>,
    ra: u64,
    na: Seq<char>,
    tb: Seq<char>,
    rb: u64,
    nb: Seq<char>,
    tc: Seq<char>,
    rc: u64,
    nc: Seq<char>,
)
    requires
        key_le(ta, ra, na, tb, rb, nb),
        key_le(tb, rb, nb, tc, rc, nc),
    ensures
        key_le(ta, ra, na, tc, rc, nc),
{
    if lex_lt(ta, tb) && lex_lt(tb, tc) {
        lemma_lex_transitive(ta, tb, tc);
    }
    if ta == tc && ta != tb {
        lemma_lex_asymmetric(ta, tb);
    }
    if ta == tb && tb == tc && ra == rc && lex_lt(nc, na) {
        lemma_lex_total(na, nb);
        if lex_lt(na, nb) {
            lemma_lex_transitive(nc, na, nb);
        }
        if lex_lt(nb, na) {
        }
    }
}

pub proof fn lemma_row_le_total(o: RowOrder, a: ProcessEntryView, b: ProcessEntryView)
    ensures
        row_le(o, a, b) || row_le(o, b, a),
{
    match o {
        RowOrder::ByUser => lemma_key_le_total(a.user, a.cpu_rank, a.name, b.user, b.cpu_rank, b.name),
        RowOrder::ByService => lemma_key_le_total(
            a.service_group,
            a.cpu_rank,
            a.name,
            b.service_group,
            b.cpu_rank,
            b.name,
        ),
        RowOrder::ByContainer => lemma_key_le_total(
            a.container_group,
            a.cpu_rank,
            a.name,
            b.container_group,
            b.cpu_rank,
            b.name,
        ),
        RowOrder::ByCpu => lemma_key_le_total(
            Seq::empty(),
            a.cpu_rank,
            a.name,
            Seq::empty(),
            b.cpu_rank,
            b.name,
        ),
        RowOrder::ByName => lemma_lex_asymmetric(a.name, b.name),
        _ => {},
    }
}

pub proof fn lemma_row_le_transitive(o: RowOrder, a: ProcessEntryView, b: ProcessEntryView, c: ProcessEntryView)
    requires
        row_le(o, a, b),
        row_le(o, b, c),
    ensures
        row_le(o, a, c),
{
    match o {
        RowOrder::ByUser => lemma_key_le_transitive(
            a.user,
            a.cpu_rank,
            a.name,
            b.user,
            b.cpu_rank,
            b.name,
            c.user,
            c.cpu_rank,
            c.name,
        ),
        RowOrder::ByService => lemma_key_le_transitive(
            a.service_group,
            a.cpu_rank,
            a.name,
            b.service_group,
            b.cpu_rank,
            b.name,
            c.service_group,
            c.cpu_rank,
            c.name,
        ),
        RowOrder::ByContainer => lemma_key_le_transitive(
            a.container_group,
            a.cpu_rank,
            a.name,
            b.container_group,
            b.cpu_rank,
            b.name,
            c.container_group,
            c.cpu_rank,
            c.name,
        ),
        RowOrder::ByCpu => lemma_key_le_transitive(
            Seq::empty(),
            a.cpu_rank,
            a.name,
            Seq::empty(),
            b.cpu_rank,
            b.name,
            Seq::empty(),
            c.cpu_rank,
            c.name,
        ),
        RowOrder::ByName => {
            lemma_lex_total(a.name, b.name);
            lemma_lex_total(b.name, c.name);
            if lex_lt(c.name, a.name) {
                if lex_lt(a.name, b.name) {
                    lemma_lex_transitive(c.name, a.name, b.name);
                }
            }
        },
        _ => {},
    }
}

fn key_before(ta: &str, ra: u64, na: &str, tb: &str, rb: u64, nb: &str) -> (r: bool)
    ensures
        r == key_le(ta@, ra, na@, tb@, rb, nb@),
{
    let a = chars_of(ta);
    let b = chars_of(tb);
    if less_than(&a, &b) {
        return true;
    }
    if !chars_eq(&a, &b) {
        return false;
    }
    if ra != rb {
        return ra < rb;
    }
    !less_than(&chars_of(nb), &chars_of(na))
}

fn pid_value(pid: &str) -> (n: u32)
    ensures
        n == pid_number(pid@),
{
    match parse_u32(&chars_of(pid)) {
        Some(n) => n,
        None => 0,
    }
}

/// Whether process `a` may be listed before process `b` (see `row_le`).
fn entry_before(o: RowOrder, a: &ProcessEntry, b: &ProcessEntry) -> (r: bool)
    ensures
        r == row_le(o, a@, b@),
{
    match o {
        RowOrder::ByUser => key_before(a.user.as_str(), a.cpu_rank, a.name.as_str(), b.user.as_str(), b.cpu_rank, b.name.as_str()),
        RowOrder::ByService => key_before(
            a.service_group.as_str(),
            a.cpu_rank,
            a.name.as_str(),
            b.service_group.as_str(),
            b.cpu_rank,
            b.name.as_str(),
        ),
        RowOrder::ByContainer => key_before(
            a.container_group.as_str(),
            a.cpu_rank,
            a.name.as_str(),
            b.container_group.as_str(),
            b.cpu_rank,
            b.name.as_str(),
        ),
        RowOrder::ByCpu => {
            proof {
                reveal_strlit("");
            }
            assert(""@ =~= Seq::<char>::empty());
            key_before("", a.cpu_rank, a.name.as_str(), "", b.cpu_rank, b.name.as_str())
        },
        RowOrder::ByMemory => a.memory >= b.memory,
        RowOrder::ByPid => pid_value(a.pid.as_str()) <= pid_value(b.pid.as_str()),
        RowOrder::ByName => !less_than(&chars_of(b.name.as_str()), &chars_of(a.name.as_str())),
    }
}

/// Whether the indices list their processes in the given order.
pub open spec fn sorted_rows(entries: Seq<ProcessEntryView>, o: RowOrder, s: Seq<usize>) -> bool {
    forall|i: int, j: int|
        0 <= i < j < s.len() ==> row_le(o, entries[#[trigger] s[i] as int], entries[#[trigger] s[j] as int])
}

/// Whether the indices increase strictly.
pub open spec fn increasing(s: Seq<usize>) -> bool {
    forall|a: int, b: int| 0 <= a < b < s.len() ==> s[a] < s[b]
}

/// Whether the process at `x` may be listed before the one at `y`: the order puts it
/// first, or cannot tell the two apart and, where `by_index` holds, `x` is the smaller index.
pub open spec fn goes_before(ev: Seq<ProcessEntryView>, o: RowOrder, by_index: bool, x: usize, y: usize) -> bool {
    row_le(o, ev[x as int], ev[y as int]) && (by_index && row_le(o, ev[y as int], ev[x as int]) ==> x < y)
}

/// Whether the indices list their processes in the order (see `goes_before`).
pub open spec fn listed_in_order(ev: Seq<ProcessEntryView>, o: RowOrder, by_index: bool, s: Seq<usize>) -> bool {
    forall|i: int, j: int| 0 <= i < j < s.len() ==> goes_before(ev, o, by_index, #[trigger] s[i], #[trigger] s[j])
}

/// Sorts indices of processes into the given order; processes the order cannot tell apart
/// keep their order, so that increasing indices come out ordered by index among equals.
pub fn sort_indices(entries: &Vec<ProcessEntry>, idx: Vec<usize>, o: RowOrder) -> (r: Vec<usize>)
    requires
        forall|k: int| 0 <= k < idx@.len() ==> idx@[k] < entries@.len(),
    ensures
        sorted_rows(entry_views(entries@), o, r@),
        listed_in_order(entry_views(entries@), o, increasing(idx@), r@),
        r@.to_multiset() == idx@.to_multiset(),
        forall|k: int| 0 <= k < r@.len() ==> r@[k] < entries@.len(),
{
    let ghost ev = entry_views(entries@);
    let mut out: Vec<usize> = Vec::new();
    let mut taken: usize = 0;
    let n = idx.len();
    broadcast use vstd::seq_lib::group_to_multiset_ensures;

    while taken < n
        invariant
            n == idx@.len(),
            taken <= n,
            ev == entry_views(entries@),
            forall|k: int| 0 <= k < idx@.len() ==> idx@[k] < entries@.len(),
            forall|k: int| 0 <= k < out@.len() ==> out@[k] < entries@.len(),
            sorted_rows(ev, o, out@),
            listed_in_order(ev, o, increasing(idx@), out@),
            increasing(idx@) ==> forall|m: int, t: int|
                0 <= m < out@.len() && taken <= t < n ==> #[trigger] out@[m] < #[trigger] idx@[t],
            out@.to_multiset() == idx@.take(taken as int).to_multiset(),
        decreases n - taken,
    {
        let x = idx[taken];
        let mut k: usize = 0;
        while k < out.len() && entry_before(o, &entries[out[k]], &entries[x])
            invariant
                k <= out@.len(),
                x < entries@.len(),
                ev == entry_views(entries@),
                forall|m: int| 0 <= m < out@.len() ==> out@[m] < entries@.len(),
                forall|j: int| 0 <= j < k ==> row_le(o, ev[#[trigger] out@[j] as int], ev[x as int]),
            decreases out.len() - k,
        {
            k = k + 1;
        }
        let ghost ov = out@;
        proof {
            if k < out.len() {
                lemma_row_le_total(o, ev[ov[k as int] as int], ev[x as int]);
                assert forall|j: int| k <= j < ov.len() implies row_le(o, ev[x as int], ev[#[trigger] ov[j] as int]) by {
                    if j > k {
                        assert(row_le(o, ev[ov[k as int] as int], ev[ov[j] as int]));
                        lemma_row_le_transitive(o, ev[x as int], ev[ov[k as int] as int], ev[ov[j] as int]);
                    }
                }
            }
        }
        out.insert(k, x);
        proof {
            let nv = out@;
            assert(nv =~= ov.insert(k as int, x));
            assert forall|i: int, j: int| 0 <= i < j < nv.len() implies row_le(o, ev[#[trigger] nv[i] as int], ev[#[trigger] nv[j] as int]) by {
                if j < k {
                    assert(nv[i] == ov[i] && nv[j] == ov[j]);
                } else if j == k {
                    assert(nv[i] == ov[i]);
                } else if i < k {
                    assert(nv[i] == ov[i] && nv[j] == ov[j - 1]);
                    assert(row_le(o, ev[ov[i] as int], ev[x as int]));
                    assert(row_le(o, ev[x as int], ev[ov[j - 1] as int]));
                    lemma_row_le_transitive(o, ev[ov[i] as int], ev[x as int], ev[ov[j - 1] as int]);
                } else if i == k {
                    assert(nv[j] == ov[j - 1]);
                } else {
                    assert(nv[i] == ov[i - 1] && nv[j] == ov[j - 1]);
                }
            }
            let inc = increasing(idx@);
            assert forall|i: int, j: int| 0 <= i < j < nv.len() implies goes_before(ev, o, inc, #[trigger] nv[i], #[trigger] nv[j]) by {
                assert(row_le(o, ev[nv[i] as int], ev[nv[j] as int]));
                if j < k {
                    assert(nv[i] == ov[i] && nv[j] == ov[j]);
                    assert(goes_before(ev, o, inc, ov[i], ov[j]));
                } else if j == k {
                    assert(nv[i] == ov[i]);
                    if inc {
                        assert(ov[i] < idx@[taken as int]);
                    }
                } else if i < k {
                    assert(nv[i] == ov[i] && nv[j] == ov[j - 1]);
                    assert(goes_before(ev, o, inc, ov[i], ov[j - 1]));
                    if inc && row_le(o, ev[ov[j - 1] as int], ev[ov[i] as int]) {
                        assert(row_le(o, ev[ov[i] as int], ev[x as int]));
                        assert(row_le(o, ev[x as int], ev[ov[j - 1] as int]));
                    }
                } else if i == k {
                    assert(nv[j] == ov[j - 1]);
                    if inc && row_le(o, ev[ov[j - 1] as int], ev[x as int]) {
                        assert(k < ov.len());
                        if j - 1 > k {
                            assert(row_le(o, ev[ov[k as int] as int], ev[ov[j - 1] as int]));
                            lemma_row_le_transitive(o, ev[ov[k as int] as int], ev[ov[j - 1] as int], ev[x as int]);
                        }
                        assert(false);
                    }
                } else {
                    assert(nv[i] == ov[i - 1] && nv[j] == ov[j - 1]);
                    assert(goes_before(ev, o, inc, ov[i - 1], ov[j - 1]));
                }
            }
            if inc {
                assert forall|m: int, t: int| 0 <= m < nv.len() && taken + 1 <= t < n implies #[trigger] nv[m] < #[trigger] idx@[t] by {
                    if m < k {
                        assert(nv[m] == ov[m]);
                    } else if m > k {
                        assert(nv[m] == ov[m - 1]);
                    }
                }
            }
            vstd::seq_lib::to_multiset_insert(ov, k as int, x);
            assert(idx@.take(taken + 1) =~= idx@.take(taken as int).push(x));
            vstd::seq_lib::to_multiset_build(idx@.take(taken as int), x);
        }
        taken = taken + 1;
    }
    proof {
        assert(idx@.take(n as int) =~= idx@);
    }
    out
}

/// Whether some row lists a process with this PID.
pub open spec fn pid_listed(ev: Seq<ProcessEntryView>, rows: Seq<(usize, usize)>, pid: Seq<char>) -> bool {
    exists|q: int| 0 <= q < rows.len() && #[trigger] ev[rows[q].0 as int].pid == pid
}

/// How many of the indices `f` name a process whose PID no row lists yet.
pub open spec fn unseen(ev: Seq<ProcessEntryView>, rows: Seq<(usize, usize)>, f: Seq<usize>) -> nat
    decreases f.len(),
{
    if f.len() == 0 {
        0
    } else {
        unseen(ev, rows, f.drop_last()) + if pid_listed(ev, rows, ev[f.last() as int].pid) {
            0nat
        } else {
            1nat
        }
    }
}

proof fn lemma_unseen_push(ev: Seq<ProcessEntryView>, rows: Seq<(usize, usize)>, r: (usize, usize), f: Seq<usize>)
    requires
        !pid_listed(ev, rows, ev[r.0 as int].pid),
    ensures
        unseen(ev, rows.push(r), f) <= unseen(ev, rows, f),
        f.contains(r.0) ==> unseen(ev, rows.push(r), f) < unseen(ev, rows, f),
    decreases f.len(),
{
    if f.len() > 0 {
        let g = f.drop_last();
        lemma_unseen_push(ev, rows, r, g);
        let pid = ev[f.last() as int].pid;
        if pid_listed(ev, rows, pid) {
            let q = choose|q: int| 0 <= q < rows.len() && #[trigger] ev[rows[q].0 as int].pid == pid;
            assert(rows.push(r)[q] == rows[q]);
            assert(pid_listed(ev, rows.push(r), pid));
        }
        if f.last() == r.0 {
            assert(rows.push(r)[rows.len() as int] == r);
            assert(pid_listed(ev, rows.push(r), pid));
        }
        if f.contains(r.0) && f.last() != r.0 {
            let j = choose|j: int| 0 <= j < f.len() && f[j] == r.0;
            assert(g[j] == r.0);
        }
    }
}

/// Whether the row at `q` is the parent row of the row at `p`: one level up, listing the
/// parent process, with only deeper rows between the two.
pub open spec fn parent_row(ev: Seq<ProcessEntryView>, rows: Seq<(usize, usize)>, q: int, p: int) -> bool {
    &&& 0 <= q < p < rows.len()
    &&& rows[q].1 + 1 == rows[p].1
    &&& ev[rows[p].0 as int].parent_pid == Some(ev[rows[q].0 as int].pid)
    &&& forall|k: int| q < k < p ==> #[trigger] rows[k].1 > rows[q].1
}

/// What a tree listing keeps: rows of the given processes, no PID twice, and a row below
/// depth 0 comes after the row of its parent one level up, with only deeper rows between.
pub open spec fn tree_shaped(ev: Seq<ProcessEntryView>, f: Seq<usize>, rows: Seq<(usize, usize)>) -> bool {
    &&& forall|p: int| 0 <= p < rows.len() ==> f.contains(#[trigger] rows[p].0)
    &&& forall|a: int, b: int|
        0 <= a < b < rows.len() ==> ev[#[trigger] rows[a].0 as int].pid != ev[#[trigger] rows[b].0 as int].pid
    &&& forall|p: int| 0 <= p < rows.len() && #[trigger] rows[p].1 > 0 ==> exists|q: int| #[trigger] parent_row(ev, rows, q, p)
    &&& forall|p: int| 0 <= p < rows.len() ==> #[trigger] rows[p].1 <= p
}

/// Whether a row lists the process of `pid`.
fn pid_in_rows(entries: &Vec<ProcessEntry>, rows: &Vec<(usize, usize)>, pid: &str) -> (b: bool)
    requires
        forall|p: int| 0 <= p < rows@.len() ==> rows@[p].0 < entries@.len(),
    ensures
        b == pid_listed(entry_views(entries@), rows@, pid@),
{
    let ghost ev = entry_views(entries@);
    let mut q: usize = 0;
    while q < rows.len()
        invariant
            q <= rows@.len(),
            ev == entry_views(entries@),
            forall|p: int| 0 <= p < rows@.len() ==> rows@[p].0 < entries@.len(),
            forall|m: int| 0 <= m < q ==> #[trigger] ev[rows@[m].0 as int].pid != pid@,
        decreases rows.len() - q,
    {
        if string_is(&entries[rows[q].0].pid, pid) {
            assert(ev[rows@[q as int].0 as int].pid == pid@);
            return true;
        }
        q = q + 1;
    }
    false
}

/// The row order that a process sort stands for.
pub open spec fn sort_order(sort: ProcessSort) -> RowOrder {
    match sort {
        ProcessSort::Cpu => RowOrder::ByCpu,
        ProcessSort::Memory => RowOrder::ByMemory,
        ProcessSort::Pid => RowOrder::ByPid,
        ProcessSort::Name => RowOrder::ByName,
    }
}

fn order_of_sort(sort: ProcessSort) -> (o: RowOrder)
    ensures
        o == sort_order(sort),
{
    match sort {
        ProcessSort::Cpu => RowOrder::ByCpu,
        ProcessSort::Memory => RowOrder::ByMemory,
        ProcessSort::Pid => RowOrder::ByPid,
        ProcessSort::Name => RowOrder::ByName,
    }
}

/// Whether the process at `i` has its parent among the processes at the indices `f`.
pub open spec fn parent_listed(ev: Seq<ProcessEntryView>, f: Seq<usize>, i: int) -> bool {
    match ev[i].parent_pid {
        Some(pp) => exists|k: int| 0 <= k < f.len() && #[trigger] ev[f[k] as int].pid == pp,
        None => false,
    }
}

/// Whether the process at `i` has a parent among the listed indices.
fn has_listed_parent(entries: &Vec<ProcessEntry>, f: &Vec<usize>, i: usize) -> (b: bool)
    requires
        i < entries@.len(),
        forall|k: int| 0 <= k < f@.len() ==> f@[k] < entries@.len(),
    ensures
        b == parent_listed(entry_views(entries@), f@, i as int),
{
    match &entries[i].parent_pid {
        None => false,
        Some(pp) => {
            assert(entry_views(entries@)[i as int].parent_pid == Some(pp@));
            let mut k: usize = 0;
            while k < f.len()
                invariant
                    k <= f@.len(),
                    i < entries@.len(),
                    entry_views(entries@)[i as int].parent_pid == Some(pp@),
                    forall|m: int| 0 <= m < f@.len() ==> f@[m] < entries@.len(),
                    forall|m: int| 0 <= m < k ==> #[trigger] entry_views(entries@)[f@[m] as int].pid != pp@,
                decreases f.len() - k,
            {
                if string_is(&entries[f[k]].pid, pp.as_str()) {
                    proof {
                        let ev = entry_views(entries@);
                        assert(ev[f@[k as int] as int].pid == pp@);
                        assert(ev[i as int].parent_pid == Some(pp@));
                        assert(parent_listed(ev, f@, i as int));
                    }
                    return true;
                }
                k = k + 1;
            }
            false
        },
    }
}

/// The listed processes whose parent is the process `pid`, in the given order.
fn children_of(entries: &Vec<ProcessEntry>, f: &Vec<usize>, pid: &str, o: RowOrder) -> (r: Vec<usize>)
    requires
        forall|k: int| 0 <= k < f@.len() ==> f@[k] < entries@.len(),
    ensures
        forall|k: int| 0 <= k < r@.len() ==> f@.contains(#[trigger] r@[k]) && entries@[r@[k] as int]@.parent_pid == Some(pid@),
        forall|k: int| 0 <= k < r@.len() ==> #[trigger] r@[k] < entries@.len(),
        listed_in_order(entry_views(entries@), o, increasing(f@), r@),
        forall|t: int|
            0 <= t < f@.len() && entries@[f@[t] as int]@.parent_pid == Some(pid@) ==> r@.contains(#[trigger] f@[t]),
{
    let mut kids: Vec<usize> = Vec::new();
    let mut k: usize = 0;
    while k < f.len()
        invariant
            k <= f@.len(),
            forall|m: int| 0 <= m < f@.len() ==> f@[m] < entries@.len(),
            forall|m: int| 0 <= m < kids@.len() ==> f@.contains(#[trigger] kids@[m]) && entries@[kids@[m] as int]@.parent_pid == Some(pid@),
            forall|m: int| 0 <= m < kids@.len() ==> #[trigger] kids@[m] < entries@.len(),
            increasing(f@) ==> increasing(kids@) && forall|m: int, t: int|
                0 <= m < kids@.len() && k <= t < f@.len() ==> #[trigger] kids@[m] < #[trigger] f@[t],
            forall|t: int|
                0 <= t < k && entries@[f@[t] as int]@.parent_pid == Some(pid@) ==> kids@.contains(#[trigger] f@[t]),
        decreases f.len() - k,
    {
        let j = f[k];
        let is_child = match &entries[j].parent_pid {
            Some(pp) => string_is(pp, pid),
            None => false,
        };
        assert(is_child == (entries@[j as int]@.parent_pid == Some(pid@)));
        if is_child {
            let ghost before = kids@;
            kids.push(j);
            assert(f@[k as int] == j);
            proof {
                assert forall|t: int|
                    0 <= t < k + 1 && entries@[f@[t] as int]@.parent_pid == Some(pid@) implies kids@.contains(#[trigger] f@[t]) by {
                    if t < k {
                        assert(before.contains(f@[t]));
                        let m = choose|m: int| 0 <= m < before.len() && before[m] == f@[t];
                        assert(kids@[m] == f@[t]);
                    } else {
                        assert(kids@[before.len() as int] == f@[t]);
                    }
                }
                if increasing(f@) {
                    assert forall|a: int, b: int| 0 <= a < b < kids@.len() implies kids@[a] < kids@[b] by {
                        if b == before.len() {
                            assert(before[a] < f@[k as int]);
                        } else {
                            assert(kids@[a] == before[a] && kids@[b] == before[b]);
                        }
                    }
                    assert forall|m: int, t: int| 0 <= m < kids@.len() && k + 1 <= t < f@.len() implies #[trigger] kids@[m] < #[trigger] f@[t] by {
                        if m < before.len() {
                            assert(kids@[m] == before[m]);
                        }
                    }
                }
            }
        }
        k = k + 1;
    }
    let sorted = sort_indices(entries, kids, o);
    proof {
        lemma_order_weaker(entry_views(entries@), o, increasing(kids@), increasing(f@), sorted@);
        broadcast use vstd::seq_lib::group_to_multiset_ensures;
        assert forall|m: int| 0 <= m < sorted@.len() implies f@.contains(#[trigger] sorted@[m]) && entries@[sorted@[m] as int]@.parent_pid == Some(pid@) by {
            assert(sorted@.contains(sorted@[m]));
            assert(kids@.to_multiset().count(sorted@[m]) > 0);
            assert(kids@.contains(sorted@[m]));
        }
        assert forall|t: int|
            0 <= t < f@.len() && entries@[f@[t] as int]@.parent_pid == Some(pid@) implies sorted@.contains(#[trigger] f@[t]) by {
            assert(kids@.contains(f@[t]));
            assert(kids@.to_multiset().count(f@[t]) > 0);
        }
    }
    sorted
}

/// Order that holds with ties broken by index also holds where ties need not be.
proof fn lemma_order_weaker(ev: Seq<ProcessEntryView>, o: RowOrder, strong: bool, weak: bool, s: Seq<usize>)
    requires
        listed_in_order(ev, o, strong, s),
        weak ==> strong,
    ensures
        listed_in_order(ev, o, weak, s),
{
    assert forall|i: int, j: int| 0 <= i < j < s.len() implies goes_before(ev, o, weak, #[trigger] s[i], #[trigger] s[j]) by {
        assert(goes_before(ev, o, strong, s[i], s[j]));
    }
}

proof fn lemma_listed_push(ev: Seq<ProcessEntryView>, rows: Seq<(usize, usize)>, r: (usize, usize), pid: Seq<char>)
    requires
        pid_listed(ev, rows, pid),
    ensures
        pid_listed(ev, rows.push(r), pid),
{
    let q = choose|q: int| 0 <= q < rows.len() && #[trigger] ev[rows[q].0 as int].pid == pid;
    assert(rows.push(r)[q] == rows[q]);
}

/// Whether a row may follow the rows: at depth 0, or so that the rows would hold its parent
/// row (see `parent_row`).
pub open spec fn placed_under(ev: Seq<ProcessEntryView>, rows: Seq<(usize, usize)>, r: (usize, usize)) -> bool {
    r.1 <= rows.len() && (r.1 > 0 ==> exists|q: int| #[trigger] parent_row(ev, rows.push(r), q, rows.len() as int))
}

/// Whether two rows are siblings: both at depth 0, or at one depth below 0 with the same
/// parent process.
pub open spec fn siblings(ev: Seq<ProcessEntryView>, x: (usize, usize), y: (usize, usize)) -> bool {
    x.1 == y.1 && (x.1 == 0 || ev[x.0 as int].parent_pid == ev[y.0 as int].parent_pid)
}

/// Whether the rows at depth 0 all start trees: their parent is not among the processes.
pub open spec fn roots_first(ev: Seq<ProcessEntryView>, f: Seq<usize>, rows: Seq<(usize, usize)>) -> bool {
    forall|p: int| 0 <= p < rows.len() && #[trigger] rows[p].1 == 0 ==> !parent_listed(ev, f, rows[p].0 as int)
}

/// Whether siblings come in the order (see `goes_before`): the children of a process among
/// themselves, and the processes that start trees among themselves.
pub open spec fn siblings_in_order(
    ev: Seq<ProcessEntryView>,
    f: Seq<usize>,
    o: RowOrder,
    by_index: bool,
    rows: Seq<(usize, usize)>,
) -> bool {
    forall|a: int, b: int|
        0 <= a < b < rows.len() && siblings(ev, #[trigger] rows[a], #[trigger] rows[b]) && (rows[a].1 == 0
            ==> !parent_listed(ev, f, rows[a].0 as int) && !parent_listed(ev, f, rows[b].0 as int)) ==> goes_before(
            ev,
            o,
            by_index,
            rows[a].0,
            rows[b].0,
        )
}

/// Whether a row lists a process that no tree reached: at depth 0, though its parent is
/// among the processes.
pub open spec fn is_stray(ev: Seq<ProcessEntryView>, f: Seq<usize>, r: (usize, usize)) -> bool {
    r.1 == 0 && parent_listed(ev, f, r.0 as int)
}

/// Whether the rows of processes that no tree reached come after all the others.
pub open spec fn strays_last(ev: Seq<ProcessEntryView>, f: Seq<usize>, rows: Seq<(usize, usize)>) -> bool {
    forall|a: int, b: int|
        0 <= a < b < rows.len() && is_stray(ev, f, #[trigger] rows[a]) ==> is_stray(ev, f, #[trigger] rows[b])
}

/// Whether no tree row lists the parent of a process that no tree reached.
pub open spec fn strays_unreached(ev: Seq<ProcessEntryView>, f: Seq<usize>, rows: Seq<(usize, usize)>) -> bool {
    forall|p: int, q: int|
        0 <= p < rows.len() && 0 <= q < rows.len() && is_stray(ev, f, #[trigger] rows[p]) && !is_stray(
            ev,
            f,
            #[trigger] rows[q],
        ) ==> ev[rows[p].0 as int].parent_pid != Some(ev[rows[q].0 as int].pid)
}

/// Whether every process whose parent has a row is listed or waits on the stack.
#[verifier::opaque]
pub open spec fn children_pending(
    ev: Seq<ProcessEntryView>,
    f: Seq<usize>,
    rows: Seq<(usize, usize)>,
    stack: Seq<(usize, usize)>,
) -> bool {
    forall|q: int, j: int|
        0 <= q < rows.len() && 0 <= j < f.len() && ev[f[j] as int].parent_pid == Some(ev[#[trigger] rows[q].0 as int].pid)
            ==> pid_listed(ev, rows, #[trigger] ev[f[j] as int].pid) || exists|s: int|
            0 <= s < stack.len() && stack[s].0 == f[j]
}

/// Whether the processes whose parent has a row that is not a stray are listed.
pub open spec fn children_listed(ev: Seq<ProcessEntryView>, f: Seq<usize>, rows: Seq<(usize, usize)>) -> bool {
    forall|q: int, j: int|
        0 <= q < rows.len() && 0 <= j < f.len() && !is_stray(ev, f, #[trigger] rows[q]) && ev[f[j] as int].parent_pid
            == Some(ev[rows[q].0 as int].pid) ==> pid_listed(ev, rows, #[trigger] ev[f[j] as int].pid)
}

/// Whether each pending row is of one of the processes and may follow the rows.
#[verifier::opaque]
pub open spec fn pending_placed(
    ev: Seq<ProcessEntryView>,
    f: Seq<usize>,
    rows: Seq<(usize, usize)>,
    stack: Seq<(usize, usize)>,
) -> bool {
    forall|s: int| 0 <= s < stack.len() ==> f.contains(#[trigger] stack[s].0) && placed_under(ev, rows, stack[s])
}

/// Whether the pending rows at depth 0 start trees.
#[verifier::opaque]
pub open spec fn pending_roots(ev: Seq<ProcessEntryView>, f: Seq<usize>, stack: Seq<(usize, usize)>) -> bool {
    forall|s: int| 0 <= s < stack.len() && #[trigger] stack[s].1 == 0 ==> !parent_listed(ev, f, stack[s].0 as int)
}

/// Whether the depths of the pending rows do not decrease towards the top.
#[verifier::opaque]
pub open spec fn pending_deepening(stack: Seq<(usize, usize)>) -> bool {
    forall|a: int, b: int| 0 <= a < b < stack.len() ==> #[trigger] stack[a].1 <= #[trigger] stack[b].1
}

/// Whether pending siblings lie in reverse order, the first on top.
#[verifier::opaque]
pub open spec fn pending_ordered(ev: Seq<ProcessEntryView>, o: RowOrder, by_index: bool, stack: Seq<(usize, usize)>) -> bool {
    forall|a: int, b: int|
        0 <= a < b < stack.len() && siblings(ev, #[trigger] stack[a], #[trigger] stack[b]) ==> goes_before(
            ev,
            o,
            by_index,
            stack[b].0,
            stack[a].0,
        )
}

/// Whether each listed row comes before its pending siblings.
#[verifier::opaque]
pub open spec fn listed_before_pending(
    ev: Seq<ProcessEntryView>,
    o: RowOrder,
    by_index: bool,
    rows: Seq<(usize, usize)>,
    stack: Seq<(usize, usize)>,
) -> bool {
    forall|p: int, s: int|
        0 <= p < rows.len() && 0 <= s < stack.len() && siblings(ev, #[trigger] rows[p], #[trigger] stack[s])
            ==> goes_before(ev, o, by_index, rows[p].0, stack[s].0)
}

/// What the walk keeps of its pending rows: each may follow the rows, those at depth 0 start
/// trees, depths do not decrease towards the top, and a pending row comes after its listed
/// siblings and before its siblings pending below it.
pub open spec fn stack_ok(
    ev: Seq<ProcessEntryView>,
    f: Seq<usize>,
    o: RowOrder,
    by_index: bool,
    rows: Seq<(usize, usize)>,
    stack: Seq<(usize, usize)>,
) -> bool {
    &&& pending_placed(ev, f, rows, stack)
    &&& pending_roots(ev, f, stack)
    &&& pending_deepening(stack)
    &&& pending_ordered(ev, o, by_index, stack)
    &&& listed_before_pending(ev, o, by_index, rows, stack)
}

/// Whether every process that starts a tree is listed or waits at depth 0 on the stack.
#[verifier::opaque]
pub open spec fn roots_pending(
    ev: Seq<ProcessEntryView>,
    f: Seq<usize>,
    rows: Seq<(usize, usize)>,
    stack: Seq<(usize, usize)>,
) -> bool {
    forall|j: int|
        0 <= j < f.len() && !parent_listed(ev, f, f[j] as int) ==> pid_listed(ev, rows, #[trigger] ev[f[j] as int].pid)
            || exists|s: int| 0 <= s < stack.len() && stack[s] == (f[j], 0usize)
}

/// The pending rows after pushing `kids[c..]` one level below `e - 1`, last first.
pub open spec fn kid_entries(kids: Seq<usize>, c: int, e: usize) -> Seq<(usize, usize)> {
    Seq::new((kids.len() - c) as nat, |t: int| (kids[kids.len() - 1 - t], e))
}

proof fn lemma_placed_push(ev: Seq<ProcessEntryView>, rows: Seq<(usize, usize)>, r: (usize, usize), x: (usize, usize))
    requires
        placed_under(ev, rows, x),
        x.1 <= r.1,
    ensures
        placed_under(ev, rows.push(r), x),
{
    if x.1 > 0 {
        let n = rows.len() as int;
        let q = choose|q: int| #[trigger] parent_row(ev, rows.push(x), q, n);
        let a = rows.push(x);
        let b = rows.push(r).push(x);
        assert(b[q] == a[q]);
        assert(b[n + 1] == x);
        assert forall|k: int| q < k < n + 1 implies #[trigger] b[k].1 > b[q].1 by {
            if k < n {
                assert(b[k] == a[k]);
            } else {
                assert(b[k] == r);
            }
        }
        assert(parent_row(ev, b, q, n + 1));
    }
}

#[verifier::spinoff_prover]
proof fn lemma_tree_push(ev: Seq<ProcessEntryView>, f: Seq<usize>, rows: Seq<(usize, usize)>, r: (usize, usize))
    requires
        tree_shaped(ev, f, rows),
        f.contains(r.0),
        !pid_listed(ev, rows, ev[r.0 as int].pid),
        placed_under(ev, rows, r),
    ensures
        tree_shaped(ev, f, rows.push(r)),
{
    let nr = rows.push(r);
    let n = rows.len() as int;
    assert forall|a: int, b: int| 0 <= a < b < nr.len() implies ev[#[trigger] nr[a].0 as int].pid != ev[#[trigger] nr[b].0 as int].pid by {
        if b == n {
            assert(nr[a] == rows[a]);
            if ev[rows[a].0 as int].pid == ev[r.0 as int].pid {
                assert(pid_listed(ev, rows, ev[r.0 as int].pid));
            }
        } else {
            assert(nr[a] == rows[a] && nr[b] == rows[b]);
        }
    }
    assert forall|p: int| 0 <= p < nr.len() && #[trigger] nr[p].1 > 0 implies exists|q: int| #[trigger] parent_row(ev, nr, q, p) by {
        if p == n {
            let q = choose|q: int| #[trigger] parent_row(ev, rows.push(r), q, n);
            assert(parent_row(ev, nr, q, p));
        } else {
            assert(nr[p] == rows[p]);
            let q = choose|q: int| #[trigger] parent_row(ev, rows, q, p);
            assert(nr[q] == rows[q]);
            assert forall|k: int| q < k < p implies #[trigger] nr[k].1 > nr[q].1 by {
                assert(nr[k] == rows[k]);
            }
            assert(parent_row(ev, nr, q, p));
        }
    }
    assert forall|p: int| 0 <= p < nr.len() implies f.contains(#[trigger] nr[p].0) by {
        if p < n {
            assert(nr[p] == rows[p]);
        }
    }
    assert forall|p: int| 0 <= p < nr.len() implies #[trigger] nr[p].1 <= p by {
        if p < n {
            assert(nr[p] == rows[p]);
        }
    }
}

/// Listing the top of the stack keeps what the rows owe.
#[verifier::spinoff_prover]
proof fn lemma_list_rows(
    ev: Seq<ProcessEntryView>,
    f: Seq<usize>,
    o: RowOrder,
    inc: bool,
    rows: Seq<(usize, usize)>,
    stack: Seq<(usize, usize)>,
)
    requires
        tree_shaped(ev, f, rows),
        roots_first(ev, f, rows),
        siblings_in_order(ev, f, o, inc, rows),
        pending_placed(ev, f, rows, stack),
        pending_roots(ev, f, stack),
        listed_before_pending(ev, o, inc, rows, stack),
        stack.len() > 0,
        !pid_listed(ev, rows, ev[stack.last().0 as int].pid),
    ensures
        tree_shaped(ev, f, rows.push(stack.last())),
        roots_first(ev, f, rows.push(stack.last())),
        siblings_in_order(ev, f, o, inc, rows.push(stack.last())),
{
    reveal(pending_placed);
    reveal(pending_roots);
    reveal(listed_before_pending);
    let t = stack.last();
    let top = stack.len() - 1;
    let nr = rows.push(t);
    let n = rows.len() as int;
    assert(stack[top] == t);
    assert(f.contains(stack[top].0));
    lemma_tree_push(ev, f, rows, t);
    assert forall|p: int| 0 <= p < nr.len() && #[trigger] nr[p].1 == 0 implies !parent_listed(ev, f, nr[p].0 as int) by {
        if p < n {
            assert(nr[p] == rows[p]);
        }
    }
    assert forall|a: int, b: int|
        0 <= a < b < nr.len() && siblings(ev, #[trigger] nr[a], #[trigger] nr[b]) && (nr[a].1 == 0 ==> !parent_listed(
            ev,
            f,
            nr[a].0 as int,
        ) && !parent_listed(ev, f, nr[b].0 as int)) implies goes_before(ev, o, inc, nr[a].0, nr[b].0) by {
        assert(nr[a] == rows[a]);
        if b < n {
            assert(nr[b] == rows[b]);
        } else {
            assert(nr[b] == stack[top]);
        }
    }
}

/// Listing the top of the stack keeps what the rest of the stack owes.
#[verifier::spinoff_prover]
proof fn lemma_list_stack(
    ev: Seq<ProcessEntryView>,
    f: Seq<usize>,
    o: RowOrder,
    inc: bool,
    rows: Seq<(usize, usize)>,
    stack: Seq<(usize, usize)>,
)
    requires
        stack_ok(ev, f, o, inc, rows, stack),
        stack.len() > 0,
    ensures
        stack_ok(ev, f, o, inc, rows.push(stack.last()), stack.drop_last()),
        forall|s: int| 0 <= s < stack.len() - 1 ==> #[trigger] stack[s].1 <= stack.last().1,
{
    reveal(pending_placed);
    reveal(pending_roots);
    reveal(pending_deepening);
    reveal(pending_ordered);
    reveal(listed_before_pending);
    let t = stack.last();
    let top = stack.len() - 1;
    let nr = rows.push(t);
    let st = stack.drop_last();
    let n = rows.len() as int;
    assert(stack[top] == t);
    assert forall|s: int| 0 <= s < stack.len() - 1 implies #[trigger] stack[s].1 <= stack.last().1 by {
        assert(stack[s].1 <= stack[top].1);
    }
    assert forall|s: int| 0 <= s < st.len() implies f.contains(#[trigger] st[s].0) && placed_under(ev, nr, st[s]) by {
        assert(st[s] == stack[s]);
        assert(f.contains(stack[s].0));
        assert(stack[s].1 <= stack[top].1);
        lemma_placed_push(ev, rows, t, stack[s]);
    }
    assert forall|s: int| 0 <= s < st.len() && #[trigger] st[s].1 == 0 implies !parent_listed(ev, f, st[s].0 as int) by {
        assert(st[s] == stack[s]);
    }
    assert forall|a: int, b: int| 0 <= a < b < st.len() implies #[trigger] st[a].1 <= #[trigger] st[b].1 by {
        assert(st[a] == stack[a] && st[b] == stack[b]);
    }
    assert forall|a: int, b: int| 0 <= a < b < st.len() && siblings(ev, #[trigger] st[a], #[trigger] st[b]) implies goes_before(
        ev,
        o,
        inc,
        st[b].0,
        st[a].0,
    ) by {
        assert(st[a] == stack[a] && st[b] == stack[b]);
    }
    assert forall|p: int, s: int|
        0 <= p < nr.len() && 0 <= s < st.len() && siblings(ev, #[trigger] nr[p], #[trigger] st[s]) implies goes_before(
        ev,
        o,
        inc,
        nr[p].0,
        st[s].0,
    ) by {
        assert(st[s] == stack[s]);
        if p < n {
            assert(nr[p] == rows[p]);
        } else {
            assert(nr[p] == stack[top]);
            assert(siblings(ev, stack[s], stack[top]));
        }
    }
}

/// Listing the top of the stack keeps the walk's invariants.
proof fn lemma_list_top(
    ev: Seq<ProcessEntryView>,
    f: Seq<usize>,
    o: RowOrder,
    inc: bool,
    rows: Seq<(usize, usize)>,
    stack: Seq<(usize, usize)>,
)
    requires
        tree_shaped(ev, f, rows),
        roots_first(ev, f, rows),
        siblings_in_order(ev, f, o, inc, rows),
        stack_ok(ev, f, o, inc, rows, stack),
        stack.len() > 0,
        !pid_listed(ev, rows, ev[stack.last().0 as int].pid),
    ensures
        tree_shaped(ev, f, rows.push(stack.last())),
        roots_first(ev, f, rows.push(stack.last())),
        siblings_in_order(ev, f, o, inc, rows.push(stack.last())),
        stack_ok(ev, f, o, inc, rows.push(stack.last()), stack.drop_last()),
        forall|s: int| 0 <= s < stack.len() - 1 ==> #[trigger] stack[s].1 <= stack.last().1,
{
    lemma_list_rows(ev, f, o, inc, rows, stack);
    lemma_list_stack(ev, f, o, inc, rows, stack);
}

/// Dropping the top of the stack keeps the walk's invariants.
#[verifier::spinoff_prover]
proof fn lemma_skip_top(
    ev: Seq<ProcessEntryView>,
    f: Seq<usize>,
    o: RowOrder,
    inc: bool,
    rows: Seq<(usize, usize)>,
    stack: Seq<(usize, usize)>,
)
    requires
        stack_ok(ev, f, o, inc, rows, stack),
        stack.len() > 0,
    ensures
        stack_ok(ev, f, o, inc, rows, stack.drop_last()),
{
    reveal(pending_placed);
    reveal(pending_roots);
    reveal(pending_deepening);
    reveal(pending_ordered);
    reveal(listed_before_pending);
    let st = stack.drop_last();
    assert forall|s: int| 0 <= s < st.len() implies f.contains(#[trigger] st[s].0) && placed_under(ev, rows, st[s]) by {
        assert(st[s] == stack[s]);
        assert(f.contains(stack[s].0));
    }
    assert forall|s: int| 0 <= s < st.len() && #[trigger] st[s].1 == 0 implies !parent_listed(ev, f, st[s].0 as int) by {
        assert(st[s] == stack[s]);
    }
    assert forall|a: int, b: int| 0 <= a < b < st.len() implies #[trigger] st[a].1 <= #[trigger] st[b].1 by {
        assert(st[a] == stack[a] && st[b] == stack[b]);
    }
    assert forall|a: int, b: int| 0 <= a < b < st.len() && siblings(ev, #[trigger] st[a], #[trigger] st[b]) implies goes_before(
        ev,
        o,
        inc,
        st[b].0,
        st[a].0,
    ) by {
        assert(st[a] == stack[a] && st[b] == stack[b]);
    }
    assert forall|p: int, s: int|
        0 <= p < rows.len() && 0 <= s < st.len() && siblings(ev, #[trigger] rows[p], #[trigger] st[s]) implies goes_before(
        ev,
        o,
        inc,
        rows[p].0,
        st[s].0,
    ) by {
        assert(st[s] == stack[s]);
    }
}

#[verifier::spinoff_prover]
proof fn lemma_kids_placed(
    ev: Seq<ProcessEntryView>,
    f: Seq<usize>,
    rows: Seq<(usize, usize)>,
    base: Seq<(usize, usize)>,
    kids: Seq<usize>,
    d: usize,
)
    requires
        pending_placed(ev, f, rows, base),
        rows.len() > 0,
        rows.last().1 == d,
        d < rows.len(),
        d < usize::MAX,
        forall|j: int|
            0 <= j < kids.len() ==> f.contains(#[trigger] kids[j]) && ev[kids[j] as int].parent_pid == Some(
                ev[rows.last().0 as int].pid,
            ),
    ensures
        pending_placed(ev, f, rows, base + kid_entries(kids, 0, (d + 1) as usize)),
{
    reveal(pending_placed);
    let e = (d + 1) as usize;
    let k = kid_entries(kids, 0, e);
    let st = base + k;
    let n = rows.len() as int;
    let last = n - 1;
    let nb = base.len() as int;
    let nk = kids.len() as int;
    assert(rows[last] == rows.last());
    assert forall|s: int| 0 <= s < st.len() implies f.contains(#[trigger] st[s].0) && placed_under(ev, rows, st[s]) by {
        if s < nb {
            assert(st[s] == base[s]);
            assert(f.contains(base[s].0));
        } else {
            let x = st[s];
            assert(x == k[s - nb]);
            assert(x == (kids[nk - 1 - (s - nb)], e));
            assert(f.contains(kids[nk - 1 - (s - nb)]));
            let pr = rows.push(x);
            assert(pr[last] == rows[last]);
            assert(pr[n] == x);
            assert(parent_row(ev, pr, last, n));
        }
    }
}

#[verifier::spinoff_prover]
proof fn lemma_kids_shape(
    ev: Seq<ProcessEntryView>,
    f: Seq<usize>,
    o: RowOrder,
    inc: bool,
    base: Seq<(usize, usize)>,
    kids: Seq<usize>,
    d: usize,
)
    requires
        d < usize::MAX,
        pending_roots(ev, f, base),
        pending_deepening(base),
        pending_ordered(ev, o, inc, base),
        forall|s: int| 0 <= s < base.len() ==> #[trigger] base[s].1 <= d,
        listed_in_order(ev, o, inc, kids),
    ensures
        pending_roots(ev, f, base + kid_entries(kids, 0, (d + 1) as usize)),
        pending_deepening(base + kid_entries(kids, 0, (d + 1) as usize)),
        pending_ordered(ev, o, inc, base + kid_entries(kids, 0, (d + 1) as usize)),
{
    reveal(pending_roots);
    reveal(pending_deepening);
    reveal(pending_ordered);
    let e = (d + 1) as usize;
    let k = kid_entries(kids, 0, e);
    let st = base + k;
    let nb = base.len() as int;
    let nk = kids.len() as int;
    assert forall|s: int| 0 <= s < st.len() && #[trigger] st[s].1 == 0 implies !parent_listed(ev, f, st[s].0 as int) by {
        if s < nb {
            assert(st[s] == base[s]);
        } else {
            assert(st[s] == k[s - nb]);
        }
    }
    assert forall|a: int, b: int| 0 <= a < b < st.len() implies #[trigger] st[a].1 <= #[trigger] st[b].1 by {
        if b < nb {
            assert(st[a] == base[a] && st[b] == base[b]);
        } else if a < nb {
            assert(st[a] == base[a] && st[b] == k[b - nb]);
        } else {
            assert(st[a] == k[a - nb] && st[b] == k[b - nb]);
        }
    }
    assert forall|a: int, b: int| 0 <= a < b < st.len() && siblings(ev, #[trigger] st[a], #[trigger] st[b]) implies goes_before(
        ev,
        o,
        inc,
        st[b].0,
        st[a].0,
    ) by {
        if b < nb {
            assert(st[a] == base[a] && st[b] == base[b]);
        } else if a < nb {
            assert(st[a] == base[a] && st[b] == k[b - nb]);
        } else {
            assert(st[a] == k[a - nb] && st[b] == k[b - nb]);
            assert(st[a].0 == kids[nk - 1 - (a - nb)]);
            assert(st[b].0 == kids[nk - 1 - (b - nb)]);
            assert(goes_before(ev, o, inc, kids[nk - 1 - (b - nb)], kids[nk - 1 - (a - nb)]));
        }
    }
}

#[verifier::spinoff_prover]
proof fn lemma_kids_after_rows(
    ev: Seq<ProcessEntryView>,
    f: Seq<usize>,
    o: RowOrder,
    inc: bool,
    rows: Seq<(usize, usize)>,
    base: Seq<(usize, usize)>,
    kids: Seq<usize>,
    d: usize,
)
    requires
        tree_shaped(ev, f, rows),
        rows.len() > 0,
        d < usize::MAX,
        listed_before_pending(ev, o, inc, rows, base),
        forall|j: int| 0 <= j < kids.len() ==> ev[#[trigger] kids[j] as int].parent_pid == Some(ev[rows.last().0 as int].pid),
    ensures
        listed_before_pending(ev, o, inc, rows, base + kid_entries(kids, 0, (d + 1) as usize)),
{
    reveal(listed_before_pending);
    let e = (d + 1) as usize;
    let k = kid_entries(kids, 0, e);
    let st = base + k;
    let n = rows.len() as int;
    let last = n - 1;
    let nb = base.len() as int;
    let nk = kids.len() as int;
    assert(rows[last] == rows.last());
    assert forall|p: int, s: int|
        0 <= p < rows.len() && 0 <= s < st.len() && siblings(ev, #[trigger] rows[p], #[trigger] st[s]) implies goes_before(
        ev,
        o,
        inc,
        rows[p].0,
        st[s].0,
    ) by {
        if s < nb {
            assert(st[s] == base[s]);
        } else {
            let j = nk - 1 - (s - nb);
            assert(st[s] == k[s - nb]);
            assert(st[s] == (kids[j], e));
            assert(rows[p].1 > 0);
            let q = choose|q: int| #[trigger] parent_row(ev, rows, q, p);
            assert(ev[rows[q].0 as int].pid == ev[rows[last].0 as int].pid);
            assert(false);
        }
    }
}

/// Pushing the children of the last row, one level below it and in reverse order, keeps
/// the walk's invariants.
proof fn lemma_push_kids(
    ev: Seq<ProcessEntryView>,
    f: Seq<usize>,
    o: RowOrder,
    inc: bool,
    rows: Seq<(usize, usize)>,
    base: Seq<(usize, usize)>,
    kids: Seq<usize>,
    d: usize,
)
    requires
        tree_shaped(ev, f, rows),
        rows.len() > 0,
        rows.last().1 == d,
        d < rows.len(),
        d < usize::MAX,
        stack_ok(ev, f, o, inc, rows, base),
        forall|s: int| 0 <= s < base.len() ==> #[trigger] base[s].1 <= d,
        forall|j: int|
            0 <= j < kids.len() ==> f.contains(#[trigger] kids[j]) && ev[kids[j] as int].parent_pid == Some(
                ev[rows.last().0 as int].pid,
            ),
        listed_in_order(ev, o, inc, kids),
    ensures
        stack_ok(ev, f, o, inc, rows, base + kid_entries(kids, 0, (d + 1) as usize)),
{
    lemma_kids_placed(ev, f, rows, base, kids, d);
    lemma_kids_shape(ev, f, o, inc, base, kids, d);
    lemma_kids_after_rows(ev, f, o, inc, rows, base, kids, d);
}

/// The stack that starts the walk: the roots at depth 0, the first on top.
#[verifier::spinoff_prover]
proof fn lemma_root_stack(
    ev: Seq<ProcessEntryView>,
    f: Seq<usize>,
    o: RowOrder,
    inc: bool,
    roots: Seq<usize>,
)
    requires
        forall|m: int| 0 <= m < roots.len() ==> f.contains(#[trigger] roots[m]) && !parent_listed(ev, f, roots[m] as int),
        forall|j: int| 0 <= j < f.len() && !parent_listed(ev, f, f[j] as int) ==> roots.contains(#[trigger] f[j]),
        listed_in_order(ev, o, inc, roots),
    ensures
        stack_ok(ev, f, o, inc, Seq::empty(), kid_entries(roots, 0, 0usize)),
        roots_pending(ev, f, Seq::empty(), kid_entries(roots, 0, 0usize)),
{
    reveal(pending_placed);
    reveal(pending_roots);
    reveal(pending_deepening);
    reveal(pending_ordered);
    reveal(listed_before_pending);
    reveal(roots_pending);
    let st = kid_entries(roots, 0, 0usize);
    let n = roots.len() as int;
    assert forall|s: int| 0 <= s < st.len() implies f.contains(#[trigger] st[s].0) && placed_under(ev, Seq::empty(), st[s]) by {
        assert(st[s] == (roots[n - 1 - s], 0usize));
    }
    assert forall|s: int| 0 <= s < st.len() && #[trigger] st[s].1 == 0 implies !parent_listed(ev, f, st[s].0 as int) by {
        assert(st[s] == (roots[n - 1 - s], 0usize));
    }
    assert forall|a: int, b: int| 0 <= a < b < st.len() && siblings(ev, #[trigger] st[a], #[trigger] st[b]) implies goes_before(
        ev,
        o,
        inc,
        st[b].0,
        st[a].0,
    ) by {
        assert(st[a] == (roots[n - 1 - a], 0usize));
        assert(st[b] == (roots[n - 1 - b], 0usize));
        assert(goes_before(ev, o, inc, roots[n - 1 - b], roots[n - 1 - a]));
    }
    assert forall|j: int|
        0 <= j < f.len() && !parent_listed(ev, f, f[j] as int) implies pid_listed(ev, Seq::empty(), #[trigger] ev[f[j] as int].pid)
        || exists|s: int| 0 <= s < st.len() && st[s] == (f[j], 0usize) by {
        assert(roots.contains(f[j]));
        let m = choose|m: int| 0 <= m < roots.len() && roots[m] == f[j];
        assert(st[n - 1 - m] == (roots[m], 0usize));
    }
}

/// The processes among those at `f` whose parent is not among them, in the order.
fn root_indices(entries: &Vec<ProcessEntry>, f: &Vec<usize>, o: RowOrder) -> (roots: Vec<usize>)
    requires
        forall|k: int| 0 <= k < f@.len() ==> f@[k] < entries@.len(),
    ensures
        forall|m: int|
            0 <= m < roots@.len() ==> f@.contains(#[trigger] roots@[m]) && !parent_listed(
                entry_views(entries@),
                f@,
                roots@[m] as int,
            ),
        forall|j: int|
            0 <= j < f@.len() && !parent_listed(entry_views(entries@), f@, f@[j] as int) ==> roots@.contains(
                #[trigger] f@[j],
            ),
        listed_in_order(entry_views(entries@), o, increasing(f@), roots@),
{
    let ghost ev = entry_views(entries@);
    let ghost inc = increasing(f@);
    let mut roots: Vec<usize> = Vec::new();
    let mut k: usize = 0;
    while k < f.len()
        invariant
            k <= f@.len(),
            ev == entry_views(entries@),
            inc == increasing(f@),
            forall|m: int| 0 <= m < f@.len() ==> f@[m] < entries@.len(),
            forall|m: int|
                0 <= m < roots@.len() ==> f@.contains(#[trigger] roots@[m]) && roots@[m] < entries@.len()
                    && !parent_listed(ev, f@, roots@[m] as int),
            forall|j: int| 0 <= j < k && !parent_listed(ev, f@, f@[j] as int) ==> roots@.contains(#[trigger] f@[j]),
            inc ==> increasing(roots@) && forall|m: int, t: int|
                0 <= m < roots@.len() && k <= t < f@.len() ==> #[trigger] roots@[m] < #[trigger] f@[t],
        decreases f.len() - k,
    {
        if !has_listed_parent(entries, f, f[k]) {
            let ghost before = roots@;
            roots.push(f[k]);
            proof {
                assert(f@[k as int] == roots@[roots@.len() - 1]);
                assert forall|j: int| 0 <= j < k + 1 && !parent_listed(ev, f@, f@[j] as int) implies roots@.contains(
                    #[trigger] f@[j],
                ) by {
                    if j < k {
                        assert(before.contains(f@[j]));
                        let m = choose|m: int| 0 <= m < before.len() && before[m] == f@[j];
                        assert(roots@[m] == f@[j]);
                    } else {
                        assert(roots@[before.len() as int] == f@[j]);
                    }
                }
                if inc {
                    assert forall|a: int, b: int| 0 <= a < b < roots@.len() implies roots@[a] < roots@[b] by {
                        if b == before.len() {
                            assert(before[a] < f@[k as int]);
                        } else {
                            assert(roots@[a] == before[a] && roots@[b] == before[b]);
                        }
                    }
                    assert forall|m: int, t: int| 0 <= m < roots@.len() && k + 1 <= t < f@.len() implies #[trigger] roots@[m]
                        < #[trigger] f@[t] by {
                        if m < before.len() {
                            assert(roots@[m] == before[m]);
                        }
                    }
                }
            }
        }
        k = k + 1;
    }
    let ghost unsorted = roots@;
    let sorted = sort_indices(entries, roots, o);
    proof {
        lemma_order_weaker(ev, o, increasing(unsorted), inc, sorted@);
        broadcast use vstd::seq_lib::group_to_multiset_ensures;
        assert forall|m: int| 0 <= m < sorted@.len() implies f@.contains(#[trigger] sorted@[m]) && !parent_listed(
            ev,
            f@,
            sorted@[m] as int,
        ) by {
            assert(sorted@.contains(sorted@[m]));
            assert(unsorted.to_multiset().count(sorted@[m]) > 0);
            assert(unsorted.contains(sorted@[m]));
        }
        assert forall|j: int| 0 <= j < f@.len() && !parent_listed(ev, f@, f@[j] as int) implies sorted@.contains(
            #[trigger] f@[j],
        ) by {
            assert(unsorted.contains(f@[j]));
            assert(unsorted.to_multiset().count(f@[j]) > 0);
        }
    }
    sorted
}

/// Pushes rows of the indices at one depth, the last first, so that the first ends on top.
fn push_reversed(stack: &mut Vec<(usize, usize)>, items: &Vec<usize>, depth: usize)
    ensures
        final(stack)@ == old(stack)@ + kid_entries(items@, 0, depth),
{
    let ghost base = stack@;
    let mut c: usize = items.len();
    while c > 0
        invariant
            c <= items@.len(),
            stack@ == base + kid_entries(items@, c as int, depth),
        decreases c,
    {
        c = c - 1;
        stack.push((items[c], depth));
        assert(stack@ =~= base + kid_entries(items@, c as int, depth));
    }
}

/// Whether the processes that start trees are all listed.
pub open spec fn roots_listed(ev: Seq<ProcessEntryView>, f: Seq<usize>, rows: Seq<(usize, usize)>) -> bool {
    forall|j: int|
        0 <= j < f.len() && !parent_listed(ev, f, f[j] as int) ==> pid_listed(ev, rows, #[trigger] ev[f[j] as int].pid)
}

/// Taking the top of the stack, listed now or before, keeps every root listed or pending.
#[verifier::spinoff_prover]
proof fn lemma_roots_step(
    ev: Seq<ProcessEntryView>,
    f: Seq<usize>,
    rows: Seq<(usize, usize)>,
    stack: Seq<(usize, usize)>,
    rows2: Seq<(usize, usize)>,
    stack2: Seq<(usize, usize)>,
)
    requires
        roots_pending(ev, f, rows, stack),
        stack.len() > 0,
        rows2 == rows || rows2 == rows.push(stack.last()),
        pid_listed(ev, rows2, ev[stack.last().0 as int].pid),
        stack.len() - 1 <= stack2.len(),
        forall|s: int| 0 <= s < stack.len() - 1 ==> #[trigger] stack2[s] == stack[s],
    ensures
        roots_pending(ev, f, rows2, stack2),
{
    reveal(roots_pending);
    assert forall|j: int|
        0 <= j < f.len() && !parent_listed(ev, f, f[j] as int) implies pid_listed(ev, rows2, #[trigger] ev[f[j] as int].pid)
        || exists|s: int| 0 <= s < stack2.len() && stack2[s] == (f[j], 0usize) by {
        if pid_listed(ev, rows, ev[f[j] as int].pid) {
            if rows2 != rows {
                lemma_listed_push(ev, rows, stack.last(), ev[f[j] as int].pid);
            }
        } else {
            let s = choose|s: int| 0 <= s < stack.len() && stack[s] == (f[j], 0usize);
            if s < stack.len() - 1 {
                assert(stack2[s] == stack[s]);
            } else {
                assert(stack[s] == stack.last());
            }
        }
    }
}

/// Appending a process that no tree reached keeps what the stray pass owes.
#[verifier::spinoff_prover]
proof fn lemma_stray_push(
    ev: Seq<ProcessEntryView>,
    f: Seq<usize>,
    o: RowOrder,
    inc: bool,
    before: Seq<(usize, usize)>,
    k: int,
)
    requires
        0 <= k < f.len(),
        tree_shaped(ev, f, before.push((f[k], 0usize))),
        parent_listed(ev, f, f[k] as int),
        !pid_listed(ev, before, ev[f[k] as int].pid),
        siblings_in_order(ev, f, o, inc, before),
        strays_last(ev, f, before),
        strays_unreached(ev, f, before),
        roots_listed(ev, f, before),
        children_listed(ev, f, before),
        forall|j: int| 0 <= j < k ==> pid_listed(ev, before, #[trigger] ev[f[j] as int].pid),
    ensures
        siblings_in_order(ev, f, o, inc, before.push((f[k], 0usize))),
        strays_last(ev, f, before.push((f[k], 0usize))),
        strays_unreached(ev, f, before.push((f[k], 0usize))),
        roots_listed(ev, f, before.push((f[k], 0usize))),
        children_listed(ev, f, before.push((f[k], 0usize))),
        forall|j: int| 0 <= j < k + 1 ==> pid_listed(ev, before.push((f[k], 0usize)), #[trigger] ev[f[j] as int].pid),
{
    let i = f[k];
    let rows = before.push((i, 0usize));
    let n = before.len() as int;
    assert(rows[n] == (i, 0usize));
    assert(is_stray(ev, f, rows[n]));
    assert forall|a: int, b: int|
        0 <= a < b < rows.len() && siblings(ev, #[trigger] rows[a], #[trigger] rows[b]) && (rows[a].1 == 0
            ==> !parent_listed(ev, f, rows[a].0 as int) && !parent_listed(ev, f, rows[b].0 as int)) implies goes_before(
        ev,
        o,
        inc,
        rows[a].0,
        rows[b].0,
    ) by {
        assert(rows[a] == before[a]);
        if b < n {
            assert(rows[b] == before[b]);
        }
    }
    assert forall|a: int, b: int| 0 <= a < b < rows.len() && is_stray(ev, f, #[trigger] rows[a]) implies is_stray(
        ev,
        f,
        #[trigger] rows[b],
    ) by {
        assert(rows[a] == before[a]);
        if b < n {
            assert(rows[b] == before[b]);
        }
    }
    assert forall|p: int, q: int|
        0 <= p < rows.len() && 0 <= q < rows.len() && is_stray(ev, f, #[trigger] rows[p]) && !is_stray(
            ev,
            f,
            #[trigger] rows[q],
        ) implies ev[rows[p].0 as int].parent_pid != Some(ev[rows[q].0 as int].pid) by {
        assert(q < n);
        assert(rows[q] == before[q]);
        if p < n {
            assert(rows[p] == before[p]);
        } else if ev[i as int].parent_pid == Some(ev[before[q].0 as int].pid) {
            assert(ev[f[k] as int].parent_pid == Some(ev[before[q].0 as int].pid));
            assert(pid_listed(ev, before, ev[f[k] as int].pid));
        }
    }
    assert forall|q: int, j: int|
        0 <= q < rows.len() && 0 <= j < f.len() && !is_stray(ev, f, #[trigger] rows[q]) && ev[f[j] as int].parent_pid
            == Some(ev[rows[q].0 as int].pid) implies pid_listed(ev, rows, #[trigger] ev[f[j] as int].pid) by {
        assert(q < n);
        assert(rows[q] == before[q]);
        lemma_listed_push(ev, before, (i, 0), ev[f[j] as int].pid);
    }
    assert forall|j: int| 0 <= j < f.len() && !parent_listed(ev, f, f[j] as int) implies pid_listed(
        ev,
        rows,
        #[trigger] ev[f[j] as int].pid,
    ) by {
        lemma_listed_push(ev, before, (i, 0), ev[f[j] as int].pid);
    }
    assert forall|j: int| 0 <= j < k + 1 implies pid_listed(ev, rows, #[trigger] ev[f[j] as int].pid) by {
        if j < k {
            lemma_listed_push(ev, before, (i, 0), ev[f[j] as int].pid);
        } else {
            assert(rows[n] == (i, 0usize));
        }
    }
}

/// Appends, at depth 0, the processes that no tree reached.
#[verifier::spinoff_prover]
fn add_strays(entries: &Vec<ProcessEntry>, f: &Vec<usize>, o: RowOrder, rows: &mut Vec<(usize, usize)>)
    requires
        forall|k: int| 0 <= k < f@.len() ==> f@[k] < entries@.len(),
        tree_shaped(entry_views(entries@), f@, old(rows)@),
        forall|p: int| 0 <= p < old(rows)@.len() ==> !is_stray(entry_views(entries@), f@, #[trigger] old(rows)@[p]),
        siblings_in_order(entry_views(entries@), f@, o, increasing(f@), old(rows)@),
        roots_listed(entry_views(entries@), f@, old(rows)@),
        children_listed(entry_views(entries@), f@, old(rows)@),
    ensures
        tree_shaped(entry_views(entries@), f@, final(rows)@),
        siblings_in_order(entry_views(entries@), f@, o, increasing(f@), final(rows)@),
        strays_last(entry_views(entries@), f@, final(rows)@),
        strays_unreached(entry_views(entries@), f@, final(rows)@),
        forall|k: int|
            0 <= k < f@.len() ==> pid_listed(
                entry_views(entries@),
                final(rows)@,
                #[trigger] entry_views(entries@)[f@[k] as int].pid,
            ),
{
    let ghost ev = entry_views(entries@);
    let ghost inc = increasing(f@);
    let mut k: usize = 0;
    while k < f.len()
        invariant
            k <= f@.len(),
            ev == entry_views(entries@),
            inc == increasing(f@),
            forall|j: int| 0 <= j < f@.len() ==> f@[j] < entries@.len(),
            tree_shaped(ev, f@, rows@),
            siblings_in_order(ev, f@, o, inc, rows@),
            strays_last(ev, f@, rows@),
            strays_unreached(ev, f@, rows@),
            roots_listed(ev, f@, rows@),
            children_listed(ev, f@, rows@),
            forall|j: int| 0 <= j < k ==> pid_listed(ev, rows@, #[trigger] ev[f@[j] as int].pid),
        decreases f.len() - k,
    {
        let i = f[k];
        proof {
            assert forall|p: int| 0 <= p < rows@.len() implies rows@[p].0 < entries@.len() by {
                assert(f@.contains(rows@[p].0));
            }
        }
        if !pid_in_rows(entries, &rows, entries[i].pid.as_str()) {
            let ghost before = rows@;
            proof {
                assert(f@[k as int] == i);
                assert(f@.contains(i));
                assert(ev[i as int].pid == entries@[i as int].pid@);
                assert(!pid_listed(ev, rows@, ev[f@[k as int] as int].pid));
                assert(parent_listed(ev, f@, i as int));
                lemma_tree_push(ev, f@, before, (i, 0));
            }
            rows.push((i, 0));
            proof {
                lemma_stray_push(ev, f@, o, inc, before, k as int);
            }
        }
        k = k + 1;
    }
}

/// Listing the top of the stack and pushing all its children keeps every child of a row
/// listed or pending.
#[verifier::spinoff_prover]
proof fn lemma_children_list(
    ev: Seq<ProcessEntryView>,
    f: Seq<usize>,
    rows: Seq<(usize, usize)>,
    stack: Seq<(usize, usize)>,
    kids: Seq<usize>,
    e: usize,
)
    requires
        children_pending(ev, f, rows, stack),
        stack.len() > 0,
        forall|j: int|
            0 <= j < f.len() && ev[f[j] as int].parent_pid == Some(ev[stack.last().0 as int].pid) ==> kids.contains(
                #[trigger] f[j],
            ),
    ensures
        children_pending(ev, f, rows.push(stack.last()), stack.drop_last() + kid_entries(kids, 0, e)),
{
    reveal(children_pending);
    let t = stack.last();
    let nr = rows.push(t);
    let base = stack.drop_last();
    let k = kid_entries(kids, 0, e);
    let st = base + k;
    let n = rows.len() as int;
    let nb = base.len() as int;
    let nk = kids.len() as int;
    assert(nr[n] == t);
    assert forall|q: int, j: int|
        0 <= q < nr.len() && 0 <= j < f.len() && ev[f[j] as int].parent_pid == Some(ev[#[trigger] nr[q].0 as int].pid)
            implies pid_listed(ev, nr, #[trigger] ev[f[j] as int].pid) || exists|s: int|
            0 <= s < st.len() && st[s].0 == f[j] by {
        if q < n {
            assert(nr[q] == rows[q]);
            assert(ev[f[j] as int].parent_pid == Some(ev[rows[q].0 as int].pid));
            if pid_listed(ev, rows, ev[f[j] as int].pid) {
                lemma_listed_push(ev, rows, t, ev[f[j] as int].pid);
            } else {
                let s = choose|s: int| 0 <= s < stack.len() && stack[s].0 == f[j];
                if s == stack.len() - 1 {
                    assert(stack[s] == t);
                    assert(ev[nr[n].0 as int].pid == ev[f[j] as int].pid);
                } else {
                    assert(st[s] == stack[s]);
                }
            }
        } else {
            assert(kids.contains(f[j]));
            let m = choose|m: int| 0 <= m < kids.len() && kids[m] == f[j];
            let s = nb + (nk - 1 - m);
            assert(st[s] == k[nk - 1 - m]);
            assert(st[s].0 == f[j]);
        }
    }
}

/// Dropping the top of the stack when its PID is listed keeps every child of a row listed
/// or pending.
#[verifier::spinoff_prover]
proof fn lemma_children_skip(
    ev: Seq<ProcessEntryView>,
    f: Seq<usize>,
    rows: Seq<(usize, usize)>,
    stack: Seq<(usize, usize)>,
)
    requires
        children_pending(ev, f, rows, stack),
        stack.len() > 0,
        pid_listed(ev, rows, ev[stack.last().0 as int].pid),
    ensures
        children_pending(ev, f, rows, stack.drop_last()),
{
    reveal(children_pending);
    let st = stack.drop_last();
    assert forall|q: int, j: int|
        0 <= q < rows.len() && 0 <= j < f.len() && ev[f[j] as int].parent_pid == Some(ev[#[trigger] rows[q].0 as int].pid)
            implies pid_listed(ev, rows, #[trigger] ev[f[j] as int].pid) || exists|s: int|
            0 <= s < st.len() && st[s].0 == f[j] by {
        if !pid_listed(ev, rows, ev[f[j] as int].pid) {
            let s = choose|s: int| 0 <= s < stack.len() && stack[s].0 == f[j];
            if s == stack.len() - 1 {
                assert(stack[s] == stack.last());
            } else {
                assert(st[s] == stack[s]);
            }
        }
    }
}

/// What holds of the walk between its steps (see `tree_rows`).
#[verifier::opaque]
pub open spec fn walk_ok(
    ev: Seq<ProcessEntryView>,
    f: Seq<usize>,
    o: RowOrder,
    inc: bool,
    rows: Seq<(usize, usize)>,
    stack: Seq<(usize, usize)>,
) -> bool {
    &&& tree_shaped(ev, f, rows)
    &&& roots_first(ev, f, rows)
    &&& siblings_in_order(ev, f, o, inc, rows)
    &&& stack_ok(ev, f, o, inc, rows, stack)
    &&& roots_pending(ev, f, rows, stack)
    &&& children_pending(ev, f, rows, stack)
}

/// Listing the top of the stack and pushing its children keeps the walk going.
#[verifier::spinoff_prover]
proof fn lemma_walk_list(
    ev: Seq<ProcessEntryView>,
    f: Seq<usize>,
    o: RowOrder,
    inc: bool,
    rows: Seq<(usize, usize)>,
    stack: Seq<(usize, usize)>,
    kids: Seq<usize>,
)
    requires
        walk_ok(ev, f, o, inc, rows, stack),
        stack.len() > 0,
        stack.last().1 < usize::MAX,
        !pid_listed(ev, rows, ev[stack.last().0 as int].pid),
        forall|j: int|
            0 <= j < kids.len() ==> f.contains(#[trigger] kids[j]) && ev[kids[j] as int].parent_pid == Some(
                ev[stack.last().0 as int].pid,
            ),
        listed_in_order(ev, o, inc, kids),
        forall|j: int|
            0 <= j < f.len() && ev[f[j] as int].parent_pid == Some(ev[stack.last().0 as int].pid) ==> kids.contains(
                #[trigger] f[j],
            ),
    ensures
        walk_ok(
            ev,
            f,
            o,
            inc,
            rows.push(stack.last()),
            stack.drop_last() + kid_entries(kids, 0, (stack.last().1 + 1) as usize),
        ),
        unseen(ev, rows.push(stack.last()), f) < unseen(ev, rows, f),
{
    reveal(walk_ok);
    reveal(pending_placed);
    let t = stack.last();
    let nr = rows.push(t);
    let st = stack.drop_last() + kid_entries(kids, 0, (t.1 + 1) as usize);
    assert(stack[stack.len() - 1] == t);
    assert(f.contains(t.0));
    assert(placed_under(ev, rows, t));
    lemma_list_top(ev, f, o, inc, rows, stack);
    lemma_unseen_push(ev, rows, t, f);
    assert(nr.last() == t);
    lemma_push_kids(ev, f, o, inc, nr, stack.drop_last(), kids, t.1);
    assert(pid_listed(ev, nr, ev[t.0 as int].pid)) by {
        assert(nr[rows.len() as int] == t);
    }
    assert forall|s: int| 0 <= s < stack.len() - 1 implies #[trigger] st[s] == stack[s] by {
        assert(st[s] == stack.drop_last()[s]);
    }
    lemma_roots_step(ev, f, rows, stack, nr, st);
    lemma_children_list(ev, f, rows, stack, kids, (t.1 + 1) as usize);
}

/// Dropping the top of the stack when its PID is listed keeps the walk going.
#[verifier::spinoff_prover]
proof fn lemma_walk_skip(
    ev: Seq<ProcessEntryView>,
    f: Seq<usize>,
    o: RowOrder,
    inc: bool,
    rows: Seq<(usize, usize)>,
    stack: Seq<(usize, usize)>,
)
    requires
        walk_ok(ev, f, o, inc, rows, stack),
        stack.len() > 0,
        pid_listed(ev, rows, ev[stack.last().0 as int].pid),
    ensures
        walk_ok(ev, f, o, inc, rows, stack.drop_last()),
{
    reveal(walk_ok);
    lemma_skip_top(ev, f, o, inc, rows, stack);
    assert forall|s: int| 0 <= s < stack.len() - 1 implies #[trigger] stack.drop_last()[s] == stack[s] by {
    }
    lemma_roots_step(ev, f, rows, stack, rows, stack.drop_last());
    lemma_children_skip(ev, f, rows, stack);
}

/// Facts of the walk that its steps need: the rows and the pending rows are of the
/// processes, and a pending row's depth is at most the number of rows.
proof fn lemma_walk_facts(
    ev: Seq<ProcessEntryView>,
    f: Seq<usize>,
    o: RowOrder,
    inc: bool,
    rows: Seq<(usize, usize)>,
    stack: Seq<(usize, usize)>,
)
    requires
        walk_ok(ev, f, o, inc, rows, stack),
    ensures
        forall|p: int| 0 <= p < rows.len() ==> f.contains(#[trigger] rows[p].0),
        forall|s: int| 0 <= s < stack.len() ==> f.contains(#[trigger] stack[s].0) && stack[s].1 <= rows.len(),
{
    reveal(walk_ok);
    reveal(pending_placed);
    assert(pending_placed(ev, f, rows, stack));
    assert forall|s: int| 0 <= s < stack.len() implies f.contains(#[trigger] stack[s].0) && stack[s].1 <= rows.len() by {
        assert(f.contains(stack[s].0) && placed_under(ev, rows, stack[s]));
    }
}

/// One step of the walk: takes the top of the stack, lists it unless its PID is listed
/// already, and then pushes its children, the first on top.
#[verifier::spinoff_prover]
fn walk_step(
    entries: &Vec<ProcessEntry>,
    f: &Vec<usize>,
    o: RowOrder,
    rows: &mut Vec<(usize, usize)>,
    stack: &mut Vec<(usize, usize)>,
)
    requires
        forall|j: int| 0 <= j < f@.len() ==> f@[j] < entries@.len(),
        old(stack)@.len() > 0,
        walk_ok(entry_views(entries@), f@, o, increasing(f@), old(rows)@, old(stack)@),
    ensures
        walk_ok(entry_views(entries@), f@, o, increasing(f@), final(rows)@, final(stack)@),
        unseen(entry_views(entries@), final(rows)@, f@) < unseen(entry_views(entries@), old(rows)@, f@) || (unseen(
            entry_views(entries@),
            final(rows)@,
            f@,
        ) == unseen(entry_views(entries@), old(rows)@, f@) && final(stack)@.len() < old(stack)@.len()),
{
    let ghost ev = entry_views(entries@);
    let ghost inc = increasing(f@);
    let ghost old_stack = stack@;
    let ghost old_rows = rows@;
    proof {
        lemma_walk_facts(ev, f@, o, inc, old_rows, old_stack);
    }
    let top = stack.pop().unwrap();
    let (i, d) = top;
    proof {
        assert(top == old_stack.last());
        assert(old_stack[old_stack.len() - 1] == top);
        assert(f@.contains(i));
        let j = choose|j: int| 0 <= j < f@.len() && f@[j] == i;
        assert forall|p: int| 0 <= p < rows@.len() implies rows@[p].0 < entries@.len() by {
            assert(f@.contains(rows@[p].0));
            let j = choose|j: int| 0 <= j < f@.len() && f@[j] == rows@[p].0;
        }
        assert(ev[i as int].pid == entries@[i as int].pid@);
    }
    if !pid_in_rows(entries, &rows, entries[i].pid.as_str()) {
        rows.push((i, d));
        let listed = rows.len();
        assert(d < listed);
        let kids = children_of(entries, f, entries[i].pid.as_str(), o);
        proof {
            assert forall|j: int| 0 <= j < kids@.len() implies f@.contains(#[trigger] kids@[j]) && ev[kids@[j] as int].parent_pid
                == Some(ev[old_stack.last().0 as int].pid) by {
                assert(entries@[kids@[j] as int]@.parent_pid == Some(entries@[i as int].pid@));
            }
            assert forall|j: int|
                0 <= j < f@.len() && ev[f@[j] as int].parent_pid == Some(ev[old_stack.last().0 as int].pid) implies kids@.contains(
                #[trigger] f@[j],
            ) by {
                assert(entries@[f@[j] as int]@.parent_pid == Some(entries@[i as int].pid@));
            }
            assert(d <= old_rows.len());
        }
        push_reversed(stack, &kids, d + 1);
        proof {
            lemma_walk_list(ev, f@, o, inc, old_rows, old_stack, kids@);
        }
    } else {
        proof {
            lemma_walk_skip(ev, f@, o, inc, old_rows, old_stack);
        }
    }
}

/// The rows of the process tree over the processes at the indices `f`: each process whose
/// parent is not among them starts a tree, in the given order; below a process come its
/// children, in the given order, one level deeper, each followed by its own subtree; a PID
/// is listed once; processes that no tree reached follow at depth 0.
#[verifier::spinoff_prover]
#[verifier::rlimit(60)]
pub fn tree_rows(entries: &Vec<ProcessEntry>, f: &Vec<usize>, sort: ProcessSort) -> (rows: Vec<(usize, usize)>)
    requires
        forall|k: int| 0 <= k < f@.len() ==> f@[k] < entries@.len(),
    ensures
        tree_shaped(entry_views(entries@), f@, rows@),
        siblings_in_order(entry_views(entries@), f@, sort_order(sort), increasing(f@), rows@),
        strays_last(entry_views(entries@), f@, rows@),
        strays_unreached(entry_views(entries@), f@, rows@),
        forall|k: int|
            0 <= k < f@.len() ==> pid_listed(
                entry_views(entries@),
                rows@,
                #[trigger] entry_views(entries@)[f@[k] as int].pid,
            ),
{
    let ghost ev = entry_views(entries@);
    let ghost inc = increasing(f@);
    let o = order_of_sort(sort);
    let roots = root_indices(entries, f, o);
    let mut stack: Vec<(usize, usize)> = Vec::new();
    push_reversed(&mut stack, &roots, 0);
    proof {
        lemma_root_stack(ev, f@, o, inc, roots@);
        assert(stack@ =~= kid_entries(roots@, 0, 0usize));
    }
    let mut rows: Vec<(usize, usize)> = Vec::new();
    proof {
        reveal(walk_ok);
        reveal(children_pending);
        assert(tree_shaped(ev, f@, rows@));
    }
    while stack.len() > 0
        invariant
            ev == entry_views(entries@),
            inc == increasing(f@),
            o == sort_order(sort),
            forall|j: int| 0 <= j < f@.len() ==> f@[j] < entries@.len(),
            walk_ok(ev, f@, o, inc, rows@, stack@),
        decreases unseen(ev, rows@, f@), stack.len(),
    {
        walk_step(entries, f, o, &mut rows, &mut stack);
    }
    proof {
        reveal(walk_ok);
        reveal(roots_pending);
        reveal(children_pending);
        assert(roots_listed(ev, f@, rows@));
        assert(children_listed(ev, f@, rows@));
        assert forall|p: int| 0 <= p < rows@.len() implies !is_stray(ev, f@, #[trigger] rows@[p]) by {
            if rows@[p].1 == 0 {
                assert(!parent_listed(ev, f@, rows@[p].0 as int));
            }
        }
    }
    add_strays(entries, f, o, &mut rows);
    rows
}

/// The positions `0..n`.
pub open spec fn positions(n: nat) -> Seq<usize> {
    Seq::new(n, |i: int| i as usize)
}

/// The positions of the processes in the sort's order, equal ones in their order, cut to
/// the first `limit`.
pub fn sorted_process_order(entries: &Vec<ProcessEntry>, sort: ProcessSort, limit: usize) -> (r: Vec<usize>)
    ensures
        exists|all: Seq<usize>|
            #[trigger] all.to_multiset() == positions(entries@.len()).to_multiset() && listed_in_order(
                entry_views(entries@),
                sort_order(sort),
                true,
                all,
            ) && r@ == all.take(
                if limit < all.len() {
                    limit as int
                } else {
                    all.len() as int
                },
            ),
{
    let n = entries.len();
    let mut idx: Vec<usize> = Vec::new();
    let mut i: usize = 0;
    while i < n
        invariant
            i <= n,
            n == entries@.len(),
            idx@ == positions(i as nat),
        decreases n - i,
    {
        idx.push(i);
        assert(idx@ =~= positions((i + 1) as nat));
        i = i + 1;
    }
    assert(increasing(idx@));
    let ghost start = idx@;
    let sorted = sort_indices(entries, idx, order_of_sort(sort));
    let m = if limit < sorted.len() {
        limit
    } else {
        sorted.len()
    };
    let mut r: Vec<usize> = Vec::new();
    let mut k: usize = 0;
    while k < m
        invariant
            k <= m <= sorted@.len(),
            r@ == sorted@.take(k as int),
        decreases m - k,
    {
        r.push(sorted[k]);
        assert(r@ =~= sorted@.take(k + 1));
        k = k + 1;
    }
    assert(sorted@.to_multiset() == positions(entries@.len()).to_multiset());
    r
}

/// Whether `f` lists, in increasing order, exactly the processes whose names pass the filter.
pub open spec fn passing_list(ev: Seq<ProcessEntryView>, filter: Seq<char>, f: Seq<usize>) -> bool {
    &&& forall|a: int, b: int| 0 <= a < b < f.len() ==> f[a] < f[b]
    &&& forall|a: int| 0 <= a < f.len() ==> f[a] < ev.len() && name_passes(filter, ev[f[a] as int].name)
    &&& forall|i: int| 0 <= i < ev.len() && name_passes(filter, #[trigger] ev[i].name) ==> f.contains(i as usize)
}

/// The order of a grouped view.
pub open spec fn group_order(mode: ProcessViewMode) -> RowOrder {
    match mode {
        ProcessViewMode::User => RowOrder::ByUser,
        ProcessViewMode::Service => RowOrder::ByService,
        _ => RowOrder::ByContainer,
    }
}

pub open spec fn row_indices(rows: Seq<(usize, usize)>) -> Seq<usize> {
    rows.map_values(|r: (usize, usize)| r.0)
}

/// What the rows of a view hold, given the processes `f` that pass the filter: the flat
/// view lists them as they are; a grouped view lists the same processes in its order, equal
/// ones in the order of the flat view; the tree view is a tree listing of them (see
/// `tree_shaped`) that names every one, with siblings in the sort's order and the processes
/// that no tree reached last.
pub open spec fn view_rows_of(
    ev: Seq<ProcessEntryView>,
    f: Seq<usize>,
    mode: ProcessViewMode,
    sort: ProcessSort,
    rows: Seq<(usize, usize)>,
) -> bool {
    match mode {
        ProcessViewMode::Flat => rows == f.map_values(|i: usize| (i, 0usize)),
        ProcessViewMode::Tree => tree_shaped(ev, f, rows) && siblings_in_order(ev, f, sort_order(sort), true, rows)
            && strays_last(ev, f, rows) && strays_unreached(ev, f, rows) && forall|k: int|
            0 <= k < f.len() ==> pid_listed(ev, rows, #[trigger] ev[f[k] as int].pid),
        _ => (forall|p: int| 0 <= p < rows.len() ==> #[trigger] rows[p].1 == 0) && listed_in_order(
            ev,
            group_order(mode),
            true,
            row_indices(rows),
        ) && row_indices(rows).to_multiset() == f.to_multiset(),
    }
}

fn at_depth_zero(v: Vec<usize>) -> (r: Vec<(usize, usize)>)
    ensures
        r@ == v@.map_values(|i: usize| (i, 0usize)),
        row_indices(r@) == v@,
{
    let mut r: Vec<(usize, usize)> = Vec::new();
    let mut k: usize = 0;
    while k < v.len()
        invariant
            k <= v@.len(),
            r@ == v@.take(k as int).map_values(|i: usize| (i, 0usize)),
        decreases v.len() - k,
    {
        r.push((v[k], 0));
        assert(v@.take(k + 1) =~= v@.take(k as int).push(v@[k as int]));
        assert(r@ =~= v@.take(k + 1).map_values(|i: usize| (i, 0usize)));
        k = k + 1;
    }
    assert(v@.take(v@.len() as int) =~= v@);
    assert(row_indices(r@) =~= v@);
    r
}

/// The rows of the processes tab, as (index of the process, depth): the processes whose
/// names pass the filter, listed as the view shows them (see `view_rows_of`).
pub fn process_view_rows(entries: &Vec<ProcessEntry>, filter: &str, mode: ProcessViewMode, sort: ProcessSort) -> (rows: Vec<(usize, usize)>)
    ensures
        exists|f: Seq<usize>| #[trigger] passing_list(entry_views(entries@), filter@, f) && view_rows_of(
            entry_views(entries@),
            f,
            mode,
            sort,
            rows@,
        ),
{
    let ghost ev = entry_views(entries@);
    let f = filtered_indices(entries, filter);
    let ghost fv = f@;
    assert(passing_list(ev, filter@, fv));
    match mode {
        ProcessViewMode::Flat => at_depth_zero(f),
        ProcessViewMode::Tree => tree_rows(entries, &f, sort),
        _ => {
            let o = match mode {
                ProcessViewMode::User => RowOrder::ByUser,
                ProcessViewMode::Service => RowOrder::ByService,
                _ => RowOrder::ByContainer,
            };
            assert(o == group_order(mode));
            let sorted = sort_indices(entries, f, o);
            let r = at_depth_zero(sorted);
            r
        },
    }
}

} // verus!
