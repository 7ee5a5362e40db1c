//! Processes on the GPUs: the rows of `nvidia-smi pmon` and the order of the process table,
//! heaviest users of GPU memory first.
use crate::collectors::host::{GpuProcessRow, GpuProcessView, gpu_process_views};
use crate::text::{
    chars_of, lines, parse_u32, parse_u32_spec, spec_lines, spec_trim, spec_words, string_of, trim, words,
};
use vstd::prelude::*;

verus! {

/// A process line of `nvidia-smi pmon`: the GPU, the PID and the last column (the command).
pub struct PmonRow {
    pub gpu_index: u32,
    pub pid: u32,
    pub command: String,
}

pub struct PmonRowView {
    pub gpu_index: u32,
    pub pid: u32,
    pub command: Seq<char>,
}

impl View for PmonRow {
    type V = PmonRowView;

    open spec fn view(&self) -> PmonRowView {
        PmonRowView { gpu_index: self.gpu_index, pid: self.pid, command: self.command@ }
    }
}

pub open spec fn pmon_views(v: Seq<PmonRow>) -> Seq<PmonRowView> {
    v.map_values(|r: PmonRow| r@)
}

/// The process a line of `nvidia-smi pmon` names: none for a blank line, a `#` line, one
/// with fewer than three columns, one whose first two columns are not numbers, or PID 0.
pub open spec fn pmon_row(line: Seq<char>) -> Option<PmonRowView> {
    let t = spec_trim(line);
    let cols = spec_words(t);
    if t.len() == 0 || t[0] == '#' || cols.len() < 3 {
        None
    } else {
        match (parse_u32_spec(cols[0]), parse_u32_spec(cols[1])) {
            (Some(g), Some(p)) => if p == 0 {
                None
            } else {
                Some(PmonRowView { gpu_index: g, pid: p, command: cols.last() })
            },
            _ => None,
        }
    }
}

/// The processes of some `nvidia-smi pmon` lines, in order.
pub open spec fn pmon_rows(ls: Seq<Seq<char>>) -> Seq<PmonRowView>
    decreases ls.len(),
{
    if ls.len() == 0 {
        Seq::empty()
    } else {
        pmon_rows(ls.drop_last()) + match pmon_row(ls.last()) {
            Some(r) => seq![r],
            None => Seq::empty(),
        }
    }
}

fn pmon_row_of(line: &[char]) -> (r: Option<PmonRow>)
    ensures
        match r {
            Some(row) => pmon_row(line@) == Some(row@),
            None => pmon_row(line@) is None,
        },
{
    let t = trim(line);
    let cols = words(&t);
    if t.len() == 0 || t[0] == '#' || cols.len() < 3 {
        return None;
    }
    match (parse_u32(cols[0].as_slice()), parse_u32(cols[1].as_slice())) {
        (Some(g), Some(p)) => {
            if p == 0 {
                None
            } else {
                let last = cols.len() - 1;
                Some(PmonRow { gpu_index: g, pid: p, command: string_of(cols[last].as_slice()) })
            }
        },
        _ => None,
    }
}

/// The processes an `nvidia-smi pmon -c 1` output lists (see `pmon_row`).
pub fn pmon_rows_from(text: &str) -> (r: Vec<PmonRow>)
    ensures
        pmon_views(r@) == pmon_rows(spec_lines(text@)),
{
    let ls = lines(&chars_of(text));
    let ghost all = spec_lines(text@);
    let mut r: Vec<PmonRow> = Vec::new();
    let mut i: usize = 0;
    while i < ls.len()
        invariant
            i <= ls@.len(),
            crate::text::views(ls@) == all,
            pmon_views(r@) == pmon_rows(all.take(i as int)),
        decreases ls.len() - i,
    {
        assert(all.take(i + 1).drop_last() =~= all.take(i as int));
        assert(all.take(i + 1).last() == ls@[i as int]@);
        let ghost before = r@;
        match pmon_row_of(ls[i].as_slice()) {
            Some(row) => {
                r.push(row);
                assert(pmon_views(r@) =~= pmon_views(before).push(r@[before.len() as int]@));
            },
            None => {},
        }
        assert(pmon_views(r@) =~= pmon_rows(all.take(i + 1)));
        i = i + 1;
    }
    assert(all.take(ls@.len() as int) =~= all);
    r
}

/// The name of a `pmon` process: its `comm` text, trimmed, or the command column where that
/// text is missing or blank.
pub open spec fn pmon_name(command: Seq<char>, comm: Option<Seq<char>>) -> Seq<char> {
    match comm {
        Some(c) => if spec_trim(c).len() > 0 {
            spec_trim(c)
        } else {
            command
        },
        None => command,
    }
}

/// The table row of a `pmon` process, named from its `comm` text (see `pmon_name`); `pmon`
/// gives no memory figure.
pub fn pmon_process(row: &PmonRow, comm: Option<&str>) -> (r: GpuProcessRow)
    ensures
        r@ == (GpuProcessView {
            gpu_index: Some(row.gpu_index),
            pid: row.pid,
            process_name: pmon_name(row.command@, match comm {
                Some(c) => Some(c@),
                None => None,
            }),
            used_memory_mib: None,
        }),
{
    let name = match comm {
        Some(c) => {
            let t = trim(&chars_of(c));
            if t.len() > 0 {
                string_of(&t)
            } else {
                string_of(&chars_of(row.command.as_str()))
            }
        },
        None => string_of(&chars_of(row.command.as_str())),
    };
    GpuProcessRow { gpu_index: Some(row.gpu_index), pid: row.pid, process_name: name, used_memory_mib: None }
}

/// The GPU memory a process uses, 0 when unknown.
pub open spec fn memory_key(v: GpuProcessView) -> u64 {
    match v.used_memory_mib {
        Some(m) => m,
        None => 0,
    }
}

/// Whether the process at `a` comes before the one at `b`: it uses more GPU memory, or as
/// much and comes first.
pub open spec fn heavier_first(rows: Seq<GpuProcessView>, a: usize, b: usize) -> bool {
    memory_key(rows[a as int]) > memory_key(rows[b as int]) || (memory_key(rows[a as int]) == memory_key(
        rows[b as int],
    ) && a < b)
}

/// Whether `order` lists every position of `rows` once, heaviest users first.
pub open spec fn memory_order(rows: Seq<GpuProcessView>, order: Seq<usize>) -> bool {
    &&& order.len() == rows.len()
    &&& forall|k: int| 0 <= k < order.len() ==> order[k] < rows.len()
    &&& forall|i: int, j: int| 0 <= i < j < order.len() ==> heavier_first(rows, #[trigger] order[i], #[trigger] order[j])
}

fn memory_of(row: &GpuProcessRow) -> (m: u64)
    ensures
        m == memory_key(row@),
{
    match row.used_memory_mib {
        Some(m) => m,
        None => 0,
    }
}

/// The positions of the processes, heaviest users of GPU memory first; equal ones keep
/// their order.
pub fn gpu_memory_order(rows: &Vec<GpuProcessRow>) -> (order: Vec<usize>)
    ensures
        memory_order(gpu_process_views(rows@), order@),
{
    let ghost rv = gpu_process_views(rows@);
    let mut out: Vec<usize> = Vec::new();
    let mut x: usize = 0;
    while x < rows.len()
        invariant
            x <= rows@.len(),
            rv == gpu_process_views(rows@),
            out@.len() == x,
            forall|k: int| 0 <= k < out@.len() ==> out@[k] < x,
            forall|i: int, j: int| 0 <= i < j < out@.len() ==> heavier_first(rv, #[trigger] out@[i], #[trigger] out@[j]),
        decreases rows.len() - x,
    {
        let mx = memory_of(&rows[x]);
        let mut k: usize = 0;
        while k < out.len() && memory_of(&rows[out[k]]) >= mx
            invariant
                k <= out@.len(),
                x < rows@.len(),
                rv == gpu_process_views(rows@),
                mx == memory_key(rv[x as int]),
                forall|m: int| 0 <= m < out@.len() ==> out@[m] < x,
                forall|j: int| 0 <= j < k ==> memory_key(rv[#[trigger] out@[j] as int]) >= mx,
            decreases out.len() - k,
        {
            k = k + 1;
        }
        let ghost ov = out@;
        proof {
            if k < ov.len() {
                assert(memory_key(rv[ov[k as int] as int]) < mx);
                assert forall|j: int| k <= j < ov.len() implies memory_key(rv[#[trigger] ov[j] as int]) < mx by {
                    if j > k {
                        assert(heavier_first(rv, ov[k as int], ov[j]));
                    }
                }
            }
        }
        out.insert(k, x);
        proof {
            let nv = out@;
            assert(nv =~= ov.insert(k as int, x));
            assert forall|i: int, j: int| 0 <= i < j < nv.len() implies heavier_first(rv, #[trigger] nv[i], #[trigger] nv[j]) by {
                if j < k {
                    assert(nv[i] == ov[i] && nv[j] == ov[j]);
                } else if j == k {
                    assert(nv[i] == ov[i]);
                } else if i < k {
                    assert(nv[i] == ov[i] && nv[j] == ov[j - 1]);
                    assert(heavier_first(rv, ov[i], ov[j - 1]));
                } else if i == k {
                    assert(nv[j] == ov[j - 1]);
                } else {
                    assert(nv[i] == ov[i - 1] && nv[j] == ov[j - 1]);
                    assert(heavier_first(rv, ov[i - 1], ov[j - 1]));
                }
            }
            assert forall|m: int| 0 <= m < nv.len() implies nv[m] < x + 1 by {
                if m < k {
                    assert(nv[m] == ov[m]);
                } else if m > k {
                    assert(nv[m] == ov[m - 1]);
                }
            }
        }
        x = x + 1;
    }
    out
}

fn copy_row(row: &GpuProcessRow) -> (r: GpuProcessRow)
    ensures
        r@ == row@,
{
    GpuProcessRow {
        gpu_index: row.gpu_index,
        pid: row.pid,
        process_name: string_of(&chars_of(row.process_name.as_str())),
        used_memory_mib: row.used_memory_mib,
    }
}

/// The processes, heaviest users of GPU memory first; equal ones keep their order (see
/// `memory_order`).
pub fn rank_gpu_processes(rows: &Vec<GpuProcessRow>) -> (r: Vec<GpuProcessRow>)
    ensures
        exists|order: Seq<usize>|
            memory_order(gpu_process_views(rows@), order) && gpu_process_views(r@) == order.map_values(
                |i: usize| gpu_process_views(rows@)[i as int],
            ),
{
    let ghost rv = gpu_process_views(rows@);
    let order = gpu_memory_order(rows);
    let mut r: Vec<GpuProcessRow> = Vec::new();
    let mut k: usize = 0;
    while k < order.len()
        invariant
            k <= order@.len(),
            rv == gpu_process_views(rows@),
            memory_order(rv, order@),
            gpu_process_views(r@) == order@.take(k as int).map_values(|i: usize| rv[i as int]),
        decreases order.len() - k,
    {
        let ghost before = r@;
        assert(order@[k as int] < rows@.len());
        assert(rv[order@[k as int] as int] == rows@[order@[k as int] as int]@);
        let row = copy_row(&rows[order[k]]);
        r.push(row);
        assert(gpu_process_views(r@) =~= gpu_process_views(before).push(rv[order@[k as int] as int]));
        assert(gpu_process_views(r@) =~= order@.take(k + 1).map_values(|i: usize| rv[i as int]));
        k = k + 1;
    }
    assert(order@.take(order@.len() as int) =~= order@);
    r
}

} // verus!
