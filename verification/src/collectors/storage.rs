//! Disks: block-device counters, directory sizes, large files and SMART health.
use crate::collectors::netstat::{args1, command_exists, first_n, succeeded};
use crate::collectors::provider::{same_host, command_line, CommandOutput, CommandOutputView, CommandProvider, answer_view, str_views};
use crate::order::{row_views, sort_by_size, sorted_by_size};
use crate::text::{
    chars_of, contains, decimal_string, ends_with_str, is_digit, lines, next_index_of, parse_i32,
    parse_i32_spec, parse_u64, parse_u64_spec, push_str, rfind_char, last_index_of, spec_contains,
    spec_decimal, spec_lines, spec_lower, spec_starts_with, spec_trim, spec_words, starts_with_str,
    string_of, to_lower, trim, views, words, find_char_from, copy_range, contains_str, equals_str,
};
use vstd::prelude::*;

verus! {

/// Read and write throughput of a block device, in bytes per second.
pub struct DiskIoRow {
    pub device: String,
    pub read_bps: u64,
    pub write_bps: u64,
}

/// SMART health of a device: the overall verdict, temperature and power-on hours.
pub struct SmartHealthRow {
    pub device: String,
    pub overall: String,
    pub temperature_c: Option<i32>,
    pub power_on_hours: Option<u64>,
}

pub struct SmartHealthView {
    pub device: Seq<char>,
    pub overall: Seq<char>,
    pub temperature_c: Option<i32>,
    pub power_on_hours: Option<u64>,
}

impl View for SmartHealthRow {
    type V = SmartHealthView;

    open spec fn view(&self) -> SmartHealthView {
        SmartHealthView {
            device: self.device@,
            overall: self.overall@,
            temperature_c: self.temperature_c,
            power_on_hours: self.power_on_hours,
        }
    }
}

/// Whether a block device name names a partition: a `p` and a final digit (nvme0n1p2,
/// mmcblk0p1), or a final digit after an `sd`, `vd` or `xvd` prefix (sda1).
pub open spec fn partition_name(n: Seq<char>) -> bool {
    let ends_digit = n.len() > 0 && is_digit(n.last());
    (spec_contains(n, "p"@) && ends_digit) || (ends_digit && (spec_starts_with(n, "sd"@)
        || spec_starts_with(n, "vd"@) || spec_starts_with(n, "xvd"@)))
}

/// Whether a block device name names a partition (see `partition_name`).
pub fn is_partition_name(name: &str) -> (b: bool)
    ensures
        b == partition_name(name@),
{
    let n = chars_of(name);
    let ends_digit = n.len() > 0 && 48 <= (n[n.len() - 1] as u32) && (n[n.len() - 1] as u32) <= 57;
    (contains_str(&n, "p") && ends_digit) || (ends_digit && (starts_with_str(&n, "sd")
        || starts_with_str(&n, "vd") || starts_with_str(&n, "xvd")))
}

/// A number column, 0 where it does not parse.
pub open spec fn number_or_zero(s: Seq<char>) -> u64 {
    match parse_u64_spec(s) {
        Some(v) => v,
        None => 0,
    }
}

fn parse_or_zero(s: &[char]) -> (v: u64)
    ensures
        v == number_or_zero(s@),
{
    match parse_u64(s) {
        Some(v) => v,
        None => 0,
    }
}

/// The counters a `/proc/diskstats` line gives for a whole device: its name, sectors read
/// and sectors written. Loop and RAM devices and partitions are left out.
pub open spec fn diskstat_row(l: Seq<char>) -> Option<(Seq<char>, u64, u64)> {
    let cols = spec_words(l);
    if cols.len() < 10 {
        None
    } else if spec_starts_with(cols[2], "loop"@) || spec_starts_with(cols[2], "ram"@) || partition_name(
        cols[2],
    ) {
        None
    } else {
        Some((cols[2], number_or_zero(cols[5]), number_or_zero(cols[9])))
    }
}

/// Counters after one more device line: a device seen before has its counters replaced.
pub open spec fn put_counter(m: Seq<(Seq<char>, u64, u64)>, r: (Seq<char>, u64, u64)) -> Seq<(Seq<char>, u64, u64)>
    decreases m.len(),
{
    if m.len() == 0 {
        seq![r]
    } else if m[0].0 == r.0 {
        m.update(0, r)
    } else {
        seq![m[0]] + put_counter(m.drop_first(), r)
    }
}

/// The device counters of a `/proc/diskstats` text, each device once, in first-seen order.
pub open spec fn diskstat_counters(ls: Seq<Seq<char>>) -> Seq<(Seq<char>, u64, u64)>
    decreases ls.len(),
{
    if ls.len() == 0 {
        Seq::empty()
    } else {
        let m = diskstat_counters(ls.drop_last());
        match diskstat_row(ls.last()) {
            Some(r) => put_counter(m, r),
            None => m,
        }
    }
}

pub open spec fn counter_views(v: Seq<(String, u64, u64)>) -> Seq<(Seq<char>, u64, u64)> {
    v.map_values(|r: (String, u64, u64)| (r.0@, r.1, r.2))
}

fn diskstat_row_of(l: &[char]) -> (r: Option<(String, u64, u64)>)
    ensures
        match r {
            Some(x) => diskstat_row(l@) == Some((x.0@, x.1, x.2)),
            None => diskstat_row(l@) is None,
        },
{
    let cols = words(l);
    if cols.len() < 10 {
        return None;
    }
    let d = string_of(&cols[2]);
    if starts_with_str(&cols[2], "loop") || starts_with_str(&cols[2], "ram") || is_partition_name(
        d.as_str(),
    ) {
        return None;
    }
    Some((d, parse_or_zero(&cols[5]), parse_or_zero(&cols[9])))
}

proof fn lemma_put_counter_index(m: Seq<(Seq<char>, u64, u64)>, r: (Seq<char>, u64, u64), k: int)
    requires
        0 <= k <= m.len(),
        forall|j: int| 0 <= j < k ==> m[j].0 != r.0,
        k < m.len() ==> m[k].0 == r.0,
    ensures
        put_counter(m, r) == if k < m.len() {
            m.update(k, r)
        } else {
            m.push(r)
        },
    decreases m.len(),
{
    if m.len() > 0 && k > 0 {
        lemma_put_counter_index(m.drop_first(), r, k - 1);
        if k < m.len() {
            assert(seq![m[0]] + m.drop_first().update(k - 1, r) =~= m.update(k, r));
        } else {
            assert(seq![m[0]] + m.drop_first().push(r) =~= m.push(r));
        }
    }
}

fn put_counter_into(m: &mut Vec<(String, u64, u64)>, r: (String, u64, u64))
    ensures
        counter_views(final(m)@) == put_counter(counter_views(old(m)@), (r.0@, r.1, r.2)),
{
    let rc = chars_of(r.0.as_str());
    let mut k: usize = 0;
    while k < m.len() && !equals_str(&rc, m[k].0.as_str())
        invariant
            k <= m@.len(),
            rc@ == r.0@,
            forall|j: int| 0 <= j < k ==> counter_views(m@)[j].0 != r.0@,
        decreases m.len() - k,
    {
        assert(counter_views(m@)[k as int].0 == m@[k as int].0@);
        k = k + 1;
    }
    let ghost before = counter_views(m@);
    proof {
        if k < m.len() {
            assert(counter_views(m@)[k as int].0 == m@[k as int].0@);
        }
        lemma_put_counter_index(before, (r.0@, r.1, r.2), k as int);
    }
    if k < m.len() {
        m.set(k, r);
        assert(counter_views(m@) =~= before.update(k as int, (r.0@, r.1, r.2)));
    } else {
        m.push(r);
        assert(counter_views(m@) =~= before.push((r.0@, r.1, r.2)));
    }
}

/// The device counters of a `/proc/diskstats` text (see `diskstat_counters`).
pub fn disk_io_counters(text: &str) -> (v: Vec<(String, u64, u64)>)
    ensures
        counter_views(v@) == diskstat_counters(spec_lines(text@)),
{
    let ls = lines(&chars_of(text));
    let mut v: Vec<(String, u64, u64)> = Vec::new();
    let mut i: usize = 0;
    while i < ls.len()
        invariant
            i <= ls@.len(),
            views(ls@) == spec_lines(text@),
            counter_views(v@) == diskstat_counters(views(ls@).take(i as int)),
        decreases ls.len() - i,
    {
        assert(views(ls@).take(i + 1).drop_last() =~= views(ls@).take(i as int));
        assert(views(ls@).take(i + 1).last() == ls@[i as int]@);
        match diskstat_row_of(&ls[i]) {
            Some(r) => put_counter_into(&mut v, r),
            None => {},
        }
        i = i + 1;
    }
    assert(views(ls@).take(ls@.len() as int) =~= views(ls@));
    v
}

/// A `du` line as a row: the path after the tab and the size before it (0 where it does
/// not parse); the scanned path itself is left out.
pub open spec fn du_row(l: Seq<char>, path: Seq<char>) -> Option<(Seq<char>, u64)> {
    let t = next_index_of(l, 0, '\t');
    if t >= l.len() {
        None
    } else if l.subrange(t + 1, l.len() as int) == path {
        None
    } else {
        Some((l.subrange(t + 1, l.len() as int), number_or_zero(spec_trim(l.subrange(0, t)))))
    }
}

pub open spec fn du_rows(ls: Seq<Seq<char>>, path: Seq<char>) -> Seq<(Seq<char>, u64)>
    decreases ls.len(),
{
    if ls.len() == 0 {
        Seq::empty()
    } else {
        let p = du_rows(ls.drop_last(), path);
        match du_row(ls.last(), path) {
            Some(r) => p.push(r),
            None => p,
        }
    }
}

/// A `find -printf '%s\t%p\n'` line as a row: the path after the tab and the size before it;
/// lines whose size does not parse are left out.
pub open spec fn file_row(l: Seq<char>) -> Option<(Seq<char>, u64)> {
    let t = next_index_of(l, 0, '\t');
    if t >= l.len() {
        None
    } else {
        match parse_u64_spec(spec_trim(l.subrange(0, t))) {
            Some(v) => Some((l.subrange(t + 1, l.len() as int), v)),
            None => None,
        }
    }
}

pub open spec fn file_rows(ls: Seq<Seq<char>>) -> Seq<(Seq<char>, u64)>
    decreases ls.len(),
{
    if ls.len() == 0 {
        Seq::empty()
    } else {
        let p = file_rows(ls.drop_last());
        match file_row(ls.last()) {
            Some(r) => p.push(r),
            None => p,
        }
    }
}

/// Splits a line at its first tab: (before, after).
fn split_tab(l: &[char]) -> (r: Option<(Vec<char>, Vec<char>)>)
    ensures
        match r {
            Some(p) => next_index_of(l@, 0, '\t') < l@.len() && p.0@ == l@.subrange(0, next_index_of(l@, 0, '\t'))
                && p.1@ == l@.subrange(next_index_of(l@, 0, '\t') + 1, l@.len() as int),
            None => next_index_of(l@, 0, '\t') >= l@.len(),
        },
{
    let t = find_char_from(l, 0, '\t');
    if t >= l.len() {
        None
    } else {
        Some((copy_range(l, 0, t), copy_range(l, t + 1, l.len())))
    }
}

/// The rows of `du` output (see `du_row`).
pub fn dir_rows_from(text: &str, path: &str) -> (v: Vec<(String, u64)>)
    ensures
        row_views(v@) == du_rows(spec_lines(text@), path@),
{
    let ls = lines(&chars_of(text));
    let pc = chars_of(path);
    let mut v: Vec<(String, u64)> = Vec::new();
    let mut i: usize = 0;
    while i < ls.len()
        invariant
            i <= ls@.len(),
            views(ls@) == spec_lines(text@),
            pc@ == path@,
            row_views(v@) == du_rows(views(ls@).take(i as int), path@),
        decreases ls.len() - i,
    {
        assert(views(ls@).take(i + 1).drop_last() =~= views(ls@).take(i as int));
        assert(views(ls@).take(i + 1).last() == ls@[i as int]@);
        let ghost before = row_views(v@);
        match split_tab(&ls[i]) {
            Some((size, dir)) => {
                if !crate::text::chars_eq(&dir, &pc) {
                    let n = parse_or_zero(&trim(&size));
                    let d = string_of(&dir);
                    v.push((d, n));
                    assert(row_views(v@) =~= before.push((dir@, n)));
                }
            },
            None => {},
        }
        i = i + 1;
    }
    assert(views(ls@).take(ls@.len() as int) =~= views(ls@));
    v
}

/// The rows of `find` output (see `file_row`).
pub fn file_rows_from(text: &str) -> (v: Vec<(String, u64)>)
    ensures
        row_views(v@) == file_rows(spec_lines(text@)),
{
    let ls = lines(&chars_of(text));
    let mut v: Vec<(String, u64)> = Vec::new();
    let mut i: usize = 0;
    while i < ls.len()
        invariant
            i <= ls@.len(),
            views(ls@) == spec_lines(text@),
            row_views(v@) == file_rows(views(ls@).take(i as int)),
        decreases ls.len() - i,
    {
        assert(views(ls@).take(i + 1).drop_last() =~= views(ls@).take(i as int));
        assert(views(ls@).take(i + 1).last() == ls@[i as int]@);
        let ghost before = row_views(v@);
        match split_tab(&ls[i]) {
            Some((size, file)) => {
                match parse_u64(&trim(&size)) {
                    Some(n) => {
                        let f = string_of(&file);
                        v.push((f, n));
                        assert(row_views(v@) =~= before.push((file@, n)));
                    },
                    None => {},
                }
            },
            None => {},
        }
        i = i + 1;
    }
    assert(views(ls@).take(ls@.len() as int) =~= views(ls@));
    v
}

pub open spec fn du_args(depth: usize, path: Seq<char>) -> Seq<Seq<char>> {
    seq!["-xb"@, "--max-depth="@ + spec_decimal(depth as nat), path]
}

/// Rows of what a `du` answer gives, none when it failed.
pub open spec fn du_answer_rows(a: Result<CommandOutputView, Seq<char>>, path: Seq<char>) -> Seq<(Seq<char>, u64)> {
    match a {
        Ok(o) => if o.success {
            du_rows(spec_lines(o.stdout), path)
        } else {
            Seq::empty()
        },
        Err(_) => Seq::empty(),
    }
}

/// The `limit` largest directories under `path`, `depth` levels deep, by `du -xb`: largest
/// first, then by path.
pub fn collect_directory_sizes_with_depth<P: CommandProvider>(
    provider: &mut P,
    path: &str,
    depth: usize,
    limit: usize,
) -> (v: Vec<(String, u64)>)
    ensures
        same_host(*old(provider), *final(provider)),
        final(provider).ran() == old(provider).ran().push(command_line("du"@, du_args(depth, path@))),
        exists|a| #[trigger]
            old(provider).answers("du"@, du_args(depth, path@), a) && exists|s: Seq<(Seq<char>, u64)>| #[trigger]
                sorted_by_size(s) && s.to_multiset() == du_answer_rows(a, path@).to_multiset()
                    && row_views(v@) == first_n(s, limit as nat),
{
    let mut flag: Vec<char> = Vec::new();
    push_str(&mut flag, "--max-depth=");
    push_str(&mut flag, decimal_string(depth as u64).as_str());
    let fs = string_of(&flag);
    let args = ["-xb", fs.as_str(), path];
    assert(str_views(args@) =~= du_args(depth, path@));
    let r = provider.run("du", &args);
    let ghost a = answer_view(r);
    let rows = match r {
        Ok(o) => if o.success {
            dir_rows_from(o.stdout.as_str(), path)
        } else {
            Vec::new()
        },
        Err(_) => Vec::new(),
    };
    assert(row_views(rows@) =~= du_answer_rows(a, path@));
    let sorted = sort_by_size(rows);
    let ghost sv = row_views(sorted@);
    let v = take_rows(sorted, limit);
    assert(sorted_by_size(sv));
    assert(provider.answers("du"@, du_args(depth, path@), a));
    v
}

fn take_rows(rows: Vec<(String, u64)>, limit: usize) -> (v: Vec<(String, u64)>)
    ensures
        row_views(v@) == first_n(row_views(rows@), limit as nat),
{
    let mut v: Vec<(String, u64)> = Vec::new();
    let mut rest = rows;
    let ghost all = row_views(rest@);
    let mut i: usize = 0;
    while i < limit && rest.len() > 0
        invariant
            i <= all.len(),
            i <= limit,
            row_views(rest@) == all.skip(i as int),
            row_views(v@) == all.take(i as int),
        decreases rest.len(),
    {
        let x = rest.remove(0);
        assert(all.skip(i as int)[0] == (x.0@, x.1));
        assert(all.skip(i + 1) =~= all.skip(i as int).drop_first());
        let ghost before = row_views(v@);
        v.push(x);
        assert(row_views(v@) =~= before.push((x.0@, x.1)));
        assert(all.take(i + 1) =~= all.take(i as int).push(all[i as int]));
        i = i + 1;
    }
    assert(row_views(v@) =~= first_n(all, limit as nat));
    v
}

pub open spec fn find_script() -> Seq<char> {
    "find \"$1\" -xdev -type f -printf '%s\\t%p\\n' 2>/dev/null | sort -nr | head -n \"$2\""@
}

pub open spec fn find_args(path: Seq<char>, limit: usize) -> Seq<Seq<char>> {
    seq!["-c"@, find_script(), "--"@, path, spec_decimal(limit as nat)]
}

/// The `limit` largest files under `path`, by `find`, `sort -nr` and `head` in a shell.
pub fn collect_large_files<P: CommandProvider>(provider: &mut P, path: &str, limit: usize) -> (v: Vec<(String, u64)>)
    ensures
        same_host(*old(provider), *final(provider)),
        final(provider).ran() == old(provider).ran().push(command_line("sh"@, find_args(path@, limit))),
        exists|a| #[trigger]
            old(provider).answers("sh"@, find_args(path@, limit), a) && row_views(v@) == match a {
                Ok(o) => if o.success {
                    file_rows(spec_lines(o.stdout))
                } else {
                    Seq::empty()
                },
                Err(_) => Seq::empty(),
            },
{
    let n = decimal_string(limit as u64);
    let args = [
        "-c",
        "find \"$1\" -xdev -type f -printf '%s\\t%p\\n' 2>/dev/null | sort -nr | head -n \"$2\"",
        "--",
        path,
        n.as_str(),
    ];
    assert(str_views(args@) =~= find_args(path@, limit));
    let r = provider.run("sh", &args);
    match r {
        Ok(o) => if o.success {
            file_rows_from(o.stdout.as_str())
        } else {
            let v: Vec<(String, u64)> = Vec::new();
            assert(row_views(v@) =~= Seq::<(Seq<char>, u64)>::empty());
            v
        },
        Err(_) => {
            let v: Vec<(String, u64)> = Vec::new();
            assert(row_views(v@) =~= Seq::<(Seq<char>, u64)>::empty());
            v
        },
    }
}


/// The text after the last `:` of a line (all of it when there is none), trimmed.
pub open spec fn after_last_colon(l: Seq<char>) -> Seq<char> {
    spec_trim(l.skip(last_index_of(l, ':', l.len() as int) + 1))
}

/// The last word that reads as an `i32`.
pub open spec fn last_i32_word(ws: Seq<Seq<char>>) -> Option<i32>
    decreases ws.len(),
{
    if ws.len() == 0 {
        None
    } else {
        match parse_i32_spec(ws.last()) {
            Some(v) => Some(v),
            None => last_i32_word(ws.drop_last()),
        }
    }
}

/// The last word that reads as a `u64`.
pub open spec fn last_u64_word(ws: Seq<Seq<char>>) -> Option<u64>
    decreases ws.len(),
{
    if ws.len() == 0 {
        None
    } else {
        match parse_u64_spec(ws.last()) {
            Some(v) => Some(v),
            None => last_u64_word(ws.drop_last()),
        }
    }
}

pub open spec fn mentions_health(lower: Seq<char>) -> bool {
    spec_contains(lower, "overall-health"@) || spec_contains(lower, "smart health status"@)
}

pub open spec fn mentions_temperature(lower: Seq<char>) -> bool {
    spec_contains(lower, "temperature_celsius"@) || spec_contains(lower, "temperature:"@)
}

pub open spec fn mentions_hours(lower: Seq<char>) -> bool {
    spec_contains(lower, "power_on_hours"@) || spec_contains(lower, "power on hours"@)
}

/// The SMART row after one more `smartctl` line: the overall verdict, the temperature or
/// the power-on hours it reports (ASCII case ignored).
pub open spec fn smart_step(r: SmartHealthView, l: Seq<char>) -> SmartHealthView {
    let lower = spec_lower(l);
    if mentions_health(lower) {
        SmartHealthView { overall: after_last_colon(l), ..r }
    } else if mentions_temperature(lower) {
        match last_i32_word(spec_words(l)) {
            Some(v) => SmartHealthView { temperature_c: Some(v), ..r },
            None => r,
        }
    } else if mentions_hours(lower) {
        match last_u64_word(spec_words(l)) {
            Some(v) => SmartHealthView { power_on_hours: Some(v), ..r },
            None => r,
        }
    } else {
        r
    }
}

pub open spec fn smart_fold(r: SmartHealthView, ls: Seq<Seq<char>>) -> SmartHealthView
    decreases ls.len(),
{
    if ls.len() == 0 {
        r
    } else {
        smart_step(smart_fold(r, ls.drop_last()), ls.last())
    }
}

/// The SMART row of a device for a `smartctl -H -A` answer: "unavailable" when it could not
/// run; otherwise what its output and error lines report, with "available" or "failed"
/// (by its exit status) when no verdict was found.
pub open spec fn smart_row(device: Seq<char>, a: Result<CommandOutputView, Seq<char>>) -> SmartHealthView {
    let start = SmartHealthView { device, overall: "unknown"@, temperature_c: None, power_on_hours: None };
    match a {
        Err(_) => SmartHealthView { overall: "unavailable"@, ..start },
        Ok(o) => {
            let r = smart_fold(start, spec_lines(o.stdout + "\n"@ + o.stderr));
            if r.overall == "unknown"@ {
                SmartHealthView {
                    overall: if o.success {
                        "available"@
                    } else {
                        "failed"@
                    },
                    ..r
                }
            } else {
                r
            }
        },
    }
}

fn last_i32_of(ws: &Vec<Vec<char>>) -> (r: Option<i32>)
    ensures
        r == last_i32_word(views(ws@)),
{
    let mut k = ws.len();
    assert(views(ws@).take(k as int) =~= views(ws@));
    while k > 0
        invariant
            k <= ws@.len(),
            last_i32_word(views(ws@)) == last_i32_word(views(ws@).take(k as int)),
        decreases k,
    {
        assert(views(ws@).take(k as int).drop_last() =~= views(ws@).take(k - 1));
        assert(views(ws@).take(k as int).last() == ws@[k - 1]@);
        match parse_i32(&ws[k - 1]) {
            Some(v) => {
                return Some(v);
            },
            None => {},
        }
        k = k - 1;
    }
    None
}

fn last_u64_of(ws: &Vec<Vec<char>>) -> (r: Option<u64>)
    ensures
        r == last_u64_word(views(ws@)),
{
    let mut k = ws.len();
    assert(views(ws@).take(k as int) =~= views(ws@));
    while k > 0
        invariant
            k <= ws@.len(),
            last_u64_word(views(ws@)) == last_u64_word(views(ws@).take(k as int)),
        decreases k,
    {
        assert(views(ws@).take(k as int).drop_last() =~= views(ws@).take(k - 1));
        assert(views(ws@).take(k as int).last() == ws@[k - 1]@);
        match parse_u64(&ws[k - 1]) {
            Some(v) => {
                return Some(v);
            },
            None => {},
        }
        k = k - 1;
    }
    None
}

fn colon_tail(l: &[char]) -> (r: Vec<char>)
    ensures
        r@ == after_last_colon(l@),
{
    let start = match rfind_char(l, ':') {
        Some(k) => {
            assert(k < l.len());
            k + 1
        },
        None => 0,
    };
    let tail = copy_range(l, start, l.len());
    assert(tail@ =~= l@.skip(last_index_of(l@, ':', l@.len() as int) + 1));
    trim(&tail)
}

fn smart_step_exec(r: &mut SmartHealthRow, l: &[char])
    ensures
        final(r)@ == smart_step(old(r)@, l@),
{
    let lower = to_lower(l);
    if contains_str(&lower, "overall-health") || contains_str(&lower, "smart health status") {
        r.overall = string_of(&colon_tail(l));
    } else if contains_str(&lower, "temperature_celsius") || contains_str(&lower, "temperature:") {
        let ws = words(l);
        match last_i32_of(&ws) {
            Some(v) => r.temperature_c = Some(v),
            None => {},
        }
    } else if contains_str(&lower, "power_on_hours") || contains_str(&lower, "power on hours") {
        let ws = words(l);
        match last_u64_of(&ws) {
            Some(v) => r.power_on_hours = Some(v),
            None => {},
        }
    }
}

/// The SMART row of a device for a `smartctl -H -A` answer (see `smart_row`).
pub fn smart_row_from(device: &str, r: Result<CommandOutput, String>) -> (row: SmartHealthRow)
    ensures
        row@ == smart_row(device@, answer_view(r)),
{
    let mut row = SmartHealthRow {
        device: string_of(&chars_of(device)),
        overall: string_of(&chars_of("unknown")),
        temperature_c: None,
        power_on_hours: None,
    };
    let ghost start = row@;
    match r {
        Err(_) => {
            row.overall = string_of(&chars_of("unavailable"));
            row
        },
        Ok(o) => {
            let mut text: Vec<char> = Vec::new();
            push_str(&mut text, o.stdout.as_str());
            push_str(&mut text, "\n");
            push_str(&mut text, o.stderr.as_str());
            let ls = lines(&text);
            let mut i: usize = 0;
            while i < ls.len()
                invariant
                    i <= ls@.len(),
                    views(ls@) == spec_lines(text@),
                    row@ == smart_fold(start, views(ls@).take(i as int)),
                decreases ls.len() - i,
            {
                assert(views(ls@).take(i + 1).drop_last() =~= views(ls@).take(i as int));
                assert(views(ls@).take(i + 1).last() == ls@[i as int]@);
                smart_step_exec(&mut row, &ls[i]);
                i = i + 1;
            }
            assert(views(ls@).take(ls@.len() as int) =~= views(ls@));
            assert(text@ =~= o.stdout@ + "\n"@ + o.stderr@);
            if equals_str(&chars_of(row.overall.as_str()), "unknown") {
                row.overall = if o.success {
                    string_of(&chars_of("available"))
                } else {
                    string_of(&chars_of("failed"))
                };
            }
            row
        },
    }
}

pub open spec fn smart_args(device: Seq<char>) -> Seq<Seq<char>> {
    seq!["-H"@, "-A"@, device]
}

/// Reads the SMART health of one device through `smartctl -H -A`.
pub fn read_single_smart_health<P: CommandProvider>(provider: &mut P, device: &str) -> (row: SmartHealthRow)
    ensures
        same_host(*old(provider), *final(provider)),
        final(provider).ran() == old(provider).ran().push(command_line("smartctl"@, smart_args(device@))),
        exists|a| #[trigger] old(provider).answers("smartctl"@, smart_args(device@), a) && row@ == smart_row(device@, a),
{
    let args = ["-H", "-A", device];
    assert(str_views(args@) =~= smart_args(device@));
    let r = provider.run("smartctl", &args);
    smart_row_from(device, r)
}

/// The devices a `smartctl --scan-open` output lists: the first word of each of its first
/// `limit` lines, blank lines skipped.
pub open spec fn scan_devices(ls: Seq<Seq<char>>) -> Seq<Seq<char>>
    decreases ls.len(),
{
    if ls.len() == 0 {
        Seq::empty()
    } else {
        let p = scan_devices(ls.drop_last());
        let ws = spec_words(ls.last());
        if ws.len() > 0 {
            p.push(ws[0])
        } else {
            p
        }
    }
}

/// Whether a row is what some `smartctl -H -A` answer for the device gives.
pub open spec fn smart_row_answered<P: CommandProvider>(provider: P, dev: Seq<char>, r: SmartHealthView) -> bool {
    exists|b| #[trigger] provider.answers("smartctl"@, smart_args(dev), b) && r == smart_row(dev, b)
}

/// Whether the rows are those of the devices, one each, in order.
pub open spec fn smart_rows_match<P: CommandProvider>(provider: P, v: Seq<SmartHealthRow>, devs: Seq<Seq<char>>) -> bool {
    &&& v.len() == devs.len()
    &&& forall|j: int| 0 <= j < devs.len() ==> #[trigger] smart_row_answered(provider, devs[j], v[j]@)
}

/// SMART health of up to `limit` devices that `smartctl --scan-open` lists, on Linux
/// hosts where `smartctl` is installed.
pub fn collect_smart_health<P: CommandProvider>(provider: &mut P, limit: usize) -> (v: Vec<SmartHealthRow>)
    ensures
        same_host(*old(provider), *final(provider)),
        !old(provider).on_linux() ==> v@.len() == 0 && final(provider).ran() == old(provider).ran(),
        old(provider).on_linux() ==> exists|w| #[trigger]
            old(provider).answers("which"@, args1("smartctl"@), w) && (!succeeded(w) ==> v@.len() == 0)
                && (succeeded(w) ==> exists|a| #[trigger]
                old(provider).answers("smartctl"@, args1("--scan-open"@), a) && (!succeeded(a) ==> v@.len()
                    == 0) && (succeeded(a) ==> {
                    smart_rows_match(*old(provider), v@, scan_devices(first_n(spec_lines(a->Ok_0.stdout), limit as nat)))
                })),
{
    if !provider.is_linux() {
        return Vec::new();
    }
    if !command_exists(provider, "smartctl") {
        return Vec::new();
    }
    let args = ["--scan-open"];
    assert(str_views(args@) =~= args1("--scan-open"@));
    let r = provider.run("smartctl", &args);
    let ghost a = answer_view(r);
    let out = match r {
        Ok(o) => if o.success {
            o.stdout
        } else {
            return Vec::new();
        },
        Err(_) => {
            return Vec::new();
        },
    };
    let all = lines(&chars_of(out.as_str()));
    let mut v: Vec<SmartHealthRow> = Vec::new();
    let mut i: usize = 0;
    let ghost ls = first_n(spec_lines(out@), limit as nat);
    let ghost devs = scan_devices(ls);
    while i < all.len() && i < limit
        invariant
            i <= all@.len(),
            views(all@) == spec_lines(out@),
            ls == first_n(spec_lines(out@), limit as nat),
            i <= ls.len(),
            ls.take(i as int) == views(all@).take(i as int),
            smart_rows_match(*old(provider), v@, scan_devices(ls.take(i as int))),
            same_host(*old(provider), *provider),
        decreases all.len() - i,
    {
        assert(ls.take(i + 1).drop_last() =~= ls.take(i as int));
        assert(ls.take(i + 1).last() == all@[i as int]@);
        let ghost old_devs = scan_devices(ls.take(i as int));
        let ghost old_v = v@;
        let ws = words(&all[i]);
        if ws.len() > 0 {
            let dev = string_of(&ws[0]);
            let row = read_single_smart_health(provider, dev.as_str());
            v.push(row);
            proof {
                let nd = old_devs.push(dev@);
                assert(scan_devices(ls.take(i + 1)) == nd);
                assert forall|j: int| 0 <= j < nd.len() implies #[trigger] smart_row_answered(*old(provider), nd[j], v@[j]@) by {
                    if j < old_devs.len() {
                        assert(nd[j] == old_devs[j] && v@[j] == old_v[j]);
                        assert(smart_row_answered(*old(provider), old_devs[j], old_v[j]@));
                    } else {
                        assert(nd[j] == dev@ && v@[j] == row);
                    }
                }
            }
        }
        i = i + 1;
    }
    proof {
        assert(ls.take(i as int) =~= ls);
        assert(old(provider).answers("smartctl"@, args1("--scan-open"@), a));
    }
    v
}

pub open spec fn io_row_views(v: Seq<DiskIoRow>) -> Seq<(Seq<char>, u64, u64)> {
    v.map_values(|r: DiskIoRow| (r.device@, r.read_bps, r.write_bps))
}

/// Whether a device row may come before another: more throughput first, then by device.
pub open spec fn io_row_first(a: (Seq<char>, u64, u64), b: (Seq<char>, u64, u64)) -> bool {
    crate::order::load_first((a.0, a.1 + a.2), (b.0, b.1 + b.2))
}

pub open spec fn io_rows_sorted(s: Seq<(Seq<char>, u64, u64)>) -> bool {
    forall|i: int, j: int| 0 <= i < j < s.len() ==> io_row_first(#[trigger] s[i], #[trigger] s[j])
}

fn io_row_before(a: &DiskIoRow, b: &DiskIoRow) -> (r: bool)
    ensures
        r == io_row_first((a.device@, a.read_bps, a.write_bps), (b.device@, b.read_bps, b.write_bps)),
{
    let la = a.read_bps as u128 + a.write_bps as u128;
    let lb = b.read_bps as u128 + b.write_bps as u128;
    if la != lb {
        la > lb
    } else {
        !crate::text::less_than(&chars_of(b.device.as_str()), &chars_of(a.device.as_str()))
    }
}

/// Device rows by throughput (read plus write), most first, then by device name.
pub fn rank_disk_io_rows(rows: Vec<DiskIoRow>) -> (r: Vec<DiskIoRow>)
    ensures
        io_rows_sorted(io_row_views(r@)),
        io_row_views(r@).to_multiset() == io_row_views(rows@).to_multiset(),
{
    let mut out: Vec<DiskIoRow> = Vec::new();
    let mut rest = rows;
    let ghost all = io_row_views(rest@);
    let mut taken: usize = 0;
    let n = rest.len();
    broadcast use vstd::seq_lib::group_to_multiset_ensures;

    while rest.len() > 0
        invariant
            taken + rest@.len() == n,
            all.len() == n,
            io_row_views(rest@) == all.skip(taken as int),
            io_rows_sorted(io_row_views(out@)),
            io_row_views(out@).to_multiset() == all.take(taken as int).to_multiset(),
        decreases rest.len(),
    {
        let x = rest.remove(0);
        let ghost xv = (x.device@, x.read_bps, x.write_bps);
        assert(all.skip(taken as int)[0] == xv);
        assert(all.skip(taken + 1) =~= all.skip(taken as int).drop_first());
        let mut k: usize = 0;
        while k < out.len() && io_row_before(&out[k], &x)
            invariant
                k <= out@.len(),
                xv == (x.device@, x.read_bps, x.write_bps),
                forall|j: int| 0 <= j < k ==> io_row_first(#[trigger] io_row_views(out@)[j], xv),
            decreases out.len() - k,
        {
            k = k + 1;
        }
        let ghost ov = io_row_views(out@);
        proof {
            if k < out.len() {
                crate::order::lemma_load_first_total((ov[k as int].0, ov[k as int].1 + ov[k as int].2), (xv.0, xv.1 + xv.2));
                assert forall|j: int| k <= j < ov.len() implies io_row_first(xv, #[trigger] ov[j]) by {
                    if j > k {
                        assert(io_row_first(ov[k as int], ov[j]));
                        crate::order::lemma_load_first_transitive(
                            (xv.0, xv.1 + xv.2),
                            (ov[k as int].0, ov[k as int].1 + ov[k as int].2),
                            (ov[j].0, ov[j].1 + ov[j].2),
                        );
                    }
                }
            }
        }
        out.insert(k, x);
        proof {
            assert(io_row_views(out@) =~= ov.insert(k as int, xv));
            let nv = io_row_views(out@);
            assert forall|i: int, j: int| 0 <= i < j < nv.len() implies io_row_first(#[trigger] nv[i], #[trigger] nv[j]) by {
                if j < k {
                    assert(nv[i] == ov[i] && nv[j] == ov[j]);
                } else if j == k {
                    assert(nv[i] == ov[i]);
                } else if i < k {
                    assert(nv[i] == ov[i] && nv[j] == ov[j - 1]);
                    crate::order::lemma_load_first_transitive(
                        (ov[i].0, ov[i].1 + ov[i].2),
                        (xv.0, xv.1 + xv.2),
                        (ov[j - 1].0, ov[j - 1].1 + ov[j - 1].2),
                    );
                } else if i == k {
                    assert(nv[j] == ov[j - 1]);
                } else {
                    assert(nv[i] == ov[i - 1] && nv[j] == ov[j - 1]);
                }
            }
            vstd::seq_lib::to_multiset_insert(ov, k as int, xv);
            assert(all.take(taken + 1) =~= all.take(taken as int).push(xv));
            vstd::seq_lib::to_multiset_build(all.take(taken as int), xv);
            assert(io_row_views(out@).to_multiset() =~= all.take(taken + 1).to_multiset());
        }
        taken = taken + 1;
    }
    proof {
        assert(all.take(n as int) =~= all);
    }
    out
}

} // verus!
