//! The host: distribution, memory and CPU facts from `/proc` texts, logins, SSH sessions,
//! firewall and security modules, GPUs and temperature sensors.
use crate::collectors::netstat::{args1, command_exists, first_n, succeeded};
use crate::collectors::provider::{
    command_line, lemma_lines_since, lines_since, ran_lines, lemma_same_host_trans, same_host, CommandOutputView, CommandProvider, answer_view, str_views};
use crate::text::{
    chars_of, contains_str, lowercase, lowercase_of, copy_range, equals_str, find_char_from, lines, lower_char, next_index_of,
    parse_u64, parse_u64_spec, push_chars, push_str, spec_contains, spec_lines, spec_lower,
    spec_starts_with, spec_strip_prefix, spec_trim, spec_trim_char, spec_words, starts_with_str,
    string_of, string_views, strip_prefix, to_lower, trim, trim_char, views, words,
};
use vstd::prelude::*;

verus! {

/// Minor and major page faults since boot.
#[derive(Clone, Copy, Debug, PartialEq, Eq, Structural)]
pub struct MemoryPageFaultInfo {
    pub minor: u64,
    pub major: u64,
}

/// Hardware, login and security facts of the host, one text line per item.
pub struct HardwareInfo {
    pub cpu_model: String,
    pub cpu_arch: String,
    pub cpu_cache: String,
    pub temperatures: Vec<String>,
    pub gpu_info: Vec<String>,
    pub battery_info: Vec<String>,
    pub login_users: Vec<String>,
    pub login_history: Vec<String>,
    pub ssh_sessions: Vec<String>,
    pub failed_logins: Vec<String>,
    pub firewall_status: Vec<String>,
    pub security_modules: Vec<String>,
}

/// A process using a GPU.
pub struct GpuProcessRow {
    pub gpu_index: Option<u32>,
    pub pid: u32,
    pub process_name: String,
    pub used_memory_mib: Option<u64>,
}

pub struct GpuProcessView {
    pub gpu_index: Option<u32>,
    pub pid: u32,
    pub process_name: Seq<char>,
    pub used_memory_mib: Option<u64>,
}

impl View for GpuProcessRow {
    type V = GpuProcessView;

    open spec fn view(&self) -> GpuProcessView {
        GpuProcessView {
            gpu_index: self.gpu_index,
            pid: self.pid,
            process_name: self.process_name@,
            used_memory_mib: self.used_memory_mib,
        }
    }
}

/// Which lines of a tool's output a collector keeps.
#[derive(Clone, Copy, Debug, PartialEq, Eq, Structural)]
pub enum LineFilter {
    /// Every line.
    All,
    /// Non-blank lines other than the `wtmp begins` trailer of `last`.
    LoginRecord,
    /// Established connections on port 22.
    SshFlow,
    /// `who` lines of remote terminals.
    RemoteTerminal,
    /// Failed passwords, authentication failures and invalid users (ASCII case ignored).
    FailedAuth,
    /// `rocm-smi` lines about a GPU or card.
    GpuLine,
    /// `lspci` lines of display controllers.
    DisplayController,
    /// Non-blank sensor lines with a Celsius reading.
    Celsius,
}

/// Whether a line passes a filter.
pub open spec fn keeps_line(f: LineFilter, l: Seq<char>) -> bool {
    match f {
        LineFilter::All => true,
        LineFilter::LoginRecord => spec_trim(l).len() > 0 && !spec_contains(l, "wtmp begins"@),
        LineFilter::SshFlow => spec_contains(l, "ESTAB"@) && spec_contains(l, ":22"@),
        LineFilter::RemoteTerminal => spec_contains(l, "pts/"@) && spec_contains(l, "("@),
        LineFilter::FailedAuth => spec_contains(spec_lower(l), "failed password"@) || spec_contains(
            spec_lower(l),
            "authentication failure"@,
        ) || spec_contains(spec_lower(l), "invalid user"@),
        LineFilter::GpuLine => spec_contains(l, "GPU"@) || spec_contains(l, "card"@),
        LineFilter::DisplayController => spec_contains(l, "VGA compatible controller"@) || spec_contains(
            l,
            "3D controller"@,
        ),
        LineFilter::Celsius => spec_contains(spec_trim(l), "°C"@) && spec_trim(l).len() > 0,
    }
}

fn keeps_line_exec(f: LineFilter, l: &[char]) -> (b: bool)
    ensures
        b == keeps_line(f, l@),
{
    match f {
        LineFilter::All => true,
        LineFilter::LoginRecord => trim(l).len() > 0 && !contains_str(l, "wtmp begins"),
        LineFilter::SshFlow => contains_str(l, "ESTAB") && contains_str(l, ":22"),
        LineFilter::RemoteTerminal => contains_str(l, "pts/") && contains_str(l, "("),
        LineFilter::FailedAuth => {
            let lower = to_lower(l);
            contains_str(&lower, "failed password") || contains_str(&lower, "authentication failure")
                || contains_str(&lower, "invalid user")
        },
        LineFilter::GpuLine => contains_str(l, "GPU") || contains_str(l, "card"),
        LineFilter::DisplayController => contains_str(l, "VGA compatible controller") || contains_str(
            l,
            "3D controller",
        ),
        LineFilter::Celsius => {
            let t = trim(l);
            contains_str(&t, "°C") && t.len() > 0
        },
    }
}

/// The lines that pass a filter, in order.
pub open spec fn kept(ls: Seq<Seq<char>>, f: LineFilter) -> Seq<Seq<char>>
    decreases ls.len(),
{
    if ls.len() == 0 {
        Seq::empty()
    } else {
        let p = kept(ls.drop_last(), f);
        if keeps_line(f, ls.last()) {
            p.push(ls.last())
        } else {
            p
        }
    }
}

pub open spec fn trimmed_all(ls: Seq<Seq<char>>) -> Seq<Seq<char>> {
    ls.map_values(|l: Seq<char>| spec_trim(l))
}

/// The first `n` lines of a text that pass a filter, trimmed.
pub open spec fn selected_lines(text: Seq<char>, f: LineFilter, n: nat) -> Seq<Seq<char>> {
    trimmed_all(first_n(kept(spec_lines(text), f), n))
}

/// The last `n` lines of a text that pass a filter, newest first, trimmed.
pub open spec fn latest_lines(text: Seq<char>, f: LineFilter, n: nat) -> Seq<Seq<char>> {
    trimmed_all(first_n(kept(spec_lines(text), f).reverse(), n))
}

fn kept_lines(text: &str, f: LineFilter) -> (r: Vec<Vec<char>>)
    ensures
        views(r@) == kept(spec_lines(text@), f),
{
    let ls = lines(&chars_of(text));
    let mut r: Vec<Vec<char>> = Vec::new();
    let mut i: usize = 0;
    while i < ls.len()
        invariant
            i <= ls@.len(),
            views(ls@) == spec_lines(text@),
            views(r@) == kept(views(ls@).take(i as int), f),
        decreases ls.len() - i,
    {
        assert(views(ls@).take(i + 1).drop_last() =~= views(ls@).take(i as int));
        assert(views(ls@).take(i + 1).last() == ls@[i as int]@);
        let ghost before = views(r@);
        if keeps_line_exec(f, &ls[i]) {
            let l = copy_range(&ls[i], 0, ls[i].len());
            assert(l@ =~= ls@[i as int]@);
            r.push(l);
            assert(views(r@) =~= before.push(l@));
        }
        i = i + 1;
    }
    assert(views(ls@).take(ls@.len() as int) =~= views(ls@));
    r
}

/// The first `n` lines of a text that pass a filter, trimmed.
pub fn select_lines(text: &str, f: LineFilter, n: usize) -> (r: Vec<String>)
    ensures
        string_views(r@) == selected_lines(text@, f, n as nat),
{
    let k = kept_lines(text, f);
    let mut r: Vec<String> = Vec::new();
    let mut i: usize = 0;
    while i < k.len() && i < n
        invariant
            i <= k@.len(),
            i <= n,
            string_views(r@) == trimmed_all(views(k@).take(i as int)),
        decreases k.len() - i,
    {
        let ghost before = string_views(r@);
        let s = string_of(&trim(&k[i]));
        r.push(s);
        assert(string_views(r@) =~= before.push(s@));
        assert(views(k@).take(i + 1) =~= views(k@).take(i as int).push(k@[i as int]@));
        assert(trimmed_all(views(k@).take(i + 1)) =~= trimmed_all(views(k@).take(i as int)).push(spec_trim(k@[i as int]@)));
        i = i + 1;
    }
    assert(first_n(views(k@), n as nat) =~= views(k@).take(i as int));
    r
}

/// The last `n` lines of a text that pass a filter, newest first, trimmed.
pub fn select_latest_lines(text: &str, f: LineFilter, n: usize) -> (r: Vec<String>)
    ensures
        string_views(r@) == latest_lines(text@, f, n as nat),
{
    let k = kept_lines(text, f);
    let ghost rev = views(k@).reverse();
    let mut r: Vec<String> = Vec::new();
    let mut i: usize = 0;
    while i < k.len() && i < n
        invariant
            i <= k@.len(),
            i <= n,
            rev == views(k@).reverse(),
            string_views(r@) == trimmed_all(rev.take(i as int)),
        decreases k.len() - i,
    {
        let ghost before = string_views(r@);
        let j = k.len() - 1 - i;
        let s = string_of(&trim(&k[j]));
        r.push(s);
        assert(rev[i as int] == k@[j as int]@);
        assert(string_views(r@) =~= before.push(s@));
        assert(rev.take(i + 1) =~= rev.take(i as int).push(rev[i as int]));
        assert(trimmed_all(rev.take(i + 1)) =~= trimmed_all(rev.take(i as int)).push(spec_trim(rev[i as int])));
        i = i + 1;
    }
    assert(first_n(rev, n as nat) =~= rev.take(i as int));
    r
}

/// The distribution name from the text of `/etc/os-release`: the first `PRETTY_NAME=`
/// value, without surrounding quotes.
pub open spec fn distribution_in(ls: Seq<Seq<char>>) -> Option<Seq<char>>
    decreases ls.len(),
{
    if ls.len() == 0 {
        None
    } else {
        match spec_strip_prefix(ls[0], "PRETTY_NAME="@) {
            Some(v) => Some(spec_trim_char(v, '"')),
            None => distribution_in(ls.drop_first()),
        }
    }
}

/// The distribution name from the text of `/etc/os-release` (see `distribution_in`).
pub fn linux_distribution(os_release: &str) -> (r: Option<String>)
    ensures
        match r {
            Some(s) => distribution_in(spec_lines(os_release@)) == Some(s@),
            None => distribution_in(spec_lines(os_release@)) is None,
        },
{
    let ls = lines(&chars_of(os_release));
    let mut i: usize = 0;
    assert(views(ls@).skip(0) =~= views(ls@));
    while i < ls.len()
        invariant
            i <= ls@.len(),
            views(ls@) == spec_lines(os_release@),
            distribution_in(spec_lines(os_release@)) == distribution_in(views(ls@).skip(i as int)),
        decreases ls.len() - i,
    {
        assert(views(ls@).skip(i as int)[0] == ls@[i as int]@);
        assert(views(ls@).skip(i as int).drop_first() =~= views(ls@).skip(i + 1));
        match strip_prefix(&ls[i], "PRETTY_NAME=") {
            Some(v) => {
                return Some(string_of(&trim_char(&v, '"')));
            },
            None => {},
        }
        i = i + 1;
    }
    None
}

/// The `Cached:` kilobytes of the text of `/proc/meminfo`: the first such line whose first
/// word reads as a number.
pub open spec fn cached_kb_in(ls: Seq<Seq<char>>) -> Option<u64>
    decreases ls.len(),
{
    if ls.len() == 0 {
        None
    } else {
        match spec_strip_prefix(ls[0], "Cached:"@) {
            Some(v) => if spec_words(v).len() > 0 && parse_u64_spec(spec_words(v)[0]) is Some {
                parse_u64_spec(spec_words(v)[0])
            } else {
                cached_kb_in(ls.drop_first())
            },
            None => cached_kb_in(ls.drop_first()),
        }
    }
}

/// Page-cache bytes from the text of `/proc/meminfo` (see `cached_kb_in`).
pub fn linux_cached_memory(meminfo: &str) -> (r: Option<u64>)
    requires
        cached_kb_in(spec_lines(meminfo@)) matches Some(kb) ==> kb * 1024 <= u64::MAX,
    ensures
        r == match cached_kb_in(spec_lines(meminfo@)) {
            Some(kb) => Some((kb * 1024) as u64),
            None => None,
        },
{
    let ls = lines(&chars_of(meminfo));
    let mut i: usize = 0;
    assert(views(ls@).skip(0) =~= views(ls@));
    while i < ls.len()
        invariant
            i <= ls@.len(),
            views(ls@) == spec_lines(meminfo@),
            cached_kb_in(spec_lines(meminfo@)) == cached_kb_in(views(ls@).skip(i as int)),
            cached_kb_in(spec_lines(meminfo@)) matches Some(kb) ==> kb * 1024 <= u64::MAX,
        decreases ls.len() - i,
    {
        assert(views(ls@).skip(i as int)[0] == ls@[i as int]@);
        assert(views(ls@).skip(i as int).drop_first() =~= views(ls@).skip(i + 1));
        match strip_prefix(&ls[i], "Cached:") {
            Some(v) => {
                let ws = words(&v);
                if ws.len() > 0 {
                    match parse_u64(&ws[0]) {
                        Some(kb) => {
                            assert(cached_kb_in(views(ls@).skip(i as int)) == Some(kb));
                            return Some(kb * 1024);
                        },
                        None => {},
                    }
                }
            },
            None => {},
        }
        i = i + 1;
    }
    None
}

/// The value of a `key : value` line of `/proc/cpuinfo`: the first line whose trimmed key
/// is `key` and whose trimmed value is not empty.
pub open spec fn cpuinfo_value_in(ls: Seq<Seq<char>>, key: Seq<char>) -> Option<Seq<char>>
    decreases ls.len(),
{
    if ls.len() == 0 {
        None
    } else {
        let l = ls[0];
        let c = next_index_of(l, 0, ':');
        if c < l.len() && spec_trim(l.subrange(0, c)) == key && spec_trim(l.subrange(c + 1, l.len() as int)).len() > 0 {
            Some(spec_trim(l.subrange(c + 1, l.len() as int)))
        } else {
            cpuinfo_value_in(ls.drop_first(), key)
        }
    }
}

/// The value of a field of `/proc/cpuinfo` (see `cpuinfo_value_in`); the CPU model is
/// `model name`, its cache `cache size`.
pub fn cpuinfo_value(cpuinfo: &str, key: &str) -> (r: Option<String>)
    ensures
        match r {
            Some(s) => cpuinfo_value_in(spec_lines(cpuinfo@), key@) == Some(s@),
            None => cpuinfo_value_in(spec_lines(cpuinfo@), key@) is None,
        },
{
    let ls = lines(&chars_of(cpuinfo));
    let kc = chars_of(key);
    let mut i: usize = 0;
    assert(views(ls@).skip(0) =~= views(ls@));
    while i < ls.len()
        invariant
            i <= ls@.len(),
            kc@ == key@,
            views(ls@) == spec_lines(cpuinfo@),
            cpuinfo_value_in(spec_lines(cpuinfo@), key@) == cpuinfo_value_in(views(ls@).skip(i as int), key@),
        decreases ls.len() - i,
    {
        assert(views(ls@).skip(i as int)[0] == ls@[i as int]@);
        assert(views(ls@).skip(i as int).drop_first() =~= views(ls@).skip(i + 1));
        let l = &ls[i];
        let c = find_char_from(l, 0, ':');
        if c < l.len() {
            let k = trim(&copy_range(l, 0, c));
            let v = trim(&copy_range(l, c + 1, l.len()));
            if crate::text::chars_eq(&k, &kc) && v.len() > 0 {
                return Some(string_of(&v));
            }
        }
        i = i + 1;
    }
    None
}

/// The first value of a `prefix` line that reads (trimmed) as a number.
pub open spec fn prefixed_number_in(ls: Seq<Seq<char>>, prefix: Seq<char>) -> Option<u64>
    decreases ls.len(),
{
    if ls.len() == 0 {
        None
    } else {
        match spec_strip_prefix(ls[0], prefix) {
            Some(v) => if parse_u64_spec(spec_trim(v)) is Some {
                parse_u64_spec(spec_trim(v))
            } else {
                prefixed_number_in(ls.drop_first(), prefix)
            },
            None => prefixed_number_in(ls.drop_first(), prefix),
        }
    }
}

/// Context switches since boot from the text of `/proc/stat`: its `ctxt ` line.
pub fn context_switches(stat: &str) -> (r: Option<u64>)
    ensures
        r == prefixed_number_in(spec_lines(stat@), "ctxt "@),
{
    let ls = lines(&chars_of(stat));
    let mut i: usize = 0;
    assert(views(ls@).skip(0) =~= views(ls@));
    while i < ls.len()
        invariant
            i <= ls@.len(),
            views(ls@) == spec_lines(stat@),
            prefixed_number_in(spec_lines(stat@), "ctxt "@) == prefixed_number_in(views(ls@).skip(i as int), "ctxt "@),
        decreases ls.len() - i,
    {
        assert(views(ls@).skip(i as int)[0] == ls@[i as int]@);
        assert(views(ls@).skip(i as int).drop_first() =~= views(ls@).skip(i + 1));
        match strip_prefix(&ls[i], "ctxt ") {
            Some(v) => match parse_u64(&trim(&v)) {
                Some(n) => {
                    return Some(n);
                },
                None => {},
            },
            None => {},
        }
        i = i + 1;
    }
    None
}

/// What the last `pgfault ` and `pgmajfault ` lines of `/proc/vmstat` give (a line that
/// does not read as a number forgets the value).
pub open spec fn faults_in(ls: Seq<Seq<char>>) -> (Option<u64>, Option<u64>)
    decreases ls.len(),
{
    if ls.len() == 0 {
        (None, None)
    } else {
        let p = faults_in(ls.drop_last());
        let l = ls.last();
        match spec_strip_prefix(l, "pgfault "@) {
            Some(v) => (parse_u64_spec(spec_trim(v)), p.1),
            None => match spec_strip_prefix(l, "pgmajfault "@) {
                Some(v) => (p.0, parse_u64_spec(spec_trim(v))),
                None => p,
            },
        }
    }
}

/// Page faults from the text of `/proc/vmstat`, when both counters read.
pub fn memory_page_faults(vmstat: &str) -> (r: Option<MemoryPageFaultInfo>)
    ensures
        r == match faults_in(spec_lines(vmstat@)) {
            (Some(minor), Some(major)) => Some(MemoryPageFaultInfo { minor, major }),
            _ => None,
        },
{
    let ls = lines(&chars_of(vmstat));
    let mut minor: Option<u64> = None;
    let mut major: Option<u64> = None;
    let mut i: usize = 0;
    while i < ls.len()
        invariant
            i <= ls@.len(),
            views(ls@) == spec_lines(vmstat@),
            (minor, major) == faults_in(views(ls@).take(i as int)),
        decreases ls.len() - i,
    {
        assert(views(ls@).take(i + 1).drop_last() =~= views(ls@).take(i as int));
        assert(views(ls@).take(i + 1).last() == ls@[i as int]@);
        match strip_prefix(&ls[i], "pgfault ") {
            Some(v) => minor = parse_u64(&trim(&v)),
            None => match strip_prefix(&ls[i], "pgmajfault ") {
                Some(v) => major = parse_u64(&trim(&v)),
                None => {},
            },
        }
        i = i + 1;
    }
    assert(views(ls@).take(ls@.len() as int) =~= views(ls@));
    match (minor, major) {
        (Some(minor), Some(major)) => Some(MemoryPageFaultInfo { minor, major }),
        _ => None,
    }
}

/// The scaling governor from its sysfs text, when not blank.
pub fn cpu_governor(text: &str) -> (r: Option<String>)
    ensures
        match r {
            Some(s) => spec_trim(text@).len() > 0 && s@ == spec_trim(text@),
            None => spec_trim(text@).len() == 0,
        },
{
    let t = trim(&chars_of(text));
    if t.len() > 0 {
        Some(string_of(&t))
    } else {
        None
    }
}

/// The CPU frequency in MHz from a sysfs kHz reading, at least 1.
pub fn frequency_mhz(khz: u64) -> (r: u64)
    ensures
        r == if khz / 1000 > 1 { khz / 1000 } else { 1 },
{
    let m = khz / 1000;
    if m > 1 {
        m
    } else {
        1
    }
}


/// The lines a tool's answer gives: the selected lines of its output when it ran and
/// succeeded, none otherwise.
pub open spec fn tool_lines(a: Result<CommandOutputView, Seq<char>>, f: LineFilter, n: nat) -> Seq<Seq<char>> {
    if succeeded(a) {
        selected_lines(a->Ok_0.stdout, f, n)
    } else {
        Seq::empty()
    }
}

/// Runs a tool and keeps the first `n` lines of its output that pass a filter, trimmed.
pub fn run_selected<P: CommandProvider>(provider: &mut P, bin: &str, args: &[&str], f: LineFilter, n: usize) -> (v: Vec<String>)
    ensures
        same_host(*old(provider), *final(provider)),
        final(provider).ran() == old(provider).ran().push(command_line(bin@, str_views(args@))),
        exists|a| #[trigger] old(provider).answers(bin@, str_views(args@), a) && string_views(v@) == tool_lines(a, f, n as nat),
{
    let r = provider.run(bin, args);
    match r {
        Ok(o) => if o.success {
            select_lines(o.stdout.as_str(), f, n)
        } else {
            let v: Vec<String> = Vec::new();
            assert(string_views(v@) =~= Seq::<Seq<char>>::empty());
            v
        },
        Err(_) => {
            let v: Vec<String> = Vec::new();
            assert(string_views(v@) =~= Seq::<Seq<char>>::empty());
            v
        },
    }
}

/// Whether `which` finds the tool and the tool's answer gives the lines (none when `which`
/// does not find it), after running `lines`: `which`, then the tool only when it was found.
pub open spec fn installed_tool_gives<P: CommandProvider>(
    provider: P,
    bin: Seq<char>,
    args: Seq<Seq<char>>,
    f: LineFilter,
    n: nat,
    v: Seq<Seq<char>>,
    lines: Seq<(Seq<char>, Seq<Seq<char>>)>,
) -> bool {
    exists|w| #[trigger] provider.answers("which"@, args1(bin), w) && if succeeded(w) {
        lines == seq![command_line("which"@, args1(bin)), command_line(bin, args)] && exists|a| #[trigger]
            provider.answers(bin, args, a) && v == tool_lines(a, f, n)
    } else {
        v.len() == 0 && lines == seq![command_line("which"@, args1(bin))]
    }
}

/// Runs a tool when `which` finds it (see `installed_tool_gives`).
pub fn run_installed<P: CommandProvider>(provider: &mut P, bin: &str, args: &[&str], f: LineFilter, n: usize) -> (v: Vec<String>)
    ensures
        ran_lines(*old(provider), *final(provider), lines_since(*old(provider), *final(provider))),
        installed_tool_gives(
            *old(provider),
            bin@,
            str_views(args@),
            f,
            n as nat,
            string_views(v@),
            lines_since(*old(provider), *final(provider)),
        ),
{
    let ghost which = command_line("which"@, args1(bin@));
    if !command_exists(provider, bin) {
        let v: Vec<String> = Vec::new();
        assert(string_views(v@) =~= Seq::<Seq<char>>::empty());
        proof {
            lemma_lines_since(*old(provider), *provider, seq![which]);
        }
        return v;
    }
    let ghost mid = *provider;
    let v = run_selected(provider, bin, args, f, n);
    proof {
        lemma_same_host_trans(*old(provider), mid, *provider);
        lemma_lines_since(*old(provider), *provider, seq![which, command_line(bin@, str_views(args@))]);
    }
    v
}

/// Up to six logged-in users, from `who`.
pub fn collect_logged_in_users<P: CommandProvider>(provider: &mut P) -> (v: Vec<String>)
    ensures
        ran_lines(*old(provider), *final(provider), lines_since(*old(provider), *final(provider))),
        installed_tool_gives(
            *old(provider),
            "who"@,
            Seq::empty(),
            LineFilter::All,
            6,
            string_views(v@),
            lines_since(*old(provider), *final(provider)),
        ),
{
    let args: [&str; 0] = [];
    assert(str_views(args@) =~= Seq::<Seq<char>>::empty());
    run_installed(provider, "who", &args, LineFilter::All, 6)
}

/// Up to six recent logins, from `last -n 6`.
pub fn collect_login_history<P: CommandProvider>(provider: &mut P) -> (v: Vec<String>)
    ensures
        ran_lines(*old(provider), *final(provider), lines_since(*old(provider), *final(provider))),
        installed_tool_gives(
            *old(provider),
            "last"@,
            seq!["-n"@, "6"@],
            LineFilter::LoginRecord,
            6,
            string_views(v@),
            lines_since(*old(provider), *final(provider)),
        ),
{
    let args = ["-n", "6"];
    assert(str_views(args@) =~= seq!["-n"@, "6"@]);
    run_installed(provider, "last", &args, LineFilter::LoginRecord, 6)
}

/// Up to six SSH sessions: established flows on port 22 from `ss -tnp`, or else remote
/// terminals from `who`.
pub fn collect_ssh_sessions<P: CommandProvider>(provider: &mut P) -> (v: Vec<String>)
    ensures
        ran_lines(*old(provider), *final(provider), lines_since(*old(provider), *final(provider))),
        exists|r: Seq<Seq<char>>, first: Seq<(Seq<char>, Seq<Seq<char>>)>| #[trigger]
            installed_tool_gives(*old(provider), "ss"@, seq!["-tnp"@], LineFilter::SshFlow, 6, r, first) && if r.len()
                > 0 {
                string_views(v@) == r && lines_since(*old(provider), *final(provider)) == first
            } else {
                exists|rest: Seq<(Seq<char>, Seq<Seq<char>>)>| #[trigger]
                    installed_tool_gives(
                        *old(provider),
                        "who"@,
                        Seq::empty(),
                        LineFilter::RemoteTerminal,
                        6,
                        string_views(v@),
                        rest,
                    ) && lines_since(*old(provider), *final(provider)) == first + rest
            },
{
    let args = ["-tnp"];
    assert(str_views(args@) =~= seq!["-tnp"@]);
    let rows = run_installed(provider, "ss", &args, LineFilter::SshFlow, 6);
    let ghost mid = *provider;
    let ghost first = lines_since(*old(provider), mid);
    assert(installed_tool_gives(*old(provider), "ss"@, seq!["-tnp"@], LineFilter::SshFlow, 6, string_views(rows@), first));
    if rows.len() > 0 {
        return rows;
    }
    let none: [&str; 0] = [];
    assert(str_views(none@) =~= Seq::<Seq<char>>::empty());
    let v = run_installed(provider, "who", &none, LineFilter::RemoteTerminal, 6);
    proof {
        let rest = lines_since(mid, *provider);
        lemma_same_host_trans(*old(provider), mid, *provider);
        lemma_lines_since(*old(provider), *provider, first + rest);
        assert(installed_tool_gives(*old(provider), "who"@, Seq::empty(), LineFilter::RemoteTerminal, 6, string_views(v@), rest));
    }
    v
}

/// The newest failed-login lines of a text, at most six.
pub open spec fn failed_in(text: Seq<char>) -> Seq<Seq<char>> {
    latest_lines(text, LineFilter::FailedAuth, 6)
}

/// Failed logins from files, when the journal gives none: the auth log's, or else the
/// secure log's.
pub open spec fn failed_from_files(auth_log: Option<Seq<char>>, secure_log: Option<Seq<char>>) -> Seq<Seq<char>> {
    let a = match auth_log {
        Some(t) => failed_in(t),
        None => Seq::empty(),
    };
    if a.len() > 0 {
        a
    } else {
        match secure_log {
            Some(t) => failed_in(t),
            None => Seq::empty(),
        }
    }
}

pub open spec fn opt_str_view(o: Option<&str>) -> Option<Seq<char>> {
    match o {
        Some(s) => Some(s@),
        None => None,
    }
}

pub open spec fn journal_tail_args() -> Seq<Seq<char>> {
    seq!["-n"@, "250"@, "--no-pager"@, "--output=short"@]
}

/// Up to six recent failed logins, newest first: from the last 250 journal lines, or else
/// from the texts of `/var/log/auth.log` and `/var/log/secure` where they could be read.
pub fn collect_failed_logins<P: CommandProvider>(provider: &mut P, auth_log: Option<&str>, secure_log: Option<&str>) -> (v: Vec<String>)
    ensures
        same_host(*old(provider), *final(provider)),
        exists|w| #[trigger] old(provider).answers("which"@, args1("journalctl"@), w) && {
            let which = command_line("which"@, args1("journalctl"@));
            let journal = if succeeded(w) {
                final(provider).ran() == old(provider).ran().push(which).push(
                    command_line("journalctl"@, journal_tail_args()),
                ) && exists|a| #[trigger]
                    old(provider).answers("journalctl"@, journal_tail_args(), a)
                        && (succeeded(a) && failed_in(a->Ok_0.stdout).len() > 0 ==> string_views(v@) == failed_in(a->Ok_0.stdout))
                        && (!(succeeded(a) && failed_in(a->Ok_0.stdout).len() > 0) ==> string_views(v@)
                            == failed_from_files(opt_str_view(auth_log), opt_str_view(secure_log)))
            } else {
                final(provider).ran() == old(provider).ran().push(which) && string_views(v@) == failed_from_files(
                    opt_str_view(auth_log),
                    opt_str_view(secure_log),
                )
            };
            journal
        },
{
    let mut rows: Vec<String> = Vec::new();
    let found = command_exists(provider, "journalctl");
    assert(provider.ran() =~= old(provider).ran().push(command_line("which"@, args1("journalctl"@))));
    if found {
        let args = ["-n", "250", "--no-pager", "--output=short"];
        assert(str_views(args@) =~= journal_tail_args());
        let r = provider.run("journalctl", &args);
        match r {
            Ok(o) => if o.success {
                rows = select_latest_lines(o.stdout.as_str(), LineFilter::FailedAuth, 6);
            },
            Err(_) => {},
        }
    }
    if rows.len() > 0 {
        return rows;
    }
    let a = match auth_log {
        Some(t) => select_latest_lines(t, LineFilter::FailedAuth, 6),
        None => Vec::new(),
    };
    if a.len() > 0 {
        return a;
    }
    match secure_log {
        Some(t) => select_latest_lines(t, LineFilter::FailedAuth, 6),
        None => {
            let v: Vec<String> = Vec::new();
            assert(string_views(v@) =~= Seq::<Seq<char>>::empty());
            v
        },
    }
}

/// Up to six temperature readings from `sensors`.
pub fn sensor_temperatures<P: CommandProvider>(provider: &mut P) -> (v: Vec<String>)
    ensures
        ran_lines(*old(provider), *final(provider), lines_since(*old(provider), *final(provider))),
        installed_tool_gives(
            *old(provider),
            "sensors"@,
            Seq::empty(),
            LineFilter::Celsius,
            6,
            string_views(v@),
            lines_since(*old(provider), *final(provider)),
        ),
{
    let args: [&str; 0] = [];
    assert(str_views(args@) =~= Seq::<Seq<char>>::empty());
    run_installed(provider, "sensors", &args, LineFilter::Celsius, 6)
}

/// A text that tools write for "no value": blank, `-` or `n/a` in any case.
pub open spec fn no_value(t: Seq<char>) -> bool {
    t.len() == 0 || spec_lower(t) == "n/a"@ || t == "-"@
}

fn is_no_value(t: &[char]) -> (b: bool)
    ensures
        b == no_value(t@),
{
    t.len() == 0 || crate::text::chars_eq(&to_lower(t), &chars_of("n/a")) || equals_str(t, "-")
}

/// An optional text column: trimmed, `None` for no value.
pub open spec fn optional_text(v: Seq<char>) -> Option<Seq<char>> {
    if no_value(spec_trim(v)) {
        None
    } else {
        Some(spec_trim(v))
    }
}

/// An optional text column (see `optional_text`).
pub fn parse_optional_text(value: &str) -> (r: Option<String>)
    ensures
        match r {
            Some(s) => optional_text(value@) == Some(s@),
            None => optional_text(value@) is None,
        },
{
    let t = trim(&chars_of(value));
    if is_no_value(&t) {
        None
    } else {
        Some(string_of(&t))
    }
}

/// An optional number column: trimmed, without trailing `MiB` and `W` units.
pub open spec fn optional_number(v: Seq<char>) -> Option<u64> {
    let cleaned = spec_trim(crate::collectors::procs::strip_suffixes(
        crate::collectors::procs::strip_suffixes(spec_trim(v), "MiB"@),
        "W"@,
    ));
    if no_value(cleaned) {
        None
    } else {
        parse_u64_spec(cleaned)
    }
}

/// An optional number column (see `optional_number`).
pub fn parse_optional_u64(value: &str) -> (r: Option<u64>)
    ensures
        r == optional_number(value@),
{
    proof {
        reveal_strlit("MiB");
        reveal_strlit("W");
    }
    let t = trim(&chars_of(value));
    let a = crate::collectors::procs::strip_suffixes_of(&t, "MiB");
    let b = crate::collectors::procs::strip_suffixes_of(&a, "W");
    let cleaned = trim(&b);
    if is_no_value(&cleaned) {
        None
    } else {
        parse_u64(&cleaned)
    }
}


/// What an installed tool gives, if it answers: `None` when `which` does not find it or it
/// fails; else its first `n` lines that pass the filter, trimmed. `lines` are the command
/// lines run: `which`, then the tool only when it was found.
pub open spec fn tool_try<P: CommandProvider>(
    provider: P,
    bin: Seq<char>,
    args: Seq<Seq<char>>,
    f: LineFilter,
    n: nat,
    r: Option<Seq<Seq<char>>>,
    lines: Seq<(Seq<char>, Seq<Seq<char>>)>,
) -> bool {
    exists|w| #[trigger] provider.answers("which"@, args1(bin), w) && if succeeded(w) {
        lines == seq![command_line("which"@, args1(bin)), command_line(bin, args)] && exists|a| #[trigger]
            provider.answers(bin, args, a) && r == if succeeded(a) {
            Some(selected_lines(a->Ok_0.stdout, f, n))
        } else {
            None
        }
    } else {
        r is None && lines == seq![command_line("which"@, args1(bin))]
    }
}

/// What a tool gives on one provider it gives on another that answers alike.
proof fn lemma_tool_try_host<P: CommandProvider>(
    a: P,
    b: P,
    bin: Seq<char>,
    args: Seq<Seq<char>>,
    f: LineFilter,
    n: nat,
    r: Option<Seq<Seq<char>>>,
    lines: Seq<(Seq<char>, Seq<Seq<char>>)>,
)
    requires
        same_host(a, b),
        tool_try(b, bin, args, f, n, r, lines),
    ensures
        tool_try(a, bin, args, f, n, r, lines),
{
    let w = choose|w| #[trigger] b.answers("which"@, args1(bin), w) && if succeeded(w) {
        lines == seq![command_line("which"@, args1(bin)), command_line(bin, args)] && exists|x| #[trigger]
            b.answers(bin, args, x) && r == if succeeded(x) {
            Some(selected_lines(x->Ok_0.stdout, f, n))
        } else {
            None
        }
    } else {
        r is None && lines == seq![command_line("which"@, args1(bin))]
    };
    assert(a.answers("which"@, args1(bin), w));
    if succeeded(w) {
        let x = choose|x| #[trigger] b.answers(bin, args, x) && r == if succeeded(x) {
            Some(selected_lines(x->Ok_0.stdout, f, n))
        } else {
            None
        };
        assert(a.answers(bin, args, x));
    }
}

pub open spec fn opt_string_views(r: Option<Vec<String>>) -> Option<Seq<Seq<char>>> {
    match r {
        Some(v) => Some(string_views(v@)),
        None => None,
    }
}

/// Runs an installed tool (see `tool_try`).
fn try_tool<P: CommandProvider>(provider: &mut P, bin: &str, args: &[&str], f: LineFilter, n: usize) -> (r: Option<Vec<String>>)
    ensures
        ran_lines(*old(provider), *final(provider), lines_since(*old(provider), *final(provider))),
        tool_try(
            *old(provider),
            bin@,
            str_views(args@),
            f,
            n as nat,
            opt_string_views(r),
            lines_since(*old(provider), *final(provider)),
        ),
{
    let ghost which = command_line("which"@, args1(bin@));
    if !command_exists(provider, bin) {
        proof {
            lemma_lines_since(*old(provider), *provider, seq![which]);
        }
        return None;
    }
    let r = provider.run(bin, args);
    proof {
        lemma_lines_since(*old(provider), *provider, seq![which, command_line(bin@, str_views(args@))]);
    }
    match r {
        Ok(o) => if o.success {
            Some(select_lines(o.stdout.as_str(), f, n))
        } else {
            None
        },
        Err(_) => None,
    }
}

/// The firewalld lines: its state, then up to three active zone lines.
pub open spec fn firewalld_lines(state: Seq<char>, zones: Result<CommandOutputView, Seq<char>>) -> Seq<Seq<char>> {
    seq!["firewalld: "@ + spec_trim(state)] + tool_lines(zones, LineFilter::All, 3)
}

/// What firewalld gives, if it answers (see `firewalld_lines`).
/// `lines` are the command lines run: `which`, then the state query only when firewalld
/// was found, then the zones query only when it reports a state.
pub open spec fn firewalld_try<P: CommandProvider>(provider: P, r: Option<Seq<Seq<char>>>, lines: Seq<(Seq<char>, Seq<Seq<char>>)>) -> bool {
    let which = command_line("which"@, args1("firewall-cmd"@));
    let state = command_line("firewall-cmd"@, args1("--state"@));
    exists|w| #[trigger] provider.answers("which"@, args1("firewall-cmd"@), w) && if succeeded(w) {
        exists|a| #[trigger] provider.answers("firewall-cmd"@, args1("--state"@), a) && if succeeded(a) {
            lines == seq![which, state, command_line("firewall-cmd"@, args1("--get-active-zones"@))] && exists|z|
                #[trigger] provider.answers("firewall-cmd"@, args1("--get-active-zones"@), z) && r == Some(
                firewalld_lines(a->Ok_0.stdout, z),
            )
        } else {
            r is None && lines == seq![which, state]
        }
    } else {
        r is None && lines == seq![which]
    }
}

/// What firewalld gives on one provider it gives on another that answers alike.
proof fn lemma_firewalld_try_host<P: CommandProvider>(a: P, b: P, r: Option<Seq<Seq<char>>>, lines: Seq<(Seq<char>, Seq<Seq<char>>)>)
    requires
        same_host(a, b),
        firewalld_try(b, r, lines),
    ensures
        firewalld_try(a, r, lines),
{
    let which = command_line("which"@, args1("firewall-cmd"@));
    let state = command_line("firewall-cmd"@, args1("--state"@));
    let w = choose|w| #[trigger] b.answers("which"@, args1("firewall-cmd"@), w) && if succeeded(w) {
        exists|x| #[trigger] b.answers("firewall-cmd"@, args1("--state"@), x) && if succeeded(x) {
            lines == seq![which, state, command_line("firewall-cmd"@, args1("--get-active-zones"@))] && exists|z|
                #[trigger] b.answers("firewall-cmd"@, args1("--get-active-zones"@), z) && r == Some(
                firewalld_lines(x->Ok_0.stdout, z),
            )
        } else {
            r is None && lines == seq![which, state]
        }
    } else {
        r is None && lines == seq![which]
    };
    assert(a.answers("which"@, args1("firewall-cmd"@), w));
    if succeeded(w) {
        let x = choose|x| #[trigger] b.answers("firewall-cmd"@, args1("--state"@), x) && if succeeded(x) {
            lines == seq![which, state, command_line("firewall-cmd"@, args1("--get-active-zones"@))] && exists|z|
                #[trigger] b.answers("firewall-cmd"@, args1("--get-active-zones"@), z) && r == Some(
                firewalld_lines(x->Ok_0.stdout, z),
            )
        } else {
            r is None && lines == seq![which, state]
        };
        assert(a.answers("firewall-cmd"@, args1("--state"@), x));
        if succeeded(x) {
            let z = choose|z| #[trigger] b.answers("firewall-cmd"@, args1("--get-active-zones"@), z) && r == Some(
                firewalld_lines(x->Ok_0.stdout, z),
            );
            assert(a.answers("firewall-cmd"@, args1("--get-active-zones"@), z));
        }
    }
}


fn try_firewalld<P: CommandProvider>(provider: &mut P) -> (r: Option<Vec<String>>)
    ensures
        ran_lines(*old(provider), *final(provider), lines_since(*old(provider), *final(provider))),
        firewalld_try(*old(provider), opt_string_views(r), lines_since(*old(provider), *final(provider))),
{
    let ghost which = command_line("which"@, args1("firewall-cmd"@));
    let ghost state = command_line("firewall-cmd"@, args1("--state"@));
    if !command_exists(provider, "firewall-cmd") {
        proof {
            lemma_lines_since(*old(provider), *provider, seq![which]);
        }
        return None;
    }
    let args = ["--state"];
    assert(str_views(args@) =~= args1("--state"@));
    let r = provider.run("firewall-cmd", &args);
    proof {
        lemma_lines_since(*old(provider), *provider, seq![which, state]);
    }
    match r {
        Ok(o) => if o.success {
            let mut first: Vec<char> = Vec::new();
            push_str(&mut first, "firewalld: ");
            push_chars(&mut first, &trim(&chars_of(o.stdout.as_str())));
            let mut rows: Vec<String> = Vec::new();
            rows.push(string_of(&first));
            let zargs = ["--get-active-zones"];
            assert(str_views(zargs@) =~= args1("--get-active-zones"@));
            let zones = provider.run("firewall-cmd", &zargs);
            proof {
                lemma_lines_since(
                    *old(provider),
                    *provider,
                    seq![which, state, command_line("firewall-cmd"@, args1("--get-active-zones"@))],
                );
            }
            let ghost head = string_views(rows@);
            let zl = match zones {
                Ok(z) => if z.success {
                    select_lines(z.stdout.as_str(), LineFilter::All, 3)
                } else {
                    Vec::new()
                },
                Err(_) => Vec::new(),
            };
            let mut i: usize = 0;
            while i < zl.len()
                invariant
                    i <= zl@.len(),
                    string_views(rows@) == head + string_views(zl@).take(i as int),
                decreases zl.len() - i,
            {
                let ghost before = string_views(rows@);
                rows.push(string_of(&chars_of(zl[i].as_str())));
                assert(string_views(rows@) =~= before.push(zl@[i as int]@));
                assert(string_views(zl@).take(i + 1) =~= string_views(zl@).take(i as int).push(zl@[i as int]@));
                assert(string_views(rows@) =~= head + string_views(zl@).take(i + 1));
                i = i + 1;
            }
            assert(string_views(zl@).take(zl@.len() as int) =~= string_views(zl@));
            assert(string_views(rows@) =~= firewalld_lines(o.stdout@, answer_view(zones)));
            Some(rows)
        } else {
            None
        },
        Err(_) => None,
    }
}

pub open spec fn ufw_args() -> Seq<Seq<char>> {
    seq!["status"@]
}

pub open spec fn iptables_args() -> Seq<Seq<char>> {
    seq!["-L"@, "INPUT"@, "-n"@]
}

/// Firewall lines: the first four lines of `ufw status`; or else the firewalld state
/// followed by up to three active zone lines; or else the first four lines of the
/// iptables INPUT chain; none when no firewall tool answers.
pub fn collect_firewall_status<P: CommandProvider>(provider: &mut P) -> (v: Vec<String>)
    ensures
        ran_lines(*old(provider), *final(provider), lines_since(*old(provider), *final(provider))),
        exists|r1, l1| #[trigger] tool_try(*old(provider), "ufw"@, ufw_args(), LineFilter::All, 4, r1, l1) && match r1 {
            Some(x) => string_views(v@) == x && lines_since(*old(provider), *final(provider)) == l1,
            None => exists|r2, l2| #[trigger] firewalld_try(*old(provider), r2, l2) && match r2 {
                Some(x) => string_views(v@) == x && lines_since(*old(provider), *final(provider)) == l1 + l2,
                None => exists|r3, l3| #[trigger] tool_try(*old(provider),
                    "iptables"@,
                    iptables_args(),
                    LineFilter::All,
                    4,
                    r3,
                    l3,
                ) && lines_since(*old(provider), *final(provider)) == l1 + l2 + l3 && string_views(v@) == match r3 {
                    Some(x) => x,
                    None => Seq::empty(),
                },
            },
        },
{
    let args = ["status"];
    assert(str_views(args@) =~= ufw_args());
    let r1 = try_tool(provider, "ufw", &args, LineFilter::All, 4);
    let ghost p1 = *provider;
    let ghost l1 = lines_since(*old(provider), p1);
    assert(tool_try(*old(provider), "ufw"@, ufw_args(), LineFilter::All, 4, opt_string_views(r1), l1));
    if let Some(v) = r1 {
        return v;
    }
    let r2 = try_firewalld(provider);
    let ghost p2 = *provider;
    let ghost l2 = lines_since(p1, p2);
    proof {
        lemma_firewalld_try_host(*old(provider), p1, opt_string_views(r2), l2);
        lemma_same_host_trans(*old(provider), p1, p2);
        lemma_lines_since(*old(provider), p2, l1 + l2);
    }
    if let Some(v) = r2 {
        return v;
    }
    let iargs = ["-L", "INPUT", "-n"];
    assert(str_views(iargs@) =~= iptables_args());
    let r3 = try_tool(provider, "iptables", &iargs, LineFilter::All, 4);
    proof {
        let l3 = lines_since(p2, *provider);
        lemma_tool_try_host(*old(provider), p2, "iptables"@, iptables_args(), LineFilter::All, 4, opt_string_views(r3), l3);
        lemma_same_host_trans(*old(provider), p2, *provider);
        lemma_lines_since(*old(provider), *provider, l1 + l2 + l3);
    }
    match r3 {
        Some(v) => v,
        None => {
            let v: Vec<String> = Vec::new();
            assert(string_views(v@) =~= Seq::<Seq<char>>::empty());
            v
        },
    }
}

/// The GPU line `nvidia-smi` gives for a CSV row: name, temperature, utilization, memory
/// and power when it has six columns, else the trimmed row.
pub open spec fn nvidia_line(l: Seq<char>) -> Seq<char> {
    let cols = crate::text::spec_split(l, ',').map_values(|c: Seq<char>| spec_trim(c));
    if cols.len() >= 6 {
        cols[0] + " "@ + cols[1] + "°C util "@ + cols[2] + "% mem "@ + cols[3] + "/"@ + cols[4] + " MiB power "@
            + cols[5] + "W"@
    } else {
        spec_trim(l)
    }
}

fn nvidia_line_of(l: &[char]) -> (r: String)
    ensures
        r@ == nvidia_line(l@),
{
    let parts = crate::text::split_char(l, ',');
    let ghost cols = crate::text::spec_split(l@, ',').map_values(|c: Seq<char>| spec_trim(c));
    if parts.len() >= 6 {
        let mut out: Vec<char> = Vec::new();
        let c0 = trim(&parts[0]);
        let c1 = trim(&parts[1]);
        let c2 = trim(&parts[2]);
        let c3 = trim(&parts[3]);
        let c4 = trim(&parts[4]);
        let c5 = trim(&parts[5]);
        assert(c0@ == cols[0] && c1@ == cols[1] && c2@ == cols[2] && c3@ == cols[3] && c4@ == cols[4] && c5@ == cols[5]);
        push_chars(&mut out, &c0);
        push_str(&mut out, " ");
        push_chars(&mut out, &c1);
        push_str(&mut out, "°C util ");
        push_chars(&mut out, &c2);
        push_str(&mut out, "% mem ");
        push_chars(&mut out, &c3);
        push_str(&mut out, "/");
        push_chars(&mut out, &c4);
        push_str(&mut out, " MiB power ");
        push_chars(&mut out, &c5);
        push_str(&mut out, "W");
        string_of(&out)
    } else {
        string_of(&trim(l))
    }
}

pub open spec fn nvidia_gpu_args() -> Seq<Seq<char>> {
    seq![
        "--query-gpu=name,temperature.gpu,utilization.gpu,memory.used,memory.total,power.draw"@,
        "--format=csv,noheader,nounits"@,
    ]
}

/// What `nvidia-smi` gives, if it answers: one line per GPU, the first four.
pub open spec fn nvidia_try<P: CommandProvider>(provider: P, r: Option<Seq<Seq<char>>>, lines: Seq<(Seq<char>, Seq<Seq<char>>)>) -> bool {
    let which = command_line("which"@, args1("nvidia-smi"@));
    exists|w| #[trigger] provider.answers("which"@, args1("nvidia-smi"@), w) && if succeeded(w) {
        lines == seq![which, command_line("nvidia-smi"@, nvidia_gpu_args())] && exists|a| #[trigger]
            provider.answers("nvidia-smi"@, nvidia_gpu_args(), a) && r == if succeeded(a) {
            Some(first_n(spec_lines(a->Ok_0.stdout), 4).map_values(|l: Seq<char>| nvidia_line(l)))
        } else {
            None
        }
    } else {
        r is None && lines == seq![which]
    }
}

/// What `nvidia-smi` gives on one provider it gives on another that answers alike.
proof fn lemma_nvidia_try_host<P: CommandProvider>(a: P, b: P, r: Option<Seq<Seq<char>>>, lines: Seq<(Seq<char>, Seq<Seq<char>>)>)
    requires
        same_host(a, b),
        nvidia_try(b, r, lines),
    ensures
        nvidia_try(a, r, lines),
{
    let which = command_line("which"@, args1("nvidia-smi"@));
    let w = choose|w| #[trigger] b.answers("which"@, args1("nvidia-smi"@), w) && if succeeded(w) {
        lines == seq![which, command_line("nvidia-smi"@, nvidia_gpu_args())] && exists|x| #[trigger]
            b.answers("nvidia-smi"@, nvidia_gpu_args(), x) && r == if succeeded(x) {
            Some(first_n(spec_lines(x->Ok_0.stdout), 4).map_values(|l: Seq<char>| nvidia_line(l)))
        } else {
            None
        }
    } else {
        r is None && lines == seq![which]
    };
    assert(a.answers("which"@, args1("nvidia-smi"@), w));
    if succeeded(w) {
        let x = choose|x| #[trigger] b.answers("nvidia-smi"@, nvidia_gpu_args(), x) && r == if succeeded(x) {
            Some(first_n(spec_lines(x->Ok_0.stdout), 4).map_values(|l: Seq<char>| nvidia_line(l)))
        } else {
            None
        };
        assert(a.answers("nvidia-smi"@, nvidia_gpu_args(), x));
    }
}


fn try_nvidia<P: CommandProvider>(provider: &mut P) -> (r: Option<Vec<String>>)
    ensures
        ran_lines(*old(provider), *final(provider), lines_since(*old(provider), *final(provider))),
        nvidia_try(*old(provider), opt_string_views(r), lines_since(*old(provider), *final(provider))),
{
    let ghost which = command_line("which"@, args1("nvidia-smi"@));
    if !command_exists(provider, "nvidia-smi") {
        proof {
            lemma_lines_since(*old(provider), *provider, seq![which]);
        }
        return None;
    }
    let args = [
        "--query-gpu=name,temperature.gpu,utilization.gpu,memory.used,memory.total,power.draw",
        "--format=csv,noheader,nounits",
    ];
    assert(str_views(args@) =~= nvidia_gpu_args());
    let r = provider.run("nvidia-smi", &args);
    proof {
        lemma_lines_since(*old(provider), *provider, seq![which, command_line("nvidia-smi"@, nvidia_gpu_args())]);
    }
    match r {
        Ok(o) => if o.success {
            let ls = lines(&chars_of(o.stdout.as_str()));
            let ghost first = first_n(spec_lines(o.stdout@), 4);
            let mut rows: Vec<String> = Vec::new();
            let mut i: usize = 0;
            while i < ls.len() && i < 4
                invariant
                    i <= ls@.len(),
                    i <= 4,
                    views(ls@) == spec_lines(o.stdout@),
                    first == first_n(spec_lines(o.stdout@), 4),
                    string_views(rows@) == views(ls@).take(i as int).map_values(|l: Seq<char>| nvidia_line(l)),
                decreases ls.len() - i,
            {
                let ghost before = string_views(rows@);
                let s = nvidia_line_of(&ls[i]);
                rows.push(s);
                assert(string_views(rows@) =~= before.push(s@));
                assert(views(ls@).take(i + 1) =~= views(ls@).take(i as int).push(ls@[i as int]@));
                assert(views(ls@).take(i + 1).map_values(|l: Seq<char>| nvidia_line(l)) =~= views(ls@).take(
                    i as int,
                ).map_values(|l: Seq<char>| nvidia_line(l)).push(nvidia_line(ls@[i as int]@)));
                i = i + 1;
            }
            assert(first =~= views(ls@).take(i as int));
            Some(rows)
        } else {
            None
        },
        Err(_) => None,
    }
}

pub open spec fn rocm_args() -> Seq<Seq<char>> {
    seq!["--showproductname"@, "--showtemp"@, "--showuse"@, "--showpower"@]
}

/// GPU lines: from `nvidia-smi` (first four GPUs), or else `rocm-smi` (six lines about a
/// GPU or card), or else `lspci` (four display controllers); none when no tool answers.
pub fn collect_gpu_info<P: CommandProvider>(provider: &mut P) -> (v: Vec<String>)
    ensures
        ran_lines(*old(provider), *final(provider), lines_since(*old(provider), *final(provider))),
        exists|r1, l1| #[trigger] nvidia_try(*old(provider), r1, l1) && match r1 {
            Some(x) => string_views(v@) == x && lines_since(*old(provider), *final(provider)) == l1,
            None => exists|r2, l2| #[trigger]
                tool_try(*old(provider), "rocm-smi"@, rocm_args(), LineFilter::GpuLine, 6, r2, l2) && match r2 {
                Some(x) => string_views(v@) == x && lines_since(*old(provider), *final(provider)) == l1 + l2,
                None => exists|r3, l3| #[trigger] tool_try(*old(provider),
                    "lspci"@,
                    Seq::empty(),
                    LineFilter::DisplayController,
                    4,
                    r3,
                    l3,
                ) && lines_since(*old(provider), *final(provider)) == l1 + l2 + l3 && string_views(v@) == match r3 {
                    Some(x) => x,
                    None => Seq::empty(),
                },
            },
        },
{
    let r1 = try_nvidia(provider);
    let ghost p1 = *provider;
    let ghost l1 = lines_since(*old(provider), p1);
    assert(nvidia_try(*old(provider), opt_string_views(r1), l1));
    if let Some(v) = r1 {
        return v;
    }
    let args = ["--showproductname", "--showtemp", "--showuse", "--showpower"];
    assert(str_views(args@) =~= rocm_args());
    let r2 = try_tool(provider, "rocm-smi", &args, LineFilter::GpuLine, 6);
    let ghost p2 = *provider;
    let ghost l2 = lines_since(p1, p2);
    proof {
        lemma_tool_try_host(*old(provider), p1, "rocm-smi"@, rocm_args(), LineFilter::GpuLine, 6, opt_string_views(r2), l2);
        lemma_same_host_trans(*old(provider), p1, p2);
        lemma_lines_since(*old(provider), p2, l1 + l2);
    }
    if let Some(v) = r2 {
        return v;
    }
    let none: [&str; 0] = [];
    assert(str_views(none@) =~= Seq::<Seq<char>>::empty());
    let r3 = try_tool(provider, "lspci", &none, LineFilter::DisplayController, 4);
    proof {
        let l3 = lines_since(p2, *provider);
        lemma_tool_try_host(*old(provider), p2, "lspci"@, Seq::empty(), LineFilter::DisplayController, 4, opt_string_views(r3), l3);
        lemma_same_host_trans(*old(provider), p2, *provider);
        lemma_lines_since(*old(provider), *provider, l1 + l2 + l3);
    }
    match r3 {
        Some(v) => v,
        None => {
            let v: Vec<String> = Vec::new();
            assert(string_views(v@) =~= Seq::<Seq<char>>::empty());
            v
        },
    }
}

/// The SELinux line from the text of `/sys/fs/selinux/enforce` where it could be read.
pub open spec fn selinux_from_file(enforce: Seq<char>) -> Seq<char> {
    if spec_trim(enforce) == "1"@ {
        "SELinux: enforcing"@
    } else {
        "SELinux: permissive"@
    }
}

/// Whether a text is `y` in either case, trimmed.
pub open spec fn is_yes(v: Seq<char>) -> bool {
    spec_lower(spec_trim(v)) == "y"@
}

/// The AppArmor line from the text of its `enabled` parameter and, where it could be read,
/// of its profile list.
pub open spec fn apparmor_from_files(enabled: Seq<char>, profiles: Option<Seq<char>>) -> Seq<char> {
    if is_yes(enabled) {
        "AppArmor: enabled ("@ + crate::text::spec_decimal(
            match profiles {
                Some(p) => spec_lines(p).len(),
                None => 0,
            },
        ) + " profiles)"@
    } else {
        "AppArmor: disabled"@
    }
}

/// The SELinux line: its mode from the sysfs file when it could be read; or else what
/// `getenforce` prints; "SELinux: unavailable" when neither answers.
pub open spec fn selinux_line<P: CommandProvider>(provider: P, enforce: Option<Seq<char>>, line: Seq<char>) -> bool {
    match enforce {
        Some(e) => line == selinux_from_file(e),
        None => exists|w| #[trigger] provider.answers("which"@, args1("getenforce"@), w) && if succeeded(w) {
            exists|a| #[trigger] provider.answers("getenforce"@, Seq::empty(), a) && line == if succeeded(a) {
                "SELinux: "@ + spec_trim(a->Ok_0.stdout)
            } else {
                "SELinux: unavailable"@
            }
        } else {
            line == "SELinux: unavailable"@
        },
    }
}

/// The first line that tells how many AppArmor profiles are loaded.
pub open spec fn loaded_profiles_line(ls: Seq<Seq<char>>) -> Option<Seq<char>>
    decreases ls.len(),
{
    if ls.len() == 0 {
        None
    } else if spec_contains(ls[0], "profiles are loaded"@) {
        Some(ls[0])
    } else {
        loaded_profiles_line(ls.drop_first())
    }
}

/// The AppArmor line: its state from the sysfs files when they could be read; or else the
/// `aa-status` line about loaded profiles; "AppArmor: unavailable" when neither answers.
pub open spec fn apparmor_line<P: CommandProvider>(
    provider: P,
    enabled: Option<Seq<char>>,
    profiles: Option<Seq<char>>,
    line: Seq<char>,
) -> bool {
    match enabled {
        Some(e) => line == apparmor_from_files(e, profiles),
        None => exists|w| #[trigger] provider.answers("which"@, args1("aa-status"@), w) && if succeeded(w) {
            exists|a| #[trigger] provider.answers("aa-status"@, Seq::empty(), a) && line == if succeeded(a) {
                match loaded_profiles_line(spec_lines(a->Ok_0.stdout)) {
                    Some(l) => "AppArmor: "@ + spec_trim(l),
                    None => "AppArmor: unavailable"@,
                }
            } else {
                "AppArmor: unavailable"@
            }
        } else {
            line == "AppArmor: unavailable"@
        },
    }
}

fn selinux_status<P: CommandProvider>(provider: &mut P, selinux_enforce: Option<&str>) -> (line: String)
    ensures
        same_host(*old(provider), *final(provider)),
        selinux_line(*old(provider), opt_str_view(selinux_enforce), line@),
{
    match selinux_enforce {
        Some(e) => {
            if equals_str(&trim(&chars_of(e)), "1") {
                string_of(&chars_of("SELinux: enforcing"))
            } else {
                string_of(&chars_of("SELinux: permissive"))
            }
        },
        None => {
            if !command_exists(provider, "getenforce") {
                return string_of(&chars_of("SELinux: unavailable"));
            }
            let none: [&str; 0] = [];
            assert(str_views(none@) =~= Seq::<Seq<char>>::empty());
            match provider.run("getenforce", &none) {
                Ok(o) => if o.success {
                    let mut out: Vec<char> = Vec::new();
                    push_str(&mut out, "SELinux: ");
                    push_chars(&mut out, &trim(&chars_of(o.stdout.as_str())));
                    string_of(&out)
                } else {
                    string_of(&chars_of("SELinux: unavailable"))
                },
                Err(_) => string_of(&chars_of("SELinux: unavailable")),
            }
        },
    }
}

fn loaded_profiles_of(text: &str) -> (r: Option<Vec<char>>)
    ensures
        match r {
            Some(l) => loaded_profiles_line(spec_lines(text@)) == Some(l@),
            None => loaded_profiles_line(spec_lines(text@)) is None,
        },
{
    let ls = lines(&chars_of(text));
    let ghost lv = views(ls@);
    let mut i: usize = 0;
    assert(lv.skip(0) =~= lv);
    while i < ls.len()
        invariant
            i <= ls@.len(),
            lv == views(ls@),
            lv == spec_lines(text@),
            loaded_profiles_line(lv) == loaded_profiles_line(lv.skip(i as int)),
        decreases ls.len() - i,
    {
        assert(lv.skip(i as int)[0] == ls@[i as int]@);
        assert(lv.skip(i as int).drop_first() =~= lv.skip(i + 1));
        if contains_str(&ls[i], "profiles are loaded") {
            return Some(copy_range(&ls[i], 0, ls[i].len()));
        }
        i = i + 1;
    }
    None
}

fn apparmor_status<P: CommandProvider>(provider: &mut P, apparmor_enabled: Option<&str>, apparmor_profiles: Option<&str>) -> (line: String)
    ensures
        same_host(*old(provider), *final(provider)),
        apparmor_line(*old(provider), opt_str_view(apparmor_enabled), opt_str_view(apparmor_profiles), line@),
{
    match apparmor_enabled {
        Some(e) => {
            if crate::text::chars_eq(&to_lower(&trim(&chars_of(e))), &chars_of("y")) {
                let n = match apparmor_profiles {
                    Some(p) => lines(&chars_of(p)).len(),
                    None => 0,
                };
                let mut out: Vec<char> = Vec::new();
                push_str(&mut out, "AppArmor: enabled (");
                crate::text::push_decimal(&mut out, n as u64);
                push_str(&mut out, " profiles)");
                string_of(&out)
            } else {
                string_of(&chars_of("AppArmor: disabled"))
            }
        },
        None => {
            if !command_exists(provider, "aa-status") {
                return string_of(&chars_of("AppArmor: unavailable"));
            }
            let none: [&str; 0] = [];
            assert(str_views(none@) =~= Seq::<Seq<char>>::empty());
            match provider.run("aa-status", &none) {
                Ok(o) => if o.success {
                    match loaded_profiles_of(o.stdout.as_str()) {
                        Some(l) => {
                            let mut out: Vec<char> = Vec::new();
                            push_str(&mut out, "AppArmor: ");
                            push_chars(&mut out, &trim(&l));
                            string_of(&out)
                        },
                        None => string_of(&chars_of("AppArmor: unavailable")),
                    }
                } else {
                    string_of(&chars_of("AppArmor: unavailable"))
                },
                Err(_) => string_of(&chars_of("AppArmor: unavailable")),
            }
        },
    }
}

/// The security module lines: SELinux's, then AppArmor's (see `selinux_line` and
/// `apparmor_line`).
pub fn collect_security_modules<P: CommandProvider>(
    provider: &mut P,
    selinux_enforce: Option<&str>,
    apparmor_enabled: Option<&str>,
    apparmor_profiles: Option<&str>,
) -> (v: Vec<String>)
    ensures
        same_host(*old(provider), *final(provider)),
        v@.len() == 2,
        selinux_line(*old(provider), opt_str_view(selinux_enforce), v@[0]@),
        apparmor_line(*old(provider), opt_str_view(apparmor_enabled), opt_str_view(apparmor_profiles), v@[1]@),
{
    let selinux = selinux_status(provider, selinux_enforce);
    let apparmor = apparmor_status(provider, apparmor_enabled, apparmor_profiles);
    let mut v: Vec<String> = Vec::new();
    v.push(selinux);
    v.push(apparmor);
    v
}

/// The CSV columns of an `nvidia-smi` row, trimmed.
pub open spec fn csv_cols(l: Seq<char>) -> Seq<Seq<char>> {
    crate::text::spec_split(l, ',').map_values(|c: Seq<char>| spec_trim(c))
}

fn csv_cols_of(l: &[char]) -> (r: Vec<Vec<char>>)
    ensures
        views(r@) == csv_cols(l@),
{
    let parts = crate::text::split_char(l, ',');
    let mut r: Vec<Vec<char>> = Vec::new();
    let mut i: usize = 0;
    while i < parts.len()
        invariant
            i <= parts@.len(),
            views(r@) == views(parts@).take(i as int).map_values(|c: Seq<char>| spec_trim(c)),
        decreases parts.len() - i,
    {
        let ghost before = views(r@);
        let t = trim(&parts[i]);
        r.push(t);
        assert(views(r@) =~= before.push(t@));
        assert(views(parts@).take(i + 1) =~= views(parts@).take(i as int).push(parts@[i as int]@));
        assert(views(parts@).take(i + 1).map_values(|c: Seq<char>| spec_trim(c)) =~= views(parts@).take(
            i as int,
        ).map_values(|c: Seq<char>| spec_trim(c)).push(spec_trim(parts@[i as int]@)));
        i = i + 1;
    }
    assert(views(parts@).take(parts@.len() as int) =~= views(parts@));
    r
}

/// The GPU a device UUID names, after more `nvidia-smi --query-gpu` rows: rows with nine
/// columns record their UUID (when given) with their index (0 where it does not read); a
/// later row for the same UUID wins.
pub open spec fn uuid_indexes(ls: Seq<Seq<char>>) -> Map<Seq<char>, u32>
    decreases ls.len(),
{
    if ls.len() == 0 {
        Map::empty()
    } else {
        let m = uuid_indexes(ls.drop_last());
        let cols = csv_cols(ls.last());
        if cols.len() >= 9 && optional_text(cols[1]) is Some {
            m.insert(
                optional_text(cols[1])->0,
                match crate::text::parse_u32_spec(cols[0]) {
                    Some(i) => i,
                    None => 0,
                },
            )
        } else {
            m
        }
    }
}

pub open spec fn index_map(v: Seq<(String, u32)>) -> Map<Seq<char>, u32>
    decreases v.len(),
{
    if v.len() == 0 {
        Map::empty()
    } else {
        index_map(v.drop_last()).insert(v.last().0@, v.last().1)
    }
}

/// The UUID-to-index table of an `nvidia-smi --query-gpu` output (see `uuid_indexes`).
pub fn gpu_uuid_indexes(text: &str) -> (r: Vec<(String, u32)>)
    ensures
        index_map(r@) == uuid_indexes(spec_lines(text@)),
{
    let ls = lines(&chars_of(text));
    let mut r: Vec<(String, u32)> = Vec::new();
    let mut i: usize = 0;
    while i < ls.len()
        invariant
            i <= ls@.len(),
            views(ls@) == spec_lines(text@),
            index_map(r@) == uuid_indexes(views(ls@).take(i as int)),
        decreases ls.len() - i,
    {
        assert(views(ls@).take(i + 1).drop_last() =~= views(ls@).take(i as int));
        assert(views(ls@).take(i + 1).last() == ls@[i as int]@);
        let cols = csv_cols_of(&ls[i]);
        if cols.len() >= 9 {
            let uuid = parse_optional_text(string_of(&cols[1]).as_str());
            match uuid {
                Some(u) => {
                    let idx = match crate::text::parse_u32(&cols[0]) {
                        Some(x) => x,
                        None => 0,
                    };
                    let ghost before = r@;
                    r.push((u, idx));
                    assert(r@.drop_last() =~= before);
                },
                None => {},
            }
        }
        i = i + 1;
    }
    assert(views(ls@).take(ls@.len() as int) =~= views(ls@));
    r
}

/// The GPU process an `nvidia-smi --query-compute-apps` row gives: rows with fewer than
/// four columns or without a PID are left out; the GPU is found by UUID, the name is "-"
/// when not given.
pub open spec fn compute_app_row(l: Seq<char>, ids: Map<Seq<char>, u32>) -> Option<GpuProcessView> {
    let cols = csv_cols(l);
    if cols.len() < 4 {
        None
    } else {
        let pid: u32 = match crate::text::parse_u32_spec(cols[1]) {
            Some(p) => p,
            None => 0,
        };
        if pid == 0 {
            None
        } else {
            Some(
                GpuProcessView {
                    gpu_index: if ids.dom().contains(cols[0]) {
                        Some(ids[cols[0]])
                    } else {
                        None
                    },
                    pid,
                    process_name: match optional_text(cols[2]) {
                        Some(n) => n,
                        None => "-"@,
                    },
                    used_memory_mib: optional_number(cols[3]),
                },
            )
        }
    }
}

pub open spec fn compute_app_rows(ls: Seq<Seq<char>>, ids: Map<Seq<char>, u32>) -> Seq<GpuProcessView>
    decreases ls.len(),
{
    if ls.len() == 0 {
        Seq::empty()
    } else {
        let p = compute_app_rows(ls.drop_last(), ids);
        match compute_app_row(ls.last(), ids) {
            Some(r) => p.push(r),
            None => p,
        }
    }
}

pub open spec fn gpu_process_views(v: Seq<GpuProcessRow>) -> Seq<GpuProcessView> {
    v.map_values(|r: GpuProcessRow| r@)
}

fn lookup_index(ids: &Vec<(String, u32)>, key: &[char]) -> (r: Option<u32>)
    ensures
        r == (if index_map(ids@).dom().contains(key@) {
            Some(index_map(ids@)[key@])
        } else {
            None
        }),
{
    let mut k = ids.len();
    while k > 0
        invariant
            k <= ids@.len(),
            forall|j: int| k <= j < ids@.len() ==> ids@[j].0@ != key@,
        decreases k,
    {
        if equals_str(key, ids[k - 1].0.as_str()) {
            proof {
                lemma_index_map_last_hit(ids@, (k - 1) as int, key@);
            }
            return Some(ids[k - 1].1);
        }
        k = k - 1;
    }
    proof {
        lemma_index_map_miss(ids@, key@);
    }
    None
}

proof fn lemma_index_map_last_hit(v: Seq<(String, u32)>, j: int, key: Seq<char>)
    requires
        0 <= j < v.len(),
        v[j].0@ == key,
        forall|i: int| j < i < v.len() ==> v[i].0@ != key,
    ensures
        index_map(v).dom().contains(key),
        index_map(v)[key] == v[j].1,
    decreases v.len(),
{
    if j < v.len() - 1 {
        lemma_index_map_last_hit(v.drop_last(), j, key);
    }
}

proof fn lemma_index_map_miss(v: Seq<(String, u32)>, key: Seq<char>)
    requires
        forall|i: int| 0 <= i < v.len() ==> v[i].0@ != key,
    ensures
        !index_map(v).dom().contains(key),
    decreases v.len(),
{
    if v.len() > 0 {
        lemma_index_map_miss(v.drop_last(), key);
    }
}

/// The GPU processes of an `nvidia-smi --query-compute-apps` output (see
/// `compute_app_row`), given the UUID-to-index table.
pub fn gpu_processes_from(text: &str, ids: &Vec<(String, u32)>) -> (r: Vec<GpuProcessRow>)
    ensures
        gpu_process_views(r@) == compute_app_rows(spec_lines(text@), index_map(ids@)),
{
    let ls = lines(&chars_of(text));
    let mut r: Vec<GpuProcessRow> = Vec::new();
    let mut i: usize = 0;
    while i < ls.len()
        invariant
            i <= ls@.len(),
            views(ls@) == spec_lines(text@),
            gpu_process_views(r@) == compute_app_rows(views(ls@).take(i as int), index_map(ids@)),
        decreases ls.len() - i,
    {
        assert(views(ls@).take(i + 1).drop_last() =~= views(ls@).take(i as int));
        assert(views(ls@).take(i + 1).last() == ls@[i as int]@);
        let cols = csv_cols_of(&ls[i]);
        if cols.len() >= 4 {
            let pid = match crate::text::parse_u32(&cols[1]) {
                Some(p) => p,
                None => 0,
            };
            if pid != 0 {
                let name = match parse_optional_text(string_of(&cols[2]).as_str()) {
                    Some(n) => n,
                    None => string_of(&chars_of("-")),
                };
                let used = parse_optional_u64(string_of(&cols[3]).as_str());
                let row = GpuProcessRow { gpu_index: lookup_index(ids, &cols[0]), pid, process_name: name, used_memory_mib: used };
                let ghost before = gpu_process_views(r@);
                let ghost rv = row@;
                r.push(row);
                assert(gpu_process_views(r@) =~= before.push(rv));
            }
        }
        i = i + 1;
    }
    assert(views(ls@).take(ls@.len() as int) =~= views(ls@));
    r
}


/// Whether a thermal zone's type names a CPU sensor, case ignored as `to_lowercase` ignores it.
pub open spec fn names_cpu_zone(t: Seq<char>) -> bool {
    let l = lowercase_of(t);
    spec_contains(l, "cpu"@) || spec_contains(l, "pkg"@) || spec_contains(l, "x86_pkg_temp"@) || spec_contains(
        l,
        "tctl"@,
    ) || spec_contains(l, "soc"@)
}

/// The reading of the first zone whose type names a CPU sensor.
pub open spec fn first_cpu_zone(zones: Seq<(Seq<char>, u64)>) -> Option<u64>
    decreases zones.len(),
{
    if zones.len() == 0 {
        None
    } else if names_cpu_zone(zones[0].0) {
        Some(zones[0].1)
    } else {
        first_cpu_zone(zones.drop_first())
    }
}

/// The raw reading that stands for the CPU's temperature, given the thermal zones as (type,
/// reading): the first zone whose type names a CPU sensor, else the first zone.
pub open spec fn cpu_zone_reading(zones: Seq<(Seq<char>, u64)>) -> Option<u64> {
    match first_cpu_zone(zones) {
        Some(v) => Some(v),
        None => if zones.len() > 0 {
            Some(zones[0].1)
        } else {
            None
        },
    }
}

pub open spec fn zone_views(v: Seq<(String, u64)>) -> Seq<(Seq<char>, u64)> {
    v.map_values(|z: (String, u64)| (z.0@, z.1))
}

fn zone_names_cpu(t: &str) -> (b: bool)
    ensures
        b == names_cpu_zone(t@),
{
    let l = chars_of(lowercase(t).as_str());
    contains_str(&l, "cpu") || contains_str(&l, "pkg") || contains_str(&l, "x86_pkg_temp") || contains_str(&l, "tctl")
        || contains_str(&l, "soc")
}

/// The raw reading that stands for the CPU's temperature (see `cpu_zone_reading`).
pub fn cpu_zone_temperature(zones: &Vec<(String, u64)>) -> (r: Option<u64>)
    ensures
        r == cpu_zone_reading(zone_views(zones@)),
{
    let ghost zv = zone_views(zones@);
    assert(zv.skip(0) =~= zv);
    let mut k: usize = 0;
    while k < zones.len()
        invariant
            k <= zones@.len(),
            zv == zone_views(zones@),
            first_cpu_zone(zv) == first_cpu_zone(zv.skip(k as int)),
        decreases zones.len() - k,
    {
        assert(zv[k as int] == (zones@[k as int].0@, zones@[k as int].1));
        assert(zv.skip(k as int)[0] == zv[k as int]);
        assert(zv.skip(k as int).drop_first() =~= zv.skip(k + 1));
        if zone_names_cpu(zones[k].0.as_str()) {
            return Some(zones[k].1);
        }
        k = k + 1;
    }
    assert(zv.skip(zones@.len() as int) =~= Seq::<(Seq<char>, u64)>::empty());
    if zones.len() > 0 {
        Some(zones[0].1)
    } else {
        None
    }
}

/// Whether a `/sys/devices/system/cpu` entry is a CPU: "cpu" and then digits only.
pub open spec fn is_cpu_dir(name: Seq<char>) -> bool {
    name.len() > 3 && name[0] == 'c' && name[1] == 'p' && name[2] == 'u' && forall|k: int|
        3 <= k < name.len() ==> is_digit(#[trigger] name[k])
}

pub open spec fn is_digit(c: char) -> bool {
    '0' <= c && c <= '9'
}

/// Whether a `/sys/devices/system/cpu` entry is a CPU (see `is_cpu_dir`).
pub fn cpu_dir(name: &str) -> (b: bool)
    ensures
        b == is_cpu_dir(name@),
{
    let cs = chars_of(name);
    if cs.len() <= 3 || cs[0] != 'c' || cs[1] != 'p' || cs[2] != 'u' {
        return false;
    }
    let mut k: usize = 3;
    while k < cs.len()
        invariant
            3 <= k <= cs@.len(),
            cs@ == name@,
            forall|m: int| 3 <= m < k ==> is_digit(#[trigger] cs@[m]),
        decreases cs.len() - k,
    {
        if !(cs[k] >= '0' && cs[k] <= '9') {
            return false;
        }
        k = k + 1;
    }
    true
}

/// The sum of the throttle counts read, saturating; none when nothing was read.
pub open spec fn throttle_sum(counts: Seq<Option<u64>>) -> Option<u64>
    decreases counts.len(),
{
    if counts.len() == 0 {
        None
    } else {
        match (throttle_sum(counts.drop_last()), counts.last()) {
            (Some(t), Some(v)) => Some(if t + v > u64::MAX { u64::MAX } else { (t + v) as u64 }),
            (None, Some(v)) => Some(v),
            (t, None) => t,
        }
    }
}

/// The CPUs' thermal throttle count: the saturating sum of the counts that could be read,
/// none when none could.
pub fn throttle_total(counts: &Vec<Option<u64>>) -> (r: Option<u64>)
    ensures
        r == throttle_sum(counts@),
{
    let mut total: Option<u64> = None;
    let mut k: usize = 0;
    while k < counts.len()
        invariant
            k <= counts@.len(),
            total == throttle_sum(counts@.take(k as int)),
        decreases counts.len() - k,
    {
        assert(counts@.take(k + 1).drop_last() =~= counts@.take(k as int));
        match counts[k] {
            Some(v) => {
                total = Some(match total {
                    Some(t) => t.saturating_add(v),
                    None => v,
                });
            },
            None => {},
        }
        k = k + 1;
    }
    assert(counts@.take(counts@.len() as int) =~= counts@);
    total
}

} // verus!
