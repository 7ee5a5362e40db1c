//! The logs tab: level and source filters, error counting, error-spike detection and
//! regex navigation between matching lines.
use crate::app::{LogLevelFilter, LogSourceFilter, Scrolls, UiState, UiStateView, logs_bottom};
use crate::collectors::logs::{
    answer_lines, collect_dmesg_lines, collect_journal_lines, collect_syslog_lines, dmesg_args,
    journal_args, last_n, tail_args,
};
use crate::collectors::provider::{same_host, CommandProvider};
use crate::text::{
    chars_of, contains_str, push_decimal, push_str, spec_contains, spec_decimal, spec_lower,
    spec_trim, string_of, string_views, to_lower, trim,
};
use vstd::prelude::*;

verus! {

/// Whether lower-cased text names an error.
pub open spec fn names_error(lower: Seq<char>) -> bool {
    spec_contains(lower, "error"@) || spec_contains(lower, " err "@) || spec_contains(lower, "failed"@)
        || spec_contains(lower, "panic"@) || spec_contains(lower, "fatal"@) || spec_contains(
        lower,
        "crit"@,
    )
}

/// Whether a log line looks like an error (ASCII case ignored).
pub open spec fn is_error_text(line: Seq<char>) -> bool {
    names_error(spec_lower(line))
}

/// Whether a log line passes a level filter (ASCII case ignored).
pub open spec fn level_matches(line: Seq<char>, level: LogLevelFilter) -> bool {
    match level {
        LogLevelFilter::All => true,
        LogLevelFilter::Error => is_error_text(line),
        LogLevelFilter::Warn => spec_contains(spec_lower(line), "warn"@),
        LogLevelFilter::Info => spec_contains(spec_lower(line), "info"@),
    }
}

fn lower_names_error(lower: &[char]) -> (b: bool)
    ensures
        b == names_error(lower@),
{
    contains_str(lower, "error") || contains_str(lower, " err ") || contains_str(lower, "failed")
        || contains_str(lower, "panic") || contains_str(lower, "fatal") || contains_str(lower, "crit")
}

/// Whether a log line looks like an error; shared by spike detection and the logs tab.
pub fn is_error_line(line: &str) -> (b: bool)
    ensures
        b == is_error_text(line@),
{
    let lower = to_lower(&chars_of(line));
    lower_names_error(&lower)
}

/// Whether a log line passes the level filter.
pub fn logs_matches_level(line: &str, level: LogLevelFilter) -> (b: bool)
    ensures
        b == level_matches(line@, level),
{
    let lower = to_lower(&chars_of(line));
    match level {
        LogLevelFilter::All => true,
        LogLevelFilter::Error => lower_names_error(&lower),
        LogLevelFilter::Warn => contains_str(&lower, "warn"),
        LogLevelFilter::Info => contains_str(&lower, "info"),
    }
}

/// How many lines look like errors.
pub open spec fn error_count(lines: Seq<Seq<char>>) -> nat
    decreases lines.len(),
{
    if lines.len() == 0 {
        0
    } else {
        error_count(lines.drop_last()) + if is_error_text(lines.last()) {
            1nat
        } else {
            0nat
        }
    }
}

/// Counts the lines that look like errors.
pub fn count_error_lines(lines: &Vec<String>) -> (n: usize)
    ensures
        n == error_count(string_views(lines@)),
{
    let mut n: usize = 0;
    let mut i: usize = 0;
    while i < lines.len()
        invariant
            i <= lines@.len(),
            n <= i,
            n == error_count(string_views(lines@).take(i as int)),
        decreases lines.len() - i,
    {
        assert(string_views(lines@).take(i + 1).drop_last() =~= string_views(lines@).take(i as int));
        if is_error_line(lines[i].as_str()) {
            n = n + 1;
        }
        i = i + 1;
    }
    assert(string_views(lines@).take(lines@.len() as int) =~= string_views(lines@));
    n
}

/// How many error counts the history keeps, one per refresh.
pub const HISTORY_CAPACITY: usize = 60;

/// The history after recording one more count: the oldest entry leaves once it is full.
pub open spec fn push_capped(h: Seq<u32>, v: u32) -> Seq<u32> {
    if h.len() >= HISTORY_CAPACITY {
        h.drop_first().push(v)
    } else {
        h.push(v)
    }
}

pub open spec fn sum_counts(h: Seq<u32>) -> nat
    decreases h.len(),
{
    if h.len() == 0 {
        0
    } else {
        sum_counts(h.drop_last()) + h.last() as nat
    }
}

/// Errors counted in the newer half of the history.
pub open spec fn recent_errors(h: Seq<u32>) -> nat {
    sum_counts(h.skip(h.len() - h.len() / 2))
}

/// Errors counted in the half before it.
pub open spec fn older_errors(h: Seq<u32>) -> nat {
    sum_counts(h.subrange(h.len() - 2 * (h.len() / 2), h.len() - h.len() / 2))
}

pub open spec fn spike_text(recent: nat, older: nat, half: nat) -> Seq<char> {
    "⚠ error spike: "@ + spec_decimal(recent) + " errs (recent "@ + spec_decimal(half)
        + ") vs "@ + spec_decimal(older) + " errs (prev "@ + spec_decimal(half) + ")"@
}

/// The spike warning for a history: with at least four counts, the newer half must hold at
/// least twice the errors of the older half and at least three.
pub open spec fn spike_message(h: Seq<u32>) -> Option<Seq<char>> {
    if h.len() < 4 {
        None
    } else {
        let recent = recent_errors(h);
        let older = older_errors(h);
        if recent >= 2 * older && recent >= 3 {
            Some(spike_text(recent, older, h.len() / 2))
        } else {
            None
        }
    }
}

proof fn lemma_sum_bound(h: Seq<u32>)
    ensures
        sum_counts(h) <= h.len() * 0xffff_ffff,
    decreases h.len(),
{
    if h.len() > 0 {
        lemma_sum_bound(h.drop_last());
    }
}

/// Sum of `h[start..end]`.
fn sum_range(h: &Vec<u32>, start: usize, end: usize) -> (r: u64)
    requires
        start <= end <= h@.len() <= 0x1_0000_0000,
    ensures
        r == sum_counts(h@.subrange(start as int, end as int)),
{
    let mut r: u64 = 0;
    let mut i = start;
    while i < end
        invariant
            start <= i <= end <= h@.len() <= 0x1_0000_0000,
            r == sum_counts(h@.subrange(start as int, i as int)),
        decreases end - i,
    {
        proof {
            assert(h@.subrange(start as int, i + 1).drop_last() =~= h@.subrange(start as int, i as int));
            lemma_sum_bound(h@.subrange(start as int, i as int));
            assert((i - start) * 0xffff_ffff <= 0x1_0000_0000 * 0xffff_ffff) by (nonlinear_arith)
                requires
                    i - start <= 0x1_0000_0000,
            ;
        }
        r = r + h[i] as u64;
        i = i + 1;
    }
    r
}

/// The spike warning for a history (see `spike_message`).
pub fn error_spike_of(h: &Vec<u32>) -> (r: Option<String>)
    requires
        h@.len() <= HISTORY_CAPACITY,
    ensures
        match r {
            Some(s) => spike_message(h@) == Some(s@),
            None => spike_message(h@) is None,
        },
{
    let len = h.len();
    if len < 4 {
        return None;
    }
    let half = len / 2;
    let recent = sum_range(h, len - half, len);
    let older = sum_range(h, len - 2 * half, len - half);
    assert(h@.subrange((len - half) as int, len as int) =~= h@.skip(h@.len() - h@.len() / 2));
    proof {
        lemma_sum_bound(h@.subrange((len - 2 * half) as int, (len - half) as int));
    }
    if recent >= 2 * older && recent >= 3 {
        let mut out: Vec<char> = Vec::new();
        push_str(&mut out, "⚠ error spike: ");
        push_decimal(&mut out, recent);
        push_str(&mut out, " errs (recent ");
        push_decimal(&mut out, half as u64);
        push_str(&mut out, ") vs ");
        push_decimal(&mut out, older);
        push_str(&mut out, " errs (prev ");
        push_decimal(&mut out, half as u64);
        push_str(&mut out, ")");
        assert(out@ =~= spike_text(recent as nat, older as nat, half as nat));
        Some(string_of(&out))
    } else {
        None
    }
}

/// Records one more error count, dropping the oldest once the history is full.
pub fn push_error_count(h: &mut Vec<u32>, v: u32)
    requires
        old(h)@.len() <= HISTORY_CAPACITY,
    ensures
        final(h)@ == push_capped(old(h)@, v),
        final(h)@.len() <= HISTORY_CAPACITY,
{
    if h.len() >= HISTORY_CAPACITY {
        h.remove(0);
    }
    h.push(v);
    assert(h@ =~= push_capped(old(h)@, v));
}

/// Errors counted over all three log sources, as stored in the history.
pub open spec fn current_error_count(s: UiStateView) -> u32 {
    (error_count(string_views(s.logs_journal@)) + error_count(string_views(s.logs_syslog@))
        + error_count(string_views(s.logs_dmesg@))) as u32
}

/// State after recording the current error count and recomputing the spike warning.
pub open spec fn spike_state(s: UiStateView) -> UiStateView {
    let h = push_capped(s.error_count_history, current_error_count(s));
    UiStateView { error_count_history: h, error_spike: spike_message(h), ..s }
}

/// State after loading fresh log lines: the error history and spike are updated and an
/// autoscrolling view jumps to the newest line.
pub open spec fn logs_loaded_state(
    s: UiStateView,
    journal: Vec<String>,
    syslog: Vec<String>,
    dmesg: Vec<String>,
) -> UiStateView {
    let t = spike_state(UiStateView { logs_journal: journal, logs_syslog: syslog, logs_dmesg: dmesg, ..s });
    if s.scroll.logs_autoscroll {
        UiStateView { scroll: Scrolls { logs: logs_bottom(), ..s.scroll }, ..t }
    } else {
        t
    }
}

/// The error-count history never grows past its capacity.
pub open spec fn history_bounded(s: UiStateView) -> bool {
    s.error_count_history.len() <= HISTORY_CAPACITY
}

impl UiState {
    /// Pushes the current error count into the history and recomputes the spike warning.
    pub fn update_error_spike(&mut self)
        requires
            history_bounded(old(self)@),
        ensures
            final(self)@ == spike_state(old(self)@),
            history_bounded(final(self)@),
    {
        let a = count_error_lines(&self.logs_journal);
        let b = count_error_lines(&self.logs_syslog);
        let c = count_error_lines(&self.logs_dmesg);
        let total = (a as u128 + b as u128 + c as u128) as u32;
        push_error_count(&mut self.error_count_history, total);
        self.error_spike = error_spike_of(&self.error_count_history);
    }

    /// Installs freshly read log lines (see `logs_loaded_state`).
    pub fn set_log_lines(&mut self, journal: Vec<String>, syslog: Vec<String>, dmesg: Vec<String>)
        requires
            history_bounded(old(self)@),
        ensures
            final(self)@ == logs_loaded_state(old(self)@, journal, syslog, dmesg),
            history_bounded(final(self)@),
    {
        self.logs_journal = journal;
        self.logs_syslog = syslog;
        self.logs_dmesg = dmesg;
        self.update_error_spike();
        if self.scroll.logs_autoscroll {
            self.scroll.logs = usize::MAX / 4;
        }
    }

    /// Reads the latest 200 lines of each log source and installs them.
    pub fn refresh_logs_view<P: CommandProvider>(&mut self, provider: &mut P)
        requires
            history_bounded(old(self)@),
        ensures
            same_host(*old(provider), *final(provider)),
            history_bounded(final(self)@),
            final(self)@ == logs_loaded_state(
                old(self)@,
                final(self).logs_journal,
                final(self).logs_syslog,
                final(self).logs_dmesg,
            ),
            !old(provider).on_linux() ==> final(self).logs_journal@.len() == 0
                && final(self).logs_syslog@.len() == 0,
            old(provider).on_linux() ==> exists|a| #[trigger]
                old(provider).answers("journalctl"@, journal_args(200), a) && string_views(
                    final(self).logs_journal@,
                ) == answer_lines(a),
            old(provider).on_linux() ==> exists|a| #[trigger]
                old(provider).answers("tail"@, tail_args(200, "/var/log/syslog"@), a) && if answer_lines(
                    a,
                ).len() > 0 {
                    string_views(final(self).logs_syslog@) == answer_lines(a)
                } else {
                    exists|b| #[trigger]
                        old(provider).answers("tail"@, tail_args(200, "/var/log/messages"@), b)
                            && string_views(final(self).logs_syslog@) == answer_lines(b)
                },
            exists|a| #[trigger] old(provider).answers("dmesg"@, dmesg_args(), a) && string_views(
                final(self).logs_dmesg@,
            ) == last_n(answer_lines(a), 200),
    {
        let journal = collect_journal_lines(provider, 200);
        let syslog = collect_syslog_lines(provider, 200);
        let dmesg = collect_dmesg_lines(provider, 200);
        self.set_log_lines(journal, syslog, dmesg);
    }
}


/// The regex type of the `regex` crate.
#[verifier::external_type_specification]
#[verifier::external_body]
pub struct ExRegex(regex::Regex);

/// Whether `regex::Regex::new` accepts a pattern.
pub uninterp spec fn regex_accepts(pattern: Seq<char>) -> bool;

/// Whether the regex compiled from a pattern matches somewhere in a text
/// (`regex::Regex::is_match`).
pub uninterp spec fn regex_matches(pattern: Seq<char>, text: Seq<char>) -> bool;

/// `regex::Regex::new`: compiles a pattern, `None` where the crate rejects it. The contract
/// names the outcome; which patterns the crate accepts is not stated here.
#[verifier::external_body]
fn regex_new(pattern: &str) -> (r: Option<regex::Regex>)
    ensures
        r is Some <==> regex_accepts(pattern@),
{
    regex::Regex::new(pattern).ok()
}

/// A compiled log search pattern, kept with the text it was compiled from.
pub struct LogPattern {
    re: regex::Regex,
    source: String,
}

impl View for LogPattern {
    type V = Seq<char>;

    closed spec fn view(&self) -> Seq<char> {
        self.source@
    }
}

/// `regex::Regex::is_match` on the pattern's compiled regex; the contract names the answer
/// by the pattern's text, which is the text the regex was compiled from (the only way to
/// build a `LogPattern` is `LogPattern::compile`).
#[verifier::external_body]
fn pattern_is_match(p: &LogPattern, text: &str) -> (b: bool)
    ensures
        b == regex_matches(p@, text@),
{
    p.re.is_match(text)
}

impl LogPattern {
    /// Compiles a search pattern; `None` where the regex crate rejects it.
    pub fn compile(pattern: &str) -> (r: Option<LogPattern>)
        ensures
            r is Some <==> regex_accepts(pattern@),
            r matches Some(p) ==> p@ == pattern@,
    {
        match regex_new(pattern) {
            Some(re) => Some(LogPattern { re, source: string_of(&chars_of(pattern)) }),
            None => None,
        }
    }

    /// Whether the pattern matches somewhere in `text`.
    pub fn is_match(&self, text: &str) -> (b: bool)
        ensures
            b == regex_matches(self@, text@),
    {
        pattern_is_match(self, text)
    }
}

/// The word naming a log source filter.
pub open spec fn source_word(f: LogSourceFilter) -> Seq<char> {
    match f {
        LogSourceFilter::All => "all"@,
        LogSourceFilter::Journal => "journal"@,
        LogSourceFilter::Syslog => "syslog"@,
        LogSourceFilter::Dmesg => "dmesg"@,
    }
}

/// The word naming a log source filter.
pub fn logs_source_label(f: LogSourceFilter) -> (s: &'static str)
    ensures
        s@ == source_word(f),
{
    match f {
        LogSourceFilter::All => "all",
        LogSourceFilter::Journal => "journal",
        LogSourceFilter::Syslog => "syslog",
        LogSourceFilter::Dmesg => "dmesg",
    }
}

/// The word naming a log level filter.
pub open spec fn level_word(f: LogLevelFilter) -> Seq<char> {
    match f {
        LogLevelFilter::All => "all"@,
        LogLevelFilter::Error => "error"@,
        LogLevelFilter::Warn => "warn"@,
        LogLevelFilter::Info => "info"@,
    }
}

/// The word naming a log level filter.
pub fn logs_level_label(f: LogLevelFilter) -> (s: &'static str)
    ensures
        s@ == level_word(f),
{
    match f {
        LogLevelFilter::All => "all",
        LogLevelFilter::Error => "error",
        LogLevelFilter::Warn => "warn",
        LogLevelFilter::Info => "info",
    }
}

/// The lines of the selected log source(s), journal, then syslog, then kernel.
pub open spec fn source_lines(s: UiStateView) -> Seq<Seq<char>> {
    match s.logs_source_filter {
        LogSourceFilter::All => string_views(s.logs_journal@) + string_views(s.logs_syslog@)
            + string_views(s.logs_dmesg@),
        LogSourceFilter::Journal => string_views(s.logs_journal@),
        LogSourceFilter::Syslog => string_views(s.logs_syslog@),
        LogSourceFilter::Dmesg => string_views(s.logs_dmesg@),
    }
}

pub open spec fn level_pred(level: LogLevelFilter) -> spec_fn(Seq<char>) -> bool {
    |l: Seq<char>| level_matches(l, level)
}

/// The lines the logs tab shows and searches: those of the selected sources that pass the
/// level filter.
pub open spec fn nav_lines(s: UiStateView) -> Seq<Seq<char>> {
    source_lines(s).filter(level_pred(s.logs_level_filter))
}

/// Indices of the lines the pattern matches, in increasing order.
pub open spec fn match_positions(lines: Seq<Seq<char>>, q: Seq<char>) -> Seq<int>
    decreases lines.len(),
{
    if lines.len() == 0 {
        Seq::empty()
    } else {
        let p = match_positions(lines.drop_last(), q);
        if regex_matches(q, lines.last()) {
            p.push(lines.len() - 1)
        } else {
            p
        }
    }
}

/// The first index from `k` on whose entry lies above `cur`.
pub open spec fn first_above(ms: Seq<int>, cur: int, k: int) -> Option<int>
    decreases ms.len() - k,
{
    if k < 0 || k >= ms.len() {
        None
    } else if ms[k] > cur {
        Some(k)
    } else {
        first_above(ms, cur, k + 1)
    }
}

/// The last index below `k` whose entry lies below `cur`.
pub open spec fn last_below(ms: Seq<int>, cur: int, k: int) -> Option<int>
    decreases k,
{
    if k <= 0 || k > ms.len() {
        None
    } else if ms[k - 1] < cur {
        Some(k - 1)
    } else {
        last_below(ms, cur, k - 1)
    }
}

/// The first index from `k` on holding `v`.
pub open spec fn first_index(ms: Seq<int>, v: int, k: int) -> Option<int>
    decreases ms.len() - k,
{
    if k < 0 || k >= ms.len() {
        None
    } else if ms[k] == v {
        Some(k)
    } else {
        first_index(ms, v, k + 1)
    }
}

/// The line a search jumps to: the next match after `cur` (wrapping to the first) going
/// forward, the previous one before `cur` (wrapping to the last) going back.
pub open spec fn jump_index(ms: Seq<int>, cur: int, forward: bool) -> int {
    if forward {
        match first_above(ms, cur, 0) {
            Some(k) => k,
            None => 0,
        }
    } else {
        match last_below(ms, cur, ms.len() as int) {
            Some(k) => k,
            None => ms.len() - 1,
        }
    }
}

pub open spec fn with_status(s: UiStateView, msg: Seq<char>) -> UiStateView {
    UiStateView { status_line: msg, ..s }
}

/// What a search for the next (or previous) matching log line finds: the line to show and
/// the status to report, or the status that says why nothing was found.
pub open spec fn navigate_result(s: UiStateView, forward: bool) -> Result<(usize, Seq<char>), Seq<char>> {
    let q = spec_trim(s.logs_query);
    let lines = nav_lines(s);
    let ms = match_positions(lines, q);
    if q.len() == 0 {
        Err("Log regex is empty"@)
    } else if !regex_accepts(q) {
        Err("Invalid log regex"@)
    } else if lines.len() == 0 {
        Err("No logs in current source/filter"@)
    } else if ms.len() == 0 {
        Err("No regex matches found"@)
    } else {
        let cur = if s.scroll.logs < lines.len() - 1 {
            s.scroll.logs as int
        } else {
            lines.len() - 1
        };
        let target = ms[jump_index(ms, cur, forward)];
        let pos: nat = match first_index(ms, target, 0) {
            Some(i) => (i + 1) as nat,
            None => 1,
        };
        Ok(
            (
                target as usize,
                "Log match "@ + spec_decimal(pos) + "/"@ + spec_decimal(ms.len()) + " in "@
                    + source_word(s.logs_source_filter),
            ),
        )
    }
}

/// State after searching the logs for the next (or previous) line matching the query.
pub open spec fn navigate_state(s: UiStateView, forward: bool) -> UiStateView {
    match navigate_result(s, forward) {
        Ok((target, msg)) => UiStateView {
            scroll: Scrolls { logs_autoscroll: false, logs: target, ..s.scroll },
            status_line: msg,
            ..s
        },
        Err(msg) => UiStateView { status_line: msg, ..s },
    }
}

pub open spec fn ints(v: Seq<usize>) -> Seq<int> {
    v.map_values(|x: usize| x as int)
}

/// Appends the lines of `src` that pass the level filter.
fn push_filtered(out: &mut Vec<String>, src: &Vec<String>, level: LogLevelFilter)
    ensures
        string_views(final(out)@) == string_views(old(out)@) + string_views(src@).filter(level_pred(level)),
{
    let mut i: usize = 0;
    while i < src.len()
        invariant
            i <= src@.len(),
            string_views(out@) == string_views(old(out)@) + string_views(src@).take(i as int).filter(
                level_pred(level),
            ),
        decreases src.len() - i,
    {
        proof {
            reveal(Seq::filter);
            assert(string_views(src@).take(i + 1).drop_last() =~= string_views(src@).take(i as int));
        }
        let ghost before = out@;
        if logs_matches_level(src[i].as_str(), level) {
            let l = src[i].clone();
            out.push(l);
            assert(string_views(out@) =~= string_views(before).push(l@));
        }
        i = i + 1;
    }
    assert(string_views(src@).take(src@.len() as int) =~= string_views(src@));
}

impl UiState {
    /// The lines of the selected sources that pass the level filter.
    pub fn filtered_log_lines(&self) -> (r: Vec<String>)
        ensures
            string_views(r@) == nav_lines(self@),
    {
        let mut r: Vec<String> = Vec::new();
        let level = self.logs_level_filter;
        match self.logs_source_filter {
            LogSourceFilter::All => {
                push_filtered(&mut r, &self.logs_journal, level);
                push_filtered(&mut r, &self.logs_syslog, level);
                push_filtered(&mut r, &self.logs_dmesg, level);
                proof {
                    let p = level_pred(level);
                    let j = string_views(self.logs_journal@);
                    let y = string_views(self.logs_syslog@);
                    let d = string_views(self.logs_dmesg@);
                    Seq::filter_distributes_over_add(j + y, d, p);
                    Seq::filter_distributes_over_add(j, y, p);
                    assert(string_views(r@) =~= Seq::<Seq<char>>::empty() + j.filter(p) + y.filter(p)
                        + d.filter(p));
                }
            },
            LogSourceFilter::Journal => push_filtered(&mut r, &self.logs_journal, level),
            LogSourceFilter::Syslog => push_filtered(&mut r, &self.logs_syslog, level),
            LogSourceFilter::Dmesg => push_filtered(&mut r, &self.logs_dmesg, level),
        }
        r
    }
}

fn match_indices(lines: &Vec<String>, p: &LogPattern) -> (ms: Vec<usize>)
    ensures
        ints(ms@) == match_positions(string_views(lines@), p@),
{
    let mut ms: Vec<usize> = Vec::new();
    let mut i: usize = 0;
    while i < lines.len()
        invariant
            i <= lines@.len(),
            ints(ms@) == match_positions(string_views(lines@).take(i as int), p@),
        decreases lines.len() - i,
    {
        assert(string_views(lines@).take(i + 1).drop_last() =~= string_views(lines@).take(i as int));
        let ghost before = ms@;
        if p.is_match(lines[i].as_str()) {
            ms.push(i);
            assert(ints(ms@) =~= ints(before).push(i as int));
        }
        i = i + 1;
    }
    assert(string_views(lines@).take(lines@.len() as int) =~= string_views(lines@));
    ms
}

fn jump_target(ms: &Vec<usize>, cur: usize, forward: bool) -> (k: usize)
    requires
        ms@.len() > 0,
    ensures
        k == jump_index(ints(ms@), cur as int, forward),
        k < ms@.len(),
{
    let ghost m = ints(ms@);
    if forward {
        let mut k: usize = 0;
        while k < ms.len() && ms[k] <= cur
            invariant
                k <= ms@.len(),
                m == ints(ms@),
                first_above(m, cur as int, 0) == first_above(m, cur as int, k as int),
            decreases ms.len() - k,
        {
            k = k + 1;
        }
        if k < ms.len() {
            k
        } else {
            0
        }
    } else {
        let mut k: usize = ms.len();
        while k > 0 && ms[k - 1] >= cur
            invariant
                k <= ms@.len(),
                m == ints(ms@),
                last_below(m, cur as int, m.len() as int) == last_below(m, cur as int, k as int),
            decreases k,
        {
            k = k - 1;
        }
        if k > 0 {
            k - 1
        } else {
            ms.len() - 1
        }
    }
}

fn match_rank(ms: &Vec<usize>, target: usize) -> (r: u64)
    ensures
        r == match first_index(ints(ms@), target as int, 0) {
            Some(i) => i + 1,
            None => 1,
        },
{
    let ghost m = ints(ms@);
    let mut k: usize = 0;
    while k < ms.len() && ms[k] != target
        invariant
            k <= ms@.len(),
            m == ints(ms@),
            first_index(m, target as int, 0) == first_index(m, target as int, k as int),
        decreases ms.len() - k,
    {
        k = k + 1;
    }
    if k < ms.len() {
        k as u64 + 1
    } else {
        1
    }
}

impl UiState {
    /// Searches the logs for the next (or previous) line matching the query.
    pub fn find_log_match(&self, forward: bool) -> (r: Result<(usize, String), String>)
        ensures
            match r {
                Ok((t, m)) => navigate_result(self@, forward) == Ok::<(usize, Seq<char>), Seq<char>>((t, m@)),
                Err(m) => navigate_result(self@, forward) == Err::<(usize, Seq<char>), Seq<char>>(m@),
            },
    {
        let qc = trim(&chars_of(self.logs_query.as_str()));
        if qc.len() == 0 {
            return Err(string_of(&chars_of("Log regex is empty")));
        }
        let q = string_of(&qc);
        let p = match LogPattern::compile(q.as_str()) {
            Some(p) => p,
            None => {
                return Err(string_of(&chars_of("Invalid log regex")));
            },
        };
        let lines = self.filtered_log_lines();
        if lines.len() == 0 {
            return Err(string_of(&chars_of("No logs in current source/filter")));
        }
        let ms = match_indices(&lines, &p);
        if ms.len() == 0 {
            return Err(string_of(&chars_of("No regex matches found")));
        }
        let cur = if self.scroll.logs < lines.len() - 1 {
            self.scroll.logs
        } else {
            lines.len() - 1
        };
        let k = jump_target(&ms, cur, forward);
        let target = ms[k];
        let pos = match_rank(&ms, target);
        let mut out: Vec<char> = Vec::new();
        push_str(&mut out, "Log match ");
        push_decimal(&mut out, pos);
        push_str(&mut out, "/");
        push_decimal(&mut out, ms.len() as u64);
        push_str(&mut out, " in ");
        push_str(&mut out, logs_source_label(self.logs_source_filter));
        Ok((target, string_of(&out)))
    }

    /// Jumps the log view to the next (or previous) line matching the search query.
    pub fn navigate_logs_match(&mut self, forward: bool)
        ensures
            final(self)@ == navigate_state(old(self)@, forward),
    {
        match self.find_log_match(forward) {
            Ok((target, msg)) => {
                self.scroll.logs_autoscroll = false;
                self.scroll.logs = target;
                self.status_line = msg;
            },
            Err(msg) => {
                self.status_line = msg;
            },
        }
    }
}


/// The lines of a log source that pass the level filter and, when a search pattern is
/// given, match it.
pub open spec fn shown_lines(lines: Seq<Seq<char>>, level: LogLevelFilter, pattern: Option<Seq<char>>) -> Seq<Seq<char>>
    decreases lines.len(),
{
    if lines.len() == 0 {
        Seq::empty()
    } else {
        let p = shown_lines(lines.drop_last(), level, pattern);
        let l = lines.last();
        if level_matches(l, level) && match pattern {
            Some(q) => regex_matches(q, l),
            None => true,
        } {
            p.push(l)
        } else {
            p
        }
    }
}

pub open spec fn pattern_view(p: Option<&LogPattern>) -> Option<Seq<char>> {
    match p {
        Some(x) => Some(x@),
        None => None,
    }
}

/// The lines the logs tab shows (see `shown_lines`).
pub fn filtered_logs(lines: &Vec<String>, level: LogLevelFilter, pattern: Option<&LogPattern>) -> (r: Vec<String>)
    ensures
        string_views(r@) == shown_lines(string_views(lines@), level, pattern_view(pattern)),
{
    let mut r: Vec<String> = Vec::new();
    let mut i: usize = 0;
    while i < lines.len()
        invariant
            i <= lines@.len(),
            string_views(r@) == shown_lines(string_views(lines@).take(i as int), level, pattern_view(pattern)),
        decreases lines.len() - i,
    {
        assert(string_views(lines@).take(i + 1).drop_last() =~= string_views(lines@).take(i as int));
        assert(string_views(lines@).take(i + 1).last() == lines@[i as int]@);
        let keep = logs_matches_level(lines[i].as_str(), level) && match pattern {
            Some(p) => p.is_match(lines[i].as_str()),
            None => true,
        };
        if keep {
            let ghost before = string_views(r@);
            let l = lines[i].clone();
            r.push(l);
            assert(string_views(r@) =~= before.push(l@));
        }
        i = i + 1;
    }
    assert(string_views(lines@).take(lines@.len() as int) =~= string_views(lines@));
    r
}

/// A metric history after one more sample: the oldest sample leaves once it is full.
pub open spec fn push_sample(h: Seq<u64>, v: u64) -> Seq<u64> {
    if h.len() >= HISTORY_CAPACITY {
        h.drop_first().push(v)
    } else {
        h.push(v)
    }
}

/// Records one more sample in a metric history.
pub fn push_history_value(history: &mut Vec<u64>, value: u64)
    ensures
        final(history)@ == push_sample(old(history)@, value),
{
    if history.len() >= HISTORY_CAPACITY {
        history.remove(0);
    }
    history.push(value);
    assert(history@ =~= push_sample(old(history)@, value));
}

/// The largest sample of a history, at least `floor`: the top of a chart's scale.
pub open spec fn chart_max(h: Seq<u64>, floor: u64) -> u64
    decreases h.len(),
{
    if h.len() == 0 {
        floor
    } else {
        let m = chart_max(h.drop_last(), floor);
        if h.last() > m {
            h.last()
        } else {
            m
        }
    }
}

/// The top of a chart's scale (see `chart_max`).
pub fn dynamic_max(history: &Vec<u64>, floor: u64) -> (r: u64)
    ensures
        r == chart_max(history@, floor),
        r >= floor,
        forall|i: int| 0 <= i < history@.len() ==> history@[i] <= r,
{
    let mut m = floor;
    let mut i: usize = 0;
    while i < history.len()
        invariant
            i <= history@.len(),
            m == chart_max(history@.take(i as int), floor),
            m >= floor,
            forall|j: int| 0 <= j < i ==> history@[j] <= m,
        decreases history.len() - i,
    {
        assert(history@.take(i + 1).drop_last() =~= history@.take(i as int));
        if history[i] > m {
            m = history[i];
        }
        i = i + 1;
    }
    assert(history@.take(history@.len() as int) =~= history@);
    m
}

} // verus!
