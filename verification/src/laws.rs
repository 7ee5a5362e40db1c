//! Properties that hold across calls and inputs: tab and filter cycles, scrolling bounds,
//! text entry, error-spike detection, log search and log sources, number notation, the
//! views of the processes tab, and what the parsers of `ss`, `systemctl` and the container
//! engines take from which column.
use crate::app::{
    ConnectionStateFilter, LogLevelFilter, LogSourceFilter, ProcessViewMode, RowCounts, Scrolls,
    Tab, UiStateView, last_row, next_connection_filter, next_level, next_scan_depth,
    next_service_state, next_sort, next_source, next_view, scroll_bottom_state, scroll_down_state,
    scroll_top_state, scroll_up_state, tab_at, tab_index,
};
use crate::cli::{ProcessSort, ServiceState};
use crate::keys::{Key, edited, is_ascii_digit, key_state, pin_input_state, renice_input_state};
use crate::collectors::containers::{ps_args, ps_lookup, stats_args, stats_row, stats_rows};
use crate::text::parse_u32_spec;
use crate::text::spec_split;
use crate::logview::{
    HISTORY_CAPACITY, match_positions, nav_lines, navigate_result, push_capped, regex_matches,
    spike_message, level_matches, level_pred,
};
use crate::collectors::provider::{CommandProvider, MockBehaviorView, MockProvider, behavior_answer, command_key, mock_answer};
use crate::memwatch::next_streak;
use crate::procview::{ProcessEntryView, pid_listed, row_indices, view_rows_of};
use crate::collectors::netstat::{spec_connection_row, spec_split_endpoint, spec_suspicious};
use crate::collectors::systemd::{ServiceRowView, service_rows, spec_parse_service_line, state_matches};
use crate::order::lemma_lex_asymmetric;
use crate::text::{lex_lt, spec_words, string_views};
use crate::text::{all_digits, digit_char, digit_value, digits_value, is_digit, parse_nat, spec_decimal, spec_trim};
use vstd::prelude::*;

verus! {

/// Moving to the next tab and back returns to the tab one started from, and so does moving
/// back and then on; twelve moves on come back to the start.
pub proof fn law_tab_round_trip(t: Tab)
    ensures
        tab_at(tab_index(tab_at(tab_index(t) + 1)) + 11) == t,
        tab_at(tab_index(tab_at(tab_index(t) + 11)) + 1) == t,
        tab_at(tab_index(t) + 12) == t,
        tab_at(tab_index(t)) == t,
{
}

/// Every filter and order cycles back to where it started: the process sort after four
/// steps, the process view after five, the connection filter after five, the log level
/// and source filters after four, the service state filter after three, and the disk scan
/// depth (always 1, 2 or 3 after a step) after three.
pub proof fn law_cycles_return(
    s: ProcessSort,
    v: ProcessViewMode,
    f: ConnectionStateFilter,
    l: LogLevelFilter,
    o: LogSourceFilter,
    st: ServiceState,
    d: usize,
)
    ensures
        next_sort(next_sort(next_sort(next_sort(s)))) == s,
        next_view(next_view(next_view(next_view(next_view(v))))) == v,
        next_connection_filter(next_connection_filter(next_connection_filter(next_connection_filter(next_connection_filter(f)))))
            == f,
        next_level(next_level(next_level(next_level(l)))) == l,
        next_source(next_source(next_source(next_source(o)))) == o,
        next_service_state(next_service_state(next_service_state(st))) == st,
        1 <= next_scan_depth(d) <= 3,
        1 <= d <= 3 ==> next_scan_depth(next_scan_depth(next_scan_depth(d))) == d,
{
}

/// Whether every list's selection lies within its rows.
pub open spec fn selections_in_bounds(s: Scrolls, c: RowCounts) -> bool {
    &&& s.process <= last_row(c.process_rows)
    &&& s.container <= last_row(c.containers)
    &&& s.connection <= last_row(c.connections)
    &&& s.disk <= last_row(c.disks)
    &&& s.service <= last_row(c.services)
}

/// Scrolling keeps every selection within its list: moving down, up, to the top or to the
/// bottom never selects past the last row.
pub proof fn law_scroll_in_bounds(t: Tab, s: Scrolls, c: RowCounts)
    requires
        selections_in_bounds(s, c),
    ensures
        selections_in_bounds(scroll_down_state(t, s, c), c),
        selections_in_bounds(scroll_up_state(t, s), c),
        selections_in_bounds(scroll_top_state(t, s), c),
        c.snapshot_loaded || t == Tab::Network || t == Tab::Logs ==> selections_in_bounds(
            scroll_bottom_state(t, s, c),
            c,
        ),
{
}

/// Once at the bottom of a list, moving down stays there (the log view aside, which counts
/// on past the last line).
pub proof fn law_scroll_bottom_stays(t: Tab, s: Scrolls, c: RowCounts)
    requires
        t != Tab::Logs,
    ensures
        scroll_down_state(t, scroll_bottom_state(t, s, c), c) == scroll_bottom_state(t, s, c),
{
}

/// Backspace undoes a typed character.
pub proof fn law_backspace_undoes_typing(t: Seq<char>, c: char)
    ensures
        edited(edited(t, Key::Char(c)), Key::Backspace) == t,
{
    assert(t.push(c).drop_last() =~= t);
}

/// The CPU-core field only ever holds digits.
pub proof fn law_pin_field_digits(s: UiStateView, key: Key)
    requires
        forall|i: int| 0 <= i < s.pin_core_value.len() ==> is_ascii_digit(#[trigger] s.pin_core_value[i]),
    ensures
        forall|i: int|
            0 <= i < pin_input_state(s, key).pin_core_value.len() ==> is_ascii_digit(
                #[trigger] pin_input_state(s, key).pin_core_value[i],
            ),
{
    let v = pin_input_state(s, key).pin_core_value;
    assert forall|i: int| 0 <= i < v.len() implies is_ascii_digit(#[trigger] v[i]) by {
        if key != Key::Esc && key != Key::Enter {
            if key == Key::Backspace && s.pin_core_value.len() > 0 {
                assert(v[i] == s.pin_core_value[i]);
            }
        }
    }
}

/// Whether a nice-value text is digits with at most a leading minus sign.
pub open spec fn nice_shape(v: Seq<char>) -> bool {
    forall|i: int| 0 <= i < v.len() ==> is_ascii_digit(#[trigger] v[i]) || (i == 0 && v[i] == '-')
}

/// The nice-value field only ever holds digits, with at most a leading minus sign.
pub proof fn law_renice_field_shape(s: UiStateView, key: Key)
    requires
        nice_shape(s.renice_value),
    ensures
        nice_shape(renice_input_state(s, key).renice_value),
{
    let v = renice_input_state(s, key).renice_value;
    assert forall|i: int| 0 <= i < v.len() implies is_ascii_digit(#[trigger] v[i]) || (i == 0 && v[i] == '-') by {
        if key != Key::Esc && key != Key::Enter {
            if i < s.renice_value.len() {
                assert(v[i] == s.renice_value[i]);
            }
        }
    }
}

/// Outside the inputs `q` quits and changes nothing else but a pending `g`; inside an
/// input it is typed text.
pub proof fn law_q_in_filter_is_text(s: UiStateView, c: RowCounts)
    requires
        s.filter_input,
        !s.logs_regex_input && !s.network_tool_input && !s.pin_input && !s.renice_input,
    ensures
        key_state(s, Key::Char('q'), c).process_filter == s.process_filter.push('q'),
        key_state(s, Key::Char('q'), c).filter_input,
{
}

/// The error history never holds more than its capacity, and no spike is reported before
/// four counts are in or with fewer than three recent errors.
pub proof fn law_spike_needs_history(h: Seq<u32>, v: u32)
    ensures
        h.len() <= HISTORY_CAPACITY ==> push_capped(h, v).len() <= HISTORY_CAPACITY,
        h.len() < 4 ==> spike_message(h) is None,
        spike_message(h) is Some ==> h.len() >= 4,
{
}

proof fn lemma_match_positions(lines: Seq<Seq<char>>, q: Seq<char>)
    ensures
        forall|k: int| 0 <= k < match_positions(lines, q).len() ==> {
            let i = #[trigger] match_positions(lines, q)[k];
            0 <= i < lines.len() && regex_matches(q, lines[i])
        },
    decreases lines.len(),
{
    if lines.len() > 0 {
        lemma_match_positions(lines.drop_last(), q);
        let p = match_positions(lines.drop_last(), q);
        assert forall|k: int| 0 <= k < match_positions(lines, q).len() implies {
            let i = #[trigger] match_positions(lines, q)[k];
            0 <= i < lines.len() && regex_matches(q, lines[i])
        } by {
            if k < p.len() {
                let i = p[k];
                assert(match_positions(lines, q)[k] == i);
                assert(lines[i] == lines.drop_last()[i]);
            }
        }
    }
}

/// A log search lands on a line it shows that matches the query and passes the level
/// filter.
pub proof fn law_search_lands_on_match(s: UiStateView, forward: bool)
    requires
        navigate_result(s, forward) is Ok,
        nav_lines(s).len() <= usize::MAX,
    ensures
        ({
            let t = navigate_result(s, forward)->Ok_0.0 as int;
            &&& 0 <= t < nav_lines(s).len()
            &&& regex_matches(spec_trim(s.logs_query), nav_lines(s)[t])
            &&& level_matches(nav_lines(s)[t], s.logs_level_filter)
        }),
{
    let q = spec_trim(s.logs_query);
    let lines = nav_lines(s);
    let ms = match_positions(lines, q);
    lemma_match_positions(lines, q);
    let cur = if s.scroll.logs < lines.len() - 1 {
        s.scroll.logs as int
    } else {
        lines.len() - 1
    };
    let k = crate::logview::jump_index(ms, cur, forward);
    lemma_jump_index_in_range(ms, cur, forward);
    let t = ms[k];
    assert(0 <= t < lines.len() && regex_matches(q, lines[t]));
    assert(navigate_result(s, forward)->Ok_0.0 as int == t);
    let src = crate::logview::source_lines(s);
    src.lemma_filter_pred(level_pred(s.logs_level_filter), t);
}

proof fn lemma_first_above(ms: Seq<int>, cur: int, k: int)
    ensures
        crate::logview::first_above(ms, cur, k) matches Some(j) ==> 0 <= j < ms.len(),
    decreases ms.len() - k,
{
    if 0 <= k < ms.len() && ms[k] <= cur {
        lemma_first_above(ms, cur, k + 1);
    }
}

proof fn lemma_last_below(ms: Seq<int>, cur: int, k: int)
    ensures
        crate::logview::last_below(ms, cur, k) matches Some(j) ==> 0 <= j < ms.len(),
    decreases k,
{
    if 0 < k <= ms.len() && ms[k - 1] >= cur {
        lemma_last_below(ms, cur, k - 1);
    }
}

proof fn lemma_jump_index_in_range(ms: Seq<int>, cur: int, forward: bool)
    requires
        ms.len() > 0,
    ensures
        0 <= crate::logview::jump_index(ms, cur, forward) < ms.len(),
{
    lemma_first_above(ms, cur, 0);
    lemma_last_below(ms, cur, ms.len() as int);
}

proof fn lemma_digit_char(d: nat)
    requires
        d < 10,
    ensures
        is_digit(digit_char(d)),
        digit_value(digit_char(d)) == d,
{
    assert('0' as u32 == 48);
    assert('1' as u32 == 49);
    assert('2' as u32 == 50);
    assert('3' as u32 == 51);
    assert('4' as u32 == 52);
    assert('5' as u32 == 53);
    assert('6' as u32 == 54);
    assert('7' as u32 == 55);
    assert('8' as u32 == 56);
    assert('9' as u32 == 57);
}

proof fn lemma_decimal_digits(n: nat)
    ensures
        spec_decimal(n).len() > 0,
        all_digits(spec_decimal(n)),
        digits_value(spec_decimal(n)) == n,
    decreases n,
{
    lemma_digit_char(n % 10);
    if n < 10 {
        let d = spec_decimal(n);
        assert(d.drop_last() =~= Seq::<char>::empty());
        assert(digits_value(d.drop_last()) == 0);
        assert(d.last() == digit_char(n));
        assert(digits_value(d) == digits_value(d.drop_last()) * 10 + digit_value(d.last()));
    }
    if n >= 10 {
        lemma_decimal_digits(n / 10);
        let d = spec_decimal(n);
        assert(d.drop_last() =~= spec_decimal(n / 10));
        assert(d.last() == digit_char(n % 10));
        assert(n == (n / 10) * 10 + n % 10) by (nonlinear_arith);
        assert(digits_value(d) == digits_value(d.drop_last()) * 10 + digit_value(d.last()));
        assert forall|i: int| 0 <= i < d.len() implies is_digit(#[trigger] d[i]) by {
            if i < d.len() - 1 {
                assert(d[i] == spec_decimal(n / 10)[i]);
            }
        }
    }
}

/// Decimal notation reads back as the number it writes.
pub proof fn law_decimal_round_trip(n: nat)
    ensures
        parse_nat(spec_decimal(n)) == Some(n),
{
    lemma_decimal_digits(n);
}

/// Switching the processes tab between views neither drops nor adds processes: a grouped
/// view lists the same processes as the flat view, and the tree view names the PID of every
/// process of the flat view.
pub proof fn law_views_keep_processes(
    ev: Seq<ProcessEntryView>,
    f: Seq<usize>,
    sort: ProcessSort,
    flat: Seq<(usize, usize)>,
    mode: ProcessViewMode,
    other: Seq<(usize, usize)>,
)
    requires
        view_rows_of(ev, f, ProcessViewMode::Flat, sort, flat),
        view_rows_of(ev, f, mode, sort, other),
    ensures
        mode != ProcessViewMode::Tree ==> row_indices(other).to_multiset() == row_indices(flat).to_multiset(),
        mode == ProcessViewMode::Tree ==> forall|k: int|
            0 <= k < flat.len() ==> pid_listed(ev, other, #[trigger] ev[row_indices(flat)[k] as int].pid),
{
    assert(row_indices(flat) =~= f);
}

/// A scripted provider answers a command line with the behavior last scripted for it, and
/// lines scripted for other command lines do not change that answer.
pub proof fn law_scripted_answer(
    before: MockProvider,
    after: MockProvider,
    command: Seq<char>,
    args: Seq<Seq<char>>,
    behavior: MockBehaviorView,
    other_command: Seq<char>,
    other_args: Seq<Seq<char>>,
)
    requires
        before.wf(),
        after.wf(),
        after.table() == before.table().insert(command_key(command, args), behavior),
    ensures
        after.answers(command, args, behavior_answer(command, behavior)),
        command_key(other_command, other_args) != command_key(command, args) ==> mock_answer(
            after,
            other_command,
            other_args,
        ) == mock_answer(before, other_command, other_args),
{
    let key = command_key(command, args);
    assert(after.table().dom().contains(key));
    assert(after.table()[key] == behavior);
    let other = command_key(other_command, other_args);
    if other != key {
        if before.response(other) is Some {
            assert(before.table().dom().contains(other));
            assert(after.table()[other] == before.table()[other]);
        } else {
            assert(!before.table().dom().contains(other));
            assert(!after.table().dom().contains(other));
        }
    }
}

/// After a refresh a process's growth streak is back to 0 or one more than before (it stays
/// at 255 once there).
pub proof fn law_streak_steps(streak: u8, growth: u64)
    ensures
        next_streak(streak, growth) == 0 || next_streak(streak, growth) == streak + 1 || (streak == 255
            && next_streak(streak, growth) == 255),
        growth >= 1_048_576 && streak < 255 ==> next_streak(streak, growth) == streak + 1,
        growth < 1_048_576 ==> next_streak(streak, growth) == 0,
{
}

/// A connection row's peer is the sixth column of its `ss` line and its local address the
/// fifth; the remote IP and port are those of the peer, never of the local address, and the
/// suspicious flag is judged on that peer port.
pub proof fn law_connection_peer(line: Seq<char>, public: bool)
    ensures
        spec_connection_row(line, public) is Some <==> spec_words(line).len() >= 6,
        spec_connection_row(line, public) matches Some(r) ==> {
            &&& r.remote == spec_words(line)[5]
            &&& r.local == spec_words(line)[4]
            &&& r.proto == spec_words(line)[0]
            &&& r.state == spec_words(line)[1]
            &&& (r.remote_ip, r.remote_port) == spec_split_endpoint(r.remote)
            &&& r.suspicious == spec_suspicious(r.state, r.remote_port, public)
        },
{
}

/// The rows `service_rows` keeps for a listing: every one parsed from a line that passes
/// the filter, and only those.
proof fn lemma_service_rows_filter(ls: Seq<Seq<char>>, state: ServiceState)
    ensures
        forall|i: int| 0 <= i < service_rows(ls, state).len() ==> state_matches(state, #[trigger] service_rows(ls, state)[i]),
        forall|i: int|
            #![trigger service_rows(ls, state)[i]]
            0 <= i < service_rows(ls, state).len() ==> exists|j: int| 0 <= j < ls.len()
                && #[trigger] spec_parse_service_line(ls[j]) == Some(service_rows(ls, state)[i]),
        forall|j: int| 0 <= j < ls.len() && (#[trigger] spec_parse_service_line(ls[j])) is Some && state_matches(
            state,
            spec_parse_service_line(ls[j])->0,
        ) ==> service_rows(ls, state).contains(spec_parse_service_line(ls[j])->0),
    decreases ls.len(),
{
    if ls.len() > 0 {
        let init = ls.drop_last();
        lemma_service_rows_filter(init, state);
        let prev = service_rows(init, state);
        let rows = service_rows(ls, state);
        assert forall|i: int|
            #![trigger rows[i]]
            0 <= i < rows.len() implies exists|j: int| 0 <= j < ls.len()
                && #[trigger] spec_parse_service_line(ls[j]) == Some(rows[i]) by {
            if i < prev.len() {
                assert(rows[i] == prev[i]);
                let j = choose|j: int| 0 <= j < init.len() && #[trigger] spec_parse_service_line(init[j]) == Some(prev[i]);
                assert(init[j] == ls[j]);
            } else {
                assert(spec_parse_service_line(ls[ls.len() - 1]) == Some(rows[i]));
            }
        }
        assert forall|j: int| 0 <= j < ls.len() && (#[trigger] spec_parse_service_line(ls[j])) is Some && state_matches(
            state,
            spec_parse_service_line(ls[j])->0,
        ) implies rows.contains(spec_parse_service_line(ls[j])->0) by {
            let r = spec_parse_service_line(ls[j])->0;
            if j < ls.len() - 1 {
                assert(init[j] == ls[j]);
                assert(prev.contains(r));
                let k = choose|k: int| 0 <= k < prev.len() && prev[k] == r;
                assert(rows[k] == r);
            } else {
                assert(rows[rows.len() - 1] == r);
            }
        }
    }
}

/// Listing services by state: under the failed filter every listed unit is in the active
/// state `failed`, under the running filter every one is `active` and `running`; each listed
/// row comes from a line of the listing, and every unit of the listing in the state asked
/// for (every unit at all under the all filter) is listed.
pub proof fn law_service_state_filter(ls: Seq<Seq<char>>)
    ensures
        forall|i: int| 0 <= i < service_rows(ls, ServiceState::Failed).len() ==> (#[trigger] service_rows(
            ls,
            ServiceState::Failed,
        )[i]).active == "failed"@,
        forall|i: int| 0 <= i < service_rows(ls, ServiceState::Running).len() ==> (#[trigger] service_rows(
            ls,
            ServiceState::Running,
        )[i]).active == "active"@ && service_rows(ls, ServiceState::Running)[i].sub == "running"@,
        forall|st: ServiceState, i: int|
            #![trigger service_rows(ls, st)[i]]
            0 <= i < service_rows(ls, st).len() ==> exists|j: int| 0 <= j < ls.len()
                && #[trigger] spec_parse_service_line(ls[j]) == Some(service_rows(ls, st)[i]),
        forall|j: int| 0 <= j < ls.len() && (#[trigger] spec_parse_service_line(ls[j])) is Some
            && spec_parse_service_line(ls[j])->0.active == "failed"@ ==> service_rows(ls, ServiceState::Failed).contains(
            spec_parse_service_line(ls[j])->0,
        ),
        forall|j: int| 0 <= j < ls.len() && (#[trigger] spec_parse_service_line(ls[j])) is Some
            && spec_parse_service_line(ls[j])->0.active == "active"@ && spec_parse_service_line(ls[j])->0.sub
            == "running"@ ==> service_rows(ls, ServiceState::Running).contains(spec_parse_service_line(ls[j])->0),
        forall|j: int| 0 <= j < ls.len() && (#[trigger] spec_parse_service_line(ls[j])) is Some ==> service_rows(
            ls,
            ServiceState::All,
        ).contains(spec_parse_service_line(ls[j])->0),
{
    lemma_service_rows_filter(ls, ServiceState::Failed);
    lemma_service_rows_filter(ls, ServiceState::Running);
    lemma_service_rows_filter(ls, ServiceState::All);
    assert forall|st: ServiceState, i: int|
        #![trigger service_rows(ls, st)[i]]
        0 <= i < service_rows(ls, st).len() implies exists|j: int| 0 <= j < ls.len()
            && #[trigger] spec_parse_service_line(ls[j]) == Some(service_rows(ls, st)[i]) by {
        lemma_service_rows_filter(ls, st);
    }
}

/// The state with another log source selected.
pub open spec fn with_source(s: UiStateView, f: LogSourceFilter) -> UiStateView {
    UiStateView { logs_source_filter: f, ..s }
}

/// Keeping what passes an always-true test keeps everything.
proof fn lemma_filter_keeps_all(v: Seq<Seq<char>>, p: spec_fn(Seq<char>) -> bool)
    requires
        forall|x: Seq<char>| #[trigger] p(x),
    ensures
        v.filter(p) == v,
    decreases v.len(),
{
    reveal(Seq::filter);
    if v.len() > 0 {
        lemma_filter_keeps_all(v.drop_last(), p);
        assert(v.drop_last().push(v.last()) =~= v);
    }
}

/// What a filter keeps is exactly what it is given that passes the test.
proof fn lemma_filter_exact(v: Seq<Seq<char>>, p: spec_fn(Seq<char>) -> bool)
    ensures
        forall|l: Seq<char>| #[trigger] v.filter(p).contains(l) <==> v.contains(l) && p(l),
{
    assert forall|l: Seq<char>| #[trigger] v.filter(p).contains(l) <==> v.contains(l) && p(l) by {
        if v.filter(p).contains(l) {
            v.lemma_filter_contains_rev(p, l);
            let k = choose|k: int| 0 <= k < v.filter(p).len() && v.filter(p)[k] == l;
            v.lemma_filter_pred(p, k);
        }
        if v.contains(l) && p(l) {
            let k = choose|k: int| 0 <= k < v.len() && v[k] == l;
            v.lemma_filter_contains(p, k);
        }
    }
}

/// Each log source shows its own lines: the lines shown for all sources are those shown for
/// the journal, then for syslog, then for the kernel log; with no level filter a single
/// source shows exactly its own lines, and a source shows exactly those of its lines that
/// pass the level filter.
pub proof fn law_log_sources(s: UiStateView)
    ensures
        nav_lines(with_source(s, LogSourceFilter::All)) == nav_lines(with_source(s, LogSourceFilter::Journal))
            + nav_lines(with_source(s, LogSourceFilter::Syslog)) + nav_lines(with_source(s, LogSourceFilter::Dmesg)),
        s.logs_level_filter == LogLevelFilter::All ==> {
            &&& nav_lines(with_source(s, LogSourceFilter::Journal)) == string_views(s.logs_journal@)
            &&& nav_lines(with_source(s, LogSourceFilter::Syslog)) == string_views(s.logs_syslog@)
            &&& nav_lines(with_source(s, LogSourceFilter::Dmesg)) == string_views(s.logs_dmesg@)
        },
        forall|l: Seq<char>| #[trigger] nav_lines(with_source(s, LogSourceFilter::Syslog)).contains(l)
            <==> string_views(s.logs_syslog@).contains(l) && level_matches(l, s.logs_level_filter),
        forall|l: Seq<char>| #[trigger] nav_lines(with_source(s, LogSourceFilter::Journal)).contains(l)
            <==> string_views(s.logs_journal@).contains(l) && level_matches(l, s.logs_level_filter),
        forall|l: Seq<char>| #[trigger] nav_lines(with_source(s, LogSourceFilter::Dmesg)).contains(l)
            <==> string_views(s.logs_dmesg@).contains(l) && level_matches(l, s.logs_level_filter),
{
    let p = level_pred(s.logs_level_filter);
    let j = string_views(s.logs_journal@);
    let y = string_views(s.logs_syslog@);
    let d = string_views(s.logs_dmesg@);
    Seq::filter_distributes_over_add(j + y, d, p);
    Seq::filter_distributes_over_add(j, y, p);
    lemma_filter_exact(j, p);
    lemma_filter_exact(y, p);
    lemma_filter_exact(d, p);
    if s.logs_level_filter == LogLevelFilter::All {
        assert forall|x: Seq<char>| #[trigger] p(x) by {
            assert(level_matches(x, LogLevelFilter::All));
        }
        lemma_filter_keeps_all(j, p);
        lemma_filter_keeps_all(y, p);
        lemma_filter_keeps_all(d, p);
    }
}

/// The grouped views of the processes tab list their processes by group: in the container
/// view container groups never go down from one row to a later one, and within a group the
/// busiest come first (lower CPU rank), then by name; likewise by user and by service group
/// in those views.
pub proof fn law_grouped_views(
    ev: Seq<ProcessEntryView>,
    f: Seq<usize>,
    sort: ProcessSort,
    rows: Seq<(usize, usize)>,
    mode: ProcessViewMode,
)
    requires
        mode == ProcessViewMode::User || mode == ProcessViewMode::Service || mode == ProcessViewMode::Container,
        view_rows_of(ev, f, mode, sort, rows),
    ensures
        forall|i: int, j: int|
            #![trigger rows[i], rows[j]]
            0 <= i < j < rows.len() ==> {
            let a = ev[rows[i].0 as int];
            let b = ev[rows[j].0 as int];
            &&& mode == ProcessViewMode::Container ==> !lex_lt(b.container_group, a.container_group) && (
            a.container_group == b.container_group ==> a.cpu_rank <= b.cpu_rank && (a.cpu_rank == b.cpu_rank ==> !lex_lt(b.name, a.name)))
            &&& mode == ProcessViewMode::User ==> !lex_lt(b.user, a.user) && (a.user == b.user ==> a.cpu_rank
                <= b.cpu_rank && (a.cpu_rank == b.cpu_rank ==> !lex_lt(b.name, a.name)))
            &&& mode == ProcessViewMode::Service ==> !lex_lt(b.service_group, a.service_group) && (
            a.service_group == b.service_group ==> a.cpu_rank <= b.cpu_rank && (a.cpu_rank == b.cpu_rank ==> !lex_lt(b.name, a.name)))
        },
{
    assert forall|i: int, j: int|
        #![trigger rows[i], rows[j]]
        0 <= i < j < rows.len() implies {
        let a = ev[rows[i].0 as int];
        let b = ev[rows[j].0 as int];
        &&& mode == ProcessViewMode::Container ==> !lex_lt(b.container_group, a.container_group) && (
        a.container_group == b.container_group ==> a.cpu_rank <= b.cpu_rank && (a.cpu_rank == b.cpu_rank ==> !lex_lt(b.name, a.name)))
        &&& mode == ProcessViewMode::User ==> !lex_lt(b.user, a.user) && (a.user == b.user ==> a.cpu_rank
            <= b.cpu_rank && (a.cpu_rank == b.cpu_rank ==> !lex_lt(b.name, a.name)))
        &&& mode == ProcessViewMode::Service ==> !lex_lt(b.service_group, a.service_group) && (
        a.service_group == b.service_group ==> a.cpu_rank <= b.cpu_rank && (a.cpu_rank == b.cpu_rank ==> !lex_lt(b.name, a.name)))
    } by {
        let ri = row_indices(rows);
        assert(ri[i] == rows[i].0 && ri[j] == rows[j].0);
        let a = ev[rows[i].0 as int];
        let b = ev[rows[j].0 as int];
        lemma_lex_asymmetric(a.container_group, b.container_group);
        lemma_lex_asymmetric(a.user, b.user);
        lemma_lex_asymmetric(a.service_group, b.service_group);
    }
}

/// The columns `stats` prints, in the order its format template names them.
pub open spec fn stats_columns() -> Seq<Seq<char>> {
    seq![
        "{{.ID}}"@,
        "{{.Name}}"@,
        "{{.CPUPerc}}"@,
        "{{.MemUsage}}"@,
        "{{.NetIO}}"@,
        "{{.BlockIO}}"@,
        "{{.PIDs}}"@,
    ]
}

/// Texts joined with `|` between them.
pub open spec fn joined_with_bars(fs: Seq<Seq<char>>) -> Seq<char>
    decreases fs.len(),
{
    if fs.len() <= 1 {
        if fs.len() == 0 {
            Seq::empty()
        } else {
            fs[0]
        }
    } else {
        joined_with_bars(fs.drop_last()) + "|"@ + fs.last()
    }
}

/// Each field of a container row is the column of its `stats` line that the format
/// template passed to `stats` names for it: the ID, name, CPU, memory, network I/O and
/// block I/O columns.
#[verifier::rlimit(50)]
pub proof fn law_container_columns(l: Seq<char>, ps: Seq<Seq<char>>)
    ensures
        stats_args()[3] == joined_with_bars(stats_columns()),
        stats_row(l, ps) matches Some(r) ==> forall|k: int|
            0 <= k < stats_columns().len() ==> {
                let c = spec_split(l, '|')[k];
                let t = #[trigger] stats_columns()[k];
                &&& t == "{{.ID}}"@ ==> r.id == c
                &&& t == "{{.Name}}"@ ==> r.name == c
                &&& t == "{{.CPUPerc}}"@ ==> r.cpu == c
                &&& t == "{{.MemUsage}}"@ ==> r.memory == c
                &&& t == "{{.NetIO}}"@ ==> r.net_io == c
                &&& t == "{{.BlockIO}}"@ ==> r.block_io == c
            },
{
    reveal_strlit("{{.ID}}");
    reveal_strlit("{{.Name}}");
    reveal_strlit("{{.CPUPerc}}");
    reveal_strlit("{{.MemUsage}}");
    reveal_strlit("{{.NetIO}}");
    reveal_strlit("{{.BlockIO}}");
    reveal_strlit("{{.PIDs}}");
    reveal_strlit("|");
    reveal_strlit("{{.ID}}|{{.Name}}|{{.CPUPerc}}|{{.MemUsage}}|{{.NetIO}}|{{.BlockIO}}|{{.PIDs}}");
    let f = stats_columns();
    reveal_with_fuel(joined_with_bars, 8);
    assert(f.drop_last().drop_last().drop_last().drop_last().drop_last().drop_last() =~= seq!["{{.ID}}"@]);
    assert(stats_args()[3] =~= joined_with_bars(f));
    assert("{{.CPUPerc}}"@[3] != "{{.BlockIO}}"@[3]);
    assert("{{.Name}}"@[3] != "{{.PIDs}}"@[3]);
    assert(forall|i: int, j: int| 0 <= i < j < 7 ==> f[i] != f[j]) by {
        assert(f[2] != f[5]);
        assert(f[1] != f[6]);
    }
}

/// Whether `ps` line `l` names the container `id` (its first of at least three columns).
pub open spec fn ps_names(l: Seq<char>, id: Seq<char>) -> bool {
    spec_split(l, '|').len() >= 3 && spec_split(l, '|')[0] == id
}

proof fn lemma_ps_lookup(ls: Seq<Seq<char>>, id: Seq<char>)
    ensures
        ps_lookup(ls, id) is None ==> forall|j: int| 0 <= j < ls.len() ==> !ps_names(#[trigger] ls[j], id),
        ps_lookup(ls, id) matches Some(p) ==> exists|j: int|
            0 <= j < ls.len() && ps_names(#[trigger] ls[j], id) && spec_split(ls[j], '|')[1] == p.0 && spec_split(
                ls[j],
                '|',
            )[2] == p.1 && forall|k: int| j < k < ls.len() ==> !ps_names(#[trigger] ls[k], id),
    decreases ls.len(),
{
    if ls.len() > 0 {
        let init = ls.drop_last();
        lemma_ps_lookup(init, id);
        let n = ls.len() - 1;
        if ps_names(ls[n], id) {
            assert(ps_names(ls[n], id));
        } else {
            assert forall|j: int| 0 <= j < n implies ls[j] == #[trigger] init[j] by {}
            if ps_lookup(ls, id) is Some {
                let p = ps_lookup(ls, id)->0;
                let j = choose|j: int|
                    0 <= j < init.len() && ps_names(#[trigger] init[j], id) && spec_split(init[j], '|')[1] == p.0
                        && spec_split(init[j], '|')[2] == p.1 && forall|k: int| j < k < init.len() ==> !ps_names(
                        #[trigger] init[k],
                        id,
                    );
                assert(ls[j] == init[j]);
                assert forall|k: int| j < k < ls.len() implies !ps_names(#[trigger] ls[k], id) by {
                    if k < n {
                        assert(ls[k] == init[k]);
                    }
                }
            } else {
                assert forall|j: int| 0 <= j < ls.len() implies !ps_names(#[trigger] ls[j], id) by {
                    if j < n {
                        assert(ls[j] == init[j]);
                    }
                }
            }
        }
    }
}

/// A container row takes its image and status from the latest `ps` line that names its id,
/// the ID, image and status columns of the `ps` format template; when no line names it both
/// are `-`. Its PID count is the PIDs column when that reads as a number, else 0.
pub proof fn law_container_ps_columns(l: Seq<char>, ps: Seq<Seq<char>>)
    ensures
        ps_args()[2] == joined_with_bars(seq!["{{.ID}}"@, "{{.Image}}"@, "{{.Status}}"@]),
        stats_row(l, ps) matches Some(r) ==> {
            &&& r.pids == match parse_u32_spec(spec_split(l, '|')[6]) {
                Some(n) => n,
                None => 0,
            }
            &&& (forall|j: int| 0 <= j < ps.len() ==> !ps_names(#[trigger] ps[j], r.id)) ==> r.image == "-"@
                && r.status == "-"@
            &&& (exists|j: int| 0 <= j < ps.len() && ps_names(#[trigger] ps[j], r.id)) ==> exists|j: int|
                0 <= j < ps.len() && ps_names(#[trigger] ps[j], r.id) && spec_split(ps[j], '|')[1] == r.image
                    && spec_split(ps[j], '|')[2] == r.status && forall|k: int|
                    j < k < ps.len() ==> !ps_names(#[trigger] ps[k], r.id)
        },
{
    reveal_strlit("{{.ID}}");
    reveal_strlit("{{.Image}}");
    reveal_strlit("{{.Status}}");
    reveal_strlit("|");
    reveal_strlit("{{.ID}}|{{.Image}}|{{.Status}}");
    let f = seq!["{{.ID}}"@, "{{.Image}}"@, "{{.Status}}"@];
    reveal_with_fuel(joined_with_bars, 4);
    assert(f.drop_last().drop_last() =~= seq!["{{.ID}}"@]);
    assert(ps_args()[2] =~= joined_with_bars(f));
    let c = spec_split(l, '|');
    if c.len() >= 7 {
        lemma_ps_lookup(ps, c[0]);
    }
}

/// A `systemctl list-units` line gives a row when it has four columns: the unit name is
/// the first, the active state the third and the sub-state the fourth.
pub proof fn law_service_columns(l: Seq<char>)
    ensures
        spec_parse_service_line(l) is Some <==> spec_words(l).len() >= 4,
        spec_parse_service_line(l) matches Some(r) ==> r.name == spec_words(l)[0] && r.active == spec_words(l)[2]
            && r.sub == spec_words(l)[3],
{
}

/// The container rows are those of the `stats` lines with all seven columns, in the order
/// of the lines: each row comes from such a line, every such line gives a row, and there
/// are as many rows as such lines.
pub proof fn law_container_rows_from_lines(ls: Seq<Seq<char>>, ps: Seq<Seq<char>>)
    ensures
        forall|i: int|
            #![trigger stats_rows(ls, ps)[i]]
            0 <= i < stats_rows(ls, ps).len() ==> exists|j: int| 0 <= j < ls.len()
                && #[trigger] stats_row(ls[j], ps) == Some(stats_rows(ls, ps)[i]),
        forall|j: int| 0 <= j < ls.len() && spec_split(#[trigger] ls[j], '|').len() >= 7 ==> stats_rows(
            ls,
            ps,
        ).contains(stats_row(ls[j], ps)->0),
        stats_rows(ls, ps).len() == ls.filter(|l: Seq<char>| spec_split(l, '|').len() >= 7).len(),
    decreases ls.len(),
{
    reveal(Seq::filter);
    if ls.len() > 0 {
        let init = ls.drop_last();
        law_container_rows_from_lines(init, ps);
        let prev = stats_rows(init, ps);
        let rows = stats_rows(ls, ps);
        let n = ls.len() - 1;
        assert forall|i: int|
            #![trigger rows[i]]
            0 <= i < rows.len() implies exists|j: int| 0 <= j < ls.len()
                && #[trigger] stats_row(ls[j], ps) == Some(rows[i]) by {
            if i < prev.len() {
                assert(rows[i] == prev[i]);
                let j = choose|j: int| 0 <= j < init.len() && #[trigger] stats_row(init[j], ps) == Some(prev[i]);
                assert(init[j] == ls[j]);
            } else {
                assert(stats_row(ls[n], ps) == Some(rows[i]));
            }
        }
        assert forall|j: int| 0 <= j < ls.len() && spec_split(#[trigger] ls[j], '|').len() >= 7 implies rows.contains(
            stats_row(ls[j], ps)->0,
        ) by {
            if j < n {
                assert(init[j] == ls[j]);
                assert(prev.contains(stats_row(init[j], ps)->0));
                let k = choose|k: int| 0 <= k < prev.len() && prev[k] == stats_row(init[j], ps)->0;
                assert(rows[k] == prev[k]);
            } else {
                assert(rows[rows.len() - 1] == stats_row(ls[j], ps)->0);
            }
        }
    }
}

} // verus!
