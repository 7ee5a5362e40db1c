//! Short texts the dashboard shows: filter and sort labels, rates, padded statuses, and
//! which connections a state filter keeps.
use crate::app::{ConnectionStateFilter, ProcessViewMode};
use crate::cli::{ProcessSort, ServiceState};
use crate::collectors::format_bytes;
use crate::collectors::netstat::{ConnectionRow, ConnectionRowView, connection_views};
use crate::collectors::spec_format_bytes;
use crate::text::{chars_of, equals_str, push_str, string_of};
use vstd::prelude::*;

verus! {

pub open spec fn sort_word(s: ProcessSort) -> Seq<char> {
    match s {
        ProcessSort::Cpu => "cpu"@,
        ProcessSort::Memory => "memory"@,
        ProcessSort::Pid => "pid"@,
        ProcessSort::Name => "name"@,
    }
}

/// Label for a process sort order.
pub fn process_sort_label(s: ProcessSort) -> (r: &'static str)
    ensures
        r@ == sort_word(s),
{
    match s {
        ProcessSort::Cpu => "cpu",
        ProcessSort::Memory => "memory",
        ProcessSort::Pid => "pid",
        ProcessSort::Name => "name",
    }
}

pub open spec fn view_word(v: ProcessViewMode) -> Seq<char> {
    match v {
        ProcessViewMode::Flat => "flat"@,
        ProcessViewMode::Tree => "tree"@,
        ProcessViewMode::User => "user"@,
        ProcessViewMode::Service => "service"@,
        ProcessViewMode::Container => "container"@,
    }
}

/// Label for a process view.
pub fn process_view_label(v: ProcessViewMode) -> (r: &'static str)
    ensures
        r@ == view_word(v),
{
    match v {
        ProcessViewMode::Flat => "flat",
        ProcessViewMode::Tree => "tree",
        ProcessViewMode::User => "user",
        ProcessViewMode::Service => "service",
        ProcessViewMode::Container => "container",
    }
}

pub open spec fn connection_filter_word(f: ConnectionStateFilter) -> Seq<char> {
    match f {
        ConnectionStateFilter::All => "all"@,
        ConnectionStateFilter::Established => "established"@,
        ConnectionStateFilter::Listen => "listen"@,
        ConnectionStateFilter::Closing => "closing"@,
        ConnectionStateFilter::Suspicious => "suspicious"@,
    }
}

/// Label for a connection state filter.
pub fn connection_state_filter_label(f: ConnectionStateFilter) -> (r: &'static str)
    ensures
        r@ == connection_filter_word(f),
{
    match f {
        ConnectionStateFilter::All => "all",
        ConnectionStateFilter::Established => "established",
        ConnectionStateFilter::Listen => "listen",
        ConnectionStateFilter::Closing => "closing",
        ConnectionStateFilter::Suspicious => "suspicious",
    }
}

pub open spec fn service_state_word(s: ServiceState) -> Seq<char> {
    match s {
        ServiceState::Running => "running"@,
        ServiceState::Failed => "failed"@,
        ServiceState::All => "all"@,
    }
}

/// Label for a service state filter.
pub fn service_state_filter_label(s: ServiceState) -> (r: &'static str)
    ensures
        r@ == service_state_word(s),
{
    match s {
        ServiceState::Running => "running",
        ServiceState::Failed => "failed",
        ServiceState::All => "all",
    }
}

/// A rate in bytes per second, e.g. "1.5 MB/s".
pub fn format_rate(bytes_per_second: u64) -> (r: String)
    ensures
        r@ == spec_format_bytes(bytes_per_second as nat) + "/s"@,
{
    let b = format_bytes(bytes_per_second);
    let mut out: Vec<char> = Vec::new();
    push_str(&mut out, b.as_str());
    push_str(&mut out, "/s");
    string_of(&out)
}

/// A text left-aligned in a field of eight characters (longer texts are kept whole).
pub open spec fn padded(v: Seq<char>) -> Seq<char> {
    if v.len() >= 8 {
        v
    } else {
        v + Seq::new((8 - v.len()) as nat, |i: int| ' ')
    }
}

/// Pads a status to eight characters.
pub fn pad_status(value: &str) -> (r: String)
    ensures
        r@ == padded(value@),
{
    let mut out = chars_of(value);
    let n = out.len();
    while out.len() < 8
        invariant
            n == value@.len(),
            n <= out@.len() <= if n >= 8 { n } else { 8 },
            out@ == value@ + Seq::new((out@.len() - n) as nat, |i: int| ' '),
        decreases 8 - out.len(),
    {
        out.push(' ');
        assert(out@ =~= value@ + Seq::new((out@.len() - n) as nat, |i: int| ' '));
    }
    assert(out@ =~= padded(value@));
    string_of(&out)
}

/// Rows a table of `height` lines can show after `reserved` lines of header and border;
/// at least one.
pub open spec fn rows_for(height: u16, reserved: u16) -> usize {
    if height > reserved && height - reserved > 1 {
        (height - reserved) as usize
    } else {
        1
    }
}

/// Rows a table of `height` lines shows (see `rows_for`).
pub fn visible_rows(height: u16, reserved: u16) -> (r: usize)
    ensures
        r == rows_for(height, reserved),
{
    let left = height.saturating_sub(reserved);
    if left > 1 {
        left as usize
    } else {
        1
    }
}

/// Whether a connection passes a state filter.
pub open spec fn keeps_connection(f: ConnectionStateFilter, c: ConnectionRowView) -> bool {
    match f {
        ConnectionStateFilter::All => true,
        ConnectionStateFilter::Established => c.state == "ESTAB"@ || c.state == "ESTABLISHED"@,
        ConnectionStateFilter::Listen => c.state == "LISTEN"@,
        ConnectionStateFilter::Closing => c.state == "TIME_WAIT"@ || c.state == "CLOSE_WAIT"@ || c.state
            == "CLOSING"@ || c.state == "SYN-SENT"@ || c.state == "SYN-RECV"@ || c.state == "FIN-WAIT-1"@
            || c.state == "FIN-WAIT-2"@ || c.state == "LAST_ACK"@ || c.state == "CLOSED"@,
        ConnectionStateFilter::Suspicious => c.suspicious is Some,
    }
}

/// Whether a connection passes a state filter (see `keeps_connection`).
pub fn connection_matches(f: ConnectionStateFilter, c: &ConnectionRow) -> (b: bool)
    ensures
        b == keeps_connection(f, c@),
{
    let st = chars_of(c.state.as_str());
    match f {
        ConnectionStateFilter::All => true,
        ConnectionStateFilter::Established => equals_str(&st, "ESTAB") || equals_str(&st, "ESTABLISHED"),
        ConnectionStateFilter::Listen => equals_str(&st, "LISTEN"),
        ConnectionStateFilter::Closing => equals_str(&st, "TIME_WAIT") || equals_str(&st, "CLOSE_WAIT")
            || equals_str(&st, "CLOSING") || equals_str(&st, "SYN-SENT") || equals_str(&st, "SYN-RECV")
            || equals_str(&st, "FIN-WAIT-1") || equals_str(&st, "FIN-WAIT-2") || equals_str(&st, "LAST_ACK")
            || equals_str(&st, "CLOSED"),
        ConnectionStateFilter::Suspicious => c.suspicious.is_some(),
    }
}

/// Positions of the connections that pass a state filter, in order.
pub open spec fn kept_positions(f: ConnectionStateFilter, v: Seq<ConnectionRowView>) -> Seq<int>
    decreases v.len(),
{
    if v.len() == 0 {
        Seq::empty()
    } else {
        let p = kept_positions(f, v.drop_last());
        if keeps_connection(f, v.last()) {
            p.push(v.len() - 1)
        } else {
            p
        }
    }
}

/// Positions of the connections that pass a state filter.
pub fn filtered_connections(f: ConnectionStateFilter, conns: &Vec<ConnectionRow>) -> (r: Vec<usize>)
    ensures
        r@.map_values(|i: usize| i as int) == kept_positions(f, connection_views(conns@)),
{
    let mut r: Vec<usize> = Vec::new();
    let mut i: usize = 0;
    while i < conns.len()
        invariant
            i <= conns@.len(),
            r@.map_values(|i: usize| i as int) == kept_positions(f, connection_views(conns@).take(i as int)),
        decreases conns.len() - i,
    {
        assert(connection_views(conns@).take(i + 1).drop_last() =~= connection_views(conns@).take(i as int));
        let ghost before = r@;
        if connection_matches(f, &conns[i]) {
            r.push(i);
            assert(r@.map_values(|i: usize| i as int) =~= before.map_values(|i: usize| i as int).push(i as int));
        }
        i = i + 1;
    }
    assert(connection_views(conns@).take(conns@.len() as int) =~= connection_views(conns@));
    r
}

} // verus!
