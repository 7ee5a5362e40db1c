//! Network connections from `ss`, interface details from `ip`, connection actions and
//! diagnostic tools (DNS, ping, traceroute, HTTP probe).
use crate::collectors::logs::answer_lines;
use crate::collectors::provider::{
    same_host, command_line, ran_lines, lines_since, lemma_lines_since, CommandOutput, CommandOutputView,
    CommandProvider, answer_view, str_views,
};
use crate::text::{
    before_char, lex_lt, less_than, prefix_before, spec_trim_end_char, trim_end_char,
    chars_eq, chars_of, copy_range, decimal_string, digit_run, digit_run_end, equals_str,
    last_index_of, lines, parse_u16, parse_u16_spec, parse_u32, parse_u32_spec, push_chars,
    push_decimal, push_str, rfind_char, spec_decimal, spec_lines, spec_split, spec_trim,
    spec_trim_char, spec_words, split_second, split_second_of, string_of, string_views, trim,
    trim_char, views, words, find_char_from, next_index_of, lemma_next_index_of,
};
use vstd::prelude::*;

verus! {

pub open spec fn args1(a: Seq<char>) -> Seq<Seq<char>> {
    seq![a]
}

pub open spec fn args2(a: Seq<char>, b: Seq<char>) -> Seq<Seq<char>> {
    seq![a, b]
}

/// A single network connection row for display.
pub struct ConnectionRow {
    pub proto: String,
    pub state: String,
    pub local: String,
    pub remote: String,
    pub process_name: String,
    pub pid: Option<u32>,
    pub remote_ip: String,
    pub remote_port: Option<u16>,
    pub suspicious: Option<String>,
}

pub struct ConnectionRowView {
    pub proto: Seq<char>,
    pub state: Seq<char>,
    pub local: Seq<char>,
    pub remote: Seq<char>,
    pub process_name: Seq<char>,
    pub pid: Option<u32>,
    pub remote_ip: Seq<char>,
    pub remote_port: Option<u16>,
    pub suspicious: Option<Seq<char>>,
}

pub open spec fn opt_text(o: Option<String>) -> Option<Seq<char>> {
    match o {
        Some(s) => Some(s@),
        None => None,
    }
}

impl View for ConnectionRow {
    type V = ConnectionRowView;

    open spec fn view(&self) -> ConnectionRowView {
        ConnectionRowView {
            proto: self.proto@,
            state: self.state@,
            local: self.local@,
            remote: self.remote@,
            process_name: self.process_name@,
            pid: self.pid,
            remote_ip: self.remote_ip@,
            remote_port: self.remote_port,
            suspicious: opt_text(self.suspicious),
        }
    }
}

pub open spec fn connection_views(v: Seq<ConnectionRow>) -> Seq<ConnectionRowView> {
    v.map_values(|r: ConnectionRow| r@)
}

/// Process name and PID from the `users:(("name",pid=N,...))` part of an `ss` line.
pub open spec fn spec_process_info(line: Seq<char>) -> Option<(Seq<char>, Option<u32>)> {
    match split_second(line, "users:(("@) {
        None => None,
        Some(u) => {
            let name = if u.len() > 0 && u[0] == '"' {
                let rest = u.drop_first();
                rest.subrange(0, next_index_of(rest, 0, '"'))
            } else {
                "-"@
            };
            let pid = match split_second(u, "pid="@) {
                None => None,
                Some(r) => parse_u32_spec(r.subrange(0, digit_run(r, 0))),
            };
            Some((name, pid))
        },
    }
}

pub open spec fn info_view(r: Option<(String, Option<u32>)>) -> Option<(Seq<char>, Option<u32>)> {
    match r {
        Some((n, p)) => Some((n@, p)),
        None => None,
    }
}

pub fn parse_process_info(line: &[char]) -> (r: Option<(String, Option<u32>)>)
    ensures
        info_view(r) == spec_process_info(line@),
{
    proof {
        reveal_strlit("users:((");
        reveal_strlit("pid=");
    }
    let users = match split_second_of(line, "users:((") {
        None => return None,
        Some(u) => u,
    };
    let name = if users.len() > 0 && users[0] == '"' {
        let rest = copy_range(&users, 1, users.len());
        assert(rest@ =~= users@.drop_first());
        let e = find_char_from(&rest, 0, '"');
        string_of(&copy_range(&rest, 0, e))
    } else {
        string_of(&chars_of("-"))
    };
    let pid = match split_second_of(&users, "pid=") {
        None => None,
        Some(r) => {
            let e = digit_run_end(&r, 0);
            let digits = copy_range(&r, 0, e);
            parse_u32(&digits)
        },
    };
    Some((name, pid))
}

/// IP (without brackets, "-" for a wildcard) and port of an `ss` endpoint such as
/// `10.0.0.1:443` or `[::1]:22`.
pub open spec fn spec_split_endpoint(ep: Seq<char>) -> (Seq<char>, Option<u16>) {
    if ep.len() == 0 || ep == "*"@ || ep == "*:*"@ {
        ("-"@, None)
    } else {
        let k = last_index_of(ep, ':', ep.len() as int);
        if k < 0 {
            (ep, None)
        } else {
            let ip0 = spec_trim_char(spec_trim_char(ep.subrange(0, k), '['), ']');
            let port_raw = ep.subrange(k + 1, ep.len() as int);
            let ip = if ip0 == "*"@ {
                "-"@
            } else {
                ip0
            };
            let port = if port_raw == "*"@ {
                None
            } else {
                parse_u16_spec(port_raw)
            };
            (ip, port)
        }
    }
}

pub fn split_endpoint(ep: &[char]) -> (r: (String, Option<u16>))
    ensures
        (r.0@, r.1) == spec_split_endpoint(ep@),
{
    if ep.len() == 0 || equals_str(ep, "*") || equals_str(ep, "*:*") {
        return (string_of(&chars_of("-")), None);
    }
    match rfind_char(ep, ':') {
        None => (string_of(ep), None),
        Some(k) => {
            let raw = copy_range(ep, 0, k);
            let ip0 = trim_char(&trim_char(&raw, '['), ']');
            let port_raw = copy_range(ep, k + 1, ep.len());
            let ip = if equals_str(&ip0, "*") {
                string_of(&chars_of("-"))
            } else {
                string_of(&ip0)
            };
            let port = if equals_str(&port_raw, "*") {
                None
            } else {
                parse_u16(&port_raw)
            };
            (ip, port)
        },
    }
}

pub open spec fn high_risk_port(p: u16) -> bool {
    p == 23 || p == 2323 || p == 4444 || p == 5555 || p == 6667 || p == 31337
}

pub open spec fn common_port(p: u16) -> bool {
    p == 80 || p == 443 || p == 53 || p == 123 || p == 22
}

/// Whether deciding suspicion needs to know if the remote address is public.
pub open spec fn needs_public_check(state: Seq<char>, port: Option<u16>) -> bool {
    !(state == "SYN-SENT"@ || state == "SYN-RECV"@) && port is Some && !high_risk_port(
        port->0,
    ) && state == "ESTAB"@ && !common_port(port->0)
}

/// Why a connection looks suspicious, if it does; `public` tells whether the remote
/// address is a public one.
pub open spec fn spec_suspicious(state: Seq<char>, port: Option<u16>, public: bool) -> Option<Seq<char>> {
    if state == "SYN-SENT"@ || state == "SYN-RECV"@ {
        Some("SYN handshake pending"@)
    } else {
        match port {
            None => None,
            Some(p) => if high_risk_port(p) {
                Some("Remote port "@ + spec_decimal(p as nat) + " is high-risk"@)
            } else if state == "ESTAB"@ && public && !common_port(p) {
                Some("External connection on uncommon port"@)
            } else {
                None
            },
        }
    }
}

/// Whether `f` may answer `b` when asked about an address spelled `ip`.
pub open spec fn classified_as<F: Fn(&str) -> bool>(f: F, ip: Seq<char>, b: bool) -> bool {
    exists|s: &str| s@ == ip && #[trigger] call_ensures(f, (s,), b)
}

/// Why a connection looks suspicious, if it does. `is_public` tells whether an address
/// is a public (routable) one; it is asked only when the answer matters.
pub fn suspicious_reason<F: Fn(&str) -> bool>(state: &[char], remote_ip: &str, remote_port: Option<u16>, is_public: &F) -> (r: Option<String>)
    requires
        forall|s: &str| call_requires(*is_public, (s,)),
    ensures
        exists|b: bool| (needs_public_check(state@, remote_port) ==> classified_as(*is_public, remote_ip@, b))
            && opt_text(r) == spec_suspicious(state@, remote_port, b),
{
    if equals_str(state, "SYN-SENT") || equals_str(state, "SYN-RECV") {
        let r = Some(string_of(&chars_of("SYN handshake pending")));
        assert(opt_text(r) == spec_suspicious(state@, remote_port, false));
        return r;
    }
    let port = match remote_port {
        None => {
            assert(opt_text(None) == spec_suspicious(state@, remote_port, false));
            return None;
        },
        Some(p) => p,
    };
    if port == 23 || port == 2323 || port == 4444 || port == 5555 || port == 6667 || port == 31337 {
        let mut m: Vec<char> = Vec::new();
        push_str(&mut m, "Remote port ");
        push_decimal(&mut m, port as u64);
        push_str(&mut m, " is high-risk");
        let r = Some(string_of(&m));
        assert(opt_text(r) == spec_suspicious(state@, remote_port, false));
        return r;
    }
    let common = port == 80 || port == 443 || port == 53 || port == 123 || port == 22;
    if equals_str(state, "ESTAB") && !common {
        let public = is_public(remote_ip);
        assert(classified_as(*is_public, remote_ip@, public));
        if public {
            let r = Some(string_of(&chars_of("External connection on uncommon port")));
            assert(opt_text(r) == spec_suspicious(state@, remote_port, public));
            return r;
        }
        assert(opt_text(None) == spec_suspicious(state@, remote_port, public));
        return None;
    }
    assert(opt_text(None) == spec_suspicious(state@, remote_port, false));
    None
}

/// An `ss` line as a connection row, with `public` deciding the public-address check.
pub open spec fn spec_connection_row(line: Seq<char>, public: bool) -> Option<ConnectionRowView> {
    let cols = spec_words(line);
    if cols.len() < 6 {
        None
    } else {
        let (name, pid) = match spec_process_info(line) {
            Some(info) => info,
            None => ("-"@, None),
        };
        let (ip, port) = spec_split_endpoint(cols[5]);
        Some(
            ConnectionRowView {
                proto: cols[0],
                state: cols[1],
                local: cols[4],
                remote: cols[5],
                process_name: name,
                pid,
                remote_ip: ip,
                remote_port: port,
                suspicious: spec_suspicious(cols[1], port, public),
            },
        )
    }
}

pub open spec fn row_option_view(r: Option<ConnectionRow>) -> Option<ConnectionRowView> {
    match r {
        Some(row) => Some(row@),
        None => None,
    }
}

/// Parses one line of `ss -tunapH` output.
pub fn parse_connection_line<F: Fn(&str) -> bool>(line: &[char], is_public: &F) -> (r: Option<ConnectionRow>)
    requires
        forall|s: &str| call_requires(*is_public, (s,)),
    ensures
        exists|b: bool| (r matches Some(row) ==> (needs_public_check(row.state@, row.remote_port) ==> classified_as(*is_public, row.remote_ip@, b)))
            && row_option_view(r) == spec_connection_row(line@, b),
{
    let cols = words(line);
    if cols.len() < 6 {
        assert(row_option_view(None) == spec_connection_row(line@, false));
        return None;
    }
    let (process_name, pid) = match parse_process_info(line) {
        Some(info) => info,
        None => (string_of(&chars_of("-")), None),
    };
    let (remote_ip, remote_port) = split_endpoint(&cols[5]);
    let suspicious = suspicious_reason(&cols[1], remote_ip.as_str(), remote_port, is_public);
    let row = ConnectionRow {
        proto: string_of(&cols[0]),
        state: string_of(&cols[1]),
        local: string_of(&cols[4]),
        remote: string_of(&cols[5]),
        process_name,
        pid,
        remote_ip,
        remote_port,
        suspicious,
    };
    let r = Some(row);
    assert(exists|b: bool| (r matches Some(row) ==> (needs_public_check(row.state@, row.remote_port) ==> classified_as(*is_public, row.remote_ip@, b)))
            && row_option_view(r) == spec_connection_row(line@, b));
    r
}

/// The lines that have the six columns a connection row needs, in order.
pub open spec fn parsable_lines(ls: Seq<Seq<char>>) -> Seq<Seq<char>>
    decreases ls.len(),
{
    if ls.len() == 0 {
        Seq::empty()
    } else {
        let prev = parsable_lines(ls.drop_last());
        if spec_words(ls.last()).len() >= 6 {
            prev.push(ls.last())
        } else {
            prev
        }
    }
}

/// Whether `row` is what parsing `line` gives, the public-address check answered by `f`.
pub open spec fn row_from_line<F: Fn(&str) -> bool>(f: F, line: Seq<char>, row: ConnectionRowView) -> bool {
    exists|b: bool| (needs_public_check(row.state, row.remote_port) ==> classified_as(f, row.remote_ip, b))
        && spec_connection_row(line, b) == Some(row)
}

/// Connection rows from `ss -tunapH` output: at most `limit`, one per line that has the
/// needed columns, in order.
pub fn connections_from_output<F: Fn(&str) -> bool>(text: &str, limit: usize, is_public: &F) -> (v: Vec<ConnectionRow>)
    requires
        forall|s: &str| call_requires(*is_public, (s,)),
    ensures
        v@.len() == vstd::math::min(limit as int, parsable_lines(spec_lines(text@)).len() as int),
        forall|j: int| 0 <= j < v@.len() ==> row_from_line(*is_public, parsable_lines(spec_lines(text@))[j], #[trigger] v@[j]@),
{
    let cs = chars_of(text);
    let ls = lines(&cs);
    let ghost lv = views(ls@);
    let mut v: Vec<ConnectionRow> = Vec::new();
    let mut i: usize = 0;
    while i < ls.len()
        invariant
            forall|s: &str| call_requires(*is_public, (s,)),
            i <= ls@.len(),
            lv == views(ls@),
            lv == spec_lines(text@),
            v@.len() == vstd::math::min(limit as int, parsable_lines(lv.take(i as int)).len() as int),
            forall|j: int| 0 <= j < v@.len() ==> row_from_line(*is_public, parsable_lines(lv.take(i as int))[j], #[trigger] v@[j]@),
        decreases ls.len() - i,
    {
        let ghost prev = parsable_lines(lv.take(i as int));
        assert(lv.take(i + 1).drop_last() =~= lv.take(i as int));
        assert(lv.take(i + 1).last() == ls@[i as int]@);
        let r = parse_connection_line(&ls[i], is_public);
        match r {
            Some(row) => {
                assert(spec_words(ls@[i as int]@).len() >= 6);
                assert(parsable_lines(lv.take(i + 1)) == prev.push(ls@[i as int]@));
                if v.len() < limit {
                    assert(row_from_line(*is_public, ls@[i as int]@, row@));
                    v.push(row);
                }
            },
            None => {
                assert(parsable_lines(lv.take(i + 1)) == prev);
            },
        }
        i = i + 1;
    }
    assert(lv.take(ls@.len() as int) =~= lv);
    v
}

/// Active TCP/UDP connections listed by `ss`, at most `limit`, on Linux hosts.
pub fn collect_connections<P: CommandProvider, F: Fn(&str) -> bool>(provider: &mut P, limit: usize, is_public: &F) -> (v: Vec<ConnectionRow>)
    requires
        forall|s: &str| call_requires(*is_public, (s,)),
    ensures
        same_host(*old(provider), *final(provider)),
        !old(provider).on_linux() ==> v@.len() == 0,
        !old(provider).on_linux() ==> final(provider).ran() == old(provider).ran(),
        old(provider).on_linux() ==> final(provider).ran() == old(provider).ran().push(command_line("ss"@, args1("-tunapH"@))),
        old(provider).on_linux() ==> exists|a| #[trigger] old(provider).answers("ss"@, args1("-tunapH"@), a) && match a {
            Ok(o) => if o.success {
                &&& v@.len() == vstd::math::min(limit as int, parsable_lines(spec_lines(o.stdout)).len() as int)
                &&& forall|j: int| 0 <= j < v@.len() ==> row_from_line(*is_public, parsable_lines(spec_lines(o.stdout))[j], #[trigger] v@[j]@)
            } else {
                v@.len() == 0
            },
            Err(_) => v@.len() == 0,
        },
{
    if !provider.is_linux() {
        return Vec::new();
    }
    let args = ["-tunapH"];
    assert(str_views(args@) =~= args1("-tunapH"@));
    let r = provider.run("ss", &args);
    match r {
        Err(_) => Vec::new(),
        Ok(o) => if o.success {
            connections_from_output(o.stdout.as_str(), limit, is_public)
        } else {
            Vec::new()
        },
    }
}

/// The number that follows `marker` in a line (`bytes_sent:123` gives 123).
pub open spec fn spec_parse_counter(line: Seq<char>, marker: Seq<char>) -> Option<u64> {
    match split_second(line, marker) {
        None => None,
        Some(rest) => {
            let w = spec_words(rest);
            if w.len() == 0 {
                None
            } else {
                crate::text::parse_u64_spec(w[0])
            }
        },
    }
}

pub fn parse_counter(line: &[char], marker: &str) -> (r: Option<u64>)
    requires
        marker@.len() > 0,
    ensures
        r == spec_parse_counter(line@, marker@),
{
    match split_second_of(line, marker) {
        None => None,
        Some(rest) => {
            let w = words(&rest);
            if w.len() == 0 {
                None
            } else {
                crate::text::parse_u64(&w[0])
            }
        },
    }
}

/// Whether `which` finds the binary.
pub fn command_exists<P: CommandProvider>(provider: &mut P, bin: &str) -> (b: bool)
    ensures
        ran_lines(*old(provider), *final(provider), seq![command_line("which"@, args1(bin@))]),
        exists|a| #[trigger] old(provider).answers("which"@, args1(bin@), a) && b == (a matches Ok(o) && o.success),
{
    let args = [bin];
    assert(str_views(args@) =~= args1(bin@));
    let res = provider.run("which", &args);
    assert(provider.ran() =~= old(provider).ran() + seq![command_line("which"@, args1(bin@))]);
    match res {
        Ok(o) => o.success,
        Err(_) => false,
    }
}

/// The first `limit` items of a sequence (all of them when it has fewer).
pub open spec fn first_n<T>(s: Seq<T>, limit: nat) -> Seq<T> {
    if s.len() <= limit {
        s
    } else {
        s.take(limit as int)
    }
}

/// The first `limit` lines of a text.
pub fn first_lines(text: &str, limit: usize) -> (v: Vec<String>)
    ensures
        string_views(v@) == first_n(spec_lines(text@), limit as nat),
{
    let all = crate::text::line_strings(text);
    let mut v: Vec<String> = Vec::new();
    let mut i: usize = 0;
    while i < all.len() && i < limit
        invariant
            i <= all@.len(),
            i <= limit,
            string_views(v@) == string_views(all@).take(i as int),
        decreases all.len() - i,
    {
        let ghost before = v@;
        let c = all[i].clone();
        v.push(c);
        assert(string_views(v@) =~= string_views(before).push(c@));
        assert(string_views(all@).take(i + 1) =~= string_views(all@).take(i as int).push(all@[i as int]@));
        i = i + 1;
    }
    assert(string_views(all@).take(all@.len() as int) =~= string_views(all@));
    v
}

/// "<what> failed" or "<what> failed: <stderr>", with the stderr text trimmed.
pub open spec fn failure_text(what: Seq<char>, stderr: Seq<char>) -> Seq<char> {
    if spec_trim(stderr).len() == 0 {
        what
    } else {
        what + ": "@ + spec_trim(stderr)
    }
}

fn failure_line(what: &str, stderr: &String) -> (s: String)
    ensures
        s@ == failure_text(what@, stderr@),
{
    let sc = chars_of(stderr.as_str());
    let t = trim(&sc);
    let mut m: Vec<char> = Vec::new();
    push_str(&mut m, what);
    if t.len() > 0 {
        push_str(&mut m, ": ");
        push_chars(&mut m, &t);
    }
    string_of(&m)
}

fn single(s: String) -> (v: Vec<String>)
    ensures
        string_views(v@) == seq![s@],
{
    let mut v: Vec<String> = Vec::new();
    v.push(s);
    assert(string_views(v@) =~= seq![s@]);
    v
}

fn single_str(s: &str) -> (v: Vec<String>)
    ensures
        string_views(v@) == seq![s@],
{
    single(string_of(&chars_of(s)))
}

/// What a diagnostic tool's answer shows: its first lines on success, one line saying it
/// failed otherwise, or one saying it could not be run.
pub open spec fn tool_result(a: Result<CommandOutputView, Seq<char>>, limit: nat, unavailable: Seq<char>, failed: Seq<char>) -> Seq<Seq<char>> {
    match a {
        Err(_) => seq![unavailable],
        Ok(o) => if o.success {
            first_n(spec_lines(o.stdout), limit)
        } else {
            seq![failure_text(failed, o.stderr)]
        },
    }
}

fn tool_outcome(r: Result<CommandOutput, String>, limit: usize, unavailable: &str, failed: &str) -> (v: Vec<String>)
    ensures
        string_views(v@) == tool_result(answer_view(r), limit as nat, unavailable@, failed@),
{
    match r {
        Err(_) => single_str(unavailable),
        Ok(o) => if o.success {
            first_lines(o.stdout.as_str(), limit)
        } else {
            single(failure_line(failed, &o.stderr))
        },
    }
}

pub open spec fn succeeded(a: Result<CommandOutputView, Seq<char>>) -> bool {
    a matches Ok(o) && o.success
}

/// Whether `v` is what a DNS lookup of the target may give: the first `limit` lines of
/// `getent ahosts`, or else what `nslookup` gives.
pub open spec fn dns_lookup_gives<P: CommandProvider>(provider: P, target: Seq<char>, limit: nat, v: Seq<Seq<char>>) -> bool {
    &&& spec_trim(target).len() == 0 ==> v == seq!["Empty lookup target"@]
    &&& spec_trim(target).len() > 0 ==> exists|a| #[trigger] provider.answers("getent"@, args2("ahosts"@, target), a)
        && if succeeded(a) {
        v == first_n(spec_lines(a->Ok_0.stdout), limit)
    } else {
        exists|b| #[trigger] provider.answers("nslookup"@, args1(target), b) && v == tool_result(
            b,
            limit,
            "DNS lookup command unavailable"@,
            "DNS lookup failed"@,
        )
    }
}

/// DNS records for a target through `getent ahosts`, falling back to `nslookup`.
pub fn run_dns_lookup<P: CommandProvider>(provider: &mut P, target: &str, limit: usize) -> (v: Vec<String>)
    ensures
        same_host(*old(provider), *final(provider)),
        dns_lookup_gives(*old(provider), target@, limit as nat, string_views(v@)),
        spec_trim(target@).len() == 0 ==> final(provider).ran() == old(provider).ran(),
        spec_trim(target@).len() > 0 ==> exists|a| #[trigger]
            old(provider).answers("getent"@, args2("ahosts"@, target@), a) && if succeeded(a) {
            string_views(v@) == first_n(spec_lines(a->Ok_0.stdout), limit as nat) && final(provider).ran()
                == old(provider).ran().push(command_line("getent"@, args2("ahosts"@, target@)))
        } else {
            final(provider).ran() == old(provider).ran().push(command_line("getent"@, args2("ahosts"@, target@))).push(
                command_line("nslookup"@, args1(target@)),
            )
        },
{
    let tc = chars_of(target);
    let t = trim(&tc);
    if t.len() == 0 {
        return single_str("Empty lookup target");
    }
    let args = ["ahosts", target];
    assert(str_views(args@) =~= args2("ahosts"@, target@));
    let g = provider.run("getent", &args);
    if let Ok(o) = &g {
        if o.success {
            return first_lines(o.stdout.as_str(), limit);
        }
    }
    let args2 = [target];
    assert(str_views(args2@) =~= args1(target@));
    let n = provider.run("nslookup", &args2);
    tool_outcome(n, limit, "DNS lookup command unavailable", "DNS lookup failed")
}

pub open spec fn ping_args(target: Seq<char>) -> Seq<Seq<char>> {
    seq!["-c"@, "2"@, "-W"@, "1"@, target]
}

/// Whether `v` is what pinging the target may give.
pub open spec fn ping_gives<P: CommandProvider>(provider: P, target: Seq<char>, limit: nat, v: Seq<Seq<char>>) -> bool {
    &&& spec_trim(target).len() == 0 ==> v == seq!["Empty ping target"@]
    &&& spec_trim(target).len() > 0 ==> exists|a| #[trigger] provider.answers("ping"@, ping_args(target), a) && v
        == tool_result(a, limit, "Ping command unavailable"@, "Ping failed"@)
}

/// Two pings to the target.
pub fn run_ping<P: CommandProvider>(provider: &mut P, target: &str, limit: usize) -> (v: Vec<String>)
    ensures
        same_host(*old(provider), *final(provider)),
        ping_gives(*old(provider), target@, limit as nat, string_views(v@)),
        spec_trim(target@).len() == 0 ==> final(provider).ran() == old(provider).ran(),
        spec_trim(target@).len() > 0 ==> final(provider).ran() == old(provider).ran().push(
            command_line("ping"@, ping_args(target@)),
        ),
{
    let tc = chars_of(target);
    let t = trim(&tc);
    if t.len() == 0 {
        return single_str("Empty ping target");
    }
    let args = ["-c", "2", "-W", "1", target];
    assert(str_views(args@) =~= ping_args(target@));
    let r = provider.run("ping", &args);
    tool_outcome(r, limit, "Ping command unavailable", "Ping failed")
}

pub open spec fn traceroute_args(target: Seq<char>) -> Seq<Seq<char>> {
    seq!["-n"@, "-m"@, "6"@, target]
}

/// Whether `v` is what tracing the route to the target may give: the first `limit` lines
/// of `tracepath`, or else what `traceroute` gives.
pub open spec fn traceroute_gives<P: CommandProvider>(provider: P, target: Seq<char>, limit: nat, v: Seq<Seq<char>>) -> bool {
    &&& spec_trim(target).len() == 0 ==> v == seq!["Empty traceroute target"@]
    &&& spec_trim(target).len() > 0 ==> exists|a| #[trigger] provider.answers("tracepath"@, args2("-n"@, target), a)
        && if succeeded(a) {
        v == first_n(spec_lines(a->Ok_0.stdout), limit)
    } else {
        exists|b| #[trigger] provider.answers("traceroute"@, traceroute_args(target), b) && v == tool_result(
            b,
            limit,
            "Traceroute command unavailable"@,
            "Traceroute failed"@,
        )
    }
}

/// The route to a target through `tracepath`, falling back to `traceroute`.
pub fn run_traceroute<P: CommandProvider>(provider: &mut P, target: &str, limit: usize) -> (v: Vec<String>)
    ensures
        same_host(*old(provider), *final(provider)),
        traceroute_gives(*old(provider), target@, limit as nat, string_views(v@)),
        spec_trim(target@).len() == 0 ==> final(provider).ran() == old(provider).ran(),
        spec_trim(target@).len() > 0 ==> exists|a| #[trigger]
            old(provider).answers("tracepath"@, args2("-n"@, target@), a) && if succeeded(a) {
            string_views(v@) == first_n(spec_lines(a->Ok_0.stdout), limit as nat) && final(provider).ran()
                == old(provider).ran().push(command_line("tracepath"@, args2("-n"@, target@)))
        } else {
            final(provider).ran() == old(provider).ran().push(command_line("tracepath"@, args2("-n"@, target@))).push(
                command_line("traceroute"@, traceroute_args(target@)),
            )
        },
{
    let tc = chars_of(target);
    let t = trim(&tc);
    if t.len() == 0 {
        return single_str("Empty traceroute target");
    }
    let args = ["-n", target];
    assert(str_views(args@) =~= args2("-n"@, target@));
    let g = provider.run("tracepath", &args);
    if let Ok(o) = &g {
        if o.success {
            return first_lines(o.stdout.as_str(), limit);
        }
    }
    let args2 = ["-n", "-m", "6", target];
    assert(str_views(args2@) =~= traceroute_args(target@));
    let r = provider.run("traceroute", &args2);
    tool_outcome(r, limit, "Traceroute command unavailable", "Traceroute failed")
}

/// The URL an HTTP probe requests: the trimmed target, with `http://` added when it
/// names no scheme.
pub open spec fn probe_url(target: Seq<char>) -> Seq<char> {
    let t = spec_trim(target);
    if crate::text::spec_starts_with(t, "http://"@) || crate::text::spec_starts_with(t, "https://"@) {
        t
    } else {
        "http://"@ + t
    }
}

pub open spec fn curl_args(url: Seq<char>) -> Seq<Seq<char>> {
    seq![
        "-sS"@,
        "-o"@,
        "/dev/null"@,
        "-L"@,
        "--max-time"@,
        "3"@,
        "-w"@,
        "code=%{http_code} ip=%{remote_ip} connect=%{time_connect}s total=%{time_total}s"@,
        url,
    ]
}

/// Whether `v` is what probing the target over HTTP may give.
pub open spec fn http_probe_gives<P: CommandProvider>(provider: P, target: Seq<char>, limit: nat, v: Seq<Seq<char>>) -> bool {
    &&& spec_trim(target).len() == 0 ==> v == seq!["Empty HTTP probe target"@]
    &&& spec_trim(target).len() > 0 ==> exists|a| #[trigger] provider.answers("curl"@, curl_args(probe_url(target)), a)
        && v == tool_result(a, limit, "HTTP probe command unavailable (curl)"@, "HTTP probe failed"@)
}

/// Status code and timings of an HTTP request to the target, through `curl`.
pub fn run_http_probe<P: CommandProvider>(provider: &mut P, target: &str, limit: usize) -> (v: Vec<String>)
    ensures
        same_host(*old(provider), *final(provider)),
        http_probe_gives(*old(provider), target@, limit as nat, string_views(v@)),
        spec_trim(target@).len() == 0 ==> final(provider).ran() == old(provider).ran(),
        spec_trim(target@).len() > 0 ==> final(provider).ran() == old(provider).ran().push(
            command_line("curl"@, curl_args(probe_url(target@))),
        ),
{
    let tc = chars_of(target);
    let t = trim(&tc);
    if t.len() == 0 {
        return single_str("Empty HTTP probe target");
    }
    let mut host: Vec<char> = Vec::new();
    if !crate::text::starts_with_str(&t, "http://") && !crate::text::starts_with_str(&t, "https://") {
        push_str(&mut host, "http://");
    }
    push_chars(&mut host, &t);
    let url = string_of(&host);
    assert(url@ == probe_url(target@));
    let args = [
        "-sS",
        "-o",
        "/dev/null",
        "-L",
        "--max-time",
        "3",
        "-w",
        "code=%{http_code} ip=%{remote_ip} connect=%{time_connect}s total=%{time_total}s",
        url.as_str(),
    ];
    assert(str_views(args@) =~= curl_args(probe_url(target@)));
    let r = provider.run("curl", &args);
    tool_outcome(r, limit, "HTTP probe command unavailable (curl)", "HTTP probe failed")
}

pub open spec fn text_result(r: Result<String, String>) -> Result<Seq<char>, Seq<char>> {
    match r {
        Ok(s) => Ok(s@),
        Err(e) => Err(e@),
    }
}

/// Whether a connection is a TCP flow to a known remote endpoint, which `ss -K` can end.
pub open spec fn killable_flow(c: ConnectionRowView) -> bool {
    crate::text::spec_starts_with(c.proto, "tcp"@) && c.remote_ip.len() > 0 && c.remote_ip != "-"@
        && c.remote_port is Some
}

pub open spec fn ss_kill_args(ip: Seq<char>, port: u16) -> Seq<Seq<char>> {
    seq!["-K"@, "dst"@, ip, "dport"@, "="@, spec_decimal(port as nat)]
}

pub open spec fn kill_args(pid: u32) -> Seq<Seq<char>> {
    seq!["-KILL"@, spec_decimal(pid as nat)]
}

/// What killing the owning process gives for the `kill` answer.
pub open spec fn kill_pid_result(pid: u32, a: Result<CommandOutputView, Seq<char>>) -> Result<Seq<char>, Seq<char>> {
    match a {
        Err(e) => Err(e),
        Ok(o) => if o.success {
            Ok("Killed connection owner PID "@ + spec_decimal(pid as nat))
        } else {
            Err(failure_text("Failed to kill PID "@ + spec_decimal(pid as nat), o.stderr))
        },
    }
}

/// Whether killing the connection's owner may give `r` after running `lines` (when no
/// PID is known, the error says so and nothing runs).
pub open spec fn kill_owner_outcome<P: CommandProvider>(
    provider: P,
    c: ConnectionRowView,
    r: Result<Seq<char>, Seq<char>>,
    lines: Seq<(Seq<char>, Seq<Seq<char>>)>,
) -> bool {
    match c.pid {
        None => r == Err::<Seq<char>, Seq<char>>("No owning PID found for selected connection"@) && lines
            == Seq::<(Seq<char>, Seq<Seq<char>>)>::empty(),
        Some(pid) => lines == seq![command_line("kill"@, kill_args(pid))] && exists|b| #[trigger]
            provider.answers("kill"@, kill_args(pid), b) && r == kill_pid_result(pid, b),
    }
}

/// What ending a connection gives, and the command lines it runs: its TCP flow through
/// `ss -K` when that can be tried, and only when that does not work, the outcome of
/// killing the owning process. Linux hosts only; elsewhere nothing runs.
pub open spec fn kill_connection_result<P: CommandProvider>(
    provider: P,
    conn: ConnectionRowView,
    r: Result<Seq<char>, Seq<char>>,
    lines: Seq<(Seq<char>, Seq<Seq<char>>)>,
) -> bool {
    &&& !provider.on_linux() ==> r == Err::<Seq<char>, Seq<char>>(
        "connection actions are currently supported on Linux hosts only"@,
    ) && lines == Seq::<(Seq<char>, Seq<Seq<char>>)>::empty()
    &&& provider.on_linux() ==> if killable_flow(conn) {
        let ss = command_line("ss"@, ss_kill_args(conn.remote_ip, conn.remote_port->0));
        exists|a| #[trigger] provider.answers("ss"@, ss_kill_args(conn.remote_ip, conn.remote_port->0), a)
            && lines.len() >= 1 && lines[0] == ss && if succeeded(a) {
            r == Ok::<Seq<char>, Seq<char>>(
                "Killed TCP flow to "@ + conn.remote_ip + ":"@ + spec_decimal(conn.remote_port->0 as nat),
            ) && lines.len() == 1
        } else {
            kill_owner_outcome(provider, conn, r, lines.drop_first())
        }
    } else {
        kill_owner_outcome(provider, conn, r, lines)
    }
}

/// Ends a connection: its TCP flow through `ss -K` when that can be tried and works,
/// otherwise by killing the owning process. Linux hosts only.
pub fn kill_connection<P: CommandProvider>(provider: &mut P, conn: &ConnectionRow) -> (r: Result<String, String>)
    ensures
        ran_lines(*old(provider), *final(provider), lines_since(*old(provider), *final(provider))),
        kill_connection_result(*old(provider), conn@, text_result(r), lines_since(*old(provider), *final(provider))),
{
    if !provider.is_linux() {
        proof {
            lemma_lines_since(*old(provider), *provider, Seq::empty());
        }
        return Err(string_of(&chars_of("connection actions are currently supported on Linux hosts only")));
    }
    let ghost mut tried: Seq<(Seq<char>, Seq<Seq<char>>)> = Seq::empty();
    let proto = chars_of(conn.proto.as_str());
    let ip = chars_of(conn.remote_ip.as_str());
    if crate::text::starts_with_str(&proto, "tcp") && ip.len() > 0 && !equals_str(&ip, "-") {
        if let Some(port) = conn.remote_port {
            let ps = decimal_string(port as u64);
            let args = ["-K", "dst", conn.remote_ip.as_str(), "dport", "=", ps.as_str()];
            assert(str_views(args@) =~= ss_kill_args(conn.remote_ip@, port));
            let out = provider.run("ss", &args);
            proof {
                tried = seq![command_line("ss"@, ss_kill_args(conn.remote_ip@, port))];
            }
            if let Ok(o) = &out {
                if o.success {
                    let mut m: Vec<char> = Vec::new();
                    push_str(&mut m, "Killed TCP flow to ");
                    push_chars(&mut m, &ip);
                    push_str(&mut m, ":");
                    push_decimal(&mut m, port as u64);
                    proof {
                        lemma_lines_since(*old(provider), *provider, tried);
                    }
                    return Ok(string_of(&m));
                }
            }
        }
    }
    assert(provider.ran() =~= old(provider).ran() + tried);
    assert(tried.len() == 0 <==> !killable_flow(conn@));
    let pid = match conn.pid {
        None => {
            proof {
                lemma_lines_since(*old(provider), *provider, tried);
                assert(tried.len() > 0 ==> tried.drop_first() =~= Seq::empty());
            }
            return Err(string_of(&chars_of("No owning PID found for selected connection")));
        },
        Some(p) => p,
    };
    let pid_text = decimal_string(pid as u64);
    let args = ["-KILL", pid_text.as_str()];
    assert(str_views(args@) =~= kill_args(pid));
    let res = provider.run("kill", &args);
    proof {
        let all = tried + seq![command_line("kill"@, kill_args(pid))];
        lemma_lines_since(*old(provider), *provider, all);
        if tried.len() > 0 {
            assert(all.drop_first() =~= seq![command_line("kill"@, kill_args(pid))]);
        } else {
            assert(all =~= seq![command_line("kill"@, kill_args(pid))]);
        }
    }
    match res {
        Err(e) => Err(e),
        Ok(o) => {
            let mut what: Vec<char> = Vec::new();
            if o.success {
                push_str(&mut what, "Killed connection owner PID ");
                push_decimal(&mut what, pid as u64);
                Ok(string_of(&what))
            } else {
                push_str(&mut what, "Failed to kill PID ");
                push_decimal(&mut what, pid as u64);
                let w = string_of(&what);
                Err(failure_line(w.as_str(), &o.stderr))
            }
        },
    }
}

pub open spec fn ufw_args(ip: Seq<char>) -> Seq<Seq<char>> {
    seq!["--force"@, "deny"@, "from"@, ip]
}

pub open spec fn iptables_args(chain: Seq<char>, flag: Seq<char>, ip: Seq<char>) -> Seq<Seq<char>> {
    seq!["-I"@, chain, flag, ip, "-j"@, "DROP"@]
}

/// What blocking through `ufw` gives for its answer.
pub open spec fn ufw_result(ip: Seq<char>, a: Result<CommandOutputView, Seq<char>>) -> Result<Seq<char>, Seq<char>> {
    match a {
        Err(e) => Err(e),
        Ok(o) => if o.success {
            Ok("Blocked "@ + ip + " via ufw deny"@)
        } else {
            Err(failure_text("ufw deny failed for "@ + ip, o.stderr))
        },
    }
}

/// Whether blocking through `iptables` may give `r` after running `lines`: an INPUT rule,
/// then an OUTPUT rule only when the INPUT rule went in.
pub open spec fn iptables_outcome<P: CommandProvider>(
    provider: P,
    ip: Seq<char>,
    r: Result<Seq<char>, Seq<char>>,
    lines: Seq<(Seq<char>, Seq<Seq<char>>)>,
) -> bool {
    let input = command_line("iptables"@, iptables_args("INPUT"@, "-s"@, ip));
    let output = command_line("iptables"@, iptables_args("OUTPUT"@, "-d"@, ip));
    exists|a| #[trigger] provider.answers("iptables"@, iptables_args("INPUT"@, "-s"@, ip), a) && match a {
        Err(e) => r == Err::<Seq<char>, Seq<char>>(e) && lines == seq![input],
        Ok(o) => if !o.success {
            r == Err::<Seq<char>, Seq<char>>(failure_text("iptables INPUT rule failed for "@ + ip, o.stderr))
                && lines == seq![input]
        } else {
            lines == seq![input, output] && exists|b| #[trigger]
                provider.answers("iptables"@, iptables_args("OUTPUT"@, "-d"@, ip), b) && match b {
                Err(e) => r == Err::<Seq<char>, Seq<char>>(e),
                Ok(o2) => if o2.success {
                    r == Ok::<Seq<char>, Seq<char>>("Blocked "@ + ip + " via iptables"@)
                } else {
                    r == Err::<Seq<char>, Seq<char>>(failure_text("iptables OUTPUT rule failed for "@ + ip, o2.stderr))
                },
            }
        },
    }
}

/// What blocking traffic from and to an address gives, and the command lines it runs:
/// after `which ufw`, only `ufw` when it is installed, otherwise `iptables`. Linux hosts
/// only; elsewhere, and for a missing address, nothing runs.
pub open spec fn block_ip_result<P: CommandProvider>(
    provider: P,
    ip: Seq<char>,
    r: Result<Seq<char>, Seq<char>>,
    lines: Seq<(Seq<char>, Seq<Seq<char>>)>,
) -> bool {
    &&& !provider.on_linux() ==> r == Err::<Seq<char>, Seq<char>>(
        "IP blocking is currently supported on Linux hosts only"@,
    ) && lines == Seq::<(Seq<char>, Seq<Seq<char>>)>::empty()
    &&& provider.on_linux() && (ip.len() == 0 || ip == "-"@) ==> r == Err::<Seq<char>, Seq<char>>(
        "No remote IP found for selected connection"@,
    ) && lines == Seq::<(Seq<char>, Seq<Seq<char>>)>::empty()
    &&& provider.on_linux() && !(ip.len() == 0 || ip == "-"@) ==> lines.len() >= 1 && lines[0] == command_line(
        "which"@,
        args1("ufw"@),
    ) && exists|w| #[trigger] provider.answers("which"@, args1("ufw"@), w) && if succeeded(w) {
        lines.drop_first() == seq![command_line("ufw"@, ufw_args(ip))] && exists|a| #[trigger]
            provider.answers("ufw"@, ufw_args(ip), a) && r == ufw_result(ip, a)
    } else {
        iptables_outcome(provider, ip, r, lines.drop_first())
    }
}

pub fn block_ip<P: CommandProvider>(provider: &mut P, ip: &str) -> (r: Result<String, String>)
    ensures
        ran_lines(*old(provider), *final(provider), lines_since(*old(provider), *final(provider))),
        block_ip_result(*old(provider), ip@, text_result(r), lines_since(*old(provider), *final(provider))),
{
    if !provider.is_linux() {
        proof {
            lemma_lines_since(*old(provider), *provider, Seq::empty());
        }
        return Err(string_of(&chars_of("IP blocking is currently supported on Linux hosts only")));
    }
    let ic = chars_of(ip);
    if ic.len() == 0 || equals_str(&ic, "-") {
        proof {
            lemma_lines_since(*old(provider), *provider, Seq::empty());
        }
        return Err(string_of(&chars_of("No remote IP found for selected connection")));
    }
    let ghost which = command_line("which"@, args1("ufw"@));
    if command_exists(provider, "ufw") {
        let args = ["--force", "deny", "from", ip];
        assert(str_views(args@) =~= ufw_args(ip@));
        let res = provider.run("ufw", &args);
        proof {
            let all = seq![which, command_line("ufw"@, ufw_args(ip@))];
            lemma_lines_since(*old(provider), *provider, all);
            assert(all.drop_first() =~= seq![command_line("ufw"@, ufw_args(ip@))]);
        }
        return match res {
            Err(e) => Err(e),
            Ok(o) => {
                let mut m: Vec<char> = Vec::new();
                if o.success {
                    push_str(&mut m, "Blocked ");
                    push_str(&mut m, ip);
                    push_str(&mut m, " via ufw deny");
                    Ok(string_of(&m))
                } else {
                    push_str(&mut m, "ufw deny failed for ");
                    push_str(&mut m, ip);
                    let w = string_of(&m);
                    Err(failure_line(w.as_str(), &o.stderr))
                }
            },
        };
    }
    let args = ["-I", "INPUT", "-s", ip, "-j", "DROP"];
    assert(str_views(args@) =~= iptables_args("INPUT"@, "-s"@, ip@));
    let ghost input = command_line("iptables"@, iptables_args("INPUT"@, "-s"@, ip@));
    let first = provider.run("iptables", &args);
    proof {
        let all = seq![which, input];
        lemma_lines_since(*old(provider), *provider, all);
        assert(all.drop_first() =~= seq![input]);
    }
    let input_out = match first {
        Err(e) => return Err(e),
        Ok(o) => o,
    };
    if !input_out.success {
        let mut m: Vec<char> = Vec::new();
        push_str(&mut m, "iptables INPUT rule failed for ");
        push_str(&mut m, ip);
        let w = string_of(&m);
        return Err(failure_line(w.as_str(), &input_out.stderr));
    }
    let args2 = ["-I", "OUTPUT", "-d", ip, "-j", "DROP"];
    assert(str_views(args2@) =~= iptables_args("OUTPUT"@, "-d"@, ip@));
    let second = provider.run("iptables", &args2);
    proof {
        let output = command_line("iptables"@, iptables_args("OUTPUT"@, "-d"@, ip@));
        let all = seq![which, input, output];
        lemma_lines_since(*old(provider), *provider, all);
        assert(all.drop_first() =~= seq![input, output]);
    }
    match second {
        Err(e) => Err(e),
        Ok(o) => {
            let mut m: Vec<char> = Vec::new();
            if o.success {
                push_str(&mut m, "Blocked ");
                push_str(&mut m, ip);
                push_str(&mut m, " via iptables");
                Ok(string_of(&m))
            } else {
                push_str(&mut m, "iptables OUTPUT rule failed for ");
                push_str(&mut m, ip);
                let w = string_of(&m);
                Err(failure_line(w.as_str(), &o.stderr))
            }
        },
    }
}

/// Interface name from an `ip -o` column such as `eth0:` or `veth1@if2:`.
pub open spec fn iface_name(col: Seq<char>) -> Seq<char> {
    before_char(spec_trim_end_char(col, ':'), '@')
}

fn interface_name(col: &Vec<char>) -> (r: Vec<char>)
    ensures
        r@ == iface_name(col@),
{
    let t = trim_end_char(col, ':');
    prefix_before(&t, '@')
}

/// An association list ordered by name: the address list of `name` gets `addr` appended,
/// a new entry standing in name order when there was none.
pub open spec fn assoc_push(l: Seq<(Seq<char>, Seq<Seq<char>>)>, name: Seq<char>, addr: Seq<char>) -> Seq<(Seq<char>, Seq<Seq<char>>)>
    decreases l.len(),
{
    if l.len() == 0 {
        seq![(name, seq![addr])]
    } else if l[0].0 == name {
        l.update(0, (name, l[0].1.push(addr)))
    } else if lex_lt(name, l[0].0) {
        seq![(name, seq![addr])] + l
    } else {
        seq![l[0]] + assoc_push(l.drop_first(), name, addr)
    }
}

/// Addresses per interface from `ip -o addr show` lines: `inet` and `inet6` entries.
pub open spec fn addresses_from(ls: Seq<Seq<char>>) -> Seq<(Seq<char>, Seq<Seq<char>>)>
    decreases ls.len(),
{
    if ls.len() == 0 {
        Seq::empty()
    } else {
        let m = addresses_from(ls.drop_last());
        let c = spec_words(ls.last());
        if c.len() >= 4 && (c[2] == "inet"@ || c[2] == "inet6"@) {
            assoc_push(m, iface_name(c[1]), c[3])
        } else {
            m
        }
    }
}

pub open spec fn address_list_view(l: Seq<(String, Vec<String>)>) -> Seq<(Seq<char>, Seq<Seq<char>>)> {
    l.map_values(|p: (String, Vec<String>)| (p.0@, string_views(p.1@)))
}

proof fn lemma_assoc_push_skip(l: Seq<(Seq<char>, Seq<Seq<char>>)>, name: Seq<char>, addr: Seq<char>, i: int)
    requires
        0 <= i <= l.len(),
        forall|j: int| 0 <= j < i ==> l[j].0 != name && !lex_lt(name, l[j].0),
    ensures
        assoc_push(l, name, addr) == l.take(i) + assoc_push(l.skip(i), name, addr),
    decreases i,
{
    if i > 0 {
        let t = l.drop_first();
        assert forall|j: int| 0 <= j < i - 1 implies t[j].0 != name && !lex_lt(name, t[j].0) by {
            assert(t[j] == l[j + 1]);
        }
        lemma_assoc_push_skip(t, name, addr, i - 1);
        assert(t.skip(i - 1) =~= l.skip(i));
        assert(seq![l[0]] + t.take(i - 1) =~= l.take(i));
        assert(assoc_push(l, name, addr) == seq![l[0]] + assoc_push(t, name, addr));
        assert((seq![l[0]] + t.take(i - 1)) + assoc_push(l.skip(i), name, addr) =~= seq![l[0]] + (t.take(i - 1) + assoc_push(t.skip(i - 1), name, addr)));
    } else {
        assert(l.skip(0) =~= l);
        assert(l.take(0) + assoc_push(l, name, addr) =~= assoc_push(l, name, addr));
    }
}

/// Appends an address to an interface's entry of an ordered association list.
pub fn push_address(list: &mut Vec<(String, Vec<String>)>, name: String, addr: String)
    ensures
        address_list_view(final(list)@) == assoc_push(address_list_view(old(list)@), name@, addr@),
{
    let ghost l0 = address_list_view(list@);
    let nc = chars_of(name.as_str());
    let mut i: usize = 0;
    let mut stop = false;
    while i < list.len() && !stop
        invariant
            i <= list@.len(),
            *list == *old(list),
            l0 == address_list_view(list@),
            nc@ == name@,
            forall|j: int| 0 <= j < i ==> l0[j].0 != name@ && !lex_lt(name@, l0[j].0),
            stop ==> i < list@.len() && (l0[i as int].0 == name@ || lex_lt(name@, l0[i as int].0)),
        decreases list.len() - i, if stop { 0int } else { 1int },
    {
        let kc = chars_of(list[i].0.as_str());
        if chars_eq(&kc, &nc) || less_than(&nc, &kc) {
            stop = true;
        } else {
            i = i + 1;
        }
    }
    proof {
        lemma_assoc_push_skip(l0, name@, addr@, i as int);
    }
    let ghost rest = l0.skip(i as int);
    if i < list.len() {
        let kc = chars_of(list[i].0.as_str());
        if chars_eq(&kc, &nc) {
            let (k, mut v) = list.remove(i);
            let ghost vv = v@;
            let ghost av = addr@;
            v.push(addr);
            assert(string_views(v@) =~= string_views(vv).push(av));
            list.insert(i, (k, v));
            assert(address_list_view(list@) =~= l0.take(i as int) + assoc_push(rest, name@, av));
            return;
        }
    }
    let ghost av = addr@;
    let mut v: Vec<String> = Vec::new();
    v.push(addr);
    assert(string_views(v@) =~= seq![av]);
    list.insert(i, (name, v));
    assert(address_list_view(list@) =~= l0.take(i as int) + assoc_push(rest, nc@, av));
}

/// Addresses per interface from `ip -o addr show` output, ordered by interface name.
pub fn interface_addresses_from(text: &str) -> (r: Vec<(String, Vec<String>)>)
    ensures
        address_list_view(r@) == addresses_from(spec_lines(text@)),
{
    let cs = chars_of(text);
    let ls = lines(&cs);
    let ghost lv = views(ls@);
    let mut r: Vec<(String, Vec<String>)> = Vec::new();
    assert(address_list_view(r@) =~= addresses_from(lv.take(0)));
    let mut i: usize = 0;
    while i < ls.len()
        invariant
            i <= ls@.len(),
            lv == views(ls@),
            address_list_view(r@) == addresses_from(lv.take(i as int)),
        decreases ls.len() - i,
    {
        assert(lv.take(i + 1).drop_last() =~= lv.take(i as int));
        assert(lv.take(i + 1).last() == ls@[i as int]@);
        let c = words(&ls[i]);
        if c.len() >= 4 && (equals_str(&c[2], "inet") || equals_str(&c[2], "inet6")) {
            let name = interface_name(&c[1]);
            push_address(&mut r, string_of(&name), string_of(&c[3]));
        }
        i = i + 1;
    }
    assert(lv.take(ls@.len() as int) =~= lv);
    r
}

/// Interface addresses listed by `ip -o addr show`, ordered by interface name; empty on
/// hosts other than Linux and when the command fails.
pub fn collect_interface_addresses<P: CommandProvider>(provider: &mut P) -> (r: Vec<(String, Vec<String>)>)
    ensures
        same_host(*old(provider), *final(provider)),
        !old(provider).on_linux() ==> r@.len() == 0,
        !old(provider).on_linux() ==> final(provider).ran() == old(provider).ran(),
        old(provider).on_linux() ==> final(provider).ran() == old(provider).ran().push(command_line("ip"@, ip_args("addr"@))),
        old(provider).on_linux() ==> exists|a| #[trigger] old(provider).answers("ip"@, ip_args("addr"@), a)
            && if succeeded(a) {
            address_list_view(r@) == addresses_from(spec_lines(a->Ok_0.stdout))
        } else {
            r@.len() == 0
        },
{
    if !provider.is_linux() {
        return Vec::new();
    }
    let args = ["-o", "addr", "show"];
    assert(str_views(args@) =~= ip_args("addr"@));
    match provider.run("ip", &args) {
        Err(_) => Vec::new(),
        Ok(o) => if o.success {
            interface_addresses_from(o.stdout.as_str())
        } else {
            Vec::new()
        },
    }
}

pub open spec fn ip_args(object: Seq<char>) -> Seq<Seq<char>> {
    seq!["-o"@, object, "show"@]
}

/// State, MAC address and MTU of a network interface.
pub struct InterfaceLinkDetails {
    pub state: String,
    pub mac: String,
    pub mtu: Option<u32>,
}

pub struct InterfaceLinkDetailsView {
    pub state: Seq<char>,
    pub mac: Seq<char>,
    pub mtu: Option<u32>,
}

impl View for InterfaceLinkDetails {
    type V = InterfaceLinkDetailsView;

    open spec fn view(&self) -> InterfaceLinkDetailsView {
        InterfaceLinkDetailsView { state: self.state@, mac: self.mac@, mtu: self.mtu }
    }
}

/// Index of the first word `w`, at or after `j`, that a following word completes, or -1.
pub open spec fn first_keyword(c: Seq<Seq<char>>, w: Seq<char>, j: int) -> int
    decreases c.len() - j,
{
    if j < 0 || j + 1 >= c.len() {
        -1
    } else if c[j] == w {
        j
    } else {
        first_keyword(c, w, j + 1)
    }
}

/// Index of the first `link/...` word, at or after `j`, that a following word completes, or -1.
pub open spec fn first_link_word(c: Seq<Seq<char>>, j: int) -> int
    decreases c.len() - j,
{
    if j < 0 || j + 1 >= c.len() {
        -1
    } else if crate::text::spec_starts_with(c[j], "link/"@) {
        j
    } else {
        first_link_word(c, j + 1)
    }
}

/// Link details from the words of an `ip -o link show` line.
pub open spec fn spec_link_details(c: Seq<Seq<char>>) -> InterfaceLinkDetailsView {
    let m = first_keyword(c, "mtu"@, 0);
    let s = first_keyword(c, "state"@, 0);
    let l = first_link_word(c, 0);
    InterfaceLinkDetailsView {
        mtu: if m < 0 {
            None
        } else {
            crate::text::parse_u32_spec(c[m + 1])
        },
        state: if s < 0 {
            "UNKNOWN"@
        } else {
            c[s + 1]
        },
        mac: if l < 0 || c[l + 1] == "00:00:00:00:00:00"@ {
            "-"@
        } else {
            c[l + 1]
        },
    }
}

fn find_keyword(c: &Vec<Vec<char>>, w: &str) -> (r: Option<usize>)
    ensures
        match r {
            Some(j) => first_keyword(views(c@), w@, 0) == j && j + 1 < c@.len(),
            None => first_keyword(views(c@), w@, 0) == -1,
        },
{
    let ghost cv = views(c@);
    let mut j: usize = 0;
    while j < c.len() && j + 1 < c.len()
        invariant
            j <= c@.len(),
            cv == views(c@),
            first_keyword(cv, w@, j as int) == first_keyword(cv, w@, 0),
        decreases c.len() - j,
    {
        if equals_str(&c[j], w) {
            return Some(j);
        }
        j = j + 1;
    }
    None
}

fn find_link_word(c: &Vec<Vec<char>>) -> (r: Option<usize>)
    ensures
        match r {
            Some(j) => first_link_word(views(c@), 0) == j && j + 1 < c@.len(),
            None => first_link_word(views(c@), 0) == -1,
        },
{
    let ghost cv = views(c@);
    let mut j: usize = 0;
    while j < c.len() && j + 1 < c.len()
        invariant
            j <= c@.len(),
            cv == views(c@),
            first_link_word(cv, j as int) == first_link_word(cv, 0),
        decreases c.len() - j,
    {
        if crate::text::starts_with_str(&c[j], "link/") {
            return Some(j);
        }
        j = j + 1;
    }
    None
}

pub fn link_details(c: &Vec<Vec<char>>) -> (d: InterfaceLinkDetails)
    ensures
        d@ == spec_link_details(views(c@)),
{
    let n = c.len();
    let mtu = match find_keyword(c, "mtu") {
        None => None,
        Some(j) => parse_u32(&c[j + 1]),
    };
    let state = match find_keyword(c, "state") {
        None => string_of(&chars_of("UNKNOWN")),
        Some(j) => string_of(&c[j + 1]),
    };
    let mac = match find_link_word(c) {
        None => string_of(&chars_of("-")),
        Some(j) => if equals_str(&c[j + 1], "00:00:00:00:00:00") {
            string_of(&chars_of("-"))
        } else {
            string_of(&c[j + 1])
        },
    };
    InterfaceLinkDetails { state, mac, mtu }
}

/// An association list ordered by name, with `name` set to `d`.
pub open spec fn assoc_set(l: Seq<(Seq<char>, InterfaceLinkDetailsView)>, name: Seq<char>, d: InterfaceLinkDetailsView) -> Seq<(Seq<char>, InterfaceLinkDetailsView)>
    decreases l.len(),
{
    if l.len() == 0 {
        seq![(name, d)]
    } else if l[0].0 == name {
        l.update(0, (name, d))
    } else if lex_lt(name, l[0].0) {
        seq![(name, d)] + l
    } else {
        seq![l[0]] + assoc_set(l.drop_first(), name, d)
    }
}

/// Link details per interface from `ip -o link show` lines.
pub open spec fn links_from(ls: Seq<Seq<char>>) -> Seq<(Seq<char>, InterfaceLinkDetailsView)>
    decreases ls.len(),
{
    if ls.len() == 0 {
        Seq::empty()
    } else {
        let m = links_from(ls.drop_last());
        let c = spec_words(ls.last());
        if c.len() >= 4 {
            assoc_set(m, iface_name(c[1]), spec_link_details(c))
        } else {
            m
        }
    }
}

pub open spec fn link_list_view(l: Seq<(String, InterfaceLinkDetails)>) -> Seq<(Seq<char>, InterfaceLinkDetailsView)> {
    l.map_values(|p: (String, InterfaceLinkDetails)| (p.0@, p.1@))
}

proof fn lemma_assoc_set_skip(l: Seq<(Seq<char>, InterfaceLinkDetailsView)>, name: Seq<char>, d: InterfaceLinkDetailsView, i: int)
    requires
        0 <= i <= l.len(),
        forall|j: int| 0 <= j < i ==> l[j].0 != name && !lex_lt(name, l[j].0),
    ensures
        assoc_set(l, name, d) == l.take(i) + assoc_set(l.skip(i), name, d),
    decreases i,
{
    if i > 0 {
        let t = l.drop_first();
        assert forall|j: int| 0 <= j < i - 1 implies t[j].0 != name && !lex_lt(name, t[j].0) by {
            assert(t[j] == l[j + 1]);
        }
        lemma_assoc_set_skip(t, name, d, i - 1);
        assert(t.skip(i - 1) =~= l.skip(i));
        assert(seq![l[0]] + t.take(i - 1) =~= l.take(i));
        assert((seq![l[0]] + t.take(i - 1)) + assoc_set(l.skip(i), name, d) =~= seq![l[0]] + (t.take(i - 1) + assoc_set(t.skip(i - 1), name, d)));
    } else {
        assert(l.skip(0) =~= l);
        assert(l.take(0) + assoc_set(l, name, d) =~= assoc_set(l, name, d));
    }
}

fn set_link(list: &mut Vec<(String, InterfaceLinkDetails)>, name: String, d: InterfaceLinkDetails)
    ensures
        link_list_view(final(list)@) == assoc_set(link_list_view(old(list)@), name@, d@),
{
    let ghost l0 = link_list_view(list@);
    let ghost dv = d@;
    let nc = chars_of(name.as_str());
    let mut i: usize = 0;
    let mut stop = false;
    while i < list.len() && !stop
        invariant
            i <= list@.len(),
            *list == *old(list),
            l0 == link_list_view(list@),
            nc@ == name@,
            forall|j: int| 0 <= j < i ==> l0[j].0 != name@ && !lex_lt(name@, l0[j].0),
            stop ==> i < list@.len() && (l0[i as int].0 == name@ || lex_lt(name@, l0[i as int].0)),
        decreases list.len() - i, if stop { 0int } else { 1int },
    {
        let kc = chars_of(list[i].0.as_str());
        if chars_eq(&kc, &nc) || less_than(&nc, &kc) {
            stop = true;
        } else {
            i = i + 1;
        }
    }
    proof {
        lemma_assoc_set_skip(l0, name@, dv, i as int);
    }
    let ghost rest = l0.skip(i as int);
    if i < list.len() {
        let kc = chars_of(list[i].0.as_str());
        if chars_eq(&kc, &nc) {
            let _old = list.remove(i);
            list.insert(i, (name, d));
            assert(link_list_view(list@) =~= l0.take(i as int) + assoc_set(rest, nc@, dv));
            return;
        }
    }
    list.insert(i, (name, d));
    assert(link_list_view(list@) =~= l0.take(i as int) + assoc_set(rest, nc@, dv));
}

/// Link details per interface from `ip -o link show` output, ordered by interface name.
pub fn link_details_from(text: &str) -> (r: Vec<(String, InterfaceLinkDetails)>)
    ensures
        link_list_view(r@) == links_from(spec_lines(text@)),
{
    let cs = chars_of(text);
    let ls = lines(&cs);
    let ghost lv = views(ls@);
    let mut r: Vec<(String, InterfaceLinkDetails)> = Vec::new();
    assert(link_list_view(r@) =~= links_from(lv.take(0)));
    let mut i: usize = 0;
    while i < ls.len()
        invariant
            i <= ls@.len(),
            lv == views(ls@),
            link_list_view(r@) == links_from(lv.take(i as int)),
        decreases ls.len() - i,
    {
        assert(lv.take(i + 1).drop_last() =~= lv.take(i as int));
        assert(lv.take(i + 1).last() == ls@[i as int]@);
        let c = words(&ls[i]);
        if c.len() >= 4 {
            let name = interface_name(&c[1]);
            let d = link_details(&c);
            set_link(&mut r, string_of(&name), d);
        }
        i = i + 1;
    }
    assert(lv.take(ls@.len() as int) =~= lv);
    r
}

/// Link details listed by `ip -o link show`, ordered by interface name; empty on hosts
/// other than Linux and when the command fails.
pub fn collect_interface_link_details<P: CommandProvider>(provider: &mut P) -> (r: Vec<(String, InterfaceLinkDetails)>)
    ensures
        same_host(*old(provider), *final(provider)),
        !old(provider).on_linux() ==> r@.len() == 0,
        !old(provider).on_linux() ==> final(provider).ran() == old(provider).ran(),
        old(provider).on_linux() ==> final(provider).ran() == old(provider).ran().push(command_line("ip"@, ip_args("link"@))),
        old(provider).on_linux() ==> exists|a| #[trigger] old(provider).answers("ip"@, ip_args("link"@), a)
            && if succeeded(a) {
            link_list_view(r@) == links_from(spec_lines(a->Ok_0.stdout))
        } else {
            r@.len() == 0
        },
{
    if !provider.is_linux() {
        return Vec::new();
    }
    let args = ["-o", "link", "show"];
    assert(str_views(args@) =~= ip_args("link"@));
    match provider.run("ip", &args) {
        Err(_) => Vec::new(),
        Ok(o) => if o.success {
            link_details_from(o.stdout.as_str())
        } else {
            Vec::new()
        },
    }
}

/// Byte counters of one process over its TCP sockets, as `ss -tinapH` reports them.
pub struct ProcessNetTotal {
    pub pid: u32,
    pub process: String,
    pub sent: u64,
    pub received: u64,
    pub connections: usize,
}

/// Network use of one process over the last refresh.
pub struct ProcessNetRow {
    pub pid: u32,
    pub process: String,
    pub rx_bps: u64,
    pub tx_bps: u64,
    pub connections: usize,
}

pub open spec fn net_total_views(v: Seq<ProcessNetTotal>) -> Seq<(u32, Seq<char>, u64, u64, nat)> {
    v.map_values(|t: ProcessNetTotal| (t.pid, t.process@, t.sent, t.received, t.connections as nat))
}

/// Whether a line of `ss -i` output continues the socket above it (it is indented).
pub open spec fn is_detail_line(l: Seq<char>) -> bool {
    l.len() > 0 && (l[0] == ' ' || l[0] == '\t')
}

/// Index of the first process entry at or after `i` with this PID, or -1.
pub open spec fn seen_slot(s: Seq<(u32, Seq<char>, nat)>, pid: u32, i: int) -> int
    decreases s.len() - i,
{
    if i < 0 || i >= s.len() {
        -1
    } else if s[i].0 == pid {
        i
    } else {
        seen_slot(s, pid, i + 1)
    }
}

/// Index of the first counter entry at or after `i` with this PID, or -1.
pub open spec fn total_slot(t: Seq<(u32, u64, u64)>, pid: u32, i: int) -> int
    decreases t.len() - i,
{
    if i < 0 || i >= t.len() {
        -1
    } else if t[i].0 == pid {
        i
    } else {
        total_slot(t, pid, i + 1)
    }
}

proof fn lemma_seen_slot(s: Seq<(u32, Seq<char>, nat)>, pid: u32, i: int)
    requires
        0 <= i,
    ensures
        seen_slot(s, pid, i) == -1 || (i <= seen_slot(s, pid, i) < s.len() && s[seen_slot(s, pid, i)].0 == pid),
    decreases s.len() - i,
{
    if i < s.len() && s[i].0 != pid {
        lemma_seen_slot(s, pid, i + 1);
    }
}

proof fn lemma_total_slot(t: Seq<(u32, u64, u64)>, pid: u32, i: int)
    requires
        0 <= i,
    ensures
        total_slot(t, pid, i) == -1 || (i <= total_slot(t, pid, i) < t.len() && t[total_slot(t, pid, i)].0 == pid),
    decreases t.len() - i,
{
    if i < t.len() && t[i].0 != pid {
        lemma_total_slot(t, pid, i + 1);
    }
}

/// One more socket of a process: its count grows, or it is noted with its name.
pub open spec fn note_process(s: Seq<(u32, Seq<char>, nat)>, pid: u32, name: Seq<char>) -> Seq<(u32, Seq<char>, nat)> {
    let k = seen_slot(s, pid, 0);
    if k >= 0 {
        s.update(k, (pid, s[k].1, s[k].2 + 1))
    } else {
        s.push((pid, name, 1nat))
    }
}

/// Counters added to a process's totals, saturating.
pub open spec fn add_counters(t: Seq<(u32, u64, u64)>, pid: u32, sent: u64, received: u64) -> Seq<(u32, u64, u64)> {
    let k = total_slot(t, pid, 0);
    if k >= 0 {
        t.update(k, (pid, t[k].1.saturating_add(sent), t[k].2.saturating_add(received)))
    } else {
        t.push((pid, sent, received))
    }
}

pub open spec fn or_zero(o: Option<u64>) -> u64 {
    match o {
        Some(v) => v,
        None => 0,
    }
}

/// One line read: a socket line names the process it belongs to; an indented line under it
/// adds its byte counters to that process.
pub open spec fn scan_net_line(
    st: (Option<u32>, Seq<(u32, Seq<char>, nat)>, Seq<(u32, u64, u64)>),
    line: Seq<char>,
) -> (Option<u32>, Seq<(u32, Seq<char>, nat)>, Seq<(u32, u64, u64)>) {
    if is_detail_line(line) {
        match st.0 {
            Some(pid) => {
                let sent = spec_parse_counter(line, "bytes_sent:"@);
                let received = spec_parse_counter(line, "bytes_received:"@);
                if sent is Some || received is Some {
                    (st.0, st.1, add_counters(st.2, pid, or_zero(sent), or_zero(received)))
                } else {
                    st
                }
            },
            None => st,
        }
    } else {
        let info = spec_process_info(line);
        let pending = match info {
            Some((_, p)) => p,
            None => None,
        };
        let seen = match info {
            Some((name, Some(pid))) => note_process(st.1, pid, name),
            _ => st.1,
        };
        (pending, seen, st.2)
    }
}

pub open spec fn scan_net_lines(ls: Seq<Seq<char>>) -> (Option<u32>, Seq<(u32, Seq<char>, nat)>, Seq<(u32, u64, u64)>)
    decreases ls.len(),
{
    if ls.len() == 0 {
        (None, Seq::empty(), Seq::empty())
    } else {
        scan_net_line(scan_net_lines(ls.drop_last()), ls.last())
    }
}

/// The process name noted for a PID ("pid-N" when none was).
pub open spec fn noted_name(s: Seq<(u32, Seq<char>, nat)>, pid: u32) -> Seq<char> {
    let k = seen_slot(s, pid, 0);
    if k >= 0 {
        s[k].1
    } else {
        "pid-"@ + spec_decimal(pid as nat)
    }
}

/// How many sockets were noted for a PID.
pub open spec fn noted_count(s: Seq<(u32, Seq<char>, nat)>, pid: u32) -> nat {
    let k = seen_slot(s, pid, 0);
    if k >= 0 {
        s[k].2
    } else {
        0
    }
}

/// Per-process totals of an `ss -tinapH` text, in the order the processes' counters first
/// appear: PID, name, bytes sent, bytes received, sockets.
pub open spec fn net_totals_of(text: Seq<char>) -> Seq<(u32, Seq<char>, u64, u64, nat)> {
    let st = scan_net_lines(spec_lines(text));
    st.2.map_values(|t: (u32, u64, u64)| (t.0, noted_name(st.1, t.0), t.1, t.2, noted_count(st.1, t.0)))
}

pub open spec fn seen_views(v: Seq<(u32, String, usize)>) -> Seq<(u32, Seq<char>, nat)> {
    v.map_values(|e: (u32, String, usize)| (e.0, e.1@, e.2 as nat))
}

fn find_seen(s: &Vec<(u32, String, usize)>, pid: u32) -> (k: usize)
    ensures
        seen_slot(seen_views(s@), pid, 0) == if k < s@.len() { k as int } else { -1 },
        k <= s@.len(),
{
    let mut k: usize = 0;
    while k < s.len() && s[k].0 != pid
        invariant
            k <= s@.len(),
            seen_slot(seen_views(s@), pid, 0) == seen_slot(seen_views(s@), pid, k as int),
        decreases s.len() - k,
    {
        k = k + 1;
    }
    k
}

fn find_total(t: &Vec<(u32, u64, u64)>, pid: u32) -> (k: usize)
    ensures
        total_slot(t@, pid, 0) == if k < t@.len() { k as int } else { -1 },
        k <= t@.len(),
{
    let mut k: usize = 0;
    while k < t.len() && t[k].0 != pid
        invariant
            k <= t@.len(),
            total_slot(t@, pid, 0) == total_slot(t@, pid, k as int),
        decreases t.len() - k,
    {
        k = k + 1;
    }
    k
}

fn note_process_in(s: &mut Vec<(u32, String, usize)>, pid: u32, name: String, bound: usize)
    requires
        bound >= 1,
        forall|j: int| 0 <= j < old(s)@.len() ==> #[trigger] old(s)@[j].2 < bound,
    ensures
        seen_views(final(s)@) == note_process(seen_views(old(s)@), pid, name@),
        forall|j: int| 0 <= j < final(s)@.len() ==> #[trigger] final(s)@[j].2 <= bound,
{
    let ghost before = seen_views(s@);
    let k = find_seen(s, pid);
    if k < s.len() {
        let c = s[k].2;
        let nm = s[k].1.clone();
        assert(nm@ == s@[k as int].1@);
        let ghost olds = s@;
        s.set(k, (pid, nm, c + 1));
        assert(seen_views(s@) =~= before.update(k as int, (pid, before[k as int].1, before[k as int].2 + 1)));
        assert forall|j: int| 0 <= j < s@.len() implies #[trigger] s@[j].2 <= bound by {
            if j != k {
                assert(s@[j] == olds[j]);
            }
        }
    } else {
        let ghost olds = s@;
        s.push((pid, name, 1));
        assert(seen_views(s@) =~= before.push((pid, name@, 1nat)));
        assert forall|j: int| 0 <= j < s@.len() implies #[trigger] s@[j].2 <= bound by {
            if j < olds.len() {
                assert(s@[j] == olds[j]);
            }
        }
    }
}

fn add_counters_in(t: &mut Vec<(u32, u64, u64)>, pid: u32, sent: u64, received: u64)
    ensures
        final(t)@ == add_counters(old(t)@, pid, sent, received),
{
    let k = find_total(t, pid);
    if k < t.len() {
        let (p, a, b) = t[k];
        t.set(k, (pid, a.saturating_add(sent), b.saturating_add(received)));
    } else {
        t.push((pid, sent, received));
    }
}

/// Per-process byte counters of an `ss -tinapH` text (see `net_totals_of`).
#[verifier::spinoff_prover]
pub fn process_net_totals(text: &str) -> (r: Vec<ProcessNetTotal>)
    ensures
        net_total_views(r@) == net_totals_of(text@),
{
    proof {
        reveal_strlit("bytes_sent:");
        reveal_strlit("bytes_received:");
    }
    let ls = lines(&chars_of(text));
    let ghost lv = views(ls@);
    let mut pending: Option<u32> = None;
    let mut seen: Vec<(u32, String, usize)> = Vec::new();
    let mut totals: Vec<(u32, u64, u64)> = Vec::new();
    let mut k: usize = 0;
    while k < ls.len()
        invariant
            k <= ls@.len(),
            lv == views(ls@),
            lv == spec_lines(text@),
            (pending, seen_views(seen@), totals@) == scan_net_lines(lv.take(k as int)),
            forall|j: int| 0 <= j < seen@.len() ==> #[trigger] seen@[j].2 <= k,
        decreases ls.len() - k,
    {
        let line = &ls[k];
        assert(lv.take(k + 1).drop_last() =~= lv.take(k as int));
        assert(lv.take(k + 1).last() == line@);
        if line.len() > 0 && (line[0] == ' ' || line[0] == '\t') {
            if let Some(pid) = pending {
                proof {
                    reveal_strlit("bytes_sent:");
                    reveal_strlit("bytes_received:");
                }
                let sent = parse_counter(line, "bytes_sent:");
                let received = parse_counter(line, "bytes_received:");
                if sent.is_some() || received.is_some() {
                    let s = match sent {
                        Some(v) => v,
                        None => 0,
                    };
                    let rcv = match received {
                        Some(v) => v,
                        None => 0,
                    };
                    add_counters_in(&mut totals, pid, s, rcv);
                }
            }
        } else {
            let info = parse_process_info(line);
            pending = match &info {
                Some((_, p)) => *p,
                None => None,
            };
            match info {
                Some((name, Some(pid))) => {
                    note_process_in(&mut seen, pid, name, k + 1);
                },
                _ => {},
            }
        }
        k = k + 1;
    }
    assert(lv.take(ls@.len() as int) =~= lv);
    let ghost sv = seen_views(seen@);
    let mut r: Vec<ProcessNetTotal> = Vec::new();
    let mut j: usize = 0;
    while j < totals.len()
        invariant
            j <= totals@.len(),
            sv == seen_views(seen@),
            forall|m: int| 0 <= m < seen@.len() ==> #[trigger] seen@[m].2 <= ls@.len(),
            net_total_views(r@) == totals@.take(j as int).map_values(
                |t: (u32, u64, u64)| (t.0, noted_name(sv, t.0), t.1, t.2, noted_count(sv, t.0)),
            ),
        decreases totals.len() - j,
    {
        let (pid, sent, received) = totals[j];
        let at = find_seen(&seen, pid);
        let (process, connections) = if at < seen.len() {
            (seen[at].1.clone(), seen[at].2)
        } else {
            let mut nm: Vec<char> = Vec::new();
            push_str(&mut nm, "pid-");
            push_decimal(&mut nm, pid as u64);
            proof {
                reveal_strlit("pid-");
            }
            (string_of(&nm), 0)
        };
        assert(process@ == noted_name(sv, pid));
        let ghost before = net_total_views(r@);
        r.push(ProcessNetTotal { pid, process, sent, received, connections });
        assert(totals@.take(j + 1) =~= totals@.take(j as int).push(totals@[j as int]));
        assert(net_total_views(r@) =~= before.push((pid, noted_name(sv, pid), sent, received, noted_count(sv, pid))));
        j = j + 1;
    }
    assert(totals@.take(totals@.len() as int) =~= totals@);
    r
}

pub open spec fn net_row_views(v: Seq<ProcessNetRow>) -> Seq<(u32, Seq<char>, u64, u64, nat)> {
    v.map_values(|r: ProcessNetRow| (r.pid, r.process@, r.rx_bps, r.tx_bps, r.connections as nat))
}

/// Whether a process row may come before another: more traffic first, then by name.
pub open spec fn net_row_first(a: (u32, Seq<char>, u64, u64, nat), b: (u32, Seq<char>, u64, u64, nat)) -> bool {
    crate::order::load_first((a.1, a.2 + a.3), (b.1, b.2 + b.3))
}

pub open spec fn net_rows_sorted(s: Seq<(u32, Seq<char>, u64, u64, nat)>) -> bool {
    forall|i: int, j: int| 0 <= i < j < s.len() ==> net_row_first(#[trigger] s[i], #[trigger] s[j])
}

fn net_row_before(a: &ProcessNetRow, b: &ProcessNetRow) -> (r: bool)
    ensures
        r == net_row_first(
            (a.pid, a.process@, a.rx_bps, a.tx_bps, a.connections as nat),
            (b.pid, b.process@, b.rx_bps, b.tx_bps, b.connections as nat),
        ),
{
    let la = a.rx_bps as u128 + a.tx_bps as u128;
    let lb = b.rx_bps as u128 + b.tx_bps as u128;
    if la != lb {
        la > lb
    } else {
        !less_than(&chars_of(b.process.as_str()), &chars_of(a.process.as_str()))
    }
}

/// The busiest processes: rows by traffic (received plus sent), most first, then by name;
/// the first `limit` of them.
pub fn rank_net_rows(rows: Vec<ProcessNetRow>, limit: usize) -> (r: Vec<ProcessNetRow>)
    ensures
        exists|s: Seq<(u32, Seq<char>, u64, u64, nat)>| #[trigger] net_rows_sorted(s) && s.to_multiset()
            == net_row_views(rows@).to_multiset() && net_row_views(r@) == first_n(s, limit as nat),
{
    let mut out: Vec<ProcessNetRow> = Vec::new();
    let mut rest = rows;
    let ghost all = net_row_views(rest@);
    let mut taken: usize = 0;
    let n = rest.len();
    broadcast use vstd::seq_lib::group_to_multiset_ensures;

    while rest.len() > 0
        invariant
            taken + rest@.len() == n,
            all.len() == n,
            net_row_views(rest@) == all.skip(taken as int),
            net_rows_sorted(net_row_views(out@)),
            net_row_views(out@).to_multiset() == all.take(taken as int).to_multiset(),
        decreases rest.len(),
    {
        let x = rest.remove(0);
        let ghost xv = (x.pid, x.process@, x.rx_bps, x.tx_bps, x.connections as nat);
        assert(all.skip(taken as int)[0] == xv);
        assert(all.skip(taken + 1) =~= all.skip(taken as int).drop_first());
        let mut k: usize = 0;
        while k < out.len() && net_row_before(&out[k], &x)
            invariant
                k <= out@.len(),
                xv == (x.pid, x.process@, x.rx_bps, x.tx_bps, x.connections as nat),
                forall|j: int| 0 <= j < k ==> net_row_first(#[trigger] net_row_views(out@)[j], xv),
            decreases out.len() - k,
        {
            k = k + 1;
        }
        let ghost ov = net_row_views(out@);
        proof {
            if k < out.len() {
                crate::order::lemma_load_first_total((ov[k as int].1, ov[k as int].2 + ov[k as int].3), (xv.1, xv.2 + xv.3));
                assert forall|j: int| k <= j < ov.len() implies net_row_first(xv, #[trigger] ov[j]) by {
                    if j > k {
                        assert(net_row_first(ov[k as int], ov[j]));
                        crate::order::lemma_load_first_transitive(
                            (xv.1, xv.2 + xv.3),
                            (ov[k as int].1, ov[k as int].2 + ov[k as int].3),
                            (ov[j].1, ov[j].2 + ov[j].3),
                        );
                    }
                }
            }
        }
        out.insert(k, x);
        proof {
            assert(net_row_views(out@) =~= ov.insert(k as int, xv));
            let nv = net_row_views(out@);
            assert forall|i: int, j: int| 0 <= i < j < nv.len() implies net_row_first(#[trigger] nv[i], #[trigger] nv[j]) by {
                if j < k {
                    assert(nv[i] == ov[i] && nv[j] == ov[j]);
                } else if j == k {
                    assert(nv[i] == ov[i]);
                } else if i < k {
                    assert(nv[i] == ov[i] && nv[j] == ov[j - 1]);
                    crate::order::lemma_load_first_transitive(
                        (ov[i].1, ov[i].2 + ov[i].3),
                        (xv.1, xv.2 + xv.3),
                        (ov[j - 1].1, ov[j - 1].2 + ov[j - 1].3),
                    );
                } else if i == k {
                    assert(nv[j] == ov[j - 1]);
                } else {
                    assert(nv[i] == ov[i - 1] && nv[j] == ov[j - 1]);
                }
            }
            vstd::seq_lib::to_multiset_insert(ov, k as int, xv);
            assert(all.take(taken + 1) =~= all.take(taken as int).push(xv));
            vstd::seq_lib::to_multiset_build(all.take(taken as int), xv);
            assert(net_row_views(out@).to_multiset() =~= all.take(taken + 1).to_multiset());
        }
        taken = taken + 1;
    }
    proof {
        assert(all.take(n as int) =~= all);
    }
    let ghost sorted = net_row_views(out@);
    while out.len() > limit
        invariant
            sorted.len() >= out@.len(),
            net_row_views(out@) == sorted.take(out@.len() as int),
            out@.len() == sorted.len() || out@.len() >= limit,
        decreases out.len(),
    {
        out.pop();
        assert(net_row_views(out@) =~= sorted.take(out@.len() as int));
    }
    assert(net_row_views(out@) =~= first_n(sorted, limit as nat));
    out
}


/// The order key of an interface: its name and its rate in plus out.
pub open spec fn interface_key(r: (String, u64, u64)) -> (Seq<char>, int) {
    (r.0@, r.1 + r.2)
}

/// Whether the interface at `a` is listed before the one at `b`: busier, or as busy and
/// first by name, or equal in both and first in the list.
pub open spec fn busier_first(rows: Seq<(String, u64, u64)>, a: usize, b: usize) -> bool {
    crate::order::load_first(interface_key(rows[a as int]), interface_key(rows[b as int])) && (crate::order::load_first(
        interface_key(rows[b as int]),
        interface_key(rows[a as int]),
    ) ==> a < b)
}

/// Whether `order` lists every interface once, busiest first (see `busier_first`).
pub open spec fn interface_order(rows: Seq<(String, u64, u64)>, order: Seq<usize>) -> bool {
    &&& order.len() == rows.len()
    &&& forall|k: int| 0 <= k < order.len() ==> order[k] < rows.len()
    &&& forall|i: int, j: int| 0 <= i < j < order.len() ==> busier_first(rows, #[trigger] order[i], #[trigger] order[j])
}

fn interface_before(a: &(String, u64, u64), b: &(String, u64, u64)) -> (r: bool)
    ensures
        r == crate::order::load_first(interface_key(*a), interface_key(*b)),
{
    let la = a.1 as u128 + a.2 as u128;
    let lb = b.1 as u128 + b.2 as u128;
    if la != lb {
        la > lb
    } else {
        !crate::text::less_than(&chars_of(b.0.as_str()), &chars_of(a.0.as_str()))
    }
}

/// The positions of the interfaces (name, bytes in, bytes out per second), the busiest
/// first, then by name (see `interface_order`).
pub fn rank_interfaces(rows: &Vec<(String, u64, u64)>) -> (order: Vec<usize>)
    ensures
        interface_order(rows@, order@),
{
    let ghost rv = rows@;
    let mut out: Vec<usize> = Vec::new();
    let mut x: usize = 0;
    while x < rows.len()
        invariant
            x <= rows@.len(),
            rv == rows@,
            out@.len() == x,
            forall|k: int| 0 <= k < out@.len() ==> out@[k] < x,
            forall|i: int, j: int| 0 <= i < j < out@.len() ==> busier_first(rv, #[trigger] out@[i], #[trigger] out@[j]),
        decreases rows.len() - x,
    {
        let mut k: usize = 0;
        while k < out.len() && interface_before(&rows[out[k]], &rows[x])
            invariant
                k <= out@.len(),
                x < rows@.len(),
                rv == rows@,
                forall|m: int| 0 <= m < out@.len() ==> out@[m] < x,
                forall|j: int| 0 <= j < k ==> crate::order::load_first(interface_key(rv[#[trigger] out@[j] as int]), interface_key(rv[x as int])),
            decreases out.len() - k,
        {
            k = k + 1;
        }
        let ghost ov = out@;
        let ghost kx = interface_key(rv[x as int]);
        proof {
            if k < ov.len() {
                crate::order::lemma_load_first_total(interface_key(rv[ov[k as int] as int]), kx);
                assert forall|j: int| k <= j < ov.len() implies !crate::order::load_first(interface_key(rv[#[trigger] ov[j] as int]), kx) by {
                    if j > k && crate::order::load_first(interface_key(rv[ov[j] as int]), kx) {
                        assert(busier_first(rv, ov[k as int], ov[j]));
                        crate::order::lemma_load_first_transitive(
                            interface_key(rv[ov[k as int] as int]),
                            interface_key(rv[ov[j] as int]),
                            kx,
                        );
                    }
                }
            }
        }
        out.insert(k, x);
        proof {
            let nv = out@;
            assert(nv =~= ov.insert(k as int, x));
            assert forall|i: int, j: int| 0 <= i < j < nv.len() implies busier_first(rv, #[trigger] nv[i], #[trigger] nv[j]) by {
                if j < k {
                    assert(nv[i] == ov[i] && nv[j] == ov[j]);
                } else if j == k {
                    assert(nv[i] == ov[i]);
                } else if i < k {
                    assert(nv[i] == ov[i] && nv[j] == ov[j - 1]);
                    assert(busier_first(rv, ov[i], ov[j - 1]));
                } else if i == k {
                    assert(nv[j] == ov[j - 1]);
                    crate::order::lemma_load_first_total(interface_key(rv[ov[j - 1] as int]), kx);
                } else {
                    assert(nv[i] == ov[i - 1] && nv[j] == ov[j - 1]);
                    assert(busier_first(rv, ov[i - 1], ov[j - 1]));
                }
            }
            assert forall|m: int| 0 <= m < nv.len() implies nv[m] < x + 1 by {
                if m < k {
                    assert(nv[m] == ov[m]);
                } else if m > k {
                    assert(nv[m] == ov[m - 1]);
                }
            }
        }
        x = x + 1;
    }
    out
}

} // verus!
