//! Actions the dashboard runs on the selected row: signalling, renicing and pinning a
//! process, acting on a service or a connection, and the network tools report. Each returns
//! the status line to show and whether a fresh snapshot is wanted.
use crate::collectors::netstat::{
    ConnectionRow, block_ip, block_ip_result, kill_connection, kill_connection_result, run_dns_lookup, run_http_probe, run_ping,
    run_traceroute, succeeded, dns_lookup_gives, ping_gives, traceroute_gives, http_probe_gives,
};
use crate::collectors::provider::{same_host, command_line, ran_lines, lines_since, lemma_lines_since, CommandOutput, CommandOutputView, CommandProvider, answer_view, str_views};
use crate::collectors::systemd::{ensure_linux_systemd, run_systemctl, service_refusal, systemctl_result, text_result};
use crate::text::{
    chars_of, decimal_string, parse_i32, parse_i32_spec, parse_u64, parse_u64_spec, push_chars,
    push_decimal, push_str, spec_decimal, spec_signed_decimal, spec_trim, string_of, string_views,
    trim,
};
use vstd::prelude::*;

verus! {

/// The selected row of a list of `len` rows: the scroll position, kept inside the list.
pub open spec fn selected(scroll: usize, len: usize) -> Option<usize> {
    if len == 0 {
        None
    } else if scroll < len - 1 {
        Some(scroll)
    } else {
        Some((len - 1) as usize)
    }
}

/// The selected row of a list of `len` rows (see `selected`).
pub fn selected_index(scroll: usize, len: usize) -> (r: Option<usize>)
    ensures
        r == selected(scroll, len),
{
    if len == 0 {
        None
    } else if scroll < len - 1 {
        Some(scroll)
    } else {
        Some(len - 1)
    }
}

/// Why no process can be acted on: no snapshot yet, or no process selected.
pub open spec fn selection_problem(loaded: bool, has_pid: bool) -> Option<Seq<char>> {
    if !loaded {
        Some("No snapshot loaded"@)
    } else if !has_pid {
        Some("No process selected"@)
    } else {
        None
    }
}

pub open spec fn signal_flag(force: bool) -> Seq<char> {
    if force {
        "-KILL"@
    } else {
        "-TERM"@
    }
}

pub open spec fn signal_name(force: bool) -> Seq<char> {
    if force {
        "SIGKILL"@
    } else {
        "SIGTERM"@
    }
}

pub open spec fn kill_cmd_args(force: bool, pid: Seq<char>) -> Seq<Seq<char>> {
    seq![signal_flag(force), pid]
}

pub open spec fn renice_args(nice: i32, pid: Seq<char>) -> Seq<Seq<char>> {
    seq![spec_signed_decimal(nice as int), "-p"@, pid]
}

pub open spec fn taskset_args(core: usize, pid: Seq<char>) -> Seq<Seq<char>> {
    seq!["-cp"@, spec_decimal(core as nat), pid]
}

pub open spec fn service_args(action: Seq<char>, service: Seq<char>) -> Seq<Seq<char>> {
    seq![action, service]
}

/// The status after `kill` answered.
pub open spec fn kill_message(force: bool, pid: Seq<char>, a: Result<CommandOutputView, Seq<char>>) -> Seq<char> {
    match a {
        Ok(o) => if o.success {
            signal_name(force) + " sent to PID "@ + pid
        } else if spec_trim(o.stderr).len() == 0 {
            "Failed to send "@ + signal_name(force) + " to PID "@ + pid
        } else {
            signal_name(force) + " failed for PID "@ + pid + ": "@ + spec_trim(o.stderr)
        },
        Err(e) => "Failed to run kill for PID "@ + pid + ": "@ + e,
    }
}

/// The status after `kill` answered (see `kill_message`), and whether it succeeded.
pub fn kill_outcome(force: bool, pid: &str, r: Result<CommandOutput, String>) -> (m: (String, bool))
    ensures
        m.0@ == kill_message(force, pid@, answer_view(r)),
        m.1 == succeeded(answer_view(r)),
{
    let name = if force {
        "SIGKILL"
    } else {
        "SIGTERM"
    };
    let mut out: Vec<char> = Vec::new();
    let ok = match r {
        Ok(o) => if o.success {
            push_str(&mut out, name);
            push_str(&mut out, " sent to PID ");
            push_str(&mut out, pid);
            true
        } else {
            let e = trim(&chars_of(o.stderr.as_str()));
            if e.len() == 0 {
                push_str(&mut out, "Failed to send ");
                push_str(&mut out, name);
                push_str(&mut out, " to PID ");
                push_str(&mut out, pid);
            } else {
                push_str(&mut out, name);
                push_str(&mut out, " failed for PID ");
                push_str(&mut out, pid);
                push_str(&mut out, ": ");
                push_chars(&mut out, &e);
            }
            false
        },
        Err(e) => {
            push_str(&mut out, "Failed to run kill for PID ");
            push_str(&mut out, pid);
            push_str(&mut out, ": ");
            push_str(&mut out, e.as_str());
            false
        },
    };
    (string_of(&out), ok)
}

/// Sends SIGTERM (or SIGKILL when `force`) to the selected process through `kill`.
/// Returns the status line and whether to refresh.
pub fn kill_selected_process<P: CommandProvider>(
    provider: &mut P,
    loaded: bool,
    pid: Option<String>,
    force: bool,
) -> (m: (String, bool))
    ensures
        same_host(*old(provider), *final(provider)),
        selection_problem(loaded, pid is Some) matches Some(p) ==> m.0@ == p && !m.1,
        selection_problem(loaded, pid is Some) is Some ==> final(provider).ran() == old(provider).ran(),
        selection_problem(loaded, pid is Some) is None ==> final(provider).ran() == old(provider).ran().push(
            command_line("kill"@, kill_cmd_args(force, pid->0@)),
        ),
        selection_problem(loaded, pid is Some) is None ==> exists|a| #[trigger]
            old(provider).answers("kill"@, kill_cmd_args(force, pid->0@), a) && m.0@ == kill_message(
                force,
                pid->0@,
                a,
            ) && m.1 == succeeded(a),
{
    if !loaded {
        return (string_of(&chars_of("No snapshot loaded")), false);
    }
    let pid = match pid {
        Some(p) => p,
        None => {
            return (string_of(&chars_of("No process selected")), false);
        },
    };
    let flag = if force {
        "-KILL"
    } else {
        "-TERM"
    };
    let args = [flag, pid.as_str()];
    assert(str_views(args@) =~= kill_cmd_args(force, pid@));
    let r = provider.run("kill", &args);
    kill_outcome(force, pid.as_str(), r)
}

/// The nice value a text asks for: trimmed, an integer in -20..19.
pub open spec fn nice_request(v: Seq<char>) -> Result<i32, Seq<char>> {
    let t = spec_trim(v);
    match parse_i32_spec(t) {
        None => Err("Invalid nice value: "@ + t),
        Some(n) => if -20 <= n <= 19 {
            Ok(n)
        } else {
            Err("Nice value must be in range -20..19"@)
        },
    }
}

/// Reads a nice value (see `nice_request`).
pub fn parse_nice_value(v: &str) -> (r: Result<i32, String>)
    ensures
        match r {
            Ok(n) => nice_request(v@) == Ok::<i32, Seq<char>>(n),
            Err(e) => nice_request(v@) == Err::<i32, Seq<char>>(e@),
        },
{
    let t = trim(&chars_of(v));
    match parse_i32(&t) {
        None => {
            let mut out: Vec<char> = Vec::new();
            push_str(&mut out, "Invalid nice value: ");
            push_chars(&mut out, &t);
            Err(string_of(&out))
        },
        Some(n) => if -20 <= n && n <= 19 {
            Ok(n)
        } else {
            Err(string_of(&chars_of("Nice value must be in range -20..19")))
        },
    }
}

/// The decimal notation of an `i32`, with a leading `-` when negative.
pub fn signed_decimal_string(n: i32) -> (s: String)
    ensures
        s@ == spec_signed_decimal(n as int),
{
    let mut out: Vec<char> = Vec::new();
    if n < 0 {
        out.push('-');
        let m: u64 = (0 - (n as i64)) as u64;
        push_decimal(&mut out, m);
    } else {
        push_decimal(&mut out, n as u64);
    }
    assert(out@ =~= spec_signed_decimal(n as int));
    string_of(&out)
}

/// The status after `renice` answered.
pub open spec fn renice_message(pid: Seq<char>, nice: i32, a: Result<CommandOutputView, Seq<char>>) -> Seq<char> {
    match a {
        Ok(o) => if o.success {
            "Set PID "@ + pid + " nice to "@ + spec_signed_decimal(nice as int)
        } else if spec_trim(o.stderr).len() == 0 {
            "Renice failed for PID "@ + pid
        } else {
            "Renice failed for PID "@ + pid + ": "@ + spec_trim(o.stderr)
        },
        Err(e) => "Failed to run renice for PID "@ + pid + ": "@ + e,
    }
}

/// Shared shape of the answers to `renice` and `taskset`: the success text, or the failure
/// text, with stderr appended when there is any, or why the command could not run.
fn command_status(
    r: Result<CommandOutput, String>,
    ok_text: &[char],
    fail_text: &[char],
    run_text: &[char],
) -> (m: (String, bool))
    ensures
        m.1 == succeeded(answer_view(r)),
        m.0@ == match answer_view(r) {
            Ok(o) => if o.success {
                ok_text@
            } else if spec_trim(o.stderr).len() == 0 {
                fail_text@
            } else {
                fail_text@ + ": "@ + spec_trim(o.stderr)
            },
            Err(e) => run_text@ + ": "@ + e,
        },
{
    let mut out: Vec<char> = Vec::new();
    match r {
        Ok(o) => if o.success {
            push_chars(&mut out, ok_text);
            (string_of(&out), true)
        } else {
            let e = trim(&chars_of(o.stderr.as_str()));
            push_chars(&mut out, fail_text);
            if e.len() > 0 {
                push_str(&mut out, ": ");
                push_chars(&mut out, &e);
            }
            (string_of(&out), false)
        },
        Err(e) => {
            push_chars(&mut out, run_text);
            push_str(&mut out, ": ");
            push_str(&mut out, e.as_str());
            (string_of(&out), false)
        },
    }
}

/// The status after `renice` answered (see `renice_message`), and whether it succeeded.
pub fn renice_outcome(pid: &str, nice: i32, r: Result<CommandOutput, String>) -> (m: (String, bool))
    ensures
        m.0@ == renice_message(pid@, nice, answer_view(r)),
        m.1 == succeeded(answer_view(r)),
{
    let ns = signed_decimal_string(nice);
    let mut ok: Vec<char> = Vec::new();
    push_str(&mut ok, "Set PID ");
    push_str(&mut ok, pid);
    push_str(&mut ok, " nice to ");
    push_str(&mut ok, ns.as_str());
    let mut fail: Vec<char> = Vec::new();
    push_str(&mut fail, "Renice failed for PID ");
    push_str(&mut fail, pid);
    let mut run: Vec<char> = Vec::new();
    push_str(&mut run, "Failed to run renice for PID ");
    push_str(&mut run, pid);
    let m = command_status(r, &ok, &fail, &run);
    assert(m.0@ =~= renice_message(pid@, nice, answer_view(r)));
    m
}

/// Sets the nice value of the selected process through `renice`, after checking the typed
/// value. Returns the status line and whether to refresh.
pub fn renice_selected_process<P: CommandProvider>(
    provider: &mut P,
    loaded: bool,
    pid: Option<String>,
    value: &str,
) -> (m: (String, bool))
    ensures
        same_host(*old(provider), *final(provider)),
        selection_problem(loaded, pid is Some) matches Some(p) ==> m.0@ == p && !m.1,
        selection_problem(loaded, pid is Some) is None && nice_request(value@) is Err ==> m.0@ == nice_request(
            value@,
        )->Err_0 && !m.1,
        !(selection_problem(loaded, pid is Some) is None && nice_request(value@) is Ok) ==> final(provider).ran()
            == old(provider).ran(),
        selection_problem(loaded, pid is Some) is None && nice_request(value@) is Ok ==> final(provider).ran()
            == old(provider).ran().push(
            command_line("renice"@, renice_args(nice_request(value@)->Ok_0, pid->0@)),
        ),
        selection_problem(loaded, pid is Some) is None && nice_request(value@) is Ok ==> exists|a| #[trigger]
            old(provider).answers("renice"@, renice_args(nice_request(value@)->Ok_0, pid->0@), a) && m.0@
                == renice_message(pid->0@, nice_request(value@)->Ok_0, a) && m.1 == succeeded(a),
{
    if !loaded {
        return (string_of(&chars_of("No snapshot loaded")), false);
    }
    let pid_text = match pid {
        Some(p) => p,
        None => {
            return (string_of(&chars_of("No process selected")), false);
        },
    };
    let nice = match parse_nice_value(value) {
        Ok(n) => n,
        Err(e) => {
            return (e, false);
        },
    };
    let ns = signed_decimal_string(nice);
    let ghost pv = pid_text@;
    let args = [ns.as_str(), "-p", pid_text.as_str()];
    assert(str_views(args@) =~= renice_args(nice, pv));
    let r = provider.run("renice", &args);
    let ghost a = answer_view(r);
    let res = renice_outcome(pid_text.as_str(), nice, r);
    assert(provider.answers("renice"@, renice_args(nice, pv), a) && res.0@ == renice_message(pv, nice, a)
        && res.1 == succeeded(a));
    assert(pid->0@ == pv);
    assert(nice_request(value@)->Ok_0 == nice);
    res
}

/// `str::parse::<usize>`.
pub open spec fn parse_usize_spec(s: Seq<char>) -> Option<usize> {
    match parse_u64_spec(s) {
        Some(n) => if n <= usize::MAX {
            Some(n as usize)
        } else {
            None
        },
        None => None,
    }
}

/// The CPU core a text asks for: trimmed, a core index below `cores`.
pub open spec fn core_request(v: Seq<char>, cores: usize) -> Result<usize, Seq<char>> {
    let t = spec_trim(v);
    match parse_usize_spec(t) {
        None => Err("Invalid CPU core: "@ + t),
        Some(n) => if n < cores {
            Ok(n)
        } else {
            Err("CPU core out of range: 0.."@ + spec_decimal(if cores > 0 { (cores - 1) as nat } else { 0 }))
        },
    }
}

/// Reads a CPU core index (see `core_request`).
pub fn parse_core_value(v: &str, cores: usize) -> (r: Result<usize, String>)
    ensures
        match r {
            Ok(n) => core_request(v@, cores) == Ok::<usize, Seq<char>>(n),
            Err(e) => core_request(v@, cores) == Err::<usize, Seq<char>>(e@),
        },
{
    let t = trim(&chars_of(v));
    let parsed = match parse_u64(&t) {
        Some(n) => if n <= usize::MAX as u64 {
            Some(n as usize)
        } else {
            None
        },
        None => None,
    };
    match parsed {
        None => {
            let mut out: Vec<char> = Vec::new();
            push_str(&mut out, "Invalid CPU core: ");
            push_chars(&mut out, &t);
            Err(string_of(&out))
        },
        Some(n) => if n < cores {
            Ok(n)
        } else {
            let mut out: Vec<char> = Vec::new();
            push_str(&mut out, "CPU core out of range: 0..");
            let last: u64 = if cores > 0 {
                (cores - 1) as u64
            } else {
                0
            };
            push_decimal(&mut out, last);
            Err(string_of(&out))
        },
    }
}

/// The status after `taskset` answered.
pub open spec fn pin_message(pid: Seq<char>, core: usize, a: Result<CommandOutputView, Seq<char>>) -> Seq<char> {
    match a {
        Ok(o) => if o.success {
            "Pinned PID "@ + pid + " to CPU core "@ + spec_decimal(core as nat)
        } else if spec_trim(o.stderr).len() == 0 {
            "CPU pin failed for PID "@ + pid
        } else {
            "CPU pin failed for PID "@ + pid + ": "@ + spec_trim(o.stderr)
        },
        Err(e) => "Failed to run taskset for PID "@ + pid + ": "@ + e,
    }
}

/// The status after `taskset` answered (see `pin_message`), and whether it succeeded.
pub fn pin_outcome(pid: &str, core: usize, r: Result<CommandOutput, String>) -> (m: (String, bool))
    ensures
        m.0@ == pin_message(pid@, core, answer_view(r)),
        m.1 == succeeded(answer_view(r)),
{
    let mut ok: Vec<char> = Vec::new();
    push_str(&mut ok, "Pinned PID ");
    push_str(&mut ok, pid);
    push_str(&mut ok, " to CPU core ");
    push_decimal(&mut ok, core as u64);
    let mut fail: Vec<char> = Vec::new();
    push_str(&mut fail, "CPU pin failed for PID ");
    push_str(&mut fail, pid);
    let mut run: Vec<char> = Vec::new();
    push_str(&mut run, "Failed to run taskset for PID ");
    push_str(&mut run, pid);
    let m = command_status(r, &ok, &fail, &run);
    assert(m.0@ =~= pin_message(pid@, core, answer_view(r)));
    m
}

/// Pins the selected process to the typed CPU core through `taskset` (Linux only), after
/// checking the typed value against the number of cores. Returns the status line and
/// whether to refresh.
pub fn pin_selected_process<P: CommandProvider>(
    provider: &mut P,
    loaded: bool,
    pid: Option<String>,
    cores: usize,
    value: &str,
) -> (m: (String, bool))
    ensures
        same_host(*old(provider), *final(provider)),
        !old(provider).on_linux() ==> m.0@ == "CPU affinity is currently supported on Linux only"@ && !m.1,
        old(provider).on_linux() ==> (selection_problem(loaded, pid is Some) matches Some(p) ==> m.0@ == p
            && !m.1),
        old(provider).on_linux() && selection_problem(loaded, pid is Some) is None && core_request(value@, cores) is Err
            ==> m.0@ == core_request(value@, cores)->Err_0 && !m.1,
        !(old(provider).on_linux() && selection_problem(loaded, pid is Some) is None && core_request(value@, cores)
            is Ok) ==> final(provider).ran() == old(provider).ran(),
        old(provider).on_linux() && selection_problem(loaded, pid is Some) is None && core_request(value@, cores) is Ok
            ==> final(provider).ran() == old(provider).ran().push(
            command_line("taskset"@, taskset_args(core_request(value@, cores)->Ok_0, pid->0@)),
        ),
        old(provider).on_linux() && selection_problem(loaded, pid is Some) is None && core_request(value@, cores) is Ok
            ==> exists|a| #[trigger]
            old(provider).answers("taskset"@, taskset_args(core_request(value@, cores)->Ok_0, pid->0@), a) && m.0@
                == pin_message(pid->0@, core_request(value@, cores)->Ok_0, a) && m.1 == succeeded(a),
{
    if !provider.is_linux() {
        return (string_of(&chars_of("CPU affinity is currently supported on Linux only")), false);
    }
    if !loaded {
        return (string_of(&chars_of("No snapshot loaded")), false);
    }
    let pid_text = match pid {
        Some(p) => p,
        None => {
            return (string_of(&chars_of("No process selected")), false);
        },
    };
    let core = match parse_core_value(value, cores) {
        Ok(n) => n,
        Err(e) => {
            return (e, false);
        },
    };
    let cs = decimal_string(core as u64);
    let ghost pv = pid_text@;
    let args = ["-cp", cs.as_str(), pid_text.as_str()];
    assert(str_views(args@) =~= taskset_args(core, pv));
    let r = provider.run("taskset", &args);
    let ghost a = answer_view(r);
    let res = pin_outcome(pid_text.as_str(), core, r);
    assert(provider.answers("taskset"@, taskset_args(core, pv), a) && res.0@ == pin_message(pv, core, a)
        && res.1 == succeeded(a));
    assert(pid->0@ == pv);
    assert(core_request(value@, cores)->Ok_0 == core);
    res
}

/// The status after a `systemctl` verb on a service.
pub open spec fn service_action_message(service: Seq<char>, action: Seq<char>, r: Result<Seq<char>, Seq<char>>) -> Seq<char> {
    match r {
        Ok(_) => "service "@ + service + ": "@ + action + " OK"@,
        Err(e) => "service "@ + service + ": "@ + action + " failed ("@ + e + ")"@,
    }
}

/// Runs a `systemctl` verb on the selected service. Returns the status line and whether to
/// refresh.
pub fn act_on_selected_service<P: CommandProvider>(
    provider: &mut P,
    loaded: bool,
    service: Option<String>,
    action: &str,
) -> (m: (String, bool))
    ensures
        same_host(*old(provider), *final(provider)),
        !loaded ==> m.0@ == "No snapshot loaded"@ && !m.1,
        loaded && service is None ==> m.0@ == "No service selected"@ && !m.1,
        loaded && service is Some && service_refusal(old(provider).on_linux(), old(provider).on_systemd()) is Some
            ==> service_refusal(old(provider).on_linux(), old(provider).on_systemd()) == Some(m.0@) && !m.1,
        !(loaded && service is Some && service_refusal(old(provider).on_linux(), old(provider).on_systemd()) is None)
            ==> final(provider).ran() == old(provider).ran(),
        loaded && service is Some && service_refusal(old(provider).on_linux(), old(provider).on_systemd()) is None
            ==> final(provider).ran() == old(provider).ran().push(
            command_line("systemctl"@, service_args(action@, service->0@)),
        ),
        loaded && service is Some && service_refusal(old(provider).on_linux(), old(provider).on_systemd()) is None
            ==> exists|a| #[trigger]
            old(provider).answers("systemctl"@, service_args(action@, service->0@), a) && m.0@ == service_action_message(
                service->0@,
                action@,
                systemctl_result(service_args(action@, service->0@), a),
            ) && m.1 == (systemctl_result(service_args(action@, service->0@), a) is Ok),
{
    if !loaded {
        return (string_of(&chars_of("No snapshot loaded")), false);
    }
    let service = match service {
        Some(s) => s,
        None => {
            return (string_of(&chars_of("No service selected")), false);
        },
    };
    match ensure_linux_systemd(provider.is_linux(), provider.has_systemd()) {
        Err(e) => {
            return (e, false);
        },
        Ok(()) => {},
    }
    let args = [action, service.as_str()];
    assert(str_views(args@) =~= service_args(action@, service@));
    let r = run_systemctl(provider, &args);
    assert(provider.ran() =~= old(provider).ran().push(command_line("systemctl"@, service_args(action@, service@))));
    let mut out: Vec<char> = Vec::new();
    push_str(&mut out, "service ");
    push_str(&mut out, service.as_str());
    push_str(&mut out, ": ");
    push_str(&mut out, action);
    match r {
        Ok(_) => {
            push_str(&mut out, " OK");
            (string_of(&out), true)
        },
        Err(e) => {
            push_str(&mut out, " failed (");
            push_str(&mut out, e.as_str());
            push_str(&mut out, ")");
            (string_of(&out), false)
        },
    }
}

/// Status after a connection action: its message either way, and a refresh on success.
pub open spec fn connection_action_status(r: Result<Seq<char>, Seq<char>>) -> (Seq<char>, bool) {
    match r {
        Ok(m) => (m, true),
        Err(e) => (e, false),
    }
}

/// Ends the selected connection (see `kill_connection`). Returns the status line and
/// whether to refresh.
pub fn kill_selected_connection<P: CommandProvider>(provider: &mut P, conn: Option<&ConnectionRow>) -> (m: (
    String,
    bool,
))
    ensures
        ran_lines(*old(provider), *final(provider), lines_since(*old(provider), *final(provider))),
        conn is None ==> m.0@ == "No connection selected"@ && !m.1 && final(provider).ran() == old(provider).ran(),
        conn matches Some(c) ==> exists|r: Result<Seq<char>, Seq<char>>|
            #![trigger kill_connection_result(*old(provider), c@, r, lines_since(*old(provider), *final(provider)))]
            kill_connection_result(*old(provider), c@, r, lines_since(*old(provider), *final(provider))) && (m.0@, m.1) == connection_action_status(r),
{
    match conn {
        None => {
            proof {
                lemma_lines_since(*old(provider), *provider, Seq::empty());
            }
            (string_of(&chars_of("No connection selected")), false)
        },
        Some(c) => {
            let r = kill_connection(provider, c);
            assert(kill_connection_result(*old(provider), c@, text_result(r), lines_since(*old(provider), *provider)));
            match r {
                Ok(m) => (m, true),
                Err(e) => (e, false),
            }
        },
    }
}

/// Blocks the remote address of the selected connection (see `block_ip`). Returns the
/// status line and whether to refresh.
pub fn block_selected_remote_ip<P: CommandProvider>(provider: &mut P, conn: Option<&ConnectionRow>) -> (m: (
    String,
    bool,
))
    ensures
        ran_lines(*old(provider), *final(provider), lines_since(*old(provider), *final(provider))),
        conn is None ==> m.0@ == "No connection selected"@ && !m.1 && final(provider).ran() == old(provider).ran(),
        conn matches Some(c) ==> exists|r: Result<Seq<char>, Seq<char>>|
            #![trigger block_ip_result(*old(provider), c.remote_ip@, r, lines_since(*old(provider), *final(provider)))]
            block_ip_result(*old(provider), c.remote_ip@, r, lines_since(*old(provider), *final(provider))) && (m.0@, m.1) == connection_action_status(r),
{
    match conn {
        None => {
            proof {
                lemma_lines_since(*old(provider), *provider, Seq::empty());
            }
            (string_of(&chars_of("No connection selected")), false)
        },
        Some(c) => {
            let r = block_ip(provider, c.remote_ip.as_str());
            assert(block_ip_result(*old(provider), c.remote_ip@, text_result(r), lines_since(*old(provider), *provider)));
            match r {
                Ok(m) => (m, true),
                Err(e) => (e, false),
            }
        },
    }
}

/// Lines of the network tools report: a heading, then each tool's lines indented.
pub open spec fn report_section(title: Seq<char>, lines: Seq<Seq<char>>) -> Seq<Seq<char>> {
    seq![Seq::empty(), title] + lines.map_values(|l: Seq<char>| "  "@ + l)
}

fn push_section(out: &mut Vec<String>, title: &str, lines: &Vec<String>)
    ensures
        string_views(final(out)@) == string_views(old(out)@) + report_section(title@, string_views(lines@)),
{
    out.push(String::new());
    out.push(string_of(&chars_of(title)));
    let mut i: usize = 0;
    while i < lines.len()
        invariant
            i <= lines@.len(),
            string_views(out@) == string_views(old(out)@) + report_section(title@, string_views(lines@).take(i as int)),
        decreases lines.len() - i,
    {
        let ghost before = out@;
        let mut l: Vec<char> = Vec::new();
        push_str(&mut l, "  ");
        push_str(&mut l, lines[i].as_str());
        let s = string_of(&l);
        out.push(s);
        assert(string_views(out@) =~= string_views(before).push(s@));
        assert(string_views(lines@).take(i + 1) =~= string_views(lines@).take(i as int).push(lines@[i as int]@));
        assert(report_section(title@, string_views(lines@).take(i + 1)) =~= report_section(title@, string_views(lines@).take(i as int)).push("  "@ + lines@[i as int]@));
        i = i + 1;
    }
    assert(string_views(lines@).take(lines@.len() as int) =~= string_views(lines@));
}

/// The lines of the network tools report: a `Target:` line, then DNS, ping, traceroute
/// and HTTP probe lines, each under its heading.
pub open spec fn report_lines(
    target: Seq<char>,
    dns: Seq<Seq<char>>,
    ping: Seq<Seq<char>>,
    trace: Seq<Seq<char>>,
    http: Seq<Seq<char>>,
) -> Seq<Seq<char>> {
    seq!["Target: "@ + target] + report_section("DNS"@, dns) + report_section("Ping"@, ping)
        + report_section("Traceroute"@, trace) + report_section("HTTP probe"@, http)
}

/// Assembles the network tools report (see `report_lines`).
pub fn network_report(
    target: &str,
    dns: &Vec<String>,
    ping: &Vec<String>,
    trace: &Vec<String>,
    http: &Vec<String>,
) -> (r: Vec<String>)
    ensures
        string_views(r@) == report_lines(
            target@,
            string_views(dns@),
            string_views(ping@),
            string_views(trace@),
            string_views(http@),
        ),
{
    let mut out: Vec<String> = Vec::new();
    let mut head: Vec<char> = Vec::new();
    push_str(&mut head, "Target: ");
    push_str(&mut head, target);
    let h = string_of(&head);
    out.push(h);
    assert(string_views(out@) =~= seq!["Target: "@ + target@]);
    push_section(&mut out, "DNS", dns);
    push_section(&mut out, "Ping", ping);
    push_section(&mut out, "Traceroute", trace);
    push_section(&mut out, "HTTP probe", http);
    out
}

/// Runs DNS lookup (6 lines), ping (6), traceroute (6) and the HTTP probe (4) against a
/// target and returns the report with the status line.
pub fn run_network_tools<P: CommandProvider>(provider: &mut P, target: &str) -> (r: (Vec<String>, String))
    ensures
        same_host(*old(provider), *final(provider)),
        r.1@ == "Network tools refreshed for "@ + target@,
        exists|d: Seq<Seq<char>>, p: Seq<Seq<char>>, t: Seq<Seq<char>>, h: Seq<Seq<char>>|
            #[trigger] report_lines(target@, d, p, t, h) == string_views(r.0@) && dns_lookup_gives(*old(provider),
                target@,
                6,
                d,
            ) && ping_gives(*old(provider), target@, 6, p) && traceroute_gives(*old(provider), target@, 6, t)
                && http_probe_gives(*old(provider), target@, 4, h),
{
    let dns = run_dns_lookup(provider, target, 6);
    let ping = run_ping(provider, target, 6);
    let trace = run_traceroute(provider, target, 6);
    let http = run_http_probe(provider, target, 4);
    let out = network_report(target, &dns, &ping, &trace, &http);
    let mut status: Vec<char> = Vec::new();
    push_str(&mut status, "Network tools refreshed for ");
    push_str(&mut status, target);
    (out, string_of(&status))
}

} // verus!
