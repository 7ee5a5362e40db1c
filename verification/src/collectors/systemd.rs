//! Services of a systemd host: listing, counting, logs, failure details and actions.
use crate::cli::ServiceState;
use crate::collectors::logs::{answer_lines, output_lines};
use crate::collectors::provider::{command_line, lemma_same_host_trans, ran_lines, same_host, 
    CommandOutput, CommandOutputView, CommandProvider, answer_view, join_args, join_strs, str_views,
};
use crate::text::{
    chars_of, copy_range, decimal_string, equals_str, lines, parse_i32, parse_u32, parse_u64,
    parse_i32_spec, parse_u32_spec, parse_u64_spec, push_chars, push_str, spec_decimal,
    spec_lines, spec_strip_prefix, spec_trim, spec_words, string_of, string_views, strip_prefix,
    trim, views, words,
};
use vstd::prelude::*;

verus! {

/// A single systemd service row for display.
pub struct ServiceRow {
    pub name: String,
    pub active: String,
    pub sub: String,
}

pub struct ServiceRowView {
    pub name: Seq<char>,
    pub active: Seq<char>,
    pub sub: Seq<char>,
}

impl View for ServiceRow {
    type V = ServiceRowView;

    open spec fn view(&self) -> ServiceRowView {
        ServiceRowView { name: self.name@, active: self.active@, sub: self.sub@ }
    }
}

pub open spec fn row_views(v: Seq<ServiceRow>) -> Seq<ServiceRowView> {
    v.map_values(|r: ServiceRow| r@)
}

/// Aggregate service counts.
#[derive(Clone, Copy)]
pub struct ServiceSummary {
    pub running: usize,
    pub failed: usize,
}

#[derive(Clone, Copy)]
pub struct ServiceStateCounts {
    pub running: usize,
    pub failed: usize,
    pub inactive: usize,
    pub activating: usize,
    pub deactivating: usize,
}

/// Properties `systemctl show` reports for a unit, with the latest error from its journal.
pub struct ServiceFailureDetails {
    pub result: String,
    pub exec_main_status: Option<i32>,
    pub exec_main_code: String,
    pub status_text: String,
    pub last_error: String,
    pub active_state: String,
    pub sub_state: String,
    pub unit_file_state: String,
    pub main_pid: Option<u32>,
    pub tasks_current: Option<u32>,
    pub memory_current: Option<u64>,
    pub n_restarts: Option<u64>,
}

pub struct ServiceFailureDetailsView {
    pub result: Seq<char>,
    pub exec_main_status: Option<i32>,
    pub exec_main_code: Seq<char>,
    pub status_text: Seq<char>,
    pub last_error: Seq<char>,
    pub active_state: Seq<char>,
    pub sub_state: Seq<char>,
    pub unit_file_state: Seq<char>,
    pub main_pid: Option<u32>,
    pub tasks_current: Option<u32>,
    pub memory_current: Option<u64>,
    pub n_restarts: Option<u64>,
}

impl View for ServiceFailureDetails {
    type V = ServiceFailureDetailsView;

    open spec fn view(&self) -> ServiceFailureDetailsView {
        ServiceFailureDetailsView {
            result: self.result@,
            exec_main_status: self.exec_main_status,
            exec_main_code: self.exec_main_code@,
            status_text: self.status_text@,
            last_error: self.last_error@,
            active_state: self.active_state@,
            sub_state: self.sub_state@,
            unit_file_state: self.unit_file_state@,
            main_pid: self.main_pid,
            tasks_current: self.tasks_current,
            memory_current: self.memory_current,
            n_restarts: self.n_restarts,
        }
    }
}

/// Views of a text result.
pub open spec fn text_result(r: Result<String, String>) -> Result<Seq<char>, Seq<char>> {
    match r {
        Ok(s) => Ok(s@),
        Err(e) => Err(e@),
    }
}

pub open spec fn linux_only_message() -> Seq<char> {
    "service management is currently supported on Linux hosts only"@
}

pub open spec fn no_systemd_message() -> Seq<char> {
    "service management needs systemd, which this host does not run"@
}

/// Why a host cannot have its services managed: it is not a Linux host, or it does not run
/// systemd; none when it can.
pub open spec fn service_refusal(linux: bool, systemd: bool) -> Option<Seq<char>> {
    if !linux {
        Some(linux_only_message())
    } else if !systemd {
        Some(no_systemd_message())
    } else {
        None
    }
}

/// Ensures a Linux host that runs systemd (see `service_refusal`).
pub fn ensure_linux_systemd(linux: bool, systemd: bool) -> (r: Result<(), String>)
    ensures
        r is Ok <==> linux && systemd,
        r matches Err(e) ==> service_refusal(linux, systemd) == Some(e@),
{
    if !linux {
        return Err(string_of(&chars_of("service management is currently supported on Linux hosts only")));
    }
    if !systemd {
        return Err(string_of(&chars_of("service management needs systemd, which this host does not run")));
    }
    Ok(())
}

/// A stderr text, or "unknown error" when it is empty.
pub open spec fn or_unknown(s: Seq<char>) -> Seq<char> {
    if s.len() == 0 {
        "unknown error"@
    } else {
        s
    }
}

/// What `run_systemctl` returns for an answer: the trimmed output on success, an error
/// naming the arguments otherwise.
pub open spec fn systemctl_result(args: Seq<Seq<char>>, a: Result<CommandOutputView, Seq<char>>) -> Result<
    Seq<char>,
    Seq<char>,
> {
    match a {
        Err(e) => Err("failed to invoke systemctl with args: "@ + join_args(args) + ": "@ + e),
        Ok(o) => if o.success {
            Ok(spec_trim(o.stdout))
        } else {
            Err("systemctl "@ + join_args(args) + " failed: "@ + or_unknown(spec_trim(o.stderr)))
        },
    }
}

/// Interprets the answer to a `systemctl` call (see `systemctl_result`).
pub fn systemctl_outcome(args: &[&str], r: Result<CommandOutput, String>) -> (res: Result<String, String>)
    ensures
        text_result(res) == systemctl_result(str_views(args@), answer_view(r)),
{
    let joined = join_strs(args);
    match r {
        Err(e) => {
            let mut m: Vec<char> = Vec::new();
            push_str(&mut m, "failed to invoke systemctl with args: ");
            push_chars(&mut m, &joined);
            push_str(&mut m, ": ");
            push_str(&mut m, e.as_str());
            Err(string_of(&m))
        },
        Ok(o) => {
            if o.success {
                let cs = chars_of(o.stdout.as_str());
                let t = trim(&cs);
                Ok(string_of(&t))
            } else {
                let cs = chars_of(o.stderr.as_str());
                let t = trim(&cs);
                let mut m: Vec<char> = Vec::new();
                push_str(&mut m, "systemctl ");
                push_chars(&mut m, &joined);
                push_str(&mut m, " failed: ");
                if t.len() == 0 {
                    push_str(&mut m, "unknown error");
                } else {
                    push_chars(&mut m, &t);
                }
                Err(string_of(&m))
            }
        },
    }
}

/// Runs `systemctl` and returns its trimmed output.
pub fn run_systemctl<P: CommandProvider>(provider: &mut P, args: &[&str]) -> (res: Result<String, String>)
    ensures
        ran_lines(*old(provider), *final(provider), seq![command_line("systemctl"@, str_views(args@))]),
        exists|a| #[trigger] old(provider).answers("systemctl"@, str_views(args@), a) && text_result(res)
            == systemctl_result(str_views(args@), a),
{
    let r = provider.run("systemctl", args);
    assert(provider.ran() =~= old(provider).ran() + seq![command_line("systemctl"@, str_views(args@))]);
    systemctl_outcome(args, r)
}

/// A `systemctl list-units` line as a row: first, third and fourth columns.
pub open spec fn spec_parse_service_line(l: Seq<char>) -> Option<ServiceRowView> {
    let cols = spec_words(l);
    if cols.len() < 4 {
        None
    } else {
        Some(ServiceRowView { name: cols[0], active: cols[2], sub: cols[3] })
    }
}

pub fn parse_service_line(line: &[char]) -> (r: Option<ServiceRow>)
    ensures
        match r {
            Some(row) => spec_parse_service_line(line@) == Some(row@),
            None => spec_parse_service_line(line@) is None,
        },
{
    let cols = words(line);
    if cols.len() < 4 {
        return None;
    }
    Some(
        ServiceRow {
            name: string_of(&cols[0]),
            active: string_of(&cols[2]),
            sub: string_of(&cols[3]),
        },
    )
}

/// Whether a row passes the state filter.
pub open spec fn state_matches(state: ServiceState, r: ServiceRowView) -> bool {
    match state {
        ServiceState::Running => r.active == "active"@ && r.sub == "running"@,
        ServiceState::Failed => r.active == "failed"@,
        ServiceState::All => true,
    }
}

/// The rows of the parsable lines that pass the filter, in order.
pub open spec fn service_rows(ls: Seq<Seq<char>>, state: ServiceState) -> Seq<ServiceRowView>
    decreases ls.len(),
{
    if ls.len() == 0 {
        Seq::empty()
    } else {
        let prev = service_rows(ls.drop_last(), state);
        match spec_parse_service_line(ls.last()) {
            Some(r) => if state_matches(state, r) {
                prev.push(r)
            } else {
                prev
            },
            None => prev,
        }
    }
}

fn row_matches(state: ServiceState, row: &ServiceRow) -> (b: bool)
    ensures
        b == state_matches(state, row@),
{
    let a = chars_of(row.active.as_str());
    let s = chars_of(row.sub.as_str());
    match state {
        ServiceState::Running => equals_str(&a, "active") && equals_str(&s, "running"),
        ServiceState::Failed => equals_str(&a, "failed"),
        ServiceState::All => true,
    }
}

/// At most `limit` rows parsed from the listing text that pass the state filter.
pub fn services_from_listing(listing: &str, state: ServiceState, limit: usize) -> (v: Vec<ServiceRow>)
    ensures
        row_views(v@) == service_rows(spec_lines(listing@), state).take(
            vstd::math::min(limit as int, service_rows(spec_lines(listing@), state).len() as int),
        ),
{
    let cs = chars_of(listing);
    let ls = lines(&cs);
    let ghost lv = views(ls@);
    let mut v: Vec<ServiceRow> = Vec::new();
    let mut i: usize = 0;
    while i < ls.len()
        invariant
            i <= ls@.len(),
            lv == views(ls@),
            lv == spec_lines(listing@),
            row_views(v@) == service_rows(lv.take(i as int), state).take(
                vstd::math::min(limit as int, service_rows(lv.take(i as int), state).len() as int),
            ),
        decreases ls.len() - i,
    {
        let ghost prev = service_rows(lv.take(i as int), state);
        assert(lv.take(i + 1).drop_last() =~= lv.take(i as int));
        assert(lv.take(i + 1).last() == ls@[i as int]@);
        match parse_service_line(&ls[i]) {
            Some(row) => {
                if row_matches(state, &row) {
                    if v.len() < limit {
                        let ghost before = v@;
                        let ghost rv = row@;
                        v.push(row);
                        assert(row_views(v@) =~= row_views(before).push(rv));
                        assert(row_views(before) =~= prev);
                        assert(prev.push(rv).take(vstd::math::min(limit as int, (prev.len() + 1) as int)) =~= prev.push(rv));
                    } else {
                        assert(row_views(v@).len() == v@.len());
                        assert(prev.len() >= limit);
                        assert(prev.push(row@).take(limit as int) =~= prev.take(limit as int));
                    }
                }
            },
            None => {},
        }
        i = i + 1;
    }
    assert(lv.take(ls@.len() as int) =~= lv);
    v
}

pub open spec fn list_all_args() -> Seq<Seq<char>> {
    seq!["list-units"@, "--type=service"@, "--all"@, "--no-legend"@, "--no-pager"@]
}

/// Lists systemd services that pass the state filter, at most `limit` of them.
pub fn collect_services<P: CommandProvider>(provider: &mut P, state: ServiceState, limit: usize) -> (r: Result<Vec<ServiceRow>, String>)
    ensures
        same_host(*old(provider), *final(provider)),
        service_refusal(old(provider).on_linux(), old(provider).on_systemd()) matches Some(m) ==> (r matches Err(e)
            && e@ == m),
        service_refusal(old(provider).on_linux(), old(provider).on_systemd()) is Some ==> final(provider).ran()
            == old(provider).ran(),
        service_refusal(old(provider).on_linux(), old(provider).on_systemd()) is None ==> final(provider).ran()
            == old(provider).ran().push(command_line("systemctl"@, list_all_args())),
        service_refusal(old(provider).on_linux(), old(provider).on_systemd()) is None ==> exists|a| #[trigger]
            old(provider).answers("systemctl"@, list_all_args(), a) && match systemctl_result(
                list_all_args(),
                a,
            ) {
                Err(e) => r matches Err(re) && re@ == e,
                Ok(text) => r matches Ok(v) && row_views(v@) == service_rows(spec_lines(text), state).take(
                    vstd::math::min(limit as int, service_rows(spec_lines(text), state).len() as int),
                ),
            },
{
    ensure_linux_systemd(provider.is_linux(), provider.has_systemd())?;
    let args = ["list-units", "--type=service", "--all", "--no-legend", "--no-pager"];
    assert(str_views(args@) =~= list_all_args());
    let res = run_systemctl(provider, &args);
    assert(provider.ran() =~= old(provider).ran().push(command_line("systemctl"@, list_all_args())));
    let text = res?;
    Ok(services_from_listing(text.as_str(), state, limit))
}

/// Number of lines that hold more than whitespace.
pub open spec fn count_nonempty(ls: Seq<Seq<char>>) -> nat
    decreases ls.len(),
{
    if ls.len() == 0 {
        0
    } else {
        count_nonempty(ls.drop_last()) + if spec_trim(ls.last()).len() > 0 {
            1nat
        } else {
            0nat
        }
    }
}

proof fn lemma_count_nonempty_le(ls: Seq<Seq<char>>)
    ensures
        count_nonempty(ls) <= ls.len(),
    decreases ls.len(),
{
    if ls.len() > 0 {
        lemma_count_nonempty_le(ls.drop_last());
    }
}

/// Counts the lines of `text` that hold more than whitespace.
pub fn count_nonempty_lines(text: &str) -> (n: usize)
    ensures
        n == count_nonempty(spec_lines(text@)),
{
    let cs = chars_of(text);
    let ls = lines(&cs);
    let ghost lv = views(ls@);
    let mut n: usize = 0;
    let mut i: usize = 0;
    while i < ls.len()
        invariant
            i <= ls@.len(),
            lv == views(ls@),
            n == count_nonempty(lv.take(i as int)),
            n <= i,
        decreases ls.len() - i,
    {
        assert(lv.take(i + 1).drop_last() =~= lv.take(i as int));
        let t = trim(&ls[i]);
        if t.len() > 0 {
            n = n + 1;
        }
        i = i + 1;
    }
    assert(lv.take(ls@.len() as int) =~= lv);
    n
}

pub open spec fn state_count_args(state: Seq<char>) -> Seq<Seq<char>> {
    seq![
        "list-units"@,
        "--type=service"@,
        "--state"@,
        state,
        "--all"@,
        "--no-legend"@,
        "--no-pager"@,
    ]
}

/// What counting the services of a state gives for an answer.
pub open spec fn count_answer(state: Seq<char>, a: Result<CommandOutputView, Seq<char>>) -> Result<nat, Seq<char>> {
    match systemctl_result(state_count_args(state), a) {
        Err(e) => Err(e),
        Ok(text) => Ok(count_nonempty(spec_lines(text))),
    }
}

pub open spec fn count_view(r: Result<usize, String>) -> Result<nat, Seq<char>> {
    match r {
        Ok(n) => Ok(n as nat),
        Err(e) => Err(e@),
    }
}

/// Counts the services systemd lists in the given state.
pub fn count_services_by_state<P: CommandProvider>(provider: &mut P, state: &str) -> (r: Result<usize, String>)
    ensures
        ran_lines(*old(provider), *final(provider), seq![command_line("systemctl"@, state_count_args(state@))]),
        exists|a| #[trigger] old(provider).answers("systemctl"@, state_count_args(state@), a) && count_view(r)
            == count_answer(state@, a),
{
    let args = ["list-units", "--type=service", "--state", state, "--all", "--no-legend", "--no-pager"];
    assert(str_views(args@) =~= state_count_args(state@));
    let text = run_systemctl(provider, &args)?;
    let n = count_nonempty_lines(text.as_str());
    Ok(n)
}

pub open spec fn state_list_args(state: Seq<char>) -> Seq<Seq<char>> {
    seq!["list-units"@, "--type=service"@, state, "--no-legend"@, "--no-pager"@]
}

/// Counts running and failed systemd services: asks for the running ones, then, when that
/// worked, for the failed ones.
pub fn count_systemd_services<P: CommandProvider>(provider: &mut P) -> (r: Result<(usize, usize), String>)
    ensures
        same_host(*old(provider), *final(provider)),
        exists|a| #[trigger] old(provider).answers("systemctl"@, state_list_args("--state=running"@), a) && match systemctl_result(
            state_list_args("--state=running"@),
            a,
        ) {
            Err(e) => r matches Err(re) && re@ == e && final(provider).ran() == old(provider).ran().push(
                command_line("systemctl"@, state_list_args("--state=running"@)),
            ),
            Ok(text) => final(provider).ran() == old(provider).ran().push(
                command_line("systemctl"@, state_list_args("--state=running"@)),
            ).push(command_line("systemctl"@, state_list_args("--state=failed"@))) && exists|b| #[trigger] old(
                provider,
            ).answers("systemctl"@, state_list_args("--state=failed"@), b) && match systemctl_result(
                state_list_args("--state=failed"@),
                b,
            ) {
                Err(e) => r matches Err(re) && re@ == e,
                Ok(text2) => r == Ok::<(usize, usize), String>(
                    (count_nonempty(spec_lines(text)) as usize, count_nonempty(spec_lines(text2)) as usize),
                ),
            },
        },
{
    let args = ["list-units", "--type=service", "--state=running", "--no-legend", "--no-pager"];
    assert(str_views(args@) =~= state_list_args("--state=running"@));
    let running = run_systemctl(provider, &args)?;
    let ghost p1 = *provider;
    let args2 = ["list-units", "--type=service", "--state=failed", "--no-legend", "--no-pager"];
    assert(str_views(args2@) =~= state_list_args("--state=failed"@));
    let failed = run_systemctl(provider, &args2);
    proof {
        lemma_same_host_trans(*old(provider), p1, *provider);
    }
    let failed = failed?;
    Ok((count_nonempty_lines(running.as_str()), count_nonempty_lines(failed.as_str())))
}

/// The states whose services `count_service_states` counts, in the order it asks.
pub open spec fn counted_states() -> Seq<Seq<char>> {
    seq!["running"@, "failed"@, "inactive"@, "activating"@, "deactivating"@]
}

/// Whether asking for the counted states from the `k`-th on, after the counts `done`,
/// may give `r` and leave `lines` run: each state is asked in turn; the first answer that
/// gives no count makes `r` its error and nothing more is asked; after the last one `r`
/// holds all the counts.
pub open spec fn states_outcome<P: CommandProvider>(
    p: P,
    k: nat,
    done: Seq<nat>,
    r: Result<Seq<nat>, Seq<char>>,
    lines: Seq<(Seq<char>, Seq<Seq<char>>)>,
) -> bool
    decreases 5 - k,
{
    if k >= 5 {
        r == Ok::<Seq<nat>, Seq<char>>(done) && lines == Seq::<(Seq<char>, Seq<Seq<char>>)>::empty()
    } else {
        &&& lines.len() > 0
        &&& lines[0] == command_line("systemctl"@, state_count_args(counted_states()[k as int]))
        &&& exists|a| #[trigger] p.answers("systemctl"@, state_count_args(counted_states()[k as int]), a) && match count_answer(
            counted_states()[k as int],
            a,
        ) {
            Err(e) => r == Err::<Seq<nat>, Seq<char>>(e) && lines.len() == 1,
            Ok(n) => states_outcome(p, k + 1, done.push(n), r, lines.drop_first()),
        }
    }
}

pub open spec fn counts_view(r: Result<ServiceStateCounts, String>) -> Result<Seq<nat>, Seq<char>> {
    match r {
        Ok(c) => Ok(
            seq![c.running as nat, c.failed as nat, c.inactive as nat, c.activating as nat, c.deactivating as nat],
        ),
        Err(e) => Err(e@),
    }
}

/// Counts services in each state of interest (see `states_outcome`): running, failed,
/// inactive, activating and deactivating, asked in that order until one fails.
#[verifier::spinoff_prover]
#[verifier::rlimit(100)]
pub fn count_service_states<P: CommandProvider>(provider: &mut P) -> (r: Result<ServiceStateCounts, String>)
    ensures
        same_host(*old(provider), *final(provider)),
        exists|lines: Seq<(Seq<char>, Seq<Seq<char>>)>|
            #[trigger] states_outcome(*old(provider), 0, Seq::empty(), counts_view(r), lines) && final(provider).ran()
                == old(provider).ran() + lines,
{
    let ghost p0 = *provider;
    proof {
        assert(counted_states()[0] == "running"@);
        assert(counted_states()[1] == "failed"@);
        assert(counted_states()[2] == "inactive"@);
        assert(counted_states()[3] == "activating"@);
        assert(counted_states()[4] == "deactivating"@);
    }
    let res0 = count_services_by_state(provider, "running");
    let running = match res0 {
        Ok(n) => n,
        Err(e) => {
            proof {
                let d0 = Seq::<nat>::empty();
                let l0 = seq![command_line("systemctl"@, state_count_args(counted_states()[0]))];
                lemma_state_step_err(p0, p0, 0, d0, e@);
                assert(provider.ran() =~= p0.ran() + l0);
            }
            return Err(e);
        },
    };
    let ghost p1 = *provider;
    let res1 = count_services_by_state(provider, "failed");
    proof {
        lemma_same_host_trans(p0, p1, *provider);
    }
    let failed = match res1 {
        Ok(n) => n,
        Err(e) => {
            proof {
                let d0 = Seq::<nat>::empty();
                let d1 = d0.push(running as nat);
                let l1 = seq![command_line("systemctl"@, state_count_args(counted_states()[1]))];
                lemma_state_step_err(p0, p1, 1, d1, e@);
                let l0 = seq![command_line("systemctl"@, state_count_args(counted_states()[0]))] + l1;
                lemma_state_step_ok(p0, p0, 0, d0, running as nat, Err(e@), l1);
                assert(provider.ran() =~= p0.ran() + l0);
            }
            return Err(e);
        },
    };
    let ghost p2 = *provider;
    let res2 = count_services_by_state(provider, "inactive");
    proof {
        lemma_same_host_trans(p0, p2, *provider);
    }
    let inactive = match res2 {
        Ok(n) => n,
        Err(e) => {
            proof {
                let d0 = Seq::<nat>::empty();
                let d1 = d0.push(running as nat);
                let d2 = d1.push(failed as nat);
                let l2 = seq![command_line("systemctl"@, state_count_args(counted_states()[2]))];
                lemma_state_step_err(p0, p2, 2, d2, e@);
                let l1 = seq![command_line("systemctl"@, state_count_args(counted_states()[1]))] + l2;
                lemma_state_step_ok(p0, p1, 1, d1, failed as nat, Err(e@), l2);
                let l0 = seq![command_line("systemctl"@, state_count_args(counted_states()[0]))] + l1;
                lemma_state_step_ok(p0, p0, 0, d0, running as nat, Err(e@), l1);
                assert(provider.ran() =~= p0.ran() + l0);
            }
            return Err(e);
        },
    };
    let ghost p3 = *provider;
    let res3 = count_services_by_state(provider, "activating");
    proof {
        lemma_same_host_trans(p0, p3, *provider);
    }
    let activating = match res3 {
        Ok(n) => n,
        Err(e) => {
            proof {
                let d0 = Seq::<nat>::empty();
                let d1 = d0.push(running as nat);
                let d2 = d1.push(failed as nat);
                let d3 = d2.push(inactive as nat);
                let l3 = seq![command_line("systemctl"@, state_count_args(counted_states()[3]))];
                lemma_state_step_err(p0, p3, 3, d3, e@);
                let l2 = seq![command_line("systemctl"@, state_count_args(counted_states()[2]))] + l3;
                lemma_state_step_ok(p0, p2, 2, d2, inactive as nat, Err(e@), l3);
                let l1 = seq![command_line("systemctl"@, state_count_args(counted_states()[1]))] + l2;
                lemma_state_step_ok(p0, p1, 1, d1, failed as nat, Err(e@), l2);
                let l0 = seq![command_line("systemctl"@, state_count_args(counted_states()[0]))] + l1;
                lemma_state_step_ok(p0, p0, 0, d0, running as nat, Err(e@), l1);
                assert(provider.ran() =~= p0.ran() + l0);
            }
            return Err(e);
        },
    };
    let ghost p4 = *provider;
    let res4 = count_services_by_state(provider, "deactivating");
    proof {
        lemma_same_host_trans(p0, p4, *provider);
    }
    let deactivating = match res4 {
        Ok(n) => n,
        Err(e) => {
            proof {
                let d0 = Seq::<nat>::empty();
                let d1 = d0.push(running as nat);
                let d2 = d1.push(failed as nat);
                let d3 = d2.push(inactive as nat);
                let d4 = d3.push(activating as nat);
                let l4 = seq![command_line("systemctl"@, state_count_args(counted_states()[4]))];
                lemma_state_step_err(p0, p4, 4, d4, e@);
                let l3 = seq![command_line("systemctl"@, state_count_args(counted_states()[3]))] + l4;
                lemma_state_step_ok(p0, p3, 3, d3, activating as nat, Err(e@), l4);
                let l2 = seq![command_line("systemctl"@, state_count_args(counted_states()[2]))] + l3;
                lemma_state_step_ok(p0, p2, 2, d2, inactive as nat, Err(e@), l3);
                let l1 = seq![command_line("systemctl"@, state_count_args(counted_states()[1]))] + l2;
                lemma_state_step_ok(p0, p1, 1, d1, failed as nat, Err(e@), l2);
                let l0 = seq![command_line("systemctl"@, state_count_args(counted_states()[0]))] + l1;
                lemma_state_step_ok(p0, p0, 0, d0, running as nat, Err(e@), l1);
                assert(provider.ran() =~= p0.ran() + l0);
            }
            return Err(e);
        },
    };
    let r = ServiceStateCounts { running, failed, inactive, activating, deactivating };
    proof {
            let d0 = Seq::<nat>::empty();
            let d1 = d0.push(running as nat);
            let d2 = d1.push(failed as nat);
            let d3 = d2.push(inactive as nat);
            let d4 = d3.push(activating as nat);
            let d5 = d4.push(deactivating as nat);
            let all = Ok::<Seq<nat>, Seq<char>>(d5);
            assert(counts_view(Ok::<ServiceStateCounts, String>(r)) == all) by {
                assert(d5 =~= seq![running as nat, failed as nat, inactive as nat, activating as nat, deactivating as nat]);
            }
            let l5 = Seq::<(Seq<char>, Seq<Seq<char>>)>::empty();
            assert(states_outcome(p0, 5, d5, all, l5));
            let l4 = seq![command_line("systemctl"@, state_count_args(counted_states()[4]))] + l5;
            lemma_state_step_ok(p0, p4, 4, d4, deactivating as nat, all, l5);
            let l3 = seq![command_line("systemctl"@, state_count_args(counted_states()[3]))] + l4;
            lemma_state_step_ok(p0, p3, 3, d3, activating as nat, all, l4);
            let l2 = seq![command_line("systemctl"@, state_count_args(counted_states()[2]))] + l3;
            lemma_state_step_ok(p0, p2, 2, d2, inactive as nat, all, l3);
            let l1 = seq![command_line("systemctl"@, state_count_args(counted_states()[1]))] + l2;
            lemma_state_step_ok(p0, p1, 1, d1, failed as nat, all, l2);
            let l0 = seq![command_line("systemctl"@, state_count_args(counted_states()[0]))] + l1;
            lemma_state_step_ok(p0, p0, 0, d0, running as nat, all, l1);
            assert(provider.ran() =~= p0.ran() + l0);
    }
    Ok(r)
}

/// Asking for a state whose answer gives no count ends the counting with that error.
proof fn lemma_state_step_err<P: CommandProvider>(p0: P, pk: P, k: nat, done: Seq<nat>, e: Seq<char>)
    requires
        k < 5,
        same_host(p0, pk),
        exists|a| #[trigger] pk.answers("systemctl"@, state_count_args(counted_states()[k as int]), a) && count_answer(
            counted_states()[k as int],
            a,
        ) == Err::<nat, Seq<char>>(e),
    ensures
        states_outcome(p0, k, done, Err(e), seq![command_line("systemctl"@, state_count_args(counted_states()[k as int]))]),
{
    let a = choose|a| #[trigger] pk.answers("systemctl"@, state_count_args(counted_states()[k as int]), a) && count_answer(
        counted_states()[k as int],
        a,
    ) == Err::<nat, Seq<char>>(e);
    assert(p0.answers("systemctl"@, state_count_args(counted_states()[k as int]), a));
}

/// Asking for a state whose answer gives a count goes on with the next state.
proof fn lemma_state_step_ok<P: CommandProvider>(
    p0: P,
    pk: P,
    k: nat,
    done: Seq<nat>,
    n: nat,
    r: Result<Seq<nat>, Seq<char>>,
    rest: Seq<(Seq<char>, Seq<Seq<char>>)>,
)
    requires
        k < 5,
        same_host(p0, pk),
        exists|a| #[trigger] pk.answers("systemctl"@, state_count_args(counted_states()[k as int]), a) && count_answer(
            counted_states()[k as int],
            a,
        ) == Ok::<nat, Seq<char>>(n),
        states_outcome(p0, k + 1, done.push(n), r, rest),
    ensures
        states_outcome(p0, k, done, r, seq![command_line("systemctl"@, state_count_args(counted_states()[k as int]))] + rest),
{
    let a = choose|a| #[trigger] pk.answers("systemctl"@, state_count_args(counted_states()[k as int]), a) && count_answer(
        counted_states()[k as int],
        a,
    ) == Ok::<nat, Seq<char>>(n);
    assert(p0.answers("systemctl"@, state_count_args(counted_states()[k as int]), a));
    let line = command_line("systemctl"@, state_count_args(counted_states()[k as int]));
    assert((seq![line] + rest).drop_first() =~= rest);
    assert((seq![line] + rest)[0] == line);
}

pub open spec fn service_log_args(service: Seq<char>, lines: nat) -> Seq<Seq<char>> {
    seq!["-u"@, service, "-n"@, spec_decimal(lines), "--no-pager"@, "--output=short"@]
}

pub open spec fn journal_invoke_error(service: Seq<char>, e: Seq<char>) -> Seq<char> {
    "failed to invoke journalctl for service "@ + service + ": "@ + e
}

/// What `collect_service_logs` returns for the journal's answer.
pub open spec fn service_logs_result(service: Seq<char>, a: Result<CommandOutputView, Seq<char>>) -> Result<Seq<Seq<char>>, Seq<char>> {
    match a {
        Err(e) => Err(journal_invoke_error(service, e)),
        Ok(o) => if o.success {
            Ok(spec_lines(o.stdout))
        } else {
            Err("journalctl -u "@ + service + " failed: "@ + or_unknown(spec_trim(o.stderr)))
        },
    }
}

pub open spec fn lines_result(r: Result<Vec<String>, String>) -> Result<Seq<Seq<char>>, Seq<char>> {
    match r {
        Ok(v) => Ok(string_views(v@)),
        Err(e) => Err(e@),
    }
}

fn invoke_error(service: &str, e: &String) -> (m: String)
    ensures
        m@ == journal_invoke_error(service@, e@),
{
    let mut m: Vec<char> = Vec::new();
    push_str(&mut m, "failed to invoke journalctl for service ");
    push_str(&mut m, service);
    push_str(&mut m, ": ");
    push_str(&mut m, e.as_str());
    string_of(&m)
}

/// Interprets the journal's answer for a service (see `service_logs_result`).
pub fn service_logs_outcome(service: &str, r: Result<CommandOutput, String>) -> (res: Result<Vec<String>, String>)
    ensures
        lines_result(res) == service_logs_result(service@, answer_view(r)),
{
    match r {
        Err(e) => Err(invoke_error(service, &e)),
        Ok(o) => if o.success {
            Ok(crate::text::line_strings(o.stdout.as_str()))
        } else {
            let cs = chars_of(o.stderr.as_str());
            let t = trim(&cs);
            let mut m: Vec<char> = Vec::new();
            push_str(&mut m, "journalctl -u ");
            push_str(&mut m, service);
            push_str(&mut m, " failed: ");
            if t.len() == 0 {
                push_str(&mut m, "unknown error");
            } else {
                push_chars(&mut m, &t);
            }
            Err(string_of(&m))
        },
    }
}

/// Recent journal lines for a service, on Linux hosts.
pub fn collect_service_logs<P: CommandProvider>(provider: &mut P, service: &str, lines: usize) -> (r: Result<Vec<String>, String>)
    ensures
        same_host(*old(provider), *final(provider)),
        service_refusal(old(provider).on_linux(), old(provider).on_systemd()) matches Some(m) ==> (r matches Err(e)
            && e@ == m) && final(provider).ran() == old(provider).ran(),
        service_refusal(old(provider).on_linux(), old(provider).on_systemd()) is None ==> final(provider).ran()
            == old(provider).ran().push(command_line("journalctl"@, service_log_args(service@, lines as nat))),
        service_refusal(old(provider).on_linux(), old(provider).on_systemd()) is None ==> exists|a| #[trigger]
            old(provider).answers("journalctl"@, service_log_args(service@, lines as nat), a)
                && lines_result(r) == service_logs_result(service@, a),
{
    ensure_linux_systemd(provider.is_linux(), provider.has_systemd())?;
    let n = decimal_string(lines as u64);
    let args = ["-u", service, "-n", n.as_str(), "--no-pager", "--output=short"];
    assert(str_views(args@) =~= service_log_args(service@, lines as nat));
    let r = provider.run("journalctl", &args);
    service_logs_outcome(service, r)
}

pub open spec fn empty_details() -> ServiceFailureDetailsView {
    ServiceFailureDetailsView {
        result: Seq::empty(),
        exec_main_status: None,
        exec_main_code: Seq::empty(),
        status_text: Seq::empty(),
        last_error: Seq::empty(),
        active_state: Seq::empty(),
        sub_state: Seq::empty(),
        unit_file_state: Seq::empty(),
        main_pid: None,
        tasks_current: None,
        memory_current: None,
        n_restarts: None,
    }
}

pub open spec fn positive_u32(v: Option<u32>) -> Option<u32> {
    match v {
        Some(x) => if x > 0 {
            Some(x)
        } else {
            None
        },
        None => None,
    }
}

pub open spec fn positive_u64(v: Option<u64>) -> Option<u64> {
    match v {
        Some(x) => if x > 0 {
            Some(x)
        } else {
            None
        },
        None => None,
    }
}

/// The details after reading one `Key=Value` line of `systemctl show`.
pub open spec fn apply_property(d: ServiceFailureDetailsView, l: Seq<char>) -> ServiceFailureDetailsView {
    if let Some(v) = spec_strip_prefix(l, "Result="@) {
        ServiceFailureDetailsView { result: spec_trim(v), ..d }
    } else if let Some(v) = spec_strip_prefix(l, "ExecMainStatus="@) {
        ServiceFailureDetailsView { exec_main_status: parse_i32_spec(spec_trim(v)), ..d }
    } else if let Some(v) = spec_strip_prefix(l, "ExecMainCode="@) {
        ServiceFailureDetailsView { exec_main_code: spec_trim(v), ..d }
    } else if let Some(v) = spec_strip_prefix(l, "StatusText="@) {
        ServiceFailureDetailsView { status_text: spec_trim(v), ..d }
    } else if let Some(v) = spec_strip_prefix(l, "ActiveState="@) {
        ServiceFailureDetailsView { active_state: spec_trim(v), ..d }
    } else if let Some(v) = spec_strip_prefix(l, "SubState="@) {
        ServiceFailureDetailsView { sub_state: spec_trim(v), ..d }
    } else if let Some(v) = spec_strip_prefix(l, "UnitFileState="@) {
        ServiceFailureDetailsView { unit_file_state: spec_trim(v), ..d }
    } else if let Some(v) = spec_strip_prefix(l, "MainPID="@) {
        ServiceFailureDetailsView { main_pid: positive_u32(parse_u32_spec(spec_trim(v))), ..d }
    } else if let Some(v) = spec_strip_prefix(l, "TasksCurrent="@) {
        ServiceFailureDetailsView { tasks_current: parse_u32_spec(spec_trim(v)), ..d }
    } else if let Some(v) = spec_strip_prefix(l, "MemoryCurrent="@) {
        ServiceFailureDetailsView { memory_current: positive_u64(parse_u64_spec(spec_trim(v))), ..d }
    } else if let Some(v) = spec_strip_prefix(l, "NRestarts="@) {
        ServiceFailureDetailsView { n_restarts: parse_u64_spec(spec_trim(v)), ..d }
    } else {
        d
    }
}

/// The details that the property lines give, read in order.
pub open spec fn details_from(ls: Seq<Seq<char>>) -> ServiceFailureDetailsView
    decreases ls.len(),
{
    if ls.len() == 0 {
        empty_details()
    } else {
        apply_property(details_from(ls.drop_last()), ls.last())
    }
}

fn trimmed(v: &Vec<char>) -> (s: String)
    ensures
        s@ == spec_trim(v@),
{
    let t = trim(v);
    string_of(&t)
}

/// Reads one `Key=Value` line of `systemctl show` into the details.
pub fn apply_property_line(d: &mut ServiceFailureDetails, line: &[char])
    ensures
        final(d)@ == apply_property(old(d)@, line@),
{
    if let Some(v) = strip_prefix(line, "Result=") {
        d.result = trimmed(&v);
    } else if let Some(v) = strip_prefix(line, "ExecMainStatus=") {
        let t = trim(&v);
        d.exec_main_status = parse_i32(&t);
    } else if let Some(v) = strip_prefix(line, "ExecMainCode=") {
        d.exec_main_code = trimmed(&v);
    } else if let Some(v) = strip_prefix(line, "StatusText=") {
        d.status_text = trimmed(&v);
    } else if let Some(v) = strip_prefix(line, "ActiveState=") {
        d.active_state = trimmed(&v);
    } else if let Some(v) = strip_prefix(line, "SubState=") {
        d.sub_state = trimmed(&v);
    } else if let Some(v) = strip_prefix(line, "UnitFileState=") {
        d.unit_file_state = trimmed(&v);
    } else if let Some(v) = strip_prefix(line, "MainPID=") {
        let t = trim(&v);
        d.main_pid = match parse_u32(&t) {
            Some(p) => if p > 0 {
                Some(p)
            } else {
                None
            },
            None => None,
        };
    } else if let Some(v) = strip_prefix(line, "TasksCurrent=") {
        let t = trim(&v);
        d.tasks_current = parse_u32(&t);
    } else if let Some(v) = strip_prefix(line, "MemoryCurrent=") {
        let t = trim(&v);
        d.memory_current = match parse_u64(&t) {
            Some(m) => if m > 0 {
                Some(m)
            } else {
                None
            },
            None => None,
        };
    } else if let Some(v) = strip_prefix(line, "NRestarts=") {
        let t = trim(&v);
        d.n_restarts = parse_u64(&t);
    }
}

/// The last line holding more than whitespace, trimmed; empty when there is none.
pub open spec fn last_nonempty_trimmed(ls: Seq<Seq<char>>) -> Seq<char>
    decreases ls.len(),
{
    if ls.len() == 0 {
        Seq::empty()
    } else if spec_trim(ls.last()).len() > 0 {
        spec_trim(ls.last())
    } else {
        last_nonempty_trimmed(ls.drop_last())
    }
}

/// The details that `systemctl show` output gives, with no journal error yet.
pub fn details_from_show(text: &str) -> (d: ServiceFailureDetails)
    ensures
        d@ == details_from(spec_lines(text@)),
{
    let cs = chars_of(text);
    let ls = lines(&cs);
    let ghost lv = views(ls@);
    let mut d = ServiceFailureDetails {
        result: String::new(),
        exec_main_status: None,
        exec_main_code: String::new(),
        status_text: String::new(),
        last_error: String::new(),
        active_state: String::new(),
        sub_state: String::new(),
        unit_file_state: String::new(),
        main_pid: None,
        tasks_current: None,
        memory_current: None,
        n_restarts: None,
    };
    let mut i: usize = 0;
    while i < ls.len()
        invariant
            i <= ls@.len(),
            lv == views(ls@),
            d@ == details_from(lv.take(i as int)),
        decreases ls.len() - i,
    {
        assert(lv.take(i + 1).drop_last() =~= lv.take(i as int));
        apply_property_line(&mut d, &ls[i]);
        i = i + 1;
    }
    assert(lv.take(ls@.len() as int) =~= lv);
    d
}

/// The latest line of a text that holds more than whitespace, trimmed.
pub fn last_error_line(text: &str) -> (s: String)
    ensures
        s@ == last_nonempty_trimmed(spec_lines(text@)),
{
    let cs = chars_of(text);
    let ls = lines(&cs);
    let ghost lv = views(ls@);
    let mut i = ls.len();
    assert(lv.take(i as int) =~= lv);
    while i > 0
        invariant
            i <= ls@.len(),
            lv == views(ls@),
            lv == spec_lines(text@),
            last_nonempty_trimmed(lv) == last_nonempty_trimmed(lv.take(i as int)),
        decreases i,
    {
        assert(lv.take(i as int).drop_last() =~= lv.take(i - 1));
        assert(lv.take(i as int).last() == ls@[i - 1]@);
        let t = trim(&ls[i - 1]);
        if t.len() > 0 {
            return string_of(&t);
        }
        i = i - 1;
    }
    String::new()
}

pub open spec fn show_args(service: Seq<char>) -> Seq<Seq<char>> {
    seq![
        "show"@,
        service,
        "--no-pager"@,
        "--property=Result,ExecMainStatus,ExecMainCode,StatusText,ActiveState,SubState,UnitFileState,MainPID,TasksCurrent,MemoryCurrent,NRestarts"@,
    ]
}

pub open spec fn reason_args(service: Seq<char>) -> Seq<Seq<char>> {
    seq!["-u"@, service, "-n"@, "30"@, "--no-pager"@, "--output=short"@, "--priority=0..3"@]
}

/// What the journal's answer adds to the details: the latest error line when it succeeded.
pub open spec fn details_result(d: ServiceFailureDetailsView, service: Seq<char>, a: Result<CommandOutputView, Seq<char>>) -> Result<ServiceFailureDetailsView, Seq<char>> {
    match a {
        Err(e) => Err(journal_invoke_error(service, e)),
        Ok(o) => if o.success {
            Ok(ServiceFailureDetailsView { last_error: last_nonempty_trimmed(spec_lines(o.stdout)), ..d })
        } else {
            Ok(d)
        },
    }
}

pub open spec fn details_view(r: Result<ServiceFailureDetails, String>) -> Result<ServiceFailureDetailsView, Seq<char>> {
    match r {
        Ok(d) => Ok(d@),
        Err(e) => Err(e@),
    }
}

/// Failure details of a service: its `systemctl show` properties and latest journal error.
pub fn collect_service_failure_details<P: CommandProvider>(provider: &mut P, service: &str) -> (r: Result<ServiceFailureDetails, String>)
    ensures
        same_host(*old(provider), *final(provider)),
        service_refusal(old(provider).on_linux(), old(provider).on_systemd()) matches Some(m) ==> (r matches Err(e)
            && e@ == m),
        service_refusal(old(provider).on_linux(), old(provider).on_systemd()) is None ==> exists|a| #[trigger] old(provider).answers("systemctl"@, show_args(service@), a)
            && match systemctl_result(show_args(service@), a) {
            Err(e) => r matches Err(re) && re@ == e && final(provider).ran() == old(provider).ran().push(
                command_line("systemctl"@, show_args(service@)),
            ),
            Ok(text) => final(provider).ran() == old(provider).ran().push(command_line("systemctl"@, show_args(service@))).push(
                command_line("journalctl"@, reason_args(service@)),
            ) && exists|b| #[trigger] old(provider).answers("journalctl"@, reason_args(service@), b)
                && details_view(r) == details_result(details_from(spec_lines(text)), service@, b),
        },
        service_refusal(old(provider).on_linux(), old(provider).on_systemd()) is Some ==> final(provider).ran()
            == old(provider).ran(),
{
    ensure_linux_systemd(provider.is_linux(), provider.has_systemd())?;
    let args = [
        "show",
        service,
        "--no-pager",
        "--property=Result,ExecMainStatus,ExecMainCode,StatusText,ActiveState,SubState,UnitFileState,MainPID,TasksCurrent,MemoryCurrent,NRestarts",
    ];
    assert(str_views(args@) =~= show_args(service@));
    let res = run_systemctl(provider, &args);
    assert(provider.ran() =~= old(provider).ran().push(command_line("systemctl"@, show_args(service@))));
    let output = res?;
    let mut details = details_from_show(output.as_str());
    let rargs = ["-u", service, "-n", "30", "--no-pager", "--output=short", "--priority=0..3"];
    assert(str_views(rargs@) =~= reason_args(service@));
    let reason = provider.run("journalctl", &rargs);
    match reason {
        Err(e) => Err(invoke_error(service, &e)),
        Ok(o) => {
            if o.success {
                details.last_error = last_error_line(o.stdout.as_str());
            }
            Ok(details)
        },
    }
}

} // verus!
