//! Containers of Docker or Podman: resource usage rows, lifecycle actions and logs.
use crate::collectors::provider::{command_line, lemma_same_host_trans, ran_lines, same_host, CommandOutput, CommandOutputView, CommandProvider, answer_view, str_views};
use crate::collectors::systemd::{lines_result, text_result};
use crate::text::{
    chars_eq, chars_of, decimal_string, lines, line_strings, parse_u32, parse_u32_spec, push_chars,
    push_str, spec_decimal, spec_lines, spec_split, spec_trim, split_char, string_of, string_views,
    trim, views,
};
use vstd::prelude::*;

verus! {

/// One container's identity and resource usage as the engine reports them.
pub struct ContainerRow {
    pub id: String,
    pub name: String,
    pub image: String,
    pub status: String,
    pub cpu: String,
    pub memory: String,
    pub net_io: String,
    pub block_io: String,
    pub pids: u32,
}

pub struct ContainerRowView {
    pub id: Seq<char>,
    pub name: Seq<char>,
    pub image: Seq<char>,
    pub status: Seq<char>,
    pub cpu: Seq<char>,
    pub memory: Seq<char>,
    pub net_io: Seq<char>,
    pub block_io: Seq<char>,
    pub pids: u32,
}

impl View for ContainerRow {
    type V = ContainerRowView;

    open spec fn view(&self) -> ContainerRowView {
        ContainerRowView {
            id: self.id@,
            name: self.name@,
            image: self.image@,
            status: self.status@,
            cpu: self.cpu@,
            memory: self.memory@,
            net_io: self.net_io@,
            block_io: self.block_io@,
            pids: self.pids,
        }
    }
}

pub open spec fn container_views(v: Seq<ContainerRow>) -> Seq<ContainerRowView> {
    v.map_values(|r: ContainerRow| r@)
}

/// Image and status that `ps` lines give for a container id: the latest line naming it.
pub open spec fn ps_lookup(ls: Seq<Seq<char>>, id: Seq<char>) -> Option<(Seq<char>, Seq<char>)>
    decreases ls.len(),
{
    if ls.len() == 0 {
        None
    } else {
        let c = spec_split(ls.last(), '|');
        if c.len() >= 3 && c[0] == id {
            Some((c[1], c[2]))
        } else {
            ps_lookup(ls.drop_last(), id)
        }
    }
}

/// A `stats` line as a row, when it has at least seven `|`-separated columns.
pub open spec fn stats_row(l: Seq<char>, ps: Seq<Seq<char>>) -> Option<ContainerRowView> {
    let c = spec_split(l, '|');
    if c.len() >= 7 {
        let info = ps_lookup(ps, c[0]);
        let (image, status) = match info {
            Some(p) => p,
            None => ("-"@, "-"@),
        };
        Some(
            ContainerRowView {
                id: c[0],
                name: c[1],
                image,
                status,
                cpu: c[2],
                memory: c[3],
                net_io: c[4],
                block_io: c[5],
                pids: match parse_u32_spec(c[6]) {
                    Some(n) => n,
                    None => 0,
                },
            },
        )
    } else {
        None
    }
}

/// Rows of all `stats` lines that have enough columns, in order.
pub open spec fn stats_rows(ls: Seq<Seq<char>>, ps: Seq<Seq<char>>) -> Seq<ContainerRowView>
    decreases ls.len(),
{
    if ls.len() == 0 {
        Seq::empty()
    } else {
        let prev = stats_rows(ls.drop_last(), ps);
        match stats_row(ls.last(), ps) {
            Some(r) => prev.push(r),
            None => prev,
        }
    }
}

fn lookup_ps(ps: &Vec<Vec<char>>, id: &Vec<char>) -> (r: Option<(Vec<char>, Vec<char>)>)
    ensures
        match r {
            Some(p) => ps_lookup(views(ps@), id@) == Some((p.0@, p.1@)),
            None => ps_lookup(views(ps@), id@) is None,
        },
{
    let ghost pv = views(ps@);
    let mut i = ps.len();
    assert(pv.take(i as int) =~= pv);
    while i > 0
        invariant
            i <= ps@.len(),
            pv == views(ps@),
            ps_lookup(pv, id@) == ps_lookup(pv.take(i as int), id@),
        decreases i,
    {
        assert(pv.take(i as int).drop_last() =~= pv.take(i - 1));
        assert(pv.take(i as int).last() == ps@[i - 1]@);
        let c = split_char(&ps[i - 1], '|');
        if c.len() >= 3 && chars_eq(&c[0], id) {
            assert(views(c@)[0] == c@[0]@);
            return Some((c[1].clone(), c[2].clone()));
        }
        i = i - 1;
    }
    None
}

fn dash() -> (s: String)
    ensures
        s@ == "-"@,
{
    string_of(&chars_of("-"))
}

/// Rows from the engine's `stats` and `ps` outputs.
pub fn container_rows(stats: &str, ps: &str) -> (v: Vec<ContainerRow>)
    ensures
        container_views(v@) == stats_rows(spec_lines(stats@), spec_lines(ps@)),
{
    let sc = chars_of(stats);
    let sl = lines(&sc);
    let pc = chars_of(ps);
    let pl = lines(&pc);
    let ghost lv = views(sl@);
    let ghost pv = views(pl@);
    let mut v: Vec<ContainerRow> = Vec::new();
    let mut i: usize = 0;
    while i < sl.len()
        invariant
            i <= sl@.len(),
            lv == views(sl@),
            pv == views(pl@),
            pv == spec_lines(ps@),
            container_views(v@) == stats_rows(lv.take(i as int), pv),
        decreases sl.len() - i,
    {
        assert(lv.take(i + 1).drop_last() =~= lv.take(i as int));
        assert(lv.take(i + 1).last() == sl@[i as int]@);
        let c = split_char(&sl[i], '|');
        if c.len() >= 7 {
            let ghost cv = views(c@);
            let (image, status) = match lookup_ps(&pl, &c[0]) {
                Some(p) => (string_of(&p.0), string_of(&p.1)),
                None => (dash(), dash()),
            };
            let pids = match parse_u32(&c[6]) {
                Some(n) => n,
                None => 0,
            };
            let row = ContainerRow {
                id: string_of(&c[0]),
                name: string_of(&c[1]),
                image,
                status,
                cpu: string_of(&c[2]),
                memory: string_of(&c[3]),
                net_io: string_of(&c[4]),
                block_io: string_of(&c[5]),
                pids,
            };
            let ghost before = v@;
            let ghost rv = row@;
            v.push(row);
            assert(container_views(v@) =~= container_views(before).push(rv));
        }
        i = i + 1;
    }
    assert(lv.take(sl@.len() as int) =~= lv);
    v
}

pub open spec fn stats_args() -> Seq<Seq<char>> {
    seq![
        "stats"@,
        "--no-stream"@,
        "--format"@,
        "{{.ID}}|{{.Name}}|{{.CPUPerc}}|{{.MemUsage}}|{{.NetIO}}|{{.BlockIO}}|{{.PIDs}}"@,
    ]
}

pub open spec fn ps_args() -> Seq<Seq<char>> {
    seq!["ps"@, "--format"@, "{{.ID}}|{{.Image}}|{{.Status}}"@]
}

pub open spec fn rows_result(r: Result<Vec<ContainerRow>, String>) -> Result<Seq<ContainerRowView>, Seq<char>> {
    match r {
        Ok(v) => Ok(container_views(v@)),
        Err(e) => Err(e@),
    }
}

/// What listing an engine's containers gives for the `stats` and `ps` answers; `label`
/// names the engine in errors.
pub open spec fn engine_result(
    label: Seq<char>,
    stats: Result<CommandOutputView, Seq<char>>,
    ps: Result<CommandOutputView, Seq<char>>,
) -> Result<Seq<ContainerRowView>, Seq<char>> {
    match stats {
        Err(e) => Err(label + " stats command failed: "@ + e),
        Ok(o) => if !o.success {
            Err(label + " stats failed: "@ + o.stderr)
        } else {
            match ps {
                Err(e) => Err(label + " ps command failed: "@ + e),
                Ok(p) => Ok(stats_rows(spec_lines(o.stdout), spec_lines(p.stdout))),
            }
        },
    }
}

/// Whether listing an engine's containers may give `r`: its `stats` answer, and its `ps`
/// answer when `stats` succeeded, make `r` what `engine_result` says.
pub open spec fn engine_outcome<P: CommandProvider>(
    provider: P,
    tool: Seq<char>,
    label: Seq<char>,
    r: Result<Seq<ContainerRowView>, Seq<char>>,
    lines: Seq<(Seq<char>, Seq<Seq<char>>)>,
) -> bool {
    exists|a| #[trigger] provider.answers(tool, stats_args(), a) && lines == engine_lines(tool, succeeded(a)) && match a {
        Ok(o) => if o.success {
            exists|b| #[trigger] provider.answers(tool, ps_args(), b) && r == engine_result(label, a, b)
        } else {
            r == engine_result(label, a, Err(Seq::empty()))
        },
        Err(_) => r == engine_result(label, a, Err(Seq::empty())),
    }
}

/// The command lines an engine listing runs: `stats`, then `ps` when `stats` succeeded.
pub open spec fn engine_lines(tool: Seq<char>, stats_ok: bool) -> Seq<(Seq<char>, Seq<Seq<char>>)> {
    if stats_ok {
        seq![command_line(tool, stats_args()), command_line(tool, ps_args())]
    } else {
        seq![command_line(tool, stats_args())]
    }
}

/// What an engine listing on one provider may give it may give on another that answers alike.
proof fn lemma_engine_outcome_host<P: CommandProvider>(
    a: P,
    b: P,
    tool: Seq<char>,
    label: Seq<char>,
    r: Result<Seq<ContainerRowView>, Seq<char>>,
    lines: Seq<(Seq<char>, Seq<Seq<char>>)>,
)
    requires
        same_host(a, b),
        engine_outcome(b, tool, label, r, lines),
    ensures
        engine_outcome(a, tool, label, r, lines),
{
    let x = choose|x| #[trigger] b.answers(tool, stats_args(), x) && lines == engine_lines(tool, succeeded(x)) && match x {
        Ok(o) => if o.success {
            exists|y| #[trigger] b.answers(tool, ps_args(), y) && r == engine_result(label, x, y)
        } else {
            r == engine_result(label, x, Err(Seq::empty()))
        },
        Err(_) => r == engine_result(label, x, Err(Seq::empty())),
    };
    assert(a.answers(tool, stats_args(), x));
    if x matches Ok(o) && o.success {
        let y = choose|y| #[trigger] b.answers(tool, ps_args(), y) && r == engine_result(label, x, y);
        assert(a.answers(tool, ps_args(), y));
    }
}

fn collect_engine<P: CommandProvider>(provider: &mut P, tool: &str, label: &str) -> (r: Result<Vec<ContainerRow>, String>)
    ensures
        same_host(*old(provider), *final(provider)),
        exists|lines| #[trigger] engine_outcome(*old(provider), tool@, label@, rows_result(r), lines) && final(provider).ran()
            == old(provider).ran() + lines,
{
    let args = [
        "stats",
        "--no-stream",
        "--format",
        "{{.ID}}|{{.Name}}|{{.CPUPerc}}|{{.MemUsage}}|{{.NetIO}}|{{.BlockIO}}|{{.PIDs}}",
    ];
    assert(str_views(args@) =~= stats_args());
    let stats = provider.run(tool, &args);
    assert(provider.ran() =~= old(provider).ran() + engine_lines(tool@, false));
    let output = match stats {
        Err(e) => {
            let mut m: Vec<char> = Vec::new();
            push_str(&mut m, label);
            push_str(&mut m, " stats command failed: ");
            push_str(&mut m, e.as_str());
            let r = Err(string_of(&m));
            assert(engine_outcome(*old(provider), tool@, label@, rows_result(r), engine_lines(tool@, false)));
            return r;
        },
        Ok(o) => o,
    };
    if !output.success {
        let mut m: Vec<char> = Vec::new();
        push_str(&mut m, label);
        push_str(&mut m, " stats failed: ");
        push_str(&mut m, output.stderr.as_str());
        let r = Err(string_of(&m));
        assert(engine_outcome(*old(provider), tool@, label@, rows_result(r), engine_lines(tool@, false)));
        return r;
    }
    let pargs = ["ps", "--format", "{{.ID}}|{{.Image}}|{{.Status}}"];
    assert(str_views(pargs@) =~= ps_args());
    let ps = provider.run(tool, &pargs);
    assert(provider.ran() =~= old(provider).ran() + engine_lines(tool@, true));
    let ghost b = answer_view(ps);
    let r = match ps {
        Err(e) => {
            let mut m: Vec<char> = Vec::new();
            push_str(&mut m, label);
            push_str(&mut m, " ps command failed: ");
            push_str(&mut m, e.as_str());
            Err(string_of(&m))
        },
        Ok(p) => Ok(container_rows(output.stdout.as_str(), p.stdout.as_str())),
    };
    assert(old(provider).answers(tool@, ps_args(), b));
    assert(engine_outcome(*old(provider), tool@, label@, rows_result(r), engine_lines(tool@, true)));
    r
}

/// Docker containers with their resource usage.
pub fn collect_docker<P: CommandProvider>(provider: &mut P) -> (r: Result<Vec<ContainerRow>, String>)
    ensures
        same_host(*old(provider), *final(provider)),
        exists|lines| #[trigger] engine_outcome(*old(provider), "docker"@, "Docker"@, rows_result(r), lines) && final(provider).ran()
            == old(provider).ran() + lines,
{
    collect_engine(provider, "docker", "Docker")
}

/// Podman containers with their resource usage.
pub fn collect_podman<P: CommandProvider>(provider: &mut P) -> (r: Result<Vec<ContainerRow>, String>)
    ensures
        same_host(*old(provider), *final(provider)),
        exists|lines| #[trigger] engine_outcome(*old(provider), "podman"@, "Podman"@, rows_result(r), lines) && final(provider).ran()
            == old(provider).ran() + lines,
{
    collect_engine(provider, "podman", "Podman")
}

/// Containers from Docker, or from Podman when Docker's listing fails; empty when both fail.
/// Podman is asked only when Docker's listing fails.
pub fn collect_containers<P: CommandProvider>(provider: &mut P) -> (v: Vec<ContainerRow>)
    ensures
        same_host(*old(provider), *final(provider)),
        exists|r1, l1| #[trigger] engine_outcome(*old(provider), "docker"@, "Docker"@, r1, l1) && match r1 {
            Ok(d) => container_views(v@) == d && final(provider).ran() == old(provider).ran() + l1,
            Err(_) => exists|r2, l2| #[trigger] engine_outcome(*old(provider), "podman"@, "Podman"@, r2, l2) && match r2 {
                Ok(p) => container_views(v@) == p,
                Err(_) => v@.len() == 0,
            } && final(provider).ran() == old(provider).ran() + l1 + l2,
        },
{
    let d = collect_docker(provider);
    let ghost p1 = *provider;
    match d {
        Ok(rows) => rows,
        Err(_) => {
            let p = collect_podman(provider);
            proof {
                let l2 = choose|l2| #[trigger] engine_outcome(p1, "podman"@, "Podman"@, rows_result(p), l2) && provider.ran()
                    == p1.ran() + l2;
                lemma_engine_outcome_host(*old(provider), p1, "podman"@, "Podman"@, rows_result(p), l2);
                lemma_same_host_trans(*old(provider), p1, *provider);
                let l1 = choose|l1| #[trigger] engine_outcome(*old(provider), "docker"@, "Docker"@, rows_result(d), l1) && p1.ran()
                    == old(provider).ran() + l1;
                assert(provider.ran() =~= old(provider).ran() + l1 + l2);
            }
            match p {
                Ok(rows) => rows,
                Err(_) => Vec::new(),
            }
        },
    }
}

pub open spec fn unit_result(r: Result<(), String>) -> Result<(), Seq<char>> {
    match r {
        Ok(()) => Ok(()),
        Err(e) => Err(e@),
    }
}

pub open spec fn succeeded(a: Result<CommandOutputView, Seq<char>>) -> bool {
    a matches Ok(o) && o.success
}

/// What the Podman answer gives when the Docker attempt did not succeed.
pub open spec fn podman_action_result(action: Seq<char>, id: Seq<char>, a: Result<CommandOutputView, Seq<char>>) -> Result<(), Seq<char>> {
    match a {
        Err(e) => Err("Podman command failed: "@ + e),
        Ok(o) => if o.success {
            Ok(())
        } else {
            Err("Failed to "@ + action + " container "@ + id + ": "@ + spec_trim(o.stderr))
        },
    }
}

pub open spec fn action_args(action: Seq<char>, id: Seq<char>) -> Seq<Seq<char>> {
    seq![action, id]
}

/// Runs a lifecycle action (start, stop, restart, ...) on a container through Docker,
/// then through Podman when Docker does not succeed.
pub fn act_on_container<P: CommandProvider>(provider: &mut P, id: &str, action: &str) -> (r: Result<(), String>)
    ensures
        same_host(*old(provider), *final(provider)),
        exists|a| #[trigger] old(provider).answers("docker"@, action_args(action@, id@), a) && if succeeded(a) {
            r is Ok && final(provider).ran() == old(provider).ran().push(command_line("docker"@, action_args(action@, id@)))
        } else {
            final(provider).ran() == old(provider).ran().push(command_line("docker"@, action_args(action@, id@))).push(
                command_line("podman"@, action_args(action@, id@)),
            ) && exists|b| #[trigger] old(provider).answers("podman"@, action_args(action@, id@), b) && unit_result(r)
                == podman_action_result(action@, id@, b)
        },
{
    let args = [action, id];
    assert(str_views(args@) =~= action_args(action@, id@));
    let d = provider.run("docker", &args);
    if let Ok(o) = &d {
        if o.success {
            return Ok(());
        }
    }
    let p = provider.run("podman", &args);
    match p {
        Err(e) => {
            let mut m: Vec<char> = Vec::new();
            push_str(&mut m, "Podman command failed: ");
            push_str(&mut m, e.as_str());
            Err(string_of(&m))
        },
        Ok(o) => if o.success {
            Ok(())
        } else {
            let sc = chars_of(o.stderr.as_str());
            let t = trim(&sc);
            let mut m: Vec<char> = Vec::new();
            push_str(&mut m, "Failed to ");
            push_str(&mut m, action);
            push_str(&mut m, " container ");
            push_str(&mut m, id);
            push_str(&mut m, ": ");
            push_chars(&mut m, &t);
            Err(string_of(&m))
        },
    }
}

pub open spec fn container_log_args(id: Seq<char>, limit: nat) -> Seq<Seq<char>> {
    seq!["logs"@, "--tail"@, spec_decimal(limit), id]
}

/// What the Podman answer gives for logs when the Docker attempt did not succeed.
pub open spec fn podman_logs_result(id: Seq<char>, a: Result<CommandOutputView, Seq<char>>) -> Result<Seq<Seq<char>>, Seq<char>> {
    match a {
        Err(e) => Err("Podman command failed: "@ + e),
        Ok(o) => if o.success {
            Ok(spec_lines(o.stdout))
        } else {
            Err("Failed to get logs for container "@ + id + ": "@ + spec_trim(o.stderr))
        },
    }
}

/// The latest `limit` log lines of a container, from Docker or else from Podman.
pub fn get_container_logs<P: CommandProvider>(provider: &mut P, id: &str, limit: usize) -> (r: Result<Vec<String>, String>)
    ensures
        same_host(*old(provider), *final(provider)),
        exists|a| #[trigger] old(provider).answers("docker"@, container_log_args(id@, limit as nat), a)
            && if succeeded(a) {
            lines_result(r) == Ok::<Seq<Seq<char>>, Seq<char>>(spec_lines(a->Ok_0.stdout)) && final(provider).ran()
                == old(provider).ran().push(command_line("docker"@, container_log_args(id@, limit as nat)))
        } else {
            final(provider).ran() == old(provider).ran().push(command_line("docker"@, container_log_args(id@, limit as nat))).push(
                command_line("podman"@, container_log_args(id@, limit as nat)),
            ) && exists|b| #[trigger] old(provider).answers("podman"@, container_log_args(id@, limit as nat), b)
                && lines_result(r) == podman_logs_result(id@, b)
        },
{
    let n = decimal_string(limit as u64);
    let args = ["logs", "--tail", n.as_str(), id];
    assert(str_views(args@) =~= container_log_args(id@, limit as nat));
    let d = provider.run("docker", &args);
    if let Ok(o) = &d {
        if o.success {
            return Ok(line_strings(o.stdout.as_str()));
        }
    }
    let p = provider.run("podman", &args);
    match p {
        Err(e) => {
            let mut m: Vec<char> = Vec::new();
            push_str(&mut m, "Podman command failed: ");
            push_str(&mut m, e.as_str());
            Err(string_of(&m))
        },
        Ok(o) => if o.success {
            Ok(line_strings(o.stdout.as_str()))
        } else {
            let sc = chars_of(o.stderr.as_str());
            let t = trim(&sc);
            let mut m: Vec<char> = Vec::new();
            push_str(&mut m, "Failed to get logs for container ");
            push_str(&mut m, id);
            push_str(&mut m, ": ");
            push_chars(&mut m, &t);
            Err(string_of(&m))
        },
    }
}

} // verus!
