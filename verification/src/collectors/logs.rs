//! Recent system log lines from the journal, syslog files and the kernel ring buffer.
use crate::collectors::provider::{same_host, CommandOutput, CommandOutputView, CommandProvider, answer_view, str_views};
use crate::text::{decimal_string, line_strings, spec_decimal, spec_lines, string_views};
use vstd::prelude::*;

verus! {

/// The lines an answer holds: those of its standard output when the command ran and
/// succeeded, none otherwise.
pub open spec fn answer_lines(a: Result<CommandOutputView, Seq<char>>) -> Seq<Seq<char>> {
    match a {
        Ok(o) => if o.success {
            spec_lines(o.stdout)
        } else {
            Seq::empty()
        },
        Err(_) => Seq::empty(),
    }
}

/// The lines of a command's answer (see `answer_lines`).
pub fn output_lines(r: &Result<CommandOutput, String>) -> (v: Vec<String>)
    ensures
        string_views(v@) == answer_lines(answer_view(*r)),
{
    match r {
        Ok(o) => if o.success {
            line_strings(o.stdout.as_str())
        } else {
            let v: Vec<String> = Vec::new();
            assert(string_views(v@) =~= Seq::<Seq<char>>::empty());
            v
        },
        Err(_) => {
            let v: Vec<String> = Vec::new();
            assert(string_views(v@) =~= Seq::<Seq<char>>::empty());
            v
        },
    }
}

/// Runs a command and returns the lines of its output, none when it failed.
pub fn run_lines<P: CommandProvider>(provider: &mut P, command: &str, args: &[&str]) -> (v: Vec<String>)
    ensures
        same_host(*old(provider), *final(provider)),
        final(provider).ran() == old(provider).ran().push((command@, str_views(args@))),
        exists|a| #[trigger] old(provider).answers(command@, str_views(args@), a) && string_views(v@)
            == answer_lines(a),
{
    let r = provider.run(command, args);
    output_lines(&r)
}

pub open spec fn journal_args(limit: nat) -> Seq<Seq<char>> {
    seq!["-n"@, spec_decimal(limit), "--no-pager"@, "--output=short"@]
}

/// The latest `limit` journal lines, read through `journalctl` on Linux hosts.
pub fn collect_journal_lines<P: CommandProvider>(provider: &mut P, limit: usize) -> (v: Vec<String>)
    ensures
        same_host(*old(provider), *final(provider)),
        !old(provider).on_linux() ==> v@.len() == 0 && final(provider).ran() == old(provider).ran(),
        old(provider).on_linux() ==> final(provider).ran() == old(provider).ran().push(
            ("journalctl"@, journal_args(limit as nat)),
        ),
        old(provider).on_linux() ==> exists|a| #[trigger]
            old(provider).answers("journalctl"@, journal_args(limit as nat), a) && string_views(v@)
                == answer_lines(a),
{
    if !provider.is_linux() {
        return Vec::new();
    }
    let n = decimal_string(limit as u64);
    let args = ["-n", n.as_str(), "--no-pager", "--output=short"];
    assert(str_views(args@) =~= journal_args(limit as nat));
    run_lines(provider, "journalctl", &args)
}

pub open spec fn tail_args(limit: nat, path: Seq<char>) -> Seq<Seq<char>> {
    seq!["-n"@, spec_decimal(limit), path]
}

/// The last `limit` lines of `/var/log/syslog`, or of `/var/log/messages` when the first
/// gives none, on Linux hosts.
pub fn collect_syslog_lines<P: CommandProvider>(provider: &mut P, limit: usize) -> (v: Vec<String>)
    ensures
        same_host(*old(provider), *final(provider)),
        !old(provider).on_linux() ==> v@.len() == 0 && final(provider).ran() == old(provider).ran(),
        old(provider).on_linux() ==> exists|a| #[trigger]
            old(provider).answers("tail"@, tail_args(limit as nat, "/var/log/syslog"@), a) && if answer_lines(
                a,
            ).len() > 0 {
                string_views(v@) == answer_lines(a) && final(provider).ran() == old(provider).ran().push(
                    ("tail"@, tail_args(limit as nat, "/var/log/syslog"@)),
                )
            } else {
                final(provider).ran() == old(provider).ran().push(("tail"@, tail_args(limit as nat, "/var/log/syslog"@))).push(
                    ("tail"@, tail_args(limit as nat, "/var/log/messages"@)),
                ) && exists|b| #[trigger]
                    old(provider).answers("tail"@, tail_args(limit as nat, "/var/log/messages"@), b)
                        && string_views(v@) == answer_lines(b)
            },
{
    if !provider.is_linux() {
        return Vec::new();
    }
    let n = decimal_string(limit as u64);
    let args = ["-n", n.as_str(), "/var/log/syslog"];
    assert(str_views(args@) =~= tail_args(limit as nat, "/var/log/syslog"@));
    let lines = run_lines(provider, "tail", &args);
    if lines.len() > 0 {
        return lines;
    }
    let args2 = ["-n", n.as_str(), "/var/log/messages"];
    assert(str_views(args2@) =~= tail_args(limit as nat, "/var/log/messages"@));
    run_lines(provider, "tail", &args2)
}

pub open spec fn dmesg_args() -> Seq<Seq<char>> {
    seq!["--ctime"@, "--nopager"@, "--level=err,warn,info"@]
}

/// The last `n` items of a sequence, all of them when it has fewer.
pub open spec fn last_n<T>(s: Seq<T>, n: nat) -> Seq<T> {
    if s.len() <= n {
        s
    } else {
        s.skip(s.len() - n)
    }
}

/// The latest `limit` kernel messages of levels err, warn and info, oldest first.
pub fn collect_dmesg_lines<P: CommandProvider>(provider: &mut P, limit: usize) -> (v: Vec<String>)
    ensures
        same_host(*old(provider), *final(provider)),
        final(provider).ran() == old(provider).ran().push(("dmesg"@, dmesg_args())),
        exists|a| #[trigger] old(provider).answers("dmesg"@, dmesg_args(), a) && string_views(v@)
            == last_n(answer_lines(a), limit as nat),
{
    let args = ["--ctime", "--nopager", "--level=err,warn,info"];
    assert(str_views(args@) =~= dmesg_args());
    let all = run_lines(provider, "dmesg", &args);
    let start = if all.len() <= limit {
        0
    } else {
        all.len() - limit
    };
    let mut v: Vec<String> = Vec::new();
    let mut i = start;
    while i < all.len()
        invariant
            start <= i <= all@.len(),
            start == if all@.len() <= limit { 0 } else { all@.len() - limit },
            string_views(v@) == string_views(all@).subrange(start as int, i as int),
        decreases all.len() - i,
    {
        let ghost before = v@;
        let c = all[i].clone();
        v.push(c);
        assert(string_views(v@) =~= string_views(before).push(c@));
        assert(string_views(v@) =~= string_views(all@).subrange(start as int, i + 1));
        i = i + 1;
    }
    assert(string_views(v@) =~= last_n(string_views(all@), limit as nat));
    v
}

} // verus!
