//! Text of the dashboard's detail panels: labelled values with their placeholders.
use crate::actions::signed_decimal_string;
use crate::collectors::systemd::{ServiceFailureDetails, ServiceFailureDetailsView};
use crate::collectors::{format_bytes, spec_format_bytes, spec_truncate, truncate};
use crate::text::{chars_of, decimal_string, push_str, spec_decimal, spec_signed_decimal, string_of};
use vstd::prelude::*;

verus! {

/// A text, or `placeholder` when it is empty.
pub open spec fn or_placeholder(s: Seq<char>, placeholder: Seq<char>) -> Seq<char> {
    if s.len() == 0 {
        placeholder
    } else {
        s
    }
}

/// A count in decimal, or "-" when unknown.
pub open spec fn count_text(o: Option<u64>) -> Seq<char> {
    match o {
        Some(n) => spec_decimal(n as nat),
        None => "-"@,
    }
}

/// The lines of the failure panel of a service, each a label and a value (an empty label
/// marks a line shown as it is): the error when the details could not be read; otherwise
/// result, exit code and status, state, unit file state, main PID, tasks, memory and
/// restarts, with "-" (or "unknown" for the result) where a value is missing, then the
/// status text cut to 40 characters and the last error cut to 68, when there are any.
pub open spec fn failure_panel(error: Option<Seq<char>>, details: Option<ServiceFailureDetailsView>) -> Seq<
    (Seq<char>, Seq<char>),
> {
    match error {
        Some(e) => seq![(Seq::empty(), spec_truncate(e, 68))],
        None => match details {
            None => seq![(Seq::empty(), "No failure details available"@)],
            Some(d) => {
                let exit_status = match d.exec_main_status {
                    Some(s) => spec_signed_decimal(s as int),
                    None => "-"@,
                };
                let base = seq![
                    ("Result"@, or_placeholder(d.result, "unknown"@)),
                    ("Exit"@, or_placeholder(d.exec_main_code, "-"@) + " "@ + exit_status),
                    ("State"@, or_placeholder(d.active_state, "-"@) + " / "@ + or_placeholder(d.sub_state, "-"@)),
                    ("UnitFile"@, or_placeholder(d.unit_file_state, "-"@)),
                    ("MainPID"@, count_text(
                        match d.main_pid {
                            Some(p) => Some(p as u64),
                            None => None,
                        },
                    )),
                    ("Tasks"@, count_text(
                        match d.tasks_current {
                            Some(t) => Some(t as u64),
                            None => None,
                        },
                    )),
                    ("Memory"@, match d.memory_current {
                        Some(m) => spec_format_bytes(m as nat),
                        None => "-"@,
                    }),
                    ("Restarts"@, count_text(d.n_restarts)),
                ];
                let with_status = if d.status_text.len() > 0 {
                    base.push(("Status"@, spec_truncate(d.status_text, 40)))
                } else {
                    base
                };
                if d.last_error.len() > 0 {
                    with_status.push((Seq::empty(), spec_truncate(d.last_error, 68)))
                } else {
                    with_status
                }
            },
        },
    }
}

pub open spec fn pair_views(v: Seq<(String, String)>) -> Seq<(Seq<char>, Seq<char>)> {
    v.map_values(|p: (String, String)| (p.0@, p.1@))
}

fn text_or(s: &str, placeholder: &str) -> (r: String)
    ensures
        r@ == or_placeholder(s@, placeholder@),
{
    if chars_of(s).len() == 0 {
        string_of(&chars_of(placeholder))
    } else {
        string_of(&chars_of(s))
    }
}

fn count_or_dash(o: Option<u64>) -> (r: String)
    ensures
        r@ == count_text(o),
{
    match o {
        Some(n) => decimal_string(n),
        None => string_of(&chars_of("-")),
    }
}

fn pair(label: &str, value: String) -> (p: (String, String))
    ensures
        p.0@ == label@,
        p.1@ == value@,
{
    (string_of(&chars_of(label)), value)
}

fn joined(a: String, sep: &str, b: String) -> (r: String)
    ensures
        r@ == a@ + sep@ + b@,
{
    let mut out = chars_of(a.as_str());
    push_str(&mut out, sep);
    push_str(&mut out, b.as_str());
    string_of(&out)
}

/// The lines of a service's failure panel (see `failure_panel`).
pub fn failure_panel_lines(error: Option<&str>, details: Option<&ServiceFailureDetails>) -> (r: Vec<(String, String)>)
    ensures
        pair_views(r@) == failure_panel(
            match error {
                Some(e) => Some(e@),
                None => None,
            },
            match details {
                Some(d) => Some(d@),
                None => None,
            },
        ),
{
    let mut r: Vec<(String, String)> = Vec::new();
    if let Some(e) = error {
        r.push(pair("", truncate(e, 68)));
        proof {
            reveal_strlit("");
            assert(""@ =~= Seq::<char>::empty());
            assert(pair_views(r@) =~= seq![(Seq::<char>::empty(), spec_truncate(e@, 68))]);
        }
        return r;
    }
    match details {
        None => {
            r.push(pair("", string_of(&chars_of("No failure details available"))));
            proof {
                reveal_strlit("");
                assert(""@ =~= Seq::<char>::empty());
            }
            assert(pair_views(r@) =~= seq![(Seq::<char>::empty(), "No failure details available"@)]);
            r
        },
        Some(d) => {
            r.push(pair("Result", text_or(d.result.as_str(), "unknown")));
            let status = match d.exec_main_status {
                Some(s) => signed_decimal_string(s),
                None => string_of(&chars_of("-")),
            };
            r.push(pair("Exit", joined(text_or(d.exec_main_code.as_str(), "-"), " ", status)));
            r.push(
                pair(
                    "State",
                    joined(text_or(d.active_state.as_str(), "-"), " / ", text_or(d.sub_state.as_str(), "-")),
                ),
            );
            r.push(pair("UnitFile", text_or(d.unit_file_state.as_str(), "-")));
            let pid = match d.main_pid {
                Some(p) => Some(p as u64),
                None => None,
            };
            r.push(pair("MainPID", count_or_dash(pid)));
            let tasks = match d.tasks_current {
                Some(t) => Some(t as u64),
                None => None,
            };
            r.push(pair("Tasks", count_or_dash(tasks)));
            let memory = match d.memory_current {
                Some(m) => format_bytes(m),
                None => string_of(&chars_of("-")),
            };
            r.push(pair("Memory", memory));
            r.push(pair("Restarts", count_or_dash(d.n_restarts)));
            if chars_of(d.status_text.as_str()).len() > 0 {
                r.push(pair("Status", truncate(d.status_text.as_str(), 40)));
            }
            if chars_of(d.last_error.as_str()).len() > 0 {
                r.push(pair("", truncate(d.last_error.as_str(), 68)));
            }
            proof {
                reveal_strlit("");
                assert(""@ =~= Seq::<char>::empty());
            }
            assert(pair_views(r@) =~= failure_panel(None, Some(d@)));
            r
        },
    }
}

/// A line of plain text in a panel.
pub open spec fn plain(t: Seq<char>) -> (Seq<char>, Seq<char>) {
    (Seq::empty(), t)
}

/// Items as bullet lines, each cut to `width` characters.
pub open spec fn bullets(v: Seq<Seq<char>>, width: nat) -> Seq<(Seq<char>, Seq<char>)> {
    v.map_values(|t: Seq<char>| plain("• "@ + spec_truncate(t, width)))
}

/// A section: a blank line, its title, then its bullets or the note for an empty one.
pub open spec fn section(title: Seq<char>, items: Seq<Seq<char>>, width: nat, empty_note: Seq<char>) -> Seq<
    (Seq<char>, Seq<char>),
> {
    seq![plain(Seq::empty()), plain(title)] + if items.len() == 0 {
        seq![plain(empty_note)]
    } else {
        bullets(items, width)
    }
}

/// The first two items (all of them when there are fewer).
pub open spec fn first_two(v: Seq<Seq<char>>) -> Seq<Seq<char>> {
    if v.len() <= 2 {
        v
    } else {
        v.take(2)
    }
}

/// The lines of the details panel of the selected process: its PID ("none" without one),
/// its command line cut to 46 characters, then its open files (or why they could not be
/// read), its open ports, the first two environment variables and the first two memory
/// maps, as bullets cut to 40, 46, 50 and 50 characters.
pub open spec fn process_panel(
    pid: Option<Seq<char>>,
    cmdline: Option<Seq<char>>,
    files_error: Option<Seq<char>>,
    files: Seq<Seq<char>>,
    ports: Seq<Seq<char>>,
    environ: Seq<Seq<char>>,
    maps: Seq<Seq<char>>,
) -> Seq<(Seq<char>, Seq<char>)> {
    let head = seq![
        ("PID"@, match pid {
            Some(p) => p,
            None => "none"@,
        }),
    ] + match cmdline {
        Some(c) => seq![("Cmdline"@, spec_truncate(c, 46))],
        None => Seq::empty(),
    };
    let files_part = match files_error {
        Some(e) => seq![plain(Seq::empty()), plain("Open files"@), plain(e)],
        None => section("Open files"@, files, 40, "No open file entries"@),
    };
    head + files_part + section("Open ports"@, ports, 46, "No open ports for PID"@) + section(
        "Environment"@,
        first_two(environ),
        50,
        "No environment variables"@,
    ) + section("Maps"@, first_two(maps), 50, "No memory mappings"@)
}

fn push_plain(r: &mut Vec<(String, String)>, t: &str)
    ensures
        pair_views(final(r)@) == pair_views(old(r)@).push(plain(t@)),
{
    let ghost before = pair_views(r@);
    let p = pair("", string_of(&chars_of(t)));
    proof {
        reveal_strlit("");
        assert(""@ =~= Seq::<char>::empty());
    }
    r.push(p);
    assert(pair_views(r@) =~= before.push(plain(t@)));
}

fn push_section(r: &mut Vec<(String, String)>, title: &str, items: &Vec<String>, limit: usize, width: usize, empty_note: &str)
    ensures
        pair_views(final(r)@) == pair_views(old(r)@) + section(
            title@,
            if items@.len() <= limit {
                crate::text::string_views(items@)
            } else {
                crate::text::string_views(items@).take(limit as int)
            },
            width as nat,
            empty_note@,
        ),
{
    let ghost before = pair_views(r@);
    let ghost shown = if items@.len() <= limit {
        crate::text::string_views(items@)
    } else {
        crate::text::string_views(items@).take(limit as int)
    };
    push_plain(r, "");
    push_plain(r, title);
    proof {
        reveal_strlit("");
        assert(""@ =~= Seq::<char>::empty());
    }
    let ghost mid = pair_views(r@);
    assert(mid =~= before + seq![plain(Seq::empty()), plain(title@)]);
    if items.len() == 0 || limit == 0 {
        push_plain(r, empty_note);
        assert(shown.len() == 0);
        assert(pair_views(r@) =~= before + section(title@, shown, width as nat, empty_note@));
    } else {
        let n = if items.len() <= limit { items.len() } else { limit };
        assert(shown.len() == n);
        let mut k: usize = 0;
        while k < n
            invariant
                k <= n,
                n == shown.len(),
                n <= items@.len(),
                shown == if items@.len() <= limit {
                    crate::text::string_views(items@)
                } else {
                    crate::text::string_views(items@).take(limit as int)
                },
                pair_views(r@) == mid + bullets(shown.take(k as int), width as nat),
            decreases n - k,
        {
            let mut line: Vec<char> = Vec::new();
            push_str(&mut line, "• ");
            let cut = truncate(items[k].as_str(), width);
            push_str(&mut line, cut.as_str());
            let ghost prev = pair_views(r@);
            let p = pair("", string_of(&line));
            proof {
                reveal_strlit("");
                assert(""@ =~= Seq::<char>::empty());
            }
            r.push(p);
            assert(shown[k as int] == items@[k as int]@);
            assert(shown.take(k + 1) =~= shown.take(k as int).push(shown[k as int]));
            assert(bullets(shown.take(k + 1), width as nat) =~= bullets(shown.take(k as int), width as nat).push(
                plain("• "@ + spec_truncate(shown[k as int], width as nat)),
            ));
            assert(pair_views(r@) =~= prev.push(plain("• "@ + spec_truncate(shown[k as int], width as nat))));
            k = k + 1;
        }
        assert(shown.take(n as int) =~= shown);
        assert(pair_views(r@) =~= before + section(title@, shown, width as nat, empty_note@));
    }
}

/// The lines of the selected process's details panel (see `process_panel`).
pub fn process_panel_lines(
    pid: Option<&str>,
    cmdline: Option<&str>,
    files_error: Option<&str>,
    files: &Vec<String>,
    ports: &Vec<String>,
    environ: &Vec<String>,
    maps: &Vec<String>,
) -> (r: Vec<(String, String)>)
    ensures
        pair_views(r@) == process_panel(
            match pid {
                Some(p) => Some(p@),
                None => None,
            },
            match cmdline {
                Some(c) => Some(c@),
                None => None,
            },
            match files_error {
                Some(e) => Some(e@),
                None => None,
            },
            crate::text::string_views(files@),
            crate::text::string_views(ports@),
            crate::text::string_views(environ@),
            crate::text::string_views(maps@),
        ),
{
    let mut r: Vec<(String, String)> = Vec::new();
    let shown_pid = match pid {
        Some(p) => string_of(&chars_of(p)),
        None => string_of(&chars_of("none")),
    };
    r.push(pair("PID", shown_pid));
    if let Some(c) = cmdline {
        r.push(pair("Cmdline", truncate(c, 46)));
    }
    let ghost head = pair_views(r@);
    match files_error {
        Some(e) => {
            push_plain(&mut r, "");
            push_plain(&mut r, "Open files");
            push_plain(&mut r, e);
            proof {
                reveal_strlit("");
                assert(""@ =~= Seq::<char>::empty());
            }
        },
        None => {
            push_section(&mut r, "Open files", files, files.len(), 40, "No open file entries");
        },
    }
    push_section(&mut r, "Open ports", ports, ports.len(), 46, "No open ports for PID");
    push_section(&mut r, "Environment", environ, 2, 50, "No environment variables");
    push_section(&mut r, "Maps", maps, 2, 50, "No memory mappings");
    assert(pair_views(r@) =~= process_panel(
        match pid {
            Some(p) => Some(p@),
            None => None,
        },
        match cmdline {
            Some(c) => Some(c@),
            None => None,
        },
        match files_error {
            Some(e) => Some(e@),
            None => None,
        },
        crate::text::string_views(files@),
        crate::text::string_views(ports@),
        crate::text::string_views(environ@),
        crate::text::string_views(maps@),
    ));
    r
}

/// A directory's path as the explorer shows it: relative to the scanned mount when it lies
/// under it, cut to 22 characters.
pub open spec fn explorer_name(path: Seq<char>, mount: Seq<char>) -> Seq<char> {
    spec_truncate(
        match crate::text::spec_strip_prefix(path, mount) {
            Some(rest) => rest,
            None => path,
        },
        22,
    )
}

/// A directory line of the explorer: its name and size.
pub open spec fn explorer_row(row: (Seq<char>, u64), mount: Seq<char>) -> Seq<char> {
    "• "@ + explorer_name(row.0, mount) + " "@ + spec_format_bytes(row.1 as nat)
}

/// The lines of the directory explorer panel: while a scan runs, its progress ("working"
/// when none was reported) and seconds; after a scan, the mount and depth with the six
/// largest directories and their sizes; before any scan, how to start one.
pub open spec fn explorer_panel(
    in_progress: bool,
    progress: Option<Seq<char>>,
    elapsed_secs: u64,
    target: Option<Seq<char>>,
    depth: usize,
    rows: Seq<(Seq<char>, u64)>,
) -> Seq<Seq<char>> {
    let head = seq!["Directory Explorer"@, Seq::empty()];
    if in_progress {
        head + seq![
            "Scan running: "@ + match progress {
                Some(p) => p,
                None => "working"@,
            } + " ("@ + spec_decimal(elapsed_secs as nat) + "s)"@,
            "Please wait for async worker"@,
        ]
    } else {
        match target {
            Some(t) => {
                let shown = if rows.len() <= 6 {
                    rows
                } else {
                    rows.take(6)
                };
                head + seq!["Mount: "@ + t + " (depth "@ + spec_decimal(depth as nat) + ")"@] + shown.map_values(
                    |r: (Seq<char>, u64)| explorer_row(r, t),
                ) + if rows.len() == 0 {
                    seq!["No directory data"@]
                } else {
                    Seq::empty()
                }
            },
            None => head + seq![
                "Press `f` to scan selected mount"@,
                "Press `m` to cycle explorer depth"@,
                "Depth cycles: 1 → 2 → 3"@,
            ],
        }
    }
}

/// The lines of the directory explorer panel (see `explorer_panel`).
pub fn explorer_panel_lines(
    in_progress: bool,
    progress: Option<&str>,
    elapsed_secs: u64,
    target: Option<&str>,
    depth: usize,
    rows: &Vec<(String, u64)>,
) -> (r: Vec<String>)
    ensures
        crate::text::string_views(r@) == explorer_panel(
            in_progress,
            match progress {
                Some(p) => Some(p@),
                None => None,
            },
            elapsed_secs,
            match target {
                Some(t) => Some(t@),
                None => None,
            },
            depth,
            crate::app::pair_views(rows@),
        ),
{
    let mut r: Vec<String> = Vec::new();
    r.push(string_of(&chars_of("Directory Explorer")));
    r.push(string_of(&Vec::new()));
    let ghost head = crate::text::string_views(r@);
    proof {
        assert(head =~= seq!["Directory Explorer"@, Seq::empty()]);
    }
    if in_progress {
        let mut line: Vec<char> = Vec::new();
        push_str(&mut line, "Scan running: ");
        match progress {
            Some(p) => push_str(&mut line, p),
            None => push_str(&mut line, "working"),
        }
        push_str(&mut line, " (");
        crate::text::push_decimal(&mut line, elapsed_secs);
        push_str(&mut line, "s)");
        r.push(string_of(&line));
        r.push(string_of(&chars_of("Please wait for async worker")));
        assert(crate::text::string_views(r@) =~= explorer_panel(
            in_progress,
            match progress {
                Some(p) => Some(p@),
                None => None,
            },
            elapsed_secs,
            match target {
                Some(t) => Some(t@),
                None => None,
            },
            depth,
            crate::app::pair_views(rows@),
        ));
        return r;
    }
    match target {
        None => {
            r.push(string_of(&chars_of("Press `f` to scan selected mount")));
            r.push(string_of(&chars_of("Press `m` to cycle explorer depth")));
            r.push(string_of(&chars_of("Depth cycles: 1 → 2 → 3")));
            assert(crate::text::string_views(r@) =~= head + seq![
                "Press `f` to scan selected mount"@,
                "Press `m` to cycle explorer depth"@,
                "Depth cycles: 1 → 2 → 3"@,
            ]);
            r
        },
        Some(t) => {
            let mut line: Vec<char> = Vec::new();
            push_str(&mut line, "Mount: ");
            push_str(&mut line, t);
            push_str(&mut line, " (depth ");
            crate::text::push_decimal(&mut line, depth as u64);
            push_str(&mut line, ")");
            r.push(string_of(&line));
            let ghost rv = crate::app::pair_views(rows@);
            let ghost shown = if rv.len() <= 6 {
                rv
            } else {
                rv.take(6)
            };
            let ghost mid = crate::text::string_views(r@);
            assert(mid =~= head + seq!["Mount: "@ + t@ + " (depth "@ + spec_decimal(depth as nat) + ")"@]);
            let n = if rows.len() <= 6 { rows.len() } else { 6 };
            let tc = chars_of(t);
            let mut k: usize = 0;
            while k < n
                invariant
                    k <= n,
                    n <= rows@.len(),
                    n == shown.len(),
                    rv == crate::app::pair_views(rows@),
                    shown == (if rv.len() <= 6 { rv } else { rv.take(6) }),
                    tc@ == t@,
                    crate::text::string_views(r@) == mid + shown.take(k as int).map_values(
                        |row: (Seq<char>, u64)| explorer_row(row, t@),
                    ),
                decreases n - k,
            {
                let pc = chars_of(rows[k].0.as_str());
                let name = match crate::text::strip_prefix(&pc, t) {
                    Some(rest) => rest,
                    None => pc,
                };
                let cut = truncate(string_of(&name).as_str(), 22);
                let mut line: Vec<char> = Vec::new();
                push_str(&mut line, "• ");
                push_str(&mut line, cut.as_str());
                push_str(&mut line, " ");
                let size = format_bytes(rows[k].1);
                push_str(&mut line, size.as_str());
                assert(name@ == match crate::text::spec_strip_prefix(rows@[k as int].0@, t@) {
                    Some(rest) => rest,
                    None => rows@[k as int].0@,
                });
                assert(line@ =~= "• "@ + explorer_name(rows@[k as int].0@, t@) + " "@ + spec_format_bytes(rows@[k as int].1 as nat));
                let ghost prev = crate::text::string_views(r@);
                r.push(string_of(&line));
                proof {
                    assert(shown[k as int] == (rows@[k as int].0@, rows@[k as int].1));
                    assert(shown.take(k + 1) =~= shown.take(k as int).push(shown[k as int]));
                    assert(crate::text::string_views(r@) =~= prev.push(line@));
                    assert(explorer_row(shown[k as int], t@) == line@);
                    assert(shown.take(k + 1).map_values(|row: (Seq<char>, u64)| explorer_row(row, t@)) =~= shown.take(
                        k as int,
                    ).map_values(|row: (Seq<char>, u64)| explorer_row(row, t@)).push(explorer_row(shown[k as int], t@)));
                }
                assert(crate::text::string_views(r@) =~= mid + shown.take(k + 1).map_values(
                    |row: (Seq<char>, u64)| explorer_row(row, t@),
                ));
                k = k + 1;
            }
            assert(shown.take(n as int) =~= shown);
            if rows.len() == 0 {
                r.push(string_of(&chars_of("No directory data")));
            }
            assert(crate::text::string_views(r@) =~= explorer_panel(
                in_progress,
                match progress {
                    Some(p) => Some(p@),
                    None => None,
                },
                elapsed_secs,
                Some(t@),
                depth,
                rv,
            ));
            r
        },
    }
}

/// The lines of the journal panel of the selected service: its name ("none" without one), a
/// blank line, then why its journal could not be read, "No journal lines", or its lines cut
/// to 70 characters.
pub open spec fn service_log_panel(service: Option<Seq<char>>, error: Option<Seq<char>>, logs: Seq<Seq<char>>) -> Seq<
    (Seq<char>, Seq<char>),
> {
    seq![
        ("Service"@, match service {
            Some(s) => s,
            None => "none"@,
        }),
        plain(Seq::empty()),
    ] + match error {
        Some(e) => seq![plain(e)],
        None => if logs.len() == 0 {
            seq![plain("No journal lines"@)]
        } else {
            logs.map_values(|l: Seq<char>| plain(spec_truncate(l, 70)))
        },
    }
}

/// The lines of a service's journal panel (see `service_log_panel`).
pub fn service_log_lines(service: Option<&str>, error: Option<&str>, logs: &Vec<String>) -> (r: Vec<(String, String)>)
    ensures
        pair_views(r@) == service_log_panel(
            match service {
                Some(s) => Some(s@),
                None => None,
            },
            match error {
                Some(e) => Some(e@),
                None => None,
            },
            crate::text::string_views(logs@),
        ),
{
    let mut r: Vec<(String, String)> = Vec::new();
    let shown = match service {
        Some(s) => string_of(&chars_of(s)),
        None => string_of(&chars_of("none")),
    };
    r.push(pair("Service", shown));
    push_plain(&mut r, "");
    proof {
        reveal_strlit("");
        assert(""@ =~= Seq::<char>::empty());
    }
    let ghost head = pair_views(r@);
    match error {
        Some(e) => {
            push_plain(&mut r, e);
        },
        None => {
            if logs.len() == 0 {
                push_plain(&mut r, "No journal lines");
            } else {
                let ghost lv = crate::text::string_views(logs@);
                let mut k: usize = 0;
                while k < logs.len()
                    invariant
                        k <= logs@.len(),
                        lv == crate::text::string_views(logs@),
                        pair_views(r@) == head + lv.take(k as int).map_values(|l: Seq<char>| plain(spec_truncate(l, 70))),
                    decreases logs.len() - k,
                {
                    let ghost prev = pair_views(r@);
                    let p = pair("", truncate(logs[k].as_str(), 70));
                    proof {
                        reveal_strlit("");
                        assert(""@ =~= Seq::<char>::empty());
                    }
                    r.push(p);
                    assert(pair_views(r@) =~= prev.push(plain(spec_truncate(lv[k as int], 70))));
                    assert(lv.take(k + 1) =~= lv.take(k as int).push(lv[k as int]));
                    assert(lv.take(k + 1).map_values(|l: Seq<char>| plain(spec_truncate(l, 70))) =~= lv.take(
                        k as int,
                    ).map_values(|l: Seq<char>| plain(spec_truncate(l, 70))).push(plain(spec_truncate(lv[k as int], 70))));
                    k = k + 1;
                }
                assert(lv.take(logs@.len() as int) =~= lv);
            }
        },
    }
    r
}

} // verus!
