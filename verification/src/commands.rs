//! Text of the one-shot commands that the library can compute: the services listing and
//! the answer to a service action.
use crate::cli::{ServiceAction, ServiceState, action_name, action_word};
use crate::collectors::provider::{same_host, command_line, CommandProvider, str_views};
use crate::collectors::systemd::{
    ServiceRow, ServiceRowView, collect_services, ensure_linux_systemd, service_refusal,
    list_all_args, row_views, run_systemctl, service_rows, systemctl_result, text_result,
};
use crate::text::{chars_of, push_chars, push_str, spec_lines, string_of, string_views};
use vstd::prelude::*;

verus! {

/// A text left-aligned in a field of `w` characters (longer texts are kept whole), as
/// `{:<w}` writes it.
pub open spec fn pad_right(s: Seq<char>, w: nat) -> Seq<char> {
    if s.len() >= w {
        s
    } else {
        s + Seq::new((w - s.len()) as nat, |i: int| ' ')
    }
}

/// A text right-aligned in a field of `w` characters, as `{:>w}` writes it.
pub open spec fn pad_left(s: Seq<char>, w: nat) -> Seq<char> {
    if s.len() >= w {
        s
    } else {
        Seq::new((w - s.len()) as nat, |i: int| ' ') + s
    }
}

fn push_padded_right(out: &mut Vec<char>, s: &str, w: usize)
    ensures
        final(out)@ == old(out)@ + pad_right(s@, w as nat),
{
    let cs = chars_of(s);
    push_chars(out, &cs);
    let mut k = cs.len();
    while k < w
        invariant
            cs@ == s@,
            cs@.len() <= k <= if cs@.len() >= w { cs@.len() } else { w as nat },
            out@ == old(out)@ + s@ + Seq::new((k - cs@.len()) as nat, |i: int| ' '),
        decreases w - k,
    {
        out.push(' ');
        assert(out@ =~= old(out)@ + s@ + Seq::new((k + 1 - cs@.len()) as nat, |i: int| ' '));
        k = k + 1;
    }
    assert(old(out)@ + pad_right(s@, w as nat) =~= old(out)@ + s@ + Seq::new((k - cs@.len()) as nat, |i: int| ' '));
}

/// Left-aligns a text in a field of `w` characters.
pub fn padded_right(s: &str, w: usize) -> (r: String)
    ensures
        r@ == pad_right(s@, w as nat),
{
    let mut out: Vec<char> = Vec::new();
    push_padded_right(&mut out, s, w);
    assert(out@ =~= pad_right(s@, w as nat));
    string_of(&out)
}

/// Right-aligns a text in a field of `w` characters.
pub fn padded_left(s: &str, w: usize) -> (r: String)
    ensures
        r@ == pad_left(s@, w as nat),
{
    let cs = chars_of(s);
    let mut out: Vec<char> = Vec::new();
    let mut k = cs.len();
    while k < w
        invariant
            cs@ == s@,
            cs@.len() <= k <= if cs@.len() >= w { cs@.len() } else { w as nat },
            out@ == Seq::new((k - cs@.len()) as nat, |i: int| ' '),
        decreases w - k,
    {
        out.push(' ');
        assert(out@ =~= Seq::new((k + 1 - cs@.len()) as nat, |i: int| ' '));
        k = k + 1;
    }
    push_chars(&mut out, &cs);
    assert(out@ =~= pad_left(s@, w as nat));
    string_of(&out)
}

/// A services table line: name, active and sub state in fields of 40, 12 and 12.
pub open spec fn service_line(name: Seq<char>, active: Seq<char>, sub: Seq<char>) -> Seq<char> {
    pad_right(name, 40) + " "@ + pad_right(active, 12) + " "@ + pad_right(sub, 12)
}

fn service_line_of(name: &str, active: &str, sub: &str) -> (r: String)
    ensures
        r@ == service_line(name@, active@, sub@),
{
    let mut out: Vec<char> = Vec::new();
    push_padded_right(&mut out, name, 40);
    push_str(&mut out, " ");
    push_padded_right(&mut out, active, 12);
    push_str(&mut out, " ");
    push_padded_right(&mut out, sub, 12);
    string_of(&out)
}

/// The services table: a title, its underline, the header and one line per service.
pub open spec fn services_table(rows: Seq<ServiceRowView>) -> Seq<Seq<char>> {
    seq!["Services"@, "========"@, service_line("Name"@, "Active"@, "Sub"@)] + rows.map_values(
        |r: ServiceRowView| service_line(r.name, r.active, r.sub),
    )
}

/// The lines of the services table (see `services_table`).
pub fn services_table_lines(rows: &Vec<ServiceRow>) -> (v: Vec<String>)
    ensures
        string_views(v@) == services_table(row_views(rows@)),
{
    let mut v: Vec<String> = Vec::new();
    v.push(string_of(&chars_of("Services")));
    v.push(string_of(&chars_of("========")));
    v.push(service_line_of("Name", "Active", "Sub"));
    let ghost head = string_views(v@);
    let mut i: usize = 0;
    while i < rows.len()
        invariant
            i <= rows@.len(),
            head.len() == 3,
            head == seq!["Services"@, "========"@, service_line("Name"@, "Active"@, "Sub"@)],
            string_views(v@) == head + row_views(rows@).take(i as int).map_values(
                |r: ServiceRowView| service_line(r.name, r.active, r.sub),
            ),
        decreases rows.len() - i,
    {
        let ghost before = string_views(v@);
        let l = service_line_of(rows[i].name.as_str(), rows[i].active.as_str(), rows[i].sub.as_str());
        v.push(l);
        assert(string_views(v@) =~= before.push(l@));
        assert(row_views(rows@).take(i + 1) =~= row_views(rows@).take(i as int).push(row_views(rows@)[i as int]));
        assert(row_views(rows@).take(i + 1).map_values(|r: ServiceRowView| service_line(r.name, r.active, r.sub))
            =~= row_views(rows@).take(i as int).map_values(
            |r: ServiceRowView| service_line(r.name, r.active, r.sub),
        ).push(service_line(rows@[i as int].name@, rows@[i as int].active@, rows@[i as int].sub@)));
        i = i + 1;
    }
    assert(row_views(rows@).take(rows@.len() as int) =~= row_views(rows@));
    v
}

/// The `services` command: the table of the services that pass the state filter, at most
/// `limit` of them (see `collect_services`), or why they could not be listed.
pub fn print_services<P: CommandProvider>(provider: &mut P, state: ServiceState, limit: usize) -> (r: Result<Vec<String>, String>)
    ensures
        same_host(*old(provider), *final(provider)),
        service_refusal(old(provider).on_linux(), old(provider).on_systemd()) matches Some(m) ==> (r matches Err(e)
            && e@ == m),
        service_refusal(old(provider).on_linux(), old(provider).on_systemd()) is Some ==> final(provider).ran()
            == old(provider).ran(),
        service_refusal(old(provider).on_linux(), old(provider).on_systemd()) is None ==> final(provider).ran()
            == old(provider).ran().push(command_line("systemctl"@, list_all_args())),
        service_refusal(old(provider).on_linux(), old(provider).on_systemd()) is None ==> exists|a| #[trigger]
            old(provider).answers("systemctl"@, list_all_args(), a) && match systemctl_result(list_all_args(), a) {
                Err(e) => r matches Err(re) && re@ == e,
                Ok(text) => r matches Ok(v) && string_views(v@) == services_table(
                    service_rows(spec_lines(text), state).take(
                        vstd::math::min(limit as int, service_rows(spec_lines(text), state).len() as int),
                    ),
                ),
            },
{
    let rows = match collect_services(provider, state, limit) {
        Ok(rows) => rows,
        Err(e) => {
            return Err(e);
        },
    };
    let lines = services_table_lines(&rows);
    Ok(lines)
}

pub open spec fn service_cmd_args(name: Seq<char>, action: ServiceAction) -> Seq<Seq<char>> {
    seq![action_word(action), name]
}

/// The `service` command: runs the action's `systemctl` verb on the service and returns
/// its trimmed output (Linux hosts only).
pub fn handle_service_action<P: CommandProvider>(provider: &mut P, name: &str, action: ServiceAction) -> (r: Result<String, String>)
    ensures
        same_host(*old(provider), *final(provider)),
        service_refusal(old(provider).on_linux(), old(provider).on_systemd()) matches Some(m) ==> (r matches Err(e)
            && e@ == m),
        service_refusal(old(provider).on_linux(), old(provider).on_systemd()) is Some ==> final(provider).ran()
            == old(provider).ran(),
        service_refusal(old(provider).on_linux(), old(provider).on_systemd()) is None ==> final(provider).ran()
            == old(provider).ran().push(command_line("systemctl"@, service_cmd_args(name@, action))),
        service_refusal(old(provider).on_linux(), old(provider).on_systemd()) is None ==> exists|a| #[trigger]
            old(provider).answers("systemctl"@, service_cmd_args(name@, action), a) && text_result(r)
                == systemctl_result(service_cmd_args(name@, action), a),
{
    ensure_linux_systemd(provider.is_linux(), provider.has_systemd())?;
    let args = [action_name(action), name];
    assert(str_views(args@) =~= service_cmd_args(name@, action));
    let r = run_systemctl(provider, &args);
    assert(provider.ran() =~= old(provider).ran().push(command_line("systemctl"@, service_cmd_args(name@, action))));
    r
}

} // verus!
