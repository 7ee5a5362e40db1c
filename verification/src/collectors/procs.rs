//! Processes: systemd unit and container of a process from its cgroups, its command line,
//! environment and memory maps, and its open ports.
use crate::collectors::netstat::{first_n, succeeded};
use crate::collectors::provider::{same_host, CommandOutputView, CommandProvider, answer_view, str_views};
use crate::text::{
    chars_eq, chars_of, contains, copy_range, less_than, decimal_string, ends_with_str, find_char_from, lines,
    next_index_of, push_chars, push_str, spec_contains, spec_decimal, spec_ends_with, spec_lines,
    spec_split, spec_starts_with, spec_words, split_char, starts_with_str, string_of, string_views,
    views, words,
};
use vstd::prelude::*;

verus! {

/// Command line, environment and memory maps of a process.
pub struct ProcessDetails {
    pub cmdline: String,
    pub environ: Vec<String>,
    pub maps: Vec<String>,
}

pub open spec fn is_hex(c: char) -> bool {
    ('0' <= c && c <= '9') || ('a' <= c && c <= 'f') || ('A' <= c && c <= 'F')
}

/// Whether a cgroup path component looks like a container id: at least twelve hex digits.
pub open spec fn probable_container_id(t: Seq<char>) -> bool {
    t.len() >= 12 && forall|i: int| 0 <= i < t.len() ==> is_hex(#[trigger] t[i])
}

/// Whether a cgroup path component looks like a container id (see `probable_container_id`).
pub fn is_probable_container_id(token: &[char]) -> (b: bool)
    ensures
        b == probable_container_id(token@),
{
    if token.len() < 12 {
        return false;
    }
    let mut i: usize = 0;
    while i < token.len()
        invariant
            i <= token@.len(),
            forall|j: int| 0 <= j < i ==> is_hex(#[trigger] token@[j]),
        decreases token.len() - i,
    {
        let c = token[i];
        if !(('0' <= c && c <= '9') || ('a' <= c && c <= 'f') || ('A' <= c && c <= 'F')) {
            return false;
        }
        i = i + 1;
    }
    true
}

/// The first twelve characters of an id (all of it when shorter).
pub open spec fn short_id(v: Seq<char>) -> Seq<char> {
    first_n(v, 12)
}

/// The first twelve characters of an id.
pub fn short_container_id(value: &[char]) -> (r: String)
    ensures
        r@ == short_id(value@),
{
    let end = if value.len() < 12 {
        value.len()
    } else {
        12
    };
    let r = copy_range(value, 0, end);
    assert(r@ =~= short_id(value@));
    string_of(&r)
}

/// `str::trim_start_matches` with a text pattern: all leading copies of `p` removed.
pub open spec fn strip_prefixes(s: Seq<char>, p: Seq<char>) -> Seq<char>
    decreases s.len(),
{
    if p.len() > 0 && spec_starts_with(s, p) {
        strip_prefixes(s.skip(p.len() as int), p)
    } else {
        s
    }
}

/// `str::trim_end_matches` with a text pattern: all trailing copies of `p` removed.
pub open spec fn strip_suffixes(s: Seq<char>, p: Seq<char>) -> Seq<char>
    decreases s.len(),
{
    if p.len() > 0 && spec_ends_with(s, p) {
        strip_suffixes(s.take(s.len() - p.len()), p)
    } else {
        s
    }
}

pub fn strip_prefixes_of(s: &[char], p: &str) -> (r: Vec<char>)
    requires
        p@.len() > 0,
    ensures
        r@ == strip_prefixes(s@, p@),
{
    let pc = chars_of(p);
    let mut start: usize = 0;
    assert(s@.skip(0) =~= s@);
    while pc.len() <= s.len() - start && crate::text::match_at(s, start, &pc)
        invariant
            start <= s@.len(),
            pc@ == p@,
            p@.len() > 0,
            strip_prefixes(s@, p@) == strip_prefixes(s@.skip(start as int), p@),
        decreases s.len() - start,
    {
        assert(s@.skip(start as int).skip(pc@.len() as int) =~= s@.skip(start + pc@.len()));
        assert(s@.skip(start as int).subrange(0, p@.len() as int) =~= s@.subrange(start as int, start + p@.len()));
        start = start + pc.len();
    }
    proof {
        if pc.len() <= s.len() - start {
            assert(s@.skip(start as int).subrange(0, p@.len() as int) =~= s@.subrange(start as int, start + p@.len()));
        }
    }
    copy_range_to_end(s, start)
}

fn copy_range_to_end(s: &[char], start: usize) -> (r: Vec<char>)
    requires
        start <= s@.len(),
    ensures
        r@ == s@.skip(start as int),
{
    let r = copy_range(s, start, s.len());
    assert(r@ =~= s@.skip(start as int));
    r
}

pub fn strip_suffixes_of(s: &[char], p: &str) -> (r: Vec<char>)
    requires
        p@.len() > 0,
    ensures
        r@ == strip_suffixes(s@, p@),
{
    let pc = chars_of(p);
    let mut end: usize = s.len();
    assert(s@.take(end as int) =~= s@);
    while end >= pc.len() && crate::text::match_at(s, end - pc.len(), &pc)
        invariant
            end <= s@.len(),
            pc@ == p@,
            p@.len() > 0,
            strip_suffixes(s@, p@) == strip_suffixes(s@.take(end as int), p@),
        decreases end,
    {
        assert(s@.take(end as int).take(end - pc@.len()) =~= s@.take(end - pc@.len()));
        assert(s@.take(end as int).subrange(end - pc@.len(), end as int) =~= s@.subrange(
            end - pc@.len(),
            end as int,
        ));
        end = end - pc.len();
    }
    proof {
        if end >= pc.len() {
            assert(s@.take(end as int).subrange(end - pc@.len(), end as int) =~= s@.subrange(
                end - pc@.len(),
                end as int,
            ));
        }
    }
    let r = copy_range(s, 0, end);
    assert(r@ =~= s@.take(end as int));
    r
}

/// The container a cgroup path component names: a `docker-<id>.scope` or `crio-<id>.scope`
/// scope, or a bare id; shortened to twelve characters.
pub open spec fn container_of_token(t: Seq<char>) -> Option<Seq<char>> {
    if spec_starts_with(t, "docker-"@) && spec_ends_with(t, ".scope"@) && t.len() > 13 {
        Some(short_id(strip_suffixes(strip_prefixes(t, "docker-"@), ".scope"@)))
    } else if spec_starts_with(t, "crio-"@) && spec_ends_with(t, ".scope"@) && t.len() > 11 {
        Some(short_id(strip_suffixes(strip_prefixes(t, "crio-"@), ".scope"@)))
    } else if probable_container_id(t) {
        Some(short_id(t))
    } else {
        None
    }
}

fn container_token(t: &[char]) -> (r: Option<String>)
    ensures
        match r {
            Some(c) => container_of_token(t@) == Some(c@),
            None => container_of_token(t@) is None,
        },
{
    proof {
        reveal_strlit("docker-");
        reveal_strlit("crio-");
        reveal_strlit(".scope");
    }
    if starts_with_str(t, "docker-") && ends_with_str(t, ".scope") && t.len() > 13 {
        let inner = strip_suffixes_of(&strip_prefixes_of(t, "docker-"), ".scope");
        Some(short_container_id(&inner))
    } else if starts_with_str(t, "crio-") && ends_with_str(t, ".scope") && t.len() > 11 {
        let inner = strip_suffixes_of(&strip_prefixes_of(t, "crio-"), ".scope");
        Some(short_container_id(&inner))
    } else if is_probable_container_id(t) {
        Some(short_container_id(t))
    } else {
        None
    }
}

/// The cgroup path of a `/proc/<pid>/cgroup` line: what follows its second `:`.
pub open spec fn cgroup_path(l: Seq<char>) -> Option<Seq<char>> {
    let a = next_index_of(l, 0, ':');
    if a >= l.len() {
        None
    } else {
        let b = next_index_of(l, a + 1, ':');
        if b >= l.len() {
            None
        } else {
            Some(l.subrange(b + 1, l.len() as int))
        }
    }
}

pub open spec fn nonempty() -> spec_fn(Seq<char>) -> bool {
    |t: Seq<char>| t.len() > 0
}

/// The non-empty components of a cgroup line's path.
pub open spec fn line_tokens(l: Seq<char>) -> Seq<Seq<char>> {
    match cgroup_path(l) {
        Some(p) => spec_split(p, '/').filter(nonempty()),
        None => Seq::empty(),
    }
}

/// The unit and container found so far, after more path components: the first component
/// ending in `.service`, and the first that names a container.
pub open spec fn groups_over(g: (Option<Seq<char>>, Option<Seq<char>>), ts: Seq<Seq<char>>) -> (Option<Seq<char>>, Option<Seq<char>>)
    decreases ts.len(),
{
    if ts.len() == 0 {
        g
    } else {
        let h = groups_over(g, ts.drop_last());
        let t = ts.last();
        (
            if h.0 is None && spec_ends_with(t, ".service"@) {
                Some(t)
            } else {
                h.0
            },
            if h.1 is None {
                container_of_token(t)
            } else {
                h.1
            },
        )
    }
}

pub open spec fn groups_over_lines(g: (Option<Seq<char>>, Option<Seq<char>>), ls: Seq<Seq<char>>) -> (Option<Seq<char>>, Option<Seq<char>>)
    decreases ls.len(),
{
    if ls.len() == 0 {
        g
    } else {
        groups_over(groups_over_lines(g, ls.drop_last()), line_tokens(ls.last()))
    }
}

pub open spec fn or_dash(o: Option<Seq<char>>) -> Seq<char> {
    match o {
        Some(s) => s,
        None => "-"@,
    }
}

/// The systemd unit and the container of a process, from the text of its cgroup file; "-"
/// for what it does not show.
pub open spec fn process_groups(content: Seq<char>) -> (Seq<char>, Seq<char>) {
    let g = groups_over_lines((None, None), spec_lines(content));
    (or_dash(g.0), or_dash(g.1))
}

fn path_tokens(l: &[char]) -> (r: Vec<Vec<char>>)
    ensures
        views(r@) == line_tokens(l@),
{
    let a = find_char_from(l, 0, ':');
    if a >= l.len() {
        let r: Vec<Vec<char>> = Vec::new();
        assert(views(r@) =~= line_tokens(l@));
        return r;
    }
    let b = find_char_from(l, a + 1, ':');
    if b >= l.len() {
        let r: Vec<Vec<char>> = Vec::new();
        assert(views(r@) =~= line_tokens(l@));
        return r;
    }
    let path = copy_range(l, b + 1, l.len());
    let parts = split_char(&path, '/');
    let mut r: Vec<Vec<char>> = Vec::new();
    let mut i: usize = 0;
    while i < parts.len()
        invariant
            i <= parts@.len(),
            views(r@) == views(parts@).take(i as int).filter(nonempty()),
        decreases parts.len() - i,
    {
        proof {
            reveal(Seq::filter);
            assert(views(parts@).take(i + 1).drop_last() =~= views(parts@).take(i as int));
            assert(views(parts@).take(i + 1).last() == parts@[i as int]@);
        }
        let ghost before = views(r@);
        if parts[i].len() > 0 {
            let p = copy_range(&parts[i], 0, parts[i].len());
            assert(p@ =~= parts@[i as int]@);
            r.push(p);
            assert(views(r@) =~= before.push(parts@[i as int]@));
        }
        i = i + 1;
    }
    assert(views(parts@).take(parts@.len() as int) =~= views(parts@));
    r
}

/// The systemd unit and the container of a process (see `process_groups`).
pub fn process_groups_from(content: &str) -> (r: (String, String))
    ensures
        (r.0@, r.1@) == process_groups(content@),
{
    let ls = lines(&chars_of(content));
    let mut service: Option<String> = None;
    let mut container: Option<String> = None;
    let mut i: usize = 0;
    while i < ls.len()
        invariant
            i <= ls@.len(),
            views(ls@) == spec_lines(content@),
            (crate::app::opt_view(service), crate::app::opt_view(container)) == groups_over_lines(
                (None, None),
                views(ls@).take(i as int),
            ),
        decreases ls.len() - i,
    {
        assert(views(ls@).take(i + 1).drop_last() =~= views(ls@).take(i as int));
        assert(views(ls@).take(i + 1).last() == ls@[i as int]@);
        let ts = path_tokens(&ls[i]);
        let ghost g0 = (crate::app::opt_view(service), crate::app::opt_view(container));
        let mut k: usize = 0;
        while k < ts.len()
            invariant
                k <= ts@.len(),
                (crate::app::opt_view(service), crate::app::opt_view(container)) == groups_over(
                    g0,
                    views(ts@).take(k as int),
                ),
            decreases ts.len() - k,
        {
            assert(views(ts@).take(k + 1).drop_last() =~= views(ts@).take(k as int));
            assert(views(ts@).take(k + 1).last() == ts@[k as int]@);
            if service.is_none() && ends_with_str(&ts[k], ".service") {
                service = Some(string_of(&ts[k]));
            }
            if container.is_none() {
                container = container_token(&ts[k]);
            }
            k = k + 1;
        }
        assert(views(ts@).take(ts@.len() as int) =~= views(ts@));
        i = i + 1;
    }
    assert(views(ls@).take(ls@.len() as int) =~= views(ls@));
    let s = match service {
        Some(s) => s,
        None => string_of(&chars_of("-")),
    };
    let c = match container {
        Some(c) => c,
        None => string_of(&chars_of("-")),
    };
    (s, c)
}

/// The non-empty pieces of a NUL-separated text.
pub open spec fn nul_fields(content: Seq<char>) -> Seq<Seq<char>> {
    spec_split(content, '\0').filter(nonempty())
}

fn nul_fields_of(content: &str) -> (r: Vec<Vec<char>>)
    ensures
        views(r@) == nul_fields(content@),
{
    let parts = split_char(&chars_of(content), '\0');
    let mut r: Vec<Vec<char>> = Vec::new();
    let mut i: usize = 0;
    while i < parts.len()
        invariant
            i <= parts@.len(),
            views(r@) == views(parts@).take(i as int).filter(nonempty()),
        decreases parts.len() - i,
    {
        proof {
            reveal(Seq::filter);
            assert(views(parts@).take(i + 1).drop_last() =~= views(parts@).take(i as int));
            assert(views(parts@).take(i + 1).last() == parts@[i as int]@);
        }
        let ghost before = views(r@);
        if parts[i].len() > 0 {
            let p = copy_range(&parts[i], 0, parts[i].len());
            assert(p@ =~= parts@[i as int]@);
            r.push(p);
            assert(views(r@) =~= before.push(parts@[i as int]@));
        }
        i = i + 1;
    }
    assert(views(parts@).take(parts@.len() as int) =~= views(parts@));
    r
}

/// Pieces joined with single spaces.
pub open spec fn joined(ps: Seq<Seq<char>>) -> Seq<char>
    decreases ps.len(),
{
    if ps.len() == 0 {
        Seq::empty()
    } else if ps.len() == 1 {
        ps[0]
    } else {
        joined(ps.drop_last()) + " "@ + ps.last()
    }
}

/// The command line of a process from the text of its cmdline file: its arguments joined
/// with spaces.
pub fn cmdline_from(content: &str) -> (r: String)
    ensures
        r@ == joined(nul_fields(content@)),
{
    let fs = nul_fields_of(content);
    let mut out: Vec<char> = Vec::new();
    let mut i: usize = 0;
    while i < fs.len()
        invariant
            i <= fs@.len(),
            out@ == joined(views(fs@).take(i as int)),
        decreases fs.len() - i,
    {
        assert(views(fs@).take(i + 1).drop_last() =~= views(fs@).take(i as int));
        assert(views(fs@).take(i + 1).last() == fs@[i as int]@);
        if i > 0 {
            push_str(&mut out, " ");
        }
        push_chars(&mut out, &fs[i]);
        proof {
            if i == 0 {
                assert(out@ =~= views(fs@).take(1)[0]);
            }
        }
        i = i + 1;
    }
    assert(views(fs@).take(fs@.len() as int) =~= views(fs@));
    string_of(&out)
}

/// The first `limit` variables of a process from the text of its environ file.
pub fn environ_from(content: &str, limit: usize) -> (r: Vec<String>)
    ensures
        string_views(r@) == first_n(nul_fields(content@), limit as nat),
{
    let fs = nul_fields_of(content);
    let mut r: Vec<String> = Vec::new();
    let mut i: usize = 0;
    while i < fs.len() && i < limit
        invariant
            i <= fs@.len(),
            i <= limit,
            string_views(r@) == views(fs@).take(i as int),
        decreases fs.len() - i,
    {
        let ghost before = string_views(r@);
        let s = string_of(&fs[i]);
        r.push(s);
        assert(string_views(r@) =~= before.push(fs@[i as int]@));
        assert(views(fs@).take(i + 1) =~= views(fs@).take(i as int).push(fs@[i as int]@));
        i = i + 1;
    }
    assert(string_views(r@) =~= first_n(views(fs@), limit as nat));
    r
}

/// The region a maps line shows: its address range and path (lines with fewer than six
/// columns show none).
pub open spec fn map_region(l: Seq<char>) -> Option<Seq<char>> {
    let ws = spec_words(l);
    if ws.len() >= 6 {
        Some(ws[0] + " "@ + ws[5])
    } else {
        None
    }
}

pub open spec fn map_regions(ls: Seq<Seq<char>>) -> Seq<Seq<char>>
    decreases ls.len(),
{
    if ls.len() == 0 {
        Seq::empty()
    } else {
        let p = map_regions(ls.drop_last());
        match map_region(ls.last()) {
            Some(r) => p.push(r),
            None => p,
        }
    }
}

/// The regions of the first `limit` lines of a process's maps file.
pub fn maps_from(content: &str, limit: usize) -> (r: Vec<String>)
    ensures
        string_views(r@) == map_regions(first_n(spec_lines(content@), limit as nat)),
{
    let ls = lines(&chars_of(content));
    let ghost first = first_n(spec_lines(content@), limit as nat);
    let mut r: Vec<String> = Vec::new();
    let mut i: usize = 0;
    while i < ls.len() && i < limit
        invariant
            i <= ls@.len(),
            i <= limit,
            views(ls@) == spec_lines(content@),
            first == first_n(spec_lines(content@), limit as nat),
            i <= first.len(),
            first.take(i as int) == views(ls@).take(i as int),
            string_views(r@) == map_regions(first.take(i as int)),
        decreases ls.len() - i,
    {
        assert(first.take(i + 1).drop_last() =~= first.take(i as int));
        assert(first.take(i + 1).last() == ls@[i as int]@);
        let ghost before = string_views(r@);
        let ws = words(&ls[i]);
        if ws.len() >= 6 {
            let mut out: Vec<char> = Vec::new();
            push_chars(&mut out, &ws[0]);
            push_str(&mut out, " ");
            push_chars(&mut out, &ws[5]);
            let s = string_of(&out);
            r.push(s);
            assert(string_views(r@) =~= before.push(s@));
        }
        i = i + 1;
    }
    assert(first.take(i as int) =~= first);
    r
}

/// The command line, environment and memory maps of a process from the texts of its
/// cmdline, environ and maps files, `None` where a file could not be read: "-" for an
/// unreadable command line, and at most `limit` variables and regions.
pub fn collect_process_details(
    cmdline: Option<&str>,
    environ: Option<&str>,
    maps: Option<&str>,
    limit: usize,
) -> (d: ProcessDetails)
    ensures
        d.cmdline@ == match cmdline {
            Some(c) => joined(nul_fields(c@)),
            None => "-"@,
        },
        string_views(d.environ@) == match environ {
            Some(e) => first_n(nul_fields(e@), limit as nat),
            None => Seq::empty(),
        },
        string_views(d.maps@) == match maps {
            Some(m) => map_regions(first_n(spec_lines(m@), limit as nat)),
            None => Seq::empty(),
        },
{
    let c = match cmdline {
        Some(c) => cmdline_from(c),
        None => string_of(&chars_of("-")),
    };
    let e = match environ {
        Some(e) => environ_from(e, limit),
        None => {
            let v: Vec<String> = Vec::new();
            assert(string_views(v@) =~= Seq::<Seq<char>>::empty());
            v
        },
    };
    let m = match maps {
        Some(m) => maps_from(m, limit),
        None => {
            let v: Vec<String> = Vec::new();
            assert(string_views(v@) =~= Seq::<Seq<char>>::empty());
            v
        },
    };
    ProcessDetails { cmdline: c, environ: e, maps: m }
}

/// The row an `ss -tunapH` line gives for a process: protocol, state, local and peer
/// address (the whole line when it has fewer than six columns).
pub open spec fn port_row(l: Seq<char>) -> Seq<char> {
    let ws = spec_words(l);
    if ws.len() < 6 {
        l
    } else {
        ws[0] + " "@ + ws[1] + " "@ + ws[4] + " -> "@ + ws[5]
    }
}

/// The rows of the lines that name a process id.
pub open spec fn port_rows(ls: Seq<Seq<char>>, needle: Seq<char>) -> Seq<Seq<char>>
    decreases ls.len(),
{
    if ls.len() == 0 {
        Seq::empty()
    } else {
        let p = port_rows(ls.drop_last(), needle);
        if spec_contains(ls.last(), needle) {
            p.push(port_row(ls.last()))
        } else {
            p
        }
    }
}

pub open spec fn pid_needle(pid: u32) -> Seq<char> {
    "pid="@ + spec_decimal(pid as nat) + ","@
}

/// The rows for a process of an `ss -tunapH` output.
pub fn ports_from(text: &str, pid: u32) -> (r: Vec<String>)
    ensures
        string_views(r@) == port_rows(spec_lines(text@), pid_needle(pid)),
{
    let mut nd: Vec<char> = Vec::new();
    push_str(&mut nd, "pid=");
    push_str(&mut nd, decimal_string(pid as u64).as_str());
    push_str(&mut nd, ",");
    let ls = lines(&chars_of(text));
    let mut r: Vec<String> = Vec::new();
    let mut i: usize = 0;
    while i < ls.len()
        invariant
            i <= ls@.len(),
            nd@ == pid_needle(pid),
            views(ls@) == spec_lines(text@),
            string_views(r@) == port_rows(views(ls@).take(i as int), pid_needle(pid)),
        decreases ls.len() - i,
    {
        assert(views(ls@).take(i + 1).drop_last() =~= views(ls@).take(i as int));
        assert(views(ls@).take(i + 1).last() == ls@[i as int]@);
        let ghost before = string_views(r@);
        if contains(&ls[i], &nd) {
            let ws = words(&ls[i]);
            let mut out: Vec<char> = Vec::new();
            if ws.len() < 6 {
                push_chars(&mut out, &ls[i]);
            } else {
                push_chars(&mut out, &ws[0]);
                push_str(&mut out, " ");
                push_chars(&mut out, &ws[1]);
                push_str(&mut out, " ");
                push_chars(&mut out, &ws[4]);
                push_str(&mut out, " -> ");
                push_chars(&mut out, &ws[5]);
            }
            let s = string_of(&out);
            r.push(s);
            assert(string_views(r@) =~= before.push(s@));
        }
        i = i + 1;
    }
    assert(views(ls@).take(ls@.len() as int) =~= views(ls@));
    r
}

/// Up to `limit` open ports of a process, from `ss -tunapH`; none when it fails.
pub fn collect_open_ports<P: CommandProvider>(provider: &mut P, pid: u32, limit: usize) -> (r: Vec<String>)
    ensures
        same_host(*old(provider), *final(provider)),
        final(provider).ran() == old(provider).ran().push((("ss"@, seq!["-tunapH"@]))),
        exists|a| #[trigger] old(provider).answers("ss"@, seq!["-tunapH"@], a) && string_views(r@) == if succeeded(a) {
            first_n(port_rows(spec_lines(a->Ok_0.stdout), pid_needle(pid)), limit as nat)
        } else {
            Seq::empty()
        },
{
    let args = ["-tunapH"];
    assert(str_views(args@) =~= seq!["-tunapH"@]);
    let res = provider.run("ss", &args);
    let ghost a = answer_view(res);
    let rows = match res {
        Ok(o) => if o.success {
            ports_from(o.stdout.as_str(), pid)
        } else {
            let v: Vec<String> = Vec::new();
            assert(string_views(v@) =~= Seq::<Seq<char>>::empty());
            return v;
        },
        Err(_) => {
            let v: Vec<String> = Vec::new();
            assert(string_views(v@) =~= Seq::<Seq<char>>::empty());
            return v;
        },
    };
    let mut r: Vec<String> = Vec::new();
    let mut i: usize = 0;
    while i < rows.len() && i < limit
        invariant
            i <= rows@.len(),
            i <= limit,
            string_views(r@) == string_views(rows@).take(i as int),
        decreases rows.len() - i,
    {
        let ghost before = string_views(r@);
        let s = string_of(&chars_of(rows[i].as_str()));
        r.push(s);
        assert(string_views(r@) =~= before.push(rows@[i as int]@));
        assert(string_views(rows@).take(i + 1) =~= string_views(rows@).take(i as int).push(rows@[i as int]@));
        i = i + 1;
    }
    assert(string_views(r@) =~= first_n(string_views(rows@), limit as nat));
    r
}

/// Whether texts are in strictly increasing order.
pub open spec fn strictly_sorted(s: Seq<Seq<char>>) -> bool {
    forall|i: int, j: int| 0 <= i < j < s.len() ==> crate::text::lex_lt(#[trigger] s[i], #[trigger] s[j])
}

/// The non-empty texts among `v`, as a set.
pub open spec fn nonempty_texts(v: Seq<Seq<char>>) -> Set<Seq<char>> {
    Set::new(|t: Seq<char>| t.len() > 0 && v.contains(t))
}

proof fn lemma_nonempty_push(v: Seq<Seq<char>>, x: Seq<char>)
    ensures
        x.len() > 0 ==> nonempty_texts(v.push(x)) == nonempty_texts(v).insert(x),
        x.len() == 0 ==> nonempty_texts(v.push(x)) == nonempty_texts(v),
{
    assert forall|t: Seq<char>| v.push(x).contains(t) <==> (v.contains(t) || t == x) by {
        if v.contains(t) {
            let i = choose|i: int| 0 <= i < v.len() && v[i] == t;
            assert(v.push(x)[i] == t);
        }
        if t == x {
            assert(v.push(x)[v.len() as int] == x);
        }
        if v.push(x).contains(t) {
            let i = choose|i: int| 0 <= i < v.push(x).len() && v.push(x)[i] == t;
            if i < v.len() {
                assert(v[i] == t);
            }
        }
    }
    if x.len() > 0 {
        assert forall|t: Seq<char>| nonempty_texts(v.push(x)).contains(t) <==> #[trigger] nonempty_texts(v).insert(x).contains(t) by {
            assert(v.push(x).contains(t) <==> (v.contains(t) || t == x));
        }
        assert(nonempty_texts(v.push(x)) =~= nonempty_texts(v).insert(x));
    } else {
        assert(nonempty_texts(v.push(x)) =~= nonempty_texts(v));
    }
}

/// The distinct non-empty texts of `items` in increasing order, the first `limit` of them
/// (the open file targets of a process as the processes tab lists them).
pub fn sorted_unique_first(items: Vec<String>, limit: usize) -> (r: Vec<String>)
    ensures
        exists|s: Seq<Seq<char>>| #[trigger] strictly_sorted(s) && s.to_set() == nonempty_texts(string_views(items@))
            && string_views(r@) == first_n(s, limit as nat),
{
    let ghost iv = string_views(items@);
    let mut out: Vec<String> = Vec::new();
    let mut k: usize = 0;
    while k < items.len()
        invariant
            k <= items@.len(),
            iv == string_views(items@),
            strictly_sorted(string_views(out@)),
            string_views(out@).to_set() == nonempty_texts(iv.take(k as int)),
        decreases items.len() - k,
    {
        let x = chars_of(items[k].as_str());
        let ghost ov = string_views(out@);
        let ghost xv = x@;
        assert(iv.take(k + 1) =~= iv.take(k as int).push(xv));
        proof {
            lemma_nonempty_push(iv.take(k as int), xv);
        }
        if x.len() == 0 {
        } else {
            let mut p: usize = 0;
            while p < out.len() && less_than(&chars_of(out[p].as_str()), &x)
                invariant
                    p <= out@.len(),
                    ov == string_views(out@),
                    xv == x@,
                    forall|j: int| 0 <= j < p ==> crate::text::lex_lt(#[trigger] ov[j], xv),
                decreases out.len() - p,
            {
                p = p + 1;
            }
            let dup = p < out.len() && chars_eq(&chars_of(out[p].as_str()), &x);
            if dup {
                assert(ov[p as int] == xv);
                assert(ov.to_set().contains(xv));
                assert(nonempty_texts(iv.take(k as int)).insert(xv) =~= nonempty_texts(iv.take(k as int)));
            } else {
                proof {
                    if p < out.len() {
                        crate::order::lemma_lex_total(ov[p as int], xv);
                        assert forall|j: int| p <= j < ov.len() implies crate::text::lex_lt(xv, #[trigger] ov[j]) by {
                            if j > p {
                                crate::order::lemma_lex_transitive(xv, ov[p as int], ov[j]);
                            }
                        }
                    }
                }
                out.insert(p, string_of(&x));
                proof {
                    let nv = string_views(out@);
                    assert(nv =~= ov.insert(p as int, xv));
                    assert forall|i: int, j: int| 0 <= i < j < nv.len() implies crate::text::lex_lt(#[trigger] nv[i], #[trigger] nv[j]) by {
                        if j < p {
                            assert(nv[i] == ov[i] && nv[j] == ov[j]);
                        } else if j == p {
                            assert(nv[i] == ov[i]);
                        } else if i < p {
                            assert(nv[i] == ov[i] && nv[j] == ov[j - 1]);
                            crate::order::lemma_lex_transitive(ov[i], xv, ov[j - 1]);
                        } else if i == p {
                            assert(nv[j] == ov[j - 1]);
                        } else {
                            assert(nv[i] == ov[i - 1] && nv[j] == ov[j - 1]);
                        }
                    }
                    assert forall|t: Seq<char>| nv.to_set().contains(t) <==> ov.to_set().insert(xv).contains(t) by {
                        if nv.contains(t) {
                            let i = choose|i: int| 0 <= i < nv.len() && nv[i] == t;
                            if i < p {
                                assert(ov[i] == t);
                            } else if i > p {
                                assert(ov[i - 1] == t);
                            }
                        }
                        if ov.contains(t) {
                            let i = choose|i: int| 0 <= i < ov.len() && ov[i] == t;
                            if i < p {
                                assert(nv[i] == t);
                            } else {
                                assert(nv[i + 1] == t);
                            }
                        }
                        if t == xv {
                            assert(nv[p as int] == xv);
                        }
                    }
                    assert(nv.to_set() =~= ov.to_set().insert(xv));
                }
            }
        }
        k = k + 1;
    }
    assert(iv.take(items@.len() as int) =~= iv);
    let ghost all = string_views(out@);
    let mut r: Vec<String> = Vec::new();
    let mut j: usize = 0;
    let n = if out.len() <= limit { out.len() } else { limit };
    while j < n
        invariant
            j <= n,
            n <= out@.len(),
            all == string_views(out@),
            string_views(r@) == all.take(j as int),
        decreases n - j,
    {
        r.push(out[j].clone());
        assert(all.take(j + 1) =~= all.take(j as int).push(all[j as int]));
        j = j + 1;
    }
    assert(string_views(r@) =~= first_n(all, limit as nat));
    r
}

} // verus!
