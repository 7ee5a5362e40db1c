//! Lines of the processes table: the group column, the separators between groups and the
//! indentation of the tree view.
use crate::app::ProcessViewMode;
use crate::collectors::{spec_truncate, truncate};
use crate::procview::{ProcessEntry, ProcessEntryView};
use crate::text::{push_str, string_of, string_views};
use vstd::prelude::*;

verus! {

/// The group a process is shown under: its user, its service unit or its container in the
/// grouped views, "-" in the others.
pub open spec fn group_label(e: ProcessEntryView, mode: ProcessViewMode) -> Seq<char> {
    match mode {
        ProcessViewMode::User => e.user,
        ProcessViewMode::Service => e.service_group,
        ProcessViewMode::Container => e.container_group,
        _ => "-"@,
    }
}

/// The group a process is shown under (see `group_label`).
pub fn process_group_label(entry: &ProcessEntry, mode: ProcessViewMode) -> (r: &str)
    ensures
        r@ == group_label(entry@, mode),
{
    match mode {
        ProcessViewMode::User => entry.user.as_str(),
        ProcessViewMode::Service => entry.service_group.as_str(),
        ProcessViewMode::Container => entry.container_group.as_str(),
        _ => "-",
    }
}

/// A line of the processes table: a separator that names the group that starts below it,
/// or the row of the view at a position.
#[derive(Debug, PartialEq, Eq)]
pub enum TableLine {
    Separator(String),
    Process(usize),
}

pub enum TableLineView {
    Separator(Seq<char>),
    Process(usize),
}

pub open spec fn line_view(l: TableLine) -> TableLineView {
    match l {
        TableLine::Separator(g) => TableLineView::Separator(g@),
        TableLine::Process(i) => TableLineView::Process(i),
    }
}

pub open spec fn line_views(v: Seq<TableLine>) -> Seq<TableLineView> {
    v.map_values(|l: TableLine| line_view(l))
}

/// The lines for the rows `i..end` of a view whose rows have the groups `labels`, below a
/// line of the group `current` ("" above the first row): where a row's group differs from
/// the one above, and that one is not "", a separator naming the new group comes first.
pub open spec fn lines_from(labels: Seq<Seq<char>>, i: int, end: int, current: Seq<char>) -> Seq<TableLineView>
    decreases end - i,
{
    if i >= end || i < 0 {
        Seq::empty()
    } else {
        let g = labels[i];
        let sep = if current != g && current.len() > 0 {
            seq![TableLineView::Separator(g)]
        } else {
            Seq::empty()
        };
        sep + seq![TableLineView::Process(i as usize)] + lines_from(labels, i + 1, end, g)
    }
}

/// The first row the table shows: the one at `offset`, or none past the last.
pub open spec fn window_start(len: nat, offset: nat) -> nat {
    if offset < len {
        offset
    } else {
        len
    }
}

/// The row after the last one the table shows: at most `height` rows from the first.
pub open spec fn window_end(len: nat, offset: nat, height: nat) -> nat {
    let start = window_start(len, offset);
    if height < len - start {
        start + height
    } else {
        len
    }
}

/// The lines of the processes table for the rows from `offset` on, at most `height` of
/// them, given each row's group (see `lines_from`).
pub fn process_table_lines(labels: &Vec<String>, offset: usize, height: usize) -> (r: Vec<TableLine>)
    ensures
        line_views(r@) == lines_from(
            string_views(labels@),
            window_start(labels@.len(), offset as nat) as int,
            window_end(labels@.len(), offset as nat, height as nat) as int,
            Seq::empty(),
        ),
{
    let ghost ls = string_views(labels@);
    let len = labels.len();
    let start = if offset < len {
        offset
    } else {
        len
    };
    let end = if height < len - start {
        start + height
    } else {
        len
    };
    let ghost whole = lines_from(ls, start as int, end as int, Seq::empty());
    let mut out: Vec<TableLine> = Vec::new();
    let mut current: Option<usize> = None;
    let mut i = start;
    while i < end
        invariant
            start <= i <= end <= labels@.len(),
            ls == string_views(labels@),
            whole == lines_from(ls, start as int, end as int, Seq::empty()),
            match current {
                None => i == start,
                Some(c) => c < labels@.len() && i > start,
            },
            line_views(out@) + lines_from(
                ls,
                i as int,
                end as int,
                match current {
                    Some(c) => ls[c as int],
                    None => Seq::empty(),
                },
            ) == whole,
        decreases end - i,
    {
        let ghost cur = match current {
            Some(c) => ls[c as int],
            None => Seq::<char>::empty(),
        };
        let ghost before = out@;
        let g = &labels[i];
        let differs = match current {
            None => crate::text::chars_of(g.as_str()).len() != 0,
            Some(c) => !crate::text::chars_eq(
                &crate::text::chars_of(labels[c].as_str()),
                &crate::text::chars_of(g.as_str()),
            ),
        };
        let shown = match current {
            None => false,
            Some(c) => crate::text::chars_of(labels[c].as_str()).len() > 0,
        };
        proof {
            match current {
                Some(c) => {
                    assert(ls[c as int] == labels@[c as int]@);
                },
                None => {
                    if g@.len() == 0 {
                        assert(g@ =~= Seq::<char>::empty());
                    }
                },
            }
        }
        assert(differs == (cur != g@));
        assert(shown == (cur.len() > 0));
        if differs && shown {
            out.push(TableLine::Separator(string_of(&crate::text::chars_of(g.as_str()))));
        }
        out.push(TableLine::Process(i));
        proof {
            let sep = if cur != ls[i as int] && cur.len() > 0 {
                seq![TableLineView::Separator(ls[i as int])]
            } else {
                Seq::empty()
            };
            assert(ls[i as int] == g@);
            assert(line_views(out@) =~= line_views(before) + sep + seq![TableLineView::Process(i)]);
            assert(lines_from(ls, i as int, end as int, cur) == sep + seq![TableLineView::Process(i)] + lines_from(
                ls,
                i + 1,
                end as int,
                ls[i as int],
            ));
            assert(line_views(out@) + lines_from(ls, i + 1, end as int, ls[i as int]) =~= line_views(before)
                + lines_from(ls, i as int, end as int, cur));
        }
        current = Some(i);
        i = i + 1;
    }
    out
}

/// Blanks for `n` levels of the tree.
pub open spec fn indent(n: nat) -> Seq<char> {
    Seq::new(2 * n, |k: int| ' ')
}

/// The name column of a row: the name, or below depth 0 the name after two blanks a level
/// (six levels at most) and "└ ", cut to 26 characters.
pub open spec fn tree_name_text(name: Seq<char>, depth: nat) -> Seq<char> {
    if depth == 0 {
        spec_truncate(name, 26)
    } else {
        spec_truncate(indent(if depth < 6 { depth } else { 6 }) + "└ "@ + name, 26)
    }
}

/// The name column of a row (see `tree_name_text`).
pub fn tree_name(name: &str, depth: usize) -> (r: String)
    ensures
        r@ == tree_name_text(name@, depth as nat),
{
    if depth == 0 {
        return truncate(name, 26);
    }
    let levels = if depth < 6 {
        depth
    } else {
        6
    };
    let mut out: Vec<char> = Vec::new();
    let mut k: usize = 0;
    while k < 2 * levels
        invariant
            levels <= 6,
            k <= 2 * levels,
            out@ == indent(levels as nat).take(k as int),
        decreases 2 * levels - k,
    {
        out.push(' ');
        assert(out@ =~= indent(levels as nat).take(k + 1));
        k = k + 1;
    }
    assert(out@ =~= indent(levels as nat));
    push_str(&mut out, "└ ");
    push_str(&mut out, name);
    let text = string_of(&out);
    truncate(text.as_str(), 26)
}

} // verus!
