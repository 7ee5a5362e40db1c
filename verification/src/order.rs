//! Orders on texts and sized rows, and sorting by them.
use crate::text::{less_than, lex_lt, string_views};
use vstd::prelude::*;

verus! {

/// `lex_lt` never holds both ways, nor of equal texts.
pub proof fn lemma_lex_asymmetric(a: Seq<char>, b: Seq<char>)
    ensures
        !(lex_lt(a, b) && lex_lt(b, a)),
        !lex_lt(a, a),
    decreases a.len(),
{
    if a.len() > 0 && b.len() > 0 && a[0] == b[0] {
        lemma_lex_asymmetric(a.drop_first(), b.drop_first());
    }
    if a.len() > 0 {
        lemma_lex_asymmetric(a.drop_first(), a.drop_first());
    }
}

/// Distinct texts are ordered one way or the other.
pub proof fn lemma_lex_total(a: Seq<char>, b: Seq<char>)
    ensures
        a == b || lex_lt(a, b) || lex_lt(b, a),
    decreases a.len(),
{
    if a.len() > 0 && b.len() > 0 && a[0] == b[0] {
        lemma_lex_total(a.drop_first(), b.drop_first());
        if a.drop_first() == b.drop_first() {
            assert(a =~= seq![a[0]] + a.drop_first());
            assert(b =~= seq![b[0]] + b.drop_first());
        }
    }
    if a.len() > 0 && b.len() > 0 && a[0] != b[0] {
        vstd::utf8::char_u32_cast(a[0], a[0] as u32);
        vstd::utf8::char_u32_cast(b[0], b[0] as u32);
    }
    if a.len() == 0 && b.len() == 0 {
        assert(a =~= b);
    }
}

/// `lex_lt` is transitive.
pub proof fn lemma_lex_transitive(a: Seq<char>, b: Seq<char>, c: Seq<char>)
    requires
        lex_lt(a, b),
        lex_lt(b, c),
    ensures
        lex_lt(a, c),
    decreases a.len(),
{
    if a.len() > 0 && b.len() > 0 && c.len() > 0 && a[0] == b[0] && b[0] == c[0] {
        lemma_lex_transitive(a.drop_first(), b.drop_first(), c.drop_first());
    }
}

/// Whether row `a` may come before row `b`: larger size first, then by name.
pub open spec fn size_first(a: (Seq<char>, u64), b: (Seq<char>, u64)) -> bool {
    a.1 > b.1 || (a.1 == b.1 && !lex_lt(b.0, a.0))
}

pub proof fn lemma_size_first_total(a: (Seq<char>, u64), b: (Seq<char>, u64))
    ensures
        size_first(a, b) || size_first(b, a),
{
    lemma_lex_asymmetric(a.0, b.0);
}

pub proof fn lemma_size_first_transitive(a: (Seq<char>, u64), b: (Seq<char>, u64), c: (Seq<char>, u64))
    requires
        size_first(a, b),
        size_first(b, c),
    ensures
        size_first(a, c),
{
    if a.1 == c.1 {
        if lex_lt(c.0, a.0) {
            lemma_lex_total(a.0, b.0);
            if lex_lt(a.0, b.0) {
                lemma_lex_transitive(c.0, a.0, b.0);
            }
        }
    }
}

/// Views of sized rows.
pub open spec fn row_views(v: Seq<(String, u64)>) -> Seq<(Seq<char>, u64)> {
    v.map_values(|r: (String, u64)| (r.0@, r.1))
}

/// Whether rows are in `size_first` order.
pub open spec fn sorted_by_size(s: Seq<(Seq<char>, u64)>) -> bool {
    forall|i: int, j: int| 0 <= i < j < s.len() ==> size_first(#[trigger] s[i], #[trigger] s[j])
}

fn row_before(a: &(String, u64), b: &(String, u64)) -> (r: bool)
    ensures
        r == size_first((a.0@, a.1), (b.0@, b.1)),
{
    if a.1 != b.1 {
        a.1 > b.1
    } else {
        let ac = crate::text::chars_of(a.0.as_str());
        let bc = crate::text::chars_of(b.0.as_str());
        !less_than(&bc, &ac)
    }
}

/// Sorts rows by size, largest first, then by name.
pub fn sort_by_size(rows: Vec<(String, u64)>) -> (r: Vec<(String, u64)>)
    ensures
        sorted_by_size(row_views(r@)),
        row_views(r@).to_multiset() == row_views(rows@).to_multiset(),
{
    let mut out: Vec<(String, u64)> = Vec::new();
    let mut rest = rows;
    let ghost all = row_views(rest@);
    let mut taken: usize = 0;
    let n = rest.len();
    broadcast use vstd::seq_lib::group_to_multiset_ensures;

    while rest.len() > 0
        invariant
            taken + rest@.len() == n,
            all.len() == n,
            row_views(rest@) == all.skip(taken as int),
            sorted_by_size(row_views(out@)),
            row_views(out@).to_multiset() == all.take(taken as int).to_multiset(),
        decreases rest.len(),
    {
        let x = rest.remove(0);
        let ghost xv = (x.0@, x.1);
        assert(all.skip(taken as int)[0] == xv);
        assert(all.skip(taken + 1) =~= all.skip(taken as int).drop_first());
        let mut k: usize = 0;
        while k < out.len() && row_before(&out[k], &x)
            invariant
                k <= out@.len(),
                xv == (x.0@, x.1),
                forall|j: int| 0 <= j < k ==> size_first(#[trigger] row_views(out@)[j], xv),
            decreases out.len() - k,
        {
            assert(row_views(out@)[k as int] == (out@[k as int].0@, out@[k as int].1));
            k = k + 1;
        }
        let ghost ov = row_views(out@);
        proof {
            if k < out.len() {
                assert(!size_first(ov[k as int], xv));
                lemma_size_first_total(ov[k as int], xv);
                assert forall|j: int| k <= j < ov.len() implies size_first(xv, #[trigger] ov[j]) by {
                    if j > k {
                        assert(size_first(ov[k as int], ov[j]));
                        lemma_size_first_transitive(xv, ov[k as int], ov[j]);
                    }
                }
            }
        }
        out.insert(k, x);
        proof {
            assert(row_views(out@) =~= ov.insert(k as int, xv));
            let nv = row_views(out@);
            assert forall|i: int, j: int| 0 <= i < j < nv.len() implies size_first(#[trigger] nv[i], #[trigger] nv[j]) by {
                if j < k {
                    assert(nv[i] == ov[i] && nv[j] == ov[j]);
                } else if j == k {
                    assert(nv[i] == ov[i]);
                } else if i < k {
                    assert(nv[i] == ov[i] && nv[j] == ov[j - 1]);
                    assert(size_first(ov[i], xv));
                    assert(size_first(xv, ov[j - 1]));
                    lemma_size_first_transitive(ov[i], xv, ov[j - 1]);
                } else if i == k {
                    assert(nv[j] == ov[j - 1]);
                } else {
                    assert(nv[i] == ov[i - 1] && nv[j] == ov[j - 1]);
                }
            }
            vstd::seq_lib::to_multiset_insert(ov, k as int, xv);
            assert(all.take(taken + 1) =~= all.take(taken as int).push(xv));
            vstd::seq_lib::to_multiset_build(all.take(taken as int), xv);
            assert(row_views(out@).to_multiset() =~= all.take(taken + 1).to_multiset());
        }
        taken = taken + 1;
    }
    proof {
        assert(all.take(n as int) =~= all);
    }
    out
}

/// Whether a row with name `a.0` and load `a.1` may come before one with `b`: heavier load
/// first, then by name.
pub open spec fn load_first(a: (Seq<char>, int), b: (Seq<char>, int)) -> bool {
    a.1 > b.1 || (a.1 == b.1 && !lex_lt(b.0, a.0))
}

pub proof fn lemma_load_first_total(a: (Seq<char>, int), b: (Seq<char>, int))
    ensures
        load_first(a, b) || load_first(b, a),
{
    lemma_lex_asymmetric(a.0, b.0);
}

pub proof fn lemma_load_first_transitive(a: (Seq<char>, int), b: (Seq<char>, int), c: (Seq<char>, int))
    requires
        load_first(a, b),
        load_first(b, c),
    ensures
        load_first(a, c),
{
    if a.1 == c.1 {
        if lex_lt(c.0, a.0) {
            lemma_lex_total(a.0, b.0);
            if lex_lt(a.0, b.0) {
                lemma_lex_transitive(c.0, a.0, b.0);
            }
        }
    }
}

} // verus!
