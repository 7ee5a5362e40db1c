//! Character-level text handling with the semantics of Rust's `str` methods
//! (`lines`, `split_whitespace`, `split`, `trim`, numeric parsing).
use vstd::prelude::*;

verus! {

broadcast use vstd::string::group_string_axioms;

/// Unicode `White_Space` property, as `char::is_whitespace` uses it.
pub open spec fn is_ws(c: char) -> bool {
    let n = c as u32;
    (9 <= n && n <= 13) || n == 32 || n == 0x85 || n == 0xA0 || n == 0x1680 || (0x2000 <= n && n
        <= 0x200A) || n == 0x2028 || n == 0x2029 || n == 0x202F || n == 0x205F || n == 0x3000
}

pub fn is_whitespace(c: char) -> (b: bool)
    ensures
        b == is_ws(c),
{
    let n = c as u32;
    (9 <= n && n <= 13) || n == 32 || n == 0x85 || n == 0xA0 || n == 0x1680 || (0x2000 <= n && n
        <= 0x200A) || n == 0x2028 || n == 0x2029 || n == 0x202F || n == 0x205F || n == 0x3000
}

/// The characters of a string slice, in order.
pub fn chars_of(s: &str) -> (v: Vec<char>)
    ensures
        v@ == s@,
{
    let mut v: Vec<char> = Vec::new();
    for c in it: s.chars()
        invariant
            v@ == it.seq().take(it.index() as int),
    {
        v.push(c);
    }
    assert(v@ =~= s@);
    v
}

/// Appends one character to a `String` (`String::push`).
#[verifier::external_body]
fn push_char(s: &mut String, c: char)
    ensures
        final(s)@ == old(s)@.push(c),
{
    s.push(c);
}

/// Builds a `String` holding exactly the given characters.
pub fn string_of(v: &[char]) -> (s: String)
    ensures
        s@ == v@,
{
    let mut s = String::new();
    let mut i: usize = 0;
    while i < v.len()
        invariant
            i <= v.len(),
            s@ == v@.take(i as int),
        decreases v.len() - i,
    {
        push_char(&mut s, v[i]);
        assert(v@.take(i + 1) =~= v@.take(i as int).push(v@[i as int]));
        i = i + 1;
    }
    assert(v@.take(v.len() as int) =~= v@);
    s
}


/// Views of a sequence of character vectors.
pub open spec fn views(v: Seq<Vec<char>>) -> Seq<Seq<char>> {
    v.map_values(|l: Vec<char>| l@)
}

/// Views of a sequence of strings.
pub open spec fn string_views(v: Seq<String>) -> Seq<Seq<char>> {
    v.map_values(|l: String| l@)
}

/// First index at or after `i` holding `c`, or `s.len()` when there is none.
pub open spec fn next_index_of(s: Seq<char>, i: int, c: char) -> int
    decreases s.len() - i,
{
    if i >= s.len() {
        s.len() as int
    } else if s[i] == c {
        i
    } else {
        next_index_of(s, i + 1, c)
    }
}

pub proof fn lemma_next_index_of(s: Seq<char>, i: int, c: char)
    requires
        0 <= i <= s.len(),
    ensures
        i <= next_index_of(s, i, c) <= s.len(),
        next_index_of(s, i, c) < s.len() ==> s[next_index_of(s, i, c)] == c,
        forall|k: int| i <= k < next_index_of(s, i, c) ==> s[k] != c,
    decreases s.len() - i,
{
    if i < s.len() && s[i] != c {
        lemma_next_index_of(s, i + 1, c);
    }
}

pub fn find_char_from(s: &[char], i: usize, c: char) -> (r: usize)
    requires
        i <= s@.len(),
    ensures
        r == next_index_of(s@, i as int, c),
        i <= r <= s@.len(),
{
    let mut j = i;
    while j < s.len() && s[j] != c
        invariant
            i <= j <= s@.len(),
            next_index_of(s@, j as int, c) == next_index_of(s@, i as int, c),
        decreases s.len() - j,
    {
        j = j + 1;
    }
    j
}

/// Copies `s[start..end]`.
pub fn copy_range(s: &[char], start: usize, end: usize) -> (r: Vec<char>)
    requires
        start <= end <= s@.len(),
    ensures
        r@ == s@.subrange(start as int, end as int),
{
    let mut r: Vec<char> = Vec::new();
    let mut k = start;
    while k < end
        invariant
            start <= k <= end <= s@.len(),
            r@ == s@.subrange(start as int, k as int),
        decreases end - k,
    {
        r.push(s[k]);
        assert(s@.subrange(start as int, k + 1) =~= s@.subrange(start as int, k as int).push(s@[k as int]));
        k = k + 1;
    }
    r
}

/// A line without its `\r` when it ended with `\r\n`.
pub open spec fn strip_cr(l: Seq<char>) -> Seq<char> {
    if l.len() > 0 && l.last() == '\r' {
        l.drop_last()
    } else {
        l
    }
}

/// `str::lines` from position `i`.
pub open spec fn lines_from(s: Seq<char>, i: int) -> Seq<Seq<char>>
    decreases s.len() - i,
{
    if i >= s.len() || i < 0 {
        Seq::empty()
    } else {
        let e = next_index_of(s, i, '\n');
        proof {
            lemma_next_index_of(s, i, '\n');
        }
        if e >= s.len() {
            seq![s.subrange(i, s.len() as int)]
        } else {
            seq![strip_cr(s.subrange(i, e))] + lines_from(s, e + 1)
        }
    }
}

/// The lines of a text, as `str::lines` gives them.
pub open spec fn spec_lines(s: Seq<char>) -> Seq<Seq<char>> {
    lines_from(s, 0)
}

pub fn lines(s: &[char]) -> (r: Vec<Vec<char>>)
    ensures
        views(r@) == spec_lines(s@),
{
    let mut r: Vec<Vec<char>> = Vec::new();
    let mut i: usize = 0;
    while i < s.len()
        invariant
            i <= s@.len(),
            views(r@) + lines_from(s@, i as int) == spec_lines(s@),
        decreases s.len() - i,
    {
        let e = find_char_from(s, i, '\n');
        proof {
            lemma_next_index_of(s@, i as int, '\n');
        }
        if e >= s.len() {
            let line = copy_range(s, i, s.len());
            let ghost before = views(r@);
            r.push(line);
            assert(views(r@) =~= before.push(line@));
            assert(lines_from(s@, s@.len() as int) =~= Seq::<Seq<char>>::empty());
            i = s.len();
        } else {
            let mut end = e;
            if e > i && s[e - 1] == '\r' {
                end = e - 1;
            }
            let line = copy_range(s, i, end);
            assert(line@ == strip_cr(s@.subrange(i as int, e as int))) by {
                let l = s@.subrange(i as int, e as int);
                if l.len() > 0 && l.last() == '\r' {
                    assert(l.drop_last() =~= s@.subrange(i as int, end as int));
                }
            }
            let ghost before = views(r@);
            r.push(line);
            assert(views(r@) =~= before.push(line@));
            i = e + 1;
        }
    }
    assert(lines_from(s@, i as int) =~= Seq::<Seq<char>>::empty());
    r
}


/// First index at or after `i` that is not whitespace, or `s.len()`.
pub open spec fn skip_ws(s: Seq<char>, i: int) -> int
    decreases s.len() - i,
{
    if i >= s.len() {
        s.len() as int
    } else if !is_ws(s[i]) {
        i
    } else {
        skip_ws(s, i + 1)
    }
}

/// First index at or after `i` that is whitespace, or `s.len()`.
pub open spec fn next_ws(s: Seq<char>, i: int) -> int
    decreases s.len() - i,
{
    if i >= s.len() {
        s.len() as int
    } else if is_ws(s[i]) {
        i
    } else {
        next_ws(s, i + 1)
    }
}

pub proof fn lemma_skip_ws(s: Seq<char>, i: int)
    requires
        0 <= i <= s.len(),
    ensures
        i <= skip_ws(s, i) <= s.len(),
        skip_ws(s, i) < s.len() ==> !is_ws(s[skip_ws(s, i)]),
        forall|k: int| i <= k < skip_ws(s, i) ==> is_ws(s[k]),
    decreases s.len() - i,
{
    if i < s.len() && is_ws(s[i]) {
        lemma_skip_ws(s, i + 1);
    }
}

pub proof fn lemma_next_ws(s: Seq<char>, i: int)
    requires
        0 <= i <= s.len(),
    ensures
        i <= next_ws(s, i) <= s.len(),
        next_ws(s, i) < s.len() ==> is_ws(s[next_ws(s, i)]),
        forall|k: int| i <= k < next_ws(s, i) ==> !is_ws(s[k]),
    decreases s.len() - i,
{
    if i < s.len() && !is_ws(s[i]) {
        lemma_next_ws(s, i + 1);
    }
}

/// `str::split_whitespace` from position `i`.
pub open spec fn words_from(s: Seq<char>, i: int) -> Seq<Seq<char>>
    decreases s.len() - i,
{
    if i >= s.len() || i < 0 {
        Seq::empty()
    } else {
        let j = skip_ws(s, i);
        proof {
            lemma_skip_ws(s, i);
        }
        if j >= s.len() {
            Seq::empty()
        } else {
            let e = next_ws(s, j);
            proof {
                lemma_next_ws(s, j);
            }
            seq![s.subrange(j, e)] + words_from(s, e)
        }
    }
}

/// The whitespace-separated words of a text, as `str::split_whitespace` gives them.
pub open spec fn spec_words(s: Seq<char>) -> Seq<Seq<char>> {
    words_from(s, 0)
}

pub fn skip_whitespace(s: &[char], i: usize) -> (r: usize)
    requires
        i <= s@.len(),
    ensures
        r == skip_ws(s@, i as int),
{
    let mut j = i;
    while j < s.len() && is_whitespace(s[j])
        invariant
            i <= j <= s@.len(),
            skip_ws(s@, j as int) == skip_ws(s@, i as int),
        decreases s.len() - j,
    {
        j = j + 1;
    }
    j
}

pub fn find_whitespace(s: &[char], i: usize) -> (r: usize)
    requires
        i <= s@.len(),
    ensures
        r == next_ws(s@, i as int),
{
    let mut j = i;
    while j < s.len() && !is_whitespace(s[j])
        invariant
            i <= j <= s@.len(),
            next_ws(s@, j as int) == next_ws(s@, i as int),
        decreases s.len() - j,
    {
        j = j + 1;
    }
    j
}

pub fn words(s: &[char]) -> (r: Vec<Vec<char>>)
    ensures
        views(r@) == spec_words(s@),
{
    let mut r: Vec<Vec<char>> = Vec::new();
    let mut i: usize = 0;
    while i < s.len()
        invariant
            i <= s@.len(),
            views(r@) + words_from(s@, i as int) == spec_words(s@),
        decreases s.len() - i,
    {
        let j = skip_whitespace(s, i);
        proof {
            lemma_skip_ws(s@, i as int);
        }
        if j >= s.len() {
            assert(words_from(s@, i as int) =~= Seq::<Seq<char>>::empty());
            i = s.len();
        } else {
            let e = find_whitespace(s, j);
            proof {
                lemma_next_ws(s@, j as int);
            }
            let w = copy_range(s, j, e);
            let ghost before = views(r@);
            r.push(w);
            assert(views(r@) =~= before.push(w@));
            assert(views(r@) + words_from(s@, e as int) =~= before + words_from(s@, i as int));
            i = e;
        }
    }
    assert(words_from(s@, i as int) =~= Seq::<Seq<char>>::empty());
    r
}

/// `str::split` on one character, from position `i`.
pub open spec fn split_from(s: Seq<char>, i: int, c: char) -> Seq<Seq<char>>
    decreases s.len() + 1 - i,
{
    if i > s.len() || i < 0 {
        Seq::empty()
    } else {
        let e = next_index_of(s, i, c);
        proof {
            lemma_next_index_of(s, i, c);
        }
        if e >= s.len() {
            seq![s.subrange(i, s.len() as int)]
        } else {
            seq![s.subrange(i, e)] + split_from(s, e + 1, c)
        }
    }
}

/// The pieces of a text between occurrences of `c`, as `str::split(c)` gives them.
pub open spec fn spec_split(s: Seq<char>, c: char) -> Seq<Seq<char>> {
    split_from(s, 0, c)
}

pub fn split_char(s: &[char], c: char) -> (r: Vec<Vec<char>>)
    ensures
        views(r@) == spec_split(s@, c),
        r@.len() >= 1,
{
    let mut r: Vec<Vec<char>> = Vec::new();
    let mut i: usize = 0;
    loop
        invariant
            i <= s@.len(),
            views(r@) + split_from(s@, i as int, c) == spec_split(s@, c),
        decreases s.len() - i,
    {
        let e = find_char_from(s, i, c);
        proof {
            lemma_next_index_of(s@, i as int, c);
        }
        let piece = copy_range(s, i, e);
        let ghost before = views(r@);
        r.push(piece);
        assert(views(r@) =~= before.push(piece@));
        if e >= s.len() {
            assert(views(r@) =~= spec_split(s@, c));
            return r;
        }
        assert(views(r@) + split_from(s@, e + 1, c) =~= before + split_from(s@, i as int, c));
        i = e + 1;
    }
}

/// Index just past the last non-whitespace character of `s[..e]`, or 0.
pub open spec fn trail_ws(s: Seq<char>, e: int) -> int
    decreases e,
{
    if e <= 0 {
        0
    } else if !is_ws(s[e - 1]) {
        e
    } else {
        trail_ws(s, e - 1)
    }
}

pub proof fn lemma_trail_ws(s: Seq<char>, e: int)
    requires
        0 <= e <= s.len(),
    ensures
        0 <= trail_ws(s, e) <= e,
        trail_ws(s, e) > 0 ==> !is_ws(s[trail_ws(s, e) - 1]),
        forall|k: int| trail_ws(s, e) <= k < e ==> is_ws(s[k]),
    decreases e,
{
    if e > 0 && is_ws(s[e - 1]) {
        lemma_trail_ws(s, e - 1);
    }
}

/// `str::trim`: the text without leading and trailing whitespace.
pub open spec fn spec_trim(s: Seq<char>) -> Seq<char> {
    let a = skip_ws(s, 0);
    let b = trail_ws(s, s.len() as int);
    if a < b {
        s.subrange(a, b)
    } else {
        Seq::empty()
    }
}

/// `str::trim_end`.
pub open spec fn spec_trim_end(s: Seq<char>) -> Seq<char> {
    s.subrange(0, trail_ws(s, s.len() as int))
}

pub fn trim_bounds(s: &[char]) -> (r: (usize, usize))
    ensures
        r.0 <= r.1 <= s@.len(),
        s@.subrange(r.0 as int, r.1 as int) == spec_trim(s@),
        r.1 == trail_ws(s@, s@.len() as int) || r.0 == r.1,
{
    let a = skip_whitespace(s, 0);
    let mut b = s.len();
    while b > 0 && is_whitespace(s[b - 1])
        invariant
            b <= s@.len(),
            trail_ws(s@, b as int) == trail_ws(s@, s@.len() as int),
        decreases b,
    {
        b = b - 1;
    }
    proof {
        lemma_skip_ws(s@, 0);
        lemma_trail_ws(s@, s@.len() as int);
    }
    if a < b {
        (a, b)
    } else {
        assert(s@.subrange(a as int, a as int) =~= Seq::<char>::empty());
        (a, a)
    }
}

pub fn trim(s: &[char]) -> (r: Vec<char>)
    ensures
        r@ == spec_trim(s@),
{
    let (a, b) = trim_bounds(s);
    copy_range(s, a, b)
}

pub fn trim_end(s: &[char]) -> (r: Vec<char>)
    ensures
        r@ == spec_trim_end(s@),
{
    let mut b = s.len();
    while b > 0 && is_whitespace(s[b - 1])
        invariant
            b <= s@.len(),
            trail_ws(s@, b as int) == trail_ws(s@, s@.len() as int),
        decreases b,
    {
        b = b - 1;
    }
    copy_range(s, 0, b)
}

/// `s` holds `p` starting at index `i`.
pub open spec fn matches_at(s: Seq<char>, i: int, p: Seq<char>) -> bool {
    0 <= i && i + p.len() <= s.len() && s.subrange(i, i + p.len()) == p
}

pub open spec fn spec_starts_with(s: Seq<char>, p: Seq<char>) -> bool {
    matches_at(s, 0, p)
}

pub open spec fn spec_ends_with(s: Seq<char>, p: Seq<char>) -> bool {
    p.len() <= s.len() && matches_at(s, s.len() - p.len(), p)
}

pub open spec fn spec_contains(s: Seq<char>, p: Seq<char>) -> bool {
    exists|i: int| matches_at(s, i, p)
}

pub fn match_at(s: &[char], i: usize, p: &[char]) -> (b: bool)
    ensures
        b == matches_at(s@, i as int, p@),
{
    if i > s.len() || p.len() > s.len() - i {
        return false;
    }
    let mut k: usize = 0;
    while k < p.len()
        invariant
            k <= p@.len(),
            i <= s@.len(),
            i + p@.len() <= s@.len(),
            s@.len() == s.len(),
            p@.len() == p.len(),
            forall|m: int| 0 <= m < k ==> s@[i + m] == p@[m],
        decreases p.len() - k,
    {
        if s[i + k] != p[k] {
            assert(s@.subrange(i as int, i + p@.len())[k as int] != p@[k as int]);
            return false;
        }
        k = k + 1;
    }
    assert(s@.subrange(i as int, i + p@.len()) =~= p@);
    true
}

pub fn starts_with(s: &[char], p: &[char]) -> (b: bool)
    ensures
        b == spec_starts_with(s@, p@),
{
    match_at(s, 0, p)
}

pub fn ends_with(s: &[char], p: &[char]) -> (b: bool)
    ensures
        b == spec_ends_with(s@, p@),
{
    if p.len() > s.len() {
        return false;
    }
    match_at(s, s.len() - p.len(), p)
}

/// First index at or after `i` where `p` occurs, if any.
pub fn find_from(s: &[char], i: usize, p: &[char]) -> (r: Option<usize>)
    ensures
        match r {
            Some(k) => i <= k && matches_at(s@, k as int, p@) && forall|m: int|
                i <= m < k ==> !matches_at(s@, m, p@),
            None => forall|m: int| i <= m ==> !matches_at(s@, m, p@),
        },
{
    if i > s.len() {
        return None;
    }
    let mut k = i;
    loop
        invariant
            i <= k <= s@.len(),
            forall|m: int| i <= m < k ==> !matches_at(s@, m, p@),
        decreases s.len() - k,
    {
        if match_at(s, k, p) {
            return Some(k);
        }
        if k >= s.len() {
            return None;
        }
        k = k + 1;
    }
}

pub fn contains(s: &[char], p: &[char]) -> (b: bool)
    ensures
        b == spec_contains(s@, p@),
{
    match find_from(s, 0, p) {
        Some(k) => true,
        None => {
            assert forall|m: int| !matches_at(s@, m, p@) by {
                if m < 0 {
                }
            }
            false
        },
    }
}

/// `char::to_ascii_lowercase`.
pub open spec fn lower_char(c: char) -> char {
    if 65 <= (c as u32) && (c as u32) <= 90 {
        ((c as u32) + 32) as char
    } else {
        c
    }
}

/// Names the result of `str::to_lowercase` (Unicode's lower-case mapping).
pub uninterp spec fn lowercase_of(s: Seq<char>) -> Seq<char>;

/// `str::to_lowercase`. The contract only names the result: the Unicode mapping behind it
/// is not restated.
#[verifier::external_body]
pub(crate) fn lowercase(s: &str) -> (r: String)
    ensures
        r@ == lowercase_of(s@),
{
    s.to_lowercase()
}

pub open spec fn spec_lower(s: Seq<char>) -> Seq<char> {
    s.map_values(|c: char| lower_char(c))
}

pub fn to_lower_char(c: char) -> (r: char)
    ensures
        r == lower_char(c),
{
    if 65 <= (c as u32) && (c as u32) <= 90 {
        ((c as u8) + 32) as char
    } else {
        c
    }
}

/// `str::to_ascii_lowercase`.
pub fn to_lower(s: &[char]) -> (r: Vec<char>)
    ensures
        r@ == spec_lower(s@),
{
    let mut r: Vec<char> = Vec::new();
    let mut k: usize = 0;
    while k < s.len()
        invariant
            k <= s@.len(),
            r@ == spec_lower(s@.take(k as int)),
        decreases s.len() - k,
    {
        r.push(to_lower_char(s[k]));
        assert(spec_lower(s@.take(k + 1)) =~= spec_lower(s@.take(k as int)).push(lower_char(s@[k as int])));
        k = k + 1;
    }
    assert(s@.take(s@.len() as int) =~= s@);
    r
}


pub open spec fn is_digit(c: char) -> bool {
    48 <= (c as u32) && (c as u32) <= 57
}

pub open spec fn digit_value(c: char) -> nat {
    ((c as u32) - 48) as nat
}

pub open spec fn all_digits(s: Seq<char>) -> bool {
    forall|i: int| 0 <= i < s.len() ==> is_digit(#[trigger] s[i])
}

/// The number that a run of decimal digits spells.
pub open spec fn digits_value(s: Seq<char>) -> nat
    decreases s.len(),
{
    if s.len() == 0 {
        0
    } else {
        digits_value(s.drop_last()) * 10 + digit_value(s.last())
    }
}

/// What an unsigned integer's `from_str` reads: an optional `+`, then at least one digit.
pub open spec fn parse_nat(s: Seq<char>) -> Option<nat> {
    let body = if s.len() > 0 && s[0] == '+' {
        s.drop_first()
    } else {
        s
    };
    if body.len() > 0 && all_digits(body) {
        Some(digits_value(body))
    } else {
        None
    }
}

/// `str::parse::<u64>`.
pub open spec fn parse_u64_spec(s: Seq<char>) -> Option<u64> {
    match parse_nat(s) {
        Some(n) => if n <= u64::MAX {
            Some(n as u64)
        } else {
            None
        },
        None => None,
    }
}

/// `str::parse::<u32>`.
pub open spec fn parse_u32_spec(s: Seq<char>) -> Option<u32> {
    match parse_nat(s) {
        Some(n) => if n <= u32::MAX {
            Some(n as u32)
        } else {
            None
        },
        None => None,
    }
}

/// `str::parse::<u16>`.
pub open spec fn parse_u16_spec(s: Seq<char>) -> Option<u16> {
    match parse_nat(s) {
        Some(n) => if n <= u16::MAX {
            Some(n as u16)
        } else {
            None
        },
        None => None,
    }
}

/// `str::parse::<i32>`: an optional sign, then at least one digit, within range.
pub open spec fn parse_i32_spec(s: Seq<char>) -> Option<i32> {
    if s.len() > 0 && s[0] == '-' {
        let body = s.drop_first();
        if body.len() > 0 && all_digits(body) && digits_value(body) <= 0x8000_0000 {
            Some((0 - digits_value(body)) as i32)
        } else {
            None
        }
    } else {
        match parse_nat(s) {
            Some(n) => if n <= i32::MAX {
                Some(n as i32)
            } else {
                None
            },
            None => None,
        }
    }
}

proof fn lemma_digits_prefix_le(s: Seq<char>, k: int)
    requires
        0 <= k <= s.len(),
    ensures
        digits_value(s.take(k)) <= digits_value(s),
    decreases s.len(),
{
    if k < s.len() {
        assert(s.drop_last().take(k) =~= s.take(k));
        lemma_digits_prefix_le(s.drop_last(), k);
    } else {
        assert(s.take(k) =~= s);
    }
}

/// Value of the digits `s[start..end]` when they are all digits and the value fits in a `u64`.
fn digits_u64(s: &[char], start: usize, end: usize) -> (r: Option<u64>)
    requires
        start <= end <= s@.len(),
    ensures
        match r {
            Some(v) => all_digits(s@.subrange(start as int, end as int)) && v == digits_value(
                s@.subrange(start as int, end as int),
            ),
            None => !all_digits(s@.subrange(start as int, end as int)) || digits_value(
                s@.subrange(start as int, end as int),
            ) > u64::MAX,
        },
{
    let ghost b = s@.subrange(start as int, end as int);
    let mut acc: u64 = 0;
    let mut k = start;
    while k < end
        invariant
            start <= k <= end <= s@.len(),
            b == s@.subrange(start as int, end as int),
            all_digits(b.take(k - start)),
            acc == digits_value(b.take(k - start)),
        decreases end - k,
    {
        let c = s[k];
        let n = c as u32;
        if n < 48 || n > 57 {
            assert(b[k - start] == c);
            return None;
        }
        let d = (n - 48) as u64;
        let ghost t = b.take(k - start + 1);
        assert(t.drop_last() =~= b.take(k - start));
        assert(t.last() == c);
        if acc > (u64::MAX - d) / 10 {
            assert(digits_value(t) > u64::MAX) by (nonlinear_arith)
                requires
                    digits_value(t) == acc * 10 + d,
                    acc > (u64::MAX - d) / 10,
                    d <= 9,
            ;
            proof {
                if all_digits(b) {
                    lemma_digits_prefix_le(b, k - start + 1);
                }
            }
            return None;
        }
        assert(acc * 10 + d <= u64::MAX) by (nonlinear_arith)
            requires
                acc <= (u64::MAX - d) / 10,
                d <= 9,
        ;
        acc = acc * 10 + d;
        k = k + 1;
    }
    assert(b.take(end - start) =~= b);
    Some(acc)
}

/// `str::parse::<u64>` on `s[start..end]`.
pub fn parse_u64_range(s: &[char], start: usize, end: usize) -> (r: Option<u64>)
    requires
        start <= end <= s@.len(),
    ensures
        r == parse_u64_spec(s@.subrange(start as int, end as int)),
{
    let ghost t = s@.subrange(start as int, end as int);
    let mut a = start;
    if a < end && s[a] == '+' {
        a = a + 1;
    }
    let ghost body = if t.len() > 0 && t[0] == '+' {
        t.drop_first()
    } else {
        t
    };
    assert(body =~= s@.subrange(a as int, end as int));
    if a >= end {
        return None;
    }
    digits_u64(s, a, end)
}

pub fn parse_u64(s: &[char]) -> (r: Option<u64>)
    ensures
        r == parse_u64_spec(s@),
{
    assert(s@.subrange(0, s@.len() as int) =~= s@);
    parse_u64_range(s, 0, s.len())
}

pub fn parse_u32(s: &[char]) -> (r: Option<u32>)
    ensures
        r == parse_u32_spec(s@),
{
    match parse_u64(s) {
        Some(v) => if v <= u32::MAX as u64 {
            Some(v as u32)
        } else {
            None
        },
        None => {
            None
        },
    }
}

pub fn parse_u16(s: &[char]) -> (r: Option<u16>)
    ensures
        r == parse_u16_spec(s@),
{
    match parse_u64(s) {
        Some(v) => if v <= u16::MAX as u64 {
            Some(v as u16)
        } else {
            None
        },
        None => None,
    }
}

pub fn parse_i32(s: &[char]) -> (r: Option<i32>)
    ensures
        r == parse_i32_spec(s@),
{
    if s.len() > 0 && s[0] == '-' {
        assert(s@.drop_first() =~= s@.subrange(1, s@.len() as int));
        if s.len() == 1 {
            return None;
        }
        match digits_u64(s, 1, s.len()) {
            Some(v) => if v <= 0x8000_0000 {
                Some((0 - (v as i64)) as i32)
            } else {
                None
            },
            None => None,
        }
    } else {
        match parse_u64(s) {
            Some(v) => if v <= i32::MAX as u64 {
                Some(v as i32)
            } else {
                None
            },
            None => None,
        }
    }
}

pub open spec fn digit_char(d: nat) -> char {
    if d == 0 {
        '0'
    } else if d == 1 {
        '1'
    } else if d == 2 {
        '2'
    } else if d == 3 {
        '3'
    } else if d == 4 {
        '4'
    } else if d == 5 {
        '5'
    } else if d == 6 {
        '6'
    } else if d == 7 {
        '7'
    } else if d == 8 {
        '8'
    } else {
        '9'
    }
}

/// Decimal notation of a natural number, as `Display` writes it for unsigned integers.
pub open spec fn spec_decimal(n: nat) -> Seq<char>
    decreases n,
{
    if n < 10 {
        seq![digit_char(n)]
    } else {
        spec_decimal(n / 10).push(digit_char(n % 10))
    }
}

/// Decimal notation of an integer, with a leading `-` when negative.
pub open spec fn spec_signed_decimal(n: int) -> Seq<char> {
    if n < 0 {
        seq!['-'] + spec_decimal((0 - n) as nat)
    } else {
        spec_decimal(n as nat)
    }
}

pub fn digit_to_char(d: u64) -> (c: char)
    requires
        d < 10,
    ensures
        c == digit_char(d as nat),
{
    if d == 0 {
        '0'
    } else if d == 1 {
        '1'
    } else if d == 2 {
        '2'
    } else if d == 3 {
        '3'
    } else if d == 4 {
        '4'
    } else if d == 5 {
        '5'
    } else if d == 6 {
        '6'
    } else if d == 7 {
        '7'
    } else if d == 8 {
        '8'
    } else {
        '9'
    }
}

/// Appends the decimal notation of `n`.
pub fn push_decimal(out: &mut Vec<char>, n: u64)
    ensures
        final(out)@ == old(out)@ + spec_decimal(n as nat),
    decreases n,
{
    if n < 10 {
        out.push(digit_to_char(n));
        assert(old(out)@.push(digit_char(n as nat)) =~= old(out)@ + spec_decimal(n as nat));
    } else {
        push_decimal(out, n / 10);
        out.push(digit_to_char(n % 10));
        assert(old(out)@ + spec_decimal(n as nat) =~= old(out)@ + spec_decimal((n / 10) as nat)
            + seq![digit_char((n % 10) as nat)]);
    }
}

/// Appends the characters of `s`.
pub fn push_str(out: &mut Vec<char>, s: &str)
    ensures
        final(out)@ == old(out)@ + s@,
{
    let cs = chars_of(s);
    push_chars(out, &cs);
}

/// Appends the characters of `s`.
pub fn push_chars(out: &mut Vec<char>, s: &[char])
    ensures
        final(out)@ == old(out)@ + s@,
{
    let mut k: usize = 0;
    while k < s.len()
        invariant
            k <= s@.len(),
            out@ == old(out)@ + s@.take(k as int),
        decreases s.len() - k,
    {
        out.push(s[k]);
        assert(s@.take(k + 1) =~= s@.take(k as int).push(s@[k as int]));
        assert(old(out)@ + s@.take(k + 1) =~= (old(out)@ + s@.take(k as int)).push(s@[k as int]));
        k = k + 1;
    }
    assert(s@.take(s@.len() as int) =~= s@);
}

/// The decimal notation of `n` as a `String` (`u64::to_string`).
pub fn decimal_string(n: u64) -> (s: String)
    ensures
        s@ == spec_decimal(n as nat),
{
    let mut v: Vec<char> = Vec::new();
    push_decimal(&mut v, n);
    assert(v@ =~= spec_decimal(n as nat));
    string_of(&v)
}


/// One `String` per character vector.
pub fn strings_of(v: &Vec<Vec<char>>) -> (r: Vec<String>)
    ensures
        string_views(r@) == views(v@),
{
    let mut r: Vec<String> = Vec::new();
    let mut i: usize = 0;
    while i < v.len()
        invariant
            i <= v@.len(),
            string_views(r@) == views(v@.take(i as int)),
        decreases v.len() - i,
    {
        let ghost before = r@;
        let s = string_of(&v[i]);
        r.push(s);
        assert(string_views(r@) =~= string_views(before).push(s@));
        assert(views(v@.take(i + 1)) =~= views(v@.take(i as int)).push(v@[i as int]@));
        i = i + 1;
    }
    assert(v@.take(v@.len() as int) =~= v@);
    r
}

/// The lines of a string, each as a `String`.
pub fn line_strings(s: &str) -> (r: Vec<String>)
    ensures
        string_views(r@) == spec_lines(s@),
{
    let cs = chars_of(s);
    let ls = lines(&cs);
    strings_of(&ls)
}


/// Whether two character sequences are equal.
pub fn chars_eq(a: &[char], b: &[char]) -> (r: bool)
    ensures
        r == (a@ == b@),
{
    if a.len() != b.len() {
        return false;
    }
    let r = match_at(a, 0, b);
    proof {
        if r {
            assert(a@.subrange(0, b@.len() as int) =~= a@);
        } else {
            if a@ == b@ {
                assert(a@.subrange(0, b@.len() as int) =~= a@);
            }
        }
    }
    r
}

/// Whether a character sequence spells the given string.
pub fn equals_str(a: &[char], b: &str) -> (r: bool)
    ensures
        r == (a@ == b@),
{
    let bc = chars_of(b);
    chars_eq(a, &bc)
}

/// Whether a `String` spells the given string.
pub fn string_is(a: &String, b: &str) -> (r: bool)
    ensures
        r == (a@ == b@),
{
    let ac = chars_of(a.as_str());
    equals_str(&ac, b)
}


/// `str::strip_prefix`.
pub open spec fn spec_strip_prefix(s: Seq<char>, p: Seq<char>) -> Option<Seq<char>> {
    if spec_starts_with(s, p) {
        Some(s.skip(p.len() as int))
    } else {
        None
    }
}

pub fn strip_prefix(s: &[char], p: &str) -> (r: Option<Vec<char>>)
    ensures
        match r {
            Some(rest) => spec_strip_prefix(s@, p@) == Some(rest@),
            None => spec_strip_prefix(s@, p@) is None,
        },
{
    let pc = chars_of(p);
    if starts_with(s, &pc) {
        let rest = copy_range(s, pc.len(), s.len());
        assert(rest@ =~= s@.skip(p@.len() as int));
        Some(rest)
    } else {
        None
    }
}

/// Whether a character sequence begins with the given string.
pub fn starts_with_str(s: &[char], p: &str) -> (r: bool)
    ensures
        r == spec_starts_with(s@, p@),
{
    let pc = chars_of(p);
    starts_with(s, &pc)
}

/// Whether a character sequence ends with the given string.
pub fn ends_with_str(s: &[char], p: &str) -> (r: bool)
    ensures
        r == spec_ends_with(s@, p@),
{
    let pc = chars_of(p);
    ends_with(s, &pc)
}

/// Whether a character sequence contains the given string.
pub fn contains_str(s: &[char], p: &str) -> (r: bool)
    ensures
        r == spec_contains(s@, p@),
{
    let pc = chars_of(p);
    contains(s, &pc)
}

/// The trimmed text, as a `String`.
pub fn trimmed_string(s: &str) -> (r: String)
    ensures
        r@ == spec_trim(s@),
{
    let cs = chars_of(s);
    let t = trim(&cs);
    string_of(&t)
}


/// First index at or after `i` where `p` occurs, or -1 when it does not.
pub open spec fn find_pat(s: Seq<char>, p: Seq<char>, i: int) -> int
    decreases s.len() + 1 - i,
{
    if i < 0 || i > s.len() {
        -1
    } else if matches_at(s, i, p) {
        i
    } else {
        find_pat(s, p, i + 1)
    }
}

pub proof fn lemma_find_pat(s: Seq<char>, p: Seq<char>, i: int)
    requires
        0 <= i <= s.len(),
    ensures
        find_pat(s, p, i) == -1 || (i <= find_pat(s, p, i) <= s.len() && matches_at(s, find_pat(s, p, i), p)),
    decreases s.len() + 1 - i,
{
    if !matches_at(s, i, p) {
        if i < s.len() {
            lemma_find_pat(s, p, i + 1);
        } else {
            assert(find_pat(s, p, i + 1) == -1);
        }
    }
}

pub fn find_pattern(s: &[char], i: usize, p: &[char]) -> (r: Option<usize>)
    requires
        i <= s@.len(),
    ensures
        match r {
            Some(k) => find_pat(s@, p@, i as int) == k && i <= k <= s@.len() && matches_at(s@, k as int, p@),
            None => find_pat(s@, p@, i as int) == -1,
        },
{
    let mut k = i;
    loop
        invariant
            i <= k <= s@.len(),
            find_pat(s@, p@, k as int) == find_pat(s@, p@, i as int),
        decreases s.len() - k,
    {
        if match_at(s, k, p) {
            return Some(k);
        }
        if k >= s.len() {
            assert(find_pat(s@, p@, k + 1) == -1);
            return None;
        }
        k = k + 1;
    }
}

/// The second piece of `str::split(p)` (`split(p).nth(1)`), for a non-empty `p`.
pub open spec fn split_second(s: Seq<char>, p: Seq<char>) -> Option<Seq<char>> {
    let k = find_pat(s, p, 0);
    if k < 0 {
        None
    } else {
        let start = k + p.len();
        let k2 = find_pat(s, p, start);
        Some(s.subrange(start, if k2 < 0 { s.len() as int } else { k2 }))
    }
}

pub fn split_second_of(s: &[char], p: &str) -> (r: Option<Vec<char>>)
    requires
        p@.len() > 0,
    ensures
        match r {
            Some(v) => split_second(s@, p@) == Some(v@),
            None => split_second(s@, p@) is None,
        },
{
    let pc = chars_of(p);
    match find_pattern(s, 0, &pc) {
        None => None,
        Some(k) => {
            assert(k + pc@.len() <= s@.len());
            assert(s@.len() == s.len());
            let start = k + pc.len();
            match find_pattern(s, start, &pc) {
                Some(k2) => Some(copy_range(s, start, k2)),
                None => Some(copy_range(s, start, s.len())),
            }
        },
    }
}

pub open spec fn is_ascii_digit(c: char) -> bool {
    48 <= (c as u32) && (c as u32) <= 57
}

/// First index at or after `i` that is not an ASCII digit, or `s.len()`.
pub open spec fn digit_run(s: Seq<char>, i: int) -> int
    decreases s.len() - i,
{
    if i >= s.len() {
        s.len() as int
    } else if !is_ascii_digit(s[i]) {
        i
    } else {
        digit_run(s, i + 1)
    }
}

pub fn digit_run_end(s: &[char], i: usize) -> (r: usize)
    requires
        i <= s@.len(),
    ensures
        r == digit_run(s@, i as int),
        i <= r <= s@.len(),
{
    let mut j = i;
    while j < s.len() && 48 <= (s[j] as u32) && (s[j] as u32) <= 57
        invariant
            i <= j <= s@.len(),
            digit_run(s@, j as int) == digit_run(s@, i as int),
        decreases s.len() - j,
    {
        j = j + 1;
    }
    j
}

/// Last index of `c` in `s`, or -1.
pub open spec fn last_index_of(s: Seq<char>, c: char, e: int) -> int
    decreases e,
{
    if e <= 0 {
        -1
    } else if s[e - 1] == c {
        e - 1
    } else {
        last_index_of(s, c, e - 1)
    }
}

pub fn rfind_char(s: &[char], c: char) -> (r: Option<usize>)
    ensures
        match r {
            Some(k) => last_index_of(s@, c, s@.len() as int) == k && k < s@.len() && s@[k as int] == c,
            None => last_index_of(s@, c, s@.len() as int) == -1,
        },
{
    let mut e = s.len();
    while e > 0
        invariant
            e <= s@.len(),
            last_index_of(s@, c, e as int) == last_index_of(s@, c, s@.len() as int),
        decreases e,
    {
        if s[e - 1] == c {
            return Some(e - 1);
        }
        e = e - 1;
    }
    None
}

/// `str::trim_matches(c)`: without leading and trailing occurrences of `c`.
pub open spec fn spec_trim_char(s: Seq<char>, c: char) -> Seq<char> {
    let a = lead_char(s, c, 0);
    let b = trail_char(s, c, s.len() as int);
    if a < b {
        s.subrange(a, b)
    } else {
        Seq::empty()
    }
}

pub open spec fn lead_char(s: Seq<char>, c: char, i: int) -> int
    decreases s.len() - i,
{
    if i >= s.len() {
        s.len() as int
    } else if s[i] != c {
        i
    } else {
        lead_char(s, c, i + 1)
    }
}

pub open spec fn trail_char(s: Seq<char>, c: char, e: int) -> int
    decreases e,
{
    if e <= 0 {
        0
    } else if s[e - 1] != c {
        e
    } else {
        trail_char(s, c, e - 1)
    }
}

pub fn trim_char(s: &[char], c: char) -> (r: Vec<char>)
    ensures
        r@ == spec_trim_char(s@, c),
{
    let mut a: usize = 0;
    while a < s.len() && s[a] == c
        invariant
            a <= s@.len(),
            lead_char(s@, c, a as int) == lead_char(s@, c, 0),
        decreases s.len() - a,
    {
        a = a + 1;
    }
    let mut b = s.len();
    while b > 0 && s[b - 1] == c
        invariant
            b <= s@.len(),
            trail_char(s@, c, b as int) == trail_char(s@, c, s@.len() as int),
        decreases b,
    {
        b = b - 1;
    }
    if a < b {
        copy_range(s, a, b)
    } else {
        let r: Vec<char> = Vec::new();
        assert(r@ =~= Seq::<char>::empty());
        r
    }
}

/// `str::trim_end_matches(c)`.
pub open spec fn spec_trim_end_char(s: Seq<char>, c: char) -> Seq<char> {
    s.subrange(0, trail_char(s, c, s.len() as int))
}

pub fn trim_end_char(s: &[char], c: char) -> (r: Vec<char>)
    ensures
        r@ == spec_trim_end_char(s@, c),
{
    let mut b = s.len();
    while b > 0 && s[b - 1] == c
        invariant
            b <= s@.len(),
            trail_char(s@, c, b as int) == trail_char(s@, c, s@.len() as int),
        decreases b,
    {
        b = b - 1;
    }
    proof {
        assert(0 <= trail_char(s@, c, s@.len() as int) <= s@.len()) by {
            lemma_trail_char(s@, c, s@.len() as int);
        }
    }
    copy_range(s, 0, b)
}

pub proof fn lemma_trail_char(s: Seq<char>, c: char, e: int)
    requires
        0 <= e <= s.len(),
    ensures
        0 <= trail_char(s, c, e) <= e,
    decreases e,
{
    if e > 0 && s[e - 1] == c {
        lemma_trail_char(s, c, e - 1);
    }
}

/// The text before the first occurrence of `c` (`split(c).next()`).
pub open spec fn before_char(s: Seq<char>, c: char) -> Seq<char> {
    s.subrange(0, next_index_of(s, 0, c))
}

pub fn prefix_before(s: &[char], c: char) -> (r: Vec<char>)
    ensures
        r@ == before_char(s@, c),
{
    let e = find_char_from(s, 0, c);
    copy_range(s, 0, e)
}


/// Lexicographic order of texts by code point, as `String`'s `Ord` compares them.
pub open spec fn lex_lt(a: Seq<char>, b: Seq<char>) -> bool
    decreases a.len(),
{
    if b.len() == 0 {
        false
    } else if a.len() == 0 {
        true
    } else if a[0] != b[0] {
        (a[0] as u32) < (b[0] as u32)
    } else {
        lex_lt(a.drop_first(), b.drop_first())
    }
}

pub fn less_than(a: &[char], b: &[char]) -> (r: bool)
    ensures
        r == lex_lt(a@, b@),
{
    let mut i: usize = 0;
    assert(a@.skip(0) =~= a@);
    assert(b@.skip(0) =~= b@);
    while i < a.len() && i < b.len() && a[i] == b[i]
        invariant
            i <= a@.len(),
            i <= b@.len(),
            lex_lt(a@, b@) == lex_lt(a@.skip(i as int), b@.skip(i as int)),
        decreases a.len() - i,
    {
        assert(a@.skip(i as int).drop_first() =~= a@.skip(i + 1));
        assert(b@.skip(i as int).drop_first() =~= b@.skip(i + 1));
        i = i + 1;
    }
    if i >= b.len() {
        false
    } else if i >= a.len() {
        true
    } else {
        (a[i] as u32) < (b[i] as u32)
    }
}

} // verus!
