//! The explanation behind the error-spike alert: the word that recurs most in the recent
//! error lines of all log sources.
use crate::app::{UiState, UiStateView, opt_view};
use crate::logview::{error_count, is_error_line, is_error_text};
use crate::text::{
    chars_eq, chars_of, lowercase, lowercase_of, push_chars, push_str, spec_words, string_of,
    string_views, views, words,
};
use vstd::prelude::*;

verus! {

/// Names the answer of `char::is_alphabetic` (Unicode's Alphabetic property).
pub uninterp spec fn alphabetic(c: char) -> bool;

/// `char::is_alphabetic`. The contract only names the answer: the Unicode tables behind it
/// are not restated.
#[verifier::external_body]
fn is_alphabetic(c: char) -> (b: bool)
    ensures
        b == alphabetic(c),
{
    c.is_alphabetic()
}

/// How many bytes UTF-8 spends on a character.
pub open spec fn utf8_width(c: char) -> nat {
    if (c as u32) < 0x80 {
        1
    } else if (c as u32) < 0x800 {
        2
    } else if (c as u32) < 0x10000 {
        3
    } else {
        4
    }
}

/// The UTF-8 length of a text, in bytes.
pub open spec fn utf8_len(s: Seq<char>) -> nat
    decreases s.len(),
{
    if s.len() == 0 {
        0
    } else {
        utf8_len(s.drop_last()) + utf8_width(s.last())
    }
}

/// Whether a word counts as a keyword: longer than four bytes and alphabetic throughout.
pub open spec fn keyword_candidate(w: Seq<char>) -> bool {
    utf8_len(w) > 4 && forall|k: int| 0 <= k < w.len() ==> alphabetic(#[trigger] w[k])
}

/// The keywords among some words, lower-cased, in order.
pub open spec fn keywords_of_words(ws: Seq<Seq<char>>) -> Seq<Seq<char>>
    decreases ws.len(),
{
    if ws.len() == 0 {
        Seq::empty()
    } else {
        keywords_of_words(ws.drop_last()) + if keyword_candidate(ws.last()) {
            seq![lowercase_of(ws.last())]
        } else {
            Seq::empty()
        }
    }
}

/// The keywords of the error lines among some lines, line after line.
pub open spec fn error_keywords(lines: Seq<Seq<char>>) -> Seq<Seq<char>>
    decreases lines.len(),
{
    if lines.len() == 0 {
        Seq::empty()
    } else {
        error_keywords(lines.drop_last()) + if is_error_text(lines.last()) {
            keywords_of_words(spec_words(lines.last()))
        } else {
            Seq::empty()
        }
    }
}

/// How often a word occurs in a sequence of words.
pub open spec fn occurrences(ks: Seq<Seq<char>>, w: Seq<char>) -> nat
    decreases ks.len(),
{
    if ks.len() == 0 {
        0
    } else {
        occurrences(ks.drop_last(), w) + if ks.last() == w {
            1nat
        } else {
            0nat
        }
    }
}

/// Whether the word at `i` occurs at least as often as every other word of `ks`.
pub open spec fn is_top_keyword(ks: Seq<Seq<char>>, i: int) -> bool {
    forall|j: int| 0 <= j < ks.len() ==> occurrences(ks, #[trigger] ks[j]) <= occurrences(ks, ks[i])
}

/// The lines of all sources, journal first, then syslog, then the kernel ring.
pub open spec fn all_log_lines(s: UiStateView) -> Seq<Seq<char>> {
    string_views(s.logs_journal@) + string_views(s.logs_syslog@) + string_views(s.logs_dmesg@)
}

pub open spec fn surge_text(w: Seq<char>) -> Seq<char> {
    "surge in errors containing '"@ + w + "'"@
}

/// What may explain an error spike in some lines: nothing with fewer than twenty lines or
/// fewer than six error lines in the newer half; else a most frequent keyword of those
/// error lines, or a general note where none of their words is a keyword. Which of several
/// equally frequent keywords is named is left open.
pub open spec fn spike_explanation_fits(lines: Seq<Seq<char>>, r: Option<Seq<char>>) -> bool {
    let newer = lines.skip((lines.len() / 2) as int);
    let ks = error_keywords(newer);
    if lines.len() < 20 || error_count(newer) < 6 {
        r is None
    } else if ks.len() == 0 {
        r == Some("unusually high error frequency"@)
    } else {
        exists|i: int| 0 <= i < ks.len() && is_top_keyword(ks, i) && r == Some(surge_text(ks[i]))
    }
}

fn utf8_width_of(c: char) -> (n: usize)
    ensures
        n == utf8_width(c),
{
    let v = c as u32;
    if v < 0x80 {
        1
    } else if v < 0x800 {
        2
    } else if v < 0x10000 {
        3
    } else {
        4
    }
}

/// Whether a word counts as a keyword (see `keyword_candidate`).
fn is_keyword_candidate(w: &[char]) -> (b: bool)
    ensures
        b == keyword_candidate(w@),
{
    let mut bytes: usize = 0;
    let mut all_alpha = true;
    let mut i: usize = 0;
    while i < w.len()
        invariant
            i <= w@.len(),
            bytes <= 8,
            bytes <= 4 ==> bytes == utf8_len(w@.take(i as int)),
            (bytes > 4) == (utf8_len(w@.take(i as int)) > 4),
            all_alpha == (forall|k: int| 0 <= k < i ==> alphabetic(#[trigger] w@[k])),
        decreases w.len() - i,
    {
        assert(w@.take(i + 1).drop_last() =~= w@.take(i as int));
        assert(w@.take(i + 1).last() == w@[i as int]);
        if bytes <= 4 {
            bytes = bytes + utf8_width_of(w[i]);
        }
        let a = is_alphabetic(w[i]);
        all_alpha = all_alpha && a;
        i = i + 1;
    }
    assert(w@.take(w@.len() as int) =~= w@);
    bytes > 4 && all_alpha
}

/// Appends the keywords among the words of a line, lower-cased.
fn push_line_keywords(keys: &mut Vec<Vec<char>>, line: &str)
    ensures
        views(final(keys)@) == views(old(keys)@) + keywords_of_words(spec_words(line@)),
{
    let cs = chars_of(line);
    let ws = words(&cs);
    let ghost start = views(keys@);
    let ghost all = views(ws@);
    let mut i: usize = 0;
    while i < ws.len()
        invariant
            i <= ws@.len(),
            all == views(ws@),
            views(keys@) == start + keywords_of_words(all.take(i as int)),
        decreases ws.len() - i,
    {
        assert(all.take(i + 1).drop_last() =~= all.take(i as int));
        assert(all.take(i + 1).last() == ws@[i as int]@);
        if is_keyword_candidate(ws[i].as_slice()) {
            let word = string_of(ws[i].as_slice());
            let low = lowercase(word.as_str());
            let lc = chars_of(low.as_str());
            let ghost before = keys@;
            keys.push(lc);
            assert(views(keys@) =~= views(before).push(lc@));
            assert(views(keys@) =~= start + keywords_of_words(all.take(i + 1)));
        } else {
            assert(keywords_of_words(all.take(i + 1)) =~= keywords_of_words(all.take(i as int)));
        }
        i = i + 1;
    }
    assert(all.take(ws@.len() as int) =~= all);
}

/// Counts how often a word occurs among the keywords.
fn count_occurrences(keys: &Vec<Vec<char>>, w: &Vec<char>) -> (n: usize)
    ensures
        n == occurrences(views(keys@), w@),
{
    let ghost ks = views(keys@);
    let mut n: usize = 0;
    let mut j: usize = 0;
    while j < keys.len()
        invariant
            j <= keys@.len(),
            ks == views(keys@),
            n <= j,
            n == occurrences(ks.take(j as int), w@),
        decreases keys.len() - j,
    {
        assert(ks.take(j + 1).drop_last() =~= ks.take(j as int));
        assert(ks.take(j + 1).last() == keys@[j as int]@);
        if chars_eq(keys[j].as_slice(), w.as_slice()) {
            n = n + 1;
        }
        j = j + 1;
    }
    assert(ks.take(keys@.len() as int) =~= ks);
    n
}

/// The line at position `k` of the three sources taken one after the other.
fn line_at<'a>(a: &'a Vec<String>, b: &'a Vec<String>, c: &'a Vec<String>, k: u128) -> (r:
    &'a String)
    requires
        k < a@.len() + b@.len() + c@.len(),
    ensures
        r@ == (string_views(a@) + string_views(b@) + string_views(c@))[k as int],
{
    let ghost sa = string_views(a@);
    let ghost sb = string_views(b@);
    let ghost sc = string_views(c@);
    let na = a.len() as u128;
    let nb = b.len() as u128;
    if k < na {
        assert((sa + sb + sc)[k as int] == sa[k as int]);
        &a[k as usize]
    } else if k - na < nb {
        assert((sa + sb + sc)[k as int] == sb[k - na]);
        &b[(k - na) as usize]
    } else {
        let nc = c.len();
        assert(k - na - nb < nc);
        let m = (k - na - nb) as usize;
        assert((sa + sb + sc)[k as int] == sc[m as int]);
        &c[m]
    }
}

impl UiState {
    /// What may explain an error spike in the loaded log lines (see `spike_explanation_fits`).
    pub fn log_error_spike_explanation(&self) -> (r: Option<String>)
        ensures
            spike_explanation_fits(all_log_lines(self@), opt_view(r)),
    {
        let ghost lines = all_log_lines(self@);
        let total = self.logs_journal.len() as u128 + self.logs_syslog.len() as u128
            + self.logs_dmesg.len() as u128;
        if total < 20 {
            return None;
        }
        let split = total / 2;
        let ghost newer = lines.skip(split as int);
        let mut k = split;
        let mut errors: u128 = 0;
        let mut keys: Vec<Vec<char>> = Vec::new();
        while k < total
            invariant
                lines == all_log_lines(self@),
                total == lines.len(),
                split <= k <= total,
                errors <= k - split,
                errors == error_count(lines.subrange(split as int, k as int)),
                views(keys@) == error_keywords(lines.subrange(split as int, k as int)),
            decreases total - k,
        {
            let line = line_at(&self.logs_journal, &self.logs_syslog, &self.logs_dmesg, k);
            let ghost seen = lines.subrange(split as int, k as int);
            assert(lines.subrange(split as int, k + 1).drop_last() =~= seen);
            assert(lines.subrange(split as int, k + 1).last() == line@);
            if is_error_line(line.as_str()) {
                errors = errors + 1;
                push_line_keywords(&mut keys, line.as_str());
            }
            k = k + 1;
        }
        assert(lines.subrange(split as int, total as int) =~= newer);
        if errors < 6 {
            return None;
        }
        let ghost ks = views(keys@);
        if keys.len() == 0 {
            let mut out: Vec<char> = Vec::new();
            push_str(&mut out, "unusually high error frequency");
            return Some(string_of(&out));
        }
        let mut best: usize = 0;
        let mut best_count = count_occurrences(&keys, &keys[0]);
        let mut i: usize = 1;
        while i < keys.len()
            invariant
                ks == views(keys@),
                1 <= i <= keys@.len(),
                best < keys@.len(),
                best_count == occurrences(ks, ks[best as int]),
                forall|j: int| 0 <= j < i ==> occurrences(ks, #[trigger] ks[j]) <= best_count,
            decreases keys.len() - i,
        {
            let c = count_occurrences(&keys, &keys[i]);
            if c > best_count {
                best = i;
                best_count = c;
            }
            i = i + 1;
        }
        let mut out: Vec<char> = Vec::new();
        push_str(&mut out, "surge in errors containing '");
        push_chars(&mut out, keys[best].as_slice());
        push_str(&mut out, "'");
        assert(out@ =~= surge_text(ks[best as int]));
        assert(is_top_keyword(ks, best as int));
        Some(string_of(&out))
    }
}

} // verus!
