//! Colors: reading a `#RRGGBB` hex color.
use crate::text::{chars_of, string_of};
use vstd::prelude::*;

verus! {

/// Bytes the UTF-8 encoding of a character takes.
pub open spec fn utf8_width(c: char) -> nat {
    if (c as u32) < 0x80 {
        1
    } else if (c as u32) < 0x800 {
        2
    } else if (c as u32) < 0x10000 {
        3
    } else {
        4
    }
}

/// Bytes the UTF-8 encoding of a text takes.
pub open spec fn byte_len(s: Seq<char>) -> nat
    decreases s.len(),
{
    if s.len() == 0 {
        0
    } else {
        byte_len(s.drop_last()) + utf8_width(s.last())
    }
}

/// Whether byte offset `k` of a text falls between two characters.
pub open spec fn char_boundary(s: Seq<char>, k: nat) -> bool {
    exists|i: int| 0 <= i <= s.len() && #[trigger] byte_len(s.take(i)) == k
}

/// The text without its leading `#` characters.
pub open spec fn without_hashes(s: Seq<char>) -> Seq<char>
    decreases s.len(),
{
    if s.len() > 0 && s[0] == '#' {
        without_hashes(s.drop_first())
    } else {
        s
    }
}

pub open spec fn hex_value(c: char) -> Option<nat> {
    if '0' <= c && c <= '9' {
        Some((c as u32 - '0' as u32) as nat)
    } else if 'a' <= c && c <= 'f' {
        Some((c as u32 - 'a' as u32 + 10) as nat)
    } else if 'A' <= c && c <= 'F' {
        Some((c as u32 - 'A' as u32 + 10) as nat)
    } else {
        None
    }
}

/// What `u8::from_str_radix(piece, 16)` gives for a piece of at most two characters: an
/// optional `+`, then hex digits; the error texts are those of `ParseIntError`.
pub open spec fn hex_byte(p: Seq<char>) -> Result<u8, Seq<char>> {
    let body = if p.len() > 0 && p[0] == '+' {
        p.drop_first()
    } else {
        p
    };
    if p.len() == 0 {
        Err("cannot parse integer from empty string"@)
    } else if body.len() == 0 {
        Err("invalid digit found in string"@)
    } else if body.len() == 1 && hex_value(body[0]) is Some {
        Ok(hex_value(body[0])->0 as u8)
    } else if body.len() == 2 && hex_value(body[0]) is Some && hex_value(body[1]) is Some {
        Ok((hex_value(body[0])->0 * 16 + hex_value(body[1])->0) as u8)
    } else {
        Err("invalid digit found in string"@)
    }
}

/// The color a hex text names: `#` characters in front are dropped, six bytes must remain,
/// read as three two-byte hex numbers.
pub open spec fn color_of(s: Seq<char>) -> Result<(u8, u8, u8), Seq<char>> {
    let h = without_hashes(s);
    if byte_len(h) != 6 {
        Err("Hex color must be 6 characters (e.g. #FFFFFF)"@)
    } else {
        let i2 = choose|i: int| 0 <= i <= h.len() && byte_len(h.take(i)) == 2;
        let i4 = choose|i: int| 0 <= i <= h.len() && byte_len(h.take(i)) == 4;
        match hex_byte(h.take(i2)) {
            Err(e) => Err(e),
            Ok(r) => match hex_byte(h.subrange(i2, i4)) {
                Err(e) => Err(e),
                Ok(g) => match hex_byte(h.skip(i4)) {
                    Err(e) => Err(e),
                    Ok(b) => Ok((r, g, b)),
                },
            },
        }
    }
}

fn width_of(c: char) -> (w: usize)
    ensures
        w == utf8_width(c),
{
    let n = c as u32;
    if n < 0x80 {
        1
    } else if n < 0x800 {
        2
    } else if n < 0x10000 {
        3
    } else {
        4
    }
}

fn hex_digit(c: char) -> (r: Option<u8>)
    ensures
        match r {
            Some(v) => hex_value(c) == Some(v as nat),
            None => hex_value(c) is None,
        },
{
    if '0' <= c && c <= '9' {
        Some((c as u32 - '0' as u32) as u8)
    } else if 'a' <= c && c <= 'f' {
        Some((c as u32 - 'a' as u32 + 10) as u8)
    } else if 'A' <= c && c <= 'F' {
        Some((c as u32 - 'A' as u32 + 10) as u8)
    } else {
        None
    }
}

fn hex_byte_of(p: &[char]) -> (r: Result<u8, String>)
    requires
        p@.len() <= 2,
    ensures
        match r {
            Ok(v) => hex_byte(p@) == Ok::<u8, Seq<char>>(v),
            Err(e) => hex_byte(p@) == Err::<u8, Seq<char>>(e@),
        },
{
    if p.len() == 0 {
        return Err(string_of(&chars_of("cannot parse integer from empty string")));
    }
    let start: usize = if p[0] == '+' {
        1
    } else {
        0
    };
    let ghost body = if p@.len() > 0 && p@[0] == '+' {
        p@.drop_first()
    } else {
        p@
    };
    assert(body =~= p@.skip(start as int));
    let n = p.len() - start;
    if n == 0 {
        return Err(string_of(&chars_of("invalid digit found in string")));
    }
    if n == 1 {
        match hex_digit(p[start]) {
            Some(v) => {
                return Ok(v);
            },
            None => {},
        }
    } else {
        match (hex_digit(p[start]), hex_digit(p[start + 1])) {
            (Some(a), Some(b)) => {
                return Ok(a * 16 + b);
            },
            _ => {},
        }
    }
    Err(string_of(&chars_of("invalid digit found in string")))
}

proof fn lemma_byte_len_take_step(s: Seq<char>, i: int)
    requires
        0 <= i < s.len(),
    ensures
        byte_len(s.take(i + 1)) == byte_len(s.take(i)) + utf8_width(s[i]),
{
    assert(s.take(i + 1).drop_last() =~= s.take(i));
}

proof fn lemma_byte_len_monotone(s: Seq<char>, i: int, j: int)
    requires
        0 <= i <= j <= s.len(),
    ensures
        byte_len(s.take(i)) + (j - i) <= byte_len(s.take(j)),
    decreases j - i,
{
    if i < j {
        lemma_byte_len_monotone(s, i, j - 1);
        lemma_byte_len_take_step(s, j - 1);
    }
}

proof fn lemma_byte_len_unique(s: Seq<char>, i: int, j: int)
    requires
        0 <= i <= s.len(),
        0 <= j <= s.len(),
        byte_len(s.take(i)) == byte_len(s.take(j)),
    ensures
        i == j,
{
    if i < j {
        lemma_byte_len_monotone(s, i + 1, j);
        lemma_byte_len_take_step(s, i);
    }
    if j < i {
        lemma_byte_len_monotone(s, j + 1, i);
        lemma_byte_len_take_step(s, j);
    }
}

fn strip_hashes(s: &[char]) -> (r: Vec<char>)
    ensures
        r@ == without_hashes(s@),
{
    let mut a: usize = 0;
    assert(s@.skip(0) =~= s@);
    while a < s.len() && s[a] == '#'
        invariant
            a <= s@.len(),
            without_hashes(s@) == without_hashes(s@.skip(a as int)),
        decreases s.len() - a,
    {
        assert(s@.skip(a as int).drop_first() =~= s@.skip(a + 1));
        a = a + 1;
    }
    let h = crate::text::copy_range(s, a, s.len());
    assert(h@ =~= s@.skip(a as int));
    h
}

/// Whether a text takes six bytes, and the character positions at byte 2 and byte 4.
fn six_byte_split(h: &[char]) -> (r: (bool, usize, usize))
    ensures
        r.0 == (byte_len(h@) == 6),
        r.0 && char_boundary(h@, 2) && char_boundary(h@, 4) ==> r.1 <= r.2 <= h@.len() && byte_len(h@.take(r.1 as int))
            == 2 && byte_len(h@.take(r.2 as int)) == 4,
{
    let mut total: usize = 0;
    let mut i2: usize = 0;
    let mut i4: usize = 0;
    let mut found2 = false;
    let mut found4 = false;
    let mut k: usize = 0;
    while k < h.len() && total <= 6
        invariant
            k <= h@.len(),
            total == byte_len(h@.take(k as int)),
            total <= 10,
            found2 ==> i2 <= k && byte_len(h@.take(i2 as int)) == 2,
            found4 ==> i4 <= k && byte_len(h@.take(i4 as int)) == 4,
            !found2 ==> forall|j: int| 0 <= j <= k ==> byte_len(#[trigger] h@.take(j)) != 2,
            !found4 ==> forall|j: int| 0 <= j <= k ==> byte_len(#[trigger] h@.take(j)) != 4,
        decreases h.len() - k,
    {
        proof {
            lemma_byte_len_take_step(h@, k as int);
        }
        let w = width_of(h[k]);
        total = total + w;
        k = k + 1;
        if total == 2 && !found2 {
            i2 = k;
            found2 = true;
        }
        if total == 4 && !found4 {
            i4 = k;
            found4 = true;
        }
    }
    proof {
        assert(h@.take(h@.len() as int) =~= h@);
        if k < h@.len() {
            lemma_byte_len_monotone(h@, k as int, h@.len() as int);
        }
        if total == 6 && k == h@.len() {
            if found2 && found4 {
                if i4 < i2 {
                    lemma_byte_len_monotone(h@, i4 as int, i2 as int);
                }
            }
        }
    }
    let six = k == h.len() && total == 6;
    (six, i2, i4)
}

/// Reads a `#RRGGBB` color (see `color_of`). Texts of six bytes with a character across
/// byte 2 or byte 4 are left out: the slicing there panics.
pub fn parse_color(hex: &str) -> (r: Result<(u8, u8, u8), String>)
    requires
        byte_len(without_hashes(hex@)) == 6 ==> char_boundary(without_hashes(hex@), 2) && char_boundary(
            without_hashes(hex@),
            4,
        ),
    ensures
        match r {
            Ok(c) => color_of(hex@) == Ok::<(u8, u8, u8), Seq<char>>(c),
            Err(e) => color_of(hex@) == Err::<(u8, u8, u8), Seq<char>>(e@),
        },
{
    let h = strip_hashes(&chars_of(hex));
    let (six, i2, i4) = six_byte_split(&h);
    if !six {
        return Err(string_of(&chars_of("Hex color must be 6 characters (e.g. #FFFFFF)")));
    }
    let ghost hv = h@;
    proof {
        let j2 = choose|i: int| 0 <= i <= hv.len() && byte_len(hv.take(i)) == 2;
        let j4 = choose|i: int| 0 <= i <= hv.len() && byte_len(hv.take(i)) == 4;
        lemma_byte_len_unique(hv, j2, i2 as int);
        lemma_byte_len_unique(hv, j4, i4 as int);
        lemma_byte_len_monotone(hv, 0, i2 as int);
        lemma_byte_len_monotone(hv, i2 as int, i4 as int);
        lemma_byte_len_monotone(hv, i4 as int, hv.len() as int);
        assert(hv.take(hv.len() as int) =~= hv);
    }
    let p1 = crate::text::copy_range(&h, 0, i2);
    let p2 = crate::text::copy_range(&h, i2, i4);
    let p3 = crate::text::copy_range(&h, i4, h.len());
    assert(p1@ =~= hv.take(i2 as int));
    assert(p3@ =~= hv.skip(i4 as int));
    let r = match hex_byte_of(&p1) {
        Err(e) => {
            return Err(e);
        },
        Ok(v) => v,
    };
    let g = match hex_byte_of(&p2) {
        Err(e) => {
            return Err(e);
        },
        Ok(v) => v,
    };
    let b = match hex_byte_of(&p3) {
        Err(e) => {
            return Err(e);
        },
        Ok(v) => v,
    };
    Ok((r, g, b))
}

} // verus!
