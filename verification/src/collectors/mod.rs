//! Shared formatting utilities and the collectors that parse system tools' output.
pub mod containers;
pub mod gpuprocs;
pub mod host;
pub mod logs;
pub mod netstat;
pub mod plugin;
pub mod procs;
pub mod provider;
pub mod storage;
pub mod systemd;

use crate::app::Tab;
use crate::text::{chars_of, digit_char, digit_to_char, push_decimal, push_str, spec_decimal, string_of};
use vstd::prelude::*;

verus! {

/// Largest integer that an `f64` holds exactly along with all smaller ones.
pub open spec fn f64_exact_limit() -> nat {
    0x20_0000_0000_0000
}

/// Smallest `p * 2^k` (k >= 0) by which `n` divides to below 2^53.
pub open spec fn mantissa_scale(n: nat, p: nat) -> nat
    decreases n / p,
    when p > 0
{
    if n / p < f64_exact_limit() {
        p
    } else {
        proof {
            assert(n / (p * 2) < n / p) by (nonlinear_arith)
                requires
                    p > 0,
                    n / p >= 1,
            {
                vstd::arithmetic::div_mod::lemma_div_denominator(n as int, p as int, 2);
            }
        }
        mantissa_scale(n, p * 2)
    }
}

/// Whether dividing `a` by `d` rounds up under round-half-to-even.
pub open spec fn rounds_up(a: nat, d: nat) -> bool {
    2 * (a % d) > d || (2 * (a % d) == d && (a / d) % 2 == 1)
}

/// `a / d` rounded to the nearest integer, ties to even.
pub open spec fn div_round_even(a: nat, d: nat) -> nat {
    if rounds_up(a, d) {
        a / d + 1
    } else {
        a / d
    }
}

/// The value that `n as f64` holds: `n` rounded to 53 significant bits, ties to even.
pub open spec fn f64_of_u64(n: nat) -> nat {
    let p = mantissa_scale(n, 1);
    div_round_even(n, p) * p
}

/// 1024 raised to `u`.
pub open spec fn pow1024(u: nat) -> nat
    decreases u,
{
    if u == 0 {
        1
    } else {
        1024 * pow1024((u - 1) as nat)
    }
}

/// How many times `format_bytes` divides by 1024 (at most four times, up to TB).
pub open spec fn byte_unit(b: nat) -> nat {
    if b >= pow1024(4) {
        4
    } else if b >= pow1024(3) {
        3
    } else if b >= pow1024(2) {
        2
    } else if b >= pow1024(1) {
        1
    } else {
        0
    }
}

pub open spec fn unit_name(u: nat) -> Seq<char> {
    if u == 0 {
        seq!['B']
    } else if u == 1 {
        seq!['K', 'B']
    } else if u == 2 {
        seq!['M', 'B']
    } else if u == 3 {
        seq!['G', 'B']
    } else {
        seq!['T', 'B']
    }
}

/// A count of tenths written with one decimal place, e.g. 15 as "1.5".
pub open spec fn tenths_text(t: nat) -> Seq<char> {
    spec_decimal(t / 10) + seq!['.', digit_char(t % 10)]
}

/// Human-readable size: "512 B", "1.0 KB", ... with one decimal, rounded half to even.
pub open spec fn spec_format_bytes(b: nat) -> Seq<char> {
    let u = byte_unit(b);
    if u == 0 {
        spec_decimal(b) + seq![' '] + unit_name(0)
    } else {
        tenths_text(div_round_even(10 * f64_of_u64(b), pow1024(u))) + seq![' '] + unit_name(u)
    }
}

fn push_unit_name(out: &mut Vec<char>, u: u64)
    requires
        u <= 4,
    ensures
        final(out)@ == old(out)@ + unit_name(u as nat),
{
    if u == 0 {
        out.push('B');
    } else if u == 1 {
        out.push('K');
        out.push('B');
    } else if u == 2 {
        out.push('M');
        out.push('B');
    } else if u == 3 {
        out.push('G');
        out.push('B');
    } else {
        out.push('T');
        out.push('B');
    }
    assert(final(out)@ =~= old(out)@ + unit_name(u as nat));
}

fn round_half_even(a: u128, d: u128) -> (r: u128)
    requires
        d > 0,
    ensures
        r == div_round_even(a as nat, d as nat),
{
    let q = a / d;
    let m = a % d;
    if (m > d - m) || (m == d - m && q % 2 == 1) {
        assert(q < u128::MAX) by (nonlinear_arith)
            requires
                q == a / d,
                d > 1,
        {
            assert(q <= a / 2) by {
                vstd::arithmetic::div_mod::lemma_div_is_ordered_by_denominator(a as int, 2, d as int);
            }
        }
        q + 1
    } else {
        q
    }
}

/// `n as f64`, as an exact integer.
fn u64_to_f64_value(n: u64) -> (r: u128)
    ensures
        r == f64_of_u64(n as nat),
        r <= 2 * (n as nat) + 1,
{
    let big: u128 = n as u128;
    let mut p: u128 = 1;
    while big / p >= 0x20_0000_0000_0000
        invariant
            p > 0,
            big <= u64::MAX as u128,
            p <= big || p == 1,
            mantissa_scale(big as nat, p as nat) == mantissa_scale(big as nat, 1),
        decreases big / p,
    {
        proof {
            assert(p <= big) by (nonlinear_arith)
                requires
                    big / p >= 1,
                    p > 0,
            ;
            assert((big as int) / ((p * 2) as int) < (big as int) / (p as int)) by (nonlinear_arith)
                requires
                    p > 0,
                    (big as int) / (p as int) >= 1,
            {
                vstd::arithmetic::div_mod::lemma_div_denominator(big as int, p as int, 2);
            }
        }
        p = p * 2;
        proof {
            assert(p <= big) by (nonlinear_arith)
                requires
                    (big as int) / ((p / 2) as int) >= 0x20_0000_0000_0000,
                    p % 2 == 0,
                    p >= 2,
            {
                let h = p / 2;
                assert(big as int >= h * 0x20_0000_0000_0000) by (nonlinear_arith)
                    requires
                        (big as int) / (h as int) >= 0x20_0000_0000_0000,
                        h > 0,
                {
                    vstd::arithmetic::div_mod::lemma_fundamental_div_mod(big as int, h as int);
                }
            }
        }
    }
    let q = round_half_even(big, p);
    proof {
        let bp = big / p;
        assert(bp * p <= big) by {
            vstd::arithmetic::div_mod::lemma_fundamental_div_mod(big as int, p as int);
            vstd::arithmetic::div_mod::lemma_mod_pos_bound(big as int, p as int);
        }
        assert(q <= bp + 1);
        assert(q * p <= bp * p + p) by (nonlinear_arith)
            requires
                q <= bp + 1,
                p > 0,
        ;
    }
    q * p
}

/// Formats a byte count as a human-readable string (e.g. "1.5 GB").
pub fn format_bytes(bytes: u64) -> (s: String)
    ensures
        s@ == spec_format_bytes(bytes as nat),
{
    let mut out: Vec<char> = Vec::new();
    let unit: u64 = if bytes >= 1024 * 1024 * 1024 * 1024 {
        4
    } else if bytes >= 1024 * 1024 * 1024 {
        3
    } else if bytes >= 1024 * 1024 {
        2
    } else if bytes >= 1024 {
        1
    } else {
        0
    };
    proof {
        reveal_with_fuel(pow1024, 5);
    }
    assert(unit == byte_unit(bytes as nat));
    if unit == 0 {
        push_decimal(&mut out, bytes);
        out.push(' ');
        push_unit_name(&mut out, 0);
    } else {
        let f = u64_to_f64_value(bytes);
        let d: u128 = if unit == 1 {
            1024
        } else if unit == 2 {
            1024 * 1024
        } else if unit == 3 {
            1024 * 1024 * 1024
        } else {
            1024 * 1024 * 1024 * 1024
        };
        assert(d == pow1024(unit as nat));
        let t = round_half_even(10 * f, d);
        assert(t <= 10 * f / 1024 + 1) by {
            vstd::arithmetic::div_mod::lemma_div_is_ordered_by_denominator((10 * f) as int, 1024, d as int);
        }
        let t64 = t as u64;
        push_decimal(&mut out, t64 / 10);
        out.push('.');
        let dc = digit_to_char(t64 % 10);
        out.push(dc);
        out.push(' ');
        push_unit_name(&mut out, unit);
    }
    assert(out@ =~= spec_format_bytes(bytes as nat));
    string_of(&out)
}


/// "Xd Yh Zm" style duration: the largest non-zero unit and those below it, down to minutes;
/// bare seconds below one minute.
pub open spec fn spec_format_duration(seconds: nat) -> Seq<char> {
    let days = seconds / 86400;
    let hours = (seconds % 86400) / 3600;
    let minutes = (seconds % 3600) / 60;
    if days > 0 {
        spec_decimal(days) + seq!['d', ' '] + spec_decimal(hours) + seq!['h', ' '] + spec_decimal(
            minutes,
        ) + seq!['m']
    } else if hours > 0 {
        spec_decimal(hours) + seq!['h', ' '] + spec_decimal(minutes) + seq!['m']
    } else if minutes > 0 {
        spec_decimal(minutes) + seq!['m']
    } else {
        spec_decimal(seconds) + seq!['s']
    }
}

/// Formats seconds as a "Xd Yh Zm" duration string.
pub fn format_duration(seconds: u64) -> (s: String)
    ensures
        s@ == spec_format_duration(seconds as nat),
{
    let days = seconds / 86_400;
    let hours = (seconds % 86_400) / 3_600;
    let minutes = (seconds % 3_600) / 60;
    let mut out: Vec<char> = Vec::new();
    if days > 0 {
        push_decimal(&mut out, days);
        out.push('d');
        out.push(' ');
        push_decimal(&mut out, hours);
        out.push('h');
        out.push(' ');
        push_decimal(&mut out, minutes);
        out.push('m');
    } else if hours > 0 {
        push_decimal(&mut out, hours);
        out.push('h');
        out.push(' ');
        push_decimal(&mut out, minutes);
        out.push('m');
    } else if minutes > 0 {
        push_decimal(&mut out, minutes);
        out.push('m');
    } else {
        push_decimal(&mut out, seconds);
        out.push('s');
    }
    assert(out@ =~= spec_format_duration(seconds as nat));
    string_of(&out)
}

/// The text cut to `max_len` characters, the last of them an ellipsis, when it is longer.
pub open spec fn spec_truncate(s: Seq<char>, max_len: nat) -> Seq<char> {
    if s.len() <= max_len {
        s
    } else if max_len <= 1 {
        seq!['\u{2026}']
    } else {
        s.take(max_len - 1).push('\u{2026}')
    }
}

/// Truncates a string with a "…" suffix if it is longer than `max_len` characters.
pub fn truncate(value: &str, max_len: usize) -> (s: String)
    ensures
        s@ == spec_truncate(value@, max_len as nat),
        s@.len() <= max_len || (max_len == 0 && s@.len() == 1),
{
    let cs = chars_of(value);
    if cs.len() <= max_len {
        return string_of(&cs);
    }
    if max_len <= 1 {
        let out = vec!['\u{2026}'];
        assert(out@ =~= seq!['\u{2026}']);
        return string_of(&out);
    }
    let mut out: Vec<char> = Vec::new();
    let mut k: usize = 0;
    while k < max_len - 1
        invariant
            max_len >= 2,
            max_len < cs@.len(),
            k <= max_len - 1,
            out@ == cs@.take(k as int),
        decreases max_len - 1 - k,
    {
        out.push(cs[k]);
        assert(cs@.take(k + 1) =~= cs@.take(k as int).push(cs@[k as int]));
        k = k + 1;
    }
    out.push('\u{2026}');
    string_of(&out)
}

/// Which collectors a refresh runs besides the fast ones: the medium and slow lanes run on
/// their own schedule, and the active tab always gets its own data.
#[derive(Debug, Clone, Copy)]
pub struct CollectionFilter {
    pub medium_lane: bool,
    pub slow_lane: bool,
    pub active_tab: Tab,
}

impl Default for CollectionFilter {
    fn default() -> (r: Self)
        ensures
            !r.medium_lane && !r.slow_lane && r.active_tab == Tab::Overview,
    {
        CollectionFilter { medium_lane: false, slow_lane: false, active_tab: Tab::Overview }
    }
}

/// What one refresh collects anew; the rest is kept from the previous snapshot.
#[derive(Debug, Clone, Copy)]
pub struct CollectionPlan {
    pub disks: bool,
    pub services: bool,
    pub service_counts: bool,
    pub hardware: bool,
    pub gpu: bool,
    pub containers: bool,
}

/// The collectors a refresh runs: disks on the slow lane or on the disk and overview tabs;
/// services on the medium lane or the services tab (their counts on Linux hosts only);
/// hardware on the slow lane or its tab; GPUs on the medium lane or their tab; containers
/// on the slow lane or their tab.
pub fn collection_plan(filter: CollectionFilter, linux: bool) -> (p: CollectionPlan)
    ensures
        p.disks == (filter.slow_lane || filter.active_tab == Tab::Disk || filter.active_tab == Tab::Overview),
        p.services == (filter.medium_lane || filter.active_tab == Tab::Services),
        p.service_counts == (p.services && linux),
        p.hardware == (filter.slow_lane || filter.active_tab == Tab::Hardware),
        p.gpu == (filter.medium_lane || filter.active_tab == Tab::Gpu),
        p.containers == (filter.slow_lane || filter.active_tab == Tab::Containers),
{
    let tab = filter.active_tab;
    let services = filter.medium_lane || tab == Tab::Services;
    CollectionPlan {
        disks: filter.slow_lane || tab == Tab::Disk || tab == Tab::Overview,
        services,
        service_counts: services && linux,
        hardware: filter.slow_lane || tab == Tab::Hardware,
        gpu: filter.medium_lane || tab == Tab::Gpu,
        containers: filter.slow_lane || tab == Tab::Containers,
    }
}

} // verus!
