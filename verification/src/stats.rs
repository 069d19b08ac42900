//! Byte counts and request totals, as the page shows them.

use vstd::prelude::*;
use crate::number;
use crate::number::decimal_text;
use crate::text::concat;

verus! {

/// The spacing of double-precision numbers at `b`, from `unit` up: the least
/// power of two that leaves fewer than 53 bits to the left of it.
pub open spec fn spacing(b: nat, unit: nat) -> nat
    decreases b / unit,
{
    if unit == 0 || b / unit < 0x20_0000_0000_0000 {
        unit
    } else {
        proof {
            assert(b / (2 * unit) < b / unit) by (nonlinear_arith)
                requires
                    unit > 0,
                    b / unit >= 2,
            ;
        }
        spacing(b, 2 * unit)
    }
}

/// `n / d` to the nearest integer, and to the even one of two equally near.
pub open spec fn half_even(n: nat, d: nat) -> nat {
    if 2 * (n % d) > d || (2 * (n % d) == d && (n / d) % 2 == 1) {
        n / d + 1
    } else {
        n / d
    }
}

/// `b` as the nearest double-precision number holds it.
pub open spec fn as_double(b: nat) -> nat {
    half_even(b, spacing(b, 1)) * spacing(b, 1)
}

/// Tenths of a mebibyte in `b` bytes, as one decimal of the double-precision
/// quotient shows them.
pub open spec fn tenths_of_mib(b: nat) -> nat {
    half_even(10 * as_double(b), 0x10_0000)
}

/// A byte count in the unit that fits it.
pub open spec fn bytes_text(b: nat) -> Seq<char> {
    if b < 1024 {
        number::decimal(b) + " B"@
    } else if b < 1024 * 1024 {
        number::decimal(b / 1024) + " KB"@
    } else {
        number::decimal(tenths_of_mib(b) / 10) + "."@ + number::decimal(tenths_of_mib(b) % 10)
            + " MB"@
    }
}

fn spacing_of(b: u64) -> (r: u64)
    ensures
        r == spacing(b as nat, 1),
        1 <= r <= 0x1000,
        b / r < 0x20_0000_0000_0000,
{
    let mut unit: u64 = 1;
    while b / unit >= 0x20_0000_0000_0000
        invariant
            1 <= unit <= 0x1000,
            spacing(b as nat, 1) == spacing(b as nat, unit as nat),
        decreases b / unit,
    {
        proof {
            assert(unit <= 0x800) by (nonlinear_arith)
                requires
                    1 <= unit,
                    b / unit >= 0x20_0000_0000_0000,
                    b <= 0xffff_ffff_ffff_ffff,
            ;
            assert(b / ((2 * unit) as u64) < b / unit) by (nonlinear_arith)
                requires
                    1 <= unit <= 0x800,
                    b / unit >= 2,
            ;
        }
        unit = 2 * unit;
    }
    unit
}

fn round_half_even(n: u128, d: u128) -> (r: u128)
    requires
        0 < d <= 0x1_0000_0000,
        n < 0x1_0000_0000_0000_0000_0000,
    ensures
        r == half_even(n as nat, d as nat),
        r <= n + 1,
{
    let q: u128 = n / d;
    let rem: u128 = n % d;
    proof {
        assert(q <= n) by (nonlinear_arith)
            requires
                q == n / d,
                d > 0,
        ;
    }
    if 2 * rem > d || (2 * rem == d && q % 2 == 1) {
        q + 1
    } else {
        q
    }
}

/// A byte count in the units the fetch line uses. Shared with the snapshot
/// view, so an archive's size reads the same way as the bytes fetched to build
/// it.
pub fn format_bytes(b: u64) -> (r: String)
    ensures
        r@ == bytes_text(b as nat),
{
    if b < 1024 {
        concat(decimal_text(b).as_str(), " B")
    } else if b < 1024 * 1024 {
        concat(decimal_text(b / 1024).as_str(), " KB")
    } else {
        let unit: u64 = spacing_of(b);
        let units: u128 = round_half_even(b as u128, unit as u128);
        proof {
            assert(units * unit <= b + unit) by (nonlinear_arith)
                requires
                    units <= b / unit + 1,
                    unit >= 1,
            ;
        }
        let exact: u128 = units * (unit as u128);
        let tenths: u128 = round_half_even(10 * exact, 0x10_0000);
        let tenths: u64 = tenths as u64;
        let mut out: String = decimal_text(tenths / 10);
        out.append(".");
        out.append(decimal_text(tenths % 10).as_str());
        out.append(" MB");
        out
    }
}

/// The fetch line: how many requests, how much they brought, and how much was
/// served from a cache where any was.
pub open spec fn stats_text(label: Seq<char>, reqs: nat, bytes: nat, cached: nat) -> Seq<char> {
    let base = label + ": "@ + number::decimal(reqs) + " requests, "@ + bytes_text(bytes);
    if cached > 0 {
        base + " (cached: "@ + bytes_text(cached) + ")"@
    } else {
        base
    }
}

/// The fetch line.
pub fn format_stats(label: &str, reqs: u32, bytes: u64, cached_bytes: u64) -> (r: String)
    ensures
        r@ == stats_text(label@, reqs as nat, bytes as nat, cached_bytes as nat),
{
    let mut out: String = label.to_string();
    out.append(": ");
    out.append(decimal_text(reqs as u64).as_str());
    out.append(" requests, ");
    out.append(format_bytes(bytes).as_str());
    if cached_bytes > 0 {
        out.append(" (cached: ");
        out.append(format_bytes(cached_bytes).as_str());
        out.append(")");
    }
    out
}

/// A size is told in bytes below a kibibyte, in whole kibibytes below a
/// mebibyte, and from there in mebibytes to the nearest tenth.
pub proof fn sizes_are_told_in_the_unit_that_fits(b: nat, k: nat, rest: nat)
    ensures
        b < 1024 ==> bytes_text(b) == number::decimal(b) + seq![' ', 'B'],
        rest < 1024 && 1 <= k < 1024 ==> bytes_text(1024 * k + rest) == number::decimal(k) + seq![
            ' ',
            'K',
            'B',
        ],
        0x10_0000 <= b < 0x20_0000_0000_0000 ==> {
            let tenths = tenths_of_mib(b) as int;
            &&& -0x10_0000 <= 2 * (tenths * 0x10_0000 - 10 * b) <= 0x10_0000
            &&& bytes_text(b) == number::decimal((tenths / 10) as nat) + seq!['.']
                + number::decimal((tenths % 10) as nat) + seq![' ', 'M', 'B']
        },
{
    reveal_strlit(" B");
    reveal_strlit(" KB");
    reveal_strlit(" MB");
    reveal_strlit(".");
    assert(" B"@ =~= seq![' ', 'B']);
    assert(" KB"@ =~= seq![' ', 'K', 'B']);
    assert(" MB"@ =~= seq![' ', 'M', 'B']);
    assert("."@ =~= seq!['.']);
    if 0x10_0000 <= b < 0x20_0000_0000_0000 {
        assert(b / 1 == b) by (nonlinear_arith);
        assert(spacing(b, 1) == 1);
        assert(b % 1 == 0) by (nonlinear_arith);
        assert(half_even(b, 1) == b);
        assert(as_double(b) == b);
        let n = 10 * b;
        let q = n / 0x10_0000;
        assert(n == q * 0x10_0000 + n % 0x10_0000);
    }
}

/// The fetch line tells the requests and what they brought, and what a cache
/// served only where it served any.
pub proof fn fetch_lines_tell_what_was_read(label: Seq<char>, reqs: nat, bytes: nat, cached: nat)
    ensures
        ({
            let read = label + seq![':', ' '] + number::decimal(reqs) + " requests, "@
                + bytes_text(bytes);
            &&& stats_text(label, reqs, bytes, 0) == read
            &&& cached > 0 ==> stats_text(label, reqs, bytes, cached) == read + " (cached: "@
                + bytes_text(cached) + seq![')']
        }),
{
    reveal_strlit(": ");
    reveal_strlit(")");
    assert(": "@ =~= seq![':', ' ']);
    assert(")"@ =~= seq![')']);
}

/// A quotient is told by the nearest whole number, and by the even one where two
/// are equally near.
pub proof fn quotients_are_told_by_the_nearest_number(n: nat, d: nat)
    requires
        d > 0,
    ensures
        ({
            let told = half_even(n, d);
            let off = n - d * told;
            &&& -(d as int) <= 2 * off <= d
            &&& 2 * off == d || 2 * off == -(d as int) ==> told % 2 == 0
        }),
{
    let q = n / d;
    let m = n % d;
    vstd::arithmetic::div_mod::lemma_fundamental_div_mod(n as int, d as int);
    vstd::arithmetic::div_mod::lemma_mod_bound(n as int, d as int);
    assert(n == d * q + m);
    assert(d * (q + 1) == d * q + d) by (nonlinear_arith);
}

} // verus!
