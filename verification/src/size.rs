//! Byte counts for people to read.

use vstd::arithmetic::power::{lemma_pow0, pow};
use vstd::prelude::*;

use crate::number::{decimal, decimal_string};

verus! {

/// `a / b`, rounded to the nearest whole number, and to the even one of two that
/// are as near.
pub open spec fn rounded(a: nat, b: nat) -> nat
    recommends
        b > 0,
{
    let q = a / b;
    let r = a % b;
    if 2 * r < b || (2 * r == b && q % 2 == 0) {
        q
    } else {
        q + 1
    }
}

/// The smallest power of two that leaves at most 53 bits of `n` when divided out.
pub open spec fn precision(n: nat) -> nat
    decreases n,
{
    if n < 0x20_0000_0000_0000 {
        1
    } else {
        2 * precision(n / 2)
    }
}

/// `n`, rounded to 53 significant bits.
pub open spec fn significant(n: nat) -> nat {
    rounded(n, precision(n)) * precision(n)
}

/// The bytes of the largest unit, from kibibytes to pebibytes, not above `m`.
pub open spec fn unit_bytes(m: nat) -> nat {
    if m < 0x10_0000 {
        0x400
    } else if m < 0x4000_0000 {
        0x10_0000
    } else if m < 0x100_0000_0000 {
        0x4000_0000
    } else if m < 0x4_0000_0000_0000 {
        0x100_0000_0000
    } else {
        0x4_0000_0000_0000
    }
}

/// The letter of the largest unit, from kibibytes to pebibytes, not above `m`.
pub open spec fn unit_letter(m: nat) -> Seq<char> {
    if m < 0x10_0000 {
        "K"@
    } else if m < 0x4000_0000 {
        "M"@
    } else if m < 0x100_0000_0000 {
        "G"@
    } else if m < 0x4_0000_0000_0000 {
        "T"@
    } else {
        "P"@
    }
}

/// A byte count: whole bytes below 1 KiB, else one decimal and a unit.
pub open spec fn human_size_text(n: nat) -> Seq<char> {
    if n < 1024 {
        decimal(n) + " B"@
    } else {
        let m = significant(n);
        let tenths = rounded(10 * m, unit_bytes(m));
        decimal(tenths / 10) + "."@ + decimal(tenths % 10) + unit_letter(m)
    }
}

/// `a / b`, rounded to the nearest whole number, ties to the even one.
fn round(a: u128, b: u128) -> (r: u128)
    requires
        0 < b < 0x8000_0000_0000_0000,
    ensures
        r == rounded(a as nat, b as nat),
{
    let q: u128 = a / b;
    let r: u128 = a % b;
    if 2 * r < b || (2 * r == b && q % 2 == 0) {
        q
    } else {
        proof {
            assert(a / b <= a) by (nonlinear_arith)
                requires
                    b > 0,
                    a >= 0,
            ;
            if q == u128::MAX {
                assert(a == q * b + r) by (nonlinear_arith)
                    requires
                        q == a / b,
                        r == a % b,
                        b > 0,
                ;
                assert(q * b >= q) by (nonlinear_arith)
                    requires
                        b > 0,
                ;
            }
        }
        q + 1
    }
}

/// The smallest power of two that leaves at most 53 bits of `n` when divided out.
fn precision_of(n: u64) -> (r: u64)
    ensures
        r == precision(n as nat),
        r >= 1,
        n < 0x20_0000_0000_0000 ==> r == 1,
        n >= 0x20_0000_0000_0000 ==> r * 0x10_0000_0000_0000 <= n,
    decreases n,
{
    if n < 0x20_0000_0000_0000 {
        1
    } else {
        2 * precision_of(n / 2)
    }
}

/// Rounding to a power of two keeps the size of a number.
proof fn lemma_significant_bound(n: nat, p: nat)
    requires
        n <= u64::MAX,
        1 <= p <= 4096,
    ensures
        rounded(n, p) * p <= n + p,
        rounded(n, p) <= n + 1,
{
    let q = n / p;
    assert(q * p <= n && q <= n && (q + 1) * p == q * p + p) by (nonlinear_arith)
        requires
            q == n / p,
            p >= 1,
    ;
}

/// Renders a byte count: whole bytes below 1 KiB, otherwise one decimal with a
/// binary unit, such as `1.4K` or `3.2M`. The count is taken to 53 significant
/// bits, and halves are rounded to the even digit.
pub fn human_size(n: u64) -> (r: String)
    ensures
        r@ == human_size_text(n as nat),
{
    if n < 1024 {
        let mut out = decimal_string(n);
        out.append(" B");
        return out;
    }
    let p: u64 = precision_of(n);
    proof {
        lemma_significant_bound(n as nat, p as nat);
    }
    let rounded_n: u128 = round(n as u128, p as u128);
    assert(rounded_n * p <= u64::MAX + 4096);
    let m: u128 = rounded_n * (p as u128);
    let (bytes, letter): (u128, &'static str) = if m < 0x10_0000 {
        (0x400, "K")
    } else if m < 0x4000_0000 {
        (0x10_0000, "M")
    } else if m < 0x100_0000_0000 {
        (0x4000_0000, "G")
    } else if m < 0x4_0000_0000_0000 {
        (0x100_0000_0000, "T")
    } else {
        (0x4_0000_0000_0000, "P")
    };
    let tenths: u128 = round(10 * m, bytes);
    proof {
        lemma_tenths_fit(m as nat, bytes as nat);
    }
    let mut out = decimal_string((tenths / 10) as u64);
    out.append(".");
    out.append(decimal_string((tenths % 10) as u64).as_str());
    out.append(letter);
    out
}

/// The number of tenths of a unit is small.
proof fn lemma_tenths_fit(m: nat, bytes: nat)
    requires
        m <= u64::MAX + 4096,
        bytes == unit_bytes(m),
    ensures
        rounded(10 * m, bytes) <= 1_000_000,
{
}

/// What a byte count looks like. Below 1 KiB it is the number of bytes. Above, it is a
/// number of tenths of a unit, the unit being the largest from kibibytes to pebibytes
/// that is not above the count, and it is the nearest such number, or the even one of
/// two that are as near. A count of more than 53 bits is first taken to that precision.
pub proof fn law_byte_counts_are_nearest(n: u64) -> (tenths: nat)
    ensures
        n < 1024 ==> human_size_text(n as nat) == decimal(n as nat) + " B"@,
        1024 <= n < 0x10_0000 ==> human_size_text(n as nat) == decimal(tenths / 10) + "."@
            + decimal(tenths % 10) + "K"@ && -0x400 <= 2 * (10 * n - tenths * 0x400) <= 0x400 && ((2
            * (10 * n - tenths * 0x400) == 0x400 || 2 * (10 * n - tenths * 0x400) == -0x400)
            ==> tenths % 2 == 0),
        0x10_0000 <= n < 0x4000_0000 ==> human_size_text(n as nat) == decimal(tenths / 10) + "."@
            + decimal(tenths % 10) + "M"@ && -0x10_0000 <= 2 * (10 * n - tenths * 0x10_0000)
            <= 0x10_0000 && ((2 * (10 * n - tenths * 0x10_0000) == 0x10_0000 || 2 * (10 * n - tenths
            * 0x10_0000) == -0x10_0000) ==> tenths % 2 == 0),
        0x4000_0000 <= n < 0x100_0000_0000 ==> human_size_text(n as nat) == decimal(tenths / 10)
            + "."@ + decimal(tenths % 10) + "G"@ && -0x4000_0000 <= 2 * (10 * n - tenths
            * 0x4000_0000) <= 0x4000_0000 && ((2 * (10 * n - tenths * 0x4000_0000) == 0x4000_0000
            || 2 * (10 * n - tenths * 0x4000_0000) == -0x4000_0000) ==> tenths % 2 == 0),
        0x100_0000_0000 <= n < 0x4_0000_0000_0000 ==> human_size_text(n as nat) == decimal(
            tenths / 10,
        ) + "."@ + decimal(tenths % 10) + "T"@ && -0x100_0000_0000 <= 2 * (10 * n - tenths
            * 0x100_0000_0000) <= 0x100_0000_0000 && ((2 * (10 * n - tenths * 0x100_0000_0000)
            == 0x100_0000_0000 || 2 * (10 * n - tenths * 0x100_0000_0000) == -0x100_0000_0000)
            ==> tenths % 2 == 0),
        0x4_0000_0000_0000 <= n ==> human_size_text(n as nat) == decimal(tenths / 10) + "."@
            + decimal(tenths % 10) + "P"@ && -0x4_0000_0000_0000 - 40960 <= 2 * (10 * n - tenths
            * 0x4_0000_0000_0000) <= 0x4_0000_0000_0000 + 40960,
        0x4_0000_0000_0000 <= n < 0x20_0000_0000_0000 ==> -0x4_0000_0000_0000 <= 2 * (10 * n
            - tenths * 0x4_0000_0000_0000) <= 0x4_0000_0000_0000,
{
    let m = significant(n as nat);
    if n < 0x20_0000_0000_0000 {
        assert(precision(n as nat) == 1);
        lemma_nearest(n as nat, 1);
        assert(m == rounded(n as nat, 1));
    } else {
        lemma_precision(n as nat);
        lemma_nearest(n as nat, precision(n as nat));
    }
    rounded(10 * m, unit_bytes(m))
}

/// A number of 64 bits is taken to 53 by a power of two below 4096.
proof fn lemma_precision(n: nat)
    requires
        0x20_0000_0000_0000 <= n <= u64::MAX,
    ensures
        1 <= precision(n) < 4096,
        precision(n) * 0x10_0000_0000_0000 <= n,
    decreases n,
{
    reveal_with_fuel(precision, 2);
    if n / 2 >= 0x20_0000_0000_0000 {
        lemma_precision(n / 2);
    }
}

/// Rounding to a multiple of `p` moves a number by at most half of it.
proof fn lemma_nearest(n: nat, p: nat)
    requires
        1 <= p < 4096,
    ensures
        -(p as int) <= 2 * (n - rounded(n, p) * p) <= p,
{
    let q = n / p;
    let r = n % p;
    assert(n == q * p + r && 0 <= r < p && (q + 1) * p == q * p + p) by (nonlinear_arith)
        requires
            q == n / p,
            r == n % p,
            p >= 1,
    ;
}

/// What a byte count of more than 53 bits looks like: it is first taken to the nearest
/// number of 53 bits, and that to the nearest tenth of a pebibyte; of two that are as
/// near, to the even one.
pub proof fn law_large_byte_counts(n: u64) -> (r: (nat, nat, nat))
    requires
        n >= 0x20_0000_0000_0000,
    ensures
        ({
            let (k, kept, tenths) = r;
            let unit = pow(2, k);
            let m = kept * unit;
            &&& 0x10_0000_0000_0000 * unit <= n < 0x20_0000_0000_0000 * unit
            &&& -unit <= 2 * (n - m) <= unit
            &&& 2 * (n - m) == unit || 2 * (n - m) == -unit ==> kept % 2 == 0
            &&& -0x4_0000_0000_0000 <= 2 * (10 * m - tenths * 0x4_0000_0000_0000)
                <= 0x4_0000_0000_0000
            &&& 2 * (10 * m - tenths * 0x4_0000_0000_0000) == 0x4_0000_0000_0000 || 2 * (10 * m
                - tenths * 0x4_0000_0000_0000) == -0x4_0000_0000_0000 ==> tenths % 2 == 0
            &&& human_size_text(n as nat) == decimal(tenths / 10) + "."@ + decimal(tenths % 10)
                + "P"@
        }),
{
    let p = precision(n as nat);
    let k = lemma_precision_is_power(n as nat);
    lemma_precision(n as nat);
    lemma_nearest(n as nat, p);
    lemma_ties(n as nat, p);
    let kept = rounded(n as nat, p);
    let m = significant(n as nat);
    (k, kept, rounded(10 * m, unit_bytes(m)))
}

/// Rounding goes to the even number of two that are as near.
proof fn lemma_ties(n: nat, p: nat)
    requires
        1 <= p < 4096,
    ensures
        2 * (n - rounded(n, p) * p) == p || 2 * (n - rounded(n, p) * p) == -(p as int) ==> rounded(
            n,
            p,
        ) % 2 == 0,
{
    let q = n / p;
    let r = n % p;
    assert(n == q * p + r && 0 <= r < p && (q + 1) * p == q * p + p) by (nonlinear_arith)
        requires
            q == n / p,
            r == n % p,
            p >= 1,
    ;
}

/// The precision of a large number is the power of two that leaves it 53 bits.
proof fn lemma_precision_is_power(n: nat) -> (k: nat)
    ensures
        precision(n) == pow(2, k),
        n >= 0x20_0000_0000_0000 ==> 0x10_0000_0000_0000 * pow(2, k) <= n < 0x20_0000_0000_0000
            * pow(2, k),
    decreases n,
{
    if n < 0x20_0000_0000_0000 {
        lemma_pow0(2);
        0
    } else {
        let k = lemma_precision_is_power(n / 2);
        reveal(pow);
        assert(pow(2, (k + 1) as nat) == 2 * pow(2, k));
        if n / 2 < 0x20_0000_0000_0000 {
            assert(precision(n / 2) == 1);
        }
        k + 1
    }
}

} // verus!
