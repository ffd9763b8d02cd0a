//! Numbers as text: rendering in decimal and hexadecimal, and parsing.

use vstd::arithmetic::div_mod::lemma_div_denominator;
use vstd::arithmetic::power::{lemma_pow0, lemma_pow1, lemma_pow_positive, pow};
use vstd::prelude::*;
use vstd::slice::slice_subrange;

use crate::text::string_of;

verus! {

// ---------------------------------------------------------------------------
// Rendering
// ---------------------------------------------------------------------------
/// The digit for `d`: `0` to `9`, then `a` to `f`.
pub open spec fn digit_char(d: nat) -> char {
    if d < 10 {
        (48 + d) as char
    } else {
        (87 + d) as char
    }
}

/// `n` in decimal, without leading zeros.
pub open spec fn decimal(n: nat) -> Seq<char>
    decreases n,
{
    if n < 10 {
        seq![digit_char(n)]
    } else {
        decimal(n / 10).push(digit_char(n % 10))
    }
}

/// `n` in hexadecimal with small letters, without leading zeros.
pub open spec fn hexadecimal(n: nat) -> Seq<char>
    decreases n,
{
    if n < 16 {
        seq![digit_char(n)]
    } else {
        hexadecimal(n / 16).push(digit_char(n % 16))
    }
}

/// `k` zeros.
pub open spec fn zeros(k: int) -> Seq<char> {
    Seq::new(
        if k < 0 {
            0
        } else {
            k as nat
        },
        |i: int| '0',
    )
}

/// `n` in decimal, with zeros in front up to `width` characters.
pub open spec fn padded(n: nat, width: nat) -> Seq<char> {
    zeros(width - decimal(n).len()) + decimal(n)
}

/// The digit for `d`.
pub fn digit(d: u8) -> (r: char)
    requires
        d < 16,
    ensures
        r == digit_char(d as nat),
{
    if d < 10 {
        (48 + d) as char
    } else {
        (87 + d) as char
    }
}

/// The decimal digits of `n`.
fn decimal_digits(n: u64) -> (r: Vec<char>)
    ensures
        r@ == decimal(n as nat),
    decreases n,
{
    if n < 10 {
        let mut v: Vec<char> = Vec::new();
        v.push(digit(n as u8));
        assert(v@ =~= decimal(n as nat));
        v
    } else {
        let mut v: Vec<char> = decimal_digits(n / 10);
        v.push(digit((n % 10) as u8));
        v
    }
}

/// The hexadecimal digits of `n`.
fn hexadecimal_digits(n: u64) -> (r: Vec<char>)
    ensures
        r@ == hexadecimal(n as nat),
    decreases n,
{
    if n < 16 {
        let mut v: Vec<char> = Vec::new();
        v.push(digit(n as u8));
        assert(v@ =~= hexadecimal(n as nat));
        v
    } else {
        let mut v: Vec<char> = hexadecimal_digits(n / 16);
        v.push(digit((n % 16) as u8));
        v
    }
}

/// `n` in decimal.
pub fn decimal_string(n: u64) -> (r: String)
    ensures
        r@ == decimal(n as nat),
{
    string_of(decimal_digits(n).as_slice())
}

/// `n` in hexadecimal.
pub fn hexadecimal_string(n: u64) -> (r: String)
    ensures
        r@ == hexadecimal(n as nat),
{
    string_of(hexadecimal_digits(n).as_slice())
}

/// `n` in decimal, with zeros in front up to `width` characters.
pub fn padded_string(n: u64, width: usize) -> (r: String)
    ensures
        r@ == padded(n as nat, width as nat),
{
    let digits = decimal_digits(n);
    let mut out = String::new();
    let mut k: usize = digits.len();
    while k < width
        invariant
            digits@ == decimal(n as nat),
            digits.len() <= k,
            k <= width || k == digits.len(),
            out@ == zeros(k - digits.len()),
        decreases width - k,
    {
        out.push('0');
        k += 1;
        assert(out@ =~= zeros(k - digits.len()));
    }
    out.append(string_of(digits.as_slice()).as_str());
    assert(out@ =~= padded(n as nat, width as nat));
    out
}

// ---------------------------------------------------------------------------
// Parsing
// ---------------------------------------------------------------------------
/// Whether `c` is a decimal digit below `radix`.
pub open spec fn is_digit(c: char, radix: nat) -> bool {
    '0' <= c <= '9' && (c as nat - 48) < radix
}

/// Whether `s` consists of digits below `radix`.
pub open spec fn all_digits(s: Seq<char>, radix: nat) -> bool {
    forall|i: int| 0 <= i < s.len() ==> is_digit(#[trigger] s[i], radix)
}

/// The number that the digits in `s` stand for.
pub open spec fn digits_value(s: Seq<char>, radix: nat) -> nat
    decreases s.len(),
{
    if s.len() == 0 {
        0
    } else {
        digits_value(s.drop_last(), radix) * radix + (s.last() as nat - 48) as nat
    }
}

/// `s` without one plus sign at its front.
pub open spec fn unsigned_digits(s: Seq<char>) -> Seq<char> {
    if s.len() > 0 && s[0] == '+' {
        s.drop_first()
    } else {
        s
    }
}

/// The number written in `s`: one or more digits, a plus sign in front allowed,
/// no larger than `max`.
pub open spec fn parsed(s: Seq<char>, radix: nat, max: nat) -> Option<nat> {
    let t = unsigned_digits(s);
    if t.len() > 0 && all_digits(t, radix) && digits_value(t, radix) <= max {
        Some(digits_value(t, radix))
    } else {
        None
    }
}

/// A number never gets smaller by further digits.
proof fn lemma_value_grows(s: Seq<char>, k: int, radix: nat)
    requires
        0 <= k <= s.len(),
        radix >= 1,
    ensures
        digits_value(s.take(k), radix) <= digits_value(s, radix),
    decreases s.len(),
{
    if k == s.len() {
        assert(s.take(k) =~= s);
    } else {
        let t = s.drop_last();
        assert(t.take(k) =~= s.take(k));
        lemma_value_grows(t, k, radix);
        let v = digits_value(t, radix);
        assert(v * radix >= v) by (nonlinear_arith)
            requires
                radix >= 1,
        ;
    }
}

/// The number that the digits in `s` stand for, unless it exceeds a `u64`.
fn parse_digits(s: &[char], radix: u64) -> (r: Option<u64>)
    requires
        2 <= radix <= 10,
        all_digits(s@, radix as nat),
    ensures
        r is Some <==> digits_value(s@, radix as nat) <= u64::MAX,
        r matches Some(n) ==> n == digits_value(s@, radix as nat),
{
    let mut v: u64 = 0;
    let mut i: usize = 0;
    while i < s.len()
        invariant
            2 <= radix <= 10,
            all_digits(s@, radix as nat),
            i <= s.len(),
            v == digits_value(s@.take(i as int), radix as nat),
        decreases s.len() - i,
    {
        assert(is_digit(s@[i as int], radix as nat));
        let d: u64 = (s[i] as u32 - 48) as u64;
        let ghost next = s@.take(i as int + 1);
        assert(next.drop_last() =~= s@.take(i as int));
        assert(next.last() == s@[i as int]);
        assert(digits_value(next, radix as nat) == v * radix + d);
        proof {
            lemma_value_grows(s@, i as int + 1, radix as nat);
        }
        match v.checked_mul(radix) {
            Some(w) => match w.checked_add(d) {
                Some(x) => {
                    v = x;
                },
                None => {
                    return None;
                },
            },
            None => {
                return None;
            },
        }
        i += 1;
    }
    assert(s@.take(i as int) =~= s@);
    Some(v)
}

/// The number that `s` stands for, if it is one or more digits and fits a `u64`.
pub fn parse_plain(s: &[char], radix: u64) -> (r: Option<u64>)
    requires
        2 <= radix <= 10,
    ensures
        r is Some <==> s@.len() > 0 && all_digits(s@, radix as nat) && digits_value(
            s@,
            radix as nat,
        ) <= u64::MAX,
        r matches Some(n) ==> n == digits_value(s@, radix as nat),
{
    if s.len() == 0 {
        return None;
    }
    let mut i: usize = 0;
    while i < s.len()
        invariant
            2 <= radix <= 10,
            i <= s.len(),
            forall|j: int| 0 <= j < i ==> is_digit(#[trigger] s@[j], radix as nat),
        decreases s.len() - i,
    {
        let c = s[i];
        if !('0' <= c && c <= '9' && ((c as u32 - 48) as u64) < radix) {
            assert(!is_digit(s@[i as int], radix as nat));
            return None;
        }
        i += 1;
    }
    parse_digits(s, radix)
}

/// The number written in `s`, if it is one and no larger than `max`.
pub fn parse_number(s: &[char], radix: u64, max: u64) -> (r: Option<u64>)
    requires
        2 <= radix <= 10,
    ensures
        r is Some <==> parsed(s@, radix as nat, max as nat) is Some,
        r matches Some(n) ==> parsed(s@, radix as nat, max as nat) == Some(n as nat),
{
    let t: &[char] = if s.len() > 0 && s[0] == '+' {
        slice_subrange(s, 1, s.len())
    } else {
        s
    };
    assert(t@ =~= unsigned_digits(s@));
    match parse_plain(t, radix) {
        Some(n) if n <= max => Some(n),
        _ => None,
    }
}

// ---------------------------------------------------------------------------
// Two and four digits
// ---------------------------------------------------------------------------
/// Two digits: how they are written, and that they are read back.
pub proof fn lemma_two_digits(n: nat)
    requires
        n < 100,
    ensures
        padded(n, 2) == seq![digit_char(n / 10), digit_char(n % 10)],
        all_digits(padded(n, 2), 10),
        digits_value(padded(n, 2), 10) == n,
{
    reveal_with_fuel(decimal, 3);
    let s = padded(n, 2);
    assert(s =~= seq![digit_char(n / 10), digit_char(n % 10)]);
    reveal_with_fuel(digits_value, 3);
    assert(s.drop_last() =~= seq![digit_char(n / 10)]);
    assert(s.drop_last().drop_last() =~= seq![]);
}

/// Four digits: how they are written, and that they are read back.
pub proof fn lemma_four_digits(n: nat)
    requires
        n < 10000,
    ensures
        padded(n, 4).len() == 4,
        all_digits(padded(n, 4), 10),
        digits_value(padded(n, 4), 10) == n,
{
    reveal_with_fuel(decimal, 5);
    let s = padded(n, 4);
    let t = seq![
        digit_char(n / 1000),
        digit_char(n / 100 % 10),
        digit_char(n / 10 % 10),
        digit_char(n % 10),
    ];
    if n < 10 {
        assert(decimal(n) =~= seq![digit_char(n)]);
    } else if n < 100 {
        assert(decimal(n) =~= seq![digit_char(n / 10), digit_char(n % 10)]);
    } else if n < 1000 {
        assert(n / 10 / 10 == n / 100);
        assert(decimal(n) =~= seq![digit_char(n / 100), digit_char(n / 10 % 10), digit_char(n % 10)]);
    } else {
        assert(n / 10 / 10 == n / 100);
        assert(n / 10 / 10 / 10 == n / 1000);
        assert(decimal(n) =~= t);
    }
    assert(s =~= t);
    reveal_with_fuel(digits_value, 5);
    assert(t.drop_last() =~= seq![
        digit_char(n / 1000),
        digit_char(n / 100 % 10),
        digit_char(n / 10 % 10),
    ]);
    assert(t.drop_last().drop_last() =~= seq![digit_char(n / 1000), digit_char(n / 100 % 10)]);
    assert(t.drop_last().drop_last().drop_last() =~= seq![digit_char(n / 1000)]);
    assert(t.drop_last().drop_last().drop_last().drop_last() =~= seq![]);
}

/// The largest value of a few digits.
pub proof fn lemma_small_value(s: Seq<char>)
    requires
        s.len() <= 4,
        all_digits(s, 10),
    ensures
        digits_value(s, 10) < 10000,
        s.len() <= 2 ==> digits_value(s, 10) < 100,
{
    reveal_with_fuel(digits_value, 5);
    assert forall|i: int| 0 <= i < s.len() implies s[i] as nat - 48 < 10 by {
        assert(is_digit(s[i], 10));
    }
}

// ---------------------------------------------------------------------------
// Any number of digits
// ---------------------------------------------------------------------------
/// Decimal is made of digits.
pub proof fn lemma_decimal(n: nat)
    ensures
        decimal(n).len() > 0,
        all_digits(decimal(n), 10),
        digits_value(decimal(n), 10) == n,
    decreases n,
{
    if n < 10 {
        assert(decimal(n).drop_last() =~= seq![]);
        assert(digits_value(decimal(n).drop_last(), 10) == 0);
    } else {
        lemma_decimal(n / 10);
        assert(decimal(n).drop_last() =~= decimal(n / 10));
        assert forall|i: int| 0 <= i < decimal(n).len() implies is_digit(
            #[trigger] decimal(n)[i],
            10,
        ) by {
            if i < decimal(n / 10).len() {
                assert(decimal(n)[i] == decimal(n / 10)[i]);
            }
        }
    }
}

/// A number that was written in decimal is read back.
pub proof fn law_decimal_round_trip(n: nat, max: nat)
    requires
        n <= max,
    ensures
        parsed(decimal(n), 10, max) == Some(n),
{
    lemma_decimal(n);
    assert(is_digit(decimal(n)[0], 10));
}

/// Whether `c` is a digit that hexadecimal is made of.
pub open spec fn is_hexadecimal_digit(c: char) -> bool {
    '0' <= c <= '9' || 'a' <= c <= 'f'
}

/// Hexadecimal is made of digits.
pub proof fn lemma_hexadecimal(n: nat)
    ensures
        hexadecimal(n).len() > 0,
        forall|i: int|
            0 <= i < hexadecimal(n).len() ==> is_hexadecimal_digit(#[trigger] hexadecimal(n)[i]),
    decreases n,
{
    if n >= 16 {
        lemma_hexadecimal(n / 16);
        assert forall|i: int| 0 <= i < hexadecimal(n).len() implies is_hexadecimal_digit(
            #[trigger] hexadecimal(n)[i],
        ) by {
            if i < hexadecimal(n / 16).len() {
                assert(hexadecimal(n)[i] == hexadecimal(n / 16)[i]);
            }
        }
    }
}

/// Different numbers are written differently in hexadecimal.
pub proof fn lemma_hexadecimal_is_unique(a: nat, b: nat)
    requires
        hexadecimal(a) == hexadecimal(b),
    ensures
        a == b,
    decreases a,
{
    lemma_hexadecimal(a / 16);
    lemma_hexadecimal(b / 16);
    assert(hexadecimal(a).last() == digit_char(a % 16));
    assert(hexadecimal(b).last() == digit_char(b % 16));
    assert(a % 16 == b % 16);
    if a >= 16 && b >= 16 {
        assert(hexadecimal(a).drop_last() =~= hexadecimal(a / 16));
        assert(hexadecimal(b).drop_last() =~= hexadecimal(b / 16));
        lemma_hexadecimal_is_unique(a / 16, b / 16);
    }
}

// ---------------------------------------------------------------------------
// Laws
// ---------------------------------------------------------------------------
/// Dividing by the radix shifts the positions.
proof fn lemma_shift(n: nat, radix: int, k: nat)
    requires
        radix > 1,
    ensures
        (n as int / radix) / pow(radix, k) == n as int / pow(radix, k + 1),
        pow(radix, k) > 0,
        pow(radix, k + 1) == radix * pow(radix, k),
{
    lemma_pow_positive(radix, k);
    reveal(pow);
    lemma_div_denominator(n as int, radix, pow(radix, k));
}

/// Decimal is positional: each digit is that of its power of ten, and there are just
/// as many as the number needs.
pub proof fn law_decimal_is_positional(n: nat)
    ensures
        ({
            let s = decimal(n);
            &&& s.len() > 0
            &&& n < pow(10, s.len())
            &&& s.len() > 1 ==> pow(10, (s.len() - 1) as nat) <= n
            &&& forall|i: int|
                0 <= i < s.len() ==> '0' <= #[trigger] s[i] <= '9' && s[i] as int - 48 == n as int
                    / pow(10, (s.len() - 1 - i) as nat) % 10
        }),
    decreases n,
{
    let s = decimal(n);
    lemma_pow0(10);
    lemma_pow1(10);
    if n >= 10 {
        let t = decimal(n / 10);
        law_decimal_is_positional(n / 10);
        lemma_shift(n, 10, t.len());
        lemma_shift(n, 10, (t.len() - 1) as nat);
        assert forall|i: int| 0 <= i < s.len() implies '0' <= #[trigger] s[i] <= '9' && s[i] as int
            - 48 == n as int / pow(10, (s.len() - 1 - i) as nat) % 10 by {
            if i < t.len() {
                assert(s[i] == t[i]);
                lemma_shift(n, 10, (t.len() - 1 - i) as nat);
            }
        }
    }
}

/// Hexadecimal is positional: each digit, `a` to `f` for ten to fifteen, is that of
/// its power of sixteen, and there are just as many as the number needs.
pub proof fn law_hexadecimal_is_positional(n: nat)
    ensures
        ({
            let s = hexadecimal(n);
            &&& s.len() > 0
            &&& n < pow(16, s.len())
            &&& s.len() > 1 ==> pow(16, (s.len() - 1) as nat) <= n
            &&& forall|i: int|
                0 <= i < s.len() ==> {
                    let d = n as int / pow(16, (s.len() - 1 - i) as nat) % 16;
                    #[trigger] s[i] as int == (if d < 10 {
                        48 + d
                    } else {
                        97 + d - 10
                    })
                }
        }),
    decreases n,
{
    let s = hexadecimal(n);
    lemma_pow0(16);
    lemma_pow1(16);
    if n >= 16 {
        let t = hexadecimal(n / 16);
        law_hexadecimal_is_positional(n / 16);
        lemma_shift(n, 16, t.len());
        lemma_shift(n, 16, (t.len() - 1) as nat);
        assert forall|i: int| 0 <= i < s.len() implies {
            let d = n as int / pow(16, (s.len() - 1 - i) as nat) % 16;
            #[trigger] s[i] as int == (if d < 10 {
                48 + d
            } else {
                97 + d - 10
            })
        } by {
            if i < t.len() {
                assert(s[i] == t[i]);
                lemma_shift(n, 16, (t.len() - 1 - i) as nat);
            }
        }
    }
}

/// Padding adds zeros in front up to the width, and none to a number that is as wide.
pub proof fn law_padding(n: nat, width: nat)
    ensures
        ({
            let s = padded(n, width);
            let k = s.len() - decimal(n).len();
            &&& s.len() == (if decimal(n).len() < width {
                width
            } else {
                decimal(n).len()
            })
            &&& s.skip(k) == decimal(n)
            &&& forall|i: int| 0 <= i < k ==> s[i] == '0'
        }),
{
    let s = padded(n, width);
    let k = s.len() - decimal(n).len();
    assert(s.skip(k) =~= decimal(n));
}

/// Numbers are read digit by digit: one more digit multiplies by the radix and adds,
/// as long as the number does not get too large; anything that is no digit makes no
/// number; and a plus sign in front changes nothing.
pub proof fn law_numbers_are_read_by_digit(s: Seq<char>, c: char, radix: nat, max: nat)
    requires
        2 <= radix <= 10,
    ensures
        parsed(seq![], radix, max) is None,
        parsed(seq!['+'], radix, max) is None,
        parsed(seq![c], radix, max) == (if '0' <= c <= '9' && c as int - 48 < radix && c as int - 48
            <= max {
            Some((c as int - 48) as nat)
        } else {
            None
        }),
        s.len() > 0 && s != seq!['+'] ==> parsed(s.push(c), radix, max) == (match parsed(
            s,
            radix,
            max,
        ) {
            Some(v) => if '0' <= c <= '9' && c as int - 48 < radix && v * radix + (c as int - 48)
                <= max {
                Some((v * radix + (c as int - 48)) as nat)
            } else {
                None
            },
            None => None,
        }),
        s.len() > 0 && s[0] != '+' ==> parsed(seq!['+'] + s, radix, max) == parsed(s, radix, max),
{
    let e = Seq::<char>::empty();
    let plus = seq!['+'];
    let one = seq![c];
    assert(plus.drop_first() =~= e);
    assert(one.drop_first() =~= e);
    assert(one.drop_last() =~= e);
    assert(digits_value(e, radix) == 0);
    assert(one[0] == c);
    assert(0 * radix == 0) by (nonlinear_arith);
    if '0' <= c <= '9' && c as int - 48 < radix {
        assert(all_digits(one, radix));
    } else {
        assert(!is_digit(one[0], radix));
    }
    if s.len() > 0 && s != plus {
        let t = unsigned_digits(s);
        let u = unsigned_digits(s.push(c));
        assert(t.len() > 0) by {
            if t.len() == 0 {
                assert(s =~= plus);
            }
        }
        assert(u =~= t.push(c));
        assert(u.drop_last() =~= t);
        let v = digits_value(t, radix);
        assert(v * radix >= v) by (nonlinear_arith)
            requires
                radix >= 1,
        ;
        if all_digits(t, radix) && is_digit(c, radix) {
            assert forall|i: int| 0 <= i < u.len() implies is_digit(#[trigger] u[i], radix) by {
                if i < t.len() {
                    assert(u[i] == t[i]);
                }
            }
        } else if !is_digit(c, radix) {
            assert(!is_digit(u[t.len() as int], radix));
        } else {
            let i = choose|i: int| 0 <= i < t.len() && !is_digit(#[trigger] t[i], radix);
            assert(!is_digit(u[i], radix));
        }
    }
    if s.len() > 0 && s[0] != '+' {
        assert((plus + s).drop_first() =~= s);
    }
}

} // verus!
