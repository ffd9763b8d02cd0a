//! Base64 with the standard alphabet.

use vstd::prelude::*;

verus! {

/// The value of a symbol of the alphabet.
pub open spec fn sextet(c: char) -> Option<u8> {
    if 'A' <= c <= 'Z' {
        Some((c as u32 - 'A' as u32) as u8)
    } else if 'a' <= c <= 'z' {
        Some((c as u32 - 'a' as u32 + 26) as u8)
    } else if '0' <= c <= '9' {
        Some((c as u32 - '0' as u32 + 52) as u8)
    } else if c == '+' {
        Some(62u8)
    } else if c == '/' {
        Some(63u8)
    } else {
        None
    }
}

/// Whether a character is passed over: padding and ASCII white space.
pub open spec fn is_filler(c: char) -> bool {
    c == '=' || c == ' ' || c == '\t' || c == '\n' || c == '\r' || c == '\u{c}'
}

/// The values of the symbols in `s`, unless it holds anything else than symbols
/// and filler.
pub open spec fn sextets(s: Seq<char>) -> Option<Seq<u8>>
    decreases s.len(),
{
    if s.len() == 0 {
        Some(seq![])
    } else {
        match sextets(s.drop_last()) {
            Some(v) => if is_filler(s.last()) {
                Some(v)
            } else {
                match sextet(s.last()) {
                    Some(d) => Some(v.push(d)),
                    None => None,
                }
            },
            None => None,
        }
    }
}

/// The bytes in the bits of sextets, from the front; what is left over of the last
/// sextet is dropped.
pub open spec fn joined_bits(v: Seq<u8>) -> Seq<u8>
    decreases v.len(),
{
    if v.len() < 2 {
        seq![]
    } else if v.len() == 2 {
        seq![high_byte(v[0], v[1])]
    } else if v.len() == 3 {
        seq![high_byte(v[0], v[1]), middle_byte(v[1], v[2])]
    } else {
        seq![high_byte(v[0], v[1]), middle_byte(v[1], v[2]), low_byte(v[2], v[3])] + joined_bits(
            v.skip(4),
        )
    }
}

/// The first byte of a group: six bits of `a`, then two of `b`.
pub open spec fn high_byte(a: u8, b: u8) -> u8 {
    (a * 4 + b / 16) as u8
}

/// The second byte of a group: four bits of `b`, then four of `c`.
pub open spec fn middle_byte(b: u8, c: u8) -> u8 {
    (b % 16 * 16 + c / 4) as u8
}

/// The third byte of a group: two bits of `c`, then six of `d`.
pub open spec fn low_byte(c: u8, d: u8) -> u8 {
    (c % 4 * 64 + d) as u8
}

/// The bytes that `s` stands for.
pub open spec fn base64_decoded(s: Seq<char>) -> Option<Seq<u8>> {
    match sextets(s) {
        Some(v) => Some(joined_bits(v)),
        None => None,
    }
}

/// The value of a symbol of the alphabet.
fn symbol_value(c: char) -> (r: Option<u8>)
    ensures
        r == sextet(c),
        r matches Some(d) ==> d < 64,
{
    if 'A' <= c && c <= 'Z' {
        Some((c as u32 - 'A' as u32) as u8)
    } else if 'a' <= c && c <= 'z' {
        Some((c as u32 - 'a' as u32 + 26) as u8)
    } else if '0' <= c && c <= '9' {
        Some((c as u32 - '0' as u32 + 52) as u8)
    } else if c == '+' {
        Some(62)
    } else if c == '/' {
        Some(63)
    } else {
        None
    }
}

/// The values of the symbols in `s`.
fn symbol_values(s: &[char]) -> (r: Option<Vec<u8>>)
    ensures
        r is Some <==> sextets(s@) is Some,
        r matches Some(v) ==> sextets(s@) == Some(v@),
        r matches Some(v) ==> forall|i: int| 0 <= i < v.len() ==> v[i] < 64,
{
    let mut out: Vec<u8> = Vec::new();
    let mut i: usize = 0;
    while i < s.len()
        invariant
            i <= s.len(),
            sextets(s@.take(i as int)) == Some(out@),
            forall|j: int| 0 <= j < out.len() ==> out[j] < 64,
        decreases s.len() - i,
    {
        let ghost front = s@.take(i + 1);
        assert(front.drop_last() =~= s@.take(i as int));
        let c = s[i];
        if !(c == '=' || c == ' ' || c == '\t' || c == '\n' || c == '\r' || c == '\u{c}') {
            match symbol_value(c) {
                Some(d) => {
                    out.push(d);
                },
                None => {
                    proof {
                        lemma_invalid(s@, i + 1);
                    }
                    return None;
                },
            }
        }
        i += 1;
    }
    assert(s@.take(i as int) =~= s@);
    Some(out)
}

/// A text with an invalid front is invalid.
proof fn lemma_invalid(s: Seq<char>, n: int)
    requires
        0 <= n <= s.len(),
        sextets(s.take(n)) is None,
    ensures
        sextets(s) is None,
    decreases s.len() - n,
{
    if n < s.len() {
        assert(s.take(n + 1).drop_last() =~= s.take(n));
        lemma_invalid(s, n + 1);
    } else {
        assert(s.take(n) =~= s);
    }
}

/// Decodes base64 with the standard alphabet. Padding may be missing, and white
/// space is passed over; anything else that is not a symbol makes it invalid.
pub fn base64_decode(input: &[char]) -> (r: Option<Vec<u8>>)
    ensures
        r is Some <==> base64_decoded(input@) is Some,
        r matches Some(b) ==> base64_decoded(input@) == Some(b@),
{
    let v = match symbol_values(input) {
        Some(v) => v,
        None => {
            return None;
        },
    };
    let n: usize = v.len();
    let mut out: Vec<u8> = Vec::new();
    let mut i: usize = 0;
    assert(v@.skip(0) =~= v@);
    while n - i >= 4
        invariant
            i <= n,
            n == v.len(),
            forall|j: int| 0 <= j < v.len() ==> v[j] < 64,
            out@ + joined_bits(v@.skip(i as int)) == joined_bits(v@),
        decreases n - i,
    {
        let ghost rest = v@.skip(i as int);
        let ghost before = out@;
        assert(rest.skip(4) =~= v@.skip(i + 4));
        out.push(v[i] * 4 + v[i + 1] / 16);
        out.push(v[i + 1] % 16 * 16 + v[i + 2] / 4);
        out.push(v[i + 2] % 4 * 64 + v[i + 3]);
        assert(out@ + joined_bits(rest.skip(4)) =~= before + joined_bits(rest));
        i += 4;
    }
    let ghost before = out@;
    if n - i >= 2 {
        out.push(v[i] * 4 + v[i + 1] / 16);
    }
    if n - i == 3 {
        out.push(v[i + 1] % 16 * 16 + v[i + 2] / 4);
    }
    assert(out@ =~= before + joined_bits(v@.skip(i as int)));
    Some(out)
}

// ---------------------------------------------------------------------------
// Laws
// ---------------------------------------------------------------------------
/// The symbol with the value `d`.
pub open spec fn symbol(d: int) -> char {
    if d < 26 {
        ('A' as u32 + d) as char
    } else if d < 52 {
        ('a' as u32 + d - 26) as char
    } else if d < 62 {
        ('0' as u32 + d - 52) as char
    } else if d == 62 {
        '+'
    } else {
        '/'
    }
}

/// The symbols for `b`, without padding.
pub open spec fn base64_symbols(b: Seq<u8>) -> Seq<char>
    decreases b.len(),
{
    if b.len() == 0 {
        seq![]
    } else if b.len() == 1 {
        seq![symbol(b[0] as int / 4), symbol(b[0] as int % 4 * 16)]
    } else if b.len() == 2 {
        seq![
            symbol(b[0] as int / 4),
            symbol(b[0] as int % 4 * 16 + b[1] as int / 16),
            symbol(b[1] as int % 16 * 4),
        ]
    } else {
        seq![
            symbol(b[0] as int / 4),
            symbol(b[0] as int % 4 * 16 + b[1] as int / 16),
            symbol(b[1] as int % 16 * 4 + b[2] as int / 64),
            symbol(b[2] as int % 64),
        ] + base64_symbols(b.skip(3))
    }
}

/// The padding that makes a group of the symbols for `n` bytes whole.
pub open spec fn padding(n: nat) -> Seq<char> {
    if n % 3 == 1 {
        seq!['=', '=']
    } else if n % 3 == 2 {
        seq!['=']
    } else {
        seq![]
    }
}

/// The base64 text of `b`.
pub open spec fn base64_encoded(b: Seq<u8>) -> Seq<char> {
    base64_symbols(b) + padding(b.len())
}

/// A symbol has the value that it stands for.
proof fn lemma_symbol(d: int)
    requires
        0 <= d < 64,
    ensures
        sextet(symbol(d)) == Some(d as u8),
        !is_filler(symbol(d)),
{
}

/// The sextets of two texts in a row.
proof fn lemma_sextets_concat(a: Seq<char>, b: Seq<char>)
    requires
        sextets(a) is Some,
        sextets(b) is Some,
    ensures
        sextets(a + b) == Some(sextets(a)->0 + sextets(b)->0),
    decreases b.len(),
{
    if b.len() == 0 {
        assert(a + b =~= a);
        assert(sextets(a)->0 + sextets(b)->0 =~= sextets(a)->0);
    } else {
        assert((a + b).drop_last() =~= a + b.drop_last());
        assert((a + b).last() == b.last());
        lemma_sextets_concat(a, b.drop_last());
        if !is_filler(b.last()) {
            let d = sextet(b.last())->0;
            assert((sextets(a)->0 + sextets(b.drop_last())->0).push(d) =~= sextets(a)->0
                + sextets(b.drop_last())->0.push(d));
        }
    }
}

/// The sextets of a symbol behind a text.
proof fn lemma_sextets_push(s: Seq<char>, d: int)
    requires
        sextets(s) is Some,
        0 <= d < 64,
    ensures
        sextets(s.push(symbol(d))) == Some(sextets(s)->0.push(d as u8)),
{
    lemma_symbol(d);
    assert(s.push(symbol(d)).drop_last() =~= s);
}

/// Decoding the symbols for `b` gives `b` back.
#[verifier::spinoff_prover]
#[verifier::rlimit(60)]
proof fn lemma_symbols_decode(b: Seq<u8>)
    ensures
        base64_decoded(base64_symbols(b)) == Some(b),
    decreases b.len(),
{
    let e = Seq::<char>::empty();
    assert(sextets(e) == Some(Seq::<u8>::empty()));
    if b.len() == 0 {
        assert(joined_bits(Seq::<u8>::empty()) =~= b);
    } else if b.len() == 1 {
        let x = b[0] as int;
        lemma_sextets_push(e, x / 4);
        lemma_sextets_push(e.push(symbol(x / 4)), x % 4 * 16);
        let v = seq![(x / 4) as u8, (x % 4 * 16) as u8];
        assert(base64_symbols(b) =~= e.push(symbol(x / 4)).push(symbol(x % 4 * 16)));
        assert(sextets(base64_symbols(b))->0 =~= v);
        assert(joined_bits(v) =~= b);
    } else {
        let x = b[0] as int;
        let y = b[1] as int;
        let z = if b.len() == 2 {
            0
        } else {
            b[2] as int
        };
        let d0 = x / 4;
        let d1 = x % 4 * 16 + y / 16;
        let d2 = y % 16 * 4 + z / 64;
        let s1 = e.push(symbol(d0));
        let s2 = s1.push(symbol(d1));
        let s3 = s2.push(symbol(d2));
        lemma_sextets_push(e, d0);
        lemma_sextets_push(s1, d1);
        lemma_sextets_push(s2, d2);
        if b.len() == 2 {
            let v = seq![d0 as u8, d1 as u8, d2 as u8];
            assert(base64_symbols(b) =~= s3);
            assert(sextets(s3)->0 =~= v);
            assert(joined_bits(v) =~= b);
        } else {
            let d3 = z % 64;
            let s4 = s3.push(symbol(d3));
            lemma_sextets_push(s3, d3);
            let v = seq![d0 as u8, d1 as u8, d2 as u8, d3 as u8];
            assert(sextets(s4)->0 =~= v);
            let rest = b.skip(3);
            lemma_symbols_decode(rest);
            lemma_sextets_concat(s4, base64_symbols(rest));
            assert(base64_symbols(b) =~= s4 + base64_symbols(rest));
            let w = v + sextets(base64_symbols(rest))->0;
            assert(w.skip(4) =~= sextets(base64_symbols(rest))->0);
            assert(joined_bits(w) =~= b);
        }
    }
}

/// Decoding gives back the bytes that were encoded, with and without padding.
pub proof fn law_base64_round_trip(b: Seq<u8>)
    ensures
        base64_decoded(base64_encoded(b)) == Some(b),
        base64_decoded(base64_symbols(b)) == Some(b),
{
    lemma_symbols_decode(b);
    reveal_with_fuel(sextets, 3);
    let p = padding(b.len());
    assert(sextets(p) == Some(Seq::<u8>::empty())) by {
        if b.len() % 3 == 1 {
            assert(p.drop_last() =~= seq!['=']);
            assert(p.drop_last().drop_last() =~= Seq::<char>::empty());
        } else if b.len() % 3 == 2 {
            assert(p.drop_last() =~= Seq::<char>::empty());
        }
    }
    lemma_sextets_concat(base64_symbols(b), p);
    assert(sextets(base64_symbols(b))->0 + Seq::<u8>::empty() =~= sextets(base64_symbols(b))->0);
}

/// Padding and white space anywhere in a base64 text change nothing.
pub proof fn law_base64_filler_is_passed_over(a: Seq<char>, c: char, b: Seq<char>)
    requires
        is_filler(c),
    ensures
        base64_decoded(a + seq![c] + b) == base64_decoded(a + b),
{
    lemma_filler(a, c, b);
}

/// Filler has no value.
proof fn lemma_filler(a: Seq<char>, c: char, b: Seq<char>)
    requires
        is_filler(c),
    ensures
        sextets(a + seq![c] + b) == sextets(a + b),
    decreases b.len(),
{
    let s = a + seq![c] + b;
    if b.len() == 0 {
        assert(s.drop_last() =~= a);
        assert(a + b =~= a);
    } else {
        assert(s.drop_last() =~= a + seq![c] + b.drop_last());
        assert((a + b).drop_last() =~= a + b.drop_last());
        lemma_filler(a, c, b.drop_last());
    }
}

/// The alphabet: the capital letters, the small letters, the digits, `+` and `/`
/// stand for 0 to 63 in this order, and no other character stands for anything.
pub proof fn law_base64_alphabet(c: char)
    ensures
        'A' <= c <= 'Z' ==> sextet(c) == Some((c as int - 'A' as int) as u8),
        'a' <= c <= 'z' ==> sextet(c) == Some((26 + (c as int - 'a' as int)) as u8),
        '0' <= c <= '9' ==> sextet(c) == Some((52 + (c as int - '0' as int)) as u8),
        c == '+' ==> sextet(c) == Some(62u8),
        c == '/' ==> sextet(c) == Some(63u8),
        sextet(c) is Some ==> 'A' <= c <= 'Z' || 'a' <= c <= 'z' || '0' <= c <= '9' || c == '+' || c
            == '/',
        is_filler(c) <==> c == '=' || c == ' ' || c == '\t' || c == '\n' || c == '\r' || c
            == '\u{c}',
{
}

/// Four symbols hold the bits of three bytes, in front of what follows; three the
/// bits of two, and two the bits of one, at the end.
pub proof fn law_base64_groups(a: char, b: char, c: char, d: char, rest: Seq<char>)
    requires
        sextet(a) is Some && sextet(b) is Some && sextet(c) is Some && sextet(d) is Some,
        base64_decoded(rest) is Some,
    ensures
        ({
            let (x, y, z, w) = (
                sextet(a)->0 as int,
                sextet(b)->0 as int,
                sextet(c)->0 as int,
                sextet(d)->0 as int,
            );
            let four = base64_decoded(seq![a, b, c, d] + rest);
            let three = base64_decoded(seq![a, b, c]);
            let two = base64_decoded(seq![a, b]);
            &&& four is Some && four->0.len() == 3 + base64_decoded(rest)->0.len()
            &&& four->0[0] * 65536 + four->0[1] * 256 + four->0[2] == x * 262144 + y * 4096 + z * 64
                + w
            &&& four->0.skip(3) == base64_decoded(rest)->0
            &&& three is Some && three->0.len() == 2 && three->0[0] * 256 + three->0[1] == (x * 4096
                + y * 64 + z) / 4
            &&& two is Some && two->0.len() == 1 && two->0[0] == (x * 64 + y) / 16
            &&& base64_decoded(seq![a]) == Some(Seq::<u8>::empty())
            &&& base64_decoded(seq![]) == Some(Seq::<u8>::empty())
        }),
{
    reveal_with_fuel(sextets, 5);
    let e = Seq::<char>::empty();
    let v = seq![sextet(a)->0, sextet(b)->0, sextet(c)->0, sextet(d)->0];
    let s4 = seq![a, b, c, d];
    let s3 = seq![a, b, c];
    let s2 = seq![a, b];
    let s1 = seq![a];
    assert(s4.drop_last() =~= s3);
    assert(s3.drop_last() =~= s2);
    assert(s2.drop_last() =~= s1);
    assert(s1.drop_last() =~= e);
    assert(!is_filler(a) && !is_filler(b) && !is_filler(c) && !is_filler(d));
    assert(sextets(s1)->0 =~= v.take(1));
    assert(sextets(s2)->0 =~= v.take(2));
    assert(sextets(s3)->0 =~= v.take(3));
    assert(sextets(s4)->0 =~= v);
    lemma_sextets_concat(s4, rest);
    let w = v + sextets(rest)->0;
    assert(w.skip(4) =~= sextets(rest)->0);
    let four = joined_bits(w);
    assert(four.skip(3) =~= joined_bits(sextets(rest)->0));
}

/// A character that is neither a symbol nor passed over makes a text invalid,
/// wherever it stands.
pub proof fn law_base64_refuses_other_characters(a: Seq<char>, c: char, b: Seq<char>)
    requires
        sextet(c) is None,
        !is_filler(c),
    ensures
        base64_decoded(a + seq![c] + b) is None,
{
    let s = a + seq![c] + b;
    let n = a.len() as int + 1;
    assert(s.take(n).last() == c);
    assert(sextets(s.take(n)) is None);
    lemma_invalid(s, n);
}

} // verus!
