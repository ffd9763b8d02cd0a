//! Percent-coding of URL paths and escaping of XML text.

use vstd::prelude::*;
use vstd::slice::slice_subrange;
use vstd::utf8::{
    encode_utf8, encode_utf8_decode_utf8, encode_utf8_valid_utf8, is_ascii_chars,
    is_ascii_chars_encode_utf8,
};

use crate::bytes::append_bytes;
use crate::number::{digit, digit_char};
use crate::text::{lossy_string, lossy_text};

verus! {

// ---------------------------------------------------------------------------
// Percent-decoding
// ---------------------------------------------------------------------------
/// Whether `b` is a hexadecimal digit.
pub open spec fn is_hex(b: u8) -> bool {
    0x30 <= b <= 0x39 || 0x41 <= b <= 0x46 || 0x61 <= b <= 0x66
}

/// The value of the hexadecimal digit `b`.
pub open spec fn hex_value(b: u8) -> int {
    if b <= 0x39 {
        b - 0x30
    } else if b <= 0x46 {
        b - 0x41 + 10
    } else {
        b - 0x61 + 10
    }
}

/// Whether `b` begins with `%` and two hexadecimal digits.
pub open spec fn begins_escape(b: Seq<u8>) -> bool {
    b.len() >= 3 && b[0] == 0x25 && is_hex(b[1]) && is_hex(b[2])
}

/// The bytes that a percent-coded path stands for. What follows its first `?` or
/// `#`, and these themselves, are no longer path and left as they are.
pub open spec fn percent_decoded(b: Seq<u8>) -> Seq<u8>
    decreases b.len(),
{
    if b.len() == 0 || b[0] == 0x3f || b[0] == 0x23 {
        b
    } else if begins_escape(b) {
        seq![(hex_value(b[1]) * 16 + hex_value(b[2])) as u8] + percent_decoded(b.skip(3))
    } else {
        seq![b[0]] + percent_decoded(b.skip(1))
    }
}

/// The value of the hexadecimal digit `b`, if it is one.
fn hex_digit(b: u8) -> (r: Option<u8>)
    ensures
        r is Some <==> is_hex(b),
        r matches Some(v) ==> v == hex_value(b) && v < 16,
{
    if 0x30 <= b && b <= 0x39 {
        Some(b - 0x30)
    } else if 0x41 <= b && b <= 0x46 {
        Some(b - 0x41 + 10)
    } else if 0x61 <= b && b <= 0x66 {
        Some(b - 0x61 + 10)
    } else {
        None
    }
}

/// The bytes that a percent-coded path stands for. A `%` without two hexadecimal
/// digits behind it stands for itself, and decoding stops at a `?` or `#`.
pub fn percent_decode_bytes(input: &[u8]) -> (r: Vec<u8>)
    ensures
        r@ == percent_decoded(input@),
{
    let mut out: Vec<u8> = Vec::new();
    let mut i: usize = 0;
    assert(input@.skip(0) =~= input@);
    assert(out@ + percent_decoded(input@) =~= percent_decoded(input@));
    while i < input.len() && input[i] != 0x3f && input[i] != 0x23
        invariant
            i <= input.len(),
            out@ + percent_decoded(input@.skip(i as int)) == percent_decoded(input@),
        decreases input.len() - i,
    {
        let ghost rest = input@.skip(i as int);
        let ghost before = out@;
        if input.len() - i >= 3 && input[i] == 0x25 {
            if let (Some(h), Some(l)) = (hex_digit(input[i + 1]), hex_digit(input[i + 2])) {
                out.push(h * 16 + l);
                i += 3;
                assert(begins_escape(rest));
                assert(rest.skip(3) =~= input@.skip(i as int));
                assert(out@ + percent_decoded(input@.skip(i as int)) =~= before + percent_decoded(
                    rest,
                ));
                continue;
            }
        }
        out.push(input[i]);
        i += 1;
        assert(!begins_escape(rest));
        assert(rest.skip(1) =~= input@.skip(i as int));
        assert(out@ + percent_decoded(input@.skip(i as int)) =~= before + percent_decoded(rest));
    }
    let rest = slice_subrange(input, i, input.len());
    assert(rest@ =~= input@.skip(i as int));
    append_bytes(&mut out, rest);
    out
}

/// Decodes the `%XX` escapes of a URL path, and reads the bytes as UTF-8, with
/// replacement characters where they are not. Decoding stops at `?` (query) and `#`.
pub fn percent_decode(input: &str) -> (r: String)
    ensures
        r@ == lossy_text(percent_decoded(encode_utf8(input@))),
{
    lossy_string(percent_decode_bytes(input.as_bytes()).as_slice())
}

// ---------------------------------------------------------------------------
// Percent-encoding
// ---------------------------------------------------------------------------
/// The bytes that stand for themselves in an encoded path: ASCII letters and
/// digits, `-`, `_`, `.`, `~` and `/`.
pub open spec fn is_kept(b: u8) -> bool {
    ||| 0x41 <= b <= 0x5a
    ||| 0x61 <= b <= 0x7a
    ||| 0x30 <= b <= 0x39
    ||| b == 0x2d
    ||| b == 0x5f
    ||| b == 0x2e
    ||| b == 0x7e
    ||| b == 0x2f
}

/// One byte of a path, encoded.
pub open spec fn percent_encoded_byte(b: u8) -> Seq<char> {
    if is_kept(b) {
        seq![b as char]
    } else {
        seq!['%', digit_char((b / 16) as nat), digit_char((b % 16) as nat)]
    }
}

/// The bytes of a path, encoded.
pub open spec fn percent_encoded(b: Seq<u8>) -> Seq<char>
    decreases b.len(),
{
    if b.len() == 0 {
        seq![]
    } else {
        percent_encoded_byte(b[0]) + percent_encoded(b.skip(1))
    }
}

/// Percent-encodes a path for use as a link: path separators and unreserved
/// characters are kept, every other byte of the UTF-8 text is escaped.
pub fn percent_encode_path(input: &str) -> (r: String)
    ensures
        r@ == percent_encoded(encode_utf8(input@)),
{
    let bytes = input.as_bytes();
    let mut out = String::new();
    let mut i: usize = 0;
    assert(bytes@.skip(0) =~= bytes@);
    assert(out@ + percent_encoded(bytes@) =~= percent_encoded(bytes@));
    while i < bytes.len()
        invariant
            i <= bytes.len(),
            out@ + percent_encoded(bytes@.skip(i as int)) == percent_encoded(bytes@),
        decreases bytes.len() - i,
    {
        let b = bytes[i];
        let ghost rest = bytes@.skip(i as int);
        let ghost before = out@;
        let keep = (0x41 <= b && b <= 0x5a) || (0x61 <= b && b <= 0x7a) || (0x30 <= b && b <= 0x39)
            || b == 0x2d || b == 0x5f || b == 0x2e || b == 0x7e || b == 0x2f;
        if keep {
            out.push(b as char);
        } else {
            out.push('%');
            out.push(digit(b / 16));
            out.push(digit(b % 16));
        }
        i += 1;
        assert(out@ =~= before + percent_encoded_byte(b));
        assert(rest.skip(1) =~= bytes@.skip(i as int));
        assert(out@ + percent_encoded(bytes@.skip(i as int)) =~= before + percent_encoded(rest));
    }
    assert(out@ =~= out@ + percent_encoded(bytes@.skip(i as int)));
    out
}

/// The characters that can occur in an encoded path.
pub open spec fn is_link_char(c: char) -> bool {
    ||| c == '%'
    ||| 'A' <= c <= 'Z'
    ||| 'a' <= c <= 'z'
    ||| '0' <= c <= '9'
    ||| c == '-'
    ||| c == '_'
    ||| c == '.'
    ||| c == '~'
    ||| c == '/'
}

/// The law of safe links: an encoded path consists of unreserved characters,
/// separators and percent signs.
pub proof fn law_encoded_path_is_link(b: Seq<u8>)
    ensures
        forall|i: int|
            0 <= i < percent_encoded(b).len() ==> is_link_char(#[trigger] percent_encoded(b)[i]),
    decreases b.len(),
{
    if b.len() > 0 {
        law_encoded_path_is_link(b.skip(1));
        let first = percent_encoded_byte(b[0]);
        let rest = percent_encoded(b.skip(1));
        assert forall|i: int| 0 <= i < percent_encoded(b).len() implies is_link_char(
            #[trigger] percent_encoded(b)[i],
        ) by {
            if i < first.len() {
                assert(percent_encoded(b)[i] == first[i]);
            } else {
                assert(percent_encoded(b)[i] == rest[i - first.len()]);
            }
        }
    }
}

/// The ASCII characters of `s` as bytes.
spec fn ascii_bytes(s: Seq<char>) -> Seq<u8> {
    Seq::new(s.len(), |i: int| s[i] as u8)
}

/// An encoded path decodes to the bytes that it was made from.
proof fn lemma_decode_encoded(b: Seq<u8>)
    ensures
        percent_decoded(ascii_bytes(percent_encoded(b))) == b,
    decreases b.len(),
{
    let e = ascii_bytes(percent_encoded(b));
    if b.len() == 0 {
        assert(e =~= seq![]);
        assert(b =~= seq![]);
    } else {
        let x = b[0];
        let rest = ascii_bytes(percent_encoded(b.skip(1)));
        lemma_decode_encoded(b.skip(1));
        assert(b =~= seq![x] + b.skip(1));
        if is_kept(x) {
            assert(e[0] == x);
            assert(!begins_escape(e));
            assert(e.skip(1) =~= rest);
        } else {
            assert(e[0] == 0x25u8);
            assert(e[1] == digit_char((x / 16) as nat) as u8);
            assert(e[2] == digit_char((x % 16) as nat) as u8);
            assert(is_hex(e[1]) && hex_value(e[1]) == x / 16);
            assert(is_hex(e[2]) && hex_value(e[2]) == x % 16);
            assert(begins_escape(e));
            assert(e.skip(3) =~= rest);
        }
    }
}

/// The round-trip law of links: decoding the encoded form of a path gives the
/// path back.
pub proof fn law_percent_round_trip(path: Seq<char>)
    ensures
        percent_decoded(encode_utf8(percent_encoded(encode_utf8(path)))) == encode_utf8(path),
        lossy_text(percent_decoded(encode_utf8(percent_encoded(encode_utf8(path))))) == path,
{
    let b = encode_utf8(path);
    let e = percent_encoded(b);
    law_encoded_path_is_link(b);
    assert(is_ascii_chars(e)) by {
        assert forall|i: int| 0 <= i < e.len() implies '\0' <= #[trigger] e[i] <= '\u{7f}' by {
            assert(is_link_char(e[i]));
        }
    }
    is_ascii_chars_encode_utf8(e);
    assert(encode_utf8(e) =~= ascii_bytes(e));
    lemma_decode_encoded(b);
    encode_utf8_valid_utf8(path);
    encode_utf8_decode_utf8(path);
}

// ---------------------------------------------------------------------------
// XML
// ---------------------------------------------------------------------------
/// One character of XML text, escaped.
pub open spec fn xml_escaped_char(c: char) -> Seq<char> {
    if c == '&' {
        "&amp;"@
    } else if c == '<' {
        "&lt;"@
    } else if c == '>' {
        "&gt;"@
    } else if c == '"' {
        "&quot;"@
    } else if c == '\'' {
        "&apos;"@
    } else {
        seq![c]
    }
}

/// XML text, escaped.
pub open spec fn xml_escaped(s: Seq<char>) -> Seq<char>
    decreases s.len(),
{
    if s.len() == 0 {
        seq![]
    } else {
        xml_escaped_char(s[0]) + xml_escaped(s.skip(1))
    }
}

/// Escapes text for use in XML elements and attributes.
pub fn xml_escape(s: &str) -> (r: String)
    ensures
        r@ == xml_escaped(s@),
{
    let mut out = String::new();
    assert(s@.skip(0) =~= s@);
    assert(out@ + xml_escaped(s@) =~= xml_escaped(s@));
    for c in it: s.chars()
        invariant
            it.seq() == s@,
            out@ + xml_escaped(s@.skip(it.index() as int)) == xml_escaped(s@),
    {
        let ghost rest = s@.skip(it.index() as int);
        let ghost before = out@;
        if c == '&' {
            out.append("&amp;");
        } else if c == '<' {
            out.append("&lt;");
        } else if c == '>' {
            out.append("&gt;");
        } else if c == '"' {
            out.append("&quot;");
        } else if c == '\'' {
            out.append("&apos;");
        } else {
            out.push(c);
        }
        assert(out@ =~= before + xml_escaped_char(c));
        assert(rest.skip(1) =~= s@.skip(it.index() as int + 1));
        assert(out@ + xml_escaped(rest.skip(1)) =~= before + xml_escaped(rest));
    }
    assert(xml_escaped(s@.skip(s@.len() as int)) =~= seq![]);
    assert(out@ =~= out@ + xml_escaped(s@.skip(s@.len() as int)));
    out
}

/// The law of escaping: escaped text holds no character that could end the text
/// or an attribute, or begin an element.
pub proof fn law_escaped_text_is_inert(s: Seq<char>)
    ensures
        forall|i: int|
            0 <= i < xml_escaped(s).len() ==> {
                let c = #[trigger] xml_escaped(s)[i];
                c != '<' && c != '>' && c != '"' && c != '\''
            },
    decreases s.len(),
{
    if s.len() > 0 {
        law_escaped_text_is_inert(s.skip(1));
        reveal_strlit("&amp;");
        reveal_strlit("&lt;");
        reveal_strlit("&gt;");
        reveal_strlit("&quot;");
        reveal_strlit("&apos;");
        let first = xml_escaped_char(s[0]);
        let rest = xml_escaped(s.skip(1));
        assert forall|i: int| 0 <= i < xml_escaped(s).len() implies {
            let c = #[trigger] xml_escaped(s)[i];
            c != '<' && c != '>' && c != '"' && c != '\''
        } by {
            if i < first.len() {
                assert(xml_escaped(s)[i] == first[i]);
            } else {
                assert(xml_escaped(s)[i] == rest[i - first.len()]);
            }
        }
    }
}

/// The length and the character of an entity at the front of `s`; a character
/// that begins no entity stands for itself.
pub open spec fn xml_first(s: Seq<char>) -> (nat, char) {
    if s.len() >= 5 && s.take(5) == "&amp;"@ {
        (5, '&')
    } else if s.len() >= 4 && s.take(4) == "&lt;"@ {
        (4, '<')
    } else if s.len() >= 4 && s.take(4) == "&gt;"@ {
        (4, '>')
    } else if s.len() >= 6 && s.take(6) == "&quot;"@ {
        (6, '"')
    } else if s.len() >= 6 && s.take(6) == "&apos;"@ {
        (6, '\'')
    } else {
        (1, s[0])
    }
}

/// XML text with its entities resolved.
pub open spec fn xml_unescaped(s: Seq<char>) -> Seq<char>
    decreases s.len(),
{
    if s.len() == 0 {
        seq![]
    } else {
        let (n, c) = xml_first(s);
        seq![c] + xml_unescaped(s.skip(n as int))
    }
}

/// The round-trip law of escaping: a reader that resolves the entities sees the
/// text that was escaped.
pub proof fn law_xml_round_trip(s: Seq<char>)
    ensures
        xml_unescaped(xml_escaped(s)) == s,
    decreases s.len(),
{
    if s.len() == 0 {
        assert(xml_escaped(s) =~= seq![]);
        assert(s =~= seq![]);
    } else {
        law_xml_round_trip(s.skip(1));
        reveal_strlit("&amp;");
        reveal_strlit("&lt;");
        reveal_strlit("&gt;");
        reveal_strlit("&quot;");
        reveal_strlit("&apos;");
        let first = xml_escaped_char(s[0]);
        let rest = xml_escaped(s.skip(1));
        let e = first + rest;
        assert(xml_escaped(s) == e);
        assert(e.take(first.len() as int) =~= first);
        assert(e.skip(first.len() as int) =~= rest);
        assert(e[0] == first[0]);
        if e.len() >= 2 && first.len() >= 2 {
            assert(e[1] == first[1]);
            assert(e[2] == first[2]);
        }
        if s[0] == '<' {
            assert(e.take(4) =~= "&lt;"@);
            if e.len() >= 5 {
                assert(e.take(5)[1] == 'l');
                assert("&amp;"@[1] == 'a');
            }
        }
        if s[0] == '>' {
            assert(e.take(4)[1] == 'g');
            assert("&lt;"@[1] == 'l');
            if e.len() >= 5 {
                assert(e.take(5)[1] == 'g');
                assert("&amp;"@[1] == 'a');
            }
        }
        if s[0] == '"' {
            assert(e.take(4)[1] == 'q');
            assert(e.take(5)[1] == 'q');
        }
        if s[0] == '\'' {
            assert(e.take(4)[1] == 'a');
            assert(e.take(5)[2] == 'p');
            assert("&amp;"@[2] == 'm');
            assert(e.take(6)[1] == 'a');
            assert("&quot;"@[1] == 'q');
        }
        if first.len() == 1 {
            if e.len() >= 4 {
                assert(e.take(4)[0] == s[0]);
            }
            if e.len() >= 5 {
                assert(e.take(5)[0] == s[0]);
            }
            if e.len() >= 6 {
                assert(e.take(6)[0] == s[0]);
            }
        }
        assert(xml_first(e) == (first.len(), s[0]));
        assert(seq![s[0]] + s.skip(1) =~= s);
    }
}

/// What decoding does at the front of a path: an escape is the byte that its two
/// hexadecimal digits name, in either case of the letters; a `?` or `#` ends the
/// path; and any other byte, a `%` without two digits too, stands for itself.
pub proof fn law_escapes_are_decoded(b: u8, h: u8, l: u8, hi: int, lo: int, rest: Seq<u8>)
    requires
        (0x30 <= h <= 0x39 && hi == h - 0x30) || (0x41 <= h <= 0x46 && hi == h - 0x41 + 10) || (0x61
            <= h <= 0x66 && hi == h - 0x61 + 10),
        (0x30 <= l <= 0x39 && lo == l - 0x30) || (0x41 <= l <= 0x46 && lo == l - 0x41 + 10) || (0x61
            <= l <= 0x66 && lo == l - 0x61 + 10),
    ensures
        percent_decoded(seq![]) == Seq::<u8>::empty(),
        percent_decoded(seq![0x25u8, h, l] + rest) == seq![(16 * hi + lo) as u8] + percent_decoded(
            rest,
        ),
        b == 0x3f || b == 0x23 ==> percent_decoded(seq![b] + rest) == seq![b] + rest,
        b != 0x3f && b != 0x23 && b != 0x25 ==> percent_decoded(seq![b] + rest) == seq![b]
            + percent_decoded(rest),
        rest.len() < 2 ==> percent_decoded(seq![0x25u8] + rest) == seq![0x25u8] + percent_decoded(
            rest,
        ),
        rest.len() >= 1 && !(0x30 <= rest[0] <= 0x39 || 0x41 <= rest[0] <= 0x46 || 0x61 <= rest[0]
            <= 0x66) ==> percent_decoded(seq![0x25u8] + rest) == seq![0x25u8] + percent_decoded(
            rest,
        ),
        rest.len() >= 2 && !(0x30 <= rest[1] <= 0x39 || 0x41 <= rest[1] <= 0x46 || 0x61 <= rest[1]
            <= 0x66) ==> percent_decoded(seq![0x25u8] + rest) == seq![0x25u8] + percent_decoded(
            rest,
        ),
{
    assert((seq![0x25u8, h, l] + rest).skip(3) =~= rest);
    assert((seq![b] + rest).skip(1) =~= rest);
    assert((seq![0x25u8] + rest).skip(1) =~= rest);
}

/// How a path is encoded, byte by byte: letters, digits, `-`, `_`, `.`, `~` and `/`
/// as they are, any other byte as `%` and its two hexadecimal digits.
pub proof fn law_bytes_are_encoded(a: Seq<u8>, c: Seq<u8>, b: u8)
    ensures
        percent_encoded(a + c) == percent_encoded(a) + percent_encoded(c),
        percent_encoded(seq![]) == Seq::<char>::empty(),
        (0x41 <= b <= 0x5a || 0x61 <= b <= 0x7a || 0x30 <= b <= 0x39 || b == 0x2d || b == 0x5f || b
            == 0x2e || b == 0x7e || b == 0x2f) ==> percent_encoded(seq![b]) == seq![b as char],
        !(0x41 <= b <= 0x5a || 0x61 <= b <= 0x7a || 0x30 <= b <= 0x39 || b == 0x2d || b == 0x5f || b
            == 0x2e || b == 0x7e || b == 0x2f) ==> percent_encoded(seq![b]) == seq![
            '%',
            "0123456789abcdef"@[b as int / 16],
            "0123456789abcdef"@[b as int % 16],
        ],
    decreases a.len(),
{
    if a.len() == 0 {
        assert(a + c =~= c);
        assert(percent_encoded(a) + percent_encoded(c) =~= percent_encoded(c));
    } else {
        law_bytes_are_encoded(a.skip(1), c, b);
        assert((a + c).skip(1) =~= a.skip(1) + c);
        assert(percent_encoded(a + c) =~= percent_encoded(a) + percent_encoded(c));
    }
    let one = seq![b];
    assert(one.skip(1) =~= seq![]);
    assert(percent_encoded(one.skip(1)) =~= seq![]);
    assert(percent_encoded(one) =~= percent_encoded_byte(b));
    lemma_digit_letter(b as int / 16);
    lemma_digit_letter(b as int % 16);
}

/// The hexadecimal digits in their order.
proof fn lemma_digit_letter(d: int)
    requires
        0 <= d < 16,
    ensures
        digit_char(d as nat) == "0123456789abcdef"@[d],
{
    reveal_strlit("0123456789abcdef");
    if d < 8 {
        assert(d == 0 || d == 1 || d == 2 || d == 3 || d == 4 || d == 5 || d == 6 || d == 7);
    } else {
        assert(d == 8 || d == 9 || d == 10 || d == 11 || d == 12 || d == 13 || d == 14 || d == 15);
    }
}

/// How text is escaped, character by character: the five characters that XML gives
/// a meaning as their entities, every other as it is.
pub proof fn law_characters_are_escaped(a: Seq<char>, b: Seq<char>, c: char)
    ensures
        xml_escaped(a + b) == xml_escaped(a) + xml_escaped(b),
        xml_escaped(seq![]) == Seq::<char>::empty(),
        xml_escaped(seq!['&']) == "&amp;"@,
        xml_escaped(seq!['<']) == "&lt;"@,
        xml_escaped(seq!['>']) == "&gt;"@,
        xml_escaped(seq!['"']) == "&quot;"@,
        xml_escaped(seq!['\'']) == "&apos;"@,
        c != '&' && c != '<' && c != '>' && c != '"' && c != '\'' ==> xml_escaped(seq![c])
            == seq![c],
    decreases a.len(),
{
    if a.len() == 0 {
        assert(a + b =~= b);
        assert(xml_escaped(a) + xml_escaped(b) =~= xml_escaped(b));
    } else {
        law_characters_are_escaped(a.skip(1), b, c);
        assert((a + b).skip(1) =~= a.skip(1) + b);
        assert(xml_escaped(a + b) =~= xml_escaped(a) + xml_escaped(b));
    }
    lemma_escaped_one('&');
    lemma_escaped_one('<');
    lemma_escaped_one('>');
    lemma_escaped_one('"');
    lemma_escaped_one('\'');
    lemma_escaped_one(c);
}

/// A text of one character, escaped.
proof fn lemma_escaped_one(c: char)
    ensures
        xml_escaped(seq![c]) == xml_escaped_char(c),
{
    assert(seq![c].skip(1) =~= seq![]);
    assert(xml_escaped(seq![c].skip(1)) =~= seq![]);
    assert(xml_escaped(seq![c]) =~= xml_escaped_char(c));
}

} // verus!
