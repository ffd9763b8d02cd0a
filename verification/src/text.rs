//! Text as sequences of characters: searching, splitting, trimming, folding.
//!
//! The functions here work on slices of characters, so that every result can be
//! stated as a part of the input.

use vstd::prelude::*;
use vstd::slice::slice_subrange;
use vstd::utf8::{
    decode_utf8, encode_utf8, encode_utf8_decode_utf8, encode_utf8_valid_utf8, valid_utf8,
};

use crate::seqs::{lemma_position_is, position, split, split_once};

verus! {

// ---------------------------------------------------------------------------
// What std does with strings and UTF-8
// ---------------------------------------------------------------------------
/// `String::push` appends one character to a string.
pub assume_specification[ String::push ](s: &mut String, c: char)
    ensures
        final(s)@ == old(s)@.push(c),
;

/// What `String::from_utf8_lossy` makes of bytes that are not UTF-8. Which
/// malformed stretches become one replacement character each is left to std.
pub uninterp spec fn replaced_utf8(bytes: Seq<u8>) -> Seq<char>;

/// The text that bytes stand for: their decoding where they are UTF-8, else
/// their decoding with replacement characters.
pub open spec fn lossy_text(bytes: Seq<u8>) -> Seq<char> {
    if valid_utf8(bytes) {
        decode_utf8(bytes)
    } else {
        replaced_utf8(bytes)
    }
}

/// `String::from_utf8_lossy`: bytes that are UTF-8 are decoded as they stand; of
/// any other bytes the result is `replaced_utf8`, of which nothing more is said.
#[verifier::external_body]
pub(crate) fn lossy_string(bytes: &[u8]) -> (r: String)
    ensures
        r@ == (if valid_utf8(bytes@) {
            decode_utf8(bytes@)
        } else {
            replaced_utf8(bytes@)
        }),
{
    String::from_utf8_lossy(bytes).into_owned()
}

/// `String::from_utf8`: a string exactly where the bytes are UTF-8, and then the
/// characters that they encode.
#[verifier::external_body]
pub(crate) fn utf8_string(bytes: Vec<u8>) -> (r: Option<String>)
    ensures
        r is Some <==> valid_utf8(bytes@),
        r matches Some(s) ==> s@ == decode_utf8(bytes@),
{
    String::from_utf8(bytes).ok()
}

// ---------------------------------------------------------------------------
// Characters
// ---------------------------------------------------------------------------
/// The characters with the Unicode property `White_Space`.
pub open spec fn is_space(c: char) -> bool {
    ||| '\u{9}' <= c <= '\u{d}'
    ||| c == ' '
    ||| c == '\u{85}'
    ||| c == '\u{a0}'
    ||| c == '\u{1680}'
    ||| '\u{2000}' <= c <= '\u{200a}'
    ||| c == '\u{2028}'
    ||| c == '\u{2029}'
    ||| c == '\u{202f}'
    ||| c == '\u{205f}'
    ||| c == '\u{3000}'
}

/// Whether `c` is white space.
pub fn char_is_space(c: char) -> (r: bool)
    ensures
        r == is_space(c),
{
    ('\u{9}' <= c && c <= '\u{d}') || c == ' ' || c == '\u{85}' || c == '\u{a0}' || c == '\u{1680}'
        || ('\u{2000}' <= c && c <= '\u{200a}') || c == '\u{2028}' || c == '\u{2029}' || c
        == '\u{202f}' || c == '\u{205f}' || c == '\u{3000}'
}

/// `c` with an ASCII capital letter made small.
pub open spec fn lower(c: char) -> char {
    if 'A' <= c <= 'Z' {
        (c as u32 + 32) as char
    } else {
        c
    }
}

/// `s` with its ASCII capital letters made small.
pub open spec fn lowered(s: Seq<char>) -> Seq<char> {
    s.map_values(|c: char| lower(c))
}

/// `c` with an ASCII capital letter made small.
pub fn char_lower(c: char) -> (r: char)
    ensures
        r == lower(c),
{
    if 'A' <= c && c <= 'Z' {
        (c as u8 + 32) as char
    } else {
        c
    }
}

// ---------------------------------------------------------------------------
// Strings to characters and back
// ---------------------------------------------------------------------------
/// The characters of `s`.
pub fn chars_of(s: &str) -> (r: Vec<char>)
    ensures
        r@ == s@,
{
    let mut out: Vec<char> = Vec::new();
    for c in it: s.chars()
        invariant
            out@ == it.seq().take(it.index() as int),
            it.seq() == s@,
    {
        out.push(c);
    }
    out
}

/// The string with the characters `s`.
pub fn string_of(s: &[char]) -> (r: String)
    ensures
        r@ == s@,
{
    let mut out = String::new();
    let mut i: usize = 0;
    while i < s.len()
        invariant
            i <= s.len(),
            out@ == s@.take(i as int),
        decreases s.len() - i,
    {
        out.push(s[i]);
        i += 1;
    }
    out
}

/// Whether two slices hold the same characters.
pub fn same_chars(a: &[char], b: &[char]) -> (r: bool)
    ensures
        r == (a@ == b@),
{
    if a.len() != b.len() {
        return false;
    }
    let mut i: usize = 0;
    while i < a.len()
        invariant
            i <= a.len(),
            a.len() == b.len(),
            forall|j: int| 0 <= j < i ==> a@[j] == b@[j],
        decreases a.len() - i,
    {
        if a[i] != b[i] {
            assert(a@[i as int] != b@[i as int]);
            return false;
        }
        i += 1;
    }
    assert(a@ =~= b@);
    true
}

/// Whether two strings hold the same characters.
pub fn same(a: &str, b: &str) -> (r: bool)
    ensures
        r == (a@ == b@),
{
    same_chars(chars_of(a).as_slice(), chars_of(b).as_slice())
}

/// Whether `s` holds the characters of the string `t`.
pub fn chars_are(s: &[char], t: &str) -> (r: bool)
    ensures
        r == (s@ == t@),
{
    same_chars(s, chars_of(t).as_slice())
}

/// Whether two strings are the same but for the case of ASCII letters.
pub fn same_ignoring_case(a: &[char], b: &str) -> (r: bool)
    ensures
        r == (lowered(a@) == lowered(b@)),
{
    same_chars(lower_chars(a).as_slice(), lower_chars(chars_of(b).as_slice()).as_slice())
}

/// `s` with its ASCII capital letters made small.
pub fn lower_chars(s: &[char]) -> (r: Vec<char>)
    ensures
        r@ == lowered(s@),
{
    let mut out: Vec<char> = Vec::new();
    let mut i: usize = 0;
    while i < s.len()
        invariant
            i <= s.len(),
            out@ == lowered(s@.take(i as int)),
        decreases s.len() - i,
    {
        out.push(char_lower(s[i]));
        i += 1;
        assert(out@ =~= lowered(s@.take(i as int)));
    }
    assert(s@.take(i as int) =~= s@);
    out
}

// ---------------------------------------------------------------------------
// Searching and splitting
// ---------------------------------------------------------------------------
/// What the slices in `v` hold.
pub open spec fn contents(v: Seq<&[char]>) -> Seq<Seq<char>> {
    v.map_values(|x: &[char]| x@)
}

/// The index of the first `c` in `s`, or the length of `s`.
pub fn find(s: &[char], c: char) -> (r: usize)
    ensures
        r == position(s@, c),
        r <= s.len(),
{
    let mut i: usize = 0;
    while i < s.len() && s[i] != c
        invariant
            i <= s.len(),
            forall|j: int| 0 <= j < i ==> s@[j] != c,
        decreases s.len() - i,
    {
        i += 1;
    }
    proof {
        lemma_position_is(s@, c, i as int);
    }
    i
}

/// What stands before and after the first `c` in `s`, if there is one.
pub fn split_once_at<'a>(s: &'a [char], c: char) -> (r: Option<(&'a [char], &'a [char])>)
    ensures
        r is Some <==> split_once(s@, c) is Some,
        r matches Some(p) ==> split_once(s@, c) == Some((p.0@, p.1@)),
{
    let p: usize = find(s, c);
    if p < s.len() {
        let before = slice_subrange(s, 0, p);
        let after = slice_subrange(s, p + 1, s.len());
        assert(before@ =~= s@.take(p as int));
        assert(after@ =~= s@.skip(p as int + 1));
        Some((before, after))
    } else {
        None
    }
}

/// The pieces of `s` between the occurrences of `c`.
pub fn split_at<'a>(s: &'a [char], c: char) -> (r: Vec<&'a [char]>)
    ensures
        contents(r@) == split(s@, c),
{
    let mut out: Vec<&'a [char]> = Vec::new();
    let mut rest: &'a [char] = s;
    let mut p: usize = find(rest, c);
    assert(contents(out@) + split(rest@, c) =~= split(s@, c));
    while p < rest.len()
        invariant
            p == position(rest@, c),
            p <= rest.len(),
            contents(out@) + split(rest@, c) == split(s@, c),
        decreases rest.len(),
    {
        let piece = slice_subrange(rest, 0, p);
        let next = slice_subrange(rest, p + 1, rest.len());
        assert(piece@ =~= rest@.take(p as int));
        assert(next@ =~= rest@.skip(p as int + 1));
        let ghost before = contents(out@);
        out.push(piece);
        assert(contents(out@) =~= before.push(piece@));
        assert(contents(out@) + split(next@, c) =~= before + split(rest@, c));
        rest = next;
        p = find(rest, c);
    }
    let ghost before = contents(out@);
    out.push(rest);
    assert(contents(out@) =~= before.push(rest@));
    assert(contents(out@) =~= split(s@, c));
    out
}

/// The index of the first CR LF in `s`, or the length of `s`.
pub open spec fn crlf_position(s: Seq<char>) -> nat
    decreases s.len(),
{
    if s.len() == 0 || (s.len() >= 2 && s[0] == '\r' && s[1] == '\n') {
        0
    } else {
        1 + crlf_position(s.drop_first())
    }
}

/// The pieces of `s` between its CR LF pairs.
pub open spec fn crlf_lines(s: Seq<char>) -> Seq<Seq<char>>
    decreases s.len(),
{
    let p = crlf_position(s);
    if p + 1 >= s.len() {
        seq![s]
    } else {
        seq![s.take(p as int)] + crlf_lines(s.skip(p as int + 2))
    }
}

/// Where a CR LF pair stands in `s`.
pub open spec fn crlf_at(s: Seq<char>, i: int) -> bool {
    0 <= i && i + 1 < s.len() && s[i] == '\r' && s[i + 1] == '\n'
}

/// Any index with the defining properties of `crlf_position` is `crlf_position`.
proof fn lemma_crlf_position_is(s: Seq<char>, p: int)
    requires
        0 <= p <= s.len(),
        p < s.len() ==> crlf_at(s, p),
        forall|i: int| 0 <= i < p ==> !crlf_at(s, i),
    ensures
        crlf_position(s) == p,
    decreases s.len(),
{
    if s.len() == 0 {
    } else if p == 0 {
    } else {
        assert(!crlf_at(s, 0));
        let t = s.drop_first();
        if p < s.len() {
            assert(crlf_at(t, p - 1));
        }
        assert forall|i: int| 0 <= i < p - 1 implies !crlf_at(t, i) by {
            assert(!crlf_at(s, i + 1));
        }
        lemma_crlf_position_is(t, p - 1);
    }
}

/// The index of the first CR LF in `s`, or the length of `s`.
fn find_crlf(s: &[char]) -> (r: usize)
    ensures
        r == crlf_position(s@),
        r <= s.len(),
        r < s.len() ==> r + 1 < s.len(),
{
    let mut i: usize = 0;
    while i < s.len()
        invariant
            i <= s.len(),
            forall|j: int| 0 <= j < i ==> !crlf_at(s@, j),
        decreases s.len() - i,
    {
        if s.len() - i >= 2 && s[i] == '\r' && s[i + 1] == '\n' {
            assert(crlf_at(s@, i as int));
            proof {
                lemma_crlf_position_is(s@, i as int);
            }
            return i;
        }
        i += 1;
    }
    proof {
        lemma_crlf_position_is(s@, i as int);
    }
    i
}

/// The pieces of `s` between its CR LF pairs.
pub fn split_crlf<'a>(s: &'a [char]) -> (r: Vec<&'a [char]>)
    ensures
        contents(r@) == crlf_lines(s@),
        r@.len() >= 1,
{
    let mut out: Vec<&'a [char]> = Vec::new();
    let mut rest: &'a [char] = s;
    let mut p: usize = find_crlf(rest);
    assert(contents(out@) + crlf_lines(rest@) =~= crlf_lines(s@));
    while p < rest.len()
        invariant
            p == crlf_position(rest@),
            p <= rest.len(),
            p < rest.len() ==> p + 1 < rest.len(),
            contents(out@) + crlf_lines(rest@) == crlf_lines(s@),
        decreases rest.len(),
    {
        let piece = slice_subrange(rest, 0, p);
        let next = slice_subrange(rest, p + 2, rest.len());
        assert(piece@ =~= rest@.take(p as int));
        assert(next@ =~= rest@.skip(p as int + 2));
        let ghost before = contents(out@);
        out.push(piece);
        assert(contents(out@) =~= before.push(piece@));
        assert(contents(out@) + crlf_lines(next@) =~= before + crlf_lines(rest@));
        rest = next;
        p = find_crlf(rest);
    }
    let ghost before = contents(out@);
    out.push(rest);
    assert(contents(out@) =~= before.push(rest@));
    assert(contents(out@) =~= crlf_lines(s@));
    out
}

// ---------------------------------------------------------------------------
// White space
// ---------------------------------------------------------------------------
/// `s` without the white space at its front.
pub open spec fn trim_start(s: Seq<char>) -> Seq<char>
    decreases s.len(),
{
    if s.len() > 0 && is_space(s[0]) {
        trim_start(s.drop_first())
    } else {
        s
    }
}

/// `s` without the white space at its end.
pub open spec fn trim_end(s: Seq<char>) -> Seq<char>
    decreases s.len(),
{
    if s.len() > 0 && is_space(s.last()) {
        trim_end(s.drop_last())
    } else {
        s
    }
}

/// `s` without the white space at either end.
pub open spec fn trimmed(s: Seq<char>) -> Seq<char> {
    trim_end(trim_start(s))
}

/// The length of the longest front of `s` without white space.
pub open spec fn word_len(s: Seq<char>) -> nat
    decreases s.len(),
{
    if s.len() == 0 || is_space(s[0]) {
        0
    } else {
        1 + word_len(s.drop_first())
    }
}

/// The words of `s`: its longest parts without white space.
pub open spec fn words(s: Seq<char>) -> Seq<Seq<char>>
    decreases s.len(),
{
    let t = trim_start(s);
    let n = word_len(t);
    if t.len() == 0 || t.len() > s.len() || n == 0 || n > t.len() {
        seq![]
    } else {
        seq![t.take(n as int)] + words(t.skip(n as int))
    }
}

/// How the parts of `words` fit into their input.
proof fn lemma_word(s: Seq<char>)
    ensures
        trim_start(s).len() <= s.len(),
        trim_start(s).len() > 0 ==> word_len(trim_start(s)) > 0,
        word_len(s) <= s.len(),
    decreases s.len(),
{
    if s.len() > 0 {
        lemma_word(s.drop_first());
    }
}

/// `s` without the white space at its front.
fn skip_space<'a>(s: &'a [char]) -> (r: &'a [char])
    ensures
        r@ == trim_start(s@),
{
    let mut i: usize = 0;
    assert(s@.skip(0) =~= s@);
    while i < s.len() && char_is_space(s[i])
        invariant
            i <= s.len(),
            trim_start(s@.skip(i as int)) == trim_start(s@),
        decreases s.len() - i,
    {
        assert(s@.skip(i as int).drop_first() =~= s@.skip(i as int + 1));
        i += 1;
    }
    let r = slice_subrange(s, i, s.len());
    assert(r@ =~= s@.skip(i as int));
    r
}

/// `s` without the white space at either end.
pub fn trim<'a>(s: &'a [char]) -> (r: &'a [char])
    ensures
        r@ == trimmed(s@),
{
    let t = skip_space(s);
    let mut n: usize = t.len();
    assert(t@.take(n as int) =~= t@);
    while n > 0 && char_is_space(t[n - 1])
        invariant
            n <= t.len(),
            trim_end(t@.take(n as int)) == trim_end(t@),
        decreases n,
    {
        assert(t@.take(n as int).drop_last() =~= t@.take(n as int - 1));
        n -= 1;
    }
    let r = slice_subrange(t, 0, n);
    assert(r@ =~= t@.take(n as int));
    r
}

/// The length of the longest front of `s` without white space.
fn count_word(s: &[char]) -> (r: usize)
    ensures
        r == word_len(s@),
        r <= s.len(),
{
    let mut i: usize = 0;
    assert(s@.skip(0) =~= s@);
    while i < s.len() && !char_is_space(s[i])
        invariant
            i <= s.len(),
            i + word_len(s@.skip(i as int)) == word_len(s@),
        decreases s.len() - i,
    {
        assert(s@.skip(i as int).drop_first() =~= s@.skip(i as int + 1));
        i += 1;
    }
    i
}

/// The words of `s`.
pub fn split_words<'a>(s: &'a [char]) -> (r: Vec<&'a [char]>)
    ensures
        contents(r@) == words(s@),
{
    let mut out: Vec<&'a [char]> = Vec::new();
    proof {
        lemma_word(s@);
    }
    let mut rest: &'a [char] = s;
    let mut t: &'a [char] = skip_space(s);
    assert(contents(out@) + words(rest@) =~= words(s@));
    while t.len() > 0
        invariant
            t@ == trim_start(rest@),
            contents(out@) + words(rest@) == words(s@),
        decreases rest.len(),
    {
        proof {
            lemma_word(rest@);
            lemma_word(t@);
        }
        let n: usize = count_word(t);
        let word = slice_subrange(t, 0, n);
        let next = slice_subrange(t, n, t.len());
        assert(word@ =~= t@.take(n as int));
        assert(next@ =~= t@.skip(n as int));
        let ghost before = contents(out@);
        out.push(word);
        assert(contents(out@) =~= before.push(word@));
        assert(contents(out@) + words(next@) =~= before + words(rest@));
        rest = next;
        t = skip_space(rest);
    }
    assert(words(rest@) =~= seq![]);
    assert(contents(out@) =~= words(s@));
    out
}

/// Trimming changes nothing where there is no white space.
pub proof fn lemma_trimmed(s: Seq<char>)
    requires
        forall|i: int| 0 <= i < s.len() ==> !is_space(#[trigger] s[i]),
    ensures
        trimmed(s) == s,
{
    assert(trim_start(s) == s);
    assert(trim_end(s) == s);
}

/// Trimming takes away white space alone.
pub proof fn lemma_trimmed_keeps(s: Seq<char>, c: char)
    requires
        s.contains(c),
        !is_space(c),
    ensures
        trimmed(s).contains(c),
    decreases s.len(),
{
    let i = choose|i: int| 0 <= i < s.len() && s[i] == c;
    if is_space(s[0]) {
        assert(s.drop_first()[i - 1] == c);
        lemma_trimmed_keeps(s.drop_first(), c);
    } else {
        lemma_trim_end_keeps(s, c);
    }
}

/// Trimming the end takes away white space alone.
proof fn lemma_trim_end_keeps(s: Seq<char>, c: char)
    requires
        s.contains(c),
        !is_space(c),
    ensures
        trim_end(s).contains(c),
    decreases s.len(),
{
    let i = choose|i: int| 0 <= i < s.len() && s[i] == c;
    if is_space(s.last()) {
        assert(s.drop_last()[i] == c);
        lemma_trim_end_keeps(s.drop_last(), c);
    }
}

// ---------------------------------------------------------------------------
// Prefixes
// ---------------------------------------------------------------------------
/// Whether `s` begins with `p`.
pub open spec fn starts_with(s: Seq<char>, p: Seq<char>) -> bool {
    s.len() >= p.len() && s.take(p.len() as int) == p
}

/// `s` without every repetition of `p` at its front.
pub open spec fn without_prefixes(s: Seq<char>, p: Seq<char>) -> Seq<char>
    decreases s.len(),
{
    if p.len() > 0 && starts_with(s, p) {
        without_prefixes(s.skip(p.len() as int), p)
    } else {
        s
    }
}

/// What follows the prefix `p` in `s`, if `s` begins with it.
pub fn strip_prefix<'a>(s: &'a [char], p: &str) -> (r: Option<&'a [char]>)
    ensures
        r is Some <==> starts_with(s@, p@),
        r matches Some(t) ==> t@ == s@.skip(p@.len() as int),
{
    let q = chars_of(p);
    if s.len() < q.len() {
        return None;
    }
    let front = slice_subrange(s, 0, q.len());
    assert(front@ =~= s@.take(p@.len() as int));
    if same_chars(front, q.as_slice()) {
        let t = slice_subrange(s, q.len(), s.len());
        assert(t@ =~= s@.skip(p@.len() as int));
        Some(t)
    } else {
        None
    }
}

/// `s` without every repetition of `p` at its front.
pub fn strip_prefixes<'a>(s: &'a [char], p: &str) -> (r: &'a [char])
    requires
        p@.len() > 0,
    ensures
        r@ == without_prefixes(s@, p@),
    decreases s.len(),
{
    match strip_prefix(s, p) {
        Some(t) => strip_prefixes(t, p),
        None => s,
    }
}

// ---------------------------------------------------------------------------
// Laws
// ---------------------------------------------------------------------------
/// Trimming takes away the white space around a text and nothing else.
pub proof fn law_trimming(a: Seq<char>, t: Seq<char>, b: Seq<char>)
    requires
        forall|i: int| 0 <= i < a.len() ==> is_space(#[trigger] a[i]),
        forall|i: int| 0 <= i < b.len() ==> is_space(#[trigger] b[i]),
        t.len() > 0 ==> !is_space(t[0]) && !is_space(t[t.len() - 1]),
    ensures
        trimmed(a + t + b) == t,
{
    lemma_trim_start(a, t + b);
    assert(a + t + b =~= a + (t + b));
    if t.len() == 0 {
        assert(t + b =~= b);
        lemma_trim_start(b, t);
        assert(b + t =~= b);
        assert(trim_start(t) == t);
        assert(trim_end(t) == t);
    } else {
        assert((t + b)[0] == t[0]);
        assert(trim_start(t + b) == t + b);
        lemma_trim_end(t, b);
        assert(trim_end(t) == t);
    }
}

/// White space at the front of a text is taken away.
pub proof fn lemma_trim_start(a: Seq<char>, s: Seq<char>)
    requires
        forall|i: int| 0 <= i < a.len() ==> is_space(#[trigger] a[i]),
    ensures
        trim_start(a + s) == trim_start(s),
    decreases a.len(),
{
    if a.len() == 0 {
        assert(a + s =~= s);
    } else {
        assert((a + s)[0] == a[0]);
        assert((a + s).drop_first() =~= a.drop_first() + s);
        lemma_trim_start(a.drop_first(), s);
    }
}

/// What stands at the front of a text and is no white space stays there.
pub proof fn lemma_trim_end_front(s: Seq<char>)
    requires
        s.len() > 0,
        !is_space(s[0]),
    ensures
        trim_end(s).len() > 0,
        trim_end(s)[0] == s[0],
    decreases s.len(),
{
    if is_space(s.last()) {
        assert(s.len() > 1);
        lemma_trim_end_front(s.drop_last());
    }
}

/// White space at the end of a text is taken away.
proof fn lemma_trim_end(s: Seq<char>, b: Seq<char>)
    requires
        forall|i: int| 0 <= i < b.len() ==> is_space(#[trigger] b[i]),
    ensures
        trim_end(s + b) == trim_end(s),
    decreases b.len(),
{
    if b.len() == 0 {
        assert(s + b =~= s);
    } else {
        assert((s + b).last() == b.last());
        assert(is_space(b[b.len() - 1]));
        assert((s + b).drop_last() =~= s + b.drop_last());
        lemma_trim_end(s, b.drop_last());
    }
}

/// The words of two texts with white space between them are those of the one and
/// those of the other; a text without white space is one word, unless it is empty.
pub proof fn law_words(a: Seq<char>, space: char, b: Seq<char>)
    requires
        is_space(space),
    ensures
        words(a + seq![space] + b) == words(a) + words(b),
        (forall|i: int| 0 <= i < a.len() ==> !is_space(#[trigger] a[i])) ==> words(a) == (
        if a.len() == 0 {
            Seq::<Seq<char>>::empty()
        } else {
            seq![a]
        }),
{
    lemma_words_join(a, space, b);
    if forall|i: int| 0 <= i < a.len() ==> !is_space(#[trigger] a[i]) {
        lemma_one_word(a);
    }
}

/// A word ends where white space follows.
proof fn lemma_word_len(a: Seq<char>, rest: Seq<char>)
    requires
        forall|i: int| 0 <= i < a.len() ==> !is_space(#[trigger] a[i]),
        rest.len() > 0 ==> is_space(rest[0]),
    ensures
        word_len(a + rest) == a.len(),
    decreases a.len(),
{
    if a.len() > 0 {
        assert((a + rest)[0] == a[0]);
        assert((a + rest).drop_first() =~= a.drop_first() + rest);
        lemma_word_len(a.drop_first(), rest);
    } else {
        assert(a + rest =~= rest);
    }
}

/// A text without white space is one word.
proof fn lemma_one_word(a: Seq<char>)
    requires
        forall|i: int| 0 <= i < a.len() ==> !is_space(#[trigger] a[i]),
    ensures
        words(a) == (if a.len() == 0 {
            Seq::<Seq<char>>::empty()
        } else {
            seq![a]
        }),
{
    let e = Seq::<char>::empty();
    lemma_word_len(a, e);
    assert(a + e =~= a);
    assert(trim_start(a) == a);
    if a.len() > 0 {
        assert(a.take(a.len() as int) =~= a);
        assert(a.skip(a.len() as int) =~= e);
        assert(words(e) =~= seq![]);
        assert(words(a) =~= seq![a]);
    } else {
        assert(words(a) =~= seq![]);
    }
}

/// The number of characters before the first white space in `s`.
proof fn lemma_first_word(s: Seq<char>)
    ensures
        word_len(s) <= s.len(),
        forall|i: int| 0 <= i < word_len(s) ==> !is_space(#[trigger] s[i]),
        word_len(s) < s.len() ==> is_space(s[word_len(s) as int]),
    decreases s.len(),
{
    if s.len() > 0 && !is_space(s[0]) {
        lemma_first_word(s.drop_first());
        assert forall|i: int| 0 <= i < word_len(s) implies !is_space(#[trigger] s[i]) by {
            if i > 0 {
                assert(s[i] == s.drop_first()[i - 1]);
            }
        }
    }
}

/// The words on both sides of white space.
proof fn lemma_words_join(a: Seq<char>, space: char, b: Seq<char>)
    requires
        is_space(space),
    ensures
        words(a + seq![space] + b) == words(a) + words(b),
    decreases a.len(),
{
    let s = a + seq![space] + b;
    if a.len() == 0 {
        lemma_leading_space(s);
        assert(s.drop_first() =~= b);
        assert(trim_start(a) == a);
        assert(words(a) =~= seq![]);
        assert(words(a) + words(b) =~= words(b));
    } else if is_space(a[0]) {
        lemma_leading_space(s);
        lemma_leading_space(a);
        assert(s.drop_first() =~= a.drop_first() + seq![space] + b);
        lemma_words_join(a.drop_first(), space, b);
    } else {
        let n = word_len(a) as int;
        lemma_first_word(a);
        let w = a.take(n);
        let rest = a.skip(n) + seq![space] + b;
        assert(s =~= w + rest);
        assert(rest[0] == (if n < a.len() {
            a[n]
        } else {
            space
        }));
        lemma_word_len(w, rest);
        assert(s[0] == a[0]);
        assert(trim_start(s) == s);
        assert(trim_start(a) == a);
        assert(s.take(n) =~= w);
        assert(s.skip(n) =~= rest);
        lemma_words_join(a.skip(n), space, b);
        assert(words(s) =~= words(a) + words(b));
    }
}

/// White space in front changes nothing of the words.
proof fn lemma_leading_space(s: Seq<char>)
    requires
        s.len() > 0,
        is_space(s[0]),
    ensures
        words(s) == words(s.drop_first()),
{
    lemma_word(s);
    lemma_word(s.drop_first());
    assert(trim_start(s) == trim_start(s.drop_first()));
}

/// The lines of a text, CR LF and another text are the first text and the lines of
/// the other, where the first has no CR LF in it.
pub proof fn law_crlf_lines(a: Seq<char>, b: Seq<char>)
    requires
        forall|i: int| 0 <= i < a.len() - 1 ==> !(#[trigger] a[i] == '\r' && a[i + 1] == '\n'),
    ensures
        crlf_lines(a + seq!['\r', '\n'] + b) == seq![a] + crlf_lines(b),
        crlf_lines(a) == seq![a],
{
    let s = a + seq!['\r', '\n'] + b;
    assert forall|i: int| 0 <= i < a.len() implies !crlf_at(s, i) && !crlf_at(a, i) by {
        assert(s[i] == a[i]);
        if i + 1 < a.len() {
            assert(s[i + 1] == a[i + 1]);
        } else {
            assert(s[i + 1] == '\r');
        }
    }
    assert(crlf_at(s, a.len() as int));
    lemma_crlf_position_is(s, a.len() as int);
    lemma_crlf_position_is(a, a.len() as int);
    assert(s.take(a.len() as int) =~= a);
    assert(s.skip(a.len() as int + 2) =~= b);
}

/// A prefix is found in front of any text, and every repetition of it is taken off,
/// down to a text that does not begin with it.
pub proof fn law_prefixes(p: Seq<char>, s: Seq<char>)
    requires
        p.len() > 0,
    ensures
        starts_with(p + s, p),
        without_prefixes(p + s, p) == without_prefixes(s, p),
        (s.len() < p.len() || exists|i: int| 0 <= i < p.len() && s[i] != p[i])
            ==> !starts_with(s, p) && without_prefixes(s, p) == s,
{
    assert((p + s).take(p.len() as int) =~= p);
    assert((p + s).skip(p.len() as int) =~= s);
    if exists|i: int| 0 <= i < p.len() && s[i] != p[i] {
        let i = choose|i: int| 0 <= i < p.len() && s[i] != p[i];
        if s.len() >= p.len() {
            assert(s.take(p.len() as int)[i] == s[i]);
        }
    }
}

/// Text that was encoded as UTF-8 is read back.
pub proof fn law_utf8_is_read_back(s: Seq<char>)
    ensures
        lossy_text(encode_utf8(s)) == s,
{
    encode_utf8_valid_utf8(s);
    encode_utf8_decode_utf8(s);
}

/// Which characters are white space, by their code points, and how letters are made
/// small: the capital letters of ASCII, and no others.
pub proof fn law_characters(c: char)
    ensures
        is_space(c) <==> 9 <= c as int <= 13 || c as int == 32 || c as int == 133 || c as int == 160
            || c as int == 5760 || 8192 <= c as int <= 8202 || c as int == 8232 || c as int == 8233
            || c as int == 8239 || c as int == 8287 || c as int == 12288,
        65 <= c as int <= 90 ==> lower(c) as int == c as int + 32,
        !(65 <= c as int <= 90) ==> lower(c) == c,
        lowered(seq![c]) == seq![lower(c)],
{
    assert(lowered(seq![c]) =~= seq![lower(c)]);
}

/// Texts are made small piece by piece.
pub proof fn law_lowered(a: Seq<char>, b: Seq<char>)
    ensures
        lowered(a + b) == lowered(a) + lowered(b),
        lowered(lowered(a)) == lowered(a),
{
    assert(lowered(a + b) =~= lowered(a) + lowered(b));
    assert(lowered(lowered(a)) =~= lowered(a));
}

} // verus!
