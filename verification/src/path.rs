//! Unix paths: their components, names below a served root, hidden names.
//!
//! A filesystem path is the sequence of its bytes; a request path is text.

use vstd::prelude::*;
use vstd::slice::slice_subrange;
use vstd::utf8::{
    char_is_scalar, decode_utf8, encode_scalar, encode_utf8, encode_utf8_decode_utf8,
    is_ascii_chars_encode_utf8, last_continuation_byte, leading_byte_width_1,
    leading_byte_width_2, leading_byte_width_3, leading_byte_width_4,
    second_last_continuation_byte, third_last_continuation_byte, valid_utf8,
};

use crate::bytes::{append_bytes, copy_bytes, same_bytes};
use crate::glob::{glob_match, glob_matches, law_star_matches_all};
use crate::seqs::{
    lemma_named_concat, lemma_named_pieces, lemma_position, lemma_position_is,
    lemma_split_at_separator, lemma_split_pieces, lemma_split_plain, named, position, split,
};
use crate::text::{chars_of, contents, split_at, string_of, utf8_string};

verus! {

// ---------------------------------------------------------------------------
// The segments of a request path
// ---------------------------------------------------------------------------
/// The segments of a request path: what stands between its slashes, but for
/// empty segments and the segments `.`, which name nothing.
pub open spec fn path_segments(path: Seq<char>) -> Seq<Seq<char>> {
    named(split(path, '/'), '.')
}

/// Whether a segment is `..`, which would climb to the parent directory.
pub open spec fn is_parent(segment: Seq<char>) -> bool {
    segment == seq!['.', '.']
}

/// Whether a segment of the path is `..`.
pub open spec fn climbs(path: Seq<char>) -> bool {
    exists|i: int| 0 <= i < path_segments(path).len() && is_parent(#[trigger] path_segments(path)[i])
}

/// Whether a segment names nothing.
fn is_blank(segment: &[char]) -> (r: bool)
    ensures
        r == (segment@.len() == 0 || segment@ == seq!['.']),
{
    if segment.len() == 0 {
        true
    } else if segment.len() == 1 && segment[0] == '.' {
        assert(segment@ =~= seq!['.']);
        true
    } else {
        false
    }
}

/// The segments of a request path.
fn segments_of<'a>(path: &'a [char]) -> (r: Vec<&'a [char]>)
    ensures
        contents(r@) == path_segments(path@),
{
    let pieces = split_at(path, '/');
    let mut out: Vec<&'a [char]> = Vec::new();
    let mut i: usize = 0;
    assert(contents(out@) =~= seq![]);
    while i < pieces.len()
        invariant
            i <= pieces.len(),
            contents(pieces@) == split(path@, '/'),
            contents(out@) == named(split(path@, '/').take(i as int), '.'),
        decreases pieces.len() - i,
    {
        let ghost front = split(path@, '/').take(i as int + 1);
        assert(front.drop_last() =~= split(path@, '/').take(i as int));
        assert(front.last() == pieces@[i as int]@);
        let ghost before = contents(out@);
        if !is_blank(pieces[i]) {
            out.push(pieces[i]);
            assert(contents(out@) =~= before.push(pieces@[i as int]@));
        }
        i += 1;
    }
    assert(split(path@, '/').take(i as int) =~= split(path@, '/'));
    out
}

/// Whether a segment is `..`.
fn segment_climbs(segment: &[char]) -> (r: bool)
    ensures
        r == is_parent(segment@),
{
    if segment.len() == 2 && segment[0] == '.' && segment[1] == '.' {
        assert(segment@ =~= seq!['.', '.']);
        true
    } else {
        false
    }
}

// ---------------------------------------------------------------------------
// Resolving below a root
// ---------------------------------------------------------------------------
/// The path `base` with one more component.
pub open spec fn joined(base: Seq<u8>, segment: Seq<u8>) -> Seq<u8> {
    if base.len() > 0 && base.last() != 0x2f {
        base + seq![0x2fu8] + segment
    } else {
        base + segment
    }
}

/// The path `base` with the segments appended, as UTF-8.
pub open spec fn joined_all(base: Seq<u8>, segments: Seq<Seq<char>>) -> Seq<u8>
    decreases segments.len(),
{
    if segments.len() == 0 {
        base
    } else {
        joined(joined_all(base, segments.drop_last()), encode_utf8(segments.last()))
    }
}

/// Appends one component to the path `base`.
pub fn push_component(base: &mut Vec<u8>, segment: &[u8])
    ensures
        final(base)@ == joined(old(base)@, segment@),
{
    let ghost start = base@;
    if base.len() > 0 && base[base.len() - 1] != 0x2f {
        base.push(0x2f);
    }
    append_bytes(base, segment);
    assert(base@ =~= joined(start, segment@));
}

/// The filesystem path that a decoded request path names below `root`, or `None`
/// if a `..` in it would climb.
pub fn resolve_within(root: &[u8], request_path: &str) -> (r: Option<Vec<u8>>)
    ensures
        r is None <==> climbs(request_path@),
        r matches Some(p) ==> p@ == joined_all(root@, path_segments(request_path@)),
{
    let chars = chars_of(request_path);
    let segments = segments_of(chars.as_slice());
    let ghost all = path_segments(request_path@);
    let mut resolved = copy_bytes(root);
    assert(all.take(0) =~= seq![]);
    let mut i: usize = 0;
    while i < segments.len()
        invariant
            i <= segments.len(),
            contents(segments@) == all,
            all == path_segments(request_path@),
            resolved@ == joined_all(root@, all.take(i as int)),
            forall|j: int| 0 <= j < i ==> !is_parent(#[trigger] all[j]),
        decreases segments.len() - i,
    {
        assert(segments@[i as int]@ == all[i as int]);
        if segment_climbs(segments[i]) {
            return None;
        }
        let text = string_of(segments[i]);
        push_component(&mut resolved, text.as_str().as_bytes());
        assert(all.take(i as int + 1).drop_last() =~= all.take(i as int));
        i += 1;
    }
    assert(all.take(i as int) =~= all);
    Some(resolved)
}

// ---------------------------------------------------------------------------
// Hidden names
// ---------------------------------------------------------------------------
/// Whether a name begins with `.`, `@` or `$`.
pub open spec fn hidden_name(name: Seq<char>) -> bool {
    name.len() > 0 && (name[0] == '.' || name[0] == '@' || name[0] == '$')
}

/// Whether one of the patterns matches the name.
pub open spec fn exposed(name: Seq<char>, exposes: Seq<String>) -> bool {
    exists|i: int| 0 <= i < exposes.len() && glob_matches(#[trigger] exposes[i]@, name)
}

/// Whether a name is hidden and no pattern exposes it.
pub open spec fn hidden(name: Seq<char>, exposes: Seq<String>) -> bool {
    hidden_name(name) && !exposed(name, exposes)
}

/// Whether a segment of the path is hidden. The segment `..` is no name.
pub open spec fn has_hidden(path: Seq<char>, exposes: Seq<String>) -> bool {
    exists|i: int|
        0 <= i < path_segments(path).len() && !is_parent(#[trigger] path_segments(path)[i])
            && hidden(path_segments(path)[i], exposes)
}

/// Whether `name` is a hidden system name: it begins with `.`, `@` or `$`.
pub fn is_hidden_name(name: &str) -> (r: bool)
    ensures
        r == hidden_name(name@),
{
    let chars = chars_of(name);
    chars.len() > 0 && (chars[0] == '.' || chars[0] == '@' || chars[0] == '$')
}

/// Whether `name` is a hidden system name that no pattern in `exposes` exposes.
pub fn is_hidden(name: &str, exposes: &[String]) -> (r: bool)
    ensures
        r == hidden(name@, exposes@),
{
    if !is_hidden_name(name) {
        return false;
    }
    let mut i: usize = 0;
    while i < exposes.len()
        invariant
            i <= exposes.len(),
            forall|j: int| 0 <= j < i ==> !glob_matches(#[trigger] exposes@[j]@, name@),
        decreases exposes.len() - i,
    {
        if glob_match(exposes[i].as_str(), name) {
            assert(glob_matches(exposes@[i as int]@, name@));
            return false;
        }
        i += 1;
    }
    true
}

/// Whether any segment of `request_path` is hidden, so that a request for
/// `/.git/config` is refused along with one for `/.git`.
pub fn path_has_hidden(request_path: &str, exposes: &[String]) -> (r: bool)
    ensures
        r == has_hidden(request_path@, exposes@),
{
    let chars = chars_of(request_path);
    let segments = segments_of(chars.as_slice());
    let ghost all = path_segments(request_path@);
    let mut i: usize = 0;
    while i < segments.len()
        invariant
            i <= segments.len(),
            contents(segments@) == all,
            all == path_segments(request_path@),
            forall|j: int|
                0 <= j < i ==> is_parent(#[trigger] all[j]) || !hidden(all[j], exposes@),
        decreases segments.len() - i,
    {
        assert(segments@[i as int]@ == all[i as int]);
        if !segment_climbs(segments[i]) && is_hidden(string_of(segments[i]).as_str(), exposes) {
            assert(!is_parent(all[i as int]) && hidden(all[i as int], exposes@));
            return true;
        }
        i += 1;
    }
    false
}

/// `path` with a slash at its end.
pub open spec fn slashed(path: Seq<char>) -> Seq<char> {
    if path.len() > 0 && path.last() == '/' {
        path
    } else {
        path + "/"@
    }
}

/// Appends a slash to `path` unless it ends with one.
pub fn with_trailing_slash(path: &str) -> (r: String)
    ensures
        r@ == slashed(path@),
{
    let chars = chars_of(path);
    let mut out = path.to_string();
    if !(chars.len() > 0 && chars[chars.len() - 1] == '/') {
        out.append("/");
    }
    out
}

// ---------------------------------------------------------------------------
// The components of a filesystem path
// ---------------------------------------------------------------------------
/// What the slices in `v` hold.
pub open spec fn byte_contents(v: Seq<&[u8]>) -> Seq<Seq<u8>> {
    v.map_values(|x: &[u8]| x@)
}

/// The components of a path: `/` for the root of an absolute path or `.` where a
/// relative path begins so, then the names and the `..` in it.
pub open spec fn components(path: Seq<u8>) -> Seq<Seq<u8>> {
    let names = named(split(path, 0x2fu8), 0x2eu8);
    if path.len() > 0 && path[0] == 0x2f {
        seq![seq![0x2fu8]] + names
    } else if split(path, 0x2fu8)[0] == seq![0x2eu8] {
        seq![seq![0x2eu8]] + names
    } else {
        names
    }
}

/// Whether `path` lies at or below `dir`, component by component.
pub open spec fn is_below(dir: Seq<u8>, path: Seq<u8>) -> bool {
    components(dir).len() <= components(path).len() && components(path).take(
        components(dir).len() as int,
    ) == components(dir)
}

/// Whether a component is a name: neither `/` nor `.` nor `..`.
pub open spec fn is_name(component: Seq<u8>) -> bool {
    component != seq![0x2fu8] && component != seq![0x2eu8] && component != seq![0x2eu8, 0x2eu8]
}

/// The last component of a path, if it is a name.
pub open spec fn file_name(path: Seq<u8>) -> Option<Seq<u8>> {
    let c = components(path);
    if c.len() > 0 && is_name(c.last()) {
        Some(c.last())
    } else {
        None
    }
}

/// The index behind the last dot in `name`, or 0.
pub open spec fn after_dot(name: Seq<u8>) -> nat
    decreases name.len(),
{
    if name.len() == 0 {
        0
    } else if name.last() == 0x2e {
        name.len()
    } else {
        after_dot(name.drop_last())
    }
}

/// What follows the last dot in the file name, unless the name has no dot or only
/// one at its front.
pub open spec fn extension(path: Seq<u8>) -> Option<Seq<u8>> {
    match file_name(path) {
        Some(name) if after_dot(name) > 1 => Some(name.skip(after_dot(name) as int)),
        _ => None,
    }
}

/// The pieces of `s` between its slashes.
fn split_path<'a>(s: &'a [u8]) -> (r: Vec<&'a [u8]>)
    ensures
        byte_contents(r@) == split(s@, 0x2fu8),
        r@.len() > 0,
{
    let mut out: Vec<&'a [u8]> = Vec::new();
    let mut rest: &'a [u8] = s;
    let mut p: usize = find_slash(rest);
    assert(byte_contents(out@) + split(rest@, 0x2fu8) =~= split(s@, 0x2fu8));
    while p < rest.len()
        invariant
            p == position(rest@, 0x2fu8),
            p <= rest.len(),
            byte_contents(out@) + split(rest@, 0x2fu8) == split(s@, 0x2fu8),
        decreases rest.len(),
    {
        let piece = slice_subrange(rest, 0, p);
        let next = slice_subrange(rest, p + 1, rest.len());
        assert(piece@ =~= rest@.take(p as int));
        assert(next@ =~= rest@.skip(p as int + 1));
        let ghost before = byte_contents(out@);
        out.push(piece);
        assert(byte_contents(out@) =~= before.push(piece@));
        assert(byte_contents(out@) + split(next@, 0x2fu8) =~= before + split(rest@, 0x2fu8));
        rest = next;
        p = find_slash(rest);
    }
    let ghost before = byte_contents(out@);
    out.push(rest);
    assert(byte_contents(out@) =~= before.push(rest@));
    assert(byte_contents(out@) =~= split(s@, 0x2fu8));
    out
}

/// The index of the first slash in `s`, or the length of `s`.
fn find_slash(s: &[u8]) -> (r: usize)
    ensures
        r == position(s@, 0x2fu8),
        r <= s.len(),
{
    let mut i: usize = 0;
    while i < s.len() && s[i] != 0x2f
        invariant
            i <= s.len(),
            forall|j: int| 0 <= j < i ==> s@[j] != 0x2f,
        decreases s.len() - i,
    {
        i += 1;
    }
    proof {
        lemma_position_is(s@, 0x2fu8, i as int);
    }
    i
}

/// The components of a path.
fn components_of<'a>(path: &'a [u8]) -> (r: Vec<&'a [u8]>)
    ensures
        byte_contents(r@) == components(path@),
{
    let pieces = split_path(path);
    let ghost all = split(path@, 0x2fu8);
    let mut out: Vec<&'a [u8]> = Vec::new();
    assert(byte_contents(out@) =~= seq![]);
    if path.len() > 0 && path[0] == 0x2f {
        let slash = slice_subrange(path, 0, 1);
        assert(slash@ =~= seq![0x2fu8]);
        out.push(slash);
        assert(byte_contents(out@) =~= seq![seq![0x2fu8]]);
    } else if pieces[0].len() == 1 && pieces[0][0] == 0x2e {
        assert(pieces@[0]@ =~= seq![0x2eu8]);
        assert(all[0] == pieces@[0]@);
        out.push(pieces[0]);
        assert(byte_contents(out@) =~= seq![seq![0x2eu8]]);
    } else {
        assert(all[0] == pieces@[0]@);
        assert(pieces@[0]@ != seq![0x2eu8]);
    }
    let ghost start = byte_contents(out@);
    let mut i: usize = 0;
    assert(byte_contents(out@) =~= start + named(all.take(0), 0x2eu8));
    while i < pieces.len()
        invariant
            i <= pieces.len(),
            byte_contents(pieces@) == all,
            byte_contents(out@) == start + named(all.take(i as int), 0x2eu8),
        decreases pieces.len() - i,
    {
        let piece = pieces[i];
        let ghost front = all.take(i as int + 1);
        assert(front.drop_last() =~= all.take(i as int));
        assert(front.last() == pieces@[i as int]@);
        let ghost before = byte_contents(out@);
        if piece.len() == 0 {
        } else if piece.len() == 1 && piece[0] == 0x2e {
            assert(piece@ =~= seq![0x2eu8]);
        } else {
            assert(piece@ != seq![0x2eu8]);
            out.push(piece);
            assert(byte_contents(out@) =~= before.push(piece@));
            assert(byte_contents(out@) =~= start + named(front, 0x2eu8));
        }
        i += 1;
    }
    assert(all.take(i as int) =~= all);
    assert(byte_contents(out@) =~= components(path@));
    out
}

/// Whether `path` is at or below `dir`.
pub fn path_starts_with(path: &[u8], dir: &[u8]) -> (r: bool)
    ensures
        r == is_below(dir@, path@),
{
    let p = components_of(path);
    let d = components_of(dir);
    if d.len() > p.len() {
        return false;
    }
    let mut i: usize = 0;
    while i < d.len()
        invariant
            i <= d.len(),
            d.len() <= p.len(),
            byte_contents(p@) == components(path@),
            byte_contents(d@) == components(dir@),
            forall|j: int| 0 <= j < i ==> p@[j]@ == d@[j]@,
        decreases d.len() - i,
    {
        if !same_bytes(p[i], d[i]) {
            assert(components(path@).take(components(dir@).len() as int)[i as int] == p@[i as int]@);
            assert(components(dir@)[i as int] == d@[i as int]@);
            return false;
        }
        i += 1;
    }
    assert(components(path@).take(components(dir@).len() as int) =~= components(dir@));
    true
}

/// Whether `path` is the root of the filesystem.
pub fn is_filesystem_root(path: &[u8]) -> (r: bool)
    ensures
        r == (components(path@) == seq![seq![0x2fu8]]),
{
    let c = components_of(path);
    if c.len() == 1 && c[0].len() == 1 && c[0][0] == 0x2f {
        assert(c@[0]@ =~= seq![0x2fu8]);
        assert(components(path@) =~= seq![seq![0x2fu8]]);
        true
    } else {
        proof {
            if components(path@) == seq![seq![0x2fu8]] {
                assert(byte_contents(c@)[0] == seq![0x2fu8]);
                assert(c@[0]@ == seq![0x2fu8]);
            }
        }
        false
    }
}

/// The last component of a path, if it is a name.
pub fn file_name_of(path: &[u8]) -> (r: Option<Vec<u8>>)
    ensures
        r is Some <==> file_name(path@) is Some,
        r matches Some(n) ==> file_name(path@) == Some(n@),
{
    let c = components_of(path);
    if c.len() == 0 {
        return None;
    }
    let last = c[c.len() - 1];
    assert(components(path@).last() == last@);
    if last.len() == 1 && (last[0] == 0x2f || last[0] == 0x2e) {
        assert(last@ =~= seq![0x2fu8] || last@ =~= seq![0x2eu8]);
        return None;
    }
    if last.len() == 2 && last[0] == 0x2e && last[1] == 0x2e {
        assert(last@ =~= seq![0x2eu8, 0x2eu8]);
        return None;
    }
    Some(copy_bytes(last))
}

/// The index behind the last dot in `name`, or 0.
fn find_after_dot(name: &[u8]) -> (r: usize)
    ensures
        r == after_dot(name@),
        r <= name.len(),
{
    let mut n: usize = name.len();
    assert(name@.take(n as int) =~= name@);
    while n > 0 && name[n - 1] != 0x2e
        invariant
            n <= name.len(),
            after_dot(name@.take(n as int)) == after_dot(name@),
        decreases n,
    {
        assert(name@.take(n as int).drop_last() =~= name@.take(n as int - 1));
        n -= 1;
    }
    n
}

/// The text of the extension, where it has one that is UTF-8, else nothing.
pub open spec fn extension_text(path: Seq<u8>) -> Seq<char> {
    match extension(path) {
        Some(e) if valid_utf8(e) => decode_utf8(e),
        _ => seq![],
    }
}

/// The text of the extension, where it has one that is UTF-8, else nothing.
pub fn extension_of(path: &[u8]) -> (r: String)
    ensures
        r@ == extension_text(path@),
{
    match file_name_of(path) {
        Some(name) => {
            let n: usize = find_after_dot(name.as_slice());
            if n > 1 {
                let e = slice_subrange(name.as_slice(), n, name.len());
                assert(e@ =~= name@.skip(n as int));
                match utf8_string(copy_bytes(e)) {
                    Some(text) => text,
                    None => String::new(),
                }
            } else {
                String::new()
            }
        },
        None => String::new(),
    }
}

// ---------------------------------------------------------------------------
// Confinement
// ---------------------------------------------------------------------------
/// Whether `s` can be one component of a path: not empty, not `.`, without slashes.
pub open spec fn is_component(s: Seq<u8>) -> bool {
    s.len() > 0 && s != seq![0x2eu8] && !s.contains(0x2fu8)
}

/// Appending a component to a path appends it to the components.
proof fn lemma_joined(base: Seq<u8>, segment: Seq<u8>)
    requires
        is_component(segment),
    ensures
        components(joined(base, segment)) == components(base).push(segment),
{
    let sep = 0x2fu8;
    let dot = 0x2eu8;
    let p = joined(base, segment);
    let names = named(split(base, sep), dot);
    lemma_split_plain(segment, sep);
    lemma_split_pieces(base, sep);
    lemma_split_pieces(p, sep);
    lemma_position(base, sep);
    lemma_position(p, sep);
    let one = seq![segment];
    assert(one.drop_last() =~= seq![]);
    assert(named(one.drop_last(), dot) =~= seq![]);
    assert(named(one, dot) =~= seq![segment]);
    if base.len() == 0 {
        assert(p =~= segment);
        let none = seq![base];
        assert(split(base, sep) =~= none);
        assert(none.drop_last() =~= seq![]);
        assert(named(none, dot) =~= seq![]);
        assert(components(base) =~= seq![]);
        assert(segment[0] != sep) by {
            assert(segment.contains(segment[0]));
        }
        assert(components(p) =~= seq![segment]);
    } else {
        assert(p[0] == base[0]);
        if base.last() != sep {
            lemma_split_at_separator(base, sep, segment);
            lemma_named_concat(split(base, sep), split(segment, sep), dot);
            assert(split(p, sep)[0] == split(base, sep)[0]);
        } else {
            let front = base.drop_last();
            let empty: Seq<u8> = seq![];
            assert(base =~= front + seq![sep] + empty);
            assert(p =~= front + seq![sep] + segment);
            lemma_split_at_separator(front, sep, empty);
            lemma_split_at_separator(front, sep, segment);
            lemma_split_plain(empty, sep);
            lemma_split_pieces(front, sep);
            lemma_named_concat(split(front, sep), split(empty, sep), dot);
            lemma_named_concat(split(front, sep), split(segment, sep), dot);
            let none = seq![empty];
            assert(none.drop_last() =~= seq![]);
            assert(named(none, dot) =~= seq![]);
            assert(names =~= named(split(front, sep), dot));
            assert(split(p, sep)[0] == split(front, sep)[0]);
            assert(split(base, sep)[0] == split(front, sep)[0]);
        }
        assert(named(split(p, sep), dot) =~= names.push(segment));
        assert(components(p) =~= components(base).push(segment));
    }
}

/// Only the character `/` has the byte of a slash in its encoding.
proof fn lemma_encoded_slash(c: char)
    requires
        c != '/',
    ensures
        !encode_scalar(c as u32).contains(0x2fu8),
        encode_scalar(c as u32).len() > 0,
{
    char_is_scalar(c);
    let u = c as u32;
    assert(u <= 0x7f && u != 0x2f ==> leading_byte_width_1(u) != 0x2f) by (bit_vector);
    assert(leading_byte_width_2(u) != 0x2f && leading_byte_width_3(u) != 0x2f
        && leading_byte_width_4(u) != 0x2f && last_continuation_byte(u) != 0x2f
        && second_last_continuation_byte(u) != 0x2f && third_last_continuation_byte(u) != 0x2f)
        by (bit_vector);
    assert(u != 0x2f);
}

/// The encoding of a text without slashes holds no slash.
proof fn lemma_encoded_without_slash(s: Seq<char>)
    requires
        !s.contains('/'),
    ensures
        !encode_utf8(s).contains(0x2fu8),
        s.len() > 0 ==> encode_utf8(s).len() > 0,
    decreases s.len(),
{
    if s.len() > 0 {
        assert(s.contains(s[0]));
        lemma_encoded_slash(s[0]);
        let rest = s.drop_first();
        assert(!rest.contains('/')) by {
            if rest.contains('/') {
                let i = choose|i: int| 0 <= i < rest.len() && rest[i] == '/';
                assert(s[i + 1] == '/');
            }
        }
        lemma_encoded_without_slash(rest);
        let a = encode_scalar(s[0] as u32);
        let b = encode_utf8(rest);
        assert(!(a + b).contains(0x2fu8)) by {
            if (a + b).contains(0x2fu8) {
                let i = choose|i: int| 0 <= i < (a + b).len() && (a + b)[i] == 0x2fu8;
                if i < a.len() {
                    assert(a[i] == 0x2fu8);
                } else {
                    assert(b[i - a.len()] == 0x2fu8);
                }
            }
        }
    }
}

/// The encodings of `.` and `..`, and that nothing else has them.
proof fn lemma_encoded_dots(s: Seq<char>)
    ensures
        (encode_utf8(s) == seq![0x2eu8]) == (s == seq!['.']),
        (encode_utf8(s) == seq![0x2eu8, 0x2eu8]) == is_parent(s),
{
    let one = seq!['.'];
    let two = seq!['.', '.'];
    is_ascii_chars_encode_utf8(one);
    is_ascii_chars_encode_utf8(two);
    assert(encode_utf8(one) =~= seq![0x2eu8]);
    assert(encode_utf8(two) =~= seq![0x2eu8, 0x2eu8]);
    encode_utf8_decode_utf8(one);
    encode_utf8_decode_utf8(two);
    encode_utf8_decode_utf8(s);
}

/// Segments of a request path are components, and only `..` encodes to `..`.
proof fn lemma_segment(path: Seq<char>, i: int)
    requires
        0 <= i < path_segments(path).len(),
    ensures
        is_component(encode_utf8(path_segments(path)[i])),
        (encode_utf8(path_segments(path)[i]) == seq![0x2eu8, 0x2eu8]) == is_parent(
            path_segments(path)[i],
        ),
        !path_segments(path)[i].contains('/'),
{
    let pieces = split(path, '/');
    let s = path_segments(path)[i];
    lemma_split_pieces(path, '/');
    lemma_named_pieces(pieces, '.');
    let j = choose|j: int| 0 <= j < pieces.len() && pieces[j] == s;
    assert(!pieces[j].contains('/'));
    lemma_encoded_without_slash(s);
    lemma_encoded_dots(s);
}

/// Appending the first `n` segments of a request path appends them to the components.
proof fn lemma_joined_all(root: Seq<u8>, path: Seq<char>, n: int)
    requires
        0 <= n <= path_segments(path).len(),
    ensures
        components(joined_all(root, path_segments(path).take(n))) == components(root)
            + path_segments(path).take(n).map_values(|s: Seq<char>| encode_utf8(s)),
    decreases n,
{
    let segments = path_segments(path).take(n);
    let f = |s: Seq<char>| encode_utf8(s);
    if n == 0 {
        assert(segments.map_values(f) =~= seq![]);
        assert(components(root) + segments.map_values(f) =~= components(root));
    } else {
        assert(segments.drop_last() =~= path_segments(path).take(n - 1));
        lemma_joined_all(root, path, n - 1);
        lemma_segment(path, n - 1);
        lemma_joined(joined_all(root, segments.drop_last()), encode_utf8(segments.last()));
        assert(components(root) + segments.map_values(f) =~= (components(root)
            + segments.drop_last().map_values(f)).push(f(segments.last())));
    }
}

/// The law of confinement: the path that a request path resolves to has the
/// components of the root, then those of the request, and none of the latter is
/// `..`; so it lies at or below the root.
pub proof fn law_resolved_path_is_below(root: Seq<u8>, path: Seq<char>)
    requires
        !climbs(path),
    ensures
        ({
            let resolved = joined_all(root, path_segments(path));
            let added = path_segments(path).map_values(|s: Seq<char>| encode_utf8(s));
            &&& components(resolved) == components(root) + added
            &&& is_below(root, resolved)
            &&& forall|i: int|
                0 <= i < added.len() ==> #[trigger] added[i] != seq![0x2eu8, 0x2eu8]
        }),
{
    let n = path_segments(path).len() as int;
    assert(path_segments(path).take(n) =~= path_segments(path));
    lemma_joined_all(root, path, n);
    let added = path_segments(path).map_values(|s: Seq<char>| encode_utf8(s));
    assert((components(root) + added).take(components(root).len() as int) =~= components(root));
    assert forall|i: int| 0 <= i < added.len() implies #[trigger] added[i] != seq![
        0x2eu8,
        0x2eu8,
    ] by {
        lemma_segment(path, i);
        assert(!is_parent(path_segments(path)[i]));
    }
}

/// Whether `name` can be the name of a directory entry.
pub open spec fn is_entry_name(name: Seq<char>) -> bool {
    name.len() > 0 && !name.contains('/') && name != seq!['.'] && !is_parent(name)
}

/// The segments of the path of a directory entry.
pub proof fn lemma_entry_path(dir: Seq<char>, name: Seq<char>)
    requires
        is_entry_name(name),
    ensures
        path_segments(slashed(dir) + name) == path_segments(dir).push(name),
{
    reveal_strlit("/");
    let empty: Seq<char> = seq![];
    let one = seq![name];
    let none = seq![empty];
    assert("/"@ =~= seq!['/']);
    assert(one.drop_last() =~= seq![]);
    assert(named(one.drop_last(), '.') =~= seq![]);
    assert(named(one, '.') =~= seq![name]);
    assert(none.drop_last() =~= seq![]);
    assert(named(none, '.') =~= seq![]);
    lemma_split_plain(name, '/');
    lemma_split_plain(empty, '/');
    if dir.len() > 0 && dir.last() == '/' {
        let front = dir.drop_last();
        assert(dir =~= front + seq!['/'] + empty);
        assert(slashed(dir) + name =~= front + seq!['/'] + name);
        lemma_split_at_separator(front, '/', empty);
        lemma_split_at_separator(front, '/', name);
        lemma_named_concat(split(front, '/'), none, '.');
        lemma_named_concat(split(front, '/'), one, '.');
        assert(path_segments(slashed(dir) + name) =~= path_segments(dir).push(name));
    } else {
        assert(slashed(dir) + name =~= dir + seq!['/'] + name);
        lemma_split_at_separator(dir, '/', name);
        lemma_named_concat(split(dir, '/'), one, '.');
        assert(path_segments(slashed(dir) + name) =~= path_segments(dir).push(name));
    }
}

/// A slash at the end of a path changes nothing of what it names.
pub proof fn lemma_trailing_slash(path: Seq<char>)
    ensures
        path_segments(slashed(path)) == path_segments(path),
{
    reveal_strlit("/");
    if !(path.len() > 0 && path.last() == '/') {
        let empty: Seq<char> = seq![];
        let none = seq![empty];
        assert(slashed(path) =~= path + seq!['/'] + empty);
        lemma_split_at_separator(path, '/', empty);
        lemma_split_plain(empty, '/');
        assert(none.drop_last() =~= seq![]);
        assert(named(none.drop_last(), '.') =~= seq![]);
        assert(named(none, '.') =~= seq![]);
        lemma_named_concat(split(path, '/'), none, '.');
        assert(path_segments(slashed(path)) =~= path_segments(path));
    }
}

/// A directory entry has its own name at the end of its path.
pub proof fn lemma_entry_file_name(dir: Seq<u8>, name: Seq<char>)
    requires
        is_entry_name(name),
    ensures
        file_name(joined(dir, encode_utf8(name))) == Some(encode_utf8(name)),
{
    lemma_encoded_without_slash(name);
    lemma_encoded_dots(name);
    let n = encode_utf8(name);
    lemma_joined(dir, n);
    assert(n != seq![0x2fu8]) by {
        assert(seq![0x2fu8].contains(0x2f)) by {
            assert(seq![0x2fu8][0] == 0x2f);
        }
    }
}

/// The law of hidden names: below a directory that is served, an entry is left out
/// of the listing exactly where a request for it is refused for a hidden segment,
/// so that nothing is hidden yet fetchable; and its path climbs no more than that
/// of the directory.
pub proof fn law_hidden_in_listing_and_on_request(
    dir: Seq<char>,
    name: Seq<char>,
    exposes: Seq<String>,
)
    requires
        is_entry_name(name),
        !has_hidden(dir, exposes),
    ensures
        has_hidden(slashed(dir) + name, exposes) == hidden(name, exposes),
        climbs(slashed(dir) + name) == climbs(dir),
{
    lemma_entry_path(dir, name);
    let all = path_segments(slashed(dir) + name);
    let before = path_segments(dir);
    assert(all.len() == before.len() + 1);
    assert(all[before.len() as int] == name);
    if hidden(name, exposes) {
        assert(!is_parent(all[before.len() as int]) && hidden(all[before.len() as int], exposes));
    }
    if has_hidden(slashed(dir) + name, exposes) {
        let i = choose|i: int|
            0 <= i < all.len() && !is_parent(#[trigger] all[i]) && hidden(all[i], exposes);
        if i < before.len() {
            assert(before[i] == all[i]);
        }
    }
    if climbs(dir) {
        let i = choose|i: int| 0 <= i < before.len() && is_parent(#[trigger] before[i]);
        assert(is_parent(all[i]));
    }
    if climbs(slashed(dir) + name) {
        let i = choose|i: int| 0 <= i < all.len() && is_parent(#[trigger] all[i]);
        assert(is_parent(before[i]));
    }
}

/// The law of ancestors: what a hidden segment refuses for a directory it refuses
/// for everything below it.
pub proof fn law_hidden_ancestor_blocks(dir: Seq<char>, name: Seq<char>, exposes: Seq<String>)
    requires
        is_entry_name(name),
        has_hidden(dir, exposes),
    ensures
        has_hidden(slashed(dir) + name, exposes),
{
    lemma_entry_path(dir, name);
    let all = path_segments(slashed(dir) + name);
    let before = path_segments(dir);
    let i = choose|i: int|
        0 <= i < before.len() && !is_parent(#[trigger] before[i]) && hidden(before[i], exposes);
    assert(all[i] == before[i]);
}

/// The law of the escape hatch: with the pattern `*` among those that expose,
/// no name is hidden.
pub proof fn law_star_exposes_all(name: Seq<char>, exposes: Seq<String>, i: int)
    requires
        0 <= i < exposes.len(),
        exposes[i]@ == seq!['*'],
    ensures
        !hidden(name, exposes),
{
    law_star_matches_all(name);
    assert(glob_matches(exposes[i]@, name));
}

/// How a path falls into segments: at its slashes, and a piece between them that is
/// empty or `.` is no segment.
pub proof fn law_segments(a: Seq<char>, b: Seq<char>)
    ensures
        path_segments(a + seq!['/'] + b) == path_segments(a) + path_segments(b),
        !a.contains('/') && a.len() > 0 && a != seq!['.'] ==> path_segments(a) == seq![a],
        a.len() == 0 || a == seq!['.'] ==> path_segments(a) == Seq::<Seq<char>>::empty(),
{
    lemma_split_at_separator(a, '/', b);
    lemma_named_concat(split(a, '/'), split(b, '/'), '.');
    if !a.contains('/') {
        lemma_split_plain(a, '/');
        let one = seq![a];
        assert(one.drop_last() =~= seq![]);
        assert(named(one.drop_last(), '.') =~= seq![]);
        if a.len() > 0 && a != seq!['.'] {
            assert(named(one, '.') =~= seq![a]);
        } else {
            assert(named(one, '.') =~= seq![]);
        }
    } else if a.len() == 0 || a == seq!['.'] {
        let i = choose|i: int| 0 <= i < a.len() && a[i] == '/';
        assert(seq!['.'][0] == '.');
    }
}

/// Which paths are refused: those with a piece `..` between their slashes climb, and
/// those with a piece that begins with `.`, `@` or `$` are hidden, but for the pieces
/// `.` and `..` and those that a pattern matches.
pub proof fn law_refused_paths(a: Seq<char>, b: Seq<char>, exposes: Seq<String>)
    ensures
        climbs(a + seq!['/'] + b) <==> climbs(a) || climbs(b),
        has_hidden(a + seq!['/'] + b, exposes) <==> has_hidden(a, exposes) || has_hidden(
            b,
            exposes,
        ),
        !a.contains('/') ==> (climbs(a) <==> a == seq!['.', '.']),
        !a.contains('/') ==> (has_hidden(a, exposes) <==> a.len() > 0 && (a[0] == '.' || a[0] == '@'
            || a[0] == '$') && a != seq!['.'] && a != seq!['.', '.'] && !(exists|i: int|
            0 <= i < exposes.len() && glob_matches(#[trigger] exposes[i]@, a))),
        hidden(a, exposes) <==> a.len() > 0 && (a[0] == '.' || a[0] == '@' || a[0] == '$') && !(
        exists|i: int| 0 <= i < exposes.len() && glob_matches(#[trigger] exposes[i]@, a)),
{
    law_segments(a, b);
    let all = path_segments(a + seq!['/'] + b);
    let pa = path_segments(a);
    let pb = path_segments(b);
    assert forall|i: int| 0 <= i < pa.len() implies #[trigger] pa[i] == all[i] by {}
    assert forall|i: int| 0 <= i < pb.len() implies #[trigger] pb[i] == all[pa.len() + i] by {}
    assert forall|i: int| 0 <= i < all.len() implies #[trigger] all[i] == (if i < pa.len() {
        pa[i]
    } else {
        pb[i - pa.len()]
    }) by {}
    if climbs(a) {
        let i = choose|i: int| 0 <= i < pa.len() && is_parent(#[trigger] pa[i]);
        assert(is_parent(all[i]));
    }
    if climbs(b) {
        let i = choose|i: int| 0 <= i < pb.len() && is_parent(#[trigger] pb[i]);
        assert(is_parent(all[pa.len() + i]));
    }
    if has_hidden(a, exposes) {
        let i = choose|i: int|
            0 <= i < pa.len() && !is_parent(#[trigger] pa[i]) && hidden(pa[i], exposes);
        assert(!is_parent(all[i]) && hidden(all[i], exposes));
    }
    if has_hidden(b, exposes) {
        let i = choose|i: int|
            0 <= i < pb.len() && !is_parent(#[trigger] pb[i]) && hidden(pb[i], exposes);
        assert(!is_parent(all[pa.len() + i]) && hidden(all[pa.len() + i], exposes));
    }
    if !a.contains('/') {
        if a == seq!['.', '.'] {
            assert(a.len() == 2);
            assert(a != seq!['.']);
            assert(is_parent(pa[0]));
        } else if a.len() > 0 && a != seq!['.'] {
            assert(pa[0] == a);
        }
    }
}

/// What stands in the components of a path behind its root.
spec fn relative(c: Seq<Seq<u8>>) -> Seq<Seq<u8>> {
    if c.len() > 0 && (c[0] == seq![0x2fu8] || c[0] == seq![0x2eu8]) {
        c.skip(1)
    } else {
        c
    }
}

/// The names in a path are its components behind the root.
proof fn lemma_relative(path: Seq<u8>)
    ensures
        relative(components(path)) == named(split(path, 0x2fu8), 0x2eu8),
{
    let names = named(split(path, 0x2fu8), 0x2eu8);
    let c = components(path);
    lemma_named_pieces(split(path, 0x2fu8), 0x2eu8);
    lemma_split_pieces(path, 0x2fu8);
    if c != names {
        assert(c.skip(1) =~= names);
    } else if c.len() > 0 {
        if c[0] == seq![0x2fu8] {
            let j = choose|j: int|
                0 <= j < split(path, 0x2fu8).len() && split(path, 0x2fu8)[j] == c[0];
            assert(!split(path, 0x2fu8)[j].contains(0x2fu8));
            assert(seq![0x2fu8][0] == 0x2fu8);
            assert(c[0].contains(0x2fu8));
        }
    }
}

/// How a path falls into components: at its slashes, where empty pieces and `.` count
/// for nothing but at the front; a slash at the front is the root.
pub proof fn law_components(a: Seq<u8>, b: Seq<u8>)
    ensures
        a.len() > 0 ==> components(a + seq![0x2fu8] + b) == components(a) + (if components(b).len()
            > 0 && (components(b)[0] == seq![0x2fu8] || components(b)[0] == seq![0x2eu8]) {
            components(b).skip(1)
        } else {
            components(b)
        }),
        components(seq![0x2fu8] + b) == seq![seq![0x2fu8]] + (if components(b).len() > 0 && (
        components(b)[0] == seq![0x2fu8] || components(b)[0] == seq![0x2eu8]) {
            components(b).skip(1)
        } else {
            components(b)
        }),
        !a.contains(0x2fu8) && a.len() > 0 ==> components(a) == seq![a],
        components(seq![]) == Seq::<Seq<u8>>::empty(),
{
    let sep = 0x2fu8;
    let dot = 0x2eu8;
    let empty = Seq::<u8>::empty();
    lemma_relative(b);
    let none = seq![empty];
    assert(none.drop_last() =~= seq![]);
    assert(named(none.drop_last(), dot) =~= seq![]);
    assert(named(none, dot) =~= seq![]);
    lemma_split_plain(empty, sep);
    assert(components(empty) =~= seq![]);
    let rooted = seq![sep] + b;
    assert(rooted =~= empty + seq![sep] + b);
    lemma_split_at_separator(empty, sep, b);
    lemma_named_concat(none, split(b, sep), dot);
    assert(named(split(rooted, sep), dot) =~= named(split(b, sep), dot));
    assert(rooted[0] == sep);
    if a.len() > 0 {
        let p = a + seq![sep] + b;
        lemma_split_at_separator(a, sep, b);
        lemma_named_concat(split(a, sep), split(b, sep), dot);
        lemma_split_pieces(a, sep);
        assert(p[0] == a[0]);
        assert(split(p, sep)[0] == split(a, sep)[0]);
        assert(components(p) =~= components(a) + named(split(b, sep), dot));
        if !a.contains(sep) {
            lemma_split_plain(a, sep);
            assert(a.contains(a[0]));
            let one = seq![a];
            assert(one.drop_last() =~= seq![]);
            assert(named(one.drop_last(), dot) =~= seq![]);
            if a == seq![dot] {
                assert(named(one, dot) =~= seq![]);
            } else {
                assert(named(one, dot) =~= seq![a]);
            }
            assert(components(a) =~= seq![a]);
        }
    }
}

/// How paths are joined: with one slash between them, unless there is one already or
/// nothing before it; and a path lies below another where it begins with all of its
/// components.
pub proof fn law_joined_paths(
    base: Seq<u8>,
    segment: Seq<u8>,
    segments: Seq<Seq<char>>,
    last: Seq<char>,
    dir: Seq<u8>,
)
    ensures
        joined(seq![], segment) == segment,
        joined(base + seq![0x2fu8], segment) == base + seq![0x2fu8] + segment,
        base.len() > 0 && base.last() != 0x2fu8 ==> joined(base, segment) == base + seq![0x2fu8]
            + segment,
        joined_all(base, seq![]) == base,
        joined_all(base, segments.push(last)) == joined(
            joined_all(base, segments),
            encode_utf8(last),
        ),
        is_below(dir, base) <==> components(dir).is_prefix_of(components(base)),
{
    assert(Seq::<u8>::empty() + segment =~= segment);
    assert((base + seq![0x2fu8]).last() == 0x2fu8);
    assert(segments.push(last).drop_last() =~= segments);
    let n = components(dir).len() as int;
    if is_below(dir, base) {
        assert(components(base).subrange(0, n) =~= components(base).take(n));
    } else if components(dir).is_prefix_of(components(base)) {
        assert(components(base).subrange(0, n) =~= components(base).take(n));
    }
}

/// The name of a file is the last piece of its path, whatever stands before the last
/// slash, unless that piece is `.` or `..`; and a slash at the end changes nothing.
pub proof fn law_file_names(dir: Seq<u8>, name: Seq<u8>)
    requires
        name.len() > 0,
        !name.contains(0x2fu8),
        name != seq![0x2eu8],
    ensures
        file_name(joined(dir, name)) == (if name == seq![0x2eu8, 0x2eu8] {
            None
        } else {
            Some(name)
        }),
        file_name(joined(dir, name) + seq![0x2fu8]) == file_name(joined(dir, name)),
        file_name(seq![0x2fu8]) is None,
{
    lemma_joined(dir, name);
    let p = joined(dir, name);
    let empty = Seq::<u8>::empty();
    law_components(p, empty);
    assert(p + seq![0x2fu8] + empty =~= p + seq![0x2fu8]);
    assert(components(p) + components(empty) =~= components(p));
    assert(seq![0x2fu8] + empty =~= seq![0x2fu8]);
    assert(components(seq![0x2fu8]) =~= seq![seq![0x2fu8]]);
    assert(name != seq![0x2fu8]) by {
        if name == seq![0x2fu8] {
            assert(name[0] == 0x2fu8);
        }
    }
}

/// The extension of a file is what follows the last dot of its name, where something
/// stands before that dot. A name without a dot, or with its only one at the front,
/// has none.
pub proof fn law_extensions(dir: Seq<u8>, stem: Seq<u8>, ext: Seq<u8>)
    requires
        !stem.contains(0x2fu8),
        !ext.contains(0x2fu8),
        !ext.contains(0x2eu8),
    ensures
        stem.len() > 0 && !(stem == seq![0x2eu8] && ext.len() == 0) ==> extension(
            joined(dir, stem + seq![0x2eu8] + ext),
        ) == Some(ext),
        ext.len() > 0 ==> extension(joined(dir, ext)) is None && extension(
            joined(dir, seq![0x2eu8] + ext),
        ) is None,
        stem.len() > 0 && valid_utf8(ext) && ext.len() > 0 ==> extension_text(
            joined(dir, stem + seq![0x2eu8] + ext),
        ) == decode_utf8(ext),
{
    let dot = 0x2eu8;
    let name = stem + seq![dot] + ext;
    let hidden_ext = seq![dot] + ext;
    lemma_after_dot(stem, ext);
    lemma_after_dot(seq![], ext);
    assert(Seq::<u8>::empty() + seq![dot] + ext =~= hidden_ext);
    lemma_no_dot(ext);
    assert(name.skip(stem.len() as int + 1) =~= ext);
    assert forall|i: int| 0 <= i < name.len() implies name[i] != 0x2fu8 by {
        if i < stem.len() {
            assert(stem.contains(stem[i]));
        } else if i > stem.len() {
            assert(ext.contains(ext[i - stem.len() - 1]));
        }
    }
    assert forall|i: int| 0 <= i < hidden_ext.len() implies hidden_ext[i] != 0x2fu8 by {
        if i > 0 {
            assert(ext.contains(ext[i - 1]));
        }
    }
    if stem.len() > 0 && !(stem == seq![dot] && ext.len() == 0) {
        assert(name != seq![dot] && name != seq![dot, dot]) by {
            if name == seq![dot, dot] {
                assert(name.len() == 2);
                assert(name[0] == dot && name[1] == dot);
                if ext.len() == 0 {
                    assert(stem =~= seq![dot]);
                }
            }
        }
        law_file_names(dir, name);
    }
    if ext.len() > 0 {
        assert(ext != seq![dot] && ext != seq![dot, dot]) by {
            assert(ext.contains(ext[0]));
        }
        assert(hidden_ext != seq![dot] && hidden_ext != seq![dot, dot]) by {
            assert(ext.contains(ext[0]));
            assert(hidden_ext[1] == ext[0]);
        }
        law_file_names(dir, ext);
        law_file_names(dir, hidden_ext);
    }
}

/// A name without a dot has none to stand behind.
proof fn lemma_no_dot(s: Seq<u8>)
    requires
        !s.contains(0x2eu8),
    ensures
        after_dot(s) == 0,
    decreases s.len(),
{
    if s.len() > 0 {
        assert(s.contains(s.last()));
        assert forall|i: int| 0 <= i < s.drop_last().len() implies s.drop_last()[i] != 0x2eu8 by {
            assert(s.contains(s[i]));
        }
        lemma_no_dot(s.drop_last());
    }
}

/// The last dot of a name is the one before what has none.
proof fn lemma_after_dot(stem: Seq<u8>, ext: Seq<u8>)
    requires
        !ext.contains(0x2eu8),
    ensures
        after_dot(stem + seq![0x2eu8] + ext) == stem.len() + 1,
    decreases ext.len(),
{
    let s = stem + seq![0x2eu8] + ext;
    if ext.len() > 0 {
        assert(ext.contains(ext.last()));
        assert(s.last() == ext.last());
        assert(s.drop_last() =~= stem + seq![0x2eu8] + ext.drop_last());
        assert forall|i: int| 0 <= i < ext.drop_last().len() implies ext.drop_last()[i]
            != 0x2eu8 by {
            assert(ext.contains(ext[i]));
        }
        lemma_after_dot(stem, ext.drop_last());
    }
}

/// A path gets one slash at its end, and one that has it stays as it is.
pub proof fn law_trailing_slash(path: Seq<char>)
    ensures
        slashed(path + seq!['/']) == path + seq!['/'],
        path.len() == 0 || path.last() != '/' ==> slashed(path) == path + seq!['/'],
{
    reveal_strlit("/");
    assert("/"@ =~= seq!['/']);
    assert((path + seq!['/']).last() == '/');
}

} // verus!
