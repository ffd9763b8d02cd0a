//! Byte ranges: what a `Range` header asks of a file.

use vstd::prelude::*;

use crate::number::{
    decimal, is_digit, law_decimal_round_trip, lemma_decimal, parse_number, parsed,
    unsigned_digits,
};
use crate::seqs::{lemma_position, lemma_position_is, split_once};
use crate::text::{
    chars_of, find, is_space, law_trimming, lemma_trimmed, lemma_trimmed_keeps, split_once_at,
    starts_with, strip_prefix, trim, trimmed,
};

verus! {

/// What a `Range` header comes to for a file of known length.
#[derive(Clone, Copy, Debug, PartialEq, Eq, Structural)]
pub enum RangeSpec {
    /// One range, both ends counted in.
    Satisfiable { start: u64, end: u64 },
    /// A well-formed byte range that the file does not have.
    Unsatisfiable,
    /// Not one well-formed byte range: the whole file is served.
    Ignore,
}

/// The texts of the first and the last position in a `Range` value that asks for
/// one byte range.
pub open spec fn range_positions(value: Seq<char>) -> Option<(Seq<char>, Seq<char>)> {
    let v = trimmed(value);
    if !starts_with(v, "bytes="@) {
        None
    } else {
        let positions = trimmed(v.skip("bytes="@.len() as int));
        if positions.contains(',') {
            None
        } else {
            match split_once(positions, '-') {
                Some(p) => Some((trimmed(p.0), trimmed(p.1))),
                None => None,
            }
        }
    }
}

/// The range from position `first` to position `last`, or to the end where there is
/// no last one, in a file of `len` bytes.
pub open spec fn range_from(first: nat, last: Option<nat>, len: u64) -> RangeSpec {
    let end = match last {
        Some(b) => if b < len {
            b as int
        } else {
            len - 1
        },
        None => len - 1,
    };
    if first >= len || end < first {
        RangeSpec::Unsatisfiable
    } else {
        RangeSpec::Satisfiable { start: first as u64, end: end as u64 }
    }
}

/// The range of the last `n` bytes in a file of `len` bytes.
pub open spec fn range_of_suffix(n: nat, len: u64) -> RangeSpec {
    if n == 0 || len == 0 {
        RangeSpec::Unsatisfiable
    } else {
        RangeSpec::Satisfiable {
            start: if n < len {
                (len - n) as u64
            } else {
                0
            },
            end: (len - 1) as u64,
        }
    }
}

/// The range that the positions `first` and `last` give in a file of `len` bytes.
/// Without a first position, the last one is a number of bytes from the end;
/// without a last one, the range goes to the end. A position that is no number
/// makes no range.
pub open spec fn range_between(first: Seq<char>, last: Seq<char>, len: u64) -> RangeSpec {
    let a = parsed(first, 10, u64::MAX as nat);
    let b = parsed(last, 10, u64::MAX as nat);
    if first.len() == 0 {
        match b {
            Some(n) => range_of_suffix(n, len),
            None => RangeSpec::Ignore,
        }
    } else if a is None || (last.len() > 0 && b is None) {
        RangeSpec::Ignore
    } else {
        range_from(a->0, b, len)
    }
}

/// What the `Range` value asks of a file of `len` bytes.
pub open spec fn byte_range(value: Seq<char>, len: u64) -> RangeSpec {
    match range_positions(value) {
        Some(p) => range_between(p.0, p.1, len),
        None => RangeSpec::Ignore,
    }
}

/// What the value of a `Range` header asks of a file of `len` bytes. One range is
/// served, in the forms `bytes=START-END`, `bytes=START-` and `bytes=-SUFFIX`.
pub fn parse_byte_range(value: &str, len: u64) -> (r: RangeSpec)
    ensures
        r == byte_range(value@, len),
{
    let chars = chars_of(value);
    let positions = match strip_prefix(trim(chars.as_slice()), "bytes=") {
        Some(rest) => trim(rest),
        None => {
            return RangeSpec::Ignore;
        },
    };
    if has_comma(positions) {
        return RangeSpec::Ignore;
    }
    let (first, last) = match split_once_at(positions, '-') {
        Some((a, b)) => (trim(a), trim(b)),
        None => {
            return RangeSpec::Ignore;
        },
    };
    if first.len() == 0 {
        return match parse_number(last, 10, u64::MAX) {
            Some(n) => if n == 0 || len == 0 {
                RangeSpec::Unsatisfiable
            } else if n < len {
                RangeSpec::Satisfiable { start: len - n, end: len - 1 }
            } else {
                RangeSpec::Satisfiable { start: 0, end: len - 1 }
            },
            None => RangeSpec::Ignore,
        };
    }
    let start: u64 = match parse_number(first, 10, u64::MAX) {
        Some(n) => n,
        None => {
            return RangeSpec::Ignore;
        },
    };
    let stop = parse_number(last, 10, u64::MAX);
    if last.len() > 0 && stop.is_none() {
        return RangeSpec::Ignore;
    }
    if start >= len {
        return RangeSpec::Unsatisfiable;
    }
    let end: u64 = match stop {
        Some(n) => if n < len {
            n
        } else {
            len - 1
        },
        None => len - 1,
    };
    if end < start {
        return RangeSpec::Unsatisfiable;
    }
    RangeSpec::Satisfiable { start, end }
}

/// Whether there is a comma in `s`.
fn has_comma(s: &[char]) -> (r: bool)
    ensures
        r == s@.contains(','),
{
    proof {
        lemma_position(s@, ',');
    }
    find(s, ',') < s.len()
}

// ---------------------------------------------------------------------------
// Laws
// ---------------------------------------------------------------------------
/// A range that is served lies in the file.
pub proof fn law_range_lies_in_file(value: Seq<char>, len: u64)
    ensures
        byte_range(value, len) matches RangeSpec::Satisfiable { start, end } ==> start <= end < len,
{
}

/// No range of an empty file is served.
pub proof fn law_empty_file_has_no_range(value: Seq<char>)
    ensures
        !(byte_range(value, 0) is Satisfiable),
{
}

/// Whether `s` is made of digits, or empty.
spec fn plain(s: Seq<char>) -> bool {
    forall|i: int| 0 <= i < s.len() ==> is_digit(#[trigger] s[i], 10)
}

/// The positions in a value that is written without white space.
proof fn lemma_positions(first: Seq<char>, last: Seq<char>)
    requires
        plain(first),
        plain(last),
    ensures
        range_positions("bytes="@ + first + "-"@ + last) == Some((first, last)),
{
    assert forall|i: int| 0 <= i < first.len() implies !is_space(#[trigger] first[i]) && first[i]
        != '-' && first[i] != ',' by {
        assert(is_digit(first[i], 10));
    }
    assert forall|i: int| 0 <= i < last.len() implies !is_space(#[trigger] last[i]) && last[i]
        != ',' by {
        assert(is_digit(last[i], 10));
    }
    lemma_positions_of(first, last);
}

/// The positions in a value without white space, whatever their characters.
proof fn lemma_positions_of(first: Seq<char>, last: Seq<char>)
    requires
        forall|i: int|
            0 <= i < first.len() ==> !is_space(#[trigger] first[i]) && first[i] != '-' && first[i]
                != ',',
        forall|i: int| 0 <= i < last.len() ==> !is_space(#[trigger] last[i]) && last[i] != ',',
    ensures
        range_positions("bytes="@ + first + "-"@ + last) == Some((first, last)),
{
    reveal_strlit("bytes=");
    reveal_strlit("-");
    let positions = first + "-"@ + last;
    let v = "bytes="@ + first + "-"@ + last;
    assert(v.skip(6) =~= positions);
    assert(v.take(6) =~= "bytes="@);
    assert forall|i: int| 0 <= i < positions.len() implies !is_space(#[trigger] positions[i])
        && positions[i] != ',' by {
        if i < first.len() {
            assert(positions[i] == first[i]);
        } else if i > first.len() {
            assert(positions[i] == last[i - first.len() - 1]);
        }
    }
    assert forall|i: int| 0 <= i < v.len() implies !is_space(#[trigger] v[i]) by {
        if i >= 6 {
            assert(v[i] == positions[i - 6]);
        } else {
            assert(i == 0 || i == 1 || i == 2 || i == 3 || i == 4 || i == 5);
        }
    }
    lemma_trimmed(v);
    lemma_trimmed(positions);
    assert(positions[first.len() as int] == '-');
    assert forall|i: int| 0 <= i < first.len() implies positions[i] != '-' by {
        assert(positions[i] == first[i]);
    }
    lemma_position_is(positions, '-', first.len() as int);
    assert(positions.take(first.len() as int) =~= first);
    assert(positions.skip(first.len() as int + 1) =~= last);
    lemma_trimmed(first);
    lemma_trimmed(last);
}

/// The three forms of a range: from one position to another, both counted in and
/// cut at the end of the file; from a position to the end; and a number of bytes
/// at the end.
pub proof fn law_range_forms(first: u64, last: u64, suffix: u64, len: u64)
    ensures
        byte_range("bytes="@ + decimal(first as nat) + "-"@ + decimal(last as nat), len)
            == range_from(first as nat, Some(last as nat), len),
        byte_range("bytes="@ + decimal(first as nat) + "-"@, len) == range_from(
            first as nat,
            None,
            len,
        ),
        byte_range("bytes="@ + "-"@ + decimal(suffix as nat), len) == range_of_suffix(
            suffix as nat,
            len,
        ),
{
    let a = decimal(first as nat);
    let b = decimal(last as nat);
    let n = decimal(suffix as nat);
    let e = Seq::<char>::empty();
    lemma_decimal(first as nat);
    lemma_decimal(last as nat);
    lemma_decimal(suffix as nat);
    law_decimal_round_trip(first as nat, u64::MAX as nat);
    law_decimal_round_trip(last as nat, u64::MAX as nat);
    law_decimal_round_trip(suffix as nat, u64::MAX as nat);
    lemma_positions(a, b);
    lemma_positions(a, e);
    lemma_positions(e, n);
    assert("bytes="@ + a + "-"@ + e =~= "bytes="@ + a + "-"@);
    assert("bytes="@ + e + "-"@ + n =~= "bytes="@ + "-"@ + n);
}

/// Several ranges in one header, or a unit other than bytes, ask for the whole file.
pub proof fn law_other_ranges_are_ignored(value: Seq<char>, len: u64)
    requires
        trimmed(value).contains(',') || !starts_with(trimmed(value), "bytes="@),
    ensures
        byte_range(value, len) == RangeSpec::Ignore,
{
    reveal_strlit("bytes=");
    let v = trimmed(value);
    if starts_with(v, "bytes="@) {
        let rest = v.skip(6);
        let i = choose|i: int| 0 <= i < v.len() && v[i] == ',';
        assert(v.take(6)[i] == v[i] || i >= 6);
        assert(i >= 6) by {
            if i < 6 {
                assert(v.take(6)[i] == "bytes="@[i]);
                assert(i == 0 || i == 1 || i == 2 || i == 3 || i == 4 || i == 5);
            }
        }
        assert(rest[i - 6] == ',');
        lemma_trimmed_keeps(rest, ',');
    }
}

/// The last bytes of a file: a suffix gives exactly as many as it says, up to the
/// end of the file, and the whole file where that is shorter. There are no last bytes
/// of an empty file, and no range of none.
pub proof fn law_suffix_is_the_last_bytes(suffix: u64, len: u64)
    ensures
        suffix > 0 && len > 0 ==> (byte_range("bytes=-"@ + decimal(suffix as nat), len)
            matches RangeSpec::Satisfiable { start, end } && end == len - 1 && (suffix <= len
            ==> end - start + 1 == suffix) && (suffix > len ==> start == 0)),
        suffix == 0 || len == 0 ==> byte_range("bytes=-"@ + decimal(suffix as nat), len)
            == RangeSpec::Unsatisfiable,
{
    law_range_forms(0, 0, suffix, len);
    reveal_strlit("bytes=");
    reveal_strlit("-");
    reveal_strlit("bytes=-");
    let n = decimal(suffix as nat);
    assert("bytes=-"@ + n =~= "bytes="@ + "-"@ + n);
}

/// From one position to another: the range begins with the first byte asked for and
/// ends with the last, or with the last of the file where that comes before. There is
/// none that begins behind the end of the file or ends before it begins.
pub proof fn law_range_holds_the_bytes_between(first: u64, last: u64, len: u64)
    ensures
        first <= last && first < len ==> (byte_range(
            "bytes="@ + decimal(first as nat) + "-"@ + decimal(last as nat),
            len,
        ) matches RangeSpec::Satisfiable { start, end } && start == first && (last < len ==> end
            == last) && (last >= len ==> end == len - 1)),
        last < first || len <= first ==> byte_range(
            "bytes="@ + decimal(first as nat) + "-"@ + decimal(last as nat),
            len,
        ) == RangeSpec::Unsatisfiable,
{
    law_range_forms(first, last, 0, len);
}

/// From a position to the end: all bytes but those before it.
pub proof fn law_open_range_goes_to_the_end(first: u64, len: u64)
    ensures
        first < len ==> (byte_range("bytes="@ + decimal(first as nat) + "-"@, len)
            matches RangeSpec::Satisfiable { start, end } && start == first && end == len - 1),
        len <= first ==> byte_range("bytes="@ + decimal(first as nat) + "-"@, len)
            == RangeSpec::Unsatisfiable,
{
    law_range_forms(first, 0, 0, len);
}

/// White space around the value of the header changes nothing.
pub proof fn law_range_ignores_outer_space(a: Seq<char>, value: Seq<char>, b: Seq<char>, len: u64)
    requires
        forall|i: int| 0 <= i < a.len() ==> is_space(#[trigger] a[i]),
        forall|i: int| 0 <= i < b.len() ==> is_space(#[trigger] b[i]),
        value.len() > 0,
        !is_space(value[0]),
        !is_space(value[value.len() - 1]),
    ensures
        byte_range(a + value + b, len) == byte_range(value, len),
{
    let e = Seq::<char>::empty();
    law_trimming(a, value, b);
    law_trimming(e, value, e);
    assert(e + value + e =~= value);
}

/// A position that holds anything but digits makes no range, whatever the length of
/// the file.
pub proof fn law_malformed_positions_are_ignored(first: Seq<char>, last: Seq<char>, len: u64)
    requires
        forall|i: int|
            0 <= i < first.len() ==> !is_space(#[trigger] first[i]) && first[i] != '-' && first[i]
                != ',',
        forall|i: int| 0 <= i < last.len() ==> !is_space(#[trigger] last[i]) && last[i] != ',',
        (exists|i: int|
            0 <= i < first.len() && first[i] != '+' && !('0' <= #[trigger] first[i] <= '9')) || (
        exists|i: int| 0 <= i < last.len() && last[i] != '+' && !('0' <= #[trigger] last[i] <= '9'))
            || (first.len() == 0 && last.len() == 0),
    ensures
        byte_range("bytes="@ + first + "-"@ + last, len) == RangeSpec::Ignore,
{
    lemma_positions_of(first, last);
    if exists|i: int|
        0 <= i < first.len() && first[i] != '+' && !('0' <= #[trigger] first[i] <= '9') {
        lemma_no_number(first);
    } else if first.len() == 0 && last.len() == 0 {
    } else {
        lemma_no_number(last);
    }
}

/// A text with a character that is neither a digit nor a sign is no number.
proof fn lemma_no_number(s: Seq<char>)
    requires
        exists|i: int| 0 <= i < s.len() && s[i] != '+' && !('0' <= #[trigger] s[i] <= '9'),
    ensures
        parsed(s, 10, u64::MAX as nat) is None,
        s.len() > 0,
{
    let i = choose|i: int| 0 <= i < s.len() && s[i] != '+' && !('0' <= #[trigger] s[i] <= '9');
    let t = unsigned_digits(s);
    if s[0] == '+' {
        assert(t[i - 1] == s[i]);
        assert(!is_digit(t[i - 1], 10));
    } else {
        assert(!is_digit(t[i], 10));
    }
}

/// What is read of a `Range` header that names one range, in any of its three forms:
/// exactly the bytes that it asks for, as far as the file has them.
pub proof fn law_ranges_are_parsed(value: &str, first: u64, last: u64, len: u64, r: RangeSpec)
    requires
        call_ensures(parse_byte_range, (value, len), r),
    ensures
        value@ == "bytes=-"@ + decimal(last as nat) && last > 0 && len > 0 ==> (
        r matches RangeSpec::Satisfiable { start, end } && end == len - 1 && (last <= len ==> end
            - start + 1 == last) && (last > len ==> start == 0)),
        value@ == "bytes="@ + decimal(first as nat) + "-"@ && first < len ==> (
        r matches RangeSpec::Satisfiable { start, end } && start == first && end == len - 1),
        value@ == "bytes="@ + decimal(first as nat) + "-"@ + decimal(last as nat) && first <= last
            && first < len ==> (r matches RangeSpec::Satisfiable { start, end } && start == first
            && (last < len ==> end == last) && (last >= len ==> end == len - 1)),
{
    law_suffix_is_the_last_bytes(last, len);
    law_open_range_goes_to_the_end(first, len);
    law_range_holds_the_bytes_between(first, last, len);
}

/// A position that is no number of 64 bits makes no range.
pub proof fn law_positions_have_64_bits(first: nat, last: nat, len: u64)
    ensures
        last > u64::MAX ==> byte_range("bytes=-"@ + decimal(last), len) == RangeSpec::Ignore,
        first > u64::MAX || last > u64::MAX ==> byte_range(
            "bytes="@ + decimal(first) + "-"@ + decimal(last),
            len,
        ) == RangeSpec::Ignore,
{
    lemma_decimal(first);
    lemma_decimal(last);
    assert(is_digit(decimal(first)[0], 10));
    assert(is_digit(decimal(last)[0], 10));
    lemma_positions(decimal(first), decimal(last));
    lemma_positions(seq![], decimal(last));
    reveal_strlit("bytes=");
    reveal_strlit("-");
    reveal_strlit("bytes=-");
    assert("bytes=-"@ + decimal(last) =~= "bytes="@ + Seq::<char>::empty() + "-"@ + decimal(last));
}

} // verus!
