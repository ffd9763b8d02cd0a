//! Validators and conditional requests: entity tags, modification times, and
//! whether the copy that a client holds is still current.

use vstd::prelude::*;

use crate::date::{
    day_number, http_date, http_date_text, http_date_value, is_http_date,
    law_http_date_round_trip, law_http_dates_are_read, parse_http_date, since_epoch,
    weekday_name,
};
use crate::http::{pairs, Request};
use crate::number::{
    hexadecimal, hexadecimal_string, is_hexadecimal_digit, lemma_hexadecimal,
    lemma_hexadecimal_is_unique, padded,
};
use crate::seqs::{law_pieces_stand_between_separators, lemma_position_is, lemma_split_plain, split};
use crate::text::{
    chars_are, chars_of, contents, is_space, law_trimming, lemma_trimmed, split_at,
    starts_with, string_of, strip_prefixes, trim, trim_end, trim_start, trimmed,
    without_prefixes,
};

verus! {

/// What the filesystem says of a file or directory.
#[derive(Clone, Copy)]
pub struct Meta {
    pub is_dir: bool,
    /// The size in bytes.
    pub len: u64,
    /// When it was last modified, in whole seconds since the epoch, rounded down;
    /// negative before it. Not every filesystem tells.
    pub modified: Option<i64>,
}

// ---------------------------------------------------------------------------
// Validators
// ---------------------------------------------------------------------------
/// The entity tag of a file: its size and its modification time in hexadecimal.
/// There is none where the time is unknown or before the epoch.
pub open spec fn etag_text(meta: Meta) -> Option<Seq<char>> {
    match meta.modified {
        Some(t) => if t >= 0 {
            Some("\""@ + hexadecimal(meta.len as nat) + "-"@ + hexadecimal(t as nat) + "\""@)
        } else {
            None
        },
        None => None,
    }
}

/// The entity tag of a file, a strong validator such as `"1f-65a3b2c0"`.
pub fn etag_for(meta: &Meta) -> (r: Option<String>)
    ensures
        r is Some <==> etag_text(*meta) is Some,
        r matches Some(e) ==> etag_text(*meta) == Some(e@),
{
    match meta.modified {
        Some(t) => {
            if t < 0 {
                return None;
            }
            let mut e = "\"".to_string();
            e.append(hexadecimal_string(meta.len).as_str());
            e.append("-");
            e.append(hexadecimal_string(t as u64).as_str());
            e.append("\"");
            Some(e)
        },
        None => None,
    }
}

/// The headers that give a client its validators.
pub open spec fn validators(etag: Option<Seq<char>>, modified: Option<i64>) -> Seq<
    (Seq<char>, Seq<char>),
> {
    let date = match modified {
        Some(t) => seq![("Last-Modified"@, http_date_text(since_epoch(t as int)))],
        None => seq![],
    };
    match etag {
        Some(e) => date.push(("ETag"@, e)),
        None => date,
    }
}

/// An optional text.
pub open spec fn text_of(s: Option<&str>) -> Option<Seq<char>> {
    match s {
        Some(t) => Some(t@),
        None => None,
    }
}

/// The headers `Last-Modified` and `ETag`, as far as they are known.
pub fn validator_headers(etag: Option<&str>, modified: Option<i64>) -> (r: Vec<
    (&'static str, String),
>)
    ensures
        pairs(r@) == validators(text_of(etag), modified),
{
    let mut h: Vec<(&'static str, String)> = Vec::new();
    if let Some(t) = modified {
        h.push(("Last-Modified", http_date(t)));
    }
    if let Some(e) = etag {
        h.push(("ETag", e.to_string()));
    }
    assert(pairs(h@) =~= validators(text_of(etag), modified));
    h
}

// ---------------------------------------------------------------------------
// Conditions
// ---------------------------------------------------------------------------
/// Whether the list of entity tags in an `If-None-Match` value covers `etag`: the
/// list is `*`, or one of its tags, weak or strong, is this one.
pub open spec fn lists_etag(value: Seq<char>, etag: Seq<char>) -> bool {
    let tags = split(trimmed(value), ',');
    trimmed(value) == "*"@ || exists|i: int|
        0 <= i < tags.len() && without_prefixes(trimmed(#[trigger] tags[i]), "W/"@) == etag
}

/// Whether an `If-None-Match` value covers the entity tag.
pub fn etag_list_matches(header: &str, etag: &str) -> (r: bool)
    ensures
        r == lists_etag(header@, etag@),
{
    let chars = chars_of(header);
    let h = trim(chars.as_slice());
    if chars_are(h, "*") {
        return true;
    }
    proof {
        reveal_strlit("W/");
    }
    let tags = split_at(h, ',');
    let ghost all = split(trimmed(header@), ',');
    let mut i: usize = 0;
    while i < tags.len()
        invariant
            i <= tags.len(),
            contents(tags@) == all,
            all == split(trimmed(header@), ','),
            "W/"@.len() == 2,
            forall|j: int|
                0 <= j < i ==> without_prefixes(trimmed(#[trigger] all[j]), "W/"@) != etag@,
        decreases tags.len() - i,
    {
        assert(all[i as int] == tags@[i as int]@);
        if chars_are(strip_prefixes(trim(tags[i]), "W/"), etag) {
            return true;
        }
        i += 1;
    }
    false
}

/// Whether the HTTP date `value` is at or after the modification time, which is
/// not before the epoch.
pub open spec fn covers(value: Seq<char>, modified: i64) -> bool {
    is_http_date(value) && 0 <= modified <= http_date_value(value)
}

/// Whether a copy from the time of the HTTP date is still current.
pub fn date_covers(header_val: &str, modified: i64) -> (r: bool)
    ensures
        r == covers(header_val@, modified),
{
    match parse_http_date(header_val) {
        Some(since) => 0 <= modified && modified <= since,
        None => false,
    }
}

/// Whether the copy of the client is still current. An entity tag decides where
/// the client names one, else the date.
pub open spec fn is_current(
    if_none_match: Option<Seq<char>>,
    if_modified_since: Option<Seq<char>>,
    etag: Option<Seq<char>>,
    modified: Option<i64>,
) -> bool {
    match if_none_match {
        Some(v) => etag matches Some(e) && lists_etag(v, e),
        None => match if_modified_since {
            Some(v) => modified matches Some(t) && covers(v, t),
            None => false,
        },
    }
}

/// Whether the copy of the client is still current, so that the answer is
/// `304 Not Modified`.
pub fn not_modified(req: &Request, etag: Option<&str>, modified: Option<i64>) -> (r: bool)
    ensures
        r == is_current(
            req.value_of("if-none-match"@),
            req.value_of("if-modified-since"@),
            text_of(etag),
            modified,
        ),
{
    if let Some(v) = req.header("if-none-match") {
        return match etag {
            Some(e) => etag_list_matches(v, e),
            None => false,
        };
    }
    match req.header("if-modified-since") {
        Some(v) => match modified {
            Some(t) => date_covers(v, t),
            None => false,
        },
        None => false,
    }
}

/// Whether a range may be served: there is no `If-Range`, or its validator, an
/// entity tag or a date, still holds.
pub open spec fn range_applies(
    if_range: Option<Seq<char>>,
    etag: Option<Seq<char>>,
    modified: Option<i64>,
) -> bool {
    match if_range {
        Some(v) => {
            let validator = trimmed(v);
            if starts_with(validator, "\""@) {
                etag == Some(validator)
            } else {
                modified matches Some(t) && covers(validator, t)
            }
        },
        None => true,
    }
}

/// Whether a range may be served.
pub fn if_range_matches(req: &Request, etag: Option<&str>, modified: Option<i64>) -> (r: bool)
    ensures
        r == range_applies(req.value_of("if-range"@), text_of(etag), modified),
{
    let chars = match req.header("if-range") {
        Some(v) => chars_of(v),
        None => {
            return true;
        },
    };
    let validator = trim(chars.as_slice());
    proof {
        reveal_strlit("\"");
        if validator@.len() > 0 {
            assert(validator@.take(1)[0] == validator@[0]);
            assert(validator@[0] == '"' ==> validator@.take(1) =~= "\""@);
        }
    }
    if validator.len() > 0 && validator[0] == '"' {
        return match etag {
            Some(e) => chars_are(validator, e),
            None => false,
        };
    }
    match modified {
        Some(t) => date_covers(string_of(validator).as_str(), t),
        None => false,
    }
}

// ---------------------------------------------------------------------------
// Laws
// ---------------------------------------------------------------------------
/// The characters of an entity tag: quotation marks around digits and a hyphen.
proof fn lemma_etag_chars(meta: Meta)
    requires
        etag_text(meta) is Some,
    ensures
        etag_text(meta)->0.len() >= 2,
        etag_text(meta)->0[0] == '"',
        forall|i: int|
            0 <= i < etag_text(meta)->0.len() ==> {
                let c = #[trigger] etag_text(meta)->0[i];
                c == '"' || c == '-' || is_hexadecimal_digit(c)
            },
{
    reveal_strlit("\"");
    reveal_strlit("-");
    let a = hexadecimal(meta.len as nat);
    let b = hexadecimal(meta.modified->0 as nat);
    lemma_hexadecimal(meta.len as nat);
    lemma_hexadecimal(meta.modified->0 as nat);
    let e = etag_text(meta)->0;
    assert forall|i: int| 0 <= i < e.len() implies {
        let c = #[trigger] e[i];
        c == '"' || c == '-' || is_hexadecimal_digit(c)
    } by {
        if 1 <= i <= a.len() {
            assert(e[i] == a[i - 1]);
        } else if a.len() + 2 <= i < a.len() + 2 + b.len() {
            assert(e[i] == b[i - a.len() - 2]);
        }
    }
}

/// A strong validator: two states of a file have the same entity tag if and only
/// if they have the same size and the same modification time.
pub proof fn law_etag_tells_states_apart(a: Meta, b: Meta)
    requires
        etag_text(a) is Some,
        etag_text(b) is Some,
    ensures
        etag_text(a) == etag_text(b) <==> a.len == b.len && a.modified == b.modified,
{
    if etag_text(a) == etag_text(b) {
        reveal_strlit("\"");
        reveal_strlit("-");
        let e = etag_text(a)->0;
        let al = hexadecimal(a.len as nat);
        let at = hexadecimal(a.modified->0 as nat);
        let bl = hexadecimal(b.len as nat);
        let bt = hexadecimal(b.modified->0 as nat);
        lemma_hexadecimal(a.len as nat);
        lemma_hexadecimal(b.len as nat);
        assert forall|i: int| 0 <= i < 1 + al.len() implies e[i] != '-' by {
            if i > 0 {
                assert(e[i] == al[i - 1]);
            }
        }
        assert forall|i: int| 0 <= i < 1 + bl.len() implies e[i] != '-' by {
            if i > 0 {
                assert(e[i] == bl[i - 1]);
            }
        }
        lemma_position_is(e, '-', 1 + al.len() as int);
        lemma_position_is(e, '-', 1 + bl.len() as int);
        assert(e.subrange(1, 1 + al.len() as int) =~= al);
        assert(e.subrange(1, 1 + bl.len() as int) =~= bl);
        assert(e.subrange(2 + al.len() as int, e.len() - 1) =~= at);
        assert(e.subrange(2 + bl.len() as int, e.len() - 1) =~= bt);
        lemma_hexadecimal_is_unique(a.len as nat, b.len as nat);
        lemma_hexadecimal_is_unique(a.modified->0 as nat, b.modified->0 as nat);
    }
}

/// A client that sends back the entity tag it was given is told that its copy is
/// current, and may have a range of it.
pub proof fn law_etag_revalidates(meta: Meta, if_modified_since: Option<Seq<char>>)
    requires
        etag_text(meta) is Some,
    ensures
        is_current(etag_text(meta), if_modified_since, etag_text(meta), meta.modified),
        range_applies(etag_text(meta), etag_text(meta), meta.modified),
{
    let e = etag_text(meta)->0;
    lemma_etag_chars(meta);
    lemma_etag_is_plain(meta);
    assert(!e.contains(',')) by {
        if e.contains(',') {
            let i = choose|i: int| 0 <= i < e.len() && e[i] == ',';
            assert(false);
        }
    }
    lemma_split_plain(e, ',');
    reveal_strlit("W/");
    assert(!starts_with(e, "W/"@)) by {
        if starts_with(e, "W/"@) {
            assert(e.take(2)[0] == e[0]);
        }
    }
    assert(split(e, ',')[0] == e);
    assert(lists_etag(e, e));
}

/// An entity tag is not changed by trimming, and begins with a quotation mark.
proof fn lemma_etag_is_plain(meta: Meta)
    requires
        etag_text(meta) is Some,
    ensures
        trimmed(etag_text(meta)->0) == etag_text(meta)->0,
        starts_with(etag_text(meta)->0, "\""@),
{
    let e = etag_text(meta)->0;
    lemma_etag_chars(meta);
    assert forall|i: int| 0 <= i < e.len() implies !is_space(#[trigger] e[i]) by {}
    lemma_trimmed(e);
    reveal_strlit("\"");
    assert(e.take(1) =~= "\""@);
}

/// A client that has a part of one version of a file is not given a range of another
/// version, so that the two cannot be spliced.
pub proof fn law_versions_are_not_spliced(old_version: Meta, meta: Meta)
    requires
        etag_text(old_version) is Some,
        old_version.len != meta.len || old_version.modified != meta.modified,
    ensures
        !range_applies(etag_text(old_version), etag_text(meta), meta.modified),
{
    lemma_etag_is_plain(old_version);
    if etag_text(meta) is Some {
        law_etag_tells_states_apart(old_version, meta);
    }
}

/// Where a client names entity tags, they decide and its date does not.
pub proof fn law_etags_take_precedence(
    if_none_match: Seq<char>,
    date: Option<Seq<char>>,
    other: Option<Seq<char>>,
    etag: Option<Seq<char>>,
    modified: Option<i64>,
)
    ensures
        is_current(Some(if_none_match), date, etag, modified) == is_current(
            Some(if_none_match),
            other,
            etag,
            modified,
        ),
{
}

/// An HTTP date is not changed by trimming, and is no entity tag.
proof fn lemma_http_date_is_plain(s: Seq<char>)
    requires
        is_http_date(s),
    ensures
        trimmed(s) == s,
        !starts_with(s, "\""@),
{
    let w = choose|w: int| 0 <= w < 7 && s.subrange(0, 3) == #[trigger] weekday_name(w);
    reveal_strlit("Sun");
    reveal_strlit("Mon");
    reveal_strlit("Tue");
    reveal_strlit("Wed");
    reveal_strlit("Thu");
    reveal_strlit("Fri");
    reveal_strlit("Sat");
    reveal_strlit(" GMT");
    reveal_strlit("\"");
    assert(s.subrange(0, 3)[0] == s[0]);
    assert(s.subrange(25, 29)[3] == s[28]);
    assert(!is_space(s[0]) && s[0] != '"');
    assert(s[28] == 'T');
    assert(trim_start(s) == s);
    assert(trim_end(s) == s);
    if starts_with(s, "\""@) {
        assert(s.take(1)[0] == s[0]);
    }
}

/// A client that sends back the date it was given, and no entity tag, is told that
/// its copy is current, and may have a range of it.
pub proof fn law_date_revalidates(etag: Option<Seq<char>>, modified: i64)
    requires
        0 <= modified < 253402300800,
    ensures
        is_current(None, Some(http_date_text(modified as int)), etag, Some(modified)),
        range_applies(Some(http_date_text(modified as int)), etag, Some(modified)),
{
    law_http_date_round_trip(modified as int);
    lemma_http_date_is_plain(http_date_text(modified as int));
}

/// A copy that is older than the file is not current by its date.
pub proof fn law_older_copy_is_not_current(
    etag: Option<Seq<char>>,
    copied: int,
    modified: i64,
)
    requires
        0 <= copied < modified,
        copied < 253402300800,
    ensures
        !is_current(None, Some(http_date_text(copied)), etag, Some(modified)),
        !range_applies(Some(http_date_text(copied)), etag, Some(modified)),
{
    law_http_date_round_trip(copied);
    lemma_http_date_is_plain(http_date_text(copied));
}

/// An entity tag holds no character that begins or ends XML markup.
pub proof fn law_etag_is_inert_in_xml(meta: Meta)
    requires
        etag_text(meta) is Some,
    ensures
        forall|i: int|
            0 <= i < etag_text(meta)->0.len() ==> {
                let c = #[trigger] etag_text(meta)->0[i];
                c != '<' && c != '>' && c != '&'
            },
{
    lemma_etag_chars(meta);
}

/// The entity tag of a file that was last modified at or after the epoch: its size, a
/// hyphen and the time, in hexadecimal and in quotation marks. No other file has one.
pub proof fn law_etags(len: u64, is_dir: bool, t: i64)
    ensures
        t >= 0 ==> etag_text(Meta { is_dir, len, modified: Some(t) }) == Some(
            seq!['"'] + hexadecimal(len as nat) + seq!['-'] + hexadecimal(t as nat) + seq!['"'],
        ),
        t < 0 ==> etag_text(Meta { is_dir, len, modified: Some(t) }) is None,
        etag_text(Meta { is_dir, len, modified: None }) is None,
{
    reveal_strlit("\"");
    reveal_strlit("-");
    assert("\""@ =~= seq!['"']);
    assert("-"@ =~= seq!['-']);
}

/// When a list of entity tags covers one: where the list is `*`, or where between two
/// of its commas or ends there stands that tag, with `W/` before it or not and with
/// white space around it or not.
pub proof fn law_etag_lists(value: Seq<char>, etag: Seq<char>)
    requires
        value.len() > 0,
        !is_space(value[0]),
        !is_space(value[value.len() - 1]),
    ensures
        lists_etag(value, etag) <==> value == seq!['*'] || exists|a: Seq<char>, tag: Seq<
            char,
        >, b: Seq<char>|
            value == #[trigger] (a + tag + b) && !tag.contains(',') && (a.len() == 0 || a.last()
                == ',') && (b.len() == 0 || b[0] == ',') && without_prefixes(trimmed(tag), "W/"@)
                == etag,
{
    let e = Seq::<char>::empty();
    law_trimming(e, value, e);
    assert(e + value + e =~= value);
    reveal_strlit("*");
    assert("*"@ =~= seq!['*']);
    let tags = split(value, ',');
    if exists|i: int|
        0 <= i < tags.len() && without_prefixes(trimmed(#[trigger] tags[i]), "W/"@) == etag {
        let i = choose|i: int|
            0 <= i < tags.len() && without_prefixes(trimmed(#[trigger] tags[i]), "W/"@) == etag;
        let tag = tags[i];
        law_pieces_stand_between_separators(value, ',', tag);
        assert(tags.contains(tag));
        let (a, b) = choose|a: Seq<char>, b: Seq<char>|
            value == #[trigger] (a + tag + b) && (a.len() == 0 || a.last() == ',') && (b.len() == 0
                || b[0] == ',');
        assert(value == a + tag + b);
    }
    if exists|a: Seq<char>, tag: Seq<char>, b: Seq<char>|
        value == #[trigger] (a + tag + b) && !tag.contains(',') && (a.len() == 0 || a.last() == ',')
            && (b.len() == 0 || b[0] == ',') && without_prefixes(trimmed(tag), "W/"@) == etag {
        let (a, tag, b) = choose|a: Seq<char>, tag: Seq<char>, b: Seq<char>|
            value == #[trigger] (a + tag + b) && !tag.contains(',') && (a.len() == 0 || a.last()
                == ',') && (b.len() == 0 || b[0] == ',') && without_prefixes(trimmed(tag), "W/"@)
                == etag;
        law_pieces_stand_between_separators(value, ',', tag);
        let i = choose|i: int| 0 <= i < tags.len() && tags[i] == tag;
        assert(without_prefixes(trimmed(tags[i]), "W/"@) == etag);
    }
}

/// White space around a list of entity tags changes nothing.
pub proof fn law_etag_lists_ignore_outer_space(
    a: Seq<char>,
    value: Seq<char>,
    b: Seq<char>,
    etag: Seq<char>,
)
    requires
        forall|i: int| 0 <= i < a.len() ==> is_space(#[trigger] a[i]),
        forall|i: int| 0 <= i < b.len() ==> is_space(#[trigger] b[i]),
        value.len() > 0,
        !is_space(value[0]),
        !is_space(value[value.len() - 1]),
    ensures
        lists_etag(a + value + b, etag) == lists_etag(value, etag),
{
    let e = Seq::<char>::empty();
    law_trimming(a, value, b);
    law_trimming(e, value, e);
    assert(e + value + e =~= value);
}

/// When the copy of a client is current. A client that names entity tags is told so
/// where they cover that of the file; one that names a date alone, where the file was
/// not modified after that date, and not before the epoch; any other never.
pub proof fn law_when_a_copy_is_current(
    tags: Option<Seq<char>>,
    w: int,
    y: int,
    m: int,
    d: int,
    h: int,
    mi: int,
    se: int,
    etag: Option<Seq<char>>,
    modified: i64,
)
    requires
        0 <= w < 7,
        0 <= y < 10000,
        1 <= m <= 12,
        0 <= d < 100,
        0 <= h < 100,
        0 <= mi < 100,
        0 <= se < 100,
    ensures
        ({
            let since = "SunMonTueWedThuFriSat"@.subrange(3 * w, 3 * w + 3) + ", "@ + padded(
                d as nat,
                2,
            ) + " "@ + "JanFebMarAprMayJunJulAugSepOctNovDec"@.subrange(3 * m - 3, 3 * m) + " "@
                + padded(y as nat, 4) + " "@ + padded(h as nat, 2) + ":"@ + padded(mi as nat, 2)
                + ":"@ + padded(se as nat, 2) + " GMT"@;
            let t = day_number(y, m, d) * 86400 + h * 3600 + mi * 60 + se;
            &&& is_current(None, Some(since), etag, Some(modified)) <==> 0 <= modified <= t
            &&& range_applies(Some(since), etag, Some(modified)) <==> 0 <= modified <= t
            &&& !is_current(None, Some(since), etag, None)
            &&& !range_applies(Some(since), etag, None)
            &&& tags matches Some(v) ==> (is_current(tags, Some(since), etag, Some(modified)) <==> (
            etag matches Some(e) && lists_etag(v, e)))
        }),
        !is_current(None, None, etag, Some(modified)),
        tags matches Some(v) ==> (is_current(tags, None, etag, Some(modified)) <==> (
        etag matches Some(e) && lists_etag(v, e))),
        range_applies(None, etag, Some(modified)),
        range_applies(None, etag, None),
{
    law_http_dates_are_read(w, y, m, d, h, mi, se);
    let since = "SunMonTueWedThuFriSat"@.subrange(3 * w, 3 * w + 3) + ", "@ + padded(d as nat, 2)
        + " "@ + "JanFebMarAprMayJunJulAugSepOctNovDec"@.subrange(3 * m - 3, 3 * m) + " "@ + padded(
        y as nat,
        4,
    ) + " "@ + padded(h as nat, 2) + ":"@ + padded(mi as nat, 2) + ":"@ + padded(se as nat, 2)
        + " GMT"@;
    lemma_http_date_is_plain(since);
}

/// A date that is none, or not of the one form that is read, makes no copy current and
/// no range served.
pub proof fn law_other_dates_count_for_nothing(
    value: Seq<char>,
    etag: Option<Seq<char>>,
    modified: Option<i64>,
)
    requires
        !is_http_date(value),
        value.len() > 0,
        !is_space(value[0]),
        !is_space(value[value.len() - 1]),
    ensures
        !is_current(None, Some(value), etag, modified),
        value[0] != '"' ==> !range_applies(Some(value), etag, modified),
{
    let e = Seq::<char>::empty();
    law_trimming(e, value, e);
    assert(e + value + e =~= value);
    reveal_strlit("\"");
    if starts_with(value, "\""@) {
        assert(value.take(1)[0] == value[0]);
    }
}

/// A range that goes by an entity tag is served exactly where that is the tag of the
/// file, with white space around it or not.
pub proof fn law_range_by_etag(
    a: Seq<char>,
    tag: Seq<char>,
    b: Seq<char>,
    etag: Option<Seq<char>>,
    modified: Option<i64>,
)
    requires
        forall|i: int| 0 <= i < a.len() ==> is_space(#[trigger] a[i]),
        forall|i: int| 0 <= i < b.len() ==> is_space(#[trigger] b[i]),
        tag.len() > 0,
        tag[0] == '"',
        !is_space(tag[tag.len() - 1]),
    ensures
        range_applies(Some(a + tag + b), etag, modified) <==> etag == Some(tag),
{
    law_trimming(a, tag, b);
    reveal_strlit("\"");
    assert(tag.take(1) =~= "\""@);
}

/// The validators of a file as headers: its date, where the time is known, and its
/// entity tag, where it has one.
pub proof fn law_validators(etag: Seq<char>, t: i64)
    ensures
        validators(None, None) == Seq::<(Seq<char>, Seq<char>)>::empty(),
        validators(Some(etag), None) == seq![("ETag"@, etag)],
        validators(None, Some(t)) == seq![
            (
                "Last-Modified"@,
                http_date_text(
                    if t < 0 {
                        0
                    } else {
                        t as int
                    },
                ),
            ),
        ],
        validators(Some(etag), Some(t)) == validators(None, Some(t)) + validators(Some(etag), None),
{
    assert(validators(Some(etag), None) =~= seq![("ETag"@, etag)]);
    assert(validators(Some(etag), Some(t)) =~= validators(None, Some(t)) + validators(
        Some(etag),
        None,
    ));
}

} // verus!
