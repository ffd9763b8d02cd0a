//! The log of requests: one line for each.

use vstd::prelude::*;

use crate::http::{pairs, Request};
use crate::number::{decimal, decimal_string};
use crate::text::chars_of;

verus! {

/// What the `Debug` of `str` makes of a text: the text in quotation marks, with
/// escapes. It is a function of the text alone.
pub uninterp spec fn debug_text(s: Seq<char>) -> Seq<char>;

/// `s` as `format!` with `{:?}` writes it, the `Debug` of `str` in std. Which
/// characters it escapes, and how, is not said here.
#[verifier::external_body]
fn debug_string(s: &str) -> (r: String)
    ensures
        r@ == debug_text(s@),
{
    format!("{:?}", s)
}

/// Whether a word can stand in a log line as it is: visible ASCII characters, none
/// of which is a quotation mark or a backslash.
pub open spec fn is_plain(s: Seq<char>) -> bool {
    s.len() > 0 && forall|i: int| 0 <= i < s.len() ==> is_plain_char(#[trigger] s[i])
}

/// Whether a character is visible ASCII, and neither a quotation mark nor a
/// backslash.
pub open spec fn is_plain_char(c: char) -> bool {
    '!' <= c <= '~' && c != '"' && c != '\\'
}

/// A word of a request in a log line: as it is where that is safe, else quoted, so
/// that a client cannot put control characters into the log.
pub open spec fn logged_word(s: Seq<char>) -> Seq<char> {
    if is_plain(s) {
        s
    } else {
        debug_text(s)
    }
}

/// The headers that are logged: those that make a request conditional or ask for a
/// part.
pub open spec fn noted_names() -> Seq<Seq<char>> {
    seq!["if-modified-since"@, "if-none-match"@, "if-range"@, "range"@, "depth"@]
}

/// Those of the headers in `names` that the request has, with their values quoted.
pub open spec fn noted(req: Request, names: Seq<Seq<char>>) -> Seq<(Seq<char>, Seq<char>)>
    decreases names.len(),
{
    if names.len() == 0 {
        seq![]
    } else {
        let before = noted(req, names.drop_last());
        match req.value_of(names.last()) {
            Some(v) => before.push((names.last(), debug_text(v))),
            None => before,
        }
    }
}

/// Headers in a log line.
pub open spec fn noted_text(headers: Seq<(Seq<char>, Seq<char>)>) -> Seq<char>
    decreases headers.len(),
{
    if headers.len() == 0 {
        seq![]
    } else {
        noted_text(headers.drop_last()) + " "@ + headers.last().0 + "="@ + headers.last().1
    }
}

/// The log line of a request, from the words and header values as they are to stand
/// in it.
pub open spec fn line_text(
    method: Seq<char>,
    path: Seq<char>,
    version: Seq<char>,
    status: u16,
    headers: Seq<(Seq<char>, Seq<char>)>,
) -> Seq<char> {
    method + " "@ + path + " "@ + version + " -> "@ + decimal(status as nat) + noted_text(headers)
}

/// Whether a word can stand in a log line as it is.
pub fn stands_bare(word: &str) -> (r: bool)
    ensures
        r == is_plain(word@),
{
    let chars = chars_of(word);
    let mut i: usize = 0;
    while i < chars.len()
        invariant
            i <= chars.len(),
            chars@ == word@,
            forall|j: int| 0 <= j < i ==> is_plain_char(#[trigger] word@[j]),
        decreases chars.len() - i,
    {
        let c = chars[i];
        if !('!' <= c && c <= '~' && c != '"' && c != '\\') {
            assert(!is_plain_char(word@[i as int]));
            return false;
        }
        i += 1;
    }
    chars.len() > 0
}

/// A word of a request in a log line.
fn log_word(word: &str) -> (r: String)
    ensures
        r@ == logged_word(word@),
{
    if stands_bare(word) {
        word.to_string()
    } else {
        debug_string(word)
    }
}

/// The log line of a request, from the words and header values as they are to stand
/// in it.
pub fn log_line(
    method: &str,
    path: &str,
    version: &str,
    status: u16,
    headers: &[(&str, String)],
) -> (r: String)
    ensures
        r@ == line_text(method@, path@, version@, status, pairs(headers@)),
{
    let ghost all = pairs(headers@);
    let mut notes = String::new();
    let mut i: usize = 0;
    assert(all.take(0) =~= seq![]);
    while i < headers.len()
        invariant
            i <= headers.len(),
            all == pairs(headers@),
            notes@ == noted_text(all.take(i as int)),
        decreases headers.len() - i,
    {
        let ghost front = all.take(i + 1);
        assert(front.drop_last() =~= all.take(i as int));
        assert(front.last() == (headers@[i as int].0@, headers@[i as int].1@));
        notes.append(" ");
        notes.append(headers[i].0);
        notes.append("=");
        notes.append(headers[i].1.as_str());
        i += 1;
    }
    assert(all.take(i as int) =~= all);
    let mut line = method.to_string();
    line.append(" ");
    line.append(path);
    line.append(" ");
    line.append(version);
    line.append(" -> ");
    line.append(decimal_string(status as u64).as_str());
    line.append(notes.as_str());
    line
}

/// Adds the header `name` to `notes`, if the request has it.
fn note_header(notes: &mut Vec<(&'static str, String)>, req: &Request, name: &'static str)
    ensures
        pairs(final(notes)@) == match req.value_of(name@) {
            Some(v) => pairs(old(notes)@).push((name@, debug_text(v))),
            None => pairs(old(notes)@),
        },
{
    let ghost before = pairs(notes@);
    if let Some(v) = req.header(name) {
        notes.push((name, debug_string(v)));
        assert(pairs(notes@) =~= before.push((name@, debug_text(v@))));
    }
}

/// The log line of a request and the status that it was answered: method, path,
/// version, status, and the headers that make it conditional or ask for a part.
pub fn log_request(req: &Request, status: u16) -> (r: String)
    ensures
        r@ == line_text(
            logged_word(req.method@),
            logged_word(req.path@),
            logged_word(req.version@),
            status,
            noted(*req, noted_names()),
        ),
{
    let mut notes: Vec<(&'static str, String)> = Vec::new();
    assert(pairs(notes@) =~= seq![]);
    note_header(&mut notes, req, "if-modified-since");
    note_header(&mut notes, req, "if-none-match");
    note_header(&mut notes, req, "if-range");
    note_header(&mut notes, req, "range");
    note_header(&mut notes, req, "depth");
    proof {
        reveal_with_fuel(noted, 6);
        let n5 = noted_names();
        let n4 = n5.drop_last();
        let n3 = n4.drop_last();
        let n2 = n3.drop_last();
        let n1 = n2.drop_last();
        assert(n1.drop_last() =~= seq![]);
        assert(pairs(notes@) =~= noted(*req, n5));
    }
    log_line(
        log_word(req.method.as_str()).as_str(),
        log_word(req.path.as_str()).as_str(),
        log_word(req.version.as_str()).as_str(),
        status,
        notes.as_slice(),
    )
}

/// Which words are logged as they are: those of visible ASCII characters, from the
/// exclamation mark to the tilde, without a quotation mark or a backslash. Any other
/// word, the empty one too, is quoted.
pub proof fn law_logged_words(s: Seq<char>)
    ensures
        s.len() > 0 && (forall|i: int|
            0 <= i < s.len() ==> 33 <= #[trigger] s[i] as int <= 126 && s[i] as int != 34
                && s[i] as int != 92) ==> logged_word(s) == s,
        s.len() == 0 || (exists|i: int|
            0 <= i < s.len() && !(33 <= #[trigger] s[i] as int <= 126 && s[i] as int != 34
                && s[i] as int != 92)) ==> logged_word(s) == debug_text(s),
{
    if exists|i: int|
        0 <= i < s.len() && !(33 <= #[trigger] s[i] as int <= 126 && s[i] as int != 34
            && s[i] as int != 92) {
        let i = choose|i: int|
            0 <= i < s.len() && !(33 <= #[trigger] s[i] as int <= 126 && s[i] as int != 34
                && s[i] as int != 92);
        assert(!is_plain_char(s[i]));
    }
}

/// What a log line says: the request line as it came, but for the quoting, the status,
/// and behind them each of the five headers that the request has, with its value quoted.
pub proof fn law_logged_requests(
    req: Request,
    names: Seq<Seq<char>>,
    name: Seq<char>,
    method: Seq<char>,
    path: Seq<char>,
    version: Seq<char>,
    status: u16,
    headers: Seq<(Seq<char>, Seq<char>)>,
    value: Seq<char>,
)
    ensures
        noted_names() == seq![
            "if-modified-since"@,
            "if-none-match"@,
            "if-range"@,
            "range"@,
            "depth"@,
        ],
        noted(req, seq![]) == Seq::<(Seq<char>, Seq<char>)>::empty(),
        req.value_of(name) matches Some(v) ==> noted(req, names.push(name)) == noted(
            req,
            names,
        ).push((name, debug_text(v))),
        req.value_of(name) is None ==> noted(req, names.push(name)) == noted(req, names),
        line_text(method, path, version, status, seq![]) == method + seq![' '] + path + seq![' ']
            + version + seq![' ', '-', '>', ' '] + decimal(status as nat),
        line_text(method, path, version, status, headers.push((name, value))) == line_text(
            method,
            path,
            version,
            status,
            headers,
        ) + (seq![' '] + name + seq!['='] + value),
{
    reveal_strlit(" ");
    reveal_strlit(" -> ");
    reveal_strlit("=");
    assert(" "@ =~= seq![' ']);
    assert("="@ =~= seq!['=']);
    assert(" -> "@ =~= seq![' ', '-', '>', ' ']);
    assert(names.push(name).drop_last() =~= names);
    assert(headers.push((name, value)).drop_last() =~= headers);
    let front = method + " "@ + path + " "@ + version + " -> "@ + decimal(status as nat);
    assert(front + noted_text(seq![]) =~= front);
    let notes = noted_text(headers);
    assert(front + (notes + seq![' '] + name + seq!['='] + value) =~= front + notes + (seq![' ']
        + name + seq!['='] + value));
}

} // verus!
