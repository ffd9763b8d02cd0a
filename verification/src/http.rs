//! A small HTTP/1.1 layer: reading the head of a request and writing responses.
//!
//! Nothing here touches a socket. A request is read from bytes, whole or one at a
//! time, and a response is the bytes to send.

use vstd::hash_map::StringHashMap;
use vstd::prelude::*;
use vstd::slice::slice_subrange;
use vstd::utf8::encode_utf8;

use crate::bytes::{append_bytes, copy_bytes};
use crate::date::{http_date, http_date_text, lemma_http_date_chars, since_epoch};
use crate::number::{
    decimal, decimal_string, is_digit, law_decimal_round_trip, lemma_decimal, parse_number,
    parsed,
};
use crate::seqs::{law_split_joins, law_split_once, lemma_position_is, split, split_once};
use crate::text::{
    chars_are, chars_of, contents, crlf_lines, is_space, law_crlf_lines, law_trimming,
    law_words, lossy_string, lossy_text, lower_chars, lowered, same, split_at, split_crlf,
    split_once_at, split_words, string_of, trim, trimmed, words,
};

verus! {

/// The most bytes that the head of a request may have before its end is found.
pub const MAX_HEADER_BYTES: usize = 65536;

// ---------------------------------------------------------------------------
// The fields of a head
// ---------------------------------------------------------------------------
/// The name and the value in one header line: what stands around its first
/// colon, trimmed, the name in small letters. A line without a colon has none.
pub open spec fn field_of(line: Seq<char>) -> Option<(Seq<char>, Seq<char>)> {
    match split_once(line, ':') {
        Some(kv) => Some((lowered(trimmed(kv.0)), trimmed(kv.1))),
        None => None,
    }
}

/// The fields in header lines, in order.
pub open spec fn fields(lines: Seq<Seq<char>>) -> Seq<(Seq<char>, Seq<char>)>
    decreases lines.len(),
{
    if lines.len() == 0 {
        seq![]
    } else {
        match field_of(lines.last()) {
            Some(f) => fields(lines.drop_last()).push(f),
            None => fields(lines.drop_last()),
        }
    }
}

/// The value of the last field with the name `name`.
pub open spec fn lookup(fields: Seq<(Seq<char>, Seq<char>)>, name: Seq<char>) -> Option<Seq<char>>
    decreases fields.len(),
{
    if fields.len() == 0 {
        None
    } else if fields.last().0 == name {
        Some(fields.last().1)
    } else {
        lookup(fields.drop_last(), name)
    }
}

/// The number of fields with the name `name`.
pub open spec fn occurrences(fields: Seq<(Seq<char>, Seq<char>)>, name: Seq<char>) -> nat
    decreases fields.len(),
{
    if fields.len() == 0 {
        0
    } else if fields.last().0 == name {
        occurrences(fields.drop_last(), name) + 1
    } else {
        occurrences(fields.drop_last(), name)
    }
}

/// The length of the body that a `Content-Length` value announces.
pub open spec fn announced(value: Option<Seq<char>>) -> Option<nat> {
    match value {
        Some(v) => parsed(v, 10, usize::MAX as nat),
        None => None,
    }
}

/// The number of body bytes to read and discard behind a head: all that are
/// announced.
pub open spec fn drain_len(value: Option<Seq<char>>) -> nat {
    match announced(value) {
        Some(n) => n,
        None => 0,
    }
}

/// Whether it is certain where the body behind a head ends: there is no
/// `Transfer-Encoding`, and at most one `Content-Length`, which then is a number.
pub open spec fn certain_framing(fields: Seq<(Seq<char>, Seq<char>)>) -> bool {
    &&& lookup(fields, "transfer-encoding"@) is None
    &&& occurrences(fields, "content-length"@) <= 1
    &&& match lookup(fields, "content-length"@) {
        Some(v) => announced(Some(v)) is Some,
        None => true,
    }
}

// ---------------------------------------------------------------------------
// Requests
// ---------------------------------------------------------------------------
/// The head of a request.
pub struct Request {
    pub method: String,
    /// The request target without its query and fragment.
    pub path: String,
    pub version: String,
    /// The header fields, by name in small letters.
    pub headers: StringHashMap<String>,
    /// Whether it is certain where the body of the request ends.
    pub framed: bool,
}

/// Why no request could be read.
#[derive(Clone, Copy, Debug, PartialEq, Eq, Structural)]
pub enum RequestError {
    /// The bytes ended before the head did.
    UnexpectedEof,
    /// The head is too large.
    HeadersTooLarge,
    /// The request line names no method or no target.
    MalformedRequestLine,
}

/// The front of a request target up to its first `?` or `#`.
pub open spec fn target_path(target: Seq<char>) -> Seq<char>
    decreases target.len(),
{
    if target.len() == 0 || target[0] == '?' || target[0] == '#' {
        seq![]
    } else {
        seq![target[0]] + target_path(target.drop_first())
    }
}

/// The words of the request line in the head `text`.
pub open spec fn request_words(text: Seq<char>) -> Seq<Seq<char>> {
    words(crlf_lines(text)[0])
}

/// The header fields in the head `text`.
pub open spec fn head_fields(text: Seq<char>) -> Seq<(Seq<char>, Seq<char>)> {
    fields(crlf_lines(text).skip(1))
}

/// Whether a `Connection` value lists the option `close`.
pub open spec fn lists_close(value: Seq<char>) -> bool {
    exists|i: int|
        0 <= i < split(value, ',').len() && lowered(trimmed(#[trigger] split(value, ',')[i]))
            == "close"@
}

impl Request {
    /// The value of the header `name`.
    pub open spec fn value_of(&self, name: Seq<char>) -> Option<Seq<char>> {
        if self.headers@.contains_key(name) {
            Some(self.headers@[name]@)
        } else {
            None
        }
    }

    /// Whether this is the request in the head `text`.
    pub open spec fn is_in(&self, text: Seq<char>) -> bool {
        let w = request_words(text);
        &&& w.len() >= 2
        &&& self.method@ == w[0]
        &&& self.path@ == target_path(w[1])
        &&& self.version@ == (if w.len() > 2 {
            w[2]
        } else {
            seq![]
        })
        &&& forall|name: Seq<char>| #[trigger]
            self.value_of(name) == lookup(head_fields(text), name)
        &&& self.framed == certain_framing(head_fields(text))
    }

    /// Whether the connection may be kept for another request.
    pub open spec fn keeps_alive(&self) -> bool {
        &&& self.version@ == "HTTP/1.1"@
        &&& self.framed
        &&& match self.value_of("connection"@) {
            Some(v) => !lists_close(v),
            None => true,
        }
    }

    /// The value of the header `name`, which is given in small letters.
    pub fn header(&self, name: &str) -> (r: Option<&str>)
        ensures
            r is Some <==> self.value_of(name@) is Some,
            r matches Some(v) ==> self.value_of(name@) == Some(v@),
    {
        match self.headers.get(name) {
            Some(v) => Some(v.as_str()),
            None => None,
        }
    }

    /// Whether the connection may be kept for another request: the client speaks
    /// HTTP/1.1, does not ask to close, and it is certain where this request ends.
    pub fn keep_alive(&self) -> (r: bool)
        ensures
            r == self.keeps_alive(),
    {
        if !same(self.version.as_str(), "HTTP/1.1") || !self.framed {
            return false;
        }
        match self.header("connection") {
            Some(v) => !has_close(v),
            None => true,
        }
    }

    /// The number of body bytes to read and discard before the next request.
    pub fn body_to_drain(&self) -> (r: usize)
        ensures
            r == drain_len(self.value_of("content-length"@)),
    {
        match self.header("content-length") {
            Some(v) => {
                let chars = chars_of(v);
                match parse_number(chars.as_slice(), 10, usize::MAX as u64) {
                    Some(n) => n as usize,
                    None => 0,
                }
            },
            None => 0,
        }
    }
}

/// Whether a `Connection` value lists the option `close`.
fn has_close(value: &str) -> (r: bool)
    ensures
        r == lists_close(value@),
{
    let chars = chars_of(value);
    let pieces = split_at(chars.as_slice(), ',');
    let mut i: usize = 0;
    while i < pieces.len()
        invariant
            i <= pieces.len(),
            contents(pieces@) == split(value@, ','),
            forall|j: int|
                0 <= j < i ==> lowered(trimmed(#[trigger] split(value@, ',')[j])) != "close"@,
        decreases pieces.len() - i,
    {
        assert(split(value@, ',')[i as int] == pieces@[i as int]@);
        if chars_are(lower_chars(trim(pieces[i])).as_slice(), "close") {
            return true;
        }
        i += 1;
    }
    false
}

/// The front of a request target up to its first `?` or `#`.
fn path_of_target(target: &[char]) -> (r: String)
    ensures
        r@ == target_path(target@),
{
    let mut n: usize = 0;
    assert(target@.skip(0) =~= target@);
    assert(target@.take(0) + target_path(target@) =~= target_path(target@));
    while n < target.len() && target[n] != '?' && target[n] != '#'
        invariant
            n <= target.len(),
            target@.take(n as int) + target_path(target@.skip(n as int)) == target_path(target@),
        decreases target.len() - n,
    {
        let ghost rest = target@.skip(n as int);
        assert(rest.drop_first() =~= target@.skip(n as int + 1));
        assert(target@.take(n as int + 1) + target_path(rest.drop_first()) =~= target@.take(
            n as int,
        ) + target_path(rest));
        n += 1;
    }
    let front = slice_subrange(target, 0, n);
    assert(front@ =~= target@.take(n as int) + target_path(target@.skip(n as int)));
    string_of(front)
}

/// Whether the map `m` holds the last value of each name in `f`.
spec fn holds(m: Map<Seq<char>, String>, f: Seq<(Seq<char>, Seq<char>)>) -> bool {
    forall|name: Seq<char>| #[trigger]
        lookup(f, name) == (if m.contains_key(name) {
            Some(m[name]@)
        } else {
            None
        })
}

/// Reads the head of a request from its text: the request line, then the header
/// lines, each ended by CR LF.
pub fn parse_head(text: &str) -> (r: Result<Request, RequestError>)
    ensures
        r is Err <==> request_words(text@).len() < 2,
        r matches Err(e) ==> e == RequestError::MalformedRequestLine,
        r matches Ok(req) ==> req.is_in(text@),
{
    let chars = chars_of(text);
    let lines = split_crlf(chars.as_slice());
    let ghost all = crlf_lines(text@);
    assert(all[0] == lines@[0]@);
    let line_words = split_words(lines[0]);
    let ghost w = request_words(text@);
    if line_words.len() < 2 {
        return Err(RequestError::MalformedRequestLine);
    }
    assert(w[0] == line_words@[0]@);
    assert(w[1] == line_words@[1]@);
    let method = string_of(line_words[0]);
    let path = path_of_target(line_words[1]);
    let version = if line_words.len() > 2 {
        assert(w[2] == line_words@[2]@);
        string_of(line_words[2])
    } else {
        String::new()
    };
    let mut headers: StringHashMap<String> = StringHashMap::new();
    let mut lengths: usize = 0;
    let mut i: usize = 1;
    let ghost rest = all.skip(1);
    assert(rest.take(0) =~= seq![]);
    while i < lines.len()
        invariant
            1 <= i <= lines.len(),
            contents(lines@) == all,
            rest == all.skip(1),
            holds(headers@, fields(rest.take(i - 1))),
            lengths == occurrences(fields(rest.take(i - 1)), "content-length"@),
            lengths < i,
        decreases lines.len() - i,
    {
        let line = lines[i];
        let ghost front = rest.take(i as int);
        assert(front.drop_last() =~= rest.take(i - 1));
        assert(front.last() == line@);
        let ghost before = fields(rest.take(i - 1));
        match split_once_at(line, ':') {
            Some(kv) => {
                let name = lower_chars(trim(kv.0));
                let value = string_of(trim(kv.1));
                let ghost f = (name@, value@);
                assert(field_of(line@) == Some(f));
                let ghost now = before.push(f);
                assert(fields(front) == now);
                assert(now.drop_last() =~= before);
                let ghost old_headers = headers@;
                if chars_are(name.as_slice(), "content-length") {
                    lengths += 1;
                }
                headers.insert(string_of(name.as_slice()), value);
                assert forall|key: Seq<char>| #[trigger] lookup(now, key) == (if headers@.contains_key(
                    key,
                ) {
                    Some(headers@[key]@)
                } else {
                    None
                }) by {
                    assert(lookup(before, key) == (if old_headers.contains_key(key) {
                        Some(old_headers[key]@)
                    } else {
                        None
                    }));
                }
            },
            None => {
                assert(field_of(line@) is None);
            },
        }
        i += 1;
    }
    assert(rest.take(i - 1) =~= rest);
    let mut req = Request { method, path, version, headers, framed: false };
    assert forall|name: Seq<char>| #[trigger] req.value_of(name) == lookup(
        head_fields(text@),
        name,
    ) by {}
    req.framed = lengths <= 1 && is_framed(&req);
    Ok(req)
}

/// Whether neither `Transfer-Encoding` nor the value of `Content-Length` makes it
/// uncertain where the body ends.
fn is_framed(req: &Request) -> (r: bool)
    ensures
        r == (req.value_of("transfer-encoding"@) is None && match req.value_of("content-length"@) {
            Some(v) => announced(Some(v)) is Some,
            None => true,
        }),
{
    if req.header("transfer-encoding").is_some() {
        return false;
    }
    match req.header("content-length") {
        Some(v) => {
            let chars = chars_of(v);
            parse_number(chars.as_slice(), 10, usize::MAX as u64).is_some()
        },
        None => true,
    }
}

// ---------------------------------------------------------------------------
// Reading a head byte by byte
// ---------------------------------------------------------------------------
/// Whether `b` ends with the blank line that ends a head.
pub open spec fn ends_head(b: Seq<u8>) -> bool {
    b.len() >= 4 && b[b.len() - 4] == 13 && b[b.len() - 3] == 10 && b[b.len() - 2] == 13 && b[b.len()
        - 1] == 10
}

/// The length of the first front of `b`, of `n` bytes or more, that ends a head.
pub open spec fn head_len_from(b: Seq<u8>, n: nat) -> Option<nat>
    decreases b.len() - n + 1,
{
    if n > b.len() {
        None
    } else if ends_head(b.take(n as int)) {
        Some(n)
    } else {
        head_len_from(b, n + 1)
    }
}

/// The length of the head at the front of `b`, if it is whole and not too large.
pub open spec fn head_len(b: Seq<u8>) -> Option<nat> {
    match head_len_from(b, 0) {
        Some(n) if n <= MAX_HEADER_BYTES + 1 => Some(n),
        _ => None,
    }
}

/// The front of a head, as far as it has been read.
pub struct HeadReader {
    buf: Vec<u8>,
}

impl View for HeadReader {
    type V = Seq<u8>;

    /// The bytes that have been read.
    closed spec fn view(&self) -> Seq<u8> {
        self.buf@
    }
}

/// What reading one more byte of a head has come to.
#[derive(Clone, Copy, Debug, PartialEq, Eq, Structural)]
pub enum HeadStep {
    /// More bytes are needed.
    More,
    /// The head is whole.
    Complete,
    /// The head is too large.
    TooLarge,
}

impl HeadReader {
    /// Whether the head is still unfinished and not too large.
    pub open spec fn unfinished(&self) -> bool {
        &&& self@.len() <= MAX_HEADER_BYTES
        &&& forall|k: int| 0 <= k <= self@.len() ==> !ends_head(#[trigger] self@.take(k))
    }

    /// A reader that has read nothing.
    pub fn new() -> (r: HeadReader)
        ensures
            r@ == Seq::<u8>::empty(),
            r.unfinished(),
    {
        HeadReader { buf: Vec::new() }
    }

    /// Takes one more byte.
    pub fn push(&mut self, byte: u8) -> (r: HeadStep)
        requires
            old(self).unfinished(),
        ensures
            final(self)@ == old(self)@.push(byte),
            r == HeadStep::Complete <==> ends_head(final(self)@),
            r == HeadStep::TooLarge <==> !ends_head(final(self)@) && final(self)@.len()
                > MAX_HEADER_BYTES,
            r == HeadStep::More ==> final(self).unfinished(),
    {
        let ghost before = self.buf@;
        self.buf.push(byte);
        let n: usize = self.buf.len();
        if n >= 4 && self.buf[n - 4] == 13 && self.buf[n - 3] == 10 && self.buf[n - 2] == 13
            && self.buf[n - 1] == 10 {
            HeadStep::Complete
        } else if n > MAX_HEADER_BYTES {
            HeadStep::TooLarge
        } else {
            assert forall|k: int| 0 <= k <= self@.len() implies !ends_head(
                #[trigger] self@.take(k),
            ) by {
                if k <= before.len() {
                    assert(self@.take(k) =~= before.take(k));
                } else {
                    assert(self@.take(k) =~= self@);
                }
            }
            HeadStep::More
        }
    }

    /// The request in a head that is whole. The bytes are read as UTF-8, with
    /// replacement characters where they are not.
    pub fn finish(&self) -> (r: Result<Request, RequestError>)
        ensures
            r is Err <==> request_words(lossy_text(self@)).len() < 2,
            r matches Err(e) ==> e == RequestError::MalformedRequestLine,
            r matches Ok(req) ==> req.is_in(lossy_text(self@)),
    {
        parse_head(lossy_string(self.buf.as_slice()).as_str())
    }
}

/// What `head_len_from` finds, by its defining properties.
proof fn lemma_head_len(b: Seq<u8>, from: nat, n: nat)
    requires
        from <= n <= b.len() + 1,
        n <= b.len() ==> ends_head(b.take(n as int)),
        forall|k: int| from <= k < n ==> !ends_head(#[trigger] b.take(k)),
    ensures
        head_len_from(b, from) == (if n <= b.len() {
            Some(n)
        } else {
            None
        }),
    decreases n - from,
{
    if from < n {
        assert(!ends_head(b.take(from as int)));
        lemma_head_len(b, from + 1, n);
    }
}

/// A head that is found has its length found.
proof fn lemma_head_len_bound(b: Seq<u8>, from: nat)
    ensures
        head_len_from(b, from) matches Some(n) ==> from <= n <= b.len(),
        head_len_from(b, from) matches Some(n) ==> forall|k: int|
            from <= k < n ==> !ends_head(#[trigger] b.take(k)),
    decreases b.len() - from + 1,
{
    if from <= b.len() && !ends_head(b.take(from as int)) {
        lemma_head_len_bound(b, from + 1);
    }
}

/// Reads one request from the front of `stream`, and says how many bytes it takes
/// up: the head, and the body that `Content-Length` announces, as far as it is
/// there.
pub fn read_request(stream: &[u8]) -> (r: Result<(Request, usize), RequestError>)
    ensures
        match head_len(stream@) {
            Some(n) => {
                let text = lossy_text(stream@.take(n as int));
                &&& r is Err <==> request_words(text).len() < 2
                &&& r matches Err(e) ==> e == RequestError::MalformedRequestLine
                &&& r matches Ok(ok) ==> ok.0.is_in(text) && {
                    let drain = drain_len(ok.0.value_of("content-length"@));
                    ok.1 == n + (if drain <= stream@.len() - n {
                        drain as int
                    } else {
                        stream@.len() - n
                    })
                }
            },
            None => r == Err::<(Request, usize), RequestError>(
                if stream@.len() > MAX_HEADER_BYTES {
                    RequestError::HeadersTooLarge
                } else {
                    RequestError::UnexpectedEof
                },
            ),
        },
{
    let mut reader = HeadReader::new();
    let mut i: usize = 0;
    loop
        invariant
            i <= stream.len(),
            reader.unfinished(),
            reader@ == stream@.take(i as int),
        decreases stream.len() - i,
    {
        assert forall|k: int| 0 <= k <= i implies !ends_head(#[trigger] stream@.take(k)) by {
            assert(reader@.take(k) =~= stream@.take(k));
        }
        if i >= stream.len() {
            proof {
                lemma_head_len(stream@, 0, (stream@.len() + 1) as nat);
            }
            return Err(RequestError::UnexpectedEof);
        }
        let step = reader.push(stream[i]);
        i += 1;
        assert(reader@ =~= stream@.take(i as int));
        match step {
            HeadStep::More => {},
            HeadStep::TooLarge => {
                proof {
                    lemma_head_len_bound(stream@, 0);
                    if let Some(n) = head_len_from(stream@, 0) {
                        lemma_head_len_ends(stream@, 0);
                        if n <= i {
                            assert(ends_head(stream@.take(n as int)));
                        }
                    }
                }
                return Err(RequestError::HeadersTooLarge);
            },
            HeadStep::Complete => {
                proof {
                    lemma_head_len(stream@, 0, i as nat);
                }
                match reader.finish() {
                    Ok(req) => {
                        let drain: usize = req.body_to_drain();
                        let rest: usize = stream.len() - i;
                        let taken: usize = if drain <= rest {
                            drain
                        } else {
                            rest
                        };
                        return Ok((req, i + taken));
                    },
                    Err(e) => {
                        return Err(e);
                    },
                }
            },
        }
    }
}

/// The front that `head_len_from` finds ends a head.
proof fn lemma_head_len_ends(b: Seq<u8>, from: nat)
    ensures
        head_len_from(b, from) matches Some(n) ==> ends_head(b.take(n as int)),
    decreases b.len() - from + 1,
{
    if from <= b.len() && !ends_head(b.take(from as int)) {
        lemma_head_len_ends(b, from + 1);
    }
}

// ---------------------------------------------------------------------------
// Responses
// ---------------------------------------------------------------------------
/// What a response needs to know beside what it answers.
#[derive(Clone, Copy)]
pub struct Context {
    /// The time, in seconds since the epoch.
    pub now: i64,
    /// Whether the connection is kept for another request.
    pub keep_alive: bool,
}

/// Header names and values as texts.
pub open spec fn pairs(headers: Seq<(&str, String)>) -> Seq<(Seq<char>, Seq<char>)> {
    headers.map_values(|h: (&str, String)| (h.0@, h.1@))
}

/// Header lines, each ended by CR LF.
pub open spec fn header_lines(headers: Seq<(Seq<char>, Seq<char>)>) -> Seq<char>
    decreases headers.len(),
{
    if headers.len() == 0 {
        seq![]
    } else {
        header_lines(headers.drop_last()) + headers.last().0 + ": "@ + headers.last().1 + "\r\n"@
    }
}

/// The line that gives the type of a body, if it has one.
pub open spec fn type_line(content_type: Seq<char>) -> Seq<char> {
    if content_type.len() == 0 {
        seq![]
    } else {
        "Content-Type: "@ + content_type + "\r\n"@
    }
}

/// The value of the `Connection` header.
pub open spec fn connection_text(keep_alive: bool) -> Seq<char> {
    if keep_alive {
        "keep-alive"@
    } else {
        "close"@
    }
}

/// The status line and the headers of a response with a body of `length` bytes.
pub open spec fn head_text(
    ctx: Context,
    status: nat,
    reason: Seq<char>,
    content_type: Seq<char>,
    headers: Seq<(Seq<char>, Seq<char>)>,
    length: nat,
) -> Seq<char> {
    "HTTP/1.1 "@ + decimal(status) + " "@ + reason + "\r\nContent-Length: "@ + decimal(length)
        + "\r\n"@ + type_line(content_type) + header_lines(headers) + "Date: "@ + http_date_text(
        since_epoch(ctx.now as int),
    ) + "\r\nServer: tiny-webdav\r\nConnection: "@ + connection_text(ctx.keep_alive)
        + "\r\n\r\n"@
}

/// A response: its head, which announces the whole body, and the body, unless
/// `send_body` leaves it out.
pub open spec fn response_bytes(
    ctx: Context,
    status: nat,
    reason: Seq<char>,
    content_type: Seq<char>,
    headers: Seq<(Seq<char>, Seq<char>)>,
    body: Seq<u8>,
    send_body: bool,
) -> Seq<u8> {
    let head = encode_utf8(head_text(ctx, status, reason, content_type, headers, body.len()));
    if send_body {
        head + body
    } else {
        head
    }
}

/// The body of a short response: the status and its reason on a line.
pub open spec fn status_body(status: nat, reason: Seq<char>) -> Seq<u8> {
    encode_utf8(decimal(status) + " "@ + reason + "\n"@)
}

/// A short text response.
pub open spec fn status_bytes(
    ctx: Context,
    status: nat,
    reason: Seq<char>,
    headers: Seq<(Seq<char>, Seq<char>)>,
) -> Seq<u8> {
    response_bytes(
        ctx,
        status,
        reason,
        "text/plain; charset=utf-8"@,
        headers,
        status_body(status, reason),
        true,
    )
}

/// The reason phrase of a status.
pub open spec fn reason_text(status: u16) -> Seq<char> {
    if status == 200 {
        "OK"@
    } else if status == 206 {
        "Partial Content"@
    } else if status == 207 {
        "Multi-Status"@
    } else if status == 304 {
        "Not Modified"@
    } else if status == 401 {
        "Unauthorized"@
    } else if status == 403 {
        "Forbidden"@
    } else if status == 404 {
        "Not Found"@
    } else if status == 405 {
        "Method Not Allowed"@
    } else if status == 416 {
        "Range Not Satisfiable"@
    } else {
        "Internal Server Error"@
    }
}

/// The reason phrase of each status that the server sends.
pub fn reason_phrase(status: u16) -> (r: &'static str)
    ensures
        r@ == reason_text(status),
{
    match status {
        200 => "OK",
        206 => "Partial Content",
        207 => "Multi-Status",
        304 => "Not Modified",
        401 => "Unauthorized",
        403 => "Forbidden",
        404 => "Not Found",
        405 => "Method Not Allowed",
        416 => "Range Not Satisfiable",
        _ => "Internal Server Error",
    }
}

/// Header lines, each ended by CR LF.
fn write_headers(headers: &[(&str, String)]) -> (r: String)
    ensures
        r@ == header_lines(pairs(headers@)),
{
    let mut out = String::new();
    let ghost all = pairs(headers@);
    let mut i: usize = 0;
    assert(all.take(0) =~= seq![]);
    while i < headers.len()
        invariant
            i <= headers.len(),
            all == pairs(headers@),
            out@ == header_lines(all.take(i as int)),
        decreases headers.len() - i,
    {
        let ghost front = all.take(i + 1);
        assert(front.drop_last() =~= all.take(i as int));
        assert(front.last() == (headers@[i as int].0@, headers@[i as int].1@));
        out.append(headers[i].0);
        out.append(": ");
        out.append(headers[i].1.as_str());
        out.append("\r\n");
        i += 1;
    }
    assert(all.take(i as int) =~= all);
    out
}

/// The status line and the headers of a response whose body has `content_length`
/// bytes and follows on its own.
pub fn write_head(
    ctx: &Context,
    status: u16,
    reason: &str,
    content_type: &str,
    extra_headers: &[(&str, String)],
    content_length: u64,
) -> (r: String)
    ensures
        r@ == head_text(
            *ctx,
            status as nat,
            reason@,
            content_type@,
            pairs(extra_headers@),
            content_length as nat,
        ),
{
    let mut typed = String::new();
    if !same(content_type, "") {
        typed = "Content-Type: ".to_string();
        typed.append(content_type);
        typed.append("\r\n");
    }
    proof {
        reveal_strlit("");
        assert(content_type@.len() == 0 ==> content_type@ =~= ""@);
        assert(typed@ =~= type_line(content_type@));
    }
    let mut head = "HTTP/1.1 ".to_string();
    head.append(decimal_string(status as u64).as_str());
    head.append(" ");
    head.append(reason);
    head.append("\r\nContent-Length: ");
    head.append(decimal_string(content_length).as_str());
    head.append("\r\n");
    head.append(typed.as_str());
    head.append(write_headers(extra_headers).as_str());
    head.append("Date: ");
    head.append(http_date(ctx.now).as_str());
    head.append("\r\nServer: tiny-webdav\r\nConnection: ");
    head.append(
        if ctx.keep_alive {
            "keep-alive"
        } else {
            "close"
        },
    );
    head.append("\r\n\r\n");
    head
}

/// A whole response. A response to HEAD leaves the body out by `send_body`, and
/// still announces its length.
pub fn write_response(
    ctx: &Context,
    status: u16,
    reason: &str,
    content_type: &str,
    extra_headers: &[(&str, String)],
    body: &[u8],
    send_body: bool,
) -> (r: Vec<u8>)
    ensures
        r@ == response_bytes(
            *ctx,
            status as nat,
            reason@,
            content_type@,
            pairs(extra_headers@),
            body@,
            send_body,
        ),
{
    let head = write_head(ctx, status, reason, content_type, extra_headers, body.len() as u64);
    let mut out = copy_bytes(head.as_str().as_bytes());
    if send_body {
        append_bytes(&mut out, body);
    }
    out
}

/// The text of a short response: the status and its reason on a line.
pub fn status_text(status: u16, reason: &str) -> (r: String)
    ensures
        encode_utf8(r@) == status_body(status as nat, reason@),
{
    let mut text = decimal_string(status as u64);
    text.append(" ");
    text.append(reason);
    text.append("\n");
    text
}

/// A short text response, with extra headers.
pub fn write_status(
    ctx: &Context,
    status: u16,
    reason: &str,
    extra_headers: &[(&str, String)],
) -> (r: Vec<u8>)
    ensures
        r@ == status_bytes(*ctx, status as nat, reason@, pairs(extra_headers@)),
{
    let body = status_text(status, reason);
    write_response(
        ctx,
        status,
        reason,
        "text/plain; charset=utf-8",
        extra_headers,
        body.as_str().as_bytes(),
        true,
    )
}

// ---------------------------------------------------------------------------
// Laws
// ---------------------------------------------------------------------------
/// A header is found whatever the case of its name and the white space around its
/// parts.
pub proof fn law_header_names_ignore_case(a: Seq<char>, b: Seq<char>, value: Seq<char>)
    requires
        !a.contains(':'),
        !b.contains(':'),
        lowered(trimmed(a)) == lowered(trimmed(b)),
    ensures
        field_of(a + seq![':'] + value) == Some((lowered(trimmed(a)), trimmed(value))),
        field_of(a + seq![':'] + value) == field_of(b + seq![':'] + value),
{
    lemma_field(a, value);
    lemma_field(b, value);
}

/// The name and the value in a line with a colon.
proof fn lemma_field(name: Seq<char>, value: Seq<char>)
    requires
        !name.contains(':'),
    ensures
        field_of(name + seq![':'] + value) == Some((lowered(trimmed(name)), trimmed(value))),
{
    let line = name + seq![':'] + value;
    assert forall|i: int| 0 <= i < name.len() implies line[i] != ':' by {
        assert(line[i] == name[i]);
    }
    lemma_position_is(line, ':', name.len() as int);
    assert(line.take(name.len() as int) =~= name);
    assert(line.skip(name.len() as int + 1) =~= value);
}

/// The last of several headers with one name counts.
pub proof fn law_last_header_counts(
    fields: Seq<(Seq<char>, Seq<char>)>,
    name: Seq<char>,
    value: Seq<char>,
    other: Seq<char>,
)
    ensures
        lookup(fields.push((name, value)), name) == Some(value),
        other != name ==> lookup(fields.push((name, value)), other) == lookup(fields, other),
{
    assert(fields.push((name, value)).drop_last() =~= fields);
}

/// What follows a head does not change how it is read: requests on one connection
/// are read one after the other.
pub proof fn law_head_is_read_alone(stream: Seq<u8>, rest: Seq<u8>)
    requires
        head_len(stream) is Some,
    ensures
        head_len(stream + rest) == head_len(stream),
        (stream + rest).take(head_len(stream)->0 as int) == stream.take(
            head_len(stream)->0 as int,
        ),
{
    let n = head_len(stream)->0;
    lemma_head_len_bound(stream, 0);
    lemma_head_len_ends(stream, 0);
    let all = stream + rest;
    assert forall|k: int| 0 <= k < n implies !ends_head(#[trigger] all.take(k)) by {
        assert(all.take(k) =~= stream.take(k));
    }
    assert(all.take(n as int) =~= stream.take(n as int));
    lemma_head_len(all, 0, n);
}

/// Where it is uncertain how long a request is, the connection is closed after it.
pub proof fn law_uncertain_framing_closes(req: Request, text: Seq<char>)
    requires
        req.is_in(text),
        !certain_framing(head_fields(text)),
    ensures
        !req.keeps_alive(),
{
}

/// A connection that is kept stays in step: the whole body that a request announces
/// is discarded before the next one is read.
pub proof fn law_kept_connection_is_in_step(req: Request, text: Seq<char>)
    requires
        req.is_in(text),
        req.keeps_alive(),
    ensures
        req.value_of("transfer-encoding"@) is None,
        match req.value_of("content-length"@) {
            Some(v) => announced(Some(v)) == Some(drain_len(Some(v))),
            None => drain_len(None) == 0,
        },
{
    assert(req.value_of("transfer-encoding"@) == lookup(
        head_fields(text),
        "transfer-encoding"@,
    ));
    assert(req.value_of("content-length"@) == lookup(head_fields(text), "content-length"@));
}

/// A client that speaks an older version than HTTP/1.1, or asks to close, has its
/// connection closed.
pub proof fn law_close_is_honoured(req: Request)
    requires
        req.version@ != "HTTP/1.1"@ || (req.value_of("connection"@) matches Some(v)
            && lists_close(v)),
    ensures
        !req.keeps_alive(),
{
}

/// How header lines are read: one by one, each with a colon giving its name, in small
/// letters, and its value, without the white space around either. A line without a
/// colon gives nothing.
pub proof fn law_header_lines_are_read(
    lines: Seq<Seq<char>>,
    a: Seq<char>,
    name: Seq<char>,
    b: Seq<char>,
    c: Seq<char>,
    value: Seq<char>,
    d: Seq<char>,
)
    requires
        forall|i: int| 0 <= i < a.len() ==> is_space(#[trigger] a[i]),
        forall|i: int| 0 <= i < b.len() ==> is_space(#[trigger] b[i]),
        forall|i: int| 0 <= i < c.len() ==> is_space(#[trigger] c[i]),
        forall|i: int| 0 <= i < d.len() ==> is_space(#[trigger] d[i]),
        name.len() > 0 ==> !is_space(name[0]) && !is_space(name[name.len() - 1]),
        value.len() > 0 ==> !is_space(value[0]) && !is_space(value[value.len() - 1]),
        !name.contains(':'),
    ensures
        fields(seq![]) == Seq::<(Seq<char>, Seq<char>)>::empty(),
        fields(lines.push((a + name + b) + seq![':'] + (c + value + d))) == fields(lines).push(
            (lowered(name), value),
        ),
        fields(lines.push(a + name + b)) == fields(lines),
{
    let before = a + name + b;
    let after = c + value + d;
    law_trimming(a, name, b);
    law_trimming(c, value, d);
    assert(!before.contains(':')) by {
        if before.contains(':') {
            let i = choose|i: int| 0 <= i < before.len() && before[i] == ':';
            if a.len() <= i < a.len() + name.len() {
                assert(name.contains(name[i - a.len()]));
            } else if i < a.len() {
                assert(is_space(a[i]));
            } else {
                assert(is_space(b[i - a.len() - name.len()]));
            }
        }
    }
    lemma_field(before, after);
    assert(lines.push(before + seq![':'] + after).drop_last() =~= lines);
    assert(lines.push(before).drop_last() =~= lines);
    law_split_once(before, ':', after);
}

/// How often a header occurs is counted by its name.
pub proof fn law_headers_are_counted(
    fields: Seq<(Seq<char>, Seq<char>)>,
    name: Seq<char>,
    value: Seq<char>,
    other: Seq<char>,
)
    ensures
        occurrences(seq![], name) == 0,
        occurrences(fields.push((name, value)), name) == occurrences(fields, name) + 1,
        other != name ==> occurrences(fields.push((name, value)), other) == occurrences(
            fields,
            other,
        ),
        lookup(seq![], name) is None,
{
    assert(fields.push((name, value)).drop_last() =~= fields);
}

/// How long a body is: as many bytes as the number in `Content-Length` says, and none
/// where there is no number.
pub proof fn law_announced_bodies(n: nat, value: Seq<char>)
    ensures
        n <= usize::MAX ==> announced(Some(decimal(n))) == Some(n) && drain_len(Some(decimal(n)))
            == n,
        drain_len(None) == 0,
        announced(None) is None,
        parsed(value, 10, usize::MAX as nat) is None ==> drain_len(Some(value)) == 0,
{
    if n <= usize::MAX {
        law_decimal_round_trip(n, usize::MAX as nat);
    }
}

/// Where a body ends is certain with one length that is a number, or with none, and
/// without a transfer coding. It is uncertain with any transfer coding, with two
/// lengths, even equal ones, and with a length that is no number.
pub proof fn law_framing(fields: Seq<(Seq<char>, Seq<char>)>, n: nat, value: Seq<char>)
    ensures
        lookup(fields, "transfer-encoding"@) is Some ==> !certain_framing(fields),
        occurrences(fields, "content-length"@) >= 2 ==> !certain_framing(fields),
        lookup(fields, "content-length"@) == Some(value) && parsed(
            value,
            10,
            usize::MAX as nat,
        ) is None ==> !certain_framing(fields),
        lookup(fields, "transfer-encoding"@) is None && occurrences(fields, "content-length"@) == 0
            ==> certain_framing(fields),
        lookup(fields, "transfer-encoding"@) is None && occurrences(fields, "content-length"@) == 1
            && lookup(fields, "content-length"@) == Some(decimal(n)) && n <= usize::MAX
            ==> certain_framing(fields),
{
    if n <= usize::MAX {
        law_decimal_round_trip(n, usize::MAX as nat);
    }
    lemma_absent(fields, "content-length"@);
}

/// A header that does not occur is not found.
proof fn lemma_absent(fields: Seq<(Seq<char>, Seq<char>)>, name: Seq<char>)
    ensures
        occurrences(fields, name) == 0 <==> lookup(fields, name) is None,
    decreases fields.len(),
{
    if fields.len() > 0 {
        lemma_absent(fields.drop_last(), name);
    }
}

/// The path in a request target is what stands before its query and its fragment.
pub proof fn law_target_paths(path: Seq<char>, c: char, rest: Seq<char>)
    requires
        forall|i: int| 0 <= i < path.len() ==> path[i] != '?' && path[i] != '#',
        c == '?' || c == '#',
    ensures
        target_path(path) == path,
        target_path(path + seq![c] + rest) == path,
    decreases path.len(),
{
    let s = path + seq![c] + rest;
    if path.len() > 0 {
        let tail = path.drop_first();
        law_target_paths(tail, c, rest);
        assert(s.drop_first() =~= tail + seq![c] + rest);
        assert(s[0] == path[0]);
        assert(seq![path[0]] + tail =~= path);
    } else {
        assert(s[0] == c);
        assert(target_path(path) =~= path);
        assert(target_path(s) =~= path);
    }
}

/// A request is read back from its text: the three words of its line, and the headers
/// in the lines behind it.
pub proof fn law_requests_are_read(
    method: Seq<char>,
    target: Seq<char>,
    version: Seq<char>,
    rest: Seq<char>,
)
    requires
        method.len() > 0,
        target.len() > 0,
        version.len() > 0,
        forall|i: int| 0 <= i < method.len() ==> !is_space(#[trigger] method[i]),
        forall|i: int| 0 <= i < target.len() ==> !is_space(#[trigger] target[i]),
        forall|i: int| 0 <= i < version.len() ==> !is_space(#[trigger] version[i]),
    ensures
        ({
            let text = method + seq![' '] + target + seq![' '] + version + seq!['\r', '\n'] + rest;
            &&& request_words(text) == seq![method, target, version]
            &&& head_fields(text) == fields(crlf_lines(rest))
        }),
        ({
            let text = method + seq![' '] + target + seq!['\r', '\n'] + rest;
            &&& request_words(text) == seq![method, target]
            &&& head_fields(text) == fields(crlf_lines(rest))
        }),
{
    let short = method + seq![' '] + target;
    let line = short + seq![' '] + version;
    let e = Seq::<char>::empty();
    law_words(method, ' ', target);
    law_words(target, ' ', e);
    law_words(version, ' ', e);
    law_words(short, ' ', version);
    assert(words(short) =~= seq![method, target]);
    assert(words(line) =~= seq![method, target, version]);
    lemma_no_break(method, target);
    assert forall|i: int| 0 <= i < line.len() implies #[trigger] line[i] != '\r' by {
        if i < short.len() {
            assert(line[i] == short[i]);
        } else if i > short.len() {
            assert(line[i] == version[i - short.len() - 1]);
        }
    }
    law_crlf_lines(short, rest);
    law_crlf_lines(line, rest);
    let lines = crlf_lines(rest);
    assert((seq![short] + lines).skip(1) =~= lines);
    assert((seq![line] + lines).skip(1) =~= lines);
}

/// Two words and a space hold no line break.
proof fn lemma_no_break(a: Seq<char>, b: Seq<char>)
    requires
        forall|i: int| 0 <= i < a.len() ==> !is_space(#[trigger] a[i]),
        forall|i: int| 0 <= i < b.len() ==> !is_space(#[trigger] b[i]),
    ensures
        forall|i: int|
            0 <= i < (a + seq![' '] + b).len() ==> #[trigger] (a + seq![' '] + b)[i] != '\r',
{
    let s = a + seq![' '] + b;
    assert forall|i: int| 0 <= i < s.len() implies #[trigger] s[i] != '\r' by {
        if i < a.len() {
            assert(s[i] == a[i]);
        } else if i > a.len() {
            assert(s[i] == b[i - a.len() - 1]);
        }
    }
}

/// A `Connection` value asks to close where one of the options between its commas is
/// `close`, in either case of the letters and with white space around it or not.
pub proof fn law_close_options(a: Seq<char>, b: Seq<char>)
    ensures
        lists_close(a + seq![','] + b) <==> lists_close(a) || lists_close(b),
        !a.contains(',') ==> (lists_close(a) <==> lowered(trimmed(a)) == "close"@),
{
    law_split_joins(a, ',', b);
    let all = split(a + seq![','] + b, ',');
    let pa = split(a, ',');
    let pb = split(b, ',');
    if lists_close(a) {
        let i = choose|i: int| 0 <= i < pa.len() && lowered(trimmed(#[trigger] pa[i])) == "close"@;
        assert(all[i] == pa[i]);
    }
    if lists_close(b) {
        let i = choose|i: int| 0 <= i < pb.len() && lowered(trimmed(#[trigger] pb[i])) == "close"@;
        assert(all[pa.len() + i] == pb[i]);
    }
    if lists_close(a + seq![','] + b) {
        let i = choose|i: int| 0 <= i < all.len() && lowered(trimmed(#[trigger] all[i])) == "close"@;
        if i < pa.len() {
            assert(pa[i] == all[i]);
        } else {
            assert(pb[i - pa.len()] == all[i]);
        }
    }
    if !a.contains(',') {
        assert forall|i: int| 0 <= i < a.len() implies a[i] != ',' by {
            assert(a.contains(a[i]));
        }
        assert(pa[0] == a);
    }
}

/// A connection may be kept exactly where the client speaks HTTP/1.1, the end of the
/// request is certain, and the client does not ask to close.
pub proof fn law_kept_connections(req: Request, text: Seq<char>)
    requires
        req.is_in(text),
    ensures
        req.keeps_alive() <==> request_words(text).len() > 2 && request_words(text)[2]
            == "HTTP/1.1"@ && certain_framing(head_fields(text)) && (lookup(
            head_fields(text),
            "connection"@,
        ) matches Some(v) ==> !lists_close(v)),
{
    assert(req.value_of("connection"@) == lookup(head_fields(text), "connection"@));
    reveal_strlit("HTTP/1.1");
}

/// A head ends with the first blank line, CR LF CR LF, and that has to come within the
/// bytes that a head may have.
pub proof fn law_heads_end_with_a_blank_line(b: Seq<u8>, n: nat)
    requires
        4 <= n <= b.len(),
        b[n - 4] == 13 && b[n - 3] == 10 && b[n - 2] == 13 && b[n - 1] == 10,
        forall|i: int|
            0 <= i < n - 4 ==> !(#[trigger] b[i] == 13 && b[i + 1] == 10 && b[i + 2] == 13 && b[i
                + 3] == 10),
    ensures
        head_len(b) == (if n <= 65537 {
            Some(n)
        } else {
            None
        }),
{
    assert forall|k: int| 0 <= k < n implies !ends_head(#[trigger] b.take(k)) by {
        if k >= 4 {
            let t = b.take(k);
            assert(t[k - 4] == b[k - 4]);
        }
    }
    assert(ends_head(b.take(n as int)));
    lemma_head_len(b, 0, n);
}

/// Without a blank line there is no head.
pub proof fn law_no_head_without_blank_line(b: Seq<u8>)
    requires
        forall|i: int|
            0 <= i && i + 3 < b.len() ==> !(#[trigger] b[i] == 13 && b[i + 1] == 10 && b[i + 2] == 13
                && b[i + 3] == 10),
    ensures
        head_len(b) is None,
{
    assert forall|k: int| 0 <= k < b.len() + 1 implies !ends_head(#[trigger] b.take(k)) by {
        if k >= 4 {
            let t = b.take(k);
            assert(t[k - 4] == b[k - 4]);
        }
    }
    lemma_head_len(b, 0, b.len() + 1);
}

// ---------------------------------------------------------------------------
// How a response reads
// ---------------------------------------------------------------------------
/// A text that can stand on one line as a value.
pub open spec fn is_line_value(s: Seq<char>) -> bool {
    &&& forall|i: int| 0 <= i < s.len() ==> #[trigger] s[i] != '\r' && s[i] != '\n'
    &&& s.len() > 0 ==> !is_space(s[0]) && !is_space(s[s.len() - 1])
}

/// The fields of lines that begin with one line.
proof fn lemma_fields_of_first(line: Seq<char>, lines: Seq<Seq<char>>)
    ensures
        fields(seq![line] + lines) == fields(seq![line]) + fields(lines),
    decreases lines.len(),
{
    let all = seq![line] + lines;
    if lines.len() == 0 {
        assert(all =~= seq![line]);
        assert(fields(seq![line]) + fields(lines) =~= fields(seq![line]));
    } else {
        lemma_fields_of_first(line, lines.drop_last());
        assert(all.drop_last() =~= seq![line] + lines.drop_last());
        assert(all.last() == lines.last());
        assert(fields(all) =~= fields(seq![line]) + fields(lines));
    }
}

/// How one header line, and what follows it, is read.
proof fn lemma_line_is_read(name: Seq<char>, value: Seq<char>, rest: Seq<char>)
    requires
        is_line_value(name),
        is_line_value(value),
        !name.contains(':'),
    ensures
        fields(crlf_lines(name + (": "@ + (value + ("\r\n"@ + rest))))) == seq![
            (lowered(name), value),
        ] + fields(crlf_lines(rest)),
{
    reveal_strlit(": ");
    reveal_strlit("\r\n");
    let e = Seq::<char>::empty();
    let line = name + seq![':'] + (seq![' '] + value);
    let text = name + (": "@ + (value + ("\r\n"@ + rest)));
    assert(text =~= line + seq!['\r', '\n'] + rest);
    assert forall|i: int| 0 <= i < line.len() implies #[trigger] line[i] != '\r' by {
        if i < name.len() {
            assert(line[i] == name[i]);
        } else if i > name.len() + 1 {
            assert(line[i] == value[i - name.len() - 2]);
        }
    }
    law_crlf_lines(line, rest);
    lemma_fields_of_first(line, crlf_lines(rest));
    law_header_lines_are_read(seq![], e, name, e, seq![' '], value, e);
    assert(e + name + e =~= name);
    assert(seq![' '] + value + e =~= seq![' '] + value);
    assert(Seq::<Seq<char>>::empty().push(line) =~= seq![line]);
    assert(fields(seq![line]) =~= seq![(lowered(name), value)]);
}

/// How header lines, and what follows them, are read.
proof fn lemma_lines_are_read(headers: Seq<(Seq<char>, Seq<char>)>, rest: Seq<char>)
    requires
        forall|i: int|
            0 <= i < headers.len() ==> is_line_value((#[trigger] headers[i]).0) && is_line_value(
                headers[i].1,
            ) && !headers[i].0.contains(':'),
    ensures
        fields(crlf_lines(header_lines(headers) + rest)) == headers.map_values(
            |h: (Seq<char>, Seq<char>)| (lowered(h.0), h.1),
        ) + fields(crlf_lines(rest)),
    decreases headers.len(),
{
    let f = |h: (Seq<char>, Seq<char>)| (lowered(h.0), h.1);
    if headers.len() == 0 {
        assert(header_lines(headers) + rest =~= rest);
        assert(headers.map_values(f) + fields(crlf_lines(rest)) =~= fields(crlf_lines(rest)));
    } else {
        let h = headers.last();
        let front = headers.drop_last();
        let more = h.0 + (": "@ + (h.1 + ("\r\n"@ + rest)));
        assert(header_lines(headers) + rest =~= header_lines(front) + more);
        assert(is_line_value(headers[headers.len() - 1].0));
        lemma_line_is_read(h.0, h.1, rest);
        lemma_lines_are_read(front, more);
        assert(headers.map_values(f) =~= front.map_values(f) + seq![f(h)]);
        assert(headers.map_values(f) + fields(crlf_lines(rest)) =~= front.map_values(f) + fields(
            crlf_lines(more),
        ));
    }
}

/// A number, and a date, can stand on one line.
proof fn lemma_line_values(n: nat, t: int)
    requires
        t >= 0,
    ensures
        is_line_value(decimal(n)),
        is_line_value(http_date_text(t)),
{
    lemma_decimal(n);
    assert forall|i: int| 0 <= i < decimal(n).len() implies '0' <= #[trigger] decimal(n)[i]
        <= '9' by {
        assert(is_digit(decimal(n)[i], 10));
    }
    lemma_http_date_chars(t);
}

/// What a client reads in the head of a response: the status line; how many bytes the
/// body has; its type, if it has one; the headers in their order; the time; the name of
/// the server; and whether the connection is kept.
#[verifier::spinoff_prover]
#[verifier::rlimit(60)]
pub proof fn law_response_heads_are_read(
    ctx: Context,
    status: nat,
    reason: Seq<char>,
    content_type: Seq<char>,
    headers: Seq<(Seq<char>, Seq<char>)>,
    length: nat,
)
    requires
        is_line_value(reason),
        is_line_value(content_type),
        forall|i: int|
            0 <= i < headers.len() ==> is_line_value((#[trigger] headers[i]).0) && is_line_value(
                headers[i].1,
            ) && !headers[i].0.contains(':'),
    ensures
        ({
            let text = head_text(ctx, status, reason, content_type, headers, length);
            &&& crlf_lines(text)[0] == "HTTP/1.1 "@ + decimal(status) + " "@ + reason
            &&& head_fields(text) == seq![("content-length"@, decimal(length))] + (
            if content_type.len() > 0 {
                seq![("content-type"@, content_type)]
            } else {
                seq![]
            }) + headers.map_values(|h: (Seq<char>, Seq<char>)| (lowered(h.0), h.1)) + seq![
                (
                    "date"@,
                    http_date_text(
                        if ctx.now < 0 {
                            0
                        } else {
                            ctx.now as int
                        },
                    ),
                ),
                ("server"@, "tiny-webdav"@),
                (
                    "connection"@,
                    if ctx.keep_alive {
                        "keep-alive"@
                    } else {
                        "close"@
                    },
                ),
            ]
            &&& text.len() >= 4 && text.skip(text.len() - 4) == seq!['\r', '\n', '\r', '\n']
        }),
{
    let t = since_epoch(ctx.now as int);
    let date = http_date_text(t);
    let conn = connection_text(ctx.keep_alive);
    let first = "HTTP/1.1 "@ + decimal(status) + " "@ + reason;
    let text = head_text(ctx, status, reason, content_type, headers, length);
    let after = lines_after(decimal(length), content_type, headers, date, conn);
    lemma_line_values(length, t);
    lemma_head_layout(
        first,
        decimal(length),
        type_line(content_type),
        header_lines(headers),
        date,
        conn,
    );
    lemma_first_line(status, reason, after);
    lemma_after_is_read(decimal(length), content_type, headers, date, ctx.keep_alive);
    lemma_head_ends(ctx, status, reason, content_type, headers, length);
}

/// The lines of a head behind the first.
spec fn lines_after(
    length: Seq<char>,
    content_type: Seq<char>,
    headers: Seq<(Seq<char>, Seq<char>)>,
    date: Seq<char>,
    conn: Seq<char>,
) -> Seq<char> {
    let end = "\r\n"@;
    let e3 = "Connection"@ + (": "@ + (conn + ("\r\n"@ + end)));
    let e2 = "Server"@ + (": "@ + ("tiny-webdav"@ + ("\r\n"@ + e3)));
    let e1 = "Date"@ + (": "@ + (date + ("\r\n"@ + e2)));
    "Content-Length"@ + (": "@ + (length + ("\r\n"@ + (type_line(content_type) + (header_lines(
        headers,
    ) + e1)))))
}

/// How the first line of a head is told from the others.
proof fn lemma_first_line(status: nat, reason: Seq<char>, after: Seq<char>)
    requires
        is_line_value(reason),
    ensures
        ({
            let first = "HTTP/1.1 "@ + decimal(status) + " "@ + reason;
            let text = first + "\r\n"@ + after;
            crlf_lines(text)[0] == first && head_fields(text) == fields(crlf_lines(after))
        }),
{
    lemma_line_values(status, 0);
    reveal_strlit("HTTP/1.1 ");
    reveal_strlit(" ");
    reveal_strlit("\r\n");
    let first = "HTTP/1.1 "@ + decimal(status) + " "@ + reason;
    assert forall|i: int| 0 <= i < first.len() implies #[trigger] first[i] != '\r' by {
        if i >= 10 + decimal(status).len() {
            assert(first[i] == reason[i - 10 - decimal(status).len()]);
        } else if 9 <= i < 9 + decimal(status).len() {
            assert(first[i] == decimal(status)[i - 9]);
        }
    }
    assert("\r\n"@ =~= seq!['\r', '\n']);
    law_crlf_lines(first, after);
    assert((seq![first] + crlf_lines(after)).skip(1) =~= crlf_lines(after));
}

/// How the other lines are read.
proof fn lemma_after_is_read(
    length: Seq<char>,
    content_type: Seq<char>,
    headers: Seq<(Seq<char>, Seq<char>)>,
    date: Seq<char>,
    keep_alive: bool,
)
    requires
        is_line_value(length),
        is_line_value(content_type),
        is_line_value(date),
        forall|i: int|
            0 <= i < headers.len() ==> is_line_value((#[trigger] headers[i]).0) && is_line_value(
                headers[i].1,
            ) && !headers[i].0.contains(':'),
    ensures
        fields(
            crlf_lines(
                lines_after(length, content_type, headers, date, connection_text(keep_alive)),
            ),
        ) == seq![("content-length"@, length)] + (if content_type.len() > 0 {
            seq![("content-type"@, content_type)]
        } else {
            seq![]
        }) + headers.map_values(|h: (Seq<char>, Seq<char>)| (lowered(h.0), h.1)) + seq![
            ("date"@, date),
            ("server"@, "tiny-webdav"@),
            ("connection"@, connection_text(keep_alive)),
        ],
{
    lemma_head_literals();
    let conn = connection_text(keep_alive);
    let end = "\r\n"@;
    let e3 = "Connection"@ + (": "@ + (conn + ("\r\n"@ + end)));
    let e2 = "Server"@ + (": "@ + ("tiny-webdav"@ + ("\r\n"@ + e3)));
    let e1 = "Date"@ + (": "@ + (date + ("\r\n"@ + e2)));
    let lines = header_lines(headers) + e1;
    let typed = type_line(content_type) + lines;
    lemma_line_is_read("Content-Length"@, length, typed);
    if content_type.len() > 0 {
        lemma_type_line(content_type, lines);
        lemma_line_is_read("Content-Type"@, content_type, lines);
    } else {
        assert(typed =~= lines);
    }
    lemma_lines_are_read(headers, e1);
    lemma_line_is_read("Date"@, date, e2);
    lemma_line_is_read("Server"@, "tiny-webdav"@, e3);
    lemma_line_is_read("Connection"@, conn, end);
    lemma_blank_line();
    let f = |h: (Seq<char>, Seq<char>)| (lowered(h.0), h.1);
    let tail = seq![("date"@, date), ("server"@, "tiny-webdav"@), ("connection"@, conn)];
    assert(fields(crlf_lines(e1)) =~= tail);
    let kind = if content_type.len() > 0 {
        seq![("content-type"@, content_type)]
    } else {
        seq![]
    };
    assert(fields(crlf_lines(typed)) =~= kind + (headers.map_values(f) + tail));
    assert(seq![("content-length"@, length)] + (kind + (headers.map_values(f) + tail)) =~= seq![
        ("content-length"@, length),
    ] + kind + headers.map_values(f) + tail);
}

/// A head ends with a blank line.
proof fn lemma_head_ends(
    ctx: Context,
    status: nat,
    reason: Seq<char>,
    content_type: Seq<char>,
    headers: Seq<(Seq<char>, Seq<char>)>,
    length: nat,
)
    ensures
        ({
            let text = head_text(ctx, status, reason, content_type, headers, length);
            text.len() >= 4 && text.skip(text.len() - 4) == seq!['\r', '\n', '\r', '\n']
        }),
{
    reveal_strlit("\r\n\r\n");
    let text = head_text(ctx, status, reason, content_type, headers, length);
    assert(text.skip(text.len() - 4) =~= seq!['\r', '\n', '\r', '\n']);
}

/// A blank line gives no header.
proof fn lemma_blank_line()
    ensures
        fields(crlf_lines("\r\n"@)) == Seq::<(Seq<char>, Seq<char>)>::empty(),
{
    reveal_strlit("\r\n");
    let e = Seq::<char>::empty();
    law_crlf_lines(e, e);
    assert(e + seq!['\r', '\n'] + e =~= "\r\n"@);
    lemma_fields_of_first(e, crlf_lines(e));
    law_header_lines_are_read(seq![], e, e, e, e, e, e);
    assert(e + e + e =~= e);
    assert(Seq::<Seq<char>>::empty().push(e) =~= seq![e]);
    assert(crlf_lines(e) =~= seq![e]);
    assert(fields(crlf_lines("\r\n"@)) =~= Seq::<(Seq<char>, Seq<char>)>::empty());
}

/// Texts can be joined from either end.
proof fn lemma_concat(a: Seq<char>, b: Seq<char>, c: Seq<char>)
    ensures
        a + b + c == a + (b + c),
{
    assert(a + b + c =~= a + (b + c));
}

/// The line of the type, in its parts.
proof fn lemma_type_line(content_type: Seq<char>, rest: Seq<char>)
    requires
        content_type.len() > 0,
    ensures
        type_line(content_type) + rest == "Content-Type"@ + (": "@ + (content_type + ("\r\n"@
            + rest))),
{
    lemma_head_literals();
    lemma_concat("Content-Type"@, ": "@, content_type + ("\r\n"@ + rest));
    lemma_concat("Content-Type: "@, content_type, "\r\n"@ + rest);
    lemma_concat("Content-Type: "@ + content_type, "\r\n"@, rest);
}

/// The head of a response, line by line.
proof fn lemma_head_layout(
    first: Seq<char>,
    length: Seq<char>,
    kind: Seq<char>,
    headers: Seq<char>,
    date: Seq<char>,
    conn: Seq<char>,
)
    ensures
        ({
            let end = "\r\n"@;
            let e3 = "Connection"@ + (": "@ + (conn + ("\r\n"@ + end)));
            let e2 = "Server"@ + (": "@ + ("tiny-webdav"@ + ("\r\n"@ + e3)));
            let e1 = "Date"@ + (": "@ + (date + ("\r\n"@ + e2)));
            let after = "Content-Length"@ + (": "@ + (length + ("\r\n"@ + (kind + (headers
                + e1)))));
            first + "\r\nContent-Length: "@ + length + "\r\n"@ + kind + headers + "Date: "@ + date
                + "\r\nServer: tiny-webdav\r\nConnection: "@ + conn + "\r\n\r\n"@ == first
                + "\r\n"@ + after
        }),
{
    lemma_head_literals();
    let cl = "\r\nContent-Length: "@;
    let sc = "\r\nServer: tiny-webdav\r\nConnection: "@;
    let nl = "\r\n"@;
    let e3 = "Connection"@ + (": "@ + (conn + (nl + nl)));
    let e2 = "Server"@ + (": "@ + ("tiny-webdav"@ + (nl + e3)));
    let e1 = "Date"@ + (": "@ + (date + (nl + e2)));
    let p1 = first + cl;
    let p2 = p1 + length;
    let p3 = p2 + nl;
    let p4 = p3 + kind;
    let p5 = p4 + headers;
    let p6 = p5 + "Date: "@;
    let p7 = p6 + date;
    let p8 = p7 + sc;
    lemma_concat(p8, conn, nl + nl);
    let t9 = conn + (nl + nl);
    lemma_concat(p7, sc, t9);
    let q1 = nl + "Server"@;
    let q2 = q1 + ": "@;
    let q3 = q2 + "tiny-webdav"@;
    let q4 = q3 + nl;
    let q5 = q4 + "Connection"@;
    assert(sc == q5 + ": "@);
    lemma_concat(q5, ": "@, t9);
    lemma_concat(q4, "Connection"@, ": "@ + t9);
    lemma_concat(q3, nl, e3);
    lemma_concat(q2, "tiny-webdav"@, nl + e3);
    lemma_concat(q1, ": "@, "tiny-webdav"@ + (nl + e3));
    lemma_concat(nl, "Server"@, ": "@ + ("tiny-webdav"@ + (nl + e3)));
    assert(sc + t9 == nl + e2);
    lemma_concat(p6, date, nl + e2);
    lemma_concat(p5, "Date: "@, date + (nl + e2));
    lemma_concat("Date"@, ": "@, date + (nl + e2));
    lemma_concat(p4, headers, e1);
    lemma_concat(p3, kind, headers + e1);
    lemma_concat(p2, nl, kind + (headers + e1));
    lemma_concat(p1, length, nl + (kind + (headers + e1)));
    let t1 = length + (nl + (kind + (headers + e1)));
    lemma_concat(first, cl, t1);
    lemma_concat(nl + "Content-Length"@, ": "@, t1);
    lemma_concat(nl, "Content-Length"@, ": "@ + t1);
    lemma_concat(first, nl, "Content-Length"@ + (": "@ + t1));
}

/// The words in the head of a response, and where they stand.
proof fn lemma_head_literals()
    ensures
        is_line_value("Content-Length"@) && !"Content-Length"@.contains(':'),
        is_line_value("Content-Type"@) && !"Content-Type"@.contains(':'),
        is_line_value("Date"@) && !"Date"@.contains(':'),
        is_line_value("Server"@) && !"Server"@.contains(':'),
        is_line_value("Connection"@) && !"Connection"@.contains(':'),
        is_line_value("tiny-webdav"@),
        is_line_value("keep-alive"@),
        is_line_value("close"@),
        lowered("Content-Length"@) == "content-length"@,
        lowered("Content-Type"@) == "content-type"@,
        lowered("Date"@) == "date"@,
        lowered("Server"@) == "server"@,
        lowered("Connection"@) == "connection"@,
        "\r\nContent-Length: "@ == "\r\n"@ + "Content-Length"@ + ": "@,
        "Content-Type: "@ == "Content-Type"@ + ": "@,
        "Date: "@ == "Date"@ + ": "@,
        "\r\nServer: tiny-webdav\r\nConnection: "@ == "\r\n"@ + "Server"@ + ": "@
            + "tiny-webdav"@ + "\r\n"@ + "Connection"@ + ": "@,
        "\r\n\r\n"@ == "\r\n"@ + "\r\n"@,
{
    reveal_strlit("Content-Length");
    reveal_strlit("Content-Type");
    reveal_strlit("Date");
    reveal_strlit("Server");
    reveal_strlit("Connection");
    reveal_strlit("tiny-webdav");
    reveal_strlit("keep-alive");
    reveal_strlit("close");
    reveal_strlit("content-length");
    reveal_strlit("content-type");
    reveal_strlit("date");
    reveal_strlit("server");
    reveal_strlit("connection");
    reveal_strlit("\r\n");
    reveal_strlit("\r\n\r\n");
    reveal_strlit(": ");
    reveal_strlit("\r\nContent-Length: ");
    reveal_strlit("Content-Type: ");
    reveal_strlit("Date: ");
    reveal_strlit("\r\nServer: tiny-webdav\r\nConnection: ");
    assert(lowered("Content-Length"@) =~= "content-length"@);
    assert(lowered("Content-Type"@) =~= "content-type"@);
    assert(lowered("Date"@) =~= "date"@);
    assert(lowered("Server"@) =~= "server"@);
    assert(lowered("Connection"@) =~= "connection"@);
    assert("\r\nContent-Length: "@ =~= "\r\n"@ + "Content-Length"@ + ": "@);
    assert("Content-Type: "@ =~= "Content-Type"@ + ": "@);
    assert("Date: "@ =~= "Date"@ + ": "@);
    assert("\r\nServer: tiny-webdav\r\nConnection: "@ =~= "\r\n"@ + "Server"@ + ": "@
        + "tiny-webdav"@ + "\r\n"@ + "Connection"@ + ": "@);
    assert("\r\n\r\n"@ =~= "\r\n"@ + "\r\n"@);
}

/// A response is its head and its whole body, or its head alone, which announces the
/// body all the same.
pub proof fn law_bodies_follow_heads(
    ctx: Context,
    status: nat,
    reason: Seq<char>,
    content_type: Seq<char>,
    headers: Seq<(Seq<char>, Seq<char>)>,
    body: Seq<u8>,
)
    ensures
        response_bytes(ctx, status, reason, content_type, headers, body, false) == encode_utf8(
            head_text(ctx, status, reason, content_type, headers, body.len()),
        ),
        response_bytes(ctx, status, reason, content_type, headers, body, true) == response_bytes(
            ctx,
            status,
            reason,
            content_type,
            headers,
            body,
            false,
        ) + body,
        status_bytes(ctx, status, reason, headers) == response_bytes(
            ctx,
            status,
            reason,
            "text/plain; charset=utf-8"@,
            headers,
            encode_utf8(decimal(status) + seq![' '] + reason + seq!['\n']),
            true,
        ),
{
    reveal_strlit(" ");
    reveal_strlit("\n");
    assert(" "@ =~= seq![' ']);
    assert("\n"@ =~= seq!['\n']);
}

/// The reason phrase of each status that is sent.
pub proof fn law_reason_phrases(status: u16)
    ensures
        reason_text(200) == "OK"@,
        reason_text(206) == "Partial Content"@,
        reason_text(207) == "Multi-Status"@,
        reason_text(304) == "Not Modified"@,
        reason_text(401) == "Unauthorized"@,
        reason_text(403) == "Forbidden"@,
        reason_text(404) == "Not Found"@,
        reason_text(405) == "Method Not Allowed"@,
        reason_text(416) == "Range Not Satisfiable"@,
        status >= 500 ==> reason_text(status) == "Internal Server Error"@,
{
}

/// What is read of the head of a request: its method, its path without query and
/// fragment, its version, and of each header that occurs in its lines the last value;
/// and whether it is certain where its body ends.
pub proof fn law_parsed_requests(
    text: &str,
    method: Seq<char>,
    path: Seq<char>,
    query: Seq<char>,
    version: Seq<char>,
    rest: Seq<char>,
    name: Seq<char>,
    r: Result<Request, RequestError>,
)
    requires
        call_ensures(parse_head, (text,), r),
        method.len() > 0,
        path.len() > 0,
        version.len() > 0,
        forall|i: int| 0 <= i < method.len() ==> !is_space(#[trigger] method[i]),
        forall|i: int| 0 <= i < path.len() ==> !is_space(#[trigger] path[i]),
        forall|i: int| 0 <= i < path.len() ==> path[i] != '?' && path[i] != '#',
        forall|i: int| 0 <= i < query.len() ==> !is_space(#[trigger] query[i]),
        forall|i: int| 0 <= i < version.len() ==> !is_space(#[trigger] version[i]),
        query.len() > 0 ==> query[0] == '?' || query[0] == '#',
        text@ == method + seq![' '] + (path + query) + seq![' '] + version + seq!['\r', '\n']
            + rest,
    ensures
        r matches Ok(req) && req.method@ == method && req.path@ == path && req.version@ == version
            && req.value_of(name) == lookup(fields(crlf_lines(rest)), name) && req.framed
            == certain_framing(fields(crlf_lines(rest))),
{
    let target = path + query;
    assert forall|i: int| 0 <= i < target.len() implies !is_space(#[trigger] target[i]) by {
        if i < path.len() {
            assert(target[i] == path[i]);
        } else {
            assert(target[i] == query[i - path.len()]);
        }
    }
    law_requests_are_read(method, target, version, rest);
    if query.len() > 0 {
        let tail = query.drop_first();
        law_target_paths(path, query[0], tail);
        assert(target =~= path + seq![query[0]] + tail);
    } else {
        law_target_paths(path, '?', query);
        assert(target =~= path);
    }
    if let Ok(req) = r {
        assert(req.value_of(name) == lookup(head_fields(text@), name));
    }
}

/// A request line of fewer than two words is no request.
pub proof fn law_malformed_requests(
    text: &str,
    word: Seq<char>,
    rest: Seq<char>,
    r: Result<Request, RequestError>,
)
    requires
        call_ensures(parse_head, (text,), r),
        forall|i: int| 0 <= i < word.len() ==> !is_space(#[trigger] word[i]),
        text@ == word + seq!['\r', '\n'] + rest,
    ensures
        r matches Err(e) && e is MalformedRequestLine,
{
    law_words(word, ' ', seq![]);
    law_crlf_lines(word, rest);
}

/// How much of a stream one request takes up: its head, up to the first blank line, and
/// as many bytes behind it as it announces, or all that there are.
pub proof fn law_requests_take_up_their_bytes(
    stream: &[u8],
    n: nat,
    length: nat,
    r: Result<(Request, usize), RequestError>,
)
    requires
        call_ensures(read_request, (stream,), r),
        4 <= n <= stream@.len(),
        n <= 65537,
        stream@[n - 4] == 13 && stream@[n - 3] == 10 && stream@[n - 2] == 13 && stream@[n - 1]
            == 10,
        forall|i: int|
            0 <= i < n - 4 ==> !(#[trigger] stream@[i] == 13 && stream@[i + 1] == 10 && stream@[i
                + 2] == 13 && stream@[i + 3] == 10),
        length <= usize::MAX,
    ensures
        r matches Ok(ok) ==> (ok.0.value_of("content-length"@) is None ==> ok.1 == n) && (
        ok.0.value_of("content-length"@) == Some(decimal(length)) ==> ok.1 == (if n + length
            <= stream@.len() {
            n + length
        } else {
            stream@.len()
        })),
        r is Ok <==> request_words(lossy_text(stream@.take(n as int))).len() >= 2,
        r matches Err(e) ==> e is MalformedRequestLine,
{
    law_heads_end_with_a_blank_line(stream@, n);
    law_announced_bodies(length, seq![]);
}

/// A stream without a blank line holds no request: it is too large once it has more than
/// 65536 bytes, and until then its end is missing.
pub proof fn law_unfinished_requests(stream: &[u8], r: Result<(Request, usize), RequestError>)
    requires
        call_ensures(read_request, (stream,), r),
        forall|i: int|
            0 <= i && i + 3 < stream@.len() ==> !(#[trigger] stream@[i] == 13 && stream@[i + 1]
                == 10 && stream@[i + 2] == 13 && stream@[i + 3] == 10),
    ensures
        stream@.len() > 65536 ==> (r matches Err(e) && e is HeadersTooLarge),
        stream@.len() <= 65536 ==> (r matches Err(e) && e is UnexpectedEof),
{
    law_no_head_without_blank_line(stream@);
}

} // verus!
