//! Read-only WebDAV: OPTIONS, GET, HEAD and PROPFIND. Every other method is
//! answered `405 Method Not Allowed`.
//!
//! An answer is computed from the request and from what the filesystem says
//! ([`Facts`]). [`wanted_path`], [`needs_entries`] and [`needs_file`] tell which of
//! the facts it needs, so that nothing is looked up in vain.

use vstd::prelude::*;
use vstd::utf8::encode_utf8;

use crate::auth::{challenge_fields, challenge_headers, permits, Auth};
use crate::bytes::copy_bytes;
use crate::conditional::{
    etag_for, etag_text, if_range_matches, is_current, law_etag_revalidates, not_modified,
    range_applies, text_of, validator_headers, validators, Meta,
};
use crate::escape::{
    is_link_char, law_encoded_path_is_link, law_percent_round_trip, percent_decode,
    percent_decoded, percent_encoded,
};
use crate::http::{
    head_text, pairs, reason_phrase, reason_text, response_bytes, status_body, status_text,
    target_path, write_head, write_response, write_status, Context, Request,
};
use crate::listing::{directory_index_html, index_html, multistatus, multistatus_xml};
use crate::mime::{mime_for, mime_type};
use crate::number::{decimal, decimal_string};
use crate::path::{
    climbs, extension_text, has_hidden, is_entry_name, joined_all, lemma_entry_path,
    lemma_trailing_slash, path_segments, slashed,
};
use crate::range::{
    byte_range, law_open_range_goes_to_the_end, law_range_holds_the_bytes_between,
    law_range_lies_in_file, law_suffix_is_the_last_bytes, parse_byte_range, RangeSpec,
};
use crate::safe::{acceptable, acceptable_entries, Entry, Probe, SafePath, Served};
use crate::text::{
    chars_are, chars_of, is_space, law_trimming, lossy_text, lowered, same, same_ignoring_case,
    trim, trimmed,
};

verus! {

/// The methods that are allowed.
pub const ALLOW: &'static str = "OPTIONS, GET, HEAD, PROPFIND";

/// The type of an XML body.
pub const XML_TYPE: &'static str = "application/xml; charset=utf-8";

/// What a PROPFIND of infinite depth is answered.
pub const FINITE_DEPTH: &'static str =
    "<?xml version=\"1.0\" encoding=\"utf-8\"?>\n<D:error xmlns:D=\"DAV:\"><D:propfind-finite-depth/></D:error>\n";

/// Why a file could not be opened.
#[derive(Clone, Copy, Debug, PartialEq, Eq, Structural)]
pub enum FileError {
    NotFound,
    PermissionDenied,
    /// The path cannot be the name of a file.
    InvalidInput,
    Other,
}

/// What the filesystem says, as far as an answer needs it.
pub struct Facts {
    /// Of the path that the request names.
    pub probe: Probe,
    /// The entries of the directory at that path.
    pub entries: Vec<Entry>,
    /// Whether the file at that path could be opened.
    pub opened: Result<(), FileError>,
}

/// A part of a file.
#[derive(Clone, Copy, Debug, PartialEq, Eq, Structural)]
pub struct Span {
    /// The offset of its first byte.
    pub start: u64,
    /// The number of its bytes.
    pub count: u64,
}

/// An answer: bytes to send, and behind them a part of the opened file.
pub struct Reply {
    pub status: u16,
    pub bytes: Vec<u8>,
    pub file: Option<Span>,
}

/// An answer, as a value.
#[verifier::ext_equal]
pub struct Answer {
    pub status: u16,
    pub bytes: Seq<u8>,
    pub file: Option<Span>,
}

impl View for Reply {
    type V = Answer;

    open spec fn view(&self) -> Answer {
        Answer { status: self.status, bytes: self.bytes@, file: self.file }
    }
}

// ---------------------------------------------------------------------------
// What is answered
// ---------------------------------------------------------------------------
/// Whether the text of a short answer is sent. A client that asked with HEAD expects
/// none, and would take it for the next answer: on a kept connection it is left out.
/// Where the connection is closed behind the answer, nothing can be mistaken.
pub open spec fn sends_text(ctx: Context, is_head: bool) -> bool {
    !(is_head && ctx.keep_alive)
}

/// A short text answer, whose text is announced and, if `send_text`, sent.
pub open spec fn status_answer(
    ctx: Context,
    status: u16,
    headers: Seq<(Seq<char>, Seq<char>)>,
    send_text: bool,
) -> Answer {
    body_answer(
        ctx,
        status,
        "text/plain; charset=utf-8"@,
        headers,
        status_body(status as nat, reason_text(status)),
        send_text,
    )
}

/// An answer with a body of its own.
pub open spec fn body_answer(
    ctx: Context,
    status: u16,
    content_type: Seq<char>,
    headers: Seq<(Seq<char>, Seq<char>)>,
    body: Seq<u8>,
    send_body: bool,
) -> Answer {
    Answer {
        status,
        bytes: response_bytes(
            ctx,
            status as nat,
            reason_text(status),
            content_type,
            headers,
            body,
            send_body,
        ),
        file: None,
    }
}

/// The answer to OPTIONS.
pub open spec fn options_answer(ctx: Context) -> Answer {
    body_answer(ctx, 200, ""@, seq![("DAV"@, "1"@), ("Allow"@, ALLOW@)], seq![], true)
}

/// The answer where a file could not be opened. What was not found and what may
/// not be read are answered alike.
pub open spec fn error_answer(ctx: Context, e: FileError, send_text: bool) -> Answer {
    status_answer(
        ctx,
        if e == FileError::Other {
            500
        } else {
            404
        },
        seq![],
        send_text,
    )
}

/// The range of the file that a request asks for.
pub open spec fn wanted_range(req: Request, meta: Meta) -> RangeSpec {
    match req.value_of("range"@) {
        Some(v) => if range_applies(req.value_of("if-range"@), etag_text(meta), meta.modified) {
            byte_range(v, meta.len)
        } else {
            RangeSpec::Ignore
        },
        None => RangeSpec::Ignore,
    }
}

/// Whether the copy that the client holds is current.
pub open spec fn client_is_current(req: Request, meta: Meta) -> bool {
    is_current(
        req.value_of("if-none-match"@),
        req.value_of("if-modified-since"@),
        etag_text(meta),
        meta.modified,
    )
}

/// The headers of an answer that holds file contents.
pub open spec fn content_headers(meta: Meta) -> Seq<(Seq<char>, Seq<char>)> {
    validators(etag_text(meta), meta.modified).push(("Accept-Ranges"@, "bytes"@))
}

/// The header of an answer that holds the bytes `start` to `end` of `len`.
pub open spec fn content_range(start: u64, end: u64, len: u64) -> (Seq<char>, Seq<char>) {
    (
        "Content-Range"@,
        "bytes "@ + decimal(start as nat) + "-"@ + decimal(end as nat) + "/"@ + decimal(
            len as nat,
        ),
    )
}

/// The header of an answer that there is no such range in `len` bytes.
pub open spec fn content_range_none(len: u64) -> (Seq<char>, Seq<char>) {
    ("Content-Range"@, "bytes */"@ + decimal(len as nat))
}

/// The answer with a part of a file.
pub open spec fn contents_answer(
    ctx: Context,
    status: u16,
    path: Seq<u8>,
    headers: Seq<(Seq<char>, Seq<char>)>,
    span: Span,
    opened: Result<(), FileError>,
    send_body: bool,
) -> Answer {
    match opened {
        Ok(_) => Answer {
            status,
            bytes: encode_utf8(
                head_text(
                    ctx,
                    status as nat,
                    reason_text(status),
                    mime_type(lowered(extension_text(path))),
                    headers,
                    span.count as nat,
                ),
            ),
            file: if send_body {
                Some(span)
            } else {
                None
            },
        },
        Err(e) => error_answer(ctx, e, sends_text(ctx, !send_body)),
    }
}

/// The answer to GET and HEAD on a file.
pub open spec fn file_answer(
    ctx: Context,
    req: Request,
    path: Seq<u8>,
    meta: Meta,
    opened: Result<(), FileError>,
    send_body: bool,
) -> Answer {
    if client_is_current(req, meta) {
        body_answer(
            ctx,
            304,
            ""@,
            validators(etag_text(meta), meta.modified),
            seq![],
            false,
        )
    } else {
        match wanted_range(req, meta) {
            RangeSpec::Satisfiable { start, end } => contents_answer(
                ctx,
                206,
                path,
                content_headers(meta).push(content_range(start, end, meta.len)),
                (Span { start, count: (end - start + 1) as u64 }),
                opened,
                send_body,
            ),
            RangeSpec::Unsatisfiable => status_answer(
                ctx,
                416,
                seq![content_range_none(meta.len)],
                sends_text(ctx, !send_body),
            ),
            RangeSpec::Ignore => contents_answer(
                ctx,
                200,
                path,
                content_headers(meta),
                (Span { start: 0, count: meta.len }),
                opened,
                send_body,
            ),
        }
    }
}

/// The answer to GET and HEAD.
pub open spec fn get_answer(
    ctx: Context,
    root: Seq<u8>,
    exposes: Seq<String>,
    decoded: Seq<char>,
    target: (Seq<u8>, Meta),
    req: Request,
    facts: Facts,
    send_body: bool,
) -> Answer {
    if target.1.is_dir {
        let children = acceptable_entries(root, exposes, target.0, facts.entries@);
        body_answer(
            ctx,
            200,
            "text/html; charset=utf-8"@,
            seq![],
            encode_utf8(index_html(decoded, children)),
            send_body,
        )
    } else {
        file_answer(ctx, req, target.0, target.1, facts.opened, send_body)
    }
}

/// The depth that a PROPFIND asks for.
pub open spec fn depth_text(req: Request) -> Seq<char> {
    match req.value_of("depth"@) {
        Some(v) => trimmed(v),
        None => "1"@,
    }
}

/// Whether a PROPFIND asks for the whole tree.
pub open spec fn is_infinite(req: Request) -> bool {
    lowered(depth_text(req)) == "infinity"@
}

/// Whether a PROPFIND on a resource lists the entries of it.
pub open spec fn lists_entries(req: Request, meta: Meta) -> bool {
    !is_infinite(req) && meta.is_dir && depth_text(req) != "0"@
}

/// The answer to PROPFIND.
pub open spec fn propfind_answer(
    ctx: Context,
    root: Seq<u8>,
    exposes: Seq<String>,
    decoded: Seq<char>,
    target: (Seq<u8>, Meta),
    req: Request,
    facts: Facts,
) -> Answer {
    if is_infinite(req) {
        body_answer(ctx, 403, XML_TYPE@, seq![], encode_utf8(FINITE_DEPTH@), true)
    } else {
        let children = if lists_entries(req, target.1) {
            acceptable_entries(root, exposes, target.0, facts.entries@)
        } else {
            seq![]
        };
        body_answer(
            ctx,
            207,
            XML_TYPE@,
            seq![],
            encode_utf8(multistatus(decoded, target, children)),
            true,
        )
    }
}

/// The path that a request names, decoded.
pub open spec fn decoded_text(path: Seq<char>) -> Seq<char> {
    lossy_text(percent_decoded(encode_utf8(path)))
}

/// Whether a method is about a resource and allowed.
pub open spec fn is_resource_method(method: Seq<char>) -> bool {
    method == "GET"@ || method == "HEAD"@ || method == "PROPFIND"@
}

/// The answer to a request.
pub open spec fn answer(
    ctx: Context,
    root: Seq<u8>,
    exposes: Seq<String>,
    creds: Map<Seq<char>, Seq<char>>,
    req: Request,
    facts: Facts,
) -> Answer {
    let decoded = decoded_text(req.path@);
    let send_text = sends_text(ctx, req.method@ == "HEAD"@);
    if !permits(creds, req.value_of("authorization"@)) {
        status_answer(ctx, 401, challenge_headers(), send_text)
    } else if req.method@ == "OPTIONS"@ {
        options_answer(ctx)
    } else if !is_resource_method(req.method@) {
        status_answer(ctx, 405, seq![("Allow"@, ALLOW@)], send_text)
    } else if !acceptable(root, exposes, decoded, facts.probe) {
        status_answer(ctx, 404, seq![], send_text)
    } else {
        let target = (joined_all(root, path_segments(decoded)), facts.probe.meta->0);
        if req.method@ == "PROPFIND"@ {
            propfind_answer(ctx, root, exposes, decoded, target, req, facts)
        } else {
            get_answer(
                ctx,
                root,
                exposes,
                decoded,
                target,
                req,
                facts,
                req.method@ == "GET"@,
            )
        }
    }
}

// ---------------------------------------------------------------------------
// Answering
// ---------------------------------------------------------------------------
/// Whether the text of a short answer is sent.
fn text_is_sent(ctx: &Context, is_head: bool) -> (r: bool)
    ensures
        r == sends_text(*ctx, is_head),
{
    !(is_head && ctx.keep_alive)
}

/// A short text answer.
fn status_reply(ctx: &Context, status: u16, headers: &[(&str, String)], send_text: bool) -> (r:
    Reply)
    ensures
        r@ == status_answer(*ctx, status, pairs(headers@), send_text),
{
    let reason = reason_phrase(status);
    if send_text {
        let bytes = write_status(ctx, status, reason, headers);
        return Reply { status, bytes, file: None };
    }
    let text = status_text(status, reason);
    let body = text.as_str().as_bytes();
    body_reply(ctx, status, "text/plain; charset=utf-8", headers, body, false)
}

/// An answer with a body of its own.
fn body_reply(
    ctx: &Context,
    status: u16,
    content_type: &str,
    headers: &[(&str, String)],
    body: &[u8],
    send_body: bool,
) -> (r: Reply)
    ensures
        r@ == body_answer(*ctx, status, content_type@, pairs(headers@), body@, send_body),
{
    let bytes = write_response(
        ctx,
        status,
        reason_phrase(status),
        content_type,
        headers,
        body,
        send_body,
    );
    Reply { status, bytes, file: None }
}

/// The answer to OPTIONS, which is about the server and needs no path.
pub fn options(ctx: &Context) -> (r: Reply)
    ensures
        r@ == options_answer(*ctx),
{
    let mut headers: Vec<(&str, String)> = Vec::new();
    headers.push(("DAV", "1".to_string()));
    headers.push(("Allow", ALLOW.to_string()));
    assert(pairs(headers@) =~= seq![("DAV"@, "1"@), ("Allow"@, ALLOW@)]);
    let body: Vec<u8> = Vec::new();
    body_reply(ctx, 200, "", headers.as_slice(), body.as_slice(), true)
}

/// The answer where a file could not be opened.
pub fn err_status(ctx: &Context, e: FileError, send_text: bool) -> (r: Reply)
    ensures
        r@ == error_answer(*ctx, e, send_text),
{
    let headers: Vec<(&str, String)> = Vec::new();
    assert(pairs(headers@) =~= seq![]);
    let status: u16 = match e {
        FileError::Other => 500,
        _ => 404,
    };
    status_reply(ctx, status, headers.as_slice(), send_text)
}

/// The range of the file that a request asks for.
fn range_of(req: &Request, etag: Option<&str>, meta: &Meta) -> (r: RangeSpec)
    requires
        text_of(etag) == etag_text(*meta),
    ensures
        r == wanted_range(*req, *meta),
{
    match req.header("range") {
        Some(v) => if if_range_matches(req, etag, meta.modified) {
            parse_byte_range(v, meta.len)
        } else {
            RangeSpec::Ignore
        },
        None => RangeSpec::Ignore,
    }
}

/// The answer with a part of a file.
fn contents_reply(
    ctx: &Context,
    status: u16,
    target: &SafePath,
    headers: &[(&str, String)],
    span: Span,
    opened: Result<(), FileError>,
    send_body: bool,
) -> (r: Reply)
    ensures
        r@ == contents_answer(
            *ctx,
            status,
            target@.0,
            pairs(headers@),
            span,
            opened,
            send_body,
        ),
{
    match opened {
        Ok(_) => {
            let head = write_head(
                ctx,
                status,
                reason_phrase(status),
                mime_for(target.path()),
                headers,
                span.count,
            );
            let bytes = copy_bytes(head.as_str().as_bytes());
            let file = if send_body {
                Some(span)
            } else {
                None
            };
            Reply { status, bytes, file }
        },
        Err(e) => err_status(ctx, e, text_is_sent(ctx, !send_body)),
    }
}

/// The answer to GET and HEAD on a file: its contents or a range of them, or that
/// the copy of the client is current.
fn file_reply(
    ctx: &Context,
    target: &SafePath,
    req: &Request,
    opened: Result<(), FileError>,
    send_body: bool,
) -> (r: Reply)
    ensures
        r@ == file_answer(*ctx, *req, target@.0, target@.1, opened, send_body),
{
    let meta = target.meta();
    let tag = etag_for(meta);
    let etag: Option<&str> = match &tag {
        Some(e) => Some(e.as_str()),
        None => None,
    };
    let ghost v = validators(etag_text(*meta), meta.modified);
    let mut headers = validator_headers(etag, meta.modified);
    if not_modified(req, etag, meta.modified) {
        let body: Vec<u8> = Vec::new();
        return body_reply(ctx, 304, "", headers.as_slice(), body.as_slice(), false);
    }
    headers.push(("Accept-Ranges", "bytes".to_string()));
    assert(pairs(headers@) =~= content_headers(*meta));
    match range_of(req, etag, meta) {
        RangeSpec::Satisfiable { start, end } => {
            proof {
                law_range_lies_in_file(req.value_of("range"@)->0, meta.len);
            }
            let mut range = "bytes ".to_string();
            range.append(decimal_string(start).as_str());
            range.append("-");
            range.append(decimal_string(end).as_str());
            range.append("/");
            range.append(decimal_string(meta.len).as_str());
            headers.push(("Content-Range", range));
            assert(pairs(headers@) =~= content_headers(*meta).push(
                content_range(start, end, meta.len),
            ));
            let span = Span { start, count: end - start + 1 };
            contents_reply(ctx, 206, target, headers.as_slice(), span, opened, send_body)
        },
        RangeSpec::Unsatisfiable => {
            let mut range = "bytes */".to_string();
            range.append(decimal_string(meta.len).as_str());
            let mut only: Vec<(&str, String)> = Vec::new();
            only.push(("Content-Range", range));
            assert(pairs(only@) =~= seq![content_range_none(meta.len)]);
            status_reply(ctx, 416, only.as_slice(), text_is_sent(ctx, !send_body))
        },
        RangeSpec::Ignore => {
            let span = Span { start: 0, count: meta.len };
            contents_reply(ctx, 200, target, headers.as_slice(), span, opened, send_body)
        },
    }
}

/// The answer to GET, or with `send_body` false to HEAD, on `target`, which the
/// request path `decoded_path` names: the index of a directory, the contents of a
/// file.
pub fn get_or_head(
    ctx: &Context,
    served: &Served,
    decoded_path: &str,
    target: &SafePath,
    req: &Request,
    facts: &Facts,
    send_body: bool,
) -> (r: Reply)
    ensures
        r@ == get_answer(
            *ctx,
            served.root_path(),
            served.exposed(),
            decoded_path@,
            target@,
            *req,
            *facts,
            send_body,
        ),
{
    if target.is_dir() {
        let html = directory_index_html(served, decoded_path, target, facts.entries.as_slice());
        let headers: Vec<(&str, String)> = Vec::new();
        assert(pairs(headers@) =~= seq![]);
        return body_reply(
            ctx,
            200,
            "text/html; charset=utf-8",
            headers.as_slice(),
            html.as_str().as_bytes(),
            send_body,
        );
    }
    file_reply(ctx, target, req, facts.opened, send_body)
}

/// Whether a PROPFIND asks for the whole tree, and whether for more than the
/// resource itself.
fn read_depth(req: &Request) -> (r: (bool, bool))
    ensures
        r.0 == is_infinite(*req),
        r.1 == (depth_text(*req) != "0"@),
{
    let chars = match req.header("depth") {
        Some(v) => chars_of(v),
        None => {
            proof {
                reveal_strlit("1");
                reveal_strlit("0");
                reveal_strlit("infinity");
                assert("1"@[0] == '1');
                assert("0"@[0] == '0');
                assert(lowered("1"@).len() == 1);
            }
            return (false, true);
        },
    };
    let depth = trim(chars.as_slice());
    proof {
        reveal_strlit("infinity");
        assert(lowered("infinity"@) =~= "infinity"@);
    }
    (same_ignoring_case(depth, "infinity"), !chars_are(depth, "0"))
}

/// The answer to PROPFIND on `target`, which the request path `decoded_path` names:
/// the properties of it and, unless the depth is 0, of its entries. The whole tree
/// is not walked: a client that asks for it is told to go level by level.
pub fn propfind(
    ctx: &Context,
    served: &Served,
    decoded_path: &str,
    target: &SafePath,
    req: &Request,
    facts: &Facts,
) -> (r: Reply)
    ensures
        r@ == propfind_answer(
            *ctx,
            served.root_path(),
            served.exposed(),
            decoded_path@,
            target@,
            *req,
            *facts,
        ),
{
    let headers: Vec<(&str, String)> = Vec::new();
    assert(pairs(headers@) =~= seq![]);
    let (infinite, deep) = read_depth(req);
    if infinite {
        return body_reply(ctx, 403, XML_TYPE, headers.as_slice(), FINITE_DEPTH.as_bytes(), true);
    }
    let xml = if target.is_dir() && deep {
        multistatus_xml(served, decoded_path, target, facts.entries.as_slice())
    } else {
        let none: Vec<Entry> = Vec::new();
        assert(acceptable_entries(served.root_path(), served.exposed(), target@.0, none@)
            =~= seq![]);
        multistatus_xml(served, decoded_path, target, none.as_slice())
    };
    body_reply(ctx, 207, XML_TYPE, headers.as_slice(), xml.as_str().as_bytes(), true)
}

/// Whether a method is about a resource and allowed.
fn names_resource(method: &str) -> (r: bool)
    ensures
        r == is_resource_method(method@),
{
    same(method, "GET") || same(method, "HEAD") || same(method, "PROPFIND")
}

/// The path that a request names, decoded.
pub fn decoded_path(req: &Request) -> (r: String)
    ensures
        r@ == decoded_text(req.path@),
{
    percent_decode(req.path.as_str())
}

/// The answer to a request. Whatever the reason for which a path is refused, the
/// answer is the same `404 Not Found`.
pub fn handle(ctx: &Context, served: &Served, auth: &Auth, req: &Request, facts: &Facts) -> (r:
    Reply)
    ensures
        r@ == answer(*ctx, served.root_path(), served.exposed(), auth@, *req, *facts),
{
    let method = req.method.as_str();
    let send_text = text_is_sent(ctx, same(method, "HEAD"));
    if !auth.authorize(req) {
        if send_text {
            return Reply { status: 401, bytes: auth.challenge(ctx), file: None };
        }
        let asking = challenge_fields();
        return status_reply(ctx, 401, asking.as_slice(), false);
    }
    if same(method, "OPTIONS") {
        return options(ctx);
    }
    let mut headers: Vec<(&str, String)> = Vec::new();
    if !names_resource(method) {
        headers.push(("Allow", ALLOW.to_string()));
        assert(pairs(headers@) =~= seq![("Allow"@, ALLOW@)]);
        return status_reply(ctx, 405, headers.as_slice(), send_text);
    }
    let decoded = decoded_path(req);
    let target = match SafePath::accept(served, decoded.as_str(), &facts.probe) {
        Some(p) => p,
        None => {
            assert(pairs(headers@) =~= seq![]);
            return status_reply(ctx, 404, headers.as_slice(), send_text);
        },
    };
    if same(method, "PROPFIND") {
        propfind(ctx, served, decoded.as_str(), &target, req, facts)
    } else {
        get_or_head(ctx, served, decoded.as_str(), &target, req, facts, same(method, "GET"))
    }
}

// ---------------------------------------------------------------------------
// Which facts are needed
// ---------------------------------------------------------------------------
/// The path of which an answer needs to know what the filesystem says, if any.
pub open spec fn path_to_probe(
    root: Seq<u8>,
    exposes: Seq<String>,
    creds: Map<Seq<char>, Seq<char>>,
    req: Request,
) -> Option<Seq<u8>> {
    let decoded = decoded_text(req.path@);
    if permits(creds, req.value_of("authorization"@)) && is_resource_method(req.method@)
        && !climbs(decoded) && !has_hidden(decoded, exposes) {
        Some(joined_all(root, path_segments(decoded)))
    } else {
        None
    }
}

/// The path of which [`handle`] needs to know what the filesystem says, if any.
pub fn wanted_path(served: &Served, auth: &Auth, req: &Request) -> (r: Option<Vec<u8>>)
    ensures
        r is Some <==> path_to_probe(
            served.root_path(),
            served.exposed(),
            auth@,
            *req,
        ) is Some,
        r matches Some(p) ==> path_to_probe(
            served.root_path(),
            served.exposed(),
            auth@,
            *req,
        ) == Some(p@),
{
    if !auth.authorize(req) || !names_resource(req.method.as_str()) {
        return None;
    }
    served.wanted(decoded_path(req).as_str())
}

/// Whether an answer needs the entries of the directory that the request names.
pub open spec fn entries_needed(req: Request, meta: Meta) -> bool {
    meta.is_dir && (req.method@ != "PROPFIND"@ || lists_entries(req, meta))
}

/// Whether [`handle`] needs the entries of the directory that the request names.
pub fn needs_entries(req: &Request, target: &SafePath) -> (r: bool)
    ensures
        r == entries_needed(*req, target@.1),
{
    if !target.is_dir() {
        return false;
    }
    if !same(req.method.as_str(), "PROPFIND") {
        return true;
    }
    let (infinite, deep) = read_depth(req);
    !infinite && deep
}

/// Whether an answer needs the file that the request names to be opened.
pub open spec fn file_needed(req: Request, meta: Meta) -> bool {
    !meta.is_dir && req.method@ != "PROPFIND"@ && !client_is_current(req, meta) && wanted_range(
        req,
        meta,
    ) != RangeSpec::Unsatisfiable
}

/// Whether [`handle`] needs the file that the request names to be opened.
pub fn needs_file(req: &Request, target: &SafePath) -> (r: bool)
    ensures
        r == file_needed(*req, target@.1),
{
    if target.is_dir() || same(req.method.as_str(), "PROPFIND") {
        return false;
    }
    let meta = target.meta();
    let tag = etag_for(meta);
    let etag: Option<&str> = match &tag {
        Some(e) => Some(e.as_str()),
        None => None,
    };
    if not_modified(req, etag, meta.modified) {
        return false;
    }
    range_of(req, etag, meta) != RangeSpec::Unsatisfiable
}

// ---------------------------------------------------------------------------
// Laws
// ---------------------------------------------------------------------------
/// A request without a valid credential is challenged, whatever it asks for and
/// whatever is there.
pub proof fn law_unauthorized_is_challenged(
    ctx: Context,
    root: Seq<u8>,
    exposes: Seq<String>,
    creds: Map<Seq<char>, Seq<char>>,
    req: Request,
    facts: Facts,
)
    requires
        !permits(creds, req.value_of("authorization"@)),
    ensures
        answer(ctx, root, exposes, creds, req, facts) == status_answer(
            ctx,
            401,
            challenge_headers(),
            sends_text(ctx, req.method@ == "HEAD"@),
        ),
{
}

/// A method that would modify anything, as any other that is not allowed, is
/// answered 405 with the methods that are.
pub proof fn law_other_methods_are_not_allowed(
    ctx: Context,
    root: Seq<u8>,
    exposes: Seq<String>,
    creds: Map<Seq<char>, Seq<char>>,
    req: Request,
    facts: Facts,
)
    requires
        permits(creds, req.value_of("authorization"@)),
        req.method@ != "OPTIONS"@,
        !is_resource_method(req.method@),
    ensures
        answer(ctx, root, exposes, creds, req, facts) == status_answer(
            ctx,
            405,
            seq![("Allow"@, ALLOW@)],
            true,
        ),
{
}

/// A refusal reveals nothing: whether a path climbs, is hidden, does not exist,
/// leads out of the root or cannot be read, the answer is one and the same. Of two
/// requests that are refused, both get it byte for byte, but that on a kept
/// connection its text is left out for a client that asked with HEAD.
pub proof fn law_refusals_are_alike(
    ctx: Context,
    root: Seq<u8>,
    exposes: Seq<String>,
    creds: Map<Seq<char>, Seq<char>>,
    a: Request,
    a_facts: Facts,
    b: Request,
    b_facts: Facts,
)
    requires
        permits(creds, a.value_of("authorization"@)),
        permits(creds, b.value_of("authorization"@)),
        is_resource_method(a.method@),
        is_resource_method(b.method@),
        !acceptable(root, exposes, decoded_text(a.path@), a_facts.probe),
        !acceptable(root, exposes, decoded_text(b.path@), b_facts.probe),
    ensures
        answer(ctx, root, exposes, creds, a, a_facts) == status_answer(
            ctx,
            404,
            seq![],
            sends_text(ctx, a.method@ == "HEAD"@),
        ),
        !ctx.keep_alive || (a.method@ == "HEAD"@ <==> b.method@ == "HEAD"@) ==> answer(
            ctx,
            root,
            exposes,
            creds,
            a,
            a_facts,
        ) == answer(ctx, root, exposes, creds, b, b_facts),
{
    lemma_methods();
}

/// The methods are different words.
proof fn lemma_methods()
    ensures
        !is_resource_method("OPTIONS"@),
        "GET"@ != "HEAD"@,
        "GET"@ != "PROPFIND"@,
        "HEAD"@ != "PROPFIND"@,
{
    reveal_strlit("OPTIONS");
    reveal_strlit("GET");
    reveal_strlit("HEAD");
    reveal_strlit("PROPFIND");
    assert("OPTIONS"@.len() == 7);
    assert("GET"@.len() == 3);
    assert("HEAD"@.len() == 4);
    assert("PROPFIND"@.len() == 8);
}

/// What is not needed is not used: without a path to probe the answer is the same
/// whatever the filesystem says, and where neither the entries nor the file is
/// needed they do not change it.
pub proof fn law_unneeded_facts_change_nothing(
    ctx: Context,
    root: Seq<u8>,
    exposes: Seq<String>,
    creds: Map<Seq<char>, Seq<char>>,
    req: Request,
    facts: Facts,
    other: Facts,
)
    requires
        path_to_probe(root, exposes, creds, req) is Some ==> {
            &&& facts.probe == other.probe
            &&& facts.probe.meta matches Some(meta) ==> {
                &&& entries_needed(req, meta) ==> facts.entries == other.entries
                &&& file_needed(req, meta) ==> facts.opened == other.opened
            }
        },
    ensures
        answer(ctx, root, exposes, creds, req, facts) == answer(
            ctx,
            root,
            exposes,
            creds,
            req,
            other,
        ),
{
    lemma_methods();
}

/// The bytes of a file that are sent lie in the file.
pub proof fn law_sent_bytes_lie_in_file(
    ctx: Context,
    root: Seq<u8>,
    exposes: Seq<String>,
    creds: Map<Seq<char>, Seq<char>>,
    req: Request,
    facts: Facts,
)
    ensures
        answer(ctx, root, exposes, creds, req, facts).file matches Some(span) ==> {
            &&& facts.opened is Ok
            &&& facts.probe.meta matches Some(meta) && !meta.is_dir && span.start + span.count
                <= meta.len
        },
{
    if let Some(meta) = facts.probe.meta {
        if let Some(v) = req.value_of("range"@) {
            law_range_lies_in_file(v, meta.len);
        }
    }
}

/// Whether an answer consists of a head that announces a body of `n` bytes, and of
/// `body`.
pub open spec fn is_framed_as(
    ctx: Context,
    a: Answer,
    content_type: Seq<char>,
    headers: Seq<(Seq<char>, Seq<char>)>,
    n: nat,
    body: Seq<u8>,
) -> bool {
    a.bytes == encode_utf8(
        head_text(ctx, a.status as nat, reason_text(a.status), content_type, headers, n),
    ) + body
}

/// The number of bytes of a file behind an answer.
pub open spec fn file_bytes(a: Answer) -> nat {
    match a.file {
        Some(span) => span.count as nat,
        None => 0,
    }
}

/// Whether it is certain to the client where an answer ends. Its head announces as
/// many bytes as follow, of the body and of the file together; behind a head that
/// answers HEAD nothing follows, unless the connection is closed.
pub open spec fn is_framed(ctx: Context, a: Answer, is_head: bool) -> bool {
    exists|content_type: Seq<char>, headers: Seq<(Seq<char>, Seq<char>)>, n: nat, body: Seq<u8>|
        {
            &&& #[trigger] is_framed_as(ctx, a, content_type, headers, n, body)
            &&& !is_head ==> n == body.len() + file_bytes(a)
            &&& is_head ==> a.file is None && (body.len() == 0 || (!ctx.keep_alive && n
                == body.len()))
        }
}

/// Every answer is framed by its length, so that on a kept connection the next
/// answer begins where the client expects it.
#[verifier::spinoff_prover]
#[verifier::rlimit(60)]
pub proof fn law_answers_are_framed(
    ctx: Context,
    root: Seq<u8>,
    exposes: Seq<String>,
    creds: Map<Seq<char>, Seq<char>>,
    req: Request,
    facts: Facts,
)
    ensures
        is_framed(
            ctx,
            answer(ctx, root, exposes, creds, req, facts),
            req.method@ == "HEAD"@,
        ),
{
    lemma_methods();
    let is_head = req.method@ == "HEAD"@;
    let decoded = decoded_text(req.path@);
    if !permits(creds, req.value_of("authorization"@)) {
        lemma_status_is_framed(ctx, 401, challenge_headers(), is_head);
    } else if req.method@ == "OPTIONS"@ {
        let headers = seq![("DAV"@, "1"@), ("Allow"@, ALLOW@)];
        lemma_body_is_framed(ctx, 200, ""@, headers, seq![], true, is_head);
    } else if !is_resource_method(req.method@) {
        lemma_status_is_framed(ctx, 405, seq![("Allow"@, ALLOW@)], is_head);
    } else if !acceptable(root, exposes, decoded, facts.probe) {
        lemma_status_is_framed(ctx, 404, seq![], is_head);
    } else {
        let target = (joined_all(root, path_segments(decoded)), facts.probe.meta->0);
        let children = acceptable_entries(root, exposes, target.0, facts.entries@);
        if req.method@ == "PROPFIND"@ {
            let body = if is_infinite(req) {
                encode_utf8(FINITE_DEPTH@)
            } else if lists_entries(req, target.1) {
                encode_utf8(multistatus(decoded, target, children))
            } else {
                encode_utf8(multistatus(decoded, target, seq![]))
            };
            let status = if is_infinite(req) {
                403
            } else {
                207
            };
            lemma_body_is_framed(ctx, status, XML_TYPE@, seq![], body, true, is_head);
        } else if target.1.is_dir {
            let body = encode_utf8(index_html(decoded, children));
            let kind = "text/html; charset=utf-8"@;
            lemma_body_is_framed(ctx, 200, kind, seq![], body, !is_head, is_head);
        } else {
            lemma_file_is_framed(ctx, req, target.0, target.1, facts.opened, !is_head);
        }
    }
}

/// A short text is framed.
proof fn lemma_status_is_framed(
    ctx: Context,
    status: u16,
    headers: Seq<(Seq<char>, Seq<char>)>,
    is_head: bool,
)
    ensures
        is_framed(ctx, status_answer(ctx, status, headers, sends_text(ctx, is_head)), is_head),
{
    lemma_body_is_framed(
        ctx,
        status,
        "text/plain; charset=utf-8"@,
        headers,
        status_body(status as nat, reason_text(status)),
        sends_text(ctx, is_head),
        is_head,
    );
}

/// An answer with a body of its own is framed.
proof fn lemma_body_is_framed(
    ctx: Context,
    status: u16,
    content_type: Seq<char>,
    headers: Seq<(Seq<char>, Seq<char>)>,
    body: Seq<u8>,
    send_body: bool,
    is_head: bool,
)
    requires
        is_head ==> !send_body || body.len() == 0 || !ctx.keep_alive,
        !is_head ==> send_body || body.len() == 0,
    ensures
        is_framed(
            ctx,
            body_answer(ctx, status, content_type, headers, body, send_body),
            is_head,
        ),
{
    let a = body_answer(ctx, status, content_type, headers, body, send_body);
    let sent = if send_body {
        body
    } else {
        seq![]
    };
    let head = encode_utf8(
        head_text(ctx, status as nat, reason_text(status), content_type, headers, body.len()),
    );
    assert(a.bytes =~= head + sent);
    assert(is_framed_as(ctx, a, content_type, headers, body.len(), sent));
}

/// The answer to GET and HEAD on a file is framed.
proof fn lemma_file_is_framed(
    ctx: Context,
    req: Request,
    path: Seq<u8>,
    meta: Meta,
    opened: Result<(), FileError>,
    send_body: bool,
)
    ensures
        is_framed(ctx, file_answer(ctx, req, path, meta, opened, send_body), !send_body),
{
    let a = file_answer(ctx, req, path, meta, opened, send_body);
    let kind = mime_type(lowered(extension_text(path)));
    let none = Seq::<u8>::empty();
    if client_is_current(req, meta) {
        let v = validators(etag_text(meta), meta.modified);
        lemma_body_is_framed(ctx, 304, ""@, v, seq![], false, !send_body);
    } else if wanted_range(req, meta) == RangeSpec::Unsatisfiable {
        let headers = seq![content_range_none(meta.len)];
        lemma_status_is_framed(ctx, 416, headers, !send_body);
    } else if let Err(e) = opened {
        let status = if e == FileError::Other {
            500
        } else {
            404
        };
        lemma_status_is_framed(ctx, status, seq![], !send_body);
    } else {
        assert(a.bytes =~= a.bytes + none);
        match wanted_range(req, meta) {
            RangeSpec::Satisfiable { start, end } => {
                let headers = content_headers(meta).push(content_range(start, end, meta.len));
                let n = (end - start + 1) as u64 as nat;
                assert(is_framed_as(ctx, a, kind, headers, n, none));
            },
            _ => {
                let headers = content_headers(meta);
                assert(is_framed_as(ctx, a, kind, headers, meta.len as nat, none));
            },
        }
    }
}

/// Whether an answer is a short text.
pub open spec fn is_text_status(status: u16) -> bool {
    status == 401 || status == 404 || status == 405 || status == 416 || status == 500
}

/// Whether `h` is the head of `g` alone: the same head, with what it announces left
/// out.
pub open spec fn is_head_of(ctx: Context, h: Answer, g: Answer) -> bool {
    exists|content_type: Seq<char>, headers: Seq<(Seq<char>, Seq<char>)>, n: nat, body: Seq<u8>|
        {
            &&& #[trigger] is_framed_as(ctx, g, content_type, headers, n, body)
            &&& n == body.len() + file_bytes(g)
            &&& is_framed_as(ctx, h, content_type, headers, n, seq![])
            &&& h.file is None
        }
}

/// How HEAD is answered: with the head alone of what GET is answered, which announces
/// as much. Only where the connection is closed behind it is a short text sent to
/// HEAD as it is to GET.
pub proof fn law_head_is_answered_like_get(
    ctx: Context,
    root: Seq<u8>,
    exposes: Seq<String>,
    creds: Map<Seq<char>, Seq<char>>,
    get: Request,
    head: Request,
    facts: Facts,
)
    requires
        get.method@ == "GET"@,
        head.method@ == "HEAD"@,
        get.path@ == head.path@,
        forall|name: Seq<char>| #[trigger] get.value_of(name) == head.value_of(name),
    ensures
        ({
            let g = answer(ctx, root, exposes, creds, get, facts);
            let h = answer(ctx, root, exposes, creds, head, facts);
            &&& h.status == g.status
            &&& if is_text_status(g.status) && !ctx.keep_alive {
                h == g
            } else {
                is_head_of(ctx, h, g)
            }
        }),
{
    lemma_methods();
    let g = answer(ctx, root, exposes, creds, get, facts);
    let h = answer(ctx, root, exposes, creds, head, facts);
    assert(get.value_of("authorization"@) == head.value_of("authorization"@));
    assert(get.value_of("range"@) == head.value_of("range"@));
    assert(get.value_of("if-range"@) == head.value_of("if-range"@));
    assert(get.value_of("if-none-match"@) == head.value_of("if-none-match"@));
    assert(get.value_of("if-modified-since"@) == head.value_of("if-modified-since"@));
    let decoded = decoded_text(get.path@);
    let path = joined_all(root, path_segments(decoded));
    let meta = facts.probe.meta->0;
    let kind = mime_type(lowered(extension_text(path)));
    let none = Seq::<u8>::empty();
    if is_text_status(g.status) {
        let plain = "text/plain; charset=utf-8"@;
        let body = status_body(g.status as nat, reason_text(g.status));
        let v = if g.status == 401 {
            challenge_headers()
        } else if g.status == 416 {
            seq![content_range_none(meta.len)]
        } else {
            seq![]
        };
        if ctx.keep_alive {
            assert(h.bytes =~= h.bytes + none);
            assert(is_framed_as(ctx, g, plain, v, body.len(), body));
            assert(is_framed_as(ctx, h, plain, v, body.len(), none));
        }
    } else if meta.is_dir {
        let children = acceptable_entries(root, exposes, path, facts.entries@);
        let body = encode_utf8(index_html(decoded, children));
        let html = "text/html; charset=utf-8"@;
        assert(h.bytes =~= h.bytes + none);
        assert(is_framed_as(ctx, g, html, seq![], body.len(), body));
        assert(is_framed_as(ctx, h, html, seq![], body.len(), none));
    } else {
        assert(h.bytes =~= h.bytes + none);
        assert(g.bytes =~= g.bytes + none);
        if client_is_current(get, meta) {
            let v = validators(etag_text(meta), meta.modified);
            assert(is_framed_as(ctx, g, ""@, v, 0, none));
            assert(is_framed_as(ctx, h, ""@, v, 0, none));
        } else {
            match wanted_range(get, meta) {
                RangeSpec::Satisfiable { start, end } => {
                    let v = content_headers(meta).push(content_range(start, end, meta.len));
                    let n = (end - start + 1) as u64 as nat;
                    assert(is_framed_as(ctx, g, kind, v, n, none));
                    assert(is_framed_as(ctx, h, kind, v, n, none));
                },
                _ => {
                    let v = content_headers(meta);
                    assert(is_framed_as(ctx, g, kind, v, meta.len as nat, none));
                    assert(is_framed_as(ctx, h, kind, v, meta.len as nat, none));
                },
            }
        }
    }
}

/// A client that asks again with the entity tag it was given is spared the
/// transfer.
pub proof fn law_known_etag_is_not_sent_again(
    ctx: Context,
    root: Seq<u8>,
    exposes: Seq<String>,
    creds: Map<Seq<char>, Seq<char>>,
    req: Request,
    facts: Facts,
)
    requires
        permits(creds, req.value_of("authorization"@)),
        req.method@ == "GET"@ || req.method@ == "HEAD"@,
        acceptable(root, exposes, decoded_text(req.path@), facts.probe),
        facts.probe.meta matches Some(meta) && !meta.is_dir && etag_text(meta) is Some
            && req.value_of("if-none-match"@) == etag_text(meta),
    ensures
        answer(ctx, root, exposes, creds, req, facts).status == 304,
        answer(ctx, root, exposes, creds, req, facts).file is None,
{
    lemma_methods();
    let meta = facts.probe.meta->0;
    law_etag_revalidates(meta, req.value_of("if-modified-since"@));
}

/// A link leads back: a client that requests a link that was made for a path asks
/// for that path, of which nothing is taken for a query.
pub proof fn law_links_lead_back(path: Seq<char>)
    ensures
        target_path(percent_encoded(encode_utf8(path))) == percent_encoded(encode_utf8(path)),
        decoded_text(percent_encoded(encode_utf8(path))) == path,
{
    law_percent_round_trip(path);
    law_encoded_path_is_link(encode_utf8(path));
    lemma_target_path(percent_encoded(encode_utf8(path)));
}

/// A link has no query and no fragment.
proof fn lemma_target_path(s: Seq<char>)
    requires
        forall|i: int| 0 <= i < s.len() ==> is_link_char(#[trigger] s[i]),
    ensures
        target_path(s) == s,
    decreases s.len(),
{
    if s.len() > 0 {
        assert(is_link_char(s[0]));
        assert forall|i: int| 0 <= i < s.drop_first().len() implies is_link_char(
            #[trigger] s.drop_first()[i],
        ) by {
            assert(is_link_char(s[i + 1]));
        }
        lemma_target_path(s.drop_first());
        assert(seq![s[0]] + s.drop_first() =~= s);
    } else {
        assert(target_path(s) =~= s);
    }
}

/// The link to an entry in the listing of the directory `dir`, with or without the
/// slash of a directory, names that entry.
pub proof fn law_listed_link_names_entry(dir: Seq<char>, name: Seq<char>)
    requires
        is_entry_name(name),
    ensures
        path_segments(decoded_text(percent_encoded(encode_utf8(slashed(dir) + name))))
            == path_segments(dir).push(name),
        path_segments(decoded_text(percent_encoded(encode_utf8(slashed(dir) + name + "/"@))))
            == path_segments(dir).push(name),
{
    let path = slashed(dir) + name;
    law_links_lead_back(path);
    law_links_lead_back(path + "/"@);
    lemma_entry_path(dir, name);
    lemma_trailing_slash(path);
    assert(path.last() == name.last());
    assert(name.last() != '/') by {
        assert(name.contains(name.last()));
    }
}

/// What is answered where no byte of a range lies in a file of `len` bytes.
pub open spec fn unsatisfied(ctx: Context, len: u64) -> Answer {
    Answer {
        status: 416,
        bytes: response_bytes(
            ctx,
            416,
            "Range Not Satisfiable"@,
            "text/plain; charset=utf-8"@,
            seq![("Content-Range"@, "bytes */"@ + decimal(len as nat))],
            status_body(416, "Range Not Satisfiable"@),
            true,
        ),
        file: None,
    }
}

/// GET sends a file whole: all its bytes from the first, under its type, with its
/// validators. So it does where no range is asked for, where the range is for another
/// version of the file, and where the range is none that is understood.
pub proof fn law_get_sends_the_whole_file(
    ctx: Context,
    root: Seq<u8>,
    exposes: Seq<String>,
    creds: Map<Seq<char>, Seq<char>>,
    req: Request,
    facts: Facts,
    meta: Meta,
)
    requires
        permits(creds, req.value_of("authorization"@)),
        acceptable(root, exposes, decoded_text(req.path@), facts.probe),
        facts.probe.meta == Some(meta),
        req.method@ == "GET"@,
        !meta.is_dir,
        facts.opened is Ok,
        !is_current(
            req.value_of("if-none-match"@),
            req.value_of("if-modified-since"@),
            etag_text(meta),
            meta.modified,
        ),
        req.value_of("range"@) matches Some(v) ==> !range_applies(
            req.value_of("if-range"@),
            etag_text(meta),
            meta.modified,
        ) || byte_range(v, meta.len) == RangeSpec::Ignore,
    ensures
        ({
            let a = answer(ctx, root, exposes, creds, req, facts);
            let kind = mime_type(
                lowered(extension_text(joined_all(root, path_segments(decoded_text(req.path@))))),
            );
            let headers = validators(etag_text(meta), meta.modified) + seq![
                ("Accept-Ranges"@, "bytes"@),
            ];
            &&& a.status == 200
            &&& a.file == Some(Span { start: 0, count: meta.len })
            &&& a.bytes == encode_utf8(
                head_text(ctx, 200, "OK"@, kind, headers, meta.len as nat),
            )
        }),
{
    lemma_methods();
    assert(content_headers(meta) =~= validators(etag_text(meta), meta.modified) + seq![
        ("Accept-Ranges"@, "bytes"@),
    ]);
}

/// GET of a range sends the bytes from the first to the last that is asked for, or to
/// the end of the file, and says which they are; a range with no byte in the file is
/// answered with the length of the file.
pub proof fn law_get_sends_a_range(
    ctx: Context,
    root: Seq<u8>,
    exposes: Seq<String>,
    creds: Map<Seq<char>, Seq<char>>,
    req: Request,
    facts: Facts,
    meta: Meta,
    first: u64,
    last: u64,
)
    requires
        permits(creds, req.value_of("authorization"@)),
        acceptable(root, exposes, decoded_text(req.path@), facts.probe),
        facts.probe.meta == Some(meta),
        req.method@ == "GET"@,
        !meta.is_dir,
        facts.opened is Ok,
        !is_current(
            req.value_of("if-none-match"@),
            req.value_of("if-modified-since"@),
            etag_text(meta),
            meta.modified,
        ),
        range_applies(req.value_of("if-range"@), etag_text(meta), meta.modified),
        req.value_of("range"@) == Some(
            "bytes="@ + decimal(first as nat) + "-"@ + decimal(last as nat),
        ),
    ensures
        ({
            let a = answer(ctx, root, exposes, creds, req, facts);
            let kind = mime_type(
                lowered(extension_text(joined_all(root, path_segments(decoded_text(req.path@))))),
            );
            &&& first <= last && first < meta.len ==> {
                let end = if last < meta.len {
                    last as int
                } else {
                    meta.len - 1
                };
                let headers = validators(etag_text(meta), meta.modified) + seq![
                    ("Accept-Ranges"@, "bytes"@),
                    (
                        "Content-Range"@,
                        "bytes "@ + decimal(first as nat) + "-"@ + decimal(end as nat) + "/"@
                            + decimal(meta.len as nat),
                    ),
                ];
                let count = (end - first + 1) as nat;
                &&& a.status == 206
                &&& a.file == Some(Span { start: first, count: count as u64 })
                &&& count <= u64::MAX
                &&& a.bytes == encode_utf8(
                    head_text(ctx, 206, "Partial Content"@, kind, headers, count),
                )
            }
            &&& last < first || meta.len <= first ==> a == unsatisfied(ctx, meta.len)
        }),
{
    lemma_methods();
    law_range_holds_the_bytes_between(first, last, meta.len);
    lemma_range_headers(meta, first, last);
    lemma_range_headers(meta, first, (meta.len - 1) as u64);
}

/// GET of the bytes from a position to the end.
pub proof fn law_get_sends_the_rest(
    ctx: Context,
    root: Seq<u8>,
    exposes: Seq<String>,
    creds: Map<Seq<char>, Seq<char>>,
    req: Request,
    facts: Facts,
    meta: Meta,
    first: u64,
)
    requires
        permits(creds, req.value_of("authorization"@)),
        acceptable(root, exposes, decoded_text(req.path@), facts.probe),
        facts.probe.meta == Some(meta),
        req.method@ == "GET"@,
        !meta.is_dir,
        facts.opened is Ok,
        !is_current(
            req.value_of("if-none-match"@),
            req.value_of("if-modified-since"@),
            etag_text(meta),
            meta.modified,
        ),
        range_applies(req.value_of("if-range"@), etag_text(meta), meta.modified),
        req.value_of("range"@) == Some("bytes="@ + decimal(first as nat) + "-"@),
    ensures
        ({
            let a = answer(ctx, root, exposes, creds, req, facts);
            let kind = mime_type(
                lowered(extension_text(joined_all(root, path_segments(decoded_text(req.path@))))),
            );
            &&& first < meta.len ==> {
                let end = meta.len - 1;
                let headers = validators(etag_text(meta), meta.modified) + seq![
                    ("Accept-Ranges"@, "bytes"@),
                    (
                        "Content-Range"@,
                        "bytes "@ + decimal(first as nat) + "-"@ + decimal(end as nat) + "/"@
                            + decimal(meta.len as nat),
                    ),
                ];
                let count = (end - first + 1) as nat;
                &&& a.status == 206
                &&& a.file == Some(Span { start: first, count: count as u64 })
                &&& count <= u64::MAX
                &&& a.bytes == encode_utf8(
                    head_text(ctx, 206, "Partial Content"@, kind, headers, count),
                )
            }
            &&& meta.len <= first ==> a == unsatisfied(ctx, meta.len)
        }),
{
    lemma_methods();
    law_open_range_goes_to_the_end(first, meta.len);
    lemma_range_headers(meta, first, (meta.len - 1) as u64);
}

/// GET of the last bytes of a file: as many as are asked for, or all that there are.
pub proof fn law_get_sends_the_last_bytes(
    ctx: Context,
    root: Seq<u8>,
    exposes: Seq<String>,
    creds: Map<Seq<char>, Seq<char>>,
    req: Request,
    facts: Facts,
    meta: Meta,
    suffix: u64,
)
    requires
        permits(creds, req.value_of("authorization"@)),
        acceptable(root, exposes, decoded_text(req.path@), facts.probe),
        facts.probe.meta == Some(meta),
        req.method@ == "GET"@,
        !meta.is_dir,
        facts.opened is Ok,
        !is_current(
            req.value_of("if-none-match"@),
            req.value_of("if-modified-since"@),
            etag_text(meta),
            meta.modified,
        ),
        range_applies(req.value_of("if-range"@), etag_text(meta), meta.modified),
        req.value_of("range"@) == Some("bytes=-"@ + decimal(suffix as nat)),
    ensures
        ({
            let a = answer(ctx, root, exposes, creds, req, facts);
            let kind = mime_type(
                lowered(extension_text(joined_all(root, path_segments(decoded_text(req.path@))))),
            );
            &&& suffix > 0 && meta.len > 0 ==> {
                let count = if suffix < meta.len {
                    suffix
                } else {
                    meta.len
                };
                let headers = validators(etag_text(meta), meta.modified) + seq![
                    ("Accept-Ranges"@, "bytes"@),
                    (
                        "Content-Range"@,
                        "bytes "@ + decimal((meta.len - count) as nat) + "-"@ + decimal(
                            (meta.len - 1) as nat,
                        ) + "/"@ + decimal(meta.len as nat),
                    ),
                ];
                &&& a.status == 206
                &&& a.file matches Some(span) && span.start + span.count == meta.len && span.count
                    == count
                &&& a.bytes == encode_utf8(
                    head_text(ctx, 206, "Partial Content"@, kind, headers, count as nat),
                )
            }
            &&& suffix == 0 || meta.len == 0 ==> a == unsatisfied(ctx, meta.len)
        }),
{
    lemma_methods();
    law_suffix_is_the_last_bytes(suffix, meta.len);
    let start = if suffix < meta.len {
        (meta.len - suffix) as u64
    } else {
        0
    };
    lemma_range_headers(meta, start, (meta.len - 1) as u64);
}

/// The headers of an answer with a part of a file.
proof fn lemma_range_headers(meta: Meta, start: u64, end: u64)
    ensures
        content_headers(meta).push(content_range(start, end, meta.len)) == validators(
            etag_text(meta),
            meta.modified,
        ) + seq![
            ("Accept-Ranges"@, "bytes"@),
            (
                "Content-Range"@,
                "bytes "@ + decimal(start as nat) + "-"@ + decimal(end as nat) + "/"@ + decimal(
                    meta.len as nat,
                ),
            ),
        ],
{
    assert(content_headers(meta).push(content_range(start, end, meta.len)) =~= validators(
        etag_text(meta),
        meta.modified,
    ) + seq![
        ("Accept-Ranges"@, "bytes"@),
        (
            "Content-Range"@,
            "bytes "@ + decimal(start as nat) + "-"@ + decimal(end as nat) + "/"@ + decimal(
                meta.len as nat,
            ),
        ),
    ]);
}

/// A client whose copy is current is told so, by GET and by HEAD, with the validators
/// and without a body; no range and no failure to open the file changes that.
pub proof fn law_current_copies_are_not_sent(
    ctx: Context,
    root: Seq<u8>,
    exposes: Seq<String>,
    creds: Map<Seq<char>, Seq<char>>,
    req: Request,
    facts: Facts,
    meta: Meta,
)
    requires
        permits(creds, req.value_of("authorization"@)),
        acceptable(root, exposes, decoded_text(req.path@), facts.probe),
        facts.probe.meta == Some(meta),
        req.method@ == "GET"@ || req.method@ == "HEAD"@,
        !meta.is_dir,
        is_current(
            req.value_of("if-none-match"@),
            req.value_of("if-modified-since"@),
            etag_text(meta),
            meta.modified,
        ),
    ensures
        ({
            let a = answer(ctx, root, exposes, creds, req, facts);
            &&& a.status == 304
            &&& a.file is None
            &&& a.bytes == encode_utf8(
                head_text(
                    ctx,
                    304,
                    "Not Modified"@,
                    seq![],
                    validators(etag_text(meta), meta.modified),
                    0,
                ),
            )
        }),
{
    lemma_methods();
    reveal_strlit("");
    assert(""@ =~= seq![]);
}

/// A file that cannot be opened is not found, and only a failure of another kind than
/// its absence or a lack of permission is an error of the server.
pub proof fn law_files_that_cannot_be_opened(
    ctx: Context,
    root: Seq<u8>,
    exposes: Seq<String>,
    creds: Map<Seq<char>, Seq<char>>,
    req: Request,
    facts: Facts,
    meta: Meta,
    e: FileError,
)
    requires
        permits(creds, req.value_of("authorization"@)),
        acceptable(root, exposes, decoded_text(req.path@), facts.probe),
        facts.probe.meta == Some(meta),
        req.method@ == "GET"@,
        !meta.is_dir,
        facts.opened == Err::<(), FileError>(e),
        !is_current(
            req.value_of("if-none-match"@),
            req.value_of("if-modified-since"@),
            etag_text(meta),
            meta.modified,
        ),
        req.value_of("range"@) matches Some(v) ==> !range_applies(
            req.value_of("if-range"@),
            etag_text(meta),
            meta.modified,
        ) || byte_range(v, meta.len) != RangeSpec::Unsatisfiable,
    ensures
        ({
            let a = answer(ctx, root, exposes, creds, req, facts);
            &&& a.file is None
            &&& e is NotFound || e is PermissionDenied || e is InvalidInput ==> a.status == 404
                && a.bytes == response_bytes(
                ctx,
                404,
                "Not Found"@,
                "text/plain; charset=utf-8"@,
                seq![],
                status_body(404, "Not Found"@),
                true,
            )
            &&& e is Other ==> a.status == 500 && a.bytes == response_bytes(
                ctx,
                500,
                "Internal Server Error"@,
                "text/plain; charset=utf-8"@,
                seq![],
                status_body(500, "Internal Server Error"@),
                true,
            )
        }),
{
    lemma_methods();
}

/// What is refused, and how. Without a valid credential the answer is 401 with a
/// challenge, before anything else is looked at. OPTIONS is told the methods, and every
/// other method but GET, HEAD and PROPFIND is not allowed. A path that may not be served
/// is not found. To HEAD the text of an answer is left out on a kept connection.
pub proof fn law_refusals(
    ctx: Context,
    root: Seq<u8>,
    exposes: Seq<String>,
    creds: Map<Seq<char>, Seq<char>>,
    req: Request,
    facts: Facts,
)
    ensures
        ({
            let a = answer(ctx, root, exposes, creds, req, facts);
            let send = !(req.method@ == "HEAD"@ && ctx.keep_alive);
            let permitted = permits(creds, req.value_of("authorization"@));
            let found = acceptable(
                root,
                exposes,
                lossy_text(percent_decoded(encode_utf8(req.path@))),
                facts.probe,
            );
            &&& !permitted ==> a.status == 401 && a.file is None && a.bytes == response_bytes(
                ctx,
                401,
                "Unauthorized"@,
                "text/plain; charset=utf-8"@,
                seq![("WWW-Authenticate"@, "Basic realm=\"webdav\", charset=\"UTF-8\""@)],
                status_body(401, "Unauthorized"@),
                send,
            )
            &&& permitted && req.method@ == "OPTIONS"@ ==> a.status == 200 && a.file is None
                && a.bytes == encode_utf8(
                head_text(
                    ctx,
                    200,
                    "OK"@,
                    seq![],
                    seq![("DAV"@, "1"@), ("Allow"@, "OPTIONS, GET, HEAD, PROPFIND"@)],
                    0,
                ),
            )
            &&& permitted && req.method@ != "OPTIONS"@ && req.method@ != "GET"@ && req.method@
                != "HEAD"@ && req.method@ != "PROPFIND"@ ==> a.status == 405 && a.file is None
                && a.bytes == response_bytes(
                ctx,
                405,
                "Method Not Allowed"@,
                "text/plain; charset=utf-8"@,
                seq![("Allow"@, "OPTIONS, GET, HEAD, PROPFIND"@)],
                status_body(405, "Method Not Allowed"@),
                true,
            )
            &&& permitted && (req.method@ == "GET"@ || req.method@ == "HEAD"@ || req.method@
                == "PROPFIND"@) && !found ==> a.status == 404 && a.file is None && a.bytes
                == response_bytes(
                ctx,
                404,
                "Not Found"@,
                "text/plain; charset=utf-8"@,
                seq![],
                status_body(404, "Not Found"@),
                send,
            )
        }),
{
    lemma_methods();
    reveal_strlit("");
    assert(""@ =~= seq![]);
    let head = encode_utf8(
        head_text(
            ctx,
            200,
            "OK"@,
            seq![],
            seq![("DAV"@, "1"@), ("Allow"@, "OPTIONS, GET, HEAD, PROPFIND"@)],
            0,
        ),
    );
    assert(head + Seq::<u8>::empty() =~= head);
}

/// GET of a directory sends its index, of the entries that may be served.
pub proof fn law_get_sends_the_index(
    ctx: Context,
    root: Seq<u8>,
    exposes: Seq<String>,
    creds: Map<Seq<char>, Seq<char>>,
    req: Request,
    facts: Facts,
    meta: Meta,
)
    requires
        permits(creds, req.value_of("authorization"@)),
        acceptable(root, exposes, decoded_text(req.path@), facts.probe),
        facts.probe.meta == Some(meta),
        req.method@ == "GET"@,
        meta.is_dir,
    ensures
        ({
            let a = answer(ctx, root, exposes, creds, req, facts);
            let decoded = lossy_text(percent_decoded(encode_utf8(req.path@)));
            let dir = joined_all(root, path_segments(decoded));
            let page = encode_utf8(
                index_html(decoded, acceptable_entries(root, exposes, dir, facts.entries@)),
            );
            &&& a.status == 200
            &&& a.file is None
            &&& a.bytes == response_bytes(
                ctx,
                200,
                "OK"@,
                "text/html; charset=utf-8"@,
                seq![],
                page,
                true,
            )
        }),
{
    lemma_methods();
}

/// PROPFIND describes a resource; and of a directory its entries that may be served
/// too, unless it is asked for depth 0. Infinite depth is refused. Without a depth it
/// is 1.
pub proof fn law_propfind_describes(
    ctx: Context,
    root: Seq<u8>,
    exposes: Seq<String>,
    creds: Map<Seq<char>, Seq<char>>,
    req: Request,
    facts: Facts,
    meta: Meta,
    before: Seq<char>,
    depth: Seq<char>,
    behind: Seq<char>,
)
    requires
        permits(creds, req.value_of("authorization"@)),
        acceptable(root, exposes, decoded_text(req.path@), facts.probe),
        facts.probe.meta == Some(meta),
        req.method@ == "PROPFIND"@,
        forall|i: int| 0 <= i < before.len() ==> is_space(#[trigger] before[i]),
        forall|i: int| 0 <= i < behind.len() ==> is_space(#[trigger] behind[i]),
        depth.len() > 0 ==> !is_space(depth[0]) && !is_space(depth[depth.len() - 1]),
        req.value_of("depth"@) == Some(before + depth + behind) || (req.value_of("depth"@) is None
            && depth == "1"@),
    ensures
        ({
            let a = answer(ctx, root, exposes, creds, req, facts);
            let decoded = lossy_text(percent_decoded(encode_utf8(req.path@)));
            let path = joined_all(root, path_segments(decoded));
            let entries = acceptable_entries(root, exposes, path, facts.entries@);
            &&& a.file is None
            &&& lowered(depth) == "infinity"@ ==> a.status == 403 && a.bytes == response_bytes(
                ctx,
                403,
                "Forbidden"@,
                "application/xml; charset=utf-8"@,
                seq![],
                encode_utf8(
                    "<?xml version=\"1.0\" encoding=\"utf-8\"?>\n<D:error xmlns:D=\"DAV:\"><D:propfind-finite-depth/></D:error>\n"@,
                ),
                true,
            )
            &&& lowered(depth) != "infinity"@ && (depth == "0"@ || !meta.is_dir) ==> a.status == 207
                && a.bytes == response_bytes(
                ctx,
                207,
                "Multi-Status"@,
                "application/xml; charset=utf-8"@,
                seq![],
                encode_utf8(multistatus(decoded, (path, meta), seq![])),
                true,
            )
            &&& lowered(depth) != "infinity"@ && depth != "0"@ && meta.is_dir ==> a.status == 207
                && a.bytes == response_bytes(
                ctx,
                207,
                "Multi-Status"@,
                "application/xml; charset=utf-8"@,
                seq![],
                encode_utf8(multistatus(decoded, (path, meta), entries)),
                true,
            )
        }),
{
    lemma_methods();
    law_trimming(before, depth, behind);
    assert(depth_text(req) == depth);
}

/// The path that is looked up for a request: that of its decoded segments below the
/// root. For a request that is refused whatever is there, nothing is looked up.
pub proof fn law_looked_up_paths(
    root: Seq<u8>,
    exposes: Seq<String>,
    creds: Map<Seq<char>, Seq<char>>,
    req: Request,
)
    ensures
        ({
            let decoded = lossy_text(percent_decoded(encode_utf8(req.path@)));
            let path = path_to_probe(root, exposes, creds, req);
            &&& path is Some <==> permits(creds, req.value_of("authorization"@)) && (req.method@
                == "GET"@ || req.method@ == "HEAD"@ || req.method@ == "PROPFIND"@) && !climbs(
                decoded,
            ) && !has_hidden(decoded, exposes)
            &&& path matches Some(p) ==> p == joined_all(root, path_segments(decoded))
        }),
{
}

/// What is looked up for a request beside its path. The entries of a directory are, but
/// for a PROPFIND of depth 0 or of infinite depth. A file is opened for GET and HEAD, but
/// not for a client whose copy is current, nor for a range that it does not have.
pub proof fn law_looked_up_facts(
    req: Request,
    meta: Meta,
    before: Seq<char>,
    depth: Seq<char>,
    behind: Seq<char>,
)
    requires
        forall|i: int| 0 <= i < before.len() ==> is_space(#[trigger] before[i]),
        forall|i: int| 0 <= i < behind.len() ==> is_space(#[trigger] behind[i]),
        depth.len() > 0 ==> !is_space(depth[0]) && !is_space(depth[depth.len() - 1]),
        req.value_of("depth"@) == Some(before + depth + behind) || (req.value_of("depth"@) is None
            && depth == "1"@),
    ensures
        entries_needed(req, meta) <==> meta.is_dir && (req.method@ == "PROPFIND"@ ==> depth
            != "0"@ && lowered(depth) != "infinity"@),
        file_needed(req, meta) <==> !meta.is_dir && req.method@ != "PROPFIND"@ && !is_current(
            req.value_of("if-none-match"@),
            req.value_of("if-modified-since"@),
            etag_text(meta),
            meta.modified,
        ) && (req.value_of("range"@) matches Some(v) ==> !range_applies(
            req.value_of("if-range"@),
            etag_text(meta),
            meta.modified,
        ) || byte_range(v, meta.len) != RangeSpec::Unsatisfiable),
{
    law_trimming(before, depth, behind);
    assert(depth_text(req) == depth);
}

} // verus!
