use std::path::Path;

use tiny_webdav::auth::Auth;
use tiny_webdav::conditional::{
    date_covers, etag_for, etag_list_matches, if_range_matches, not_modified, validator_headers,
    Meta,
};
use tiny_webdav::dav::{
    decoded_path, handle, needs_entries, needs_file, wanted_path, Facts, FileError, Reply, Span,
};
use tiny_webdav::escape::percent_encode_path;
use tiny_webdav::http::{parse_head, Context, Request};
use tiny_webdav::listing::{
    INDEX_END, INDEX_HEADING, INDEX_START, INDEX_STYLE, INDEX_TABLE, PARENT_ROW, SORT_SCRIPT,
};
use tiny_webdav::path::{
    extension_of, file_name_of, is_filesystem_root, path_starts_with, push_component,
    resolve_within, with_trailing_slash,
};
use tiny_webdav::range::{parse_byte_range, RangeSpec};
use tiny_webdav::safe::{within_root, Entry, Probe, SafePath, Served};

const CTX: Context = Context { now: 0, keep_alive: true };
const TAIL: &str = "Date: Thu, 01 Jan 1970 00:00:00 GMT\r\nServer: tiny-webdav\r\n\
                    Connection: keep-alive\r\n\r\n";
const FILE: Meta = Meta { is_dir: false, len: 31, modified: Some(0x65a3b2c0) };
const DIR: Meta = Meta { is_dir: true, len: 4096, modified: Some(784111777) };
const ETAG: &str = "\"1f-65a3b2c0\"";
const DATE: &str = "Sun, 14 Jan 2024 10:09:04 GMT";

fn probe(meta: Meta, real: &str) -> Probe {
    Probe { meta: Some(meta), resolved: Some(real.as_bytes().to_vec()), readable: true }
}

fn missing() -> Probe {
    Probe { meta: None, resolved: None, readable: false }
}

fn entry(name: &str, meta: Meta) -> Entry {
    Entry {
        name: name.as_bytes().to_vec(),
        maybe_symlink: false,
        probe: Probe { meta: Some(meta), resolved: None, readable: true },
    }
}

fn served(exposes: &[String]) -> Served<'_> {
    Served::new(b"/srv", &probe(DIR, "/srv"), exposes).unwrap()
}

fn request(method: &str, path: &str, headers: &[&str]) -> Request {
    let mut head = format!("{} {} HTTP/1.1\r\n", method, path);
    for h in headers {
        head.push_str(h);
        head.push_str("\r\n");
    }
    head.push_str("\r\n");
    parse_head(&head).unwrap()
}

fn facts(probe: Probe) -> Facts {
    Facts { probe, entries: Vec::new(), opened: Ok(()) }
}

fn answer(req: &Request, facts: &Facts) -> Reply {
    handle(&CTX, &served(&[]), &Auth::new(), req, facts)
}

fn text(reply: &Reply) -> String {
    String::from_utf8(reply.bytes.clone()).unwrap()
}

fn get(path: &str, headers: &[&str]) -> Reply {
    answer(&request("GET", path, headers), &facts(probe(FILE, "/srv/a.txt")))
}

fn range(start: u64, end: u64) -> RangeSpec {
    RangeSpec::Satisfiable { start, end }
}

// Ranges

#[test]
fn ranges_have_three_forms() {
    assert_eq!(parse_byte_range("bytes=0-4", 10), range(0, 4));
    assert_eq!(parse_byte_range("bytes=3-", 10), range(3, 9));
    assert_eq!(parse_byte_range("bytes=-3", 10), range(7, 9));
    assert_eq!(parse_byte_range(" bytes= 2 - 5 ", 10), range(2, 5));
}

#[test]
fn ranges_are_cut_at_the_end() {
    assert_eq!(parse_byte_range("bytes=5-99", 10), range(5, 9));
    assert_eq!(parse_byte_range("bytes=-99", 10), range(0, 9));
    assert_eq!(parse_byte_range("bytes=9-9", 10), range(9, 9));
}

#[test]
fn some_ranges_cannot_be_satisfied() {
    assert_eq!(parse_byte_range("bytes=10-", 10), RangeSpec::Unsatisfiable);
    assert_eq!(parse_byte_range("bytes=5-4", 10), RangeSpec::Unsatisfiable);
    assert_eq!(parse_byte_range("bytes=-0", 10), RangeSpec::Unsatisfiable);
    assert_eq!(parse_byte_range("bytes=0-", 0), RangeSpec::Unsatisfiable);
    assert_eq!(parse_byte_range("bytes=-5", 0), RangeSpec::Unsatisfiable);
    assert_eq!(parse_byte_range("bytes=0-4", 0), RangeSpec::Unsatisfiable);
}

#[test]
fn other_ranges_are_ignored() {
    for value in ["items=0-4", "bytes=0-1,3-4", "bytes=4", "bytes=x-4", "bytes=1-x", "bytes=-", ""] {
        assert_eq!(parse_byte_range(value, 10), RangeSpec::Ignore);
    }
    assert_eq!(parse_byte_range("bytes=18446744073709551616-", 10), RangeSpec::Ignore);
    assert_eq!(parse_byte_range("bytes=x-y", 0), RangeSpec::Ignore);
    assert_eq!(parse_byte_range("bytes=99-x", 10), RangeSpec::Ignore);
}

// Validators

#[test]
fn entity_tags_hold_size_and_time() {
    assert_eq!(etag_for(&FILE), Some(ETAG.to_string()));
    assert_eq!(etag_for(&Meta { modified: None, ..FILE }), None);
    assert_eq!(etag_for(&Meta { modified: Some(-1), ..FILE }), None);
    assert_ne!(etag_for(&Meta { len: 32, ..FILE }), etag_for(&FILE));
}

#[test]
fn validators_are_headers() {
    assert_eq!(
        validator_headers(Some("\"x\""), Some(0x65a3b2c0)),
        vec![("Last-Modified", DATE.to_string()), ("ETag", "\"x\"".to_string())]
    );
    assert_eq!(validator_headers(None, None), vec![]);
}

#[test]
fn entity_tag_lists_match() {
    assert!(etag_list_matches(ETAG, ETAG));
    assert!(etag_list_matches(" * ", ETAG));
    assert!(etag_list_matches("\"x\" , W/\"1f-65a3b2c0\"", ETAG));
    assert!(etag_list_matches("W/W/\"1f-65a3b2c0\"", ETAG));
    assert!(!etag_list_matches("\"x\", *", ETAG));
    assert!(!etag_list_matches("", ETAG));
}

#[test]
fn dates_cover_what_is_not_newer() {
    assert!(date_covers(DATE, 0x65a3b2c0));
    assert!(date_covers(DATE, 0));
    assert!(!date_covers(DATE, 0x65a3b2c1));
    assert!(!date_covers(DATE, -1));
    assert!(!date_covers("yesterday", 0));
}

#[test]
fn an_entity_tag_takes_precedence_over_a_date() {
    let both = request(
        "GET",
        "/a",
        &["If-None-Match: \"other\"", "If-Modified-Since: Sun, 14 Jan 2024 10:09:04 GMT"],
    );
    assert!(!not_modified(&both, Some(ETAG), FILE.modified));
    let date = request("GET", "/a", &["If-Modified-Since: Sun, 14 Jan 2024 10:09:04 GMT"]);
    assert!(not_modified(&date, Some(ETAG), FILE.modified));
    assert!(!not_modified(&date, Some(ETAG), None));
    assert!(!not_modified(&request("GET", "/a", &[]), Some(ETAG), FILE.modified));
}

#[test]
fn if_range_guards_a_range() {
    let m = FILE.modified;
    assert!(if_range_matches(&request("GET", "/a", &[]), None, None));
    let tag = request("GET", "/a", &["If-Range: \"1f-65a3b2c0\""]);
    assert!(if_range_matches(&tag, Some(ETAG), m));
    assert!(!if_range_matches(&tag, Some("\"x\""), m));
    assert!(!if_range_matches(&tag, None, m));
    let date = request("GET", "/a", &["If-Range: Sun, 14 Jan 2024 10:09:04 GMT"]);
    assert!(if_range_matches(&date, Some(ETAG), m));
    assert!(!if_range_matches(&date, Some(ETAG), Some(0x65a3b2c1)));
    let weak = request("GET", "/a", &["If-Range: W/\"1f-65a3b2c0\""]);
    assert!(!if_range_matches(&weak, Some(ETAG), m));
}

// Paths

#[test]
fn request_paths_resolve_below_the_root() {
    assert_eq!(resolve_within(b"/srv", "/a/b"), Some(b"/srv/a/b".to_vec()));
    assert_eq!(resolve_within(b"/srv", "//a/./b/"), Some(b"/srv/a/b".to_vec()));
    assert_eq!(resolve_within(b"/", "/a"), Some(b"/a".to_vec()));
    assert_eq!(resolve_within(b"/srv", "/"), Some(b"/srv".to_vec()));
    assert_eq!(resolve_within(b"/srv", "/a/../b"), None);
    assert_eq!(resolve_within(b"/srv", ".."), None);
    assert_eq!(resolve_within(b"/srv", "/..a/b.."), Some(b"/srv/..a/b..".to_vec()));
}

#[test]
fn paths_are_compared_by_components() {
    assert!(path_starts_with(b"/srv/a", b"/srv"));
    assert!(path_starts_with(b"/srv", b"/srv/"));
    assert!(!path_starts_with(b"/srvx", b"/srv"));
    assert!(!path_starts_with(b"/", b"/srv"));
    assert_eq!(file_name_of(b"/srv/a/"), Some(b"a".to_vec()));
    assert_eq!(file_name_of(b"/srv/.."), None);
    assert_eq!(file_name_of(b"/"), None);
    assert_eq!(with_trailing_slash("/a"), "/a/");
    assert_eq!(with_trailing_slash("/a/"), "/a/");
    assert_eq!(with_trailing_slash(""), "/");
}

#[test]
fn links_must_not_lead_out_of_the_root() {
    assert!(within_root(b"/srv", &Some(b"/srv/a".to_vec())));
    assert!(!within_root(b"/srv", &Some(b"/etc/passwd".to_vec())));
    assert!(!within_root(b"/srv", &None));
    assert!(within_root(b"/", &None));
}

#[test]
fn the_root_must_be_a_readable_directory() {
    assert!(Served::new(b"/srv", &probe(DIR, "/srv"), &[]).is_some());
    assert!(Served::new(b"/srv", &probe(FILE, "/srv"), &[]).is_none());
    assert!(Served::new(b"/srv", &missing(), &[]).is_none());
    let mut unreadable = probe(DIR, "/srv");
    unreadable.readable = false;
    assert!(Served::new(b"/srv", &unreadable, &[]).is_none());
}

#[test]
fn paths_are_accepted() {
    let s = served(&[]);
    let p = SafePath::accept(&s, "/a.txt", &probe(FILE, "/srv/a.txt")).unwrap();
    assert_eq!(p.path(), b"/srv/a.txt");
    assert_eq!(p.meta().len, 31);
    assert_eq!(p.name(), "a.txt");
    assert!(!p.is_dir());
    let root = SafePath::root(b"/", &probe(DIR, "/")).unwrap();
    assert_eq!(root.name(), "/");
    assert!(root.is_dir());
}

#[test]
fn paths_are_refused() {
    let s = served(&[]);
    let ok = probe(FILE, "/srv/a.txt");
    assert!(SafePath::accept(&s, "/../a.txt", &ok).is_none());
    assert!(SafePath::accept(&s, "/.git/config", &ok).is_none());
    assert!(SafePath::accept(&s, "/a.txt", &missing()).is_none());
    assert!(SafePath::accept(&s, "/a.txt", &probe(FILE, "/etc/passwd")).is_none());
    let mut unreadable = probe(FILE, "/srv/a.txt");
    unreadable.readable = false;
    assert!(SafePath::accept(&s, "/a.txt", &unreadable).is_none());
    let expose = [".git".to_string()];
    assert!(SafePath::accept(&served(&expose), "/.git/config", &ok).is_some());
}

#[test]
fn children_are_judged_by_their_leaf() {
    let s = served(&[]);
    let dir = SafePath::accept(&s, "/d", &probe(DIR, "/srv/d")).unwrap();
    let mut link = entry("link", FILE);
    link.maybe_symlink = true;
    link.probe.resolved = Some(b"/etc/passwd".to_vec());
    let mut good = entry("good", FILE);
    good.maybe_symlink = true;
    good.probe.resolved = Some(b"/srv/x".to_vec());
    let mut unreadable = entry("unreadable", FILE);
    unreadable.probe.readable = false;
    let mut gone = entry("gone", FILE);
    gone.probe.meta = None;
    let entries =
        [entry(".git", DIR), link, entry("b.txt", FILE), unreadable, gone, good, entry("a", DIR)];
    let paths: Vec<Vec<u8>> =
        dir.children(&s, &entries).iter().map(|c| c.path().to_vec()).collect();
    assert_eq!(paths, [&b"/srv/d/b.txt"[..], b"/srv/d/good", b"/srv/d/a"]);
    assert!(s.hides(b"@eaDir"));
    assert!(!s.hides(b"eaDir"));
    assert!(s.must_resolve(true));
    assert!(!s.must_resolve(false));
    let root = Served::new(b"/", &probe(DIR, "/"), &[]).unwrap();
    assert!(!root.must_resolve(true));
}

#[test]
fn what_is_listed_is_served() {
    let s = served(&[]);
    let dir = SafePath::accept(&s, "/d", &probe(DIR, "/srv/d")).unwrap();
    for name in ["a b", "ü", "x?y#z", "100%", ".hidden"] {
        let mut e = entry(name, FILE);
        e.probe.resolved = Some(b"/srv/d/x".to_vec());
        let path = format!("{}{}", with_trailing_slash("/d"), name);
        let direct = SafePath::accept(&s, &path, &e.probe);
        let listed = dir.accept_child(&s, &e);
        assert_eq!(listed.is_some(), direct.is_some());
        if let (Some(a), Some(b)) = (listed, direct) {
            assert_eq!(a.path(), b.path());
            assert_eq!(a.name(), name);
        }
    }
}

#[test]
fn names_that_are_not_utf8_are_shown_with_replacements() {
    let s = served(&[]);
    let dir = SafePath::root(b"/srv", &probe(DIR, "/srv")).unwrap();
    let mut e = entry("", FILE);
    e.name = b"a\xff".to_vec();
    let c = dir.accept_child(&s, &e).unwrap();
    assert_eq!(c.path(), b"/srv/a\xff");
    assert_eq!(c.name(), "a\u{fffd}");
}

// Answers

#[test]
fn a_file_is_served_whole() {
    let r = get("/a.txt", &[]);
    assert_eq!(r.status, 200);
    assert_eq!(r.file, Some(Span { start: 0, count: 31 }));
    assert_eq!(
        text(&r),
        format!(
            "HTTP/1.1 200 OK\r\nContent-Length: 31\r\nContent-Type: text/plain; charset=utf-8\r\n\
             Last-Modified: {}\r\nETag: {}\r\nAccept-Ranges: bytes\r\n{}",
            DATE, ETAG, TAIL
        )
    );
}

#[test]
fn head_is_get_without_the_body() {
    let f = facts(probe(FILE, "/srv/a.txt"));
    let g = answer(&request("GET", "/a.txt", &[]), &f);
    let h = answer(&request("HEAD", "/a.txt", &[]), &f);
    assert_eq!(h.status, g.status);
    assert_eq!(h.bytes, g.bytes);
    assert_eq!(h.file, None);
    let d = facts(probe(DIR, "/srv/d"));
    let g = answer(&request("GET", "/d", &[]), &d);
    let h = answer(&request("HEAD", "/d", &[]), &d);
    assert!(g.bytes.starts_with(&h.bytes));
    assert!(h.bytes.ends_with(b"\r\n\r\n"));
}

#[test]
fn a_range_is_served_in_part() {
    let r = get("/a.txt", &["Range: bytes=10-19"]);
    assert_eq!(r.status, 206);
    assert_eq!(r.file, Some(Span { start: 10, count: 10 }));
    assert!(text(&r).contains("\r\nContent-Range: bytes 10-19/31\r\n"));
    assert!(text(&r).starts_with("HTTP/1.1 206 Partial Content\r\nContent-Length: 10\r\n"));
}

#[test]
fn a_range_of_another_version_is_not_spliced() {
    let r = get("/a.txt", &["Range: bytes=10-19", "If-Range: \"old\""]);
    assert_eq!(r.status, 200);
    assert_eq!(r.file, Some(Span { start: 0, count: 31 }));
}

#[test]
fn a_range_outside_the_file_is_refused() {
    let r = get("/a.txt", &["Range: bytes=31-"]);
    assert_eq!(r.status, 416);
    assert_eq!(r.file, None);
    assert_eq!(
        text(&r),
        format!(
            "HTTP/1.1 416 Range Not Satisfiable\r\nContent-Length: 26\r\n\
             Content-Type: text/plain; charset=utf-8\r\nContent-Range: bytes */31\r\n{}\
             416 Range Not Satisfiable\n",
            TAIL
        )
    );
}

#[test]
fn a_current_copy_is_not_sent_again() {
    let header = format!("If-None-Match: {}", ETAG);
    let r = get("/a.txt", &[&header, "Range: bytes=0-1"]);
    assert_eq!(r.status, 304);
    assert_eq!(r.file, None);
    assert_eq!(
        text(&r),
        format!(
            "HTTP/1.1 304 Not Modified\r\nContent-Length: 0\r\nLast-Modified: {}\r\nETag: {}\r\n{}",
            DATE, ETAG, TAIL
        )
    );
}

#[test]
fn a_file_that_cannot_be_opened_is_an_error() {
    let mut f = facts(probe(FILE, "/srv/a.txt"));
    for (e, status) in [
        (FileError::NotFound, 404),
        (FileError::PermissionDenied, 404),
        (FileError::InvalidInput, 404),
        (FileError::Other, 500),
    ] {
        f.opened = Err(e);
        let r = answer(&request("GET", "/a.txt", &[]), &f);
        assert_eq!(r.status, status);
        assert_eq!(r.file, None);
    }
}

#[test]
fn options_tells_what_is_allowed() {
    let r = answer(&request("OPTIONS", "*", &[]), &facts(missing()));
    assert_eq!(r.status, 200);
    assert_eq!(
        text(&r),
        format!(
            "HTTP/1.1 200 OK\r\nContent-Length: 0\r\nDAV: 1\r\n\
             Allow: OPTIONS, GET, HEAD, PROPFIND\r\n{}",
            TAIL
        )
    );
}

#[test]
fn other_methods_are_not_allowed() {
    for method in ["PUT", "DELETE", "MKCOL", "COPY", "MOVE", "PROPPATCH", "LOCK", "get"] {
        let r = answer(&request(method, "/a.txt", &[]), &facts(probe(FILE, "/srv/a.txt")));
        assert_eq!(r.status, 405);
        assert!(text(&r).contains("\r\nAllow: OPTIONS, GET, HEAD, PROPFIND\r\n"));
        assert!(text(&r).ends_with("\r\n\r\n405 Method Not Allowed\n"));
    }
}

#[test]
fn refusals_are_alike() {
    let ok = || facts(probe(FILE, "/srv/a.txt"));
    let a = answer(&request("GET", "/missing", &[]), &facts(missing()));
    let b = answer(&request("GET", "/%2e%2e/a.txt", &[]), &ok());
    let c = answer(&request("PROPFIND", "/.git/config", &[]), &ok());
    let d = answer(&request("GET", "/link", &[]), &facts(probe(FILE, "/etc/passwd")));
    assert_eq!(a.status, 404);
    assert_eq!(a.bytes, b.bytes);
    assert_eq!(a.bytes, c.bytes);
    assert_eq!(a.bytes, d.bytes);
}

#[test]
fn head_is_refused_with_the_same_bytes_where_the_connection_closes() {
    let last = Context { now: 0, keep_alive: false };
    let s = served(&[]);
    let auth = Auth::new();
    let g = handle(&last, &s, &auth, &request("GET", "/missing", &[]), &facts(missing()));
    let h = handle(&last, &s, &auth, &request("HEAD", "/missing", &[]), &facts(missing()));
    let link = facts(probe(FILE, "/etc/passwd"));
    let k = handle(&last, &s, &auth, &request("HEAD", "/link", &[]), &link);
    assert_eq!(h.status, 404);
    assert_eq!(h.bytes, g.bytes);
    assert_eq!(h.bytes, k.bytes);
    assert!(text(&h).ends_with("\r\nConnection: close\r\n\r\n404 Not Found\n"));
}

#[test]
fn head_is_answered_with_a_head_alone_where_the_connection_is_kept() {
    let mut auth = Auth::new();
    assert!(auth.add_pair("alice:s3cret").is_ok());
    let s = served(&[]);
    let file = facts(probe(FILE, "/srv/a.txt"));
    let mut broken = facts(probe(FILE, "/srv/a.txt"));
    broken.opened = Err(FileError::Other);
    let none = Auth::new();
    for (auth, f, path, headers, status) in [
        (&auth, &file, "/a.txt", &[][..], 401),
        (&none, &file, "/.a", &[], 404),
        (&none, &file, "/a.txt", &["Range: bytes=99-"], 416),
        (&none, &broken, "/a.txt", &[], 500),
        (&none, &file, "/a.txt", &[], 200),
        (&none, &file, "/a.txt", &["Range: bytes=0-1"], 206),
        (&none, &file, "/a.txt", &["If-None-Match: *"], 304),
    ] {
        let h = handle(&CTX, &s, auth, &request("HEAD", path, headers), f);
        let g = handle(&CTX, &s, auth, &request("GET", path, headers), f);
        assert_eq!((h.status, g.status), (status, status));
        assert!(h.bytes.ends_with(b"\r\nConnection: keep-alive\r\n\r\n"));
        assert!(g.bytes.starts_with(&h.bytes));
        assert_eq!(h.file, None);
    }
}

#[test]
fn authentication_comes_first() {
    let mut auth = Auth::new();
    assert!(auth.add_pair("alice:s3cret").is_ok());
    let s = served(&[]);
    for method in ["GET", "PUT", "OPTIONS"] {
        let r = handle(&CTX, &s, &auth, &request(method, "/a.txt", &[]), &facts(missing()));
        assert_eq!(r.status, 401);
        assert!(text(&r).contains("\r\nWWW-Authenticate: Basic realm=\"webdav\""));
    }
    let ok = request("GET", "/a.txt", &["Authorization: Basic YWxpY2U6czNjcmV0"]);
    let r = handle(&CTX, &s, &auth, &ok, &facts(probe(FILE, "/srv/a.txt")));
    assert_eq!(r.status, 200);
    assert!(wanted_path(&s, &auth, &request("GET", "/a.txt", &[])).is_none());
    assert_eq!(wanted_path(&s, &auth, &ok), Some(b"/srv/a.txt".to_vec()));
}

#[test]
fn only_needed_facts_are_asked_for() {
    let s = served(&[]);
    let auth = Auth::new();
    assert_eq!(wanted_path(&s, &auth, &request("OPTIONS", "/a", &[])), None);
    assert_eq!(wanted_path(&s, &auth, &request("PUT", "/a", &[])), None);
    assert_eq!(wanted_path(&s, &auth, &request("GET", "/.a", &[])), None);
    let file = SafePath::accept(&s, "/a", &probe(FILE, "/srv/a")).unwrap();
    let dir = SafePath::accept(&s, "/d", &probe(DIR, "/srv/d")).unwrap();
    assert!(needs_file(&request("GET", "/a", &[]), &file));
    assert!(!needs_file(&request("GET", "/a", &["If-None-Match: *"]), &file));
    assert!(!needs_file(&request("GET", "/a", &["Range: bytes=31-"]), &file));
    assert!(!needs_file(&request("PROPFIND", "/a", &[]), &file));
    assert!(!needs_file(&request("GET", "/d", &[]), &dir));
    assert!(needs_entries(&request("GET", "/d", &[]), &dir));
    assert!(needs_entries(&request("PROPFIND", "/d", &[]), &dir));
    assert!(!needs_entries(&request("PROPFIND", "/d", &["Depth: 0"]), &dir));
    assert!(!needs_entries(&request("PROPFIND", "/d", &["Depth: Infinity"]), &dir));
    assert!(!needs_entries(&request("GET", "/a", &[]), &file));
    assert_eq!(decoded_path(&request("GET", "/a%20b?c", &[])), "/a b");
}

#[test]
fn a_directory_has_an_index() {
    let mut f = facts(probe(DIR, "/srv/a & b"));
    let old = Meta { is_dir: false, len: 1536, modified: None };
    f.entries = vec![entry("x<y>.txt", old), entry("sub dir", DIR), entry(".git", DIR)];
    let r = answer(&request("GET", "/a%20&%20b", &[]), &f);
    let html = [
        INDEX_START,
        "/a &amp; b",
        INDEX_STYLE,
        SORT_SCRIPT,
        INDEX_HEADING,
        "/a &amp; b",
        INDEX_TABLE,
        PARENT_ROW,
        "<tr><th scope=\"row\"><a href=\"/a%20%26%20b/x%3cy%3e.txt\">x&lt;y&gt;.txt</a></th>\
         <td>-</td><td>1.5K</td></tr>",
        "<tr><th scope=\"row\"><a href=\"/a%20%26%20b/sub%20dir/\">sub dir/</a></th>\
         <td>1994-11-06 08:49:37</td><td>-</td></tr>",
        INDEX_END,
    ]
    .concat();
    let head = format!(
        "HTTP/1.1 200 OK\r\nContent-Length: {}\r\nContent-Type: text/html; charset=utf-8\r\n{}",
        html.len(),
        TAIL
    );
    assert_eq!(r.status, 200);
    assert_eq!(text(&r), head + &html);
}

#[test]
fn the_parts_of_an_index_are_as_sent() {
    assert_eq!(
        INDEX_START,
        "<!DOCTYPE html>\n<html lang=\"en\"><head><meta charset=\"utf-8\">\
         <meta name=\"viewport\" content=\"width=device-width, initial-scale=1\">\
         <title translate=\"no\">Index of "
    );
    assert_eq!(
        INDEX_TABLE,
        "</span></h1><table aria-labelledby=\"t\"><thead><tr><th scope=\"col\">Name</th>\
         <th scope=\"col\">Last modified (UTC)</th>\
         <th scope=\"col\">Size</th></tr></thead><tbody translate=\"no\">"
    );
    assert_eq!(
        PARENT_ROW,
        "<tr><th scope=\"row\"><a href=\"../\" aria-label=\"Parent directory\">../</a></th>\
         <td></td><td></td></tr>"
    );
}

#[test]
fn the_root_has_no_parent_row() {
    let f = facts(probe(DIR, "/srv"));
    let r = answer(&request("GET", "/", &[]), &f);
    assert!(!text(&r).contains(PARENT_ROW));
    assert!(text(&r).contains("<h1 id=\"t\">Index of <span translate=\"no\">/</span></h1>"));
}

const FILE_XML: &str = "  <D:response>\n    <D:href>/d/a%20b.mp3</D:href>\n    <D:propstat>\n      \
    <D:prop>\n        <D:displayname>a b.mp3</D:displayname>\n        \
    <D:getlastmodified>Sun, 14 Jan 2024 10:09:04 GMT</D:getlastmodified>\n        \
    <D:resourcetype/>\n        <D:getcontentlength>31</D:getcontentlength>\n        \
    <D:getcontenttype>audio/mpeg</D:getcontenttype>\n        \
    <D:getetag>\"1f-65a3b2c0\"</D:getetag>\n      </D:prop>\n      \
    <D:status>HTTP/1.1 200 OK</D:status>\n    </D:propstat>\n  </D:response>\n";
const DIR_XML: &str = "  <D:response>\n    <D:href>/d/</D:href>\n    <D:propstat>\n      \
    <D:prop>\n        <D:displayname>d</D:displayname>\n        \
    <D:getlastmodified>Sun, 06 Nov 1994 08:49:37 GMT</D:getlastmodified>\n        \
    <D:resourcetype><D:collection/></D:resourcetype>\n      </D:prop>\n      \
    <D:status>HTTP/1.1 200 OK</D:status>\n    </D:propstat>\n  </D:response>\n";

fn multistatus(parts: &[&str]) -> String {
    format!(
        "<?xml version=\"1.0\" encoding=\"utf-8\"?>\n<D:multistatus xmlns:D=\"DAV:\">\n{}\
         </D:multistatus>\n",
        parts.concat()
    )
}

#[test]
fn propfind_describes_a_collection_and_its_entries() {
    let mut f = facts(probe(DIR, "/srv/d"));
    f.entries = vec![entry("a b.mp3", FILE), entry("$x", FILE)];
    for headers in [&[][..], &["Depth: 1"], &["Depth: 2"]] {
        let r = answer(&request("PROPFIND", "/d", headers), &f);
        let xml = multistatus(&[DIR_XML, FILE_XML]);
        assert_eq!(r.status, 207);
        assert_eq!(
            text(&r),
            format!(
                "HTTP/1.1 207 Multi-Status\r\nContent-Length: {}\r\n\
                 Content-Type: application/xml; charset=utf-8\r\n{}{}",
                xml.len(),
                TAIL,
                xml
            )
        );
    }
}

#[test]
fn propfind_of_depth_0_describes_the_resource_alone() {
    let mut f = facts(probe(DIR, "/srv/d"));
    f.entries = vec![entry("a b.mp3", FILE)];
    let r = answer(&request("PROPFIND", "/d/", &["Depth:  0 "]), &f);
    assert!(text(&r).ends_with(&multistatus(&[DIR_XML])));
    let r = answer(&request("PROPFIND", "/d/a%20b.mp3", &[]), &facts(probe(FILE, "/srv/d/x")));
    assert!(text(&r).ends_with(&multistatus(&[FILE_XML])));
}

#[test]
fn propfind_without_times_gives_the_epoch() {
    let meta = Meta { is_dir: false, len: 0, modified: None };
    let r = answer(&request("PROPFIND", "/x", &[]), &facts(probe(meta, "/srv/x")));
    assert!(text(&r).contains("<D:getlastmodified>Thu, 01 Jan 1970 00:00:00 GMT</"));
    assert!(!text(&r).contains("getetag"));
}

#[test]
fn propfind_of_infinite_depth_is_refused() {
    let r = answer(&request("PROPFIND", "/d", &["Depth: Infinity"]), &facts(probe(DIR, "/srv/d")));
    assert_eq!(r.status, 403);
    assert!(text(&r).ends_with(
        "\r\n\r\n<?xml version=\"1.0\" encoding=\"utf-8\"?>\n\
         <D:error xmlns:D=\"DAV:\"><D:propfind-finite-depth/></D:error>\n"
    ));
}

#[test]
fn answers_are_framed() {
    let mut dir = facts(probe(DIR, "/srv/d"));
    dir.entries = vec![entry("a", FILE), entry("b", DIR)];
    let file = facts(probe(FILE, "/srv/a.txt"));
    let range = request("GET", "/a.txt", &["Range: bytes=-7"]);
    for (req, f) in [
        (request("GET", "/a.txt", &[]), &file),
        (range, &file),
        (request("GET", "/a.txt", &["Range: bytes=99-"]), &file),
        (request("GET", "/a.txt", &["If-None-Match: *"]), &file),
        (request("GET", "/.a", &[]), &file),
        (request("PUT", "/a.txt", &[]), &file),
        (request("OPTIONS", "/", &[]), &file),
        (request("GET", "/d", &[]), &dir),
        (request("PROPFIND", "/d", &[]), &dir),
        (request("PROPFIND", "/d", &["Depth: infinity"]), &dir),
    ] {
        let r = answer(&req, f);
        let all = text(&r);
        let (head, body) = all.split_once("\r\n\r\n").unwrap();
        let line = head.lines().find(|l| l.starts_with("Content-Length: ")).unwrap();
        let announced: u64 = line["Content-Length: ".len()..].parse().unwrap();
        let sent = r.file.map(|s| s.count).unwrap_or(0);
        assert_eq!(announced, body.len() as u64 + sent);
    }
}

#[test]
fn links_lead_back() {
    for path in ["/", "/a b/ü", "/100%/x?y#z", "/d/\"<>&'", "/日本/"] {
        let link = percent_encode_path(path);
        assert_eq!(decoded_path(&request("GET", &link, &[])), path);
    }
}

#[test]
fn components_are_those_of_std() {
    let paths = [
        "", "/", "//", ".", "..", "./", "./a", "a", "a/", "a/.", "a/..", "/a", "/a/", "/a/b",
        "//a//b/", "/a/./b", "a/./b", "../a", "/..", ".a", "/a.b.c", "/.b", "/a/..b", "...", "a/b.",
    ];
    for a in paths {
        let p = Path::new(a);
        let name = p.file_name().and_then(|n| n.to_str()).map(|n| n.as_bytes().to_vec());
        assert_eq!(file_name_of(a.as_bytes()), name);
        let extension = p.extension().and_then(|e| e.to_str()).unwrap_or("");
        assert_eq!(extension_of(a.as_bytes()), extension);
        assert_eq!(is_filesystem_root(a.as_bytes()), p == Path::new("/"));
        for b in paths {
            let below = p.starts_with(Path::new(b));
            assert_eq!(path_starts_with(a.as_bytes(), b.as_bytes()), below);
        }
        for name in ["x", "x.y", ".x"] {
            let mut joined = a.as_bytes().to_vec();
            push_component(&mut joined, name.as_bytes());
            assert_eq!(joined, p.join(name).to_str().unwrap().as_bytes());
        }
    }
}
