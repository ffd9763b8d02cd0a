use tiny_webdav::auth::password_matches as pm;
use tiny_webdav::auth::Auth;
use tiny_webdav::http::{parse_head, Context, Request};

#[test]
fn correct_password_matches() {
    assert!(pm(Some(b"s3cret"), b"s3cret"));
}

#[test]
fn wrong_password_rejected() {
    assert!(!pm(Some(b"s3cret"), b"s3crXt")); // same length, wrong byte
    assert!(!pm(Some(b"s3cret"), b"s3cre")); // shorter
    assert!(!pm(Some(b"s3cret"), b"s3cretX")); // longer
}

#[test]
fn unknown_account_rejected_for_any_candidate() {
    assert!(!pm(None, b""));
    assert!(!pm(None, b"anything"));
    assert!(!pm(None, b"\0")); // can't sneak past via the 0-padding
}

#[test]
fn empty_stored_password_only_matches_empty() {
    assert!(pm(Some(b""), b""));
    assert!(!pm(Some(b""), b"x"));
}

const CTX: Context = Context { now: 784111777, keep_alive: false };

fn request(authorization: Option<&str>) -> Request {
    let mut head = "GET / HTTP/1.1\r\n".to_string();
    if let Some(v) = authorization {
        head.push_str("Authorization: ");
        head.push_str(v);
        head.push_str("\r\n");
    }
    head.push_str("\r\n");
    parse_head(&head).unwrap()
}

fn alice() -> Auth {
    let mut auth = Auth::new();
    assert_eq!(auth.add_pair("alice:s3cret"), Ok(()));
    auth
}

#[test]
fn without_credentials_all_is_permitted() {
    let auth = Auth::new();
    assert!(!auth.is_enabled());
    assert!(auth.authorize(&request(None)));
    assert!(auth.authorize(&request(Some("Bearer x"))));
}

#[test]
fn a_valid_credential_is_permitted() {
    let auth = alice();
    assert!(auth.is_enabled());
    assert!(auth.authorize(&request(Some("Basic YWxpY2U6czNjcmV0"))));
    assert!(auth.authorize(&request(Some("bAsIc   YWxpY2U6czNjcmV0 "))));
    assert_eq!(auth.check_credential(&request(Some("Basic YWxpY2U6czNjcmV0"))), Some(true));
}

#[test]
fn a_wrong_credential_is_refused() {
    let auth = alice();
    // alice:wrong, bob:s3cret
    assert_eq!(auth.check_credential(&request(Some("Basic YWxpY2U6d3Jvbmc="))), Some(false));
    assert_eq!(auth.check_credential(&request(Some("Basic Ym9iOnMzY3JldA=="))), Some(false));
    assert!(!auth.authorize(&request(Some("Basic Ym9iOnMzY3JldA=="))));
}

#[test]
fn a_malformed_credential_is_refused() {
    let auth = alice();
    for value in [
        "Basic",
        "Bearer YWxpY2U6czNjcmV0",
        "Basic !!!",
        "Basic YWxpY2U=",
        "Basic /w==",
        "YWxpY2U6czNjcmV0",
    ] {
        assert_eq!(auth.check_credential(&request(Some(value))), None);
        assert!(!auth.authorize(&request(Some(value))));
    }
    assert!(!auth.authorize(&request(None)));
}

#[test]
fn passwords_may_hold_colons() {
    let mut auth = Auth::new();
    assert_eq!(auth.add_pair("a:b:c"), Ok(()));
    assert!(auth.authorize(&request(Some("Basic YTpiOmM=")))); // a:b:c
    assert!(!auth.authorize(&request(Some("Basic YTpi")))); // a:b
}

#[test]
fn a_pair_needs_a_user_name_and_a_colon() {
    let mut auth = Auth::new();
    assert_eq!(auth.add_pair("alice"), Err("expected 'username:password'"));
    assert_eq!(auth.add_pair(":secret"), Err("expected 'username:password'"));
    assert_eq!(auth.add_pair(""), Err("expected 'username:password'"));
    assert!(!auth.is_enabled());
    assert_eq!(auth.add_pair("alice:"), Ok(()));
    assert!(auth.is_enabled());
}

#[test]
fn a_later_pair_replaces_the_password() {
    let mut auth = alice();
    assert_eq!(auth.add_pair("alice:new"), Ok(()));
    assert!(!auth.authorize(&request(Some("Basic YWxpY2U6czNjcmV0"))));
    assert!(auth.authorize(&request(Some("Basic YWxpY2U6bmV3"))));
}

#[test]
fn credential_files_are_loaded() {
    let mut auth = Auth::new();
    let text = "# users\r\n\n  alice:s3cret  \r\n   # more\nbob:x:y\n";
    assert_eq!(auth.load(text, "users.txt"), Ok(()));
    assert!(auth.authorize(&request(Some("Basic YWxpY2U6czNjcmV0"))));
    assert!(auth.authorize(&request(Some("Basic Ym9iOng6eQ==")))); // bob:x:y
}

#[test]
fn a_bad_line_is_named() {
    let mut auth = Auth::new();
    let r = auth.load("alice:s3cret\n\nnonsense\nbob:x", "users.txt");
    assert_eq!(r, Err("users.txt:3: expected 'username:password'".to_string()));
    assert!(auth.authorize(&request(Some("Basic YWxpY2U6czNjcmV0"))));
    assert!(!auth.authorize(&request(Some("Basic Ym9iOng=")))); // bob:x
}

#[test]
fn the_challenge_asks_for_basic_credentials() {
    let reply = String::from_utf8(Auth::new().challenge(&CTX)).unwrap();
    assert_eq!(
        reply,
        "HTTP/1.1 401 Unauthorized\r\nContent-Length: 17\r\n\
         Content-Type: text/plain; charset=utf-8\r\n\
         WWW-Authenticate: Basic realm=\"webdav\", charset=\"UTF-8\"\r\n\
         Date: Sun, 06 Nov 1994 08:49:37 GMT\r\nServer: tiny-webdav\r\n\
         Connection: close\r\n\r\n401 Unauthorized\n"
    );
}
