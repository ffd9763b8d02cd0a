use tiny_webdav::args::{parse_args, Args, ArgsError};
use tiny_webdav::auth::Auth;
use tiny_webdav::connection::{Connection, Delivery};
use tiny_webdav::http::{parse_head, Request};
use tiny_webdav::listener::{ListenAction, ListenEvent, Listener};
use tiny_webdav::log::{log_line, log_request, stands_bare};
use tiny_webdav::privileges::{
    account_to_look_up, check_identity, hardening_steps, lowering_steps, served_root, uid_to_hold,
    Account, Action, IdentityError,
};
use tiny_webdav::setup::{build_auth, unauthenticated_warning};
use tiny_webdav::socket::{clearing, socket_umask, Clearing, Occupant};
use tiny_webdav::transfer::{SendAction, SendEvent, Transfer};

fn args(list: &[&str]) -> Result<Args, ArgsError> {
    let list: Vec<String> = list.iter().map(|s| s.to_string()).collect();
    parse_args(&list)
}

fn request(head: &str) -> Request {
    parse_head(head).unwrap()
}

// The command line

#[test]
fn options_have_defaults() {
    let a = args(&[]).ok().unwrap();
    assert_eq!(a.root, ".");
    assert_eq!(a.timeout, 30);
    assert_eq!(a.max_requests, 100);
    assert_eq!(a.max_connections, 64);
    assert_eq!(a.socket_mode, 0o660);
    assert!(!a.verbose);
    assert!(a.auth_file.is_none() && a.log_file.is_none() && a.run_as.is_none());
    assert!(a.listen.is_none() && a.socket_owner.is_none());
    assert!(a.auth.is_empty() && a.exposes.is_empty());
}

#[test]
fn options_are_set() {
    let a = args(&[
        "--root", "/srv", "--listen", "/run/s", "--socket-mode", "0o600", "--socket-owner", "c",
        "--max-connections", "5", "-v", "--expose", ".a", "--expose", "*", "--auth-file", "u",
        "--auth", "a:b", "--auth", "c:d", "--log-file", "l", "--run-as", "www", "--timeout", "0",
        "--max-requests", "7",
    ])
    .ok()
    .unwrap();
    assert_eq!(a.root, "/srv");
    assert_eq!(a.listen.as_deref(), Some("/run/s"));
    assert_eq!(a.socket_mode, 0o600);
    assert_eq!(a.socket_owner.as_deref(), Some("c"));
    assert_eq!(a.max_connections, 5);
    assert!(a.verbose);
    assert_eq!(a.exposes, [".a", "*"]);
    assert_eq!(a.auth_file.as_deref(), Some("u"));
    assert_eq!(a.auth, ["a:b", "c:d"]);
    assert_eq!(a.log_file.as_deref(), Some("l"));
    assert_eq!(a.run_as.as_deref(), Some("www"));
    assert_eq!(a.timeout, 0);
    assert_eq!(a.max_requests, 7);
}

#[test]
fn a_later_value_takes_the_place_of_an_earlier_one() {
    let a = args(&["--root", "a", "--verbose", "--root", "--root"]).ok().unwrap();
    assert_eq!(a.root, "--root");
    assert!(a.verbose);
    assert_eq!(args(&["--socket-mode", "777"]).ok().unwrap().socket_mode, 0o777);
}

#[test]
fn bad_values_show_the_usage() {
    for list in [
        &["--root"][..],
        &["-h"],
        &["--help"],
        &["--timeout", "x"],
        &["--timeout", "-1"],
        &["--max-requests", "4294967296"],
        &["--max-connections", ""],
        &["--socket-mode", "9"],
        &["--socket-mode", "0o"],
        &["-v", "--auth"],
    ] {
        assert_eq!(args(list).err(), Some(ArgsError::Usage));
    }
}

#[test]
fn other_arguments_are_unexpected() {
    assert_eq!(args(&["-x"]).err(), Some(ArgsError::Unexpected("-x".to_string())));
    assert_eq!(args(&["-v", "file"]).err(), Some(ArgsError::Unexpected("file".to_string())));
    assert_eq!(args(&["--Root", "x"]).err(), Some(ArgsError::Unexpected("--Root".to_string())));
}

// Credentials and warnings

fn basic(value: &str) -> Request {
    request(&format!("GET / HTTP/1.1\r\nAuthorization: Basic {}\r\n\r\n", value))
}

#[test]
fn credentials_come_from_file_and_options() {
    let a = args(&["--auth-file", "users", "--auth", "bob:x"]).ok().unwrap();
    let auth: Auth = build_auth(&a, Some("alice:s3cret\n")).ok().unwrap();
    assert!(auth.authorize(&basic("YWxpY2U6czNjcmV0")));
    assert!(auth.authorize(&basic("Ym9iOng=")));
    let a = args(&[]).ok().unwrap();
    assert!(!build_auth(&a, Some("alice:s3cret")).ok().unwrap().is_enabled());
}

#[test]
fn bad_credentials_are_reported() {
    let a = args(&["--auth-file", "users"]).ok().unwrap();
    assert_eq!(
        build_auth(&a, Some("# x\nalice")).err(),
        Some("users:2: expected 'username:password'".to_string())
    );
    let a = args(&["--auth", "a:b", "--auth", "bad", "--auth", "c:d"]).ok().unwrap();
    assert_eq!(
        build_auth(&a, None).err(),
        Some("--auth: expected 'username:password'".to_string())
    );
}

#[test]
fn one_rule_splits_all_credentials() {
    let file = args(&["--auth-file", "users"]).ok().unwrap();
    let inline = args(&["--auth", "a:b:c"]).ok().unwrap();
    let from_file = build_auth(&file, Some("a:b:c")).ok().unwrap();
    let from_inline = build_auth(&inline, None).ok().unwrap();
    for value in ["YTpiOmM=", "YTpi", "YTo="] {
        assert_eq!(from_file.authorize(&basic(value)), from_inline.authorize(&basic(value)));
    }
    assert!(from_file.authorize(&basic("YTpiOmM=")));
}

#[test]
fn anonymous_access_is_warned_of() {
    assert_eq!(unauthenticated_warning(true, Some("/run/s"), ""), None);
    assert_eq!(
        unauthenticated_warning(false, Some("/run/s"), "CN=x").as_deref(),
        Some("WARNING: serving unauthenticated on /run/s — no Basic auth")
    );
    assert_eq!(
        unauthenticated_warning(false, None, "").as_deref(),
        Some(
            "WARNING: serving unauthenticated — no client cert (SSL_CLIENT_DN) and no Basic auth"
        )
    );
    assert_eq!(unauthenticated_warning(false, None, "CN=x"), None);
}

// Connections

#[test]
fn a_connection_is_kept_up_to_its_limit() {
    let mut c = Connection::new(3);
    assert!(c.request(true));
    assert!(c.request(true));
    assert!(!c.request(true));
    assert_eq!(c.served(), 3);
    assert!(!c.is_open());
    let mut c = Connection::new(1);
    assert!(!c.request(true));
}

#[test]
fn a_connection_is_closed_on_request() {
    let mut c = Connection::new(0);
    for _ in 0..1000 {
        assert!(c.request(true));
    }
    assert!(!c.request(false));
}

#[test]
fn a_connection_is_kept_after_a_whole_answer_alone() {
    let whole = Delivery::Sent { unsent: 0 };
    for (delivery, open) in
        [(whole, true), (Delivery::Sent { unsent: 1 }, false), (Delivery::Failed, false)]
    {
        let mut c = Connection::new(5);
        assert!(c.request(true));
        assert_eq!(c.answered(delivery), open);
        assert_eq!(c.is_open(), open);
    }
    let mut c = Connection::new(5);
    assert!(!c.request(false));
    assert!(!c.answered(whole));
}

#[test]
fn a_file_that_ends_early_closes_the_connection() {
    let mut c = Connection::new(0);
    assert!(c.request(true));
    let (mut t, _) = Transfer::start(0, 10);
    t.step(SendEvent::Sent(4));
    assert_eq!(t.step(SendEvent::Sent(0)), SendAction::Finish);
    assert_eq!(t.unsent(), 6);
    assert!(!c.answered(Delivery::Sent { unsent: t.unsent() }));
}

#[test]
fn a_listener_waits_when_it_is_full() {
    let (mut l, first) = Listener::start(2);
    assert_eq!(first, ListenAction::Reap);
    for _ in 0..2 {
        assert_eq!(l.step(ListenEvent::Reaped(0)), ListenAction::Accept);
        assert_eq!(l.step(ListenEvent::Accepted), ListenAction::Fork);
        assert_eq!(l.step(ListenEvent::Parent), ListenAction::Reap);
    }
    assert_eq!(l.live(), 2);
    assert_eq!(l.step(ListenEvent::Reaped(0)), ListenAction::Wait);
    assert_eq!(l.step(ListenEvent::Waited { child: true }), ListenAction::Accept);
    assert_eq!(l.live(), 1);
    assert_eq!(l.step(ListenEvent::AcceptFailed), ListenAction::Reap);
    assert_eq!(l.step(ListenEvent::Reaped(5)), ListenAction::Accept);
    assert_eq!(l.live(), 0);
    assert_eq!(l.step(ListenEvent::Accepted), ListenAction::Fork);
    assert_eq!(l.step(ListenEvent::ForkFailed), ListenAction::Reap);
    assert_eq!(l.step(ListenEvent::Child), ListenAction::Serve);
}

#[test]
fn a_stale_count_is_reset() {
    let (mut l, _) = Listener::start(1);
    l.step(ListenEvent::Parent);
    assert_eq!(l.step(ListenEvent::Reaped(0)), ListenAction::Wait);
    assert_eq!(l.step(ListenEvent::Waited { child: false }), ListenAction::Accept);
    assert_eq!(l.live(), 0);
}

#[test]
fn a_listener_without_a_limit_never_waits() {
    let (mut l, _) = Listener::start(0);
    for _ in 0..100 {
        assert_eq!(l.step(ListenEvent::Reaped(0)), ListenAction::Accept);
        l.step(ListenEvent::Parent);
    }
    assert_eq!(l.live(), 100);
}

// Sending

#[test]
fn a_file_is_sent_in_pieces() {
    let (mut t, a) = Transfer::start(100, 0x1_0000_0000);
    assert_eq!(a, SendAction::Send { offset: 100, count: 0x7fff_f000 });
    let a = t.step(SendEvent::Sent(0x7fff_f000));
    assert_eq!(a, SendAction::Send { offset: 100 + 0x7fff_f000, count: 0x7fff_f000 });
    assert_eq!(t.step(SendEvent::Interrupted), a);
    assert_eq!(
        t.step(SendEvent::Sent(1)),
        SendAction::Send { offset: 101 + 0x7fff_f000, count: 0x7fff_f000 }
    );
    t.step(SendEvent::Sent(0x7fff_f000));
    assert_eq!(t.unsent(), 0x1fff);
    assert_eq!(t.step(SendEvent::Sent(0x1fff)), SendAction::Finish);
}

#[test]
fn sending_ends_early_with_the_file_or_a_failure() {
    let (mut t, _) = Transfer::start(0, 10);
    assert_eq!(t.step(SendEvent::Sent(0)), SendAction::Finish);
    assert_eq!(t.unsent(), 10);
    assert_eq!(t.step(SendEvent::Failed), SendAction::Fail);
    assert_eq!(Transfer::start(5, 0).1, SendAction::Finish);
}

// Confinement

#[test]
fn the_account_is_looked_up_when_needed() {
    assert_eq!(account_to_look_up(0, None), Some("nobody"));
    assert_eq!(account_to_look_up(0, Some("www")), Some("www"));
    assert_eq!(account_to_look_up(1000, Some("www")), Some("www"));
    assert_eq!(account_to_look_up(1000, None), None);
}

#[test]
fn root_becomes_the_account_in_order() {
    assert_eq!(hardening_steps(), [Action::ForbidNewPrivileges, Action::ForbidCoreDumps]);
    let account = Some(Account { uid: 33, gid: 44 });
    assert_eq!(
        lowering_steps(0, account, false),
        [
            Action::ChangeRoot,
            Action::EnterRoot,
            Action::ClearGroups,
            Action::SetGroup(44),
            Action::SetUser(33),
            Action::ForbidForking,
        ]
    );
    assert_eq!(lowering_steps(0, account, true).len(), 5);
    assert_eq!(lowering_steps(1000, account, false), [Action::ForbidForking]);
    assert!(lowering_steps(1000, None, true).is_empty());
    assert_eq!(served_root(0, b"/srv"), b"/");
    assert_eq!(served_root(1000, b"/srv"), b"/srv");
}

#[test]
fn hardening_is_best_effort_and_dropping_is_not() {
    for a in [Action::ForbidNewPrivileges, Action::ForbidCoreDumps, Action::ForbidForking] {
        assert!(!a.must_succeed());
    }
    for a in [
        Action::ChangeRoot,
        Action::EnterRoot,
        Action::ClearGroups,
        Action::SetGroup(1),
        Action::SetUser(1),
    ] {
        assert!(a.must_succeed());
    }
}

#[test]
fn root_never_serves() {
    assert_eq!(check_identity(0, 1, 1, None), Err(IdentityError::IsRoot));
    assert_eq!(check_identity(1, 0, 1, Some(1)), Err(IdentityError::IsRoot));
    assert_eq!(check_identity(1, 1, 0, None), Err(IdentityError::IsRoot));
    assert_eq!(check_identity(0, 0, 0, Some(0)), Err(IdentityError::IsRoot));
    assert_eq!(check_identity(1, 1, 2, Some(1)), Err(IdentityError::NotThatUser));
    assert_eq!(check_identity(1, 1, 1, Some(1)), Ok(()));
    assert_eq!(check_identity(1, 1, 2, None), Ok(()));
}

#[test]
fn a_named_user_is_held() {
    let account = Some(Account { uid: 33, gid: 44 });
    assert_eq!(uid_to_hold(Some("www"), account), Some(33));
    assert_eq!(uid_to_hold(None, account), None);
    assert_eq!(uid_to_hold(None, None), None);
    let held = uid_to_hold(Some("www"), account);
    assert_eq!(check_identity(33, 33, 33, held), Ok(()));
    assert_eq!(check_identity(33, 33, 34, held), Err(IdentityError::NotThatUser));
}

#[test]
fn only_a_socket_is_removed() {
    assert_eq!(clearing(Occupant::Nothing), Clearing::Proceed);
    assert_eq!(clearing(Occupant::Socket), Clearing::Remove);
    assert_eq!(clearing(Occupant::Other), Clearing::Refuse);
    assert_eq!(clearing(Occupant::Unknown), Clearing::Report);
}

#[test]
fn the_umask_gives_the_mode() {
    assert_eq!(socket_umask(0o660), 0o117);
    assert_eq!(socket_umask(0o600), 0o177);
    assert_eq!(socket_umask(0o7777), 0);
    for mode in [0o660, 0o600, 0o777, 0, 0o1234] {
        assert_eq!(0o777 & !socket_umask(mode), mode & 0o777);
    }
}

// The log

#[test]
fn requests_are_logged_with_their_conditions() {
    let r = request(
        "GET /photos/a.jpg HTTP/1.1\r\nDepth: 1\r\nIf-None-Match: \"1a-6a40b279\"\r\n\r\n",
    );
    assert_eq!(
        log_request(&r, 304),
        "GET /photos/a.jpg HTTP/1.1 -> 304 if-none-match=\"\\\"1a-6a40b279\\\"\" depth=\"1\""
    );
    let r = request("PROPFIND /photos/ HTTP/1.1\r\nDepth: 1\r\nHost: x\r\n\r\n");
    assert_eq!(log_request(&r, 207), "PROPFIND /photos/ HTTP/1.1 -> 207 depth=\"1\"");
    let r = request("GET /new.jpg HTTP/1.1\r\n\r\n");
    assert_eq!(log_request(&r, 200), "GET /new.jpg HTTP/1.1 -> 200");
}

#[test]
fn control_characters_do_not_reach_the_log() {
    let r = request("G\u{1b}[31m /a\"b HTTP/1.1\r\nRange: a\u{7}\r\n\r\n");
    assert_eq!(
        log_request(&r, 405),
        "\"G\\u{1b}[31m\" \"/a\\\"b\" HTTP/1.1 -> 405 range=\"a\\u{7}\""
    );
    let r = request("GET /é\r\n\r\n");
    assert_eq!(log_request(&r, 200), "GET \"/é\" \"\" -> 200");
}

#[test]
fn plain_words_stand_bare() {
    assert!(stands_bare("GET"));
    assert!(stands_bare("/a%20b~!"));
    for word in ["", "a b", "a\"", "a\\", "\u{7f}", "é", "\n"] {
        assert!(!stands_bare(word));
    }
}

#[test]
fn a_log_line_is_put_together() {
    let headers = [("range", "r".to_string()), ("depth", "d".to_string())];
    assert_eq!(log_line("M", "/p", "V", 206, &headers), "M /p V -> 206 range=r depth=d");
}
