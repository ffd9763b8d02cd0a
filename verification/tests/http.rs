use tiny_webdav::body::{Drain, DrainAction};
use tiny_webdav::http::{
    parse_head, read_request, reason_phrase, write_head, write_response, write_status,
    Context, HeadReader, HeadStep, Request, RequestError,
};

const CTX: Context = Context { now: 0, keep_alive: false };
const TAIL: &str = "Date: Thu, 01 Jan 1970 00:00:00 GMT\r\nServer: tiny-webdav\r\n";

fn request(head: &str) -> Request {
    parse_head(head).unwrap()
}

fn text(bytes: Vec<u8>) -> String {
    String::from_utf8(bytes).unwrap()
}

#[test]
fn a_head_is_read() {
    let r = request("GET /a%20b?q=1 HTTP/1.1\r\nHost: example\r\nX-A:  b : c \r\n\r\n");
    assert_eq!(r.method, "GET");
    assert_eq!(r.path, "/a%20b");
    assert_eq!(r.version, "HTTP/1.1");
    assert_eq!(r.header("host"), Some("example"));
    assert_eq!(r.header("x-a"), Some("b : c"));
    assert_eq!(r.header("range"), None);
}

#[test]
fn header_names_ignore_case_and_the_last_counts() {
    let r = request("GET / HTTP/1.1\r\nRANGE: a\r\nnonsense\r\nrange : b\r\n\r\n");
    assert_eq!(r.header("range"), Some("b"));
    assert_eq!(r.header("nonsense"), None);
}

#[test]
fn a_target_ends_at_query_and_fragment() {
    assert_eq!(request("GET /x#y?z HTTP/1.1\r\n\r\n").path, "/x");
    assert_eq!(request("GET ?z HTTP/1.1\r\n\r\n").path, "");
    assert_eq!(request("GET /x\r\n\r\n").version, "");
}

#[test]
fn a_request_line_needs_method_and_target() {
    for head in ["\r\n\r\n", "GET\r\n\r\n", "   \r\nHost: x\r\n\r\n", ""] {
        assert_eq!(parse_head(head).err(), Some(RequestError::MalformedRequestLine));
    }
}

#[test]
fn http_1_1_is_kept_alive() {
    assert!(request("GET / HTTP/1.1\r\n\r\n").keep_alive());
    assert!(request("GET / HTTP/1.1\r\nConnection: keep-alive\r\n\r\n").keep_alive());
    assert!(request("PROPFIND / HTTP/1.1\r\nContent-Length: 10\r\n\r\n").keep_alive());
    assert!(request("PUT / HTTP/1.1\r\nContent-Length: 1048577\r\n\r\n").keep_alive());
}

#[test]
fn a_client_can_ask_to_close() {
    assert!(!request("GET / HTTP/1.0\r\n\r\n").keep_alive());
    assert!(!request("GET /\r\n\r\n").keep_alive());
    assert!(!request("GET / HTTP/1.1\r\nConnection: close\r\n\r\n").keep_alive());
    assert!(!request("GET / HTTP/1.1\r\nConnection: TE , Close\r\n\r\n").keep_alive());
}

#[test]
fn uncertain_framing_closes() {
    for field in [
        "Transfer-Encoding: chunked",
        "Content-Length: abc",
        "Content-Length: 99999999999999999999999",
        "Content-Length: 1\r\nContent-Length: 1",
    ] {
        let head = format!("PROPFIND / HTTP/1.1\r\n{}\r\n\r\n", field);
        let r = request(&head);
        assert!(!r.framed);
        assert!(!r.keep_alive());
    }
}

#[test]
fn announced_bodies_are_drained() {
    assert_eq!(request("GET / HTTP/1.1\r\n\r\n").body_to_drain(), 0);
    assert_eq!(request("GET / HTTP/1.1\r\nContent-Length: 7\r\n\r\n").body_to_drain(), 7);
    assert_eq!(request("GET / HTTP/1.1\r\nContent-Length: x\r\n\r\n").body_to_drain(), 0);
    assert_eq!(
        request("GET / HTTP/1.1\r\nContent-Length: 9999999\r\n\r\n").body_to_drain(),
        9999999
    );
}

#[test]
fn a_large_body_is_consumed_as_a_whole() {
    for n in [1048575, 1048576, 1048577, 3000000] {
        let mut stream = format!("PUT /a HTTP/1.1\r\nContent-Length: {}\r\n\r\n", n).into_bytes();
        let body_end = stream.len() + n;
        stream.resize(body_end, b'x');
        stream.extend_from_slice(b"GET /b HTTP/1.1\r\n\r\n");
        let (first, used) = read_request(&stream).ok().unwrap();
        assert!(first.keep_alive());
        assert_eq!(used, body_end);
        assert_eq!(read_request(&stream[used..]).ok().unwrap().0.path, "/b");
    }
}

#[test]
fn a_body_is_discarded_in_pieces() {
    let (mut d, a) = Drain::start(5000);
    assert_eq!(a, DrainAction::Read(4096));
    assert_eq!(d.step(4000), DrainAction::Read(1000));
    assert_eq!(d.remaining(), 1000);
    assert_eq!(d.step(1000), DrainAction::Finish);
    assert_eq!(d.remaining(), 0);
    assert_eq!(Drain::start(0).1, DrainAction::Finish);
}

#[test]
fn discarding_ends_with_the_stream() {
    let (mut d, a) = Drain::start(10);
    assert_eq!(a, DrainAction::Read(10));
    assert_eq!(d.step(0), DrainAction::Finish);
    assert_eq!(d.remaining(), 10);
}

#[test]
fn requests_are_read_one_after_the_other() {
    let stream = b"PROPFIND /a HTTP/1.1\r\nContent-Length: 3\r\n\r\nxyzGET /b HTTP/1.1\r\n\r\n";
    let (first, n) = read_request(stream).ok().unwrap();
    assert_eq!(first.path, "/a");
    let (second, m) = read_request(&stream[n..]).ok().unwrap();
    assert_eq!(second.path, "/b");
    assert_eq!(n + m, stream.len());
}

#[test]
fn a_short_body_is_drained_as_far_as_it_goes() {
    let stream = b"PUT /a HTTP/1.1\r\nContent-Length: 30\r\n\r\nxyz";
    let (_, n) = read_request(stream).ok().unwrap();
    assert_eq!(n, stream.len());
}

#[test]
fn a_head_must_end() {
    assert_eq!(read_request(b"").err(), Some(RequestError::UnexpectedEof));
    assert_eq!(read_request(b"GET / HTTP/1.1\r\n").err(), Some(RequestError::UnexpectedEof));
    assert_eq!(read_request(b"\r\n\r\n").err(), Some(RequestError::MalformedRequestLine));
}

#[test]
fn a_head_must_not_be_too_large() {
    let mut stream = b"GET / HTTP/1.1\r\nX: ".to_vec();
    stream.resize(65537 - 4, b'x');
    stream.extend_from_slice(b"\r\n\r\n");
    assert!(read_request(&stream).is_ok());
    stream.insert(20, b'x');
    assert_eq!(read_request(&stream).err(), Some(RequestError::HeadersTooLarge));
    assert_eq!(read_request(&vec![b'x'; 65536]).err(), Some(RequestError::UnexpectedEof));
    assert_eq!(read_request(&vec![b'x'; 65537]).err(), Some(RequestError::HeadersTooLarge));
}

#[test]
fn invalid_bytes_in_a_head_are_replaced() {
    let (r, _) = read_request(b"GET /\xff HTTP/1.1\r\n\r\n").ok().unwrap();
    assert_eq!(r.path, "/\u{fffd}");
}

#[test]
fn a_head_is_read_byte_by_byte() {
    let mut reader = HeadReader::new();
    let head = b"GET /a HTTP/1.1\r\n\r\n";
    for b in &head[..head.len() - 1] {
        assert_eq!(reader.push(*b), HeadStep::More);
    }
    assert_eq!(reader.push(b'\n'), HeadStep::Complete);
    assert_eq!(reader.finish().ok().unwrap().path, "/a");
}

#[test]
fn a_whole_response_is_written() {
    let headers = [("DAV", "1".to_string()), ("Allow", "GET".to_string())];
    let r = write_response(&CTX, 200, "OK", "text/plain", &headers, b"body", true);
    assert_eq!(
        text(r),
        format!(
            "HTTP/1.1 200 OK\r\nContent-Length: 4\r\nContent-Type: text/plain\r\nDAV: 1\r\n\
             Allow: GET\r\n{}Connection: close\r\n\r\nbody",
            TAIL
        )
    );
}

#[test]
fn a_response_to_head_announces_the_body() {
    let r = write_response(&CTX, 200, "OK", "text/plain", &[], b"body", false);
    assert_eq!(
        text(r),
        format!(
            "HTTP/1.1 200 OK\r\nContent-Length: 4\r\nContent-Type: text/plain\r\n{}\
             Connection: close\r\n\r\n",
            TAIL
        )
    );
}

#[test]
fn a_head_alone_is_written() {
    let ctx = Context { now: 0, keep_alive: true };
    let r = write_head(&ctx, 304, "Not Modified", "", &[], 0);
    assert_eq!(
        r,
        format!(
            "HTTP/1.1 304 Not Modified\r\nContent-Length: 0\r\n{}Connection: keep-alive\r\n\r\n",
            TAIL
        )
    );
}

#[test]
fn a_status_is_written() {
    let r = write_status(&CTX, 404, "Not Found", &[]);
    assert_eq!(
        text(r),
        format!(
            "HTTP/1.1 404 Not Found\r\nContent-Length: 14\r\n\
             Content-Type: text/plain; charset=utf-8\r\n{}Connection: close\r\n\r\n404 Not Found\n",
            TAIL
        )
    );
}

#[test]
fn statuses_have_reasons() {
    for (status, reason) in [
        (200, "OK"),
        (206, "Partial Content"),
        (207, "Multi-Status"),
        (304, "Not Modified"),
        (401, "Unauthorized"),
        (403, "Forbidden"),
        (404, "Not Found"),
        (405, "Method Not Allowed"),
        (416, "Range Not Satisfiable"),
        (500, "Internal Server Error"),
    ] {
        assert_eq!(reason_phrase(status), reason);
    }
}
