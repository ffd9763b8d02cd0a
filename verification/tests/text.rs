use tiny_webdav::base64::base64_decode;
use tiny_webdav::date::{
    civil_from_days, datetime_utc, days_from_civil, http_date, parse_http_date, ymd_hms,
};
use tiny_webdav::escape::{percent_decode, percent_encode_path, xml_escape};
use tiny_webdav::glob::glob_match;
use tiny_webdav::mime::mime_for;
use tiny_webdav::number::{
    decimal_string, hexadecimal_string, padded_string, parse_number, parse_plain,
};
use tiny_webdav::size::human_size;
use tiny_webdav::text::{char_is_space, char_lower, split_crlf, split_words, trim};

fn chars(s: &str) -> Vec<char> {
    s.chars().collect()
}

fn strings(v: Vec<&[char]>) -> Vec<String> {
    v.into_iter().map(|p| p.iter().collect()).collect()
}

#[test]
fn percent_escapes_are_decoded() {
    assert_eq!(percent_decode("/a%20b%2Fc"), "/a b/c");
    assert_eq!(percent_decode("/caf%C3%A9"), "/café");
    assert_eq!(percent_decode("/x%2e%2E"), "/x..");
    assert_eq!(percent_decode("/100%"), "/100%");
    assert_eq!(percent_decode("/%zz%4"), "/%zz%4");
    assert_eq!(percent_decode(""), "");
}

#[test]
fn decoding_stops_at_query_and_fragment() {
    assert_eq!(percent_decode("/a%20b?c=%20d"), "/a b?c=%20d");
    assert_eq!(percent_decode("/a#%62"), "/a#%62");
    assert_eq!(percent_decode("/a%3Fb%23c"), "/a?b#c");
}

#[test]
fn invalid_utf8_is_replaced() {
    assert_eq!(percent_decode("/%FF"), "/\u{fffd}");
    assert_eq!(percent_decode("/%E2%82"), "/\u{fffd}");
}

#[test]
fn paths_are_encoded_for_links() {
    assert_eq!(percent_encode_path("/a b/c.txt"), "/a%20b/c.txt");
    assert_eq!(percent_encode_path("/é?#%"), "/%c3%a9%3f%23%25");
    assert_eq!(percent_encode_path("/A-z_0.9~"), "/A-z_0.9~");
    assert_eq!(percent_encode_path("\"<>&'"), "%22%3c%3e%26%27");
}

#[test]
fn encoded_paths_decode_to_themselves() {
    for path in ["/", "/a b/ü", "/100%/x?y#z", "/\"<>", "/日本/語.txt", ""] {
        assert_eq!(percent_decode(&percent_encode_path(path)), path);
    }
}

#[test]
fn xml_specials_are_escaped() {
    assert_eq!(xml_escape("a<b>&\"c\"'d'"), "a&lt;b&gt;&amp;&quot;c&quot;&apos;d&apos;");
    assert_eq!(xml_escape("plain ü"), "plain ü");
    assert_eq!(xml_escape(""), "");
}

#[test]
fn stars_match_any_run() {
    assert!(glob_match("a*b*c", "aXXbYYc"));
    assert!(!glob_match("a*b*c", "aXXbYY"));
    assert!(glob_match("**", ""));
    assert!(glob_match("*a*", "banana"));
    assert!(!glob_match(".Git", ".git"));
    assert!(glob_match("?", "ü"));
    assert!(glob_match("*.b", "*a.b"));
}

#[test]
fn http_dates_are_written() {
    assert_eq!(http_date(784111777), "Sun, 06 Nov 1994 08:49:37 GMT");
    assert_eq!(http_date(0), "Thu, 01 Jan 1970 00:00:00 GMT");
    assert_eq!(http_date(-1), "Thu, 01 Jan 1970 00:00:00 GMT");
    assert_eq!(http_date(951782400), "Tue, 29 Feb 2000 00:00:00 GMT");
    assert_eq!(http_date(253402300799), "Fri, 31 Dec 9999 23:59:59 GMT");
}

#[test]
fn datetimes_are_written() {
    assert_eq!(datetime_utc(784111777), "1994-11-06 08:49:37");
    assert_eq!(datetime_utc(-5), "1970-01-01 00:00:00");
}

#[test]
fn http_dates_are_read() {
    assert_eq!(parse_http_date("Sun, 06 Nov 1994 08:49:37 GMT"), Some(784111777));
    assert_eq!(parse_http_date("Thu, 01 Jan 1970 00:00:00 GMT"), Some(0));
    assert_eq!(parse_http_date("Wed, 31 Dec 1969 23:59:59 GMT"), Some(-1));
}

#[test]
fn other_date_forms_are_not_read() {
    assert_eq!(parse_http_date("Sunday, 06-Nov-94 08:49:37 GMT"), None);
    assert_eq!(parse_http_date("Sun Nov  6 08:49:37 1994"), None);
    assert_eq!(parse_http_date("Sun, 06 Nov 1994 08:49:37 CET"), None);
    assert_eq!(parse_http_date("Sun, 6 Nov 1994 08:49:37 GMT"), None);
    assert_eq!(parse_http_date("Sun, 06 Nvo 1994 08:49:37 GMT"), None);
    assert_eq!(parse_http_date(""), None);
}

#[test]
fn dates_survive_a_round_trip() {
    for t in [0, 1, 86399, 86400, 951782399, 1704067199, 4102444800, 253402300799] {
        assert_eq!(parse_http_date(&http_date(t)), Some(t));
    }
}

#[test]
fn civil_dates_are_converted() {
    assert_eq!(civil_from_days(0), (1970, 1, 1));
    assert_eq!(civil_from_days(-1), (1969, 12, 31));
    assert_eq!(civil_from_days(11016), (2000, 2, 29));
    assert_eq!(civil_from_days(-719468), (0, 3, 1));
    for z in [-1000000, -719468, -1, 0, 59, 60, 11016, 19000, 2932896] {
        let (y, m, d) = civil_from_days(z);
        assert_eq!(days_from_civil(y, m, d), z);
    }
    assert_eq!(days_from_civil(1970, 1, 1_000_000_000_000_000_001), 1_000_000_000_000_000_000);
}

#[test]
fn moments_have_their_parts() {
    let p = ymd_hms(784111777);
    assert_eq!((p.year, p.month, p.day), (1994, 11, 6));
    assert_eq!((p.hour, p.minute, p.second), (8, 49, 37));
    assert_eq!(p.weekday, 0);
}

#[test]
fn media_types_go_by_extension() {
    assert_eq!(mime_for(b"/x/Photo.JPG"), "image/jpeg");
    assert_eq!(mime_for(b"/x/index.html"), "text/html; charset=utf-8");
    assert_eq!(mime_for(b"notes.MD"), "text/plain; charset=utf-8");
    assert_eq!(mime_for(b"a.tar.gz"), "application/gzip");
    assert_eq!(mime_for(b"a.m3u8"), "application/vnd.apple.mpegurl");
    assert_eq!(mime_for(b"a.dtshd"), "audio/vnd.dts.hd");
    assert_eq!(mime_for(b"a.tar"), "application/x-tar");
}

#[test]
fn unknown_extensions_are_octets() {
    for path in [&b"/x/noext"[..], b"/.html", b"/x/.txt", b"a.", b"a.xyz", b"/", b"", b"a.\xff"] {
        assert_eq!(mime_for(path), "application/octet-stream");
    }
    assert_eq!(mime_for(b"/dir.html/file"), "application/octet-stream");
}

fn float_size(n: u64) -> String {
    let units = ["B", "K", "M", "G", "T", "P"];
    let mut size = n as f64;
    let mut unit = 0;
    while size >= 1024.0 && unit < 5 {
        size /= 1024.0;
        unit += 1;
    }
    format!("{:.1}{}", size, units[unit])
}

#[test]
fn sizes_are_rendered() {
    assert_eq!(human_size(0), "0 B");
    assert_eq!(human_size(1023), "1023 B");
    assert_eq!(human_size(1024), "1.0K");
    assert_eq!(human_size(1434), "1.4K");
    assert_eq!(human_size(1536), "1.5K");
    assert_eq!(human_size(1048575), "1024.0K");
    assert_eq!(human_size(3355443), "3.2M");
    assert_eq!(human_size(u64::MAX), "16384.0P");
}

#[test]
fn sizes_round_as_floats_do() {
    let mut n: u64 = 1024;
    while n < u64::MAX / 3 {
        for d in [0, 1, 51, 52, 102, 128, 154, 255, 512, 640, 1000] {
            assert_eq!(human_size(n + d), float_size(n + d));
        }
        n = n * 2 + n / 7;
    }
    for n in [1127, 1177, 1178, 1280, 1331, 1792, 2304, 2816, 3328, (1 << 53) + 1, (1 << 54) + 2, u64::MAX - 1024] {
        assert_eq!(human_size(n), float_size(n));
    }
}

#[test]
fn numbers_are_written() {
    assert_eq!(decimal_string(0), "0");
    assert_eq!(decimal_string(u64::MAX), "18446744073709551615");
    assert_eq!(hexadecimal_string(0), "0");
    assert_eq!(hexadecimal_string(0x1f65a3b2c0), "1f65a3b2c0");
    assert_eq!(padded_string(7, 2), "07");
    assert_eq!(padded_string(12345, 4), "12345");
}

#[test]
fn numbers_are_read() {
    assert_eq!(parse_number(&chars("42"), 10, 100), Some(42));
    assert_eq!(parse_number(&chars("+42"), 10, 100), Some(42));
    assert_eq!(parse_number(&chars("0042"), 10, 100), Some(42));
    assert_eq!(parse_number(&chars("101"), 10, 100), None);
    assert_eq!(parse_number(&chars("-1"), 10, 100), None);
    assert_eq!(parse_number(&chars(""), 10, 100), None);
    assert_eq!(parse_number(&chars("+"), 10, 100), None);
    assert_eq!(parse_number(&chars("660"), 8, 1000), Some(0o660));
    assert_eq!(parse_number(&chars("8"), 8, 1000), None);
    assert_eq!(parse_number(&chars("18446744073709551616"), 10, u64::MAX), None);
    assert_eq!(parse_plain(&chars("+4"), 10), None);
}

#[test]
fn lines_end_with_cr_lf() {
    assert_eq!(strings(split_crlf(&chars("a\r\nb\r\n"))), ["a", "b", ""]);
    assert_eq!(strings(split_crlf(&chars("a\nb\rc"))), ["a\nb\rc"]);
    assert_eq!(strings(split_crlf(&chars(""))), [""]);
}

#[test]
fn words_are_split_at_white_space() {
    assert_eq!(strings(split_words(&chars("  GET\t/a  HTTP/1.1 "))), ["GET", "/a", "HTTP/1.1"]);
    assert!(split_words(&chars(" \u{3000}\u{a0} ")).is_empty());
    assert_eq!(trim(&chars(" \u{2003}x y\n")).iter().collect::<String>(), "x y");
}

#[test]
fn base64_is_decoded() {
    assert_eq!(base64_decode(&chars("YWxpY2U6czNjcmV0")), Some(b"alice:s3cret".to_vec()));
    assert_eq!(base64_decode(&chars("YTo=")), Some(b"a:".to_vec()));
    assert_eq!(base64_decode(&chars("YQ==")), Some(b"a".to_vec()));
    assert_eq!(base64_decode(&chars("+/+/")), Some(vec![0xfb, 0xff, 0xbf]));
    assert_eq!(base64_decode(&chars("")), Some(vec![]));
}

#[test]
fn base64_padding_and_white_space_are_optional() {
    assert_eq!(base64_decode(&chars("YQ")), Some(b"a".to_vec()));
    assert_eq!(base64_decode(&chars("YW Jj\r\n")), Some(b"abc".to_vec()));
    assert_eq!(base64_decode(&chars("Y")), Some(vec![]));
}

#[test]
fn base64_refuses_other_characters() {
    assert_eq!(base64_decode(&chars("YW-j")), None);
    assert_eq!(base64_decode(&chars("é")), None);
    assert_eq!(base64_decode(&chars("YWJj\u{b}")), None);
}

#[test]
fn numbers_survive_a_round_trip() {
    for n in [0, 9, 10, 99, 1024, 253402300799, u64::MAX] {
        assert_eq!(parse_number(&chars(&decimal_string(n)), 10, u64::MAX), Some(n));
    }
}

#[test]
fn white_space_is_what_unicode_says() {
    for c in '\0'..=char::MAX {
        assert_eq!(char_is_space(c), c.is_whitespace());
        assert_eq!(char_lower(c), c.to_ascii_lowercase());
    }
}
