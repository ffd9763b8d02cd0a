//! Media types by file extension.

use vstd::prelude::*;

use crate::path::{extension_of, extension_text};
use crate::text::{chars_are, chars_of, lower_chars, lowered};

verus! {

/// The media type of files with the extension `e`, in small letters.
pub open spec fn mime_type(e: Seq<char>) -> Seq<char> {
    if e == "html"@ || e == "htm"@ {
        "text/html; charset=utf-8"@
    } else if e == "txt"@ || e == "text"@ || e == "md"@ {
        "text/plain; charset=utf-8"@
    } else if e == "css"@ {
        "text/css; charset=utf-8"@
    } else if e == "js"@ || e == "mjs"@ {
        "text/javascript; charset=utf-8"@
    } else if e == "json"@ {
        "application/json"@
    } else if e == "xml"@ {
        "application/xml"@
    } else if e == "csv"@ {
        "text/csv; charset=utf-8"@
    } else if e == "pdf"@ {
        "application/pdf"@
    } else if e == "png"@ {
        "image/png"@
    } else if e == "jpg"@ || e == "jpeg"@ {
        "image/jpeg"@
    } else if e == "gif"@ {
        "image/gif"@
    } else if e == "svg"@ {
        "image/svg+xml"@
    } else if e == "webp"@ {
        "image/webp"@
    } else if e == "ico"@ {
        "image/x-icon"@
    } else if e == "mp3"@ || e == "mp2"@ || e == "mpga"@ {
        "audio/mpeg"@
    } else if e == "m4a"@ || e == "m4b"@ {
        "audio/mp4"@
    } else if e == "aac"@ {
        "audio/aac"@
    } else if e == "flac"@ {
        "audio/flac"@
    } else if e == "ogg"@ || e == "oga"@ {
        "audio/ogg"@
    } else if e == "opus"@ {
        "audio/opus"@
    } else if e == "spx"@ {
        "audio/ogg"@
    } else if e == "wav"@ {
        "audio/wav"@
    } else if e == "weba"@ {
        "audio/webm"@
    } else if e == "aif"@ || e == "aiff"@ || e == "aifc"@ {
        "audio/aiff"@
    } else if e == "mid"@ || e == "midi"@ || e == "kar"@ {
        "audio/midi"@
    } else if e == "wma"@ {
        "audio/x-ms-wma"@
    } else if e == "wax"@ {
        "audio/x-ms-wax"@
    } else if e == "ra"@ || e == "ram"@ {
        "audio/x-pn-realaudio"@
    } else if e == "au"@ || e == "snd"@ {
        "audio/basic"@
    } else if e == "amr"@ {
        "audio/amr"@
    } else if e == "awb"@ {
        "audio/amr-wb"@
    } else if e == "3ga"@ {
        "audio/3gpp"@
    } else if e == "caf"@ {
        "audio/x-caf"@
    } else if e == "ape"@ {
        "audio/x-ape"@
    } else if e == "wv"@ {
        "audio/x-wavpack"@
    } else if e == "tta"@ {
        "audio/x-tta"@
    } else if e == "mpc"@ {
        "audio/x-musepack"@
    } else if e == "mka"@ {
        "audio/x-matroska"@
    } else if e == "dsf"@ {
        "audio/x-dsf"@
    } else if e == "dff"@ {
        "audio/x-dff"@
    } else if e == "dts"@ {
        "audio/vnd.dts"@
    } else if e == "dtshd"@ {
        "audio/vnd.dts.hd"@
    } else if e == "ac3"@ {
        "audio/ac3"@
    } else if e == "eac3"@ {
        "audio/eac3"@
    } else if e == "gsm"@ {
        "audio/x-gsm"@
    } else if e == "voc"@ {
        "audio/x-voc"@
    } else if e == "mod"@ {
        "audio/x-mod"@
    } else if e == "s3m"@ {
        "audio/x-s3m"@
    } else if e == "xm"@ {
        "audio/x-xm"@
    } else if e == "it"@ {
        "audio/x-it"@
    } else if e == "m3u"@ {
        "audio/x-mpegurl"@
    } else if e == "m3u8"@ {
        "application/vnd.apple.mpegurl"@
    } else if e == "pls"@ {
        "audio/x-scpls"@
    } else if e == "mp4"@ {
        "video/mp4"@
    } else if e == "zip"@ {
        "application/zip"@
    } else if e == "gz"@ || e == "tgz"@ {
        "application/gzip"@
    } else if e == "tar"@ {
        "application/x-tar"@
    } else {
        "application/octet-stream"@
    }
}

/// The media type of files with the extension `e`, in small letters.
fn mime_text(e: &[char]) -> (r: &'static str)
    ensures
        r@ == mime_type(e@),
{
    if chars_are(e, "html") || chars_are(e, "htm") {
        "text/html; charset=utf-8"
    } else if chars_are(e, "txt") || chars_are(e, "text") || chars_are(e, "md") {
        "text/plain; charset=utf-8"
    } else if chars_are(e, "css") {
        "text/css; charset=utf-8"
    } else if chars_are(e, "js") || chars_are(e, "mjs") {
        "text/javascript; charset=utf-8"
    } else if chars_are(e, "json") {
        "application/json"
    } else if chars_are(e, "xml") {
        "application/xml"
    } else if chars_are(e, "csv") {
        "text/csv; charset=utf-8"
    } else if chars_are(e, "pdf") {
        "application/pdf"
    } else if chars_are(e, "png") {
        "image/png"
    } else if chars_are(e, "jpg") || chars_are(e, "jpeg") {
        "image/jpeg"
    } else if chars_are(e, "gif") {
        "image/gif"
    } else if chars_are(e, "svg") {
        "image/svg+xml"
    } else if chars_are(e, "webp") {
        "image/webp"
    } else if chars_are(e, "ico") {
        "image/x-icon"
    } else if chars_are(e, "mp3") || chars_are(e, "mp2") || chars_are(e, "mpga") {
        "audio/mpeg"
    } else if chars_are(e, "m4a") || chars_are(e, "m4b") {
        "audio/mp4"
    } else if chars_are(e, "aac") {
        "audio/aac"
    } else if chars_are(e, "flac") {
        "audio/flac"
    } else if chars_are(e, "ogg") || chars_are(e, "oga") {
        "audio/ogg"
    } else if chars_are(e, "opus") {
        "audio/opus"
    } else if chars_are(e, "spx") {
        "audio/ogg"
    } else if chars_are(e, "wav") {
        "audio/wav"
    } else if chars_are(e, "weba") {
        "audio/webm"
    } else if chars_are(e, "aif") || chars_are(e, "aiff") || chars_are(e, "aifc") {
        "audio/aiff"
    } else if chars_are(e, "mid") || chars_are(e, "midi") || chars_are(e, "kar") {
        "audio/midi"
    } else if chars_are(e, "wma") {
        "audio/x-ms-wma"
    } else if chars_are(e, "wax") {
        "audio/x-ms-wax"
    } else if chars_are(e, "ra") || chars_are(e, "ram") {
        "audio/x-pn-realaudio"
    } else if chars_are(e, "au") || chars_are(e, "snd") {
        "audio/basic"
    } else if chars_are(e, "amr") {
        "audio/amr"
    } else if chars_are(e, "awb") {
        "audio/amr-wb"
    } else if chars_are(e, "3ga") {
        "audio/3gpp"
    } else if chars_are(e, "caf") {
        "audio/x-caf"
    } else if chars_are(e, "ape") {
        "audio/x-ape"
    } else if chars_are(e, "wv") {
        "audio/x-wavpack"
    } else if chars_are(e, "tta") {
        "audio/x-tta"
    } else if chars_are(e, "mpc") {
        "audio/x-musepack"
    } else if chars_are(e, "mka") {
        "audio/x-matroska"
    } else if chars_are(e, "dsf") {
        "audio/x-dsf"
    } else if chars_are(e, "dff") {
        "audio/x-dff"
    } else if chars_are(e, "dts") {
        "audio/vnd.dts"
    } else if chars_are(e, "dtshd") {
        "audio/vnd.dts.hd"
    } else if chars_are(e, "ac3") {
        "audio/ac3"
    } else if chars_are(e, "eac3") {
        "audio/eac3"
    } else if chars_are(e, "gsm") {
        "audio/x-gsm"
    } else if chars_are(e, "voc") {
        "audio/x-voc"
    } else if chars_are(e, "mod") {
        "audio/x-mod"
    } else if chars_are(e, "s3m") {
        "audio/x-s3m"
    } else if chars_are(e, "xm") {
        "audio/x-xm"
    } else if chars_are(e, "it") {
        "audio/x-it"
    } else if chars_are(e, "m3u") {
        "audio/x-mpegurl"
    } else if chars_are(e, "m3u8") {
        "application/vnd.apple.mpegurl"
    } else if chars_are(e, "pls") {
        "audio/x-scpls"
    } else if chars_are(e, "mp4") {
        "video/mp4"
    } else if chars_are(e, "zip") {
        "application/zip"
    } else if chars_are(e, "gz") || chars_are(e, "tgz") {
        "application/gzip"
    } else if chars_are(e, "tar") {
        "application/x-tar"
    } else {
        "application/octet-stream"
    }
}

/// The media type of the file at `path`, by its extension, whatever the case of
/// its letters; `application/octet-stream` where the extension says nothing.
pub fn mime_for(path: &[u8]) -> (r: &'static str)
    ensures
        r@ == mime_type(lowered(extension_text(path@))),
{
    let extension = extension_of(path);
    let chars = chars_of(extension.as_str());
    mime_text(lower_chars(chars.as_slice()).as_slice())
}

/// A short word of ASCII characters as a number, which tells words apart.
spec fn word(s: Seq<char>) -> int {
    (if s.len() > 0 {
        s[0] as int
    } else {
        0
    }) + (if s.len() > 1 {
        s[1] as int * 128
    } else {
        0
    }) + (if s.len() > 2 {
        s[2] as int * 16384
    } else {
        0
    }) + (if s.len() > 3 {
        s[3] as int * 2097152
    } else {
        0
    }) + (if s.len() > 4 {
        s[4] as int * 268435456
    } else {
        0
    })
}

/// The table of media types, one line for each extension that has one. Any other
/// extension, and a file without one, says nothing of what the file holds.
#[verifier::spinoff_prover]
#[verifier::rlimit(100)]
pub proof fn law_media_types(e: Seq<char>)
    ensures
        mime_type("html"@) == "text/html; charset=utf-8"@,
        mime_type("htm"@) == "text/html; charset=utf-8"@,
        mime_type("txt"@) == "text/plain; charset=utf-8"@,
        mime_type("text"@) == "text/plain; charset=utf-8"@,
        mime_type("md"@) == "text/plain; charset=utf-8"@,
        mime_type("css"@) == "text/css; charset=utf-8"@,
        mime_type("js"@) == "text/javascript; charset=utf-8"@,
        mime_type("mjs"@) == "text/javascript; charset=utf-8"@,
        mime_type("json"@) == "application/json"@,
        mime_type("xml"@) == "application/xml"@,
        mime_type("csv"@) == "text/csv; charset=utf-8"@,
        mime_type("pdf"@) == "application/pdf"@,
        mime_type("png"@) == "image/png"@,
        mime_type("jpg"@) == "image/jpeg"@,
        mime_type("jpeg"@) == "image/jpeg"@,
        mime_type("gif"@) == "image/gif"@,
        mime_type("svg"@) == "image/svg+xml"@,
        mime_type("webp"@) == "image/webp"@,
        mime_type("ico"@) == "image/x-icon"@,
        mime_type("mp3"@) == "audio/mpeg"@,
        mime_type("mp2"@) == "audio/mpeg"@,
        mime_type("mpga"@) == "audio/mpeg"@,
        mime_type("m4a"@) == "audio/mp4"@,
        mime_type("m4b"@) == "audio/mp4"@,
        mime_type("aac"@) == "audio/aac"@,
        mime_type("flac"@) == "audio/flac"@,
        mime_type("ogg"@) == "audio/ogg"@,
        mime_type("oga"@) == "audio/ogg"@,
        mime_type("opus"@) == "audio/opus"@,
        mime_type("spx"@) == "audio/ogg"@,
        mime_type("wav"@) == "audio/wav"@,
        mime_type("weba"@) == "audio/webm"@,
        mime_type("aif"@) == "audio/aiff"@,
        mime_type("aiff"@) == "audio/aiff"@,
        mime_type("aifc"@) == "audio/aiff"@,
        mime_type("mid"@) == "audio/midi"@,
        mime_type("midi"@) == "audio/midi"@,
        mime_type("kar"@) == "audio/midi"@,
        mime_type("wma"@) == "audio/x-ms-wma"@,
        mime_type("wax"@) == "audio/x-ms-wax"@,
        mime_type("ra"@) == "audio/x-pn-realaudio"@,
        mime_type("ram"@) == "audio/x-pn-realaudio"@,
        mime_type("au"@) == "audio/basic"@,
        mime_type("snd"@) == "audio/basic"@,
        mime_type("amr"@) == "audio/amr"@,
        mime_type("awb"@) == "audio/amr-wb"@,
        mime_type("3ga"@) == "audio/3gpp"@,
        mime_type("caf"@) == "audio/x-caf"@,
        mime_type("ape"@) == "audio/x-ape"@,
        mime_type("wv"@) == "audio/x-wavpack"@,
        mime_type("tta"@) == "audio/x-tta"@,
        mime_type("mpc"@) == "audio/x-musepack"@,
        mime_type("mka"@) == "audio/x-matroska"@,
        mime_type("dsf"@) == "audio/x-dsf"@,
        mime_type("dff"@) == "audio/x-dff"@,
        mime_type("dts"@) == "audio/vnd.dts"@,
        mime_type("dtshd"@) == "audio/vnd.dts.hd"@,
        mime_type("ac3"@) == "audio/ac3"@,
        mime_type("eac3"@) == "audio/eac3"@,
        mime_type("gsm"@) == "audio/x-gsm"@,
        mime_type("voc"@) == "audio/x-voc"@,
        mime_type("mod"@) == "audio/x-mod"@,
        mime_type("s3m"@) == "audio/x-s3m"@,
        mime_type("xm"@) == "audio/x-xm"@,
        mime_type("it"@) == "audio/x-it"@,
        mime_type("m3u"@) == "audio/x-mpegurl"@,
        mime_type("m3u8"@) == "application/vnd.apple.mpegurl"@,
        mime_type("pls"@) == "audio/x-scpls"@,
        mime_type("mp4"@) == "video/mp4"@,
        mime_type("zip"@) == "application/zip"@,
        mime_type("gz"@) == "application/gzip"@,
        mime_type("tgz"@) == "application/gzip"@,
        mime_type("tar"@) == "application/x-tar"@,
        !seq![
            "html"@,
            "htm"@,
            "txt"@,
            "text"@,
            "md"@,
            "css"@,
            "js"@,
            "mjs"@,
            "json"@,
            "xml"@,
            "csv"@,
            "pdf"@,
            "png"@,
            "jpg"@,
            "jpeg"@,
            "gif"@,
            "svg"@,
            "webp"@,
            "ico"@,
            "mp3"@,
            "mp2"@,
            "mpga"@,
            "m4a"@,
            "m4b"@,
            "aac"@,
            "flac"@,
            "ogg"@,
            "oga"@,
            "opus"@,
            "spx"@,
            "wav"@,
            "weba"@,
            "aif"@,
            "aiff"@,
            "aifc"@,
            "mid"@,
            "midi"@,
            "kar"@,
            "wma"@,
            "wax"@,
            "ra"@,
            "ram"@,
            "au"@,
            "snd"@,
            "amr"@,
            "awb"@,
            "3ga"@,
            "caf"@,
            "ape"@,
            "wv"@,
            "tta"@,
            "mpc"@,
            "mka"@,
            "dsf"@,
            "dff"@,
            "dts"@,
            "dtshd"@,
            "ac3"@,
            "eac3"@,
            "gsm"@,
            "voc"@,
            "mod"@,
            "s3m"@,
            "xm"@,
            "it"@,
            "m3u"@,
            "m3u8"@,
            "pls"@,
            "mp4"@,
            "zip"@,
            "gz"@,
            "tgz"@,
            "tar"@,
        ].contains(e) ==> mime_type(e) == "application/octet-stream"@,
{
    reveal_strlit("html");
    reveal_strlit("htm");
    reveal_strlit("txt");
    reveal_strlit("text");
    reveal_strlit("md");
    reveal_strlit("css");
    reveal_strlit("js");
    reveal_strlit("mjs");
    reveal_strlit("json");
    reveal_strlit("xml");
    reveal_strlit("csv");
    reveal_strlit("pdf");
    reveal_strlit("png");
    reveal_strlit("jpg");
    reveal_strlit("jpeg");
    reveal_strlit("gif");
    reveal_strlit("svg");
    reveal_strlit("webp");
    reveal_strlit("ico");
    reveal_strlit("mp3");
    reveal_strlit("mp2");
    reveal_strlit("mpga");
    reveal_strlit("m4a");
    reveal_strlit("m4b");
    reveal_strlit("aac");
    reveal_strlit("flac");
    reveal_strlit("ogg");
    reveal_strlit("oga");
    reveal_strlit("opus");
    reveal_strlit("spx");
    reveal_strlit("wav");
    reveal_strlit("weba");
    reveal_strlit("aif");
    reveal_strlit("aiff");
    reveal_strlit("aifc");
    reveal_strlit("mid");
    reveal_strlit("midi");
    reveal_strlit("kar");
    reveal_strlit("wma");
    reveal_strlit("wax");
    reveal_strlit("ra");
    reveal_strlit("ram");
    reveal_strlit("au");
    reveal_strlit("snd");
    reveal_strlit("amr");
    reveal_strlit("awb");
    reveal_strlit("3ga");
    reveal_strlit("caf");
    reveal_strlit("ape");
    reveal_strlit("wv");
    reveal_strlit("tta");
    reveal_strlit("mpc");
    reveal_strlit("mka");
    reveal_strlit("dsf");
    reveal_strlit("dff");
    reveal_strlit("dts");
    reveal_strlit("dtshd");
    reveal_strlit("ac3");
    reveal_strlit("eac3");
    reveal_strlit("gsm");
    reveal_strlit("voc");
    reveal_strlit("mod");
    reveal_strlit("s3m");
    reveal_strlit("xm");
    reveal_strlit("it");
    reveal_strlit("m3u");
    reveal_strlit("m3u8");
    reveal_strlit("pls");
    reveal_strlit("mp4");
    reveal_strlit("zip");
    reveal_strlit("gz");
    reveal_strlit("tgz");
    reveal_strlit("tar");
    assert(word("html"@) == 228293224);
    assert(word("htm"@) == 1800808);
    assert(word("txt"@) == 1916020);
    assert(word("text"@) == 245248756);
    assert(word("md"@) == 12909);
    assert(word("css"@) == 1898979);
    assert(word("js"@) == 14826);
    assert(word("mjs"@) == 1897837);
    assert(word("json"@) == 232520170);
    assert(word("xml"@) == 1783544);
    assert(word("csv"@) == 1948131);
    assert(word("pdf"@) == 1684080);
    assert(word("png"@) == 1701744);
    assert(word("jpg"@) == 1701994);
    assert(word("jpeg"@) == 217675882);
    assert(word("gif"@) == 1684711);
    assert(word("svg"@) == 1702771);
    assert(word("webp"@) == 236499703);
    assert(word("ico"@) == 1831401);
    assert(word("mp3"@) == 850029);
    assert(word("mp2"@) == 833645);
    assert(word("mpga"@) == 205125741);
    assert(word("m4a"@) == 1596013);
    assert(word("m4b"@) == 1612397);
    assert(word("aac"@) == 1634529);
    assert(word("flac"@) == 209221222);
    assert(word("ogg"@) == 1700847);
    assert(word("oga"@) == 1602543);
    assert(word("opus"@) == 243103855);
    assert(word("spx"@) == 1980531);
    assert(word("wav"@) == 1945847);
    assert(word("weba"@) == 205042423);
    assert(word("aif"@) == 1684705);
    assert(word("aiff"@) == 215594209);
    assert(word("aifc"@) == 209302753);
    assert(word("mid"@) == 1651949);
    assert(word("midi"@) == 221852909);
    assert(word("kar"@) == 1880299);
    assert(word("wma"@) == 1603319);
    assert(word("wax"@) == 1978615);
    assert(word("ra"@) == 12530);
    assert(word("ram"@) == 1798386);
    assert(word("au"@) == 15073);
    assert(word("snd"@) == 1652595);
    assert(word("amr"@) == 1881825);
    assert(word("awb"@) == 1620961);
    assert(word("3ga"@) == 1602483);
    assert(word("caf"@) == 1683683);
    assert(word("ape"@) == 1669217);
    assert(word("wv"@) == 15223);
    assert(word("tta"@) == 1604212);
    assert(word("mpc"@) == 1636461);
    assert(word("mka"@) == 1603053);
    assert(word("dsf"@) == 1685988);
    assert(word("dff"@) == 1684324);
    assert(word("dts"@) == 1899108);
    assert(word("dtshd"@) == 27063548516);
    assert(word("ac3"@) == 848353);
    assert(word("eac3"@) == 108589285);
    assert(word("gsm"@) == 1800679);
    assert(word("voc"@) == 1636342);
    assert(word("mod"@) == 1652717);
    assert(word("s3m"@) == 1792499);
    assert(word("xm"@) == 14072);
    assert(word("it"@) == 14953);
    assert(word("m3u"@) == 1923565);
    assert(word("m3u8"@) == 119364077);
    assert(word("pls"@) == 1898096);
    assert(word("mp4"@) == 866413);
    assert(word("zip"@) == 1848570);
    assert(word("gz"@) == 15719);
    assert(word("tgz"@) == 2012148);
    assert(word("tar"@) == 1880308);
    let all = seq![
        "html"@,
        "htm"@,
        "txt"@,
        "text"@,
        "md"@,
        "css"@,
        "js"@,
        "mjs"@,
        "json"@,
        "xml"@,
        "csv"@,
        "pdf"@,
        "png"@,
        "jpg"@,
        "jpeg"@,
        "gif"@,
        "svg"@,
        "webp"@,
        "ico"@,
        "mp3"@,
        "mp2"@,
        "mpga"@,
        "m4a"@,
        "m4b"@,
        "aac"@,
        "flac"@,
        "ogg"@,
        "oga"@,
        "opus"@,
        "spx"@,
        "wav"@,
        "weba"@,
        "aif"@,
        "aiff"@,
        "aifc"@,
        "mid"@,
        "midi"@,
        "kar"@,
        "wma"@,
        "wax"@,
        "ra"@,
        "ram"@,
        "au"@,
        "snd"@,
        "amr"@,
        "awb"@,
        "3ga"@,
        "caf"@,
        "ape"@,
        "wv"@,
        "tta"@,
        "mpc"@,
        "mka"@,
        "dsf"@,
        "dff"@,
        "dts"@,
        "dtshd"@,
        "ac3"@,
        "eac3"@,
        "gsm"@,
        "voc"@,
        "mod"@,
        "s3m"@,
        "xm"@,
        "it"@,
        "m3u"@,
        "m3u8"@,
        "pls"@,
        "mp4"@,
        "zip"@,
        "gz"@,
        "tgz"@,
        "tar"@,
    ];
    assert(all[0] == "html"@);
    assert(all[1] == "htm"@);
    assert(all[2] == "txt"@);
    assert(all[3] == "text"@);
    assert(all[4] == "md"@);
    assert(all[5] == "css"@);
    assert(all[6] == "js"@);
    assert(all[7] == "mjs"@);
    assert(all[8] == "json"@);
    assert(all[9] == "xml"@);
    assert(all[10] == "csv"@);
    assert(all[11] == "pdf"@);
    assert(all[12] == "png"@);
    assert(all[13] == "jpg"@);
    assert(all[14] == "jpeg"@);
    assert(all[15] == "gif"@);
    assert(all[16] == "svg"@);
    assert(all[17] == "webp"@);
    assert(all[18] == "ico"@);
    assert(all[19] == "mp3"@);
    assert(all[20] == "mp2"@);
    assert(all[21] == "mpga"@);
    assert(all[22] == "m4a"@);
    assert(all[23] == "m4b"@);
    assert(all[24] == "aac"@);
    assert(all[25] == "flac"@);
    assert(all[26] == "ogg"@);
    assert(all[27] == "oga"@);
    assert(all[28] == "opus"@);
    assert(all[29] == "spx"@);
    assert(all[30] == "wav"@);
    assert(all[31] == "weba"@);
    assert(all[32] == "aif"@);
    assert(all[33] == "aiff"@);
    assert(all[34] == "aifc"@);
    assert(all[35] == "mid"@);
    assert(all[36] == "midi"@);
    assert(all[37] == "kar"@);
    assert(all[38] == "wma"@);
    assert(all[39] == "wax"@);
    assert(all[40] == "ra"@);
    assert(all[41] == "ram"@);
    assert(all[42] == "au"@);
    assert(all[43] == "snd"@);
    assert(all[44] == "amr"@);
    assert(all[45] == "awb"@);
    assert(all[46] == "3ga"@);
    assert(all[47] == "caf"@);
    assert(all[48] == "ape"@);
    assert(all[49] == "wv"@);
    assert(all[50] == "tta"@);
    assert(all[51] == "mpc"@);
    assert(all[52] == "mka"@);
    assert(all[53] == "dsf"@);
    assert(all[54] == "dff"@);
    assert(all[55] == "dts"@);
    assert(all[56] == "dtshd"@);
    assert(all[57] == "ac3"@);
    assert(all[58] == "eac3"@);
    assert(all[59] == "gsm"@);
    assert(all[60] == "voc"@);
    assert(all[61] == "mod"@);
    assert(all[62] == "s3m"@);
    assert(all[63] == "xm"@);
    assert(all[64] == "it"@);
    assert(all[65] == "m3u"@);
    assert(all[66] == "m3u8"@);
    assert(all[67] == "pls"@);
    assert(all[68] == "mp4"@);
    assert(all[69] == "zip"@);
    assert(all[70] == "gz"@);
    assert(all[71] == "tgz"@);
    assert(all[72] == "tar"@);
}

} // verus!
