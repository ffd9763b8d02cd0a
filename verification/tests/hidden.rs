use tiny_webdav::glob::glob_match;
use tiny_webdav::path::{is_hidden, is_hidden_name, path_has_hidden};

#[test]
fn hidden_prefixes_are_filtered() {
    for n in [
        ".htpasswd",
        ".git",
        ".env",
        ".DS_Store",
        "@eaDir",
        "$RECYCLE.BIN",
    ] {
        assert!(is_hidden_name(n), "{n} should be hidden");
    }
}

#[test]
fn ordinary_and_named_turds_are_not_hidden() {
    // Only the .@#$ prefixes are filtered; plain names are served — including
    // Windows turds like Desktop.ini/Thumbs.db and old VCS dirs like CVS.
    for n in [
        "index.html",
        "photo.jpg",
        "notes",
        "git",
        "#recycle",
        "Thumbs.db",
        "Desktop.ini",
        "lost+found",
        "CVS",
    ] {
        assert!(!is_hidden_name(n), "{n} should not be hidden");
    }
}

#[test]
fn path_hidden_matches_any_segment() {
    let none: &[String] = &[];
    assert!(path_has_hidden("/dir/.htpasswd", none));
    assert!(path_has_hidden("/.git/config", none)); // hidden ancestor
    assert!(path_has_hidden("/a/@eaDir/thumb.jpg", none));
    assert!(!path_has_hidden("/dir/sub/file.txt", none));
    assert!(!path_has_hidden("/", none));
}

#[test]
fn glob_matches_star_and_question() {
    assert!(glob_match("*", ".anything"));
    assert!(glob_match(".*", ".mpdignore"));
    assert!(glob_match(".mpdignore", ".mpdignore"));
    assert!(!glob_match(".mpdignore", ".mpdignorex"));
    assert!(glob_match("*.log", "server.log"));
    assert!(glob_match("a?c", "abc"));
    assert!(!glob_match("a?c", "ac"));
    assert!(glob_match("", ""));
    assert!(!glob_match("", "x"));
}

#[test]
fn expose_overrides_hiding() {
    let one = [".mpdignore".to_string()];
    assert!(!is_hidden(".mpdignore", &one)); // exposed by name
    assert!(is_hidden(".htpasswd", &one)); // still hidden
                                           // Whole-tree escape hatches:
    assert!(!is_hidden(".htpasswd", &["*".to_string()]));
    assert!(!is_hidden(".git", &[".*".to_string()]));
    // A non-hidden name is never hidden, with or without overrides.
    assert!(!is_hidden("file.txt", &[]));
    // Path gate honours the override too.
    assert!(!path_has_hidden("/music/.mpdignore", &one));
    assert!(path_has_hidden("/music/.git/x", &one));
}

#[test]
fn exposing_a_directory_reaches_its_children() {
    let data = [".data".to_string()];
    // Exposed hidden dir: the dir and its (non-hidden) descendants are reachable.
    assert!(!path_has_hidden("/.data", &data));
    assert!(!path_has_hidden("/.data/file.txt", &data));
    assert!(!path_has_hidden("/.data/sub/deep.txt", &data));
    // Not exposed: the hidden ancestor blocks every child.
    assert!(path_has_hidden("/.data/file.txt", &[]));
    // A *nested* hidden segment is still blocked even when the parent is
    // exposed — each segment is judged on its own.
    assert!(path_has_hidden("/.data/.secret/x", &data));
}
