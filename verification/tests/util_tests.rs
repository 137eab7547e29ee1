use partydeck::util::{join_path, update_available, OsFmt, SanitizePath};

fn san(s: &str) -> String {
    s.to_string().sanitize_path()
}

#[test]
fn sanitize_keeps_plain_names() {
    assert_eq!(san(""), "");
    assert_eq!(san("plain"), "plain");
    assert_eq!(san("a.b/c"), "a.b/c");
}

#[test]
fn sanitize_strips_shell_characters() {
    assert_eq!(san("foo; rm -rf /"), "foo rm -rf /");
    assert_eq!(san("$HOME/`x`"), "HOME/x");
    assert_eq!(san("my game (x86)"), "my game x86");
    assert_eq!(san("a\"b<c>d|e&f"), "abcdef");
}

#[test]
fn sanitize_turns_backslashes_into_slashes() {
    assert_eq!(san("a\\b"), "a/b");
    assert_eq!(san("a//b"), "a/b");
    assert_eq!(san("a///b"), "a//b");
}

#[test]
fn sanitize_removes_traversal_and_leading_slash() {
    assert_eq!(san("../../etc/passwd"), "etc/passwd");
    assert_eq!(san("/abs/path"), "abs/path");
    assert_eq!(san("....//"), "..");
    assert_eq!(san(".../a"), ".a");
    assert_eq!(san(".hidden/./x"), ".hidden/x");
}

#[test]
fn sanitized_paths_never_climb_out() {
    for input in ["../x", "..\\..\\x", "a/../../b", "./../.././c", "/..//../d"] {
        let out = san(input);
        assert!(!out.contains("../"), "{input} -> {out}");
        assert!(!out.contains("./"), "{input} -> {out}");
        assert!(!out.starts_with('/'), "{input} -> {out}");
    }
}

#[test]
fn os_fmt_for_windows_games() {
    let p = "/home/u/game".to_string();
    assert_eq!(p.os_fmt(false), "/home/u/game");
    assert_eq!(p.os_fmt(true), "Z:\\home\\u\\game");
}

#[test]
fn join_follows_path_join() {
    assert_eq!(join_path("/a", "b"), "/a/b");
    assert_eq!(join_path("/a/", "b"), "/a/b");
    assert_eq!(join_path("/a", "/b"), "/b");
    assert_eq!(join_path("", "b"), "b");
    for (a, b) in [("/x/y", "z/w"), ("rel", "x"), ("/", "etc"), ("a", "")] {
        let expected = std::path::Path::new(a).join(b).to_string_lossy().into_owned();
        assert_eq!(join_path(a, b), expected);
    }
}

#[test]
fn update_check_strips_v() {
    assert!(!update_available("v1.2.3", "1.2.3"));
    assert!(!update_available("1.2.3", "1.2.3"));
    assert!(update_available("v1.2.4", "1.2.3"));
    assert!(update_available("vv1.2.3", "1.2.3"));
}
