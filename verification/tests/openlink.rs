use herdr_nvim::extract::{parse_token, resolve};
use herdr_nvim::openlink::{
    parse_clicked, parse_target, percent_decode, read_number, strip_file_url,
    strip_trailing_punct,
};
use herdr_nvim::path::{join, within};

#[test]
fn plain_relative_path_with_line() {
    assert_eq!(
        parse_clicked("src/main.rs:42"),
        Some(("src/main.rs".to_owned(), Some(42)))
    );
}

#[test]
fn plain_path_with_line_and_col_keeps_only_line() {
    assert_eq!(
        parse_clicked("src/main.rs:42:7"),
        Some(("src/main.rs".to_owned(), Some(42)))
    );
}

#[test]
fn tilde_path_left_unexpanded_for_resolve_later() {
    assert_eq!(
        parse_clicked("~/sub/notes.md"),
        Some(("~/sub/notes.md".to_owned(), None))
    );
}

#[test]
fn trailing_period_is_stripped() {
    assert_eq!(
        parse_clicked("src/main.rs."),
        Some(("src/main.rs".to_owned(), None))
    );
}

#[test]
fn trailing_comma_is_stripped() {
    assert_eq!(
        parse_clicked("src/main.rs,"),
        Some(("src/main.rs".to_owned(), None))
    );
}

#[test]
fn bare_filename_without_slash_is_not_path_shaped() {
    assert_eq!(parse_clicked("README.md"), None);
}

#[test]
fn file_url_without_host_strips_prefix() {
    assert_eq!(
        parse_clicked("file:///Users/adam/src/main.rs:10"),
        Some(("/Users/adam/src/main.rs".to_owned(), Some(10)))
    );
}

#[test]
fn file_url_with_host_strips_host_and_prefix() {
    assert_eq!(
        parse_clicked("file://localhost/Users/adam/src/main.rs"),
        Some(("/Users/adam/src/main.rs".to_owned(), None))
    );
}

#[test]
fn file_url_percent_decodes_spaces() {
    assert_eq!(
        parse_clicked("file:///Users/adam/my%20project/main.rs"),
        Some(("/Users/adam/my project/main.rs".to_owned(), None))
    );
}

#[test]
fn escapes_are_decoded_byte_by_byte() {
    assert_eq!(percent_decode("/a%2Fb%2fc"), "/a/b/c");
    assert_eq!(percent_decode("%C3%A9"), "\u{e9}");
    assert_eq!(percent_decode("no escapes, \u{e9}"), "no escapes, \u{e9}");
    assert_eq!(percent_decode("100%"), "100%");
    assert_eq!(percent_decode("%zz%2"), "%zz%2");
    assert_eq!(percent_decode("%%41"), "%A");
    // Only two hexadecimal digits are an escape, whatever else follows a percent sign.
    assert_eq!(percent_decode("%+A"), "%+A");
    assert_eq!(percent_decode("%+5"), "%+5");
    assert_eq!(percent_decode("%a\u{e9}"), "%a\u{e9}");
    assert_eq!(percent_decode("%\u{20ac}"), "%\u{20ac}");
    assert_eq!(percent_decode("%20\u{20ac}"), " \u{20ac}");
    // A byte that starts no character is replaced.
    assert_eq!(percent_decode("a%FFb"), "a\u{fffd}b");
}

#[test]
fn hosts_make_no_difference() {
    for host in ["", "localhost", "h.example:80"] {
        let address = format!("file://{host}/a%20b/c.rs");
        assert_eq!(strip_file_url(&address).as_deref(), Some("/a b/c.rs"));
    }
}

#[test]
fn punctuation_at_the_end_changes_nothing() {
    for text in [
        "src/main.rs:42",
        "/a/b.rs",
        "README.md",
        "file://host/a%20b.rs:7",
        "file:///a%2E",
        "file:///a%FF",
        "file://",
        "",
    ] {
        let plain = parse_clicked(text);
        for end in [".", ",", "...", ",.,", ".,"] {
            assert_eq!(parse_clicked(&format!("{text}{end}")), plain, "{text:?} {end:?}");
        }
    }
    // An escape may stand for punctuation too.
    assert_eq!(
        parse_clicked("file:///a/b.rs%2E,"),
        Some(("/a/b.rs".to_owned(), None))
    );
}

#[test]
fn only_addresses_of_files_are_stripped() {
    assert_eq!(strip_file_url("src/main.rs"), None);
    assert_eq!(strip_file_url("file://nothing"), None);
    assert_eq!(strip_file_url("file://h/a%20b").as_deref(), Some("/a b"));
}

#[test]
fn all_punctuation_at_the_end_is_cut_off() {
    assert_eq!(strip_trailing_punct("a.,.,"), "a");
    assert_eq!(strip_trailing_punct(".a"), ".a");
    assert_eq!(strip_trailing_punct("..."), "");
}

#[test]
fn a_token_needs_the_shape_of_a_path() {
    assert_eq!(parse_token("/bin"), Some(("/bin", None)));
    assert_eq!(parse_token("./x:3"), Some(("./x", Some(3))));
    assert_eq!(parse_token("and/or"), None);
    assert_eq!(parse_token("a.b/c"), None);
    assert_eq!(parse_token("a/.hidden"), None);
    assert_eq!(parse_token("a/b.rs:x"), Some(("a/b.rs:x", None)));
    assert_eq!(
        parse_token("a/b.rs:4294967296"),
        Some(("a/b.rs:4294967296", None))
    );
    assert_eq!(parse_token(""), None);
    assert_eq!(
        parse_target("app/[slug]/page.tsx:1,"),
        Some(("app/[slug]/page.tsx".to_owned(), Some(1)))
    );
}

#[test]
fn paths_are_seen_from_a_directory() {
    let home = Some("/home/u".to_owned());
    assert_eq!(resolve("src/a.rs", "/repo", &home), "/repo/src/a.rs");
    assert_eq!(resolve("/a.rs", "/repo", &home), "/a.rs");
    assert_eq!(resolve("~/a.rs", "/repo", &home), "/home/u/a.rs");
    assert_eq!(resolve("~", "/repo", &home), "/home/u");
    assert_eq!(resolve("~v/a.rs", "/repo", &home), "~v/a.rs");
    assert_eq!(resolve("~/a.rs", "/repo", &None), "~/a.rs");
}

#[test]
fn paths_from_the_root_or_home_are_the_same_from_everywhere() {
    let home = Some("/home/u".to_owned());
    for path in ["/a/b.rs", "~/b.rs", "~"] {
        assert_eq!(resolve(path, "/x", &home), resolve(path, "/y/z", &home));
    }
}

#[test]
fn joining_keeps_single_slashes() {
    assert_eq!(join("/a", "b"), "/a/b");
    assert_eq!(join("/a/", "b"), "/a/b");
    assert_eq!(join("", "b"), "b");
    assert_eq!(join("/a", "/b"), "/b");
}

#[test]
fn containment_goes_by_whole_steps() {
    assert!(within("/a/b/c", "/a/b"));
    assert!(within("/a//b/./c/", "/a/b/"));
    assert!(within("./a/b", "./a"));
    assert!(!within("a/b", "./a"));
    assert!(!within("/a/bc", "/a/b"));
    assert!(!within("/a", "/a/b"));
    assert!(!within("a", "/a"));
    assert!(!within("/a", "a"));
    assert!(within("/a", "/"));
    assert!(!within("a", "/"));
    // Every path is within a directory that has no component.
    assert!(within("/a", ""));
    assert!(within("a/b", ""));
    assert!(within("", ""));
    assert!(!within("", "a"));
    assert!(!within("/a", "."));
}

#[test]
fn line_arguments_are_numbers() {
    assert_eq!(read_number("12"), Some(12));
    assert_eq!(read_number("+12"), Some(12));
    assert_eq!(read_number("4294967295"), Some(u32::MAX));
    assert_eq!(read_number("4294967296"), None);
    assert_eq!(read_number("-1"), None);
    assert_eq!(read_number("+"), None);
    assert_eq!(read_number("1 "), None);
    assert_eq!(read_number(""), None);
}
