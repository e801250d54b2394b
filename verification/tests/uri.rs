use editor_lsp::paths::PathStyle;
use editor_lsp::uri::{file_uri_to_path_in_style, path_to_file_uri, percent_decode};

#[test]
fn client_file_uri_roundtrip_handles_windows_paths() {
    let path = r"P:\volt\src\main.rs";
    let uri = path_to_file_uri(path);
    assert_eq!(file_uri_to_path_in_style(&uri, PathStyle::Windows), Some(path.to_owned()));
}

#[test]
fn tests_file_uri_roundtrip_handles_windows_paths() {
    let path = r"P:\volt\src\main.rs";
    let uri = path_to_file_uri(path);
    assert_eq!(file_uri_to_path_in_style(&uri, PathStyle::Windows), Some(path.to_owned()));
}

#[test]
fn file_uri_encodes_reserved_bytes() {
    assert_eq!(path_to_file_uri("/tmp/a b#c.rs"), "file:///tmp/a%20b%23c.rs");
    assert_eq!(path_to_file_uri(r"C:\x"), "file:///C:/x");
    assert_eq!(path_to_file_uri("/é"), "file:///%C3%A9");
}

#[test]
fn posix_file_uri_roundtrip() {
    let path = "/home/sam/my project/ünïcode.rs";
    let uri = path_to_file_uri(path);
    assert_eq!(file_uri_to_path_in_style(&uri, PathStyle::Posix), Some(path.to_owned()));
}

#[test]
fn non_file_uris_have_no_path() {
    assert_eq!(file_uri_to_path_in_style("https://example.com/x", PathStyle::Posix), None);
    assert_eq!(file_uri_to_path_in_style("csharp:/metadata/x.cs", PathStyle::Windows), None);
}

#[test]
fn percent_decode_keeps_incomplete_escapes_and_accepts_plus_sign() {
    assert_eq!(percent_decode("a%20b"), "a b");
    assert_eq!(percent_decode("100%"), "100%");
    assert_eq!(percent_decode("%4"), "%4");
    assert_eq!(percent_decode("%zz"), "%zz");
    assert_eq!(percent_decode("%+5x"), "\u{5}x");
    assert_eq!(percent_decode("%ff"), "\u{fffd}");
}
