use std::path::PathBuf;

use cmux::static_files::{
    content_type_for, get_mime_type, hex_value, percent_decode, request_file_path, resolve_path,
};

#[test]
fn percent_decoding_handles_sequences() {
    assert_eq!(percent_decode("/foo%20bar"), Some("/foo bar".into()));
    assert_eq!(percent_decode("/a%2Fb"), Some("/a/b".into()));
    assert_eq!(percent_decode("/%7Euser"), Some("/~user".into()));
    assert_eq!(percent_decode("/invalid%zz"), None);
}

#[test]
fn resolve_path_prevents_traversal() {
    let root = PathBuf::from("/static");
    let r = |p: &str| resolve_path("/static", p).map(PathBuf::from);
    assert_eq!(r("/"), Some(root.join("index.html")));
    assert_eq!(r("/foo"), Some(root.join("foo")));
    assert_eq!(r("/foo/"), Some(root.join("foo/index.html")));
    assert_eq!(r("/../secret"), None);
}

#[test]
fn percent_decoding_edge_cases() {
    assert_eq!(percent_decode(""), Some(String::new()));
    assert_eq!(percent_decode("a+b"), Some("a b".into()));
    assert_eq!(percent_decode("%4a%4A"), Some("JJ".into()));
    assert_eq!(percent_decode("%2"), None);
    assert_eq!(percent_decode("ab%"), None);
    assert_eq!(hex_value(b'f'), Some(15));
    assert_eq!(hex_value(b'G'), None);
}

#[test]
fn resolve_path_skips_dot_segments() {
    assert_eq!(resolve_path("/srv/", "/a/./b//c"), Some("/srv/a/b/c".to_string()));
    assert_eq!(resolve_path("/srv", "/a%2F..%2Fb"), None);
    assert_eq!(resolve_path("/srv", "/%zz"), None);
}

#[test]
fn content_types_by_extension() {
    assert_eq!(content_type_for("/x/vnc.html"), "text/html; charset=utf-8");
    assert_eq!(content_type_for("/x/app.js"), "application/javascript");
    assert_eq!(content_type_for("/x/.bashrc"), "application/octet-stream");
    assert_eq!(content_type_for("/x/README"), "application/octet-stream");
    assert_eq!(get_mime_type("a/b.gif"), "image/gif");
    assert_eq!(get_mime_type("a/b.txt"), "application/octet-stream");
    assert_eq!(get_mime_type("a/b.tar.woff2"), "font/woff2");
}

#[test]
fn request_paths_map_to_files() {
    assert_eq!(request_file_path("/"), "index.html");
    assert_eq!(request_file_path("//app/?x=1"), "app/index.html");
    assert_eq!(request_file_path("/vnc.html?autoconnect=1"), "vnc.html");
}
