use serve_dir::resolve::{decode_request_path, resolve_request, split_request_path, RequestError};

#[test]
fn decode_replaces_percent_escapes() {
    assert_eq!(decode_request_path(b"/a%20b/%C3%A9").unwrap(), "/a b/\u{e9}");
}

#[test]
fn decode_keeps_incomplete_escapes() {
    assert_eq!(decode_request_path(b"/100%/%zz%4").unwrap(), "/100%/%zz%4");
}

#[test]
fn decode_refuses_invalid_utf8() {
    assert_eq!(decode_request_path(b"/%ff%fe"), Err(RequestError::MalformedEncoding));
    assert_eq!(refusal(b"/bad%C3"), RequestError::MalformedEncoding);
}

fn refusal(raw: &[u8]) -> RequestError {
    match resolve_request("/srv/www", raw) {
        Ok(t) => panic!("accepted as {}", t.fs_path),
        Err(e) => e,
    }
}

#[test]
fn parent_reference_is_refused() {
    assert_eq!(refusal(b"/../etc/passwd"), RequestError::PathEscape);
    assert_eq!(refusal(b"/a/../../etc"), RequestError::PathEscape);
    assert_eq!(refusal(b"/a/.."), RequestError::PathEscape);
}

#[test]
fn encoded_parent_reference_is_refused() {
    assert_eq!(refusal(b"/a/%2e%2e/b"), RequestError::PathEscape);
    assert_eq!(refusal(b"/%2E%2E%2Fetc"), RequestError::PathEscape);
}

#[test]
fn markers_are_refused() {
    assert_eq!(refusal(b"/C:/Windows"), RequestError::PathEscape);
    assert_eq!(refusal(b"/a/%5C..%5Cb"), RequestError::PathEscape);
    assert_eq!(refusal(b"/x/d:"), RequestError::PathEscape);
}

#[test]
fn path_without_leading_slash_is_invalid() {
    assert_eq!(refusal(b"etc/passwd"), RequestError::InvalidPath);
    assert_eq!(refusal(b""), RequestError::InvalidPath);
}

#[test]
fn encoded_leading_slash_counts() {
    assert_eq!(resolve_request("/srv/www", b"%2Fetc").unwrap().fs_path, "/srv/www/etc");
}

#[test]
fn resolved_path_lies_under_root() {
    let t = resolve_request("/srv/www", b"/x//./y/file.txt").unwrap();
    assert_eq!(t.fs_path, "/srv/www/x/y/file.txt");
    assert_eq!(t.segments, vec!["x".to_string(), "y".to_string(), "file.txt".to_string()]);
    let root = resolve_request("/srv/www", b"/").unwrap();
    assert_eq!(root.fs_path, "/srv/www");
    assert!(root.segments.is_empty());
}

#[test]
fn names_with_dots_are_kept() {
    let t = resolve_request("/r", b"/...%20/.hidden/a..b").unwrap();
    assert_eq!(t.fs_path, "/r/... /.hidden/a..b");
}

#[test]
fn split_drops_empty_and_current_segments() {
    assert_eq!(split_request_path("/x/y/").unwrap(), vec!["x".to_string(), "y".to_string()]);
    assert_eq!(split_request_path("/./").unwrap(), Vec::<String>::new());
}
