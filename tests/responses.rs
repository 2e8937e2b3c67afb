use serve_dir::resolve::{resolve_request, RequestError};
use serve_dir::response::{
    classify, content_type_for, error_reply, file_head, from_fs_error, from_request_error,
    Dispatch, FsErrorKind, ServeError,
};

#[test]
fn css_file_gets_text_css() {
    let t = resolve_request("/srv", b"/style.css").unwrap();
    let head = file_head(&t, 42);
    assert_eq!(head.status, 200);
    assert_eq!(head.content_length, 42);
    assert!(head.content_type.starts_with("text/css"));
    assert_eq!(head.content_type, "text/css; charset=utf-8");
}

#[test]
fn unknown_extension_gets_octet_stream() {
    let t = resolve_request("/srv", b"/data.bin").unwrap();
    assert_eq!(file_head(&t, 0).content_type, "application/octet-stream");
}

#[test]
fn content_type_table() {
    assert_eq!(content_type_for("index.html"), "text/html; charset=utf-8");
    assert_eq!(content_type_for("old.htm"), "text/html; charset=utf-8");
    assert_eq!(content_type_for("a.json"), "application/json");
    assert_eq!(content_type_for("notes.txt"), "text/plain; charset=utf-8");
    assert_eq!(content_type_for("feed.xml"), "text/xml");
    assert_eq!(content_type_for("archive.tar.css"), "text/css; charset=utf-8");
}

#[test]
fn content_type_edge_names() {
    assert_eq!(content_type_for("README"), "application/octet-stream");
    assert_eq!(content_type_for(".css"), "application/octet-stream");
    assert_eq!(content_type_for("style.CSS"), "application/octet-stream");
    assert_eq!(content_type_for("a."), "application/octet-stream");
    assert_eq!(content_type_for(""), "application/octet-stream");
}

#[test]
fn classify_by_directory_flag() {
    assert_eq!(classify(true), Dispatch::Directory);
    assert_eq!(classify(false), Dispatch::File);
}

#[test]
fn malformed_encoding_is_bad_request() {
    let e = match resolve_request("/srv", b"/%ff") {
        Ok(_) => panic!("accepted"),
        Err(e) => e,
    };
    assert_eq!(e, RequestError::MalformedEncoding);
    let reply = error_reply(&from_request_error(e));
    assert_eq!(reply.status, 400);
    assert_eq!(reply.body, "Bad request");
}

#[test]
fn refused_paths_are_bad_requests() {
    for e in [RequestError::InvalidPath, RequestError::PathEscape] {
        let reply = error_reply(&from_request_error(e));
        assert_eq!(reply.status, 400);
        assert_eq!(reply.body, "Bad request");
    }
}

#[test]
fn missing_file_is_not_found() {
    let cause = "No such file or directory (os error 2)";
    let reply = error_reply(&from_fs_error(FsErrorKind::NotFound, cause.to_string()));
    assert_eq!(reply.status, 404);
    assert_eq!(reply.body, "IO error: No such file or directory (os error 2)");
    assert!(reply.body.contains("No such file"));
}

#[test]
fn denied_permission_is_forbidden() {
    let reply = error_reply(&from_fs_error(FsErrorKind::PermissionDenied, "Permission denied (os error 13)".to_string()));
    assert_eq!(reply.status, 403);
    assert_eq!(reply.body, "IO error: Permission denied (os error 13)");
}

#[test]
fn other_io_failure_is_server_error() {
    let e = from_fs_error(FsErrorKind::Other, "Is a directory (os error 21)".to_string());
    assert!(matches!(e, ServeError::IoFailure(_)));
    let reply = error_reply(&e);
    assert_eq!(reply.status, 500);
    assert_eq!(reply.body, "IO error: Is a directory (os error 21)");
}
