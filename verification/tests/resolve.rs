use file_serve::errors::ServeError;
use file_serve::resolve::{
    join_request_path, path_segments, path_within_root, resolve_decision, validate_request_path,
};

#[test]
fn empty_path_is_valid() {
    assert_eq!(validate_request_path(""), Ok(()));
}

#[test]
fn ordinary_relative_paths_are_valid() {
    assert_eq!(validate_request_path("docs/report.pdf"), Ok(()));
    assert_eq!(validate_request_path("a"), Ok(()));
    assert_eq!(validate_request_path("with space/file name.txt"), Ok(()));
    assert_eq!(validate_request_path("single.dot/x.y"), Ok(()));
}

#[test]
fn dotdot_segment_is_rejected() {
    assert_eq!(
        validate_request_path("../etc/passwd"),
        Err(ServeError::InvalidRequestPath)
    );
    assert_eq!(
        validate_request_path("docs/../../secret"),
        Err(ServeError::InvalidRequestPath)
    );
    assert_eq!(
        validate_request_path("docs/.."),
        Err(ServeError::InvalidRequestPath)
    );
}

#[test]
fn any_dotdot_occurrence_is_rejected() {
    // the syntactic check is deliberately coarse: two adjacent dots
    // anywhere are refused, even inside a name
    assert_eq!(
        validate_request_path("a..b"),
        Err(ServeError::InvalidRequestPath)
    );
}

#[test]
fn leading_separator_is_rejected() {
    assert_eq!(
        validate_request_path("/etc/passwd"),
        Err(ServeError::InvalidRequestPath)
    );
    assert_eq!(validate_request_path("/"), Err(ServeError::InvalidRequestPath));
}

#[test]
fn backslash_is_rejected() {
    assert_eq!(
        validate_request_path("\\windows\\system32"),
        Err(ServeError::InvalidRequestPath)
    );
    assert_eq!(
        validate_request_path("docs\\file.txt"),
        Err(ServeError::InvalidRequestPath)
    );
}

#[test]
fn root_contains_itself() {
    assert!(path_within_root("/srv/files", "/srv/files"));
}

#[test]
fn root_contains_descendants() {
    assert!(path_within_root("/srv/files", "/srv/files/a.txt"));
    assert!(path_within_root("/srv/files", "/srv/files/docs/deep/b"));
}

#[test]
fn sibling_with_common_prefix_is_outside() {
    assert!(!path_within_root("/srv/files", "/srv/filesystem"));
    assert!(!path_within_root("/srv/files", "/srv/files2/a.txt"));
}

#[test]
fn unrelated_paths_are_outside() {
    assert!(!path_within_root("/srv/files", "/etc/passwd"));
    assert!(!path_within_root("/srv/files", "/srv"));
}

#[test]
fn filesystem_root_contains_everything() {
    assert!(path_within_root("/", "/etc/passwd"));
    assert!(path_within_root("/", "/"));
}

#[test]
fn join_empty_request_is_root() {
    assert_eq!(join_request_path("/srv/files", ""), "/srv/files");
}

#[test]
fn join_inserts_exactly_one_separator() {
    assert_eq!(join_request_path("/srv/files", "a/b.txt"), "/srv/files/a/b.txt");
    assert_eq!(join_request_path("/", "a.txt"), "/a.txt");
}

#[test]
fn segments_split_on_separators() {
    assert_eq!(path_segments("docs/sub/file.txt"), ["docs", "sub", "file.txt"]);
    assert_eq!(path_segments("one"), ["one"]);
}

#[test]
fn segments_drop_empty_pieces() {
    assert_eq!(path_segments("a//b/"), ["a", "b"]);
    assert_eq!(path_segments("/"), Vec::<String>::new());
    assert_eq!(path_segments(""), Vec::<String>::new());
}

#[test]
fn decision_inside_root_is_ok() {
    assert_eq!(
        resolve_decision(Some("/srv/files"), Some("/srv/files/a.txt")),
        Ok(())
    );
}

#[test]
fn decision_outside_root_is_traversal() {
    // a symlink inside the root pointing outside resolves to a
    // canonical path outside the canonical root
    assert_eq!(
        resolve_decision(Some("/srv/files"), Some("/etc/passwd")),
        Err(ServeError::TraversalRejected)
    );
}

#[test]
fn decision_without_canonical_target_is_not_found() {
    assert_eq!(
        resolve_decision(Some("/srv/files"), None),
        Err(ServeError::NotFound)
    );
}

#[test]
fn decision_without_canonical_root_is_io_failure() {
    assert_eq!(resolve_decision(None, None), Err(ServeError::IoFailure));
    assert_eq!(
        resolve_decision(None, Some("/srv/files/a.txt")),
        Err(ServeError::IoFailure)
    );
}
