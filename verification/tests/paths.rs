use caption_server::captions::{caption_parent_dir, caption_write_target};
use caption_server::errors::ErrorKind;
use caption_server::path_guard::{
    is_contained, is_normal_root_check, join_path, normal_form_string, parent_of, relativize,
    str_eq,
};
use caption_server::serve::{route_request, serve_decision, RouteOutcome};

#[test]
fn contained_with_plain_relative() {
    let root = "/data/project";
    assert!(is_contained(root, &join_path(root, "a.txt")));
    assert!(is_contained(root, &join_path(root, "sub/b.txt")));
    assert!(is_contained(root, &join_path(root, "sub/./b.txt")));
    assert!(is_contained(root, &join_path(root, "")));
}

#[test]
fn contained_rejects_leading_parent() {
    let root = "/data/project";
    assert!(!is_contained(root, &join_path(root, "../../etc/passwd")));
    assert!(!is_contained(root, &join_path(root, "..")));
    assert!(!is_contained(root, &join_path(root, "../")));
    assert!(!is_contained(root, &join_path(root, "../other/file")));
}

#[test]
fn contained_respects_segment_boundary() {
    // "/data/projectx" begins with the characters of "/data/project" but is a
    // different directory.
    assert!(!is_contained("/data/project", "/data/projectx/file"));
    assert!(is_contained("/data/project", "/data/project/file"));
}

#[test]
fn contained_under_filesystem_root() {
    assert!(is_contained("/", "/anything/at/all"));
    assert!(is_contained("/", "/"));
}

#[test]
fn normal_form_resolves_dots() {
    assert_eq!(normal_form_string("/a/b/../c"), "/a/c");
    assert_eq!(normal_form_string("/a//b/./c"), "/a/b/c");
    assert_eq!(normal_form_string("/.."), "/");
    assert_eq!(normal_form_string("/a/b/"), "/a/b");
    assert_eq!(normal_form_string("/"), "/");
}

#[test]
fn normal_root_check_accepts_normal_roots() {
    assert!(is_normal_root_check("/data/project"));
    assert!(is_normal_root_check("/"));
    assert!(!is_normal_root_check("relative/path"));
    assert!(!is_normal_root_check("/data/project/"));
    assert!(!is_normal_root_check("/data/../data"));
    assert!(!is_normal_root_check(""));
}

#[test]
fn relativize_strips_root_and_separators() {
    assert_eq!(relativize("/data/project", "/data/project/sub/b.txt"), "sub/b.txt");
    assert_eq!(relativize("/data/project", "/data/project/a.txt"), "a.txt");
    // even when the root is not a prefix, leading separators are trimmed
    assert_eq!(relativize("/data/project", "/elsewhere/a.txt"), "elsewhere/a.txt");
    assert_eq!(relativize("/data/project", "/data/project\\win.txt"), "win.txt");
}

#[test]
fn parent_of_drops_last_segment() {
    assert_eq!(parent_of("/a/b"), Some("/a".to_string()));
    assert_eq!(parent_of("/a"), Some("/".to_string()));
    assert_eq!(parent_of("name"), None);
    assert_eq!(parent_of("/data/project/missing/dir/c.txt"), Some("/data/project/missing/dir".to_string()));
}

#[test]
fn str_eq_compares_characters() {
    assert!(str_eq("checkAlive", "checkAlive"));
    assert!(!str_eq("checkAlive", "checkalive"));
    assert!(!str_eq("a", "ab"));
}

#[test]
fn serve_rejects_traversal_regardless_of_existence() {
    // A request for a path that climbs out of the root is refused outright;
    // no filesystem is consulted.
    let r = serve_decision("/data/project", "../../etc/passwd");
    assert_eq!(r, Err(ErrorKind::NotFound));
    let r2 = serve_decision("/data/project", "/etc/passwd");
    assert_eq!(r2, Err(ErrorKind::NotFound));
}

#[test]
fn serve_accepts_contained_path() {
    let r = serve_decision("/data/project", "sub/b.txt");
    assert_eq!(r, Ok("/data/project/sub/b.txt".to_string()));
}

#[test]
fn route_request_liveness_and_files() {
    assert!(matches!(route_request("/data/project", "checkAlive"), RouteOutcome::Alive));
    match route_request("/data/project", "a.txt") {
        RouteOutcome::ServeFile(p) => assert_eq!(p, "/data/project/a.txt"),
        _ => panic!("expected a file to be served"),
    }
    assert!(matches!(
        route_request("/data/project", "../../etc/passwd"),
        RouteOutcome::Rejected
    ));
}

#[test]
fn write_escaping_path_is_invalid() {
    let r = caption_write_target("/data/project", "../escape.txt");
    assert_eq!(r, Err(ErrorKind::InvalidPath));
    let r2 = caption_write_target("/data/project", "/etc/passwd");
    assert_eq!(r2, Err(ErrorKind::InvalidPath));
}

#[test]
fn write_targets_and_missing_parent() {
    // The batch [("a.txt", ...), ("missing/dir/c.txt", ...)] validates in
    // full; the second entry's parent directory is the one to create.
    let t1 = caption_write_target("/data/project", "a.txt").unwrap();
    assert_eq!(t1, "/data/project/a.txt");
    let t2 = caption_write_target("/data/project", "missing/dir/c.txt").unwrap();
    assert_eq!(t2, "/data/project/missing/dir/c.txt");
    assert_eq!(caption_parent_dir(&t2), Some("/data/project/missing/dir".to_string()));
}

#[test]
fn write_then_serve_same_path() {
    // The file a write lands in is the file the server opens for the same
    // relative path.
    let rel = "sub/caption.txt";
    let written = caption_write_target("/data/project", rel).unwrap();
    let served = serve_decision("/data/project", rel).unwrap();
    assert_eq!(written, served);
}

#[test]
fn error_messages() {
    assert_eq!(ErrorKind::InvalidPath.message(), "Invalid path");
    assert_eq!(ErrorKind::NotFound.message(), "Not found");
    assert_eq!(ErrorKind::IoFailure.message(), "Error writing to file");
    assert_eq!(ErrorKind::NotReady.message(), "Not ready");
    assert_eq!(ErrorKind::DialogCancelled.message(), "No folder selected");
}
