use citadelle::errs::FsError;
use citadelle::guard::{validate_path, validate_two_paths, Resolution};

fn roots() -> Vec<String> {
    vec!["/home/user".to_string(), "/tmp".to_string()]
}

#[test]
fn traversal_is_rejected_before_anything_else() {
    // Even a resolution that lands inside an allowed root cannot save a
    // raw string holding "..".
    let res = Resolution::Exists { canonical: "/tmp/ok".to_string() };
    let r = validate_path("/tmp/a/../ok", &res, &roots());
    assert!(matches!(r, Err(FsError::PathTraversal)));
}

#[test]
fn traversal_in_home_style_path_is_rejected() {
    let res = Resolution::Exists { canonical: "/etc/passwd".to_string() };
    let r = validate_path("~/a/../../etc/passwd", &res, &roots());
    assert!(matches!(r, Err(FsError::PathTraversal)));
}

#[test]
fn existing_path_under_tmp_is_accepted() {
    let res = Resolution::Exists { canonical: "/tmp/notes/file.md".to_string() };
    let r = validate_path("/tmp/notes/file.md", &res, &roots()).unwrap();
    assert_eq!(r.path, "/tmp/notes/file.md");
    assert_eq!(r.requested, "/tmp/notes/file.md");
}

#[test]
fn existing_path_under_home_is_accepted() {
    let res = Resolution::Exists { canonical: "/home/user/doc.txt".to_string() };
    let r = validate_path("/home/user/doc.txt", &res, &roots()).unwrap();
    assert_eq!(r.path, "/home/user/doc.txt");
}

#[test]
fn root_itself_is_accepted() {
    let res = Resolution::Exists { canonical: "/tmp".to_string() };
    let r = validate_path("/tmp", &res, &roots()).unwrap();
    assert_eq!(r.path, "/tmp");
}

#[test]
fn path_outside_all_roots_is_denied() {
    let res = Resolution::Exists { canonical: "/etc/passwd".to_string() };
    let r = validate_path("/etc/passwd", &res, &roots());
    assert!(matches!(r, Err(FsError::AccessDenied)));
}

#[test]
fn sibling_directory_sharing_a_prefix_is_denied() {
    // "/home/user2" merely starts with the root's name; coverage is
    // component-wise.
    let res = Resolution::Exists { canonical: "/home/user2/secret".to_string() };
    let r = validate_path("/home/user2/secret", &res, &roots());
    assert!(matches!(r, Err(FsError::AccessDenied)));
}

#[test]
fn new_file_rejoins_its_name_to_the_canonical_parent() {
    let res = Resolution::ParentExists { canonical_parent: "/tmp/notes".to_string() };
    let r = validate_path("/tmp/link/new.md", &res, &roots()).unwrap();
    assert_eq!(r.path, "/tmp/notes/new.md");
}

#[test]
fn deeply_nonexistent_path_is_judged_raw() {
    let res = Resolution::ParentMissing;
    let r = validate_path("/tmp/a/b/c.txt", &res, &roots()).unwrap();
    assert_eq!(r.path, "/tmp/a/b/c.txt");
}

#[test]
fn deeply_nonexistent_path_outside_roots_is_denied() {
    let res = Resolution::ParentMissing;
    let r = validate_path("/var/a/b/c.txt", &res, &roots());
    assert!(matches!(r, Err(FsError::AccessDenied)));
}

#[test]
fn path_without_parent_is_invalid() {
    let r = validate_path("/", &Resolution::NoParent, &roots());
    assert!(matches!(r, Err(FsError::InvalidPath)));
}

#[test]
fn failed_canonicalization_is_invalid() {
    let res = Resolution::Failed { message: "no such file".to_string() };
    let r = validate_path("/tmp/x", &res, &roots());
    assert!(matches!(r, Err(FsError::InvalidPath)));
}

#[test]
fn two_paths_both_valid() {
    let r1 = Resolution::Exists { canonical: "/tmp/a".to_string() };
    let r2 = Resolution::Exists { canonical: "/tmp/b".to_string() };
    let (a, b) = validate_two_paths("/tmp/a", &r1, "/tmp/b", &r2, &roots()).unwrap();
    assert_eq!(a.path, "/tmp/a");
    assert_eq!(b.path, "/tmp/b");
}

#[test]
fn two_paths_first_failure_wins() {
    // The first path fails with traversal; the second would be denied,
    // but the first error is reported.
    let r1 = Resolution::Exists { canonical: "/tmp/a".to_string() };
    let r2 = Resolution::Exists { canonical: "/etc/b".to_string() };
    let r = validate_two_paths("/tmp/../a", &r1, "/etc/b", &r2, &roots());
    assert!(matches!(r, Err(FsError::PathTraversal)));
}

#[test]
fn error_messages_are_stable() {
    assert_eq!(FsError::PathTraversal.message(), "Access denied: path traversal detected");
    assert_eq!(FsError::AccessDenied.message(), "Access denied: path is outside allowed directories");
    assert_eq!(FsError::InvalidPath.message(), "Invalid path");
    assert_eq!(FsError::NotADirectory.message(), "Path is not a directory");
    assert_eq!(FsError::Io { message: "boom".to_string() }.message(), "boom");
}
