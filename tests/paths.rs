use safe_backup::error::ErrorKind;
use safe_backup::paths::{check_within, ensure_within, join};

#[test]
fn containment_is_by_component() {
    assert_eq!(check_within("/a/b", "/a"), Ok(()));
    assert_eq!(check_within("/a", "/a"), Ok(()));
    assert_eq!(check_within("/a/b/c", "/a/"), Ok(()));
    assert_eq!(check_within("/anything", "/"), Ok(()));
    assert_eq!(check_within("/ab", "/a"), Err(ErrorKind::PermissionDenied));
    assert_eq!(check_within("/a", "/a/b"), Err(ErrorKind::PermissionDenied));
    assert_eq!(check_within("/b/a", "/a"), Err(ErrorKind::PermissionDenied));
}

#[test]
fn traversal_to_sibling_rejected() {
    assert_eq!(check_within("/srv/etc/passwd", "/srv/backups"), Err(ErrorKind::PermissionDenied));
    assert_eq!(ensure_within("../etc/passwd", "backups"), Err(ErrorKind::PermissionDenied));
    assert_eq!(ensure_within("backups/../../etc/passwd", "backups"), Err(ErrorKind::PermissionDenied));
}

#[test]
fn relative_paths_inside_accepted() {
    assert_eq!(ensure_within("backups/x.bak", "backups"), Ok(()));
    assert_eq!(ensure_within("backups/sub/../x.bak", "./backups"), Ok(()));
}

#[test]
fn join_inserts_one_separator() {
    assert_eq!(join("/a", "b"), "/a/b");
    assert_eq!(join("/a/", "b"), "/a/b");
    assert_eq!(join("", "b"), "b");
    assert_eq!(join("/a", "/etc"), "/etc");
}
