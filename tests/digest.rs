use safe_backup::digest::{content_digest, identity_of};

#[test]
fn content_checksum_is_sha256_hex() {
    assert_eq!(
        content_digest(b"Hello world\n"),
        "1894a19c85ba153acbf743ac4e43fc004c891604b26f8c69e1e83ea2afc7c48f"
    );
    assert_eq!(
        content_digest(b"Hello world"),
        "64ec88ca00b268e5ba1a35678a1b5316d212f4f366b2477232534a8aeca37f3c"
    );
    assert_eq!(
        content_digest(b""),
        "e3b0c44298fc1c149afbf4c8996fb92427ae41e4649b934ca495991b7852b855"
    );
}

#[test]
fn identity_is_stable_and_distinct() {
    let a = identity_of("/tmp/data.txt");
    assert_eq!(a, "1c93befae025457fcdd63edc5eedc6b7b1a7bea26a6c0e432306f9ce7ea42f5a");
    assert_eq!(identity_of("/tmp/data.txt"), a);
    assert_ne!(identity_of("/tmp/data.txt2"), a);
    assert_eq!(a.len(), 64);
}
