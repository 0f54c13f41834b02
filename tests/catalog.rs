use safe_backup::catalog::{basename_or_default, has_prefix, BackupId, Catalog};
use safe_backup::digest::{content_digest, identity_of};
use safe_backup::error::ErrorKind;
use safe_backup::lex::str_lt;

const H: &str = "1c93befae025457fcdd63edc5eedc6b7b1a7bea26a6c0e432306f9ce7ea42f5a";

fn id(ts: &str, base: &str) -> String {
    format!("{H}__{ts}__{base}")
}

#[test]
fn identifier_layout() {
    let b = BackupId::at("/tmp/data.txt", "2025-08-14T10:22:11Z", Some("data.txt"));
    assert_eq!(b.hash, H);
    assert_eq!(b.to_identifier(), id("2025-08-14T10:22:11Z", "data.txt"));
    let nameless = BackupId::at("/tmp/data.txt", "T", None);
    assert_eq!(nameless.to_identifier(), format!("{H}__T__file"));
    assert_eq!(basename_or_default(Some("x")), "x");
}

#[test]
fn identifier_made_now_carries_hash_and_name() {
    let b = BackupId::now("/tmp/data.txt", Some("data.txt"));
    assert_eq!(b.hash, H);
    assert_eq!(b.basename, "data.txt");
    assert!(!b.timestamp.is_empty());
    assert!(b.to_identifier().starts_with(&format!("{H}__")));
}

#[test]
fn listing_orders_by_timestamp() {
    let t1 = id("2025-08-14T10:22:11Z", "data.txt");
    let t2 = id("2025-08-14T10:22:12Z", "data.txt");
    let t3 = id("2025-09-01T00:00:00Z", "data.txt");
    let other = identity_of("/tmp/other.txt") + "__2025-01-01T00:00:00Z__other.txt";
    let c = Catalog::new(vec![t3.clone(), other.clone(), t1.clone(), t2.clone()]);
    assert_eq!(c.list_for(H), vec![t1.clone(), t2.clone(), t3.clone()]);
    assert_eq!(c.latest_for(H), Some(t3.clone()));
    assert_eq!(c.list_for(&identity_of("/tmp/other.txt")), vec![other]);
}

#[test]
fn listing_empty_is_not_an_error() {
    let c = Catalog::new(vec!["unrelated".to_string()]);
    assert_eq!(c.list_for(H), Vec::<String>::new());
    assert_eq!(c.latest_for(H), None);
    assert_eq!(c.restore_source(H, None), Err(ErrorKind::NotFound));
    assert_eq!(Catalog::new(vec![]).list_for(H), Vec::<String>::new());
}

#[test]
fn equal_timestamps_fall_back_to_name() {
    let a = id("T", "a.txt");
    let b = id("T", "b.txt");
    let c = Catalog::new(vec![b.clone(), a.clone()]);
    assert_eq!(c.list_for(H), vec![a, b.clone()]);
    assert_eq!(c.latest_for(H), Some(b));
}

#[test]
fn resolve_and_restore_choice() {
    let t1 = id("2025-08-14T10:22:11Z", "data.txt");
    let t2 = id("2025-08-14T10:22:12Z", "data.txt");
    let c = Catalog::new(vec![t2.clone(), t1.clone()]);
    assert_eq!(c.resolve_by_id(&t1), Some(t1.clone()));
    assert_eq!(c.resolve_by_id("nope"), None);
    assert_eq!(c.restore_source(H, Some(&t1)), Ok(t1.clone()));
    assert_eq!(c.restore_source(H, None), Ok(t2.clone()));
    assert_eq!(c.restore_source(H, Some("nope")), Err(ErrorKind::NotFound));
    assert!(c.contains(&t2));
    assert!(!c.contains(&t2[..10]));
}

#[test]
fn delete_is_final() {
    let t1 = id("2025-08-14T10:22:11Z", "data.txt");
    let t2 = id("2025-08-14T10:22:12Z", "data.txt");
    let mut c = Catalog::new(vec![t1.clone(), t2.clone()]);
    assert_eq!(c.delete(&t2), Ok(()));
    assert_eq!(c.resolve_by_id(&t2), None);
    assert_eq!(c.restore_source(H, Some(&t2)), Err(ErrorKind::NotFound));
    assert_eq!(c.names(), &vec![t1.clone()]);
    assert_eq!(c.restore_source(H, None), Ok(t1.clone()));
    assert_eq!(c.delete(&t2), Err(ErrorKind::NotFound));
    assert_eq!(c.names(), &vec![t1]);
}

#[test]
fn backup_list_restore_delete_scenario() {
    let checksum = content_digest(b"Hello world\n");
    assert_eq!(checksum, "1894a19c85ba153acbf743ac4e43fc004c891604b26f8c69e1e83ea2afc7c48f");
    let hash = identity_of("/srv/files/data.txt");
    let entry = BackupId::at("/srv/files/data.txt", "2025-08-14T10:22:11Z", Some("data.txt")).to_identifier();
    let mut c = Catalog::new(vec![]);
    c.insert(entry.clone());
    assert_eq!(c.list_for(&hash), vec![entry.clone()]);
    assert_eq!(c.restore_source(&hash, None), Ok(entry.clone()));
    assert_eq!(c.delete(&entry), Ok(()));
    assert_eq!(c.list_for(&hash), Vec::<String>::new());
}

#[test]
fn string_order_and_prefix() {
    assert!(str_lt("a", "b"));
    assert!(str_lt("a", "ab"));
    assert!(!str_lt("ab", "a"));
    assert!(!str_lt("x", "x"));
    assert!(str_lt("", "x"));
    assert!(str_lt("Z", "a"));
    assert!(has_prefix("abc", "ab"));
    assert!(has_prefix("abc", ""));
    assert!(!has_prefix("ab", "abc"));
    assert!(!has_prefix("abc", "b"));
}
