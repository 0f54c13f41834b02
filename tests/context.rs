use safe_backup::context::Context;
use safe_backup::error::ErrorKind;

fn ctx() -> Context {
    Context::with_layout("/srv/sbk", "data_test")
}

#[test]
fn malicious_input_rejected() {
    let ctx = ctx();

    let err = ctx.backup_plan("../etc/passwd").unwrap_err();
    assert_eq!(err, ErrorKind::InvalidInput);

    let err2 = ctx.delete_plan("bad/name").unwrap_err();
    assert_eq!(err2, ErrorKind::InvalidInput);
}

#[test]
fn layout_under_base() {
    let ctx = ctx();
    assert_eq!(ctx.base_dir, "/srv/sbk");
    assert_eq!(ctx.data_dir, "/srv/sbk/data_test");
    assert_eq!(ctx.backups_dir, "/srv/sbk/backups");
    assert_eq!(ctx.log_path, "/srv/sbk/logs/logfile.txt");
    assert_eq!(ctx.logs_dir(), "/srv/sbk/logs");
    let trailing = Context::with_layout("/srv/sbk/", "d");
    assert_eq!(trailing.data_dir, "/srv/sbk/d");
}

#[test]
fn whitelisted_names_accepted() {
    let ctx = ctx();
    assert_eq!(ctx.validate_filename("sample.txt"), Ok(()));
    assert_eq!(ctx.validate_filename("a-b_c.1"), Ok(()));
    assert_eq!(ctx.validate_filename("...") , Ok(()));
    assert_eq!(ctx.validate_filename(".hidden"), Ok(()));
}

#[test]
fn bad_names_rejected() {
    let ctx = ctx();
    for bad in ["", ".", "..", "a/b", "/etc", "sp ace", "tab\t", "caf\u{e9}", "x\\y", "a:b"] {
        assert_eq!(ctx.validate_filename(bad), Err(ErrorKind::InvalidInput), "{bad:?}");
    }
}

#[test]
fn plans_name_both_files() {
    let ctx = ctx();
    let (src, dst) = ctx.backup_plan("sample.txt").unwrap();
    assert_eq!(src, "/srv/sbk/data_test/sample.txt");
    assert_eq!(dst, "/srv/sbk/backups/sample.txt.bak");
    let (src, dst) = ctx.restore_plan("data.txt").unwrap();
    assert_eq!(src, "/srv/sbk/backups/data.txt.bak");
    assert_eq!(dst, "/srv/sbk/data_test/data.txt");
    assert_eq!(ctx.delete_plan("data.txt").unwrap(), "/srv/sbk/data_test/data.txt");
    assert_eq!(ctx.restore_plan(".."), Err(ErrorKind::InvalidInput));
    assert_eq!(ctx.data_path("x"), "/srv/sbk/data_test/x");
    assert_eq!(ctx.backup_path("x"), "/srv/sbk/backups/x.bak");
}

#[test]
fn error_messages() {
    assert_eq!(ErrorKind::NotFound.message(), "not found");
    assert_eq!(ErrorKind::InvalidInput.message(), "invalid input");
}
