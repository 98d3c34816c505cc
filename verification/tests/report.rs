use envhist::report::{default_snapshot_name, export_line, dry_run_line, snapshot_line};
use envhist::session::Timestamp;
use envhist::storage::Snapshot;
use envhist::Env;

fn snapshot(name: &str, description: Option<&str>, session_id: Option<u128>) -> Snapshot {
    Snapshot {
        name: name.to_string(),
        created_at: Timestamp::new(0, 0),
        description: description.map(|d| d.to_string()),
        environment: Env::new(),
        tags: Vec::new(),
        session_id,
    }
}

#[test]
fn export_lines_quote_the_value() {
    assert_eq!(export_line("FOO", "bar"), "export FOO=\"bar\"");
    assert_eq!(export_line("FOO", ""), "export FOO=\"\"");
    assert_eq!(export_line("MSG", "say \"hi\""), "export MSG=\"say \\\"hi\\\"\"");
    assert_eq!(export_line("Q", "\""), "export Q=\"\\\"\"");
    assert_eq!(export_line("Q", "\"\"x"), "export Q=\"\\\"\\\"x\"");
    assert_eq!(export_line("P", "a\\b é"), "export P=\"a\\b é\"");
}

#[test]
fn export_lines_agree_with_replacing_quotes() {
    for value in ["", "plain", "\"", "a\"b\"c", "\"\"\"", "日\"本", "x\\\"y"] {
        assert_eq!(export_line("K", value), format!("export K=\"{}\"", value.replace("\"", "\\\"")));
    }
}

#[test]
fn dry_run_lines_show_name_and_value() {
    assert_eq!(dry_run_line("FOO", "bar baz"), "  FOO=bar baz");
}

#[test]
fn default_snapshot_names_carry_the_time() {
    assert_eq!(default_snapshot_name("20240102-030405"), "snapshot-20240102-030405");
}

#[test]
fn snapshot_lines_tell_the_scope() {
    let id = 0x0123456789abcdef0123456789abcdef;
    assert_eq!(
        snapshot_line(&snapshot("nightly", None, None), "2024-01-02 03:04:05", Some(id)),
        "  nightly - 2024-01-02 03:04:05 (global)"
    );
    assert_eq!(
        snapshot_line(&snapshot("nightly", Some("before upgrade"), Some(id)), "t", Some(id)),
        "  nightly - t (this session) - before upgrade"
    );
    assert_eq!(
        snapshot_line(&snapshot("nightly", None, Some(id)), "t", Some(1)),
        "  nightly - t (session: 01234567-89ab-cdef-0123-456789abcdef)"
    );
    assert_eq!(
        snapshot_line(&snapshot("nightly", Some(""), Some(id)), "t", None),
        "  nightly - t (session: 01234567-89ab-cdef-0123-456789abcdef) - "
    );
}
