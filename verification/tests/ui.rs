use stowe::manifest::BiometricMode;
use stowe::secret_value::SecretValue;
use stowe::ui::{biometric_arg, reveal_text};

#[test]
fn ui_reveal_text() {
    assert_eq!(reveal_text(&SecretValue::from_string("sk-abc".into())), Ok("sk-abc".to_string()));
    assert_eq!(
        reveal_text(&SecretValue::new(vec![0xFF])),
        Err("secret contains non-UTF-8 bytes; binary secrets cannot be revealed in the UI".to_string())
    );
}

#[test]
fn ui_biometric_arg() {
    assert_eq!(biometric_arg("always"), Ok(BiometricMode::Always));
    assert_eq!(biometric_arg("never"), Ok(BiometricMode::Never));
    assert_eq!(biometric_arg("maybe"), Err("unknown biometric mode: maybe".to_string()));
}

#[test]
fn ui_audit_row_decodes_columns() {
    let row = stowe::ui::AuditRow::from_columns(3, "ts".into(), "ns".into(), "[\"A\",\"B\"]", "/bin/echo".into(), "[]", "denied".into(), Some("no".into()), None);
    assert_eq!(row.var_names, vec!["A".to_string(), "B".to_string()]);
    assert!(row.argv.is_empty());
    assert_eq!(row.outcome, "denied");
}

#[test]
fn ui_recent_accesses_query_clamps() {
    let q = stowe::ui::recent_accesses_query(5000);
    assert!(q.sql.ends_with("ORDER BY id DESC\n             LIMIT ?1"));
    assert!(matches!(q.params[0], stowe::audit::QueryParam::Integer(1000)));
    assert!(matches!(stowe::ui::recent_accesses_query(0).params[0], stowe::audit::QueryParam::Integer(1)));
}
