use stowe::audit::{decode_strings, list_or_empty, AccessRow, check_closed, clamp_limit, schema_step, AuditFilter, CloseRun, OpenRun, Outcome, QueryParam, SchemaStep, SCHEMA_VERSION};
use stowe::error::Error;

#[test]
fn outcome_as_str() {
    assert_eq!(Outcome::Allowed.as_str(), "allowed");
    assert_eq!(Outcome::Denied.as_str(), "denied");
    assert_eq!(Outcome::BiometricFailed.as_str(), "biometric_failed");
}

#[test]
fn close_run_unknown_id_errors() {
    let err = check_closed(9999, 0).unwrap_err();
    assert!(matches!(err, Error::Database(ref msg) if msg.contains("not found")));
    assert!(check_closed(1, 1).is_ok());
}

#[test]
fn list_filtered_limit_clamps() {
    assert_eq!(clamp_limit(0), 1);
    assert_eq!(clamp_limit(-5), 1);
    assert_eq!(clamp_limit(50), 50);
    assert_eq!(clamp_limit(5000), 1000);
}

#[test]
fn filter_query_shapes() {
    let q = AuditFilter { namespace: None, outcome: None, limit: 100 }.query();
    assert!(q.sql.ends_with("WHERE 1=1 ORDER BY id DESC LIMIT ?"));
    assert_eq!(q.params.len(), 1);
    assert!(matches!(q.params[0], QueryParam::Integer(100)));
    let q = AuditFilter { namespace: Some("alpha".into()), outcome: Some("denied".into()), limit: 0 }.query();
    assert!(q.sql.ends_with(" AND namespace = ? AND outcome = ? ORDER BY id DESC LIMIT ?"));
    assert_eq!(q.params.len(), 3);
    assert!(matches!(&q.params[0], QueryParam::Text(t) if t == "alpha"));
    assert!(matches!(&q.params[1], QueryParam::Text(t) if t == "denied"));
    assert!(matches!(q.params[2], QueryParam::Integer(1)));
}

#[test]
fn schema_version_steps() {
    assert!(matches!(schema_step(None), Ok(SchemaStep::RecordVersion)));
    assert!(matches!(schema_step(Some(SCHEMA_VERSION)), Ok(SchemaStep::UpToDate)));
    let err = schema_step(Some(7)).unwrap_err();
    assert_eq!(err.message(), "database error: audit DB schema version 7 is newer than supported version 1");
    assert_eq!(check_closed(-3, 0).unwrap_err().message(), "database error: audit row -3 not found for close");
}

#[test]
fn denial_row_fields() {
    let argv = vec!["evil".to_string(), "--steal".to_string()];
    let info = OpenRun::denial("ns", "/tmp/evil", &argv, "binary not allowed", 42);
    assert_eq!(info.pid, Some(42));
    assert!(info.var_names.is_empty());
    assert_eq!(info.outcome, Outcome::Denied);
    assert_eq!(info.outcome.as_str(), "denied");
    assert_eq!(info.reason, Some("binary not allowed"));
    assert_eq!(info.binary_path, "/tmp/evil");
    let close = CloseRun::denial();
    assert_eq!(close.child_exit, None);
    assert_eq!(close.duration_ms, Some(0));
    let d = CloseRun::default();
    assert_eq!(d.child_exit, None);
    assert_eq!(d.duration_ms, None);
}

fn sample_open<'a>(vars: &'a [String], argv: &'a [String]) -> OpenRun<'a> {
    OpenRun {
        namespace: "cognis",
        var_names: vars,
        binary_path: "/bin/echo",
        binary_hash: None,
        pid: Some(42),
        ppid: Some(41),
        argv,
        outcome: Outcome::Allowed,
        reason: None,
    }
}

#[test]
fn json_columns_round_trip() {
    let vars = vec!["FOO".to_string(), "BAR \"quoted\"".to_string()];
    let argv = vec!["echo".to_string(), "hi\n".to_string()];
    let row = sample_open(&vars, &argv).insert_row().unwrap();
    assert_eq!(row.namespace, "cognis");
    assert_eq!(row.binary_path, "/bin/echo");
    assert_eq!(row.pid, Some(42));
    assert_eq!(row.ppid, Some(41));
    assert_eq!(row.outcome, "allowed");
    assert!(!row.ts.is_empty());
    assert_eq!(decode_strings(&row.var_names_json), vars);
    assert_eq!(decode_strings(&row.argv_json), argv);
    assert_eq!(row.var_names_json, "[\"FOO\",\"BAR \\\"quoted\\\"\"]");
}

#[test]
fn serialization_failures_become_database_errors() {
    let vars: Vec<String> = vec![];
    let argv: Vec<String> = vec![];
    let info = sample_open(&vars, &argv);
    let e = info.insert_values("t".into(), Err("boom".into()), Ok("[]".into())).unwrap_err();
    assert_eq!(e.message(), "database error: serializing var_names: boom");
    let e = info.insert_values("t".into(), Ok("[]".into()), Err("bang".into())).unwrap_err();
    assert_eq!(e.message(), "database error: serializing argv: bang");
    let row = info.insert_values("t".into(), Ok("[]".into()), Ok("[\"x\"]".into())).unwrap();
    assert_eq!(row.ts, "t");
    assert_eq!(row.argv_json, "[\"x\"]");
}

#[test]
fn bad_json_columns_read_as_empty() {
    assert!(decode_strings("not json").is_empty());
    assert!(decode_strings("{\"a\":1}").is_empty());
    assert_eq!(list_or_empty(None), Vec::<String>::new());
    let row = AccessRow::from_columns(1, "ts".into(), "ns".into(), "[\"A\"]", "/bin/sh".into(), None, Some(7), "oops", "allowed".into(), None, Some(3), Some(0));
    assert_eq!(row.var_names, vec!["A".to_string()]);
    assert!(row.argv.is_empty());
    assert_eq!(row.pid, Some(7));
    assert_eq!(row.duration_ms, Some(3));
}

#[test]
fn allowed_row_fields() {
    let names = vec!["FOO".to_string()];
    let argv = vec!["-c".to_string(), "exit 0".to_string()];
    let info = OpenRun::allowed("ns", &names, "/bin/sh", &argv, 7);
    assert_eq!(info.outcome, Outcome::Allowed);
    assert_eq!(info.reason, None);
    assert_eq!(info.pid, Some(7));
    assert_eq!(info.var_names, &names[..]);
    let row = info.insert_row().unwrap();
    assert_eq!(decode_strings(&row.var_names_json), names);
    assert_eq!(decode_strings(&row.argv_json), argv);
}

#[test]
fn json_columns_escape_control_characters() {
    let vars = vec!["A\\B".to_string(), "tab\there".to_string(), "\u{1}".to_string()];
    let argv: Vec<String> = vec![];
    let row = sample_open(&vars, &argv).insert_row().unwrap();
    assert_eq!(row.var_names_json, "[\"A\\\\B\",\"tab\\there\",\"\\u0001\"]");
    assert_eq!(row.argv_json, "[]");
}
