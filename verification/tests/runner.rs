use stowe::commands::run::{close_for, finish_run, RunAction, RunEvent, RunFlow};
use stowe::error::Error;
use stowe::runner::{check_secret_env, command_line, ChildOutcome, RunnerConfig};
use stowe::secret_value::SecretValue;

fn sv(s: &str) -> SecretValue {
    SecretValue::from_string(s.to_string())
}

#[test]
fn non_utf8_secret_rejected() {
    let bad = SecretValue::new(vec![0xFF, 0xFE, 0xFD]);
    let config = RunnerConfig {
        binary_path: "/bin/sh".into(),
        args: vec!["-c".into(), "exit 0".into()],
        secret_env: vec![("BAD".into(), bad)],
        sandbox_profile: None,
    };
    let result = check_secret_env(&config.secret_env);
    assert!(matches!(result, Err(Error::Invalid(_))));
}

#[test]
fn utf8_secrets_accepted_and_first_bad_named() {
    let env = vec![("FOO".to_string(), sv("bar")), ("X".to_string(), SecretValue::new(vec![0xC3])), ("Y".to_string(), SecretValue::new(vec![0xFF]))];
    let err = check_secret_env(&env).unwrap_err();
    assert_eq!(
        err.message(),
        "invalid input: secret for X contains non-UTF-8 bytes; binary secrets are not yet supported as env vars"
    );
    let ok = vec![("FOO".to_string(), sv("bar")), ("STOWE_TEST".to_string(), sv("expected-value"))];
    assert!(check_secret_env(&ok).is_ok());
    assert!(check_secret_env(&vec![]).is_ok());
}

#[test]
fn command_line_plain_and_sandboxed() {
    let config = RunnerConfig {
        binary_path: "/bin/sh".into(),
        args: vec!["-c".into(), "exit 42".into()],
        secret_env: vec![],
        sandbox_profile: None,
    };
    let (prog, args) = command_line(&config);
    assert_eq!(prog, "/bin/sh");
    assert_eq!(args, vec!["-c".to_string(), "exit 42".to_string()]);
    let config = RunnerConfig { sandbox_profile: Some("(version 1)".into()), ..config };
    let (prog, args) = command_line(&config);
    assert_eq!(prog, "/usr/bin/sandbox-exec");
    assert_eq!(args, vec!["-p", "(version 1)", "/bin/sh", "-c", "exit 42"]);
}

#[test]
fn close_record_follows_child() {
    let c = close_for(&Ok(ChildOutcome { exit_code: Some(7), duration_ms: 12 }));
    assert_eq!(c.duration_ms, Some(12));
    assert_eq!(c.child_exit, Some(7));
    let c = close_for(&Err(Error::Invalid("x".into())));
    assert_eq!(c.duration_ms, None);
    assert_eq!(c.child_exit, None);
}

#[test]
fn close_failure_masks_child_outcome() {
    let ok = finish_run(Ok(()), Ok(ChildOutcome { exit_code: Some(7), duration_ms: 1 })).unwrap();
    assert_eq!(ok.exit_code, Some(7));
    let e = finish_run(Err(Error::Database("audit row 3 not found for close".into())), Ok(ChildOutcome { exit_code: Some(0), duration_ms: 1 }));
    assert!(matches!(e, Err(Error::Database(_))));
    let e = finish_run(Ok(()), Err(Error::Invalid("bad".into())));
    assert!(matches!(e, Err(Error::Invalid(_))));
}

#[test]
fn run_flow_closes_row_whatever_the_child_did() {
    let mut flow = RunFlow::new();
    assert!(matches!(flow.step(RunEvent::SecretsRead(Ok(()))), RunAction::OpenRow));
    assert!(matches!(flow.step(RunEvent::RowOpened(Ok(9))), RunAction::RunChild));
    match flow.step(RunEvent::ChildDone(Err(Error::Invalid("spawn".into())))) {
        RunAction::CloseRow { id, close } => {
            assert_eq!(id, 9);
            assert_eq!(close.duration_ms, None);
        },
        other => panic!("expected CloseRow, got {:?}", other),
    }
    assert!(matches!(flow.step(RunEvent::RowClosed(Ok(()))), RunAction::Finish(Err(Error::Invalid(_)))));

    let mut flow = RunFlow::new();
    flow.step(RunEvent::SecretsRead(Ok(())));
    assert!(matches!(flow.step(RunEvent::RowOpened(Err(Error::Database("x".into())))), RunAction::Finish(Err(Error::Database(_)))));

    let mut flow = RunFlow::new();
    flow.step(RunEvent::SecretsRead(Ok(())));
    flow.step(RunEvent::RowOpened(Ok(1)));
    match flow.step(RunEvent::ChildDone(Ok(ChildOutcome { exit_code: Some(7), duration_ms: 5 }))) {
        RunAction::CloseRow { close, .. } => assert_eq!(close.child_exit, Some(7)),
        other => panic!("expected CloseRow, got {:?}", other),
    }
    match flow.step(RunEvent::RowClosed(Ok(()))) {
        RunAction::Finish(Ok(o)) => assert_eq!(o.exit_code, Some(7)),
        other => panic!("expected Finish, got {:?}", other),
    }
}

#[test]
fn failed_secrets_read_ends_run_before_any_row() {
    let mut flow = RunFlow::new();
    let a = flow.step(RunEvent::SecretsRead(Err(Error::NotFound { namespace: "ns".into(), var: "NEEDED".into() })));
    assert!(matches!(a, RunAction::Finish(Err(Error::NotFound { .. }))));
    assert!(flow.row.is_none());
}
