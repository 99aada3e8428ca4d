use stowe::wipe::confirms_wipe;
use stowe::error::Error;
use stowe::memory::InMemoryVault;
use stowe::secret_value::SecretValue;
use stowe::vault::Vault;
use stowe::wipe::wipe_all;

#[test]
fn wipes_all_secrets_no_audit() {
    let mut v = InMemoryVault::new();
    v.set("ns1", "A", SecretValue::from_string("v".into())).unwrap();
    v.set("ns1", "B", SecretValue::from_string("v".into())).unwrap();
    v.set("ns2", "C", SecretValue::from_string("v".into())).unwrap();
    let report = wipe_all(&mut v).unwrap().with_audit_truncation(None);
    assert_eq!(report.namespaces_deleted, 2);
    assert_eq!(report.vars_deleted, 3);
    assert_eq!(report.audit_rows_deleted, 0);
    assert!(v.list_namespaces().unwrap().is_empty());
}

#[test]
fn wipes_empty_vault_is_noop() {
    let mut v = InMemoryVault::new();
    let report = wipe_all(&mut v).unwrap();
    assert_eq!(report.namespaces_deleted, 0);
    assert_eq!(report.vars_deleted, 0);
}

#[test]
fn audit_truncation_counts_only_success() {
    let mut v = InMemoryVault::new();
    let report = wipe_all(&mut v).unwrap();
    assert_eq!(report.with_audit_truncation(Some(Ok(5))).audit_rows_deleted, 5);
    assert_eq!(report.with_audit_truncation(Some(Err(Error::Database("x".into())))).audit_rows_deleted, 0);
    assert_eq!(report.with_audit_truncation(None).audit_rows_deleted, 0);
}

#[test]
fn wipe_confirmation_phrase() {
    assert!(confirms_wipe("WIPE EVERYTHING\n"));
    assert!(confirms_wipe("  WIPE EVERYTHING  "));
    assert!(!confirms_wipe("wipe everything\n"));
    assert!(!confirms_wipe(""));
}
