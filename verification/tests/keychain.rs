use stowe::error::Error;
use stowe::index::Index;
use stowe::keychain::{
    checked_service, finish_delete, finish_get, finish_set, keychain_error, service, validate_key, validate_name, KeychainFailure, KeychainVault,
    ERR_SEC_ITEM_NOT_FOUND,
};

#[test]
fn empty_inputs_rejected() {
    let err1 = validate_key("", "X");
    assert!(matches!(err1, Err(Error::Invalid(_))));
    let err2 = validate_key("ns", "");
    assert!(matches!(err2, Err(Error::Invalid(_))));
}

#[test]
fn disallowed_characters_rejected() {
    let cases = vec![
        ("ns with space", "X"),
        ("ns/slash", "X"),
        ("ns", "var with space"),
        ("ns", "var/slash"),
        ("ns", "var\twith\ttab"),
    ];
    for (ns, var) in cases {
        let result = validate_key(ns, var);
        assert!(matches!(result, Err(Error::Invalid(_))), "expected Invalid for ({:?}, {:?}), got {:?}", ns, var, result);
    }
}

#[test]
fn validation_messages_are_exact() {
    assert_eq!(validate_name("namespace", "").unwrap_err().message(), "invalid input: namespace must be non-empty");
    assert_eq!(validate_name("var", "a b").unwrap_err().message(), "invalid input: var contains disallowed character: ' '");
    assert_eq!(validate_name("var", "a\tb").unwrap_err().message(), "invalid input: var contains disallowed character: '\\t'");
    assert_eq!(validate_name("var", "a/b").unwrap_err().message(), "invalid input: var contains disallowed character: '/'");
    assert!(validate_key("cognis", "API_KEY").is_ok());
    assert_eq!(validate_key("a b", "").unwrap_err().message(), "invalid input: namespace contains disallowed character: ' '");
}

#[test]
fn service_name_and_status_mapping() {
    assert_eq!(service("cognis"), "stowe.cognis");
    match keychain_error(ERR_SEC_ITEM_NOT_FOUND, None, "ns", "K") {
        Error::NotFound { namespace, var } => {
            assert_eq!(namespace, "ns");
            assert_eq!(var, "K");
        },
        other => panic!("expected NotFound, got {:?}", other),
    }
    match keychain_error(-25293, Some("auth failed".into()), "ns", "K") {
        Error::Keychain(m) => assert_eq!(m, "auth failed (code -25293)"),
        other => panic!("expected Keychain, got {:?}", other),
    }
    match keychain_error(-4, None, "ns", "K") {
        Error::Keychain(m) => assert_eq!(m, "keychain error code -4"),
        other => panic!("expected Keychain, got {:?}", other),
    }
}

#[test]
fn keychain_service_checked_before_any_keychain_call() {
    assert!(matches!(checked_service("", "X"), Err(Error::Invalid(_))));
    assert!(matches!(checked_service("ns", "var/slash"), Err(Error::Invalid(_))));
    assert_eq!(checked_service("cognis", "API_KEY").unwrap(), "stowe.cognis");
}

#[test]
fn keychain_results_are_mapped() {
    let v = finish_get("ns", "K", Ok(b"sk-abc".to_vec())).unwrap();
    assert_eq!(v.expose(), b"sk-abc");
    let e = finish_get("ns", "K", Err(KeychainFailure { code: ERR_SEC_ITEM_NOT_FOUND, message: None }));
    assert!(matches!(e, Err(Error::NotFound { .. })));
    let mut idx = Index::empty("p".into());
    idx.add("ns", "K");
    finish_delete(&mut idx, "ns", "K", Ok(())).unwrap();
    assert!(idx.namespaces().is_empty());
    idx.add("ns", "K");
    let e = finish_delete(&mut idx, "ns", "K", Err(KeychainFailure { code: -1, message: Some("denied".into()) }));
    assert!(matches!(e, Err(Error::Keychain(ref m)) if m == "denied (code -1)"));
    assert_eq!(idx.vars_in("ns"), vec!["K"]);
    finish_set(&mut idx, "ns", "L", Ok(())).unwrap();
    assert_eq!(idx.vars_in("ns"), vec!["K", "L"]);
}

#[test]
fn keychain_settled_writes_are_listed() {
    let mut v = KeychainVault::open_with_index(Index::empty("/tmp/stowe-test/index.toml".into()));
    v.settle_set("cognis", "API_KEY", Ok(())).unwrap();
    v.settle_set("cognis", "DB_URL", Ok(())).unwrap();
    let failed = v.settle_set("shopify", "TOKEN", Err(KeychainFailure { code: -25293, message: None }));
    assert!(matches!(failed, Err(Error::Keychain(ref m)) if m == "keychain error code -25293"));
    assert_eq!(v.list_namespaces().unwrap(), vec!["cognis"]);
    assert_eq!(v.list_vars("cognis").unwrap(), vec!["API_KEY", "DB_URL"]);
    assert_eq!(v.index().path(), "/tmp/stowe-test/index.toml");
}

#[test]
fn keychain_settled_write_appends_one_entry() {
    let mut v = KeychainVault::open_with_index(Index::empty("/tmp/stowe-test/index.toml".into()));
    v.settle_set("cognis", "API_KEY", Ok(())).unwrap();
    v.settle_set("cognis", "DB_URL", Ok(())).unwrap();
    v.settle_set("cognis", "API_KEY", Ok(())).unwrap();
    let entries = v.index().entries();
    assert_eq!(entries.len(), 2);
    assert_eq!(entries[1].namespace, "cognis");
    assert_eq!(entries[1].var, "DB_URL");
    assert!(entries[1].added_at.ends_with('Z'));
}
