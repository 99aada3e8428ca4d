use stowe::commands::{add, list, reveal_cmd, run};
use stowe::error::Error;
use stowe::manifest::{Manifest, Policy, VarSpec};
use stowe::memory::InMemoryVault;
use stowe::secret_value::SecretValue;
use stowe::vault::Vault;

fn sv(s: &str) -> SecretValue {
    SecretValue::from_string(s.to_string())
}

fn populated() -> InMemoryVault {
    let mut v = InMemoryVault::new();
    v.set("cognis", "API_KEY", sv("k1")).unwrap();
    v.set("cognis", "DB_URL", sv("k2")).unwrap();
    v.set("shopify", "TOKEN", sv("k3")).unwrap();
    v
}

#[test]
fn namespaces_returns_each_namespace_with_count() {
    let vault = populated();
    let summaries = list::namespaces(&vault).unwrap();
    assert_eq!(summaries.len(), 2);
    let cognis = summaries.iter().find(|s| s.namespace == "cognis").unwrap();
    assert_eq!(cognis.var_count, 2);
    let shopify = summaries.iter().find(|s| s.namespace == "shopify").unwrap();
    assert_eq!(shopify.var_count, 1);
}

#[test]
fn namespaces_empty_vault_returns_empty() {
    let vault = InMemoryVault::new();
    assert!(list::namespaces(&vault).unwrap().is_empty());
}

#[test]
fn vars_returns_sorted_names_in_namespace() {
    let vault = populated();
    let v = list::vars(&vault, "cognis").unwrap();
    assert_eq!(v, vec!["API_KEY", "DB_URL"]);
}

#[test]
fn vars_unknown_namespace_returns_empty() {
    let vault = populated();
    let v = list::vars(&vault, "ghost").unwrap();
    assert!(v.is_empty());
}

#[test]
fn stores_value_in_vault() {
    let mut vault = InMemoryVault::new();
    add::run(&mut vault, "cognis", "API_KEY", SecretValue::from_string("k1".into())).unwrap();
    let got = vault.get("cognis", "API_KEY").unwrap();
    assert_eq!(got.expose(), b"k1");
}

#[test]
fn overwrites_existing() {
    let mut vault = InMemoryVault::new();
    add::run(&mut vault, "ns", "K", SecretValue::from_string("v1".into())).unwrap();
    add::run(&mut vault, "ns", "K", SecretValue::from_string("v2".into())).unwrap();
    assert_eq!(vault.get("ns", "K").unwrap().expose(), b"v2");
}

#[test]
fn returns_stored_value() {
    let mut vault = InMemoryVault::new();
    vault.set("cognis", "API_KEY", sv("sk-abc")).unwrap();
    let got = reveal_cmd::run(&vault, "cognis", "API_KEY").unwrap();
    assert_eq!(got.expose(), b"sk-abc");
}

#[test]
fn missing_returns_not_found() {
    let vault = InMemoryVault::new();
    let result = reveal_cmd::run(&vault, "ghost", "X");
    assert!(matches!(result, Err(Error::NotFound { .. })));
}

fn manifest(vars: Vec<(&str, bool)>) -> Manifest {
    Manifest {
        namespace: "ns".to_string(),
        vars: vars
            .into_iter()
            .map(|(n, r)| (n.to_string(), VarSpec { required: r, description: None }))
            .collect(),
        policy: Policy::default(),
    }
}

#[test]
fn missing_required_var_errors_before_spawn() {
    let vault = InMemoryVault::new();
    let m = manifest(vec![("NEEDED", true)]);
    match run::collect_secrets(&vault, &m) {
        Err(Error::NotFound { namespace, var }) => {
            assert_eq!(namespace, "ns");
            assert_eq!(var, "NEEDED");
        },
        Err(other) => panic!("expected NotFound, got {:?}", other),
        Ok(_) => panic!("expected NotFound, got a result"),
    }
}

#[test]
fn missing_optional_var_is_silently_skipped() {
    let mut vault = InMemoryVault::new();
    vault.set("ns", "PRESENT", sv("a")).unwrap();
    let m = manifest(vec![("OPTIONAL_ABSENT", false), ("PRESENT", true)]);
    let (env, names) = run::collect_secrets(&vault, &m).unwrap();
    assert_eq!(names, vec!["PRESENT".to_string()]);
    assert_eq!(env.len(), 1);
    assert_eq!(env[0].0, "PRESENT");
    assert_eq!(env[0].1.expose(), b"a");
}

#[test]
fn collect_keeps_declaration_order() {
    let mut vault = InMemoryVault::new();
    vault.set("ns", "A", sv("1")).unwrap();
    vault.set("ns", "B", sv("2")).unwrap();
    let m = manifest(vec![("A", true), ("B", false)]);
    let (env, names) = run::collect_secrets(&vault, &m).unwrap();
    assert_eq!(names, vec!["A".to_string(), "B".to_string()]);
    assert_eq!(env[1].1.expose(), b"2");
}

#[test]
fn bootstrap_lists_missing_required() {
    let mut vault = InMemoryVault::new();
    vault.set("ns", "HAVE", sv("x")).unwrap();
    let m = manifest(vec![("A_MISSING", true), ("HAVE", true), ("OPT", false), ("Z_MISSING", true)]);
    let missing = run::missing_required_vars(&vault, &m).unwrap();
    assert_eq!(missing, vec!["A_MISSING".to_string(), "Z_MISSING".to_string()]);
}

#[test]
fn loaded_names_keep_declaration_order() {
    let mut vault = InMemoryVault::new();
    vault.set("ns", "STOWE_TEST_FOO", sv("foo-value")).unwrap();
    vault.set("ns", "STOWE_TEST_BAR", sv("bar-value")).unwrap();
    let m = manifest(vec![("STOWE_TEST_FOO", true), ("STOWE_TEST_BAR", true)]);
    let (env, names) = run::collect_secrets(&vault, &m).unwrap();
    assert_eq!(names, vec!["STOWE_TEST_FOO".to_string(), "STOWE_TEST_BAR".to_string()]);
    assert_eq!(env[1].1.expose(), b"bar-value");
}
