use stowe::commands::list::{self, summarize};
use stowe::commands::run::{self, load_decision, missing_decision, LoadStep};
use stowe::error::{Error, Result};
use stowe::export::{export_line, export_to_bytes, ExportFormat};
use stowe::manifest::{Manifest, Policy, VarSpec};
use stowe::memory::InMemoryVault;
use stowe::secret_value::SecretValue;
use stowe::vault::Vault;
use stowe::wipe::{count_deleted, wipe_all};

fn sv(s: &str) -> SecretValue {
    SecretValue::from_string(s.to_string())
}

fn denied(what: &str) -> Error {
    Error::Keychain(format!("denied {}", what))
}

/// A vault that answers like storage outside the process: some calls are
/// refused with an error that is not `NotFound`.
struct Scripted {
    inner: InMemoryVault,
    deny_reads: Vec<(String, String)>,
    deny_deletes: Vec<(String, String)>,
    deny_list_vars: Vec<String>,
    deny_listing: bool,
}

impl Scripted {
    fn new(inner: InMemoryVault) -> Self {
        Scripted { inner, deny_reads: vec![], deny_deletes: vec![], deny_list_vars: vec![], deny_listing: false }
    }
}

fn has(list: &[(String, String)], ns: &str, var: &str) -> bool {
    list.iter().any(|(n, v)| n == ns && v == var)
}

impl Vault for Scripted {
    fn set(&mut self, namespace: &str, var: &str, value: SecretValue) -> Result<()> {
        self.inner.set(namespace, var, value)
    }

    fn get(&self, namespace: &str, var: &str) -> Result<SecretValue> {
        if has(&self.deny_reads, namespace, var) {
            return Err(denied(var));
        }
        self.inner.get(namespace, var)
    }

    fn delete(&mut self, namespace: &str, var: &str) -> Result<()> {
        if has(&self.deny_deletes, namespace, var) {
            return Err(denied(var));
        }
        self.inner.delete(namespace, var)
    }

    fn list_vars(&self, namespace: &str) -> Result<Vec<String>> {
        if self.deny_list_vars.iter().any(|n| n == namespace) {
            return Err(denied(namespace));
        }
        self.inner.list_vars(namespace)
    }

    fn list_namespaces(&self) -> Result<Vec<String>> {
        if self.deny_listing {
            return Err(denied("listing"));
        }
        self.inner.list_namespaces()
    }
}

fn manifest(vars: Vec<(&str, bool)>) -> Manifest {
    Manifest {
        namespace: "ns".to_string(),
        vars: vars
            .into_iter()
            .map(|(n, r)| (n.to_string(), VarSpec { required: r, description: None }))
            .collect(),
        policy: Policy::default(),
    }
}

fn two_present() -> Scripted {
    let mut v = InMemoryVault::new();
    v.set("ns", "STOWE_TEST_FOO", sv("foo-value")).unwrap();
    v.set("ns", "STOWE_TEST_BAR", sv("bar-value")).unwrap();
    Scripted::new(v)
}

fn keychain_message(e: Error) -> String {
    match e {
        Error::Keychain(m) => m,
        other => panic!("expected a Keychain error, got {:?}", other),
    }
}

#[test]
fn outside_vault_loads_every_present_required_var() {
    let vault = two_present();
    let m = manifest(vec![("STOWE_TEST_FOO", true), ("STOWE_TEST_BAR", true)]);
    let (env, names) = run::collect_secrets(&vault, &m).unwrap();
    assert_eq!(names, vec!["STOWE_TEST_FOO".to_string(), "STOWE_TEST_BAR".to_string()]);
    assert_eq!(env[0].1.expose(), b"foo-value");
    assert_eq!(env[1].1.expose(), b"bar-value");
}

#[test]
fn denied_read_of_optional_var_stops_the_run() {
    let mut vault = two_present();
    vault.deny_reads.push(("ns".into(), "OPT".into()));
    let m = manifest(vec![("STOWE_TEST_FOO", true), ("OPT", false), ("STOWE_TEST_BAR", true)]);
    let e = run::collect_secrets(&vault, &m).map(|_| ()).unwrap_err();
    assert_eq!(keychain_message(e), "denied OPT");
}

#[test]
fn first_failing_read_in_declaration_order_is_returned() {
    let mut vault = two_present();
    vault.deny_reads.push(("ns".into(), "STOWE_TEST_BAR".into()));
    vault.deny_reads.push(("ns".into(), "STOWE_TEST_FOO".into()));
    let m = manifest(vec![("STOWE_TEST_BAR", true), ("STOWE_TEST_FOO", true)]);
    let e = run::collect_secrets(&vault, &m).map(|_| ()).unwrap_err();
    assert_eq!(keychain_message(e), "denied STOWE_TEST_BAR");
}

#[test]
fn bootstrap_returns_denied_read() {
    let mut vault = two_present();
    vault.deny_reads.push(("ns".into(), "STOWE_TEST_BAR".into()));
    let m = manifest(vec![("MISSING", true), ("STOWE_TEST_BAR", true)]);
    let e = run::missing_required_vars(&vault, &m).unwrap_err();
    assert_eq!(keychain_message(e), "denied STOWE_TEST_BAR");
}

#[test]
fn bootstrap_does_not_read_optional_vars() {
    let mut vault = two_present();
    vault.deny_reads.push(("ns".into(), "OPT".into()));
    let m = manifest(vec![("OPT", false), ("MISSING", true)]);
    assert_eq!(run::missing_required_vars(&vault, &m).unwrap(), vec!["MISSING".to_string()]);
}

#[test]
fn load_decision_cases() {
    assert!(matches!(load_decision(true, Ok(sv("v"))), LoadStep::Load(v) if v.expose() == b"v"));
    let nf = || Error::NotFound { namespace: "ns".into(), var: "K".into() };
    assert!(matches!(load_decision(false, Err(nf())), LoadStep::Skip));
    assert!(matches!(load_decision(true, Err(nf())), LoadStep::Fail(Error::NotFound { .. })));
    assert!(matches!(load_decision(false, Err(denied("K"))), LoadStep::Fail(Error::Keychain(_))));
}

#[test]
fn missing_decision_cases() {
    assert!(matches!(missing_decision(Ok(sv("v"))), Ok(false)));
    let nf = Error::NotFound { namespace: "ns".into(), var: "K".into() };
    assert!(matches!(missing_decision(Err(nf)), Ok(true)));
    assert!(matches!(missing_decision(Err(denied("K"))), Err(Error::Keychain(_))));
}

#[test]
fn namespaces_from_outside_listings() {
    let vault = two_present();
    let s = list::namespaces(&vault).unwrap();
    assert_eq!(s.len(), 1);
    assert_eq!(s[0].namespace, "ns");
    assert_eq!(s[0].var_count, 2);
}

#[test]
fn namespaces_returns_listing_errors() {
    let mut vault = two_present();
    vault.deny_listing = true;
    assert_eq!(keychain_message(list::namespaces(&vault).map(|_| ()).unwrap_err()), "denied listing");
    vault.deny_listing = false;
    vault.deny_list_vars.push("ns".into());
    assert_eq!(keychain_message(list::namespaces(&vault).map(|_| ()).unwrap_err()), "denied ns");
}

#[test]
fn summarize_cases() {
    let s = summarize("ns".into(), Ok(vec!["A".into(), "B".into()])).unwrap();
    assert_eq!(s.namespace, "ns");
    assert_eq!(s.var_count, 2);
    assert_eq!(keychain_message(summarize("ns".into(), Err(denied("x"))).map(|_| ()).unwrap_err()), "denied x");
}

#[test]
fn wipe_skips_failed_deletes() {
    let mut vault = two_present();
    vault.inner.set("other", "K", sv("k")).unwrap();
    vault.deny_deletes.push(("ns".into(), "STOWE_TEST_FOO".into()));
    let rep = wipe_all(&mut vault).unwrap();
    assert_eq!(rep.namespaces_deleted, 2);
    assert_eq!(rep.vars_deleted, 2);
    assert_eq!(rep.audit_rows_deleted, 0);
    assert_eq!(vault.inner.list_vars("ns").unwrap(), vec!["STOWE_TEST_FOO".to_string()]);
}

#[test]
fn wipe_returns_listing_error() {
    let mut vault = two_present();
    vault.deny_list_vars.push("ns".into());
    assert_eq!(keychain_message(wipe_all(&mut vault).map(|_| ()).unwrap_err()), "denied ns");
}

#[test]
fn count_deleted_cases() {
    assert_eq!(count_deleted(3, &Ok(())), 4);
    assert_eq!(count_deleted(3, &Err(denied("x"))), 3);
    assert_eq!(count_deleted(usize::MAX, &Ok(())), usize::MAX);
}

#[test]
fn export_returns_denied_read() {
    let mut vault = two_present();
    vault.deny_reads.push(("ns".into(), "STOWE_TEST_BAR".into()));
    let e = export_to_bytes(&vault, &[], ExportFormat::EnvPlain, None).unwrap_err();
    assert_eq!(keychain_message(e), "denied STOWE_TEST_BAR");
}

#[test]
fn export_from_outside_vault_text() {
    let vault = two_present();
    let b = export_to_bytes(&vault, &[], ExportFormat::EnvPlain, None).unwrap();
    assert_eq!(
        String::from_utf8(b).unwrap(),
        "# namespace: ns\nSTOWE_TEST_BAR=bar-value\nSTOWE_TEST_FOO=foo-value\n\n"
    );
}

#[test]
fn export_line_cases() {
    assert_eq!(export_line("ns", "K", Ok(sv("v"))).unwrap(), "K=v\n");
    let bad = SecretValue::new(vec![0xff]);
    match export_line("ns", "K", Ok(bad)) {
        Err(Error::Invalid(m)) => assert_eq!(m, "non-UTF-8 value at ns/K cannot be exported"),
        _ => panic!("expected Invalid"),
    }
    assert_eq!(keychain_message(export_line("ns", "K", Err(denied("K"))).unwrap_err()), "denied K");
}
