use stowe::manifest::{init_manifest_body, FindStep};
use stowe::error::Error;
use stowe::manifest::{BiometricMode, Manifest, Policy, VarSpec};

fn manifest(namespace: &str, vars: Vec<(&str, bool)>) -> Manifest {
    Manifest {
        namespace: namespace.to_string(),
        vars: vars
            .into_iter()
            .map(|(n, r)| (n.to_string(), VarSpec { required: r, description: None }))
            .collect(),
        policy: Policy::default(),
    }
}

#[test]
fn empty_namespace_rejected() {
    let err = manifest("", vec![]).validated().unwrap_err();
    assert!(matches!(err, Error::Invalid(_)));
    assert_eq!(err.message(), "invalid input: manifest namespace must be non-empty");
}

#[test]
fn required_vars_filters_correctly() {
    let m = manifest("cognis", vec![("A", true), ("B", false), ("C", true)]);
    let mut req = m.required_vars();
    req.sort();
    assert_eq!(req, vec!["A", "C"]);
}

#[test]
fn valid_manifest_passes_unchanged() {
    let m = manifest("cognis", vec![("ANTHROPIC_API_KEY", true)]).validated().unwrap();
    assert_eq!(m.namespace, "cognis");
    assert_eq!(m.vars.len(), 1);
}

#[test]
fn search_candidates_walk_to_root() {
    assert_eq!(
        Manifest::search_candidates("/tmp/a/b"),
        vec!["/tmp/a/b/stowe.toml", "/tmp/a/stowe.toml", "/tmp/stowe.toml", "/stowe.toml"]
    );
    assert_eq!(Manifest::search_candidates("/"), vec!["/stowe.toml"]);
}

#[test]
fn policy_defaults() {
    let p = Policy::default();
    assert_eq!(p.biometric, BiometricMode::Never);
    assert!(p.allowed_binaries.is_empty());
    assert!(!p.allow_unsigned);
    assert!(!p.sandbox.enabled);
    assert!(!VarSpec::default().required);
}

#[test]
fn biometric_mode_parse() {
    assert_eq!(BiometricMode::parse("always"), Some(BiometricMode::Always));
    assert_eq!(BiometricMode::parse("never"), Some(BiometricMode::Never));
    assert_eq!(BiometricMode::parse("sometimes"), None);
}

#[test]
fn find_from_locates_in_starting_dir() {
    let first = Manifest::find_from("/tmp/proj", &vec![]);
    assert!(matches!(first, FindStep::Probe(ref p) if p == "/tmp/proj/stowe.toml"));
    let found = Manifest::find_from("/tmp/proj", &vec![true]);
    assert!(matches!(found, FindStep::Found(ref p) if p == "/tmp/proj/stowe.toml"));
}

#[test]
fn find_from_walks_up_to_ancestor() {
    let next = Manifest::find_from("/tmp/top/sub/deeper", &vec![false, false]);
    assert!(matches!(next, FindStep::Probe(ref p) if p == "/tmp/top/stowe.toml"));
    let found = Manifest::find_from("/tmp/top/sub/deeper", &vec![false, false, true]);
    assert!(matches!(found, FindStep::Found(ref p) if p == "/tmp/top/stowe.toml"));
}

#[test]
fn find_from_or_err_returns_error_when_absent() {
    let err = Manifest::find_from_or_err("isolated", "/tmp/isolated", &vec![false, false, false]).unwrap_err();
    assert!(matches!(err, Error::ManifestNotFound { ref start } if start == "isolated"));
    let ok = Manifest::find_from_or_err("isolated", "/tmp/isolated", &vec![false]).unwrap();
    assert!(matches!(ok, FindStep::Probe(ref p) if p == "/tmp/stowe.toml"));
    assert!(matches!(Manifest::find_from("/", &vec![false]), FindStep::Absent));
}

#[test]
fn init_body_text() {
    assert_eq!(init_manifest_body("cognis", &vec![]), "namespace = \"cognis\"\n");
    assert_eq!(
        init_manifest_body("cognis", &vec!["A".to_string(), "B".to_string()]),
        "namespace = \"cognis\"\n\n[vars]\nA = { required = true }\nB = { required = true }\n"
    );
}

#[test]
fn repeated_vars_refused_and_order_kept() {
    let m = manifest("cognis", vec![("STOWE_TEST_FOO", true), ("STOWE_TEST_BAR", true)]).validated().unwrap();
    assert_eq!(m.vars[0].0, "STOWE_TEST_FOO");
    assert_eq!(m.vars[1].0, "STOWE_TEST_BAR");
    let err = manifest("cognis", vec![("A", true), ("B", false), ("A", false)]).validated().unwrap_err();
    assert_eq!(err.message(), "invalid input: manifest vars must be unique by name");
}
