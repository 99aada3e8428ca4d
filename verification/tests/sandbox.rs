use stowe::error::Error;
use stowe::manifest::SandboxPolicy;
use stowe::sandbox::{profile_for_run, expand_path, generate_profile, host_to_remote_clause, is_valid_hostname, is_valid_path_entry};

fn home() -> String {
    "/Users/testuser".to_string()
}

fn project() -> String {
    "/Users/testuser/proj/cognis".to_string()
}

#[test]
fn empty_policy_produces_baseline_profile() {
    let policy = SandboxPolicy { enabled: true, network_allow: vec![], fs_write_allow: vec![] };
    let s = generate_profile(&policy, &project(), &home()).unwrap();
    assert!(s.contains("(version 1)"));
    assert!(s.contains("(deny default)"));
    assert!(s.contains("(allow process-fork)"));
    assert!(s.contains("(allow file-read*)"));
    assert!(s.contains("(subpath \"/Users/testuser/proj/cognis\")"));
    assert!(!s.contains("(allow network-outbound"));
}

#[test]
fn network_allow_emits_remote_tcp_clauses() {
    let policy = SandboxPolicy {
        enabled: true,
        network_allow: vec!["registry.npmjs.org".to_string(), "github.com:8443".to_string()],
        fs_write_allow: vec![],
    };
    let s = generate_profile(&policy, &project(), &home()).unwrap();
    assert!(s.contains("(remote tcp \"registry.npmjs.org:443\")"));
    assert!(s.contains("(remote tcp \"github.com:8443\")"));
    assert!(s.contains("(remote udp \"*:53\")"));
}

#[test]
fn fs_write_allow_expands_tilde() {
    let policy = SandboxPolicy {
        enabled: true,
        network_allow: vec![],
        fs_write_allow: vec!["~/.npm".to_string(), "~/Library/Caches".to_string()],
    };
    let s = generate_profile(&policy, &project(), &home()).unwrap();
    assert!(s.contains("(subpath \"/Users/testuser/.npm\")"));
    assert!(s.contains("(subpath \"/Users/testuser/Library/Caches\")"));
}

#[test]
fn invalid_hostname_rejected() {
    let policy = SandboxPolicy {
        enabled: true,
        network_allow: vec!["evil\")) (allow".to_string()],
        fs_write_allow: vec![],
    };
    let err = generate_profile(&policy, &project(), &home()).unwrap_err();
    assert!(matches!(err, Error::Invalid(_)));
}

#[test]
fn invalid_path_entry_rejected() {
    let policy = SandboxPolicy {
        enabled: true,
        network_allow: vec![],
        fs_write_allow: vec!["~/with space/bad".to_string()],
    };
    let err = generate_profile(&policy, &project(), &home()).unwrap_err();
    assert!(matches!(err, Error::Invalid(_)));
}

#[test]
fn relative_project_root_rejected() {
    let policy = SandboxPolicy::default();
    let rel = "relative/path".to_string();
    let err = generate_profile(&policy, &rel, &home()).unwrap_err();
    assert!(matches!(err, Error::Invalid(_)));
}

#[test]
fn is_valid_hostname_accepts_wildcards() {
    assert!(is_valid_hostname("*.amazonaws.com"));
    assert!(is_valid_hostname("registry.npmjs.org"));
    assert!(is_valid_hostname("github.com:8443"));
}

#[test]
fn is_valid_hostname_rejects_quotes_and_parens() {
    assert!(!is_valid_hostname("evil.com\""));
    assert!(!is_valid_hostname("foo)bar"));
    assert!(!is_valid_hostname("foo bar"));
    assert!(!is_valid_hostname(""));
}

#[test]
fn is_valid_path_entry_rejects_metachars() {
    assert!(is_valid_path_entry("/Users/me/.npm"));
    assert!(is_valid_path_entry("~/.npm"));
    assert!(!is_valid_path_entry("/path with space"));
    assert!(!is_valid_path_entry("/path;injection"));
}

#[test]
fn host_clause_adds_default_port() {
    assert_eq!(host_to_remote_clause("example.com"), "(remote tcp \"example.com:443\")");
    assert_eq!(host_to_remote_clause("example.com:80"), "(remote tcp \"example.com:80\")");
}

#[test]
fn expand_path_cases() {
    assert_eq!(expand_path("~", "/Users/u").unwrap(), "/Users/u");
    assert_eq!(expand_path("~/x", "/Users/u").unwrap(), "/Users/u/x");
    assert_eq!(expand_path("/abs/p", "/Users/u").unwrap(), "/abs/p");
    assert!(matches!(expand_path("rel/p", "/Users/u"), Err(Error::Invalid(_))));
}

#[test]
fn profile_denies_by_default_and_is_deterministic() {
    let policy = SandboxPolicy {
        enabled: true,
        network_allow: vec!["a.example.com".to_string()],
        fs_write_allow: vec!["/tmp/cache".to_string()],
    };
    let a = generate_profile(&policy, &project(), &home()).unwrap();
    let b = generate_profile(&policy, &project(), &home()).unwrap();
    assert_eq!(a, b);
    assert!(a.starts_with("(version 1)\n(deny default)"));
    assert!(a.contains("(subpath \"/tmp/cache\")"));
    assert!(a.contains("(allow network-outbound"));
}

#[test]
fn run_profile_only_when_enabled() {
    let off = SandboxPolicy::default();
    assert_eq!(profile_for_run(&off, &project(), &home()).unwrap(), None);
    let on = SandboxPolicy { enabled: true, network_allow: vec![], fs_write_allow: vec![] };
    let p = profile_for_run(&on, &project(), &home()).unwrap().unwrap();
    assert_eq!(p, generate_profile(&on, &project(), &home()).unwrap());
    let bad = SandboxPolicy { enabled: true, network_allow: vec!["a b".into()], fs_write_allow: vec![] };
    assert!(matches!(profile_for_run(&bad, &project(), &home()), Err(Error::Invalid(_))));
}
