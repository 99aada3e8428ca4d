use stowe::binary::{
    excluded_dir_component, excluded_path_component, file_name, path_components, resolve_direct, resolve_from_which, verify,
    DenialReason, ResolveError, Verdict,
};
use stowe::manifest::{BiometricMode, Policy, SandboxPolicy};

fn policy(allowed: &[&str], allow_unsigned: bool) -> Policy {
    Policy {
        biometric: BiometricMode::Always,
        allowed_binaries: allowed.iter().map(|s| s.to_string()).collect(),
        allow_unsigned,
        sandbox: SandboxPolicy::default(),
    }
}

#[test]
fn excluded_dir_rejected() {
    let p = policy(&[], true);
    let result = verify("/User/foo/proj/node_modules/.bin/sneaky".into(), vec![], &p, None);
    match result {
        Verdict::Denied(DenialReason::ExcludedPath { dir, .. }) => assert_eq!(dir, "node_modules"),
        other => panic!("expected ExcludedPath, got {:?}", other),
    }
}

#[test]
fn allowlist_rejects_unknown_basename() {
    let p = policy(&["cargo", "node"], true);
    let result = verify("/usr/local/bin/sneaky".into(), vec![], &p, None);
    match result {
        Verdict::Denied(DenialReason::NotInAllowlist { basename, .. }) => assert_eq!(basename, "sneaky"),
        other => panic!("expected NotInAllowlist, got {:?}", other),
    }
}

#[test]
fn allowlist_accepts_allowed_basename() {
    // The policy asks for a signature: the verdict waits for codesign's answer,
    // and a signed binary is then accepted.
    let p = policy(&["git"], false);
    let first = verify("/usr/bin/git".into(), vec![], &p, None);
    assert!(matches!(first, Verdict::NeedsCodesign));
    let result = verify("/usr/bin/git".into(), vec![], &p, Some(true));
    assert!(matches!(result, Verdict::Verified(_)));
}

#[test]
fn empty_allowlist_skips_allowlist_check() {
    let p = policy(&[], true);
    let result = verify("/usr/bin/git".into(), vec![], &p, None);
    assert!(matches!(result, Verdict::Verified(_)));
}

#[test]
fn unsigned_rejected_when_allow_unsigned_false() {
    let p = policy(&[], false);
    let result = verify("/tmp/hello".into(), vec![], &p, Some(false));
    match result {
        Verdict::Denied(DenialReason::Unsigned { path }) => assert_eq!(path, "/tmp/hello"),
        other => panic!("expected Unsigned, got {:?}", other),
    }
}

#[test]
fn excluded_dir_check_walks_components() {
    assert_eq!(excluded_path_component("/a/node_modules/.bin/x"), Some("node_modules"));
    assert_eq!(excluded_path_component("/a/proj/target/debug/x"), Some("target"));
    assert_eq!(excluded_path_component("/usr/bin/git"), None);
}

#[test]
fn resolve_passes_through_paths_with_slash() {
    let r = resolve_direct("/usr/bin/git").unwrap();
    assert_eq!(r, "/usr/bin/git");
}

#[test]
fn resolve_finds_binary_via_which() {
    assert_eq!(resolve_direct("sh"), None);
    let r = resolve_from_which("sh", true, Some("/bin/sh\n".to_string())).unwrap();
    assert_eq!(r.trim_end(), "/bin/sh");
}

#[test]
fn resolve_errors() {
    assert_eq!(resolve_from_which("x", false, None).unwrap_err().message(), "binary not found in PATH: x");
    assert_eq!(resolve_from_which("x", true, None).unwrap_err().message(), "non-UTF-8 path for `x`");
    let e = resolve_from_which("x", true, Some("  \n".to_string())).unwrap_err();
    assert!(matches!(e, ResolveError::EmptyPath { .. }));
    assert_eq!(e.message(), "which returned empty path for x");
}

#[test]
fn verified_keeps_path_and_args() {
    let p = policy(&["git"], true);
    match verify("/usr/bin/git".into(), vec!["status".into()], &p, None) {
        Verdict::Verified(b) => {
            assert_eq!(b.resolved_path, "/usr/bin/git");
            assert_eq!(b.args, vec!["status".to_string()]);
        },
        other => panic!("expected Verified, got {:?}", other),
    }
}

#[test]
fn excluded_checked_before_allowlist() {
    let p = policy(&["x"], false);
    let result = verify("/a/dist/x".into(), vec![], &p, Some(true));
    assert!(matches!(result, Verdict::Denied(DenialReason::ExcludedPath { .. })));
}

#[test]
fn component_and_basename_helpers() {
    assert_eq!(path_components("/a//b/./c/"), vec!["a".to_string(), "b".to_string(), "c".to_string()]);
    assert_eq!(file_name("/usr/bin/git"), "git");
    assert_eq!(file_name("/"), "");
    assert_eq!(file_name("/a/.."), "");
    assert_eq!(excluded_path_component("relative/.venv/bin/python"), Some(".venv"));
}

#[test]
fn human_messages_are_exact() {
    let d = DenialReason::ExcludedPath { path: "/a/node_modules/x".into(), dir: "node_modules".into() };
    assert_eq!(d.human_message(), "binary path \"/a/node_modules/x\" is inside excluded build directory node_modules/");
    let d = DenialReason::NotInAllowlist { basename: "sneaky".into(), allowlist: vec!["cargo".into(), "node".into()] };
    assert_eq!(d.human_message(), "binary \"sneaky\" not in allowed_binaries [\"cargo\", \"node\"]");
    let d = DenialReason::Unsigned { path: "/tmp/x".into() };
    assert_eq!(d.human_message(), "binary \"/tmp/x\" is not codesigned (set policy.allow_unsigned=true to override)");
    assert_eq!(d.audited_binary(), "/tmp/x");
}

#[test]
fn binary_named_like_build_dir_is_not_excluded() {
    let p = policy(&[], true);
    match verify("/usr/local/bin/build".into(), vec![], &p, None) {
        Verdict::Verified(b) => {
            assert_eq!(b.resolved_path, "/usr/local/bin/build");
            assert!(b.args.is_empty());
        },
        other => panic!("expected Verified, got {:?}", other),
    }
    assert_eq!(excluded_dir_component("/usr/local/bin/build"), None);
    assert_eq!(excluded_dir_component("/proj/build/build"), Some("build"));
    assert_eq!(excluded_path_component("/usr/local/bin/build"), Some("build"));
    assert_eq!(excluded_path_component("/a/my_target/x"), None);
    assert_eq!(excluded_path_component("/a/node_modules_old/x"), None);
}
