use stowe::error::Error;

#[test]
fn not_found_message_contains_identifiers() {
    let e = Error::NotFound { namespace: "cognis".into(), var: "API_KEY".into() };
    let s = e.message();
    assert!(s.contains("cognis"), "missing namespace in: {}", s);
    assert!(s.contains("API_KEY"), "missing var in: {}", s);
    assert!(s.contains("not found"), "missing 'not found' in: {}", s);
}

#[test]
fn keychain_message_contains_inner() {
    let e = Error::Keychain("errSecAuthFailed".into());
    let s = e.message();
    assert!(s.contains("errSecAuthFailed"));
}

#[test]
fn io_converts_via_from() {
    let io_err = std::io::Error::new(std::io::ErrorKind::NotFound, "no file");
    let e: Error = io_err.into();
    assert!(matches!(e, Error::Io(_)));
}

#[test]
fn messages_are_exact() {
    let e = Error::NotFound { namespace: "cognis".into(), var: "API_KEY".into() };
    assert_eq!(e.message(), "secret 'API_KEY' not found in namespace 'cognis'");
    let e = Error::AlreadyExists { namespace: "ns".into(), var: "K".into() };
    assert_eq!(e.message(), "secret 'K' already exists in namespace 'ns'");
    assert_eq!(Error::Keychain("x".into()).message(), "keychain error: x");
    assert_eq!(Error::Invalid("bad".into()).message(), "invalid input: bad");
    assert_eq!(Error::Toml("t".into()).message(), "toml parse error: t");
    assert_eq!(Error::Database("d".into()).message(), "database error: d");
    let e = Error::ManifestNotFound { start: "/tmp/x".into() };
    assert_eq!(e.message(), "no stowe.toml found in /tmp/x or any ancestor");
}

#[test]
fn io_message_has_prefix_and_text() {
    let e: Error = std::io::Error::new(std::io::ErrorKind::NotFound, "no file").into();
    assert_eq!(e.message(), "io error: no file");
}
