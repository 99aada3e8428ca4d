use stowe::error::Error;
use stowe::index::Index;
use stowe::paths::data_path;

#[test]
fn data_paths_join_under_stowe() {
    assert_eq!(data_path(Some("/Users/u/Library/Application Support".into()), "index.toml").unwrap(), "/Users/u/Library/Application Support/stowe/index.toml");
    assert_eq!(data_path(Some("/data/".into()), "audit.db").unwrap(), "/data/stowe/audit.db");
    let e = data_path(None, "audit.db").unwrap_err();
    assert!(matches!(e, Error::Invalid(ref m) if m == "could not resolve OS data dir"));
}

#[test]
fn default_paths_end_in_stowe_files() {
    if let Ok(p) = Index::default_path() {
        assert!(p.ends_with("/stowe/index.toml"));
    }
    if let Ok(p) = stowe::audit::default_path() {
        assert!(p.ends_with("/stowe/audit.db"));
    }
}
