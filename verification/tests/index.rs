use stowe::error::Error;
use stowe::index::{default_version, Index, IndexEntry, INDEX_VERSION};

fn fresh_index() -> Index {
    Index::empty("/tmp/stowe-test/index.toml".to_string())
}

#[test]
fn load_nonexistent_yields_empty() {
    let idx = fresh_index();
    assert!(idx.namespaces().is_empty());
}

#[test]
fn add_then_list_roundtrips() {
    let mut idx = fresh_index();
    idx.add("cognis", "API_KEY");
    idx.add("cognis", "DB_URL");
    idx.add("shopify", "TOKEN");
    assert_eq!(idx.namespaces(), vec!["cognis", "shopify"]);
    assert_eq!(idx.vars_in("cognis"), vec!["API_KEY", "DB_URL"]);
    assert_eq!(idx.vars_in("shopify"), vec!["TOKEN"]);
}

#[test]
fn add_is_idempotent() {
    let mut idx = fresh_index();
    idx.add("ns", "K");
    idx.add("ns", "K");
    assert_eq!(idx.vars_in("ns"), vec!["K"]);
}

#[test]
fn remove_drops_entry() {
    let mut idx = fresh_index();
    idx.add("ns", "K");
    idx.add("ns", "L");
    idx.remove("ns", "K");
    assert_eq!(idx.vars_in("ns"), vec!["L"]);
}

#[test]
fn unsupported_version_errors() {
    let err = Index::from_file("/tmp/stowe-test/index.toml".to_string(), 99, vec![]).unwrap_err();
    assert!(matches!(err, Error::Invalid(_)));
    assert_eq!(err.message(), "invalid input: unsupported index version 99 (expected 1)");
}

#[test]
fn save_then_load_roundtrips() {
    let mut idx = fresh_index();
    idx.add("cognis", "X");
    let saved: Vec<IndexEntry> = idx.entries().clone();
    let loaded = Index::from_file(idx.path().to_string(), idx.version(), saved).unwrap();
    assert_eq!(loaded.vars_in("cognis"), vec!["X"]);
}

#[test]
fn index_version_defaults() {
    assert_eq!(default_version(), INDEX_VERSION);
    assert_eq!(fresh_index().version(), 1);
    assert_eq!(fresh_index().path(), "/tmp/stowe-test/index.toml");
}

#[test]
fn add_records_time_and_contains() {
    let mut idx = fresh_index();
    assert!(!idx.contains("ns", "K"));
    idx.add("ns", "K");
    assert!(idx.contains("ns", "K"));
    assert_eq!(idx.entries().len(), 1);
    assert!(!idx.entries()[0].added_at.is_empty());
    idx.remove("ns", "K");
    assert!(!idx.contains("ns", "K"));
    assert!(idx.namespaces().is_empty());
}

#[test]
fn listing_dedups_duplicate_file_entries() {
    let e = |ns: &str, v: &str| IndexEntry { namespace: ns.into(), var: v.into(), added_at: "2026-01-01T00:00:00Z".into() };
    let idx = Index::from_file("p".into(), 1, vec![e("b", "Y"), e("a", "X"), e("b", "Y"), e("b", "A")]).unwrap();
    assert_eq!(idx.namespaces(), vec!["a", "b"]);
    assert_eq!(idx.vars_in("b"), vec!["A", "Y"]);
}

#[test]
fn malformed_added_at_is_refused() {
    let bad = IndexEntry { namespace: "ns".into(), var: "K".into(), added_at: "yesterday".into() };
    let err = Index::from_file("p".into(), 1, vec![bad]).unwrap_err();
    assert!(matches!(err, Error::Toml(_)));
    assert_eq!(err.message(), "toml parse error: invalid added_at 'yesterday' for ns/K");
}

#[test]
fn malformed_added_at_is_refused_before_the_version() {
    let bad = IndexEntry { namespace: "ns".into(), var: "K".into(), added_at: "".into() };
    let err = Index::from_file("p".into(), 99, vec![bad]).unwrap_err();
    assert!(matches!(err, Error::Toml(_)));
}

#[test]
fn added_at_is_kept_in_utc() {
    let e = |t: &str| IndexEntry { namespace: "ns".into(), var: "K".into(), added_at: t.into() };
    let idx = Index::from_file("p".into(), 1, vec![e("2026-01-01T01:30:00+01:30"), e("2026-01-01T00:00:00Z")]).unwrap();
    assert_eq!(idx.entries()[0].added_at, "2026-01-01T00:00:00Z");
    assert_eq!(idx.entries()[1].added_at, "2026-01-01T00:00:00Z");
    assert_eq!(idx.entries()[0].namespace, "ns");
}
