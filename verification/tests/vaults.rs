use stowe::error::Error;
use stowe::memory::InMemoryVault;
use stowe::secret_value::SecretValue;
use stowe::vault::Vault;

fn sv(s: &str) -> SecretValue {
    SecretValue::from_string(s.to_string())
}

#[test]
fn set_then_get_roundtrips() {
    let mut v = InMemoryVault::new();
    v.set("cognis", "API_KEY", sv("k1")).unwrap();
    let got = v.get("cognis", "API_KEY").unwrap();
    assert_eq!(got.expose(), b"k1");
}

#[test]
fn memory_get_missing_returns_not_found() {
    let v = InMemoryVault::new();
    let result = v.get("ghost", "X");
    assert!(matches!(result, Err(Error::NotFound { .. })));
}

#[test]
fn set_overwrites_existing() {
    let mut v = InMemoryVault::new();
    v.set("ns", "K", sv("a")).unwrap();
    v.set("ns", "K", sv("b")).unwrap();
    assert_eq!(v.get("ns", "K").unwrap().expose(), b"b");
}

#[test]
fn delete_removes_and_returns_not_found_after() {
    let mut v = InMemoryVault::new();
    v.set("ns", "K", sv("a")).unwrap();
    v.delete("ns", "K").unwrap();
    let result = v.get("ns", "K");
    assert!(matches!(result, Err(Error::NotFound { .. })));
}

#[test]
fn delete_missing_returns_not_found() {
    let mut v = InMemoryVault::new();
    let result = v.delete("ns", "K");
    assert!(matches!(result, Err(Error::NotFound { .. })));
}

#[test]
fn list_vars_sorted_and_scoped_to_namespace() {
    let mut v = InMemoryVault::new();
    v.set("ns1", "Z", sv("z")).unwrap();
    v.set("ns1", "A", sv("a")).unwrap();
    v.set("ns2", "M", sv("m")).unwrap();
    let vars = v.list_vars("ns1").unwrap();
    assert_eq!(vars, vec!["A".to_string(), "Z".to_string()]);
}

#[test]
fn list_vars_empty_namespace_returns_empty() {
    let v = InMemoryVault::new();
    assert_eq!(v.list_vars("nothing").unwrap(), Vec::<String>::new());
}

#[test]
fn list_namespaces_sorted_and_unique() {
    let mut v = InMemoryVault::new();
    v.set("b", "X", sv("x")).unwrap();
    v.set("a", "X", sv("x")).unwrap();
    v.set("a", "Y", sv("y")).unwrap();
    assert_eq!(v.list_namespaces().unwrap(), vec!["a", "b"]);
}

#[test]
fn not_found_names_the_missing_secret() {
    let v = InMemoryVault::new();
    match v.get("ghost", "X") {
        Err(Error::NotFound { namespace, var }) => {
            assert_eq!(namespace, "ghost");
            assert_eq!(var, "X");
        },
        _ => panic!("expected NotFound"),
    }
}

#[test]
fn set_leaves_other_secrets() {
    let mut v = InMemoryVault::new();
    v.set("ns", "A", sv("a")).unwrap();
    v.set("ns", "B", sv("b")).unwrap();
    v.set("other", "A", sv("c")).unwrap();
    assert_eq!(v.get("ns", "A").unwrap().expose(), b"a");
    assert_eq!(v.get("other", "A").unwrap().expose(), b"c");
}

#[test]
fn deleting_last_var_drops_namespace() {
    let mut v = InMemoryVault::new();
    v.set("solo", "K", sv("v")).unwrap();
    v.set("other", "K", sv("v")).unwrap();
    v.delete("solo", "K").unwrap();
    assert_eq!(v.list_namespaces().unwrap(), vec!["other"]);
}

#[test]
fn sorting_is_by_code_point() {
    let mut v = InMemoryVault::new();
    v.set("ns", "b", sv("1")).unwrap();
    v.set("ns", "B", sv("1")).unwrap();
    v.set("ns", "AA", sv("1")).unwrap();
    v.set("ns", "A", sv("1")).unwrap();
    assert_eq!(v.list_vars("ns").unwrap(), vec!["A", "AA", "B", "b"]);
}
