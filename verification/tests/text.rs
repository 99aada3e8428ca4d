use stowe::text::{contains_str, insert_sorted, push_decimal, push_signed_decimal, str_lt, trim};

#[test]
fn decimal_rendering() {
    let mut s = String::new();
    push_decimal(&mut s, 0);
    s.push(' ');
    push_decimal(&mut s, 12345);
    s.push(' ');
    push_signed_decimal(&mut s, -25300);
    s.push(' ');
    push_signed_decimal(&mut s, i64::MIN);
    assert_eq!(s, "0 12345 -25300 -9223372036854775808");
}

#[test]
fn trim_and_search() {
    assert_eq!(trim("  a b \n"), "a b");
    assert_eq!(trim(" \t "), "");
    assert!(contains_str("code object is not signed at all", "not signed at all"));
    assert!(!contains_str("signed", "not signed"));
    assert!(contains_str("x", ""));
}

#[test]
fn ordering_and_sorted_insert() {
    assert!(str_lt("A", "B"));
    assert!(str_lt("B", "a"));
    assert!(str_lt("ab", "abc"));
    assert!(!str_lt("abc", "abc"));
    let mut v: Vec<String> = Vec::new();
    for s in ["m", "a", "z", "a", "b"] {
        insert_sorted(&mut v, s.to_string());
    }
    assert_eq!(v, vec!["a", "b", "m", "z"]);
}
