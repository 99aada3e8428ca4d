use stowe::error::Error;
use stowe::export::{export_to_bytes, ExportFormat};
use stowe::memory::InMemoryVault;
use stowe::secret_value::SecretValue;
use stowe::vault::Vault;

fn populated() -> InMemoryVault {
    let mut v = InMemoryVault::new();
    v.set("alpha", "A1", SecretValue::from_string("a-one".into())).unwrap();
    v.set("alpha", "A2", SecretValue::from_string("a-two".into())).unwrap();
    v.set("beta", "B1", SecretValue::from_string("b-one".into())).unwrap();
    v
}

#[test]
fn env_plain_dumps_all_namespaces_sorted() {
    let v = populated();
    let bytes = export_to_bytes(&v, &[], ExportFormat::EnvPlain, None).unwrap();
    let s = std::str::from_utf8(&bytes).unwrap();
    let alpha_pos = s.find("# namespace: alpha").unwrap();
    let beta_pos = s.find("# namespace: beta").unwrap();
    assert!(alpha_pos < beta_pos);
    assert!(s.contains("A1=a-one"));
    assert!(s.contains("A2=a-two"));
    assert!(s.contains("B1=b-one"));
}

#[test]
fn env_plain_namespace_filter() {
    let v = populated();
    let bytes = export_to_bytes(&v, &["beta".to_string()], ExportFormat::EnvPlain, None).unwrap();
    let s = std::str::from_utf8(&bytes).unwrap();
    assert!(!s.contains("namespace: alpha"));
    assert!(s.contains("namespace: beta"));
    assert!(s.contains("B1=b-one"));
}

#[test]
fn encrypted_round_trip_via_decrypt() {
    let v = populated();
    let bytes = export_to_bytes(&v, &[], ExportFormat::Encrypted, Some("hunter2")).unwrap();
    let decryptor = match age::Decryptor::new_buffered(&bytes[..]).unwrap() {
        age::Decryptor::Passphrase(d) => d,
        _ => panic!("expected passphrase decryptor"),
    };
    let mut reader = decryptor.decrypt(&age::secrecy::SecretString::new("hunter2".to_owned()), None).unwrap();
    let mut decrypted = Vec::new();
    std::io::Read::read_to_end(&mut reader, &mut decrypted).unwrap();
    let s = String::from_utf8(decrypted).unwrap();
    assert!(s.contains("A1=a-one"));
    assert!(s.contains("B1=b-one"));
}

#[test]
fn encrypted_requires_passphrase() {
    let v = populated();
    let err = export_to_bytes(&v, &[], ExportFormat::Encrypted, None).unwrap_err();
    assert!(matches!(err, Error::Invalid(_)));
}

#[test]
fn encrypted_rejects_empty_passphrase() {
    let v = populated();
    let err = export_to_bytes(&v, &[], ExportFormat::Encrypted, Some("")).unwrap_err();
    assert!(matches!(err, Error::Invalid(_)));
}

#[test]
fn env_plain_exact_text() {
    let v = populated();
    let bytes = export_to_bytes(&v, &[], ExportFormat::EnvPlain, None).unwrap();
    assert_eq!(
        String::from_utf8(bytes).unwrap(),
        "# namespace: alpha\nA1=a-one\nA2=a-two\n\n# namespace: beta\nB1=b-one\n\n"
    );
}

#[test]
fn requested_namespaces_sorted_and_deduped() {
    let v = populated();
    let req = vec!["beta".to_string(), "alpha".to_string(), "beta".to_string(), "ghost".to_string()];
    let bytes = export_to_bytes(&v, &req, ExportFormat::EnvPlain, None).unwrap();
    assert_eq!(
        String::from_utf8(bytes).unwrap(),
        "# namespace: alpha\nA1=a-one\nA2=a-two\n\n# namespace: beta\nB1=b-one\n\n# namespace: ghost\n\n"
    );
}

#[test]
fn non_utf8_value_refused() {
    let mut v = InMemoryVault::new();
    v.set("ns", "BIN", SecretValue::new(vec![0xFF])).unwrap();
    let err = export_to_bytes(&v, &[], ExportFormat::EnvPlain, None).unwrap_err();
    assert_eq!(err.message(), "invalid input: non-UTF-8 value at ns/BIN cannot be exported");
}

#[test]
fn encrypted_output_is_not_plaintext() {
    let v = populated();
    let bytes = export_to_bytes(&v, &[], ExportFormat::Encrypted, Some("hunter2")).unwrap();
    let plain = export_to_bytes(&v, &[], ExportFormat::EnvPlain, None).unwrap();
    assert_ne!(bytes, plain);
    assert!(bytes.starts_with(b"age-encryption.org/v1"));
}
