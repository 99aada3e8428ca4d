use stowe::codesign::{interpret, parse_field};

#[test]
fn parse_field_extracts_team_id() {
    let stderr = "Executable=/path/to/x\nIdentifier=com.example.foo\nTeamIdentifier=ABCD1234EF\nFlags=...\n";
    assert_eq!(parse_field(stderr, "TeamIdentifier="), Some("ABCD1234EF".to_string()));
    assert_eq!(parse_field(stderr, "Identifier="), Some("com.example.foo".to_string()));
    assert_eq!(parse_field(stderr, "Nonexistent="), None);
}

#[test]
fn parse_field_handles_missing_field() {
    let stderr = "Executable=/path/to/x\nIdentifier=foo\n";
    assert_eq!(parse_field(stderr, "TeamIdentifier="), None);
}

#[test]
fn parse_field_trims_and_strips_crlf() {
    let stderr = "Identifier=  spaced.id  \r\nTeamIdentifier=T1\r\n";
    assert_eq!(parse_field(stderr, "Identifier="), Some("spaced.id".to_string()));
    assert_eq!(parse_field(stderr, "TeamIdentifier="), Some("T1".to_string()));
}

#[test]
fn parse_field_takes_first_match() {
    let stderr = "Identifier=first\nIdentifier=second";
    assert_eq!(parse_field(stderr, "Identifier="), Some("first".to_string()));
}

#[test]
fn interpret_unsigned_output() {
    let info = interpret("/tmp/x: code object is not signed at all\n", false);
    assert!(!info.signed);
    assert_eq!(info.team_id, None);
    assert_eq!(info.identifier, None);
    let info = interpret("/tmp/x: code object is not signed at all\n", true);
    assert!(!info.signed);
}

#[test]
fn interpret_failed_run_is_unsigned() {
    let info = interpret("Identifier=foo\nTeamIdentifier=ABC\n", false);
    assert!(!info.signed);
}

#[test]
fn interpret_signed_output() {
    let info = interpret("Executable=/usr/bin/git\nIdentifier=com.apple.git\nTeamIdentifier=not set\n", true);
    assert!(info.signed);
    assert_eq!(info.identifier, Some("com.apple.git".to_string()));
    assert_eq!(info.team_id, None);
    let info = interpret("Identifier=com.example.foo\nTeamIdentifier=ABCD1234EF\n", true);
    assert_eq!(info.team_id, Some("ABCD1234EF".to_string()));
}
