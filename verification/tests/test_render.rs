use athira::error::LintErrorKind;
use athira::scripts::ScriptManager;
use athira::text::decimal_string;

#[test]
fn test_decimal_rendering() {
    assert_eq!(decimal_string(0), "0");
    assert_eq!(decimal_string(7), "7");
    assert_eq!(decimal_string(42), "42");
    assert_eq!(decimal_string(1234567890), "1234567890");
}

#[test]
fn test_subject_too_short_message() {
    let kind = LintErrorKind::SubjectTooShort {
        subject: "abc".to_string(),
        length: 3,
        min: 10,
    };
    assert_eq!(
        kind.message(),
        "Commit subject too short (3 chars, minimum 10)\nSubject: abc\nPlease provide a more descriptive commit message\n"
    );
}

#[test]
fn test_subject_too_long_message() {
    let kind = LintErrorKind::SubjectTooLong {
        subject: "way too wordy".to_string(),
        length: 13,
        max: 10,
    };
    assert_eq!(
        kind.message(),
        "Commit subject too long (13 chars, maximum 10)\nSubject: way too wordy\nPlease make your commit message more concise\n"
    );
}

#[test]
fn test_invalid_format_message() {
    let kind = LintErrorKind::InvalidFormat {
        input: "bad message".to_string(),
        expected: "<type>(<scope>): <subject>".to_string(),
    };
    assert_eq!(
        kind.message(),
        "Invalid commit message format\nInput:    bad message\nExpected: <type>(<scope>): <subject>\nExample:  feat(api): add user authentication\n"
    );
}

#[test]
fn test_invalid_type_message() {
    let kind = LintErrorKind::InvalidType {
        type_value: "wip".to_string(),
        allowed_types: vec!["feat".to_string(), "fix".to_string()],
    };
    assert_eq!(
        kind.message(),
        "Invalid commit type 'wip'\nAllowed types:\n  - feat\n  - fix\n"
    );
}

#[test]
fn test_invalid_scope_message() {
    let kind = LintErrorKind::InvalidScope {
        scope: "web".to_string(),
        allowed_scopes: vec!["api".to_string()],
    };
    assert_eq!(
        kind.message(),
        "Invalid commit scope 'web'\nAllowed scopes:\n  - api\n"
    );
}

#[test]
fn test_body_line_too_long_message() {
    let kind = LintErrorKind::BodyLineTooLong {
        line: 3,
        content: "a very long line".to_string(),
        length: 16,
        max: 10,
    };
    assert_eq!(
        kind.message(),
        "Line 3 is too long (16 chars, maximum 10)\nContent: a very long line\nPlease break this line into multiple lines\n"
    );
}

#[test]
fn test_script_manager_roundtrip() {
    let mut manager = ScriptManager::new(athira::config::Config::default());

    manager.add_script("build".to_string(), "cargo build".to_string()).unwrap();
    assert!(manager.get_script("build").is_some());
    assert!(manager.lookup("build").is_ok());

    let scripts = manager.get_scripts();
    assert!(scripts.iter().any(|(n, _)| n == "build"));
    assert!(scripts.iter().any(|(n, _)| n == "test-all"));

    manager.remove_script("build").unwrap();
    assert!(manager.get_script("build").is_none());
}

#[test]
fn test_script_lookup_not_found() {
    let manager = ScriptManager::new(athira::config::Config::default());
    match manager.lookup("nonexistent") {
        Err(athira::error::HookError::ScriptExecutionError {
            script_name,
            reason,
        }) => {
            assert_eq!(script_name, "nonexistent");
            assert_eq!(reason, "Script not found");
        }
        _ => panic!("expected a script-not-found error"),
    }
}

#[test]
fn test_lookup_finds_commands() {
    let manager = ScriptManager::new(athira::config::Config::default());
    let script = manager.lookup("test-all").unwrap();
    assert!(script.parallel);
    assert_eq!(script.max_threads, 4);
    assert_eq!(script.commands.len(), 2);
    assert_eq!(script.commands[0].command, "sh test1.sh");
}
