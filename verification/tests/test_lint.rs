use athira::config::LinterConfig;
use athira::error::HookError;
use athira::lint::CommitLinter;

#[test]
fn test_valid_commit_message() {
    let config = LinterConfig::default();
    let linter = CommitLinter::new(config);

    let valid_messages = [
        "feat(api): add new endpoint",
        "fix(core): resolve memory leak\n\nMore detailed explanation here",
        "docs: update README",
        "chore(deps): update dependencies",
    ];

    for message in valid_messages.iter() {
        assert!(linter.validate(message).is_ok());
    }
}

#[test]
fn test_invalid_commit_format() {
    let config = LinterConfig::default();
    let linter = CommitLinter::new(config);

    let invalid_messages = [
        "",
        "invalid message",
        "feat:",
        "feat(): empty subject",
        ": no type",
        "(scope): no type",
    ];

    for message in invalid_messages.iter() {
        let result = linter.validate(message);
        assert!(matches!(result, Err(HookError::LintError { .. })));
    }
}

#[test]
fn test_invalid_commit_type() {
    let config = LinterConfig {
        types: vec!["feat".into(), "fix".into()],
        ..Default::default()
    };
    let linter = CommitLinter::new(config);

    let result = linter.validate("docs(api): update documentation");
    assert!(matches!(result, Err(HookError::LintError { .. })));
}

#[test]
fn test_invalid_commit_scope() {
    let config = LinterConfig {
        scopes: vec!["api".into(), "core".into()],
        ..Default::default()
    };
    let linter = CommitLinter::new(config);

    let result = linter.validate("feat(ui): add new component");
    assert!(matches!(result, Err(HookError::LintError { .. })));
}

#[test]
fn test_subject_length_validation() {
    let config = LinterConfig {
        min_subject_length: 10,
        max_subject_length: 20,
        ..Default::default()
    };
    let linter = CommitLinter::new(config);

    // Too short
    let result = linter.validate("feat: abc");
    assert!(matches!(result, Err(HookError::LintError { .. })));

    // Too long
    let result =
        linter.validate("feat: this is a very long subject that exceeds the maximum length");
    assert!(matches!(result, Err(HookError::LintError { .. })));

    // Just right
    let result = linter.validate("feat: good length");
    assert!(result.is_ok());
}

#[test]
fn test_body_line_length() {
    let config = LinterConfig {
        max_body_line_length: 10,
        ..Default::default()
    };
    let linter = CommitLinter::new(config);

    let message = "feat: test\n\nThis line is too long and should cause an error";
    let result = linter.validate(message);
    assert!(matches!(result, Err(HookError::LintError { .. })));

    let message = "feat: test\n\nShort\nline";
    let result = linter.validate(message);
    assert!(result.is_ok());
}

#[test]
fn test_empty_lines_in_body() {
    let config = LinterConfig::default();
    let linter = CommitLinter::new(config);

    let message = "feat: test\n\nFirst paragraph\n\nSecond paragraph";
    let result = linter.validate(message);
    assert!(result.is_ok());
}

#[test]
fn test_custom_vocabulary() {
    let config = LinterConfig {
        types: vec!["custom".into()],
        scopes: vec!["test".into()],
        min_subject_length: 5,
        max_subject_length: 16,
        max_body_line_length: 20,
    };
    let linter = CommitLinter::new(config);

    // Valid according to the custom vocabulary and limits
    assert!(linter.validate("custom(test): okay then").is_ok());

    // Invalid type
    assert!(linter.validate("feat(test): not okay").is_err());

    // Invalid scope
    assert!(linter.validate("custom(wrong): not okay").is_err());

    // Subject too short, then too long
    assert!(linter.validate("custom(test): ok").is_err());
    assert!(linter.validate("custom(test): a very long subject").is_err());
}

#[test]
fn test_subject_length_is_the_subject() {
    // The reported length is the subject's own, not the whole line's.
    let config = LinterConfig {
        min_subject_length: 10,
        max_subject_length: 20,
        ..Default::default()
    };
    let linter = CommitLinter::new(config);

    match linter.validate("feat: abc") {
        Err(HookError::LintError {
            kind: athira::error::LintErrorKind::SubjectTooShort { subject, length, min },
        }) => {
            assert_eq!(subject, "abc");
            assert_eq!(length, 3);
            assert_eq!(min, 10);
        }
        _ => panic!("expected a subject-too-short finding"),
    }

    // Under the default minimum of 3, a two-character subject is rejected
    // even though the line is long enough.
    let linter = CommitLinter::new(LinterConfig::default());
    assert!(linter.validate("feat: ab").is_err());
    assert!(linter.validate("feat: abc").is_ok());
}

#[test]
fn test_lint_error_kinds() {
    let linter = CommitLinter::new(LinterConfig::default());

    let result = linter.validate("unknown: do a thing");
    match result {
        Err(HookError::LintError { kind }) => {
            let text = kind.message();
            assert!(text.starts_with("Invalid commit type 'unknown'"));
            assert!(text.contains("  - feat\n"));
        }
        _ => panic!("expected a lint error"),
    }

    let result = linter.validate("feat(nope): do a thing");
    match result {
        Err(HookError::LintError { kind }) => {
            let text = kind.message();
            assert!(text.starts_with("Invalid commit scope 'nope'"));
            assert!(text.contains("  - api\n"));
        }
        _ => panic!("expected a lint error"),
    }
}

#[test]
fn test_crlf_lines_accepted() {
    let linter = CommitLinter::new(LinterConfig::default());
    assert!(linter.validate("feat: windows line endings\r\n\r\nBody text").is_ok());
}
