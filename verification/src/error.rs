//! Error taxonomy: lookup failures, spawn and command failures, configuration
//! errors, terminal and file failures, and commit-message lint findings, each
//! carrying enough context to render a precise diagnostic.

use vstd::prelude::*;

use crate::text::{push_decimal, push_str, push_string, chars_to_string, spec_decimal};

verus! {

/// Everything that can go wrong across hook management, script execution and
/// commit linting. File and parse failures carry their underlying message as
/// plain text.
#[derive(Debug)]
pub enum HookError {
    GitNotFound,
    InvalidHook(String),
    ScriptExecutionError { script_name: String, reason: String },
    ConfigError(String),
    FileError { path: String, message: String },
    YamlError(String),
    IoError(String),
    LintError { kind: LintErrorKind },
}

/// One commit-message lint finding, with the offending text and the limits it
/// broke.
#[derive(Debug)]
pub enum LintErrorKind {
    InvalidFormat { input: String, expected: String },
    InvalidType { type_value: String, allowed_types: Vec<String> },
    InvalidScope { scope: String, allowed_scopes: Vec<String> },
    SubjectTooShort { subject: String, length: usize, min: usize },
    SubjectTooLong { subject: String, length: usize, max: usize },
    BodyLineTooLong { line: usize, content: String, length: usize, max: usize },
}

/// One `  - item` line per list entry, in order.
pub open spec fn spec_bullets(items: Seq<Seq<char>>) -> Seq<char>
    decreases items.len(),
{
    if items.len() == 0 {
        Seq::empty()
    } else {
        spec_bullets(items.drop_last()) + "  - "@ + items.last() + "\n"@
    }
}

/// The diagnostic text of a lint finding, line by line, as the caller prints
/// it.
pub open spec fn spec_lint_message(kind: LintErrorKind) -> Seq<char> {
    match kind {
        LintErrorKind::InvalidFormat { input, expected } => "Invalid commit message format\n"@
            + "Input:    "@ + input@ + "\n"@ + "Expected: "@ + expected@ + "\n"@
            + "Example:  feat(api): add user authentication\n"@,
        LintErrorKind::InvalidType { type_value, allowed_types } => "Invalid commit type '"@
            + type_value@ + "'\n"@ + "Allowed types:\n"@ + spec_bullets(
            allowed_types@.map_values(|s: String| s@),
        ),
        LintErrorKind::InvalidScope { scope, allowed_scopes } => "Invalid commit scope '"@
            + scope@ + "'\n"@ + "Allowed scopes:\n"@ + spec_bullets(
            allowed_scopes@.map_values(|s: String| s@),
        ),
        LintErrorKind::SubjectTooShort { subject, length, min } => "Commit subject too short ("@
            + spec_decimal(length as nat) + " chars, minimum "@ + spec_decimal(min as nat)
            + ")\n"@ + "Subject: "@ + subject@ + "\n"@
            + "Please provide a more descriptive commit message\n"@,
        LintErrorKind::SubjectTooLong { subject, length, max } => "Commit subject too long ("@
            + spec_decimal(length as nat) + " chars, maximum "@ + spec_decimal(max as nat)
            + ")\n"@ + "Subject: "@ + subject@ + "\n"@
            + "Please make your commit message more concise\n"@,
        LintErrorKind::BodyLineTooLong { line, content, length, max } => "Line "@ + spec_decimal(
            line as nat,
        ) + " is too long ("@ + spec_decimal(length as nat) + " chars, maximum "@ + spec_decimal(
            max as nat,
        ) + ")\n"@ + "Content: "@ + content@ + "\n"@
            + "Please break this line into multiple lines\n"@,
    }
}

/// Appends one `  - item` line per entry of `items` to `out`.
fn push_bullets(out: &mut Vec<char>, items: &Vec<String>)
    ensures
        final(out)@ == old(out)@ + spec_bullets(items@.map_values(|s: String| s@)),
{
    let ghost views = items@.map_values(|s: String| s@);
    let n = items.len();
    let mut i: usize = 0;
    proof {
        assert(views.subrange(0, 0) =~= Seq::<Seq<char>>::empty());
    }
    while i < n
        invariant
            i <= n,
            n == items@.len(),
            views == items@.map_values(|s: String| s@),
            out@ == old(out)@ + spec_bullets(views.subrange(0, i as int)),
        decreases n - i,
    {
        push_str(out, "  - ");
        push_string(out, &items[i]);
        push_str(out, "\n");
        proof {
            assert(views.subrange(0, (i + 1) as int).drop_last() =~= views.subrange(0, i as int));
            assert(views.subrange(0, (i + 1) as int).last() == views[i as int]);
        }
        i = i + 1;
    }
    proof {
        assert(views.subrange(0, n as int) =~= views);
    }
}

impl LintErrorKind {
    /// The diagnostic text of this finding, as shown to the committer.
    pub fn message(&self) -> (s: String)
        ensures
            s@ == spec_lint_message(*self),
    {
        let mut out: Vec<char> = Vec::new();
        match self {
            LintErrorKind::InvalidFormat { input, expected } => {
                push_str(&mut out, "Invalid commit message format\n");
                push_str(&mut out, "Input:    ");
                push_string(&mut out, input);
                push_str(&mut out, "\n");
                push_str(&mut out, "Expected: ");
                push_string(&mut out, expected);
                push_str(&mut out, "\n");
                push_str(&mut out, "Example:  feat(api): add user authentication\n");
            },
            LintErrorKind::InvalidType { type_value, allowed_types } => {
                push_str(&mut out, "Invalid commit type '");
                push_string(&mut out, type_value);
                push_str(&mut out, "'\n");
                push_str(&mut out, "Allowed types:\n");
                push_bullets(&mut out, allowed_types);
            },
            LintErrorKind::InvalidScope { scope, allowed_scopes } => {
                push_str(&mut out, "Invalid commit scope '");
                push_string(&mut out, scope);
                push_str(&mut out, "'\n");
                push_str(&mut out, "Allowed scopes:\n");
                push_bullets(&mut out, allowed_scopes);
            },
            LintErrorKind::SubjectTooShort { subject, length, min } => {
                push_str(&mut out, "Commit subject too short (");
                push_decimal(&mut out, *length);
                push_str(&mut out, " chars, minimum ");
                push_decimal(&mut out, *min);
                push_str(&mut out, ")\n");
                push_str(&mut out, "Subject: ");
                push_string(&mut out, subject);
                push_str(&mut out, "\n");
                push_str(&mut out, "Please provide a more descriptive commit message\n");
            },
            LintErrorKind::SubjectTooLong { subject, length, max } => {
                push_str(&mut out, "Commit subject too long (");
                push_decimal(&mut out, *length);
                push_str(&mut out, " chars, maximum ");
                push_decimal(&mut out, *max);
                push_str(&mut out, ")\n");
                push_str(&mut out, "Subject: ");
                push_string(&mut out, subject);
                push_str(&mut out, "\n");
                push_str(&mut out, "Please make your commit message more concise\n");
            },
            LintErrorKind::BodyLineTooLong { line, content, length, max } => {
                push_str(&mut out, "Line ");
                push_decimal(&mut out, *line);
                push_str(&mut out, " is too long (");
                push_decimal(&mut out, *length);
                push_str(&mut out, " chars, maximum ");
                push_decimal(&mut out, *max);
                push_str(&mut out, ")\n");
                push_str(&mut out, "Content: ");
                push_string(&mut out, content);
                push_str(&mut out, "\n");
                push_str(&mut out, "Please break this line into multiple lines\n");
            },
        }
        chars_to_string(&out)
    }
}

} // verus!
