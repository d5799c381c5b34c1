//! Commit-message linting. A message is accepted when its first line has the
//! shape `type(scope): subject` (the scope optional), the type and scope come
//! from the configured vocabularies, the subject length lies within the
//! configured bounds, and no non-empty body line is longer than allowed.
//! The header grammar: the type is one or more lowercase letters; the scope,
//! if present, stands in parentheses and is one or more lowercase letters or
//! hyphens; a colon and one space follow; the subject is the non-empty rest
//! of the line.

use vstd::prelude::*;

use crate::config::LinterConfig;
use crate::error::{HookError, LintErrorKind};
use crate::text::{
    chars_to_string, clone_strings, lemma_take_while_at, str_chars, str_eq_chars, subvec,
    take_while_len, views_of,
};

verus! {

/// A lowercase ASCII letter.
pub open spec fn is_lower(c: char) -> bool {
    'a' <= c && c <= 'z'
}

/// A character allowed in a scope: a lowercase letter or a hyphen.
pub open spec fn is_scope_char(c: char) -> bool {
    is_lower(c) || c == '-'
}

/// The lowercase-letter predicate, as a value.
pub open spec fn lower_pred() -> spec_fn(char) -> bool {
    |c: char| is_lower(c)
}

/// The scope-character predicate, as a value.
pub open spec fn scope_pred() -> spec_fn(char) -> bool {
    |c: char| is_scope_char(c)
}

/// A line with its one trailing carriage return removed, if it has one.
pub open spec fn strip_cr(l: Seq<char>) -> Seq<char> {
    if l.len() > 0 && l.last() == '\r' {
        l.drop_last()
    } else {
        l
    }
}

/// The number of characters of `s` before its first newline (all of `s` if
/// it has none).
pub open spec fn spec_line_len(s: Seq<char>) -> nat
    decreases s.len(),
{
    if s.len() == 0 {
        0
    } else if s.first() == '\n' {
        0
    } else {
        1 + spec_line_len(s.drop_first())
    }
}

proof fn lemma_line_len_at(s: Seq<char>, k: int)
    requires
        0 <= k <= s.len(),
        forall|j: int| 0 <= j < k ==> #[trigger] s[j] != '\n',
        k < s.len() ==> s[k] == '\n',
    ensures
        spec_line_len(s) == k,
    decreases k,
{
    if k == 0 {
    } else {
        assert(s[0] != '\n');
        assert(forall|j: int| 0 <= j < k - 1 ==> #[trigger] s.drop_first()[j] != '\n');
        lemma_line_len_at(s.drop_first(), k - 1);
    }
}

/// The lines of `s`, split at newlines, each with a trailing carriage return
/// removed; a final newline ends the last line rather than opening an empty
/// one.
pub open spec fn spec_lines(s: Seq<char>) -> Seq<Seq<char>>
    decreases s.len(),
{
    if s.len() == 0 {
        Seq::empty()
    } else {
        let k = spec_line_len(s);
        if k >= s.len() {
            seq![strip_cr(s)]
        } else {
            seq![strip_cr(s.take(k as int))] + spec_lines(s.skip(k as int + 1))
        }
    }
}

/// The first line of `s` (empty for an empty message).
pub open spec fn spec_header_line(s: Seq<char>) -> Seq<char> {
    if spec_lines(s).len() > 0 {
        spec_lines(s)[0]
    } else {
        Seq::empty()
    }
}

/// The parsed header of a first line, `type(scope): subject`: the type, the
/// scope if present, and the subject; nothing when the line does not have
/// that shape.
pub open spec fn spec_parse_header(l: Seq<char>) -> Option<
    (Seq<char>, Option<Seq<char>>, Seq<char>),
> {
    let t = take_while_len(l, lower_pred()) as int;
    if t == 0 {
        Option::None
    } else {
        let rest = l.skip(t);
        if rest.len() >= 1 && rest.first() == '(' {
            let sl = take_while_len(rest.drop_first(), scope_pred()) as int;
            if sl == 0 {
                Option::None
            } else if rest.len() >= sl + 2 && rest[sl + 1] == ')' {
                let after = rest.skip(sl + 2);
                if after.len() >= 3 && after.first() == ':' && after[1] == ' ' {
                    Option::Some(
                        (l.take(t), Option::Some(rest.subrange(1, sl + 1)), after.skip(2)),
                    )
                } else {
                    Option::None
                }
            } else {
                Option::None
            }
        } else {
            if rest.len() >= 3 && rest.first() == ':' && rest[1] == ' ' {
                Option::Some((l.take(t), Option::None, rest.skip(2)))
            } else {
                Option::None
            }
        }
    }
}

/// Whether `ts` holds a string with exactly the characters `x`.
pub open spec fn vocab_contains(ts: Seq<String>, x: Seq<char>) -> bool {
    exists|i: int| 0 <= i < ts.len() && ts[i]@ == x
}

/// Whether the scope, if any, passes: an absent scope always does, and any
/// scope does when no vocabulary is configured.
pub open spec fn scope_accepted(cfg: LinterConfig, sc: Option<Seq<char>>) -> bool {
    match sc {
        Option::Some(s) => cfg.scopes@.len() == 0 || vocab_contains(cfg.scopes@, s),
        Option::None => true,
    }
}

/// No non-empty line after the first is longer than `max`.
pub open spec fn body_ok(lines: Seq<Seq<char>>, max: nat) -> bool {
    forall|k: int| 1 <= k < lines.len() ==> (#[trigger] lines[k]).len() == 0 || lines[k].len() <= max
}

/// A message the linter accepts: a well-shaped header, a known type, an
/// accepted scope, a subject within the length bounds, and no over-long body
/// line.
pub open spec fn spec_lint_accepts(cfg: LinterConfig, msg: Seq<char>) -> bool {
    &&& msg.len() > 0
    &&& match spec_parse_header(spec_header_line(msg)) {
        Option::Some(p) => {
            &&& vocab_contains(cfg.types@, p.0)
            &&& scope_accepted(cfg, p.1)
            &&& cfg.min_subject_length <= p.2.len()
            &&& p.2.len() <= cfg.max_subject_length
            &&& body_ok(spec_lines(msg), cfg.max_body_line_length as nat)
        },
        Option::None => false,
    }
}

/// The parsed header of a message's first line.
pub open spec fn header_of(msg: Seq<char>) -> Option<(Seq<char>, Option<Seq<char>>, Seq<char>)> {
    spec_parse_header(spec_header_line(msg))
}

/// The parsed header's parts, for a message whose header parses.
pub open spec fn header_parts(msg: Seq<char>) -> (Seq<char>, Option<Seq<char>>, Seq<char>)
    recommends
        header_of(msg) is Some,
{
    match header_of(msg) {
        Option::Some(p) => p,
        Option::None => (Seq::empty(), Option::None, Seq::empty()),
    }
}

/// The parsed scope, for a message whose header parses with one.
pub open spec fn scope_part(msg: Seq<char>) -> Seq<char>
    recommends
        header_of(msg) is Some,
        header_parts(msg).1 is Some,
{
    match header_parts(msg).1 {
        Option::Some(s) => s,
        Option::None => Seq::empty(),
    }
}

proof fn lemma_lines_nonempty(s: Seq<char>)
    requires
        s.len() > 0,
    ensures
        spec_lines(s).len() > 0,
{
}

/// Splits a message into its lines, as `spec_lines` describes.
fn split_lines(msg: &Vec<char>) -> (r: Vec<Vec<char>>)
    ensures
        views_of(r@) == spec_lines(msg@),
{
    let n = msg.len();
    let mut out: Vec<Vec<char>> = Vec::new();
    let mut cur: Vec<char> = Vec::new();
    let mut i: usize = 0;
    proof {
        assert(views_of(out@) =~= Seq::<Seq<char>>::empty());
        assert(msg@.skip(0) =~= msg@);
    }
    while i < n
        invariant
            i <= n,
            n == msg@.len(),
            cur@.len() <= i,
            cur@ == msg@.subrange(i - cur@.len(), i as int),
            forall|j: int| 0 <= j < cur@.len() ==> #[trigger] cur@[j] != '\n',
            spec_lines(msg@) == views_of(out@) + spec_lines(msg@.skip(i - cur@.len())),
        decreases n - i,
    {
        let c = msg[i];
        if c == '\n' {
            let ghost start = i - cur@.len();
            let ghost s1 = msg@.skip(start);
            proof {
                assert(s1.len() == n - start);
                assert(forall|j: int|
                    0 <= j < cur@.len() ==> s1[j] == msg@[start + j] && s1[j] == cur@[j]);
                assert(s1[cur@.len() as int] == msg@[i as int]);
                lemma_line_len_at(s1, cur@.len() as int);
                assert(s1.take(cur@.len() as int) =~= cur@);
                assert(s1.skip(cur@.len() as int + 1) =~= msg@.skip(i + 1));
            }
            let mut line = cur;
            if line.len() > 0 && line[line.len() - 1] == '\r' {
                line.pop();
            }
            proof {
                assert(line@ == strip_cr(cur@));
            }
            out.push(line);
            cur = Vec::new();
            i = i + 1;
            proof {
                let prev_out = out@.drop_last();
                assert(views_of(out@) =~= views_of(prev_out).push(out@.last()@));
                assert(out@.last()@ == strip_cr(s1.take(spec_line_len(s1) as int)));
                assert(spec_lines(s1) == seq![strip_cr(s1.take(spec_line_len(s1) as int))]
                    + spec_lines(msg@.skip(i as int)));
                assert(views_of(out@) + spec_lines(msg@.skip(i as int)) =~= views_of(prev_out)
                    + spec_lines(s1));
                assert(msg@.skip(i - cur@.len()) =~= msg@.skip(i as int));
            }
        } else {
            cur.push(c);
            i = i + 1;
            proof {
                assert(cur@ =~= msg@.subrange(i - cur@.len(), i as int));
            }
        }
    }
    let ghost start = i - cur@.len();
    let ghost s1 = msg@.skip(start);
    if cur.len() > 0 {
        proof {
            assert(s1.len() == cur@.len());
            assert(forall|j: int|
                0 <= j < cur@.len() ==> s1[j] == msg@[start + j] && s1[j] == cur@[j]);
            lemma_line_len_at(s1, cur@.len() as int);
            assert(s1 =~= cur@);
        }
        let mut line = cur;
        if line.len() > 0 && line[line.len() - 1] == '\r' {
            line.pop();
        }
        proof {
            assert(line@ == strip_cr(s1));
            assert(spec_lines(s1) == seq![strip_cr(s1)]);
        }
        out.push(line);
        proof {
            let prev_out = out@.drop_last();
            assert(views_of(out@) =~= views_of(prev_out).push(out@.last()@));
            assert(views_of(out@) =~= views_of(prev_out) + spec_lines(s1));
        }
    } else {
        proof {
            assert(s1 =~= Seq::<char>::empty());
            assert(spec_lines(s1) =~= Seq::<Seq<char>>::empty());
            assert(views_of(out@) + spec_lines(s1) =~= views_of(out@));
        }
    }
    out
}

/// A parsed header: the commit type, the scope if present, and the subject.
struct Header {
    ctype: Vec<char>,
    scope: Option<Vec<char>>,
    subject: Vec<char>,
}

/// Whether `c` is a lowercase ASCII letter.
fn is_lower_char(c: char) -> (r: bool)
    ensures
        r == is_lower(c),
{
    'a' <= c && c <= 'z'
}

/// Whether `c` may stand in a scope.
fn is_scope_char_exec(c: char) -> (r: bool)
    ensures
        r == is_scope_char(c),
{
    is_lower_char(c) || c == '-'
}

/// Parses a first line against the header grammar.
fn parse_header(l: &Vec<char>) -> (r: Option<Header>)
    ensures
        match r {
            Option::Some(h) => {
                &&& spec_parse_header(l@) matches Option::Some(p)
                &&& h.ctype@ == p.0
                &&& match h.scope {
                    Option::Some(sv) => p.1 matches Option::Some(ps) && sv@ == ps,
                    Option::None => p.1 is None,
                }
                &&& h.subject@ == p.2
            },
            Option::None => spec_parse_header(l@) is None,
        },
{
    let n = l.len();
    let mut t: usize = 0;
    while t < n && is_lower_char(l[t])
        invariant
            t <= n,
            n == l@.len(),
            forall|j: int| 0 <= j < t ==> is_lower(#[trigger] l@[j]),
        decreases n - t,
    {
        t = t + 1;
    }
    proof {
        lemma_take_while_at(l@, lower_pred(), t as int);
    }
    if t == 0 {
        return Option::None;
    }
    let ghost rest = l@.skip(t as int);
    if t < n && l[t] == '(' {
        proof {
            assert(rest.first() == l@[t as int]);
        }
        let mut e: usize = t + 1;
        while e < n && is_scope_char_exec(l[e])
            invariant
                t + 1 <= e <= n,
                n == l@.len(),
                forall|j: int| t + 1 <= j < e ==> is_scope_char(#[trigger] l@[j]),
            decreases n - e,
        {
            e = e + 1;
        }
        let ghost inner = rest.drop_first();
        proof {
            assert(inner =~= l@.skip(t + 1));
            assert(forall|j: int| 0 <= j < e - t - 1 ==> inner[j] == l@[t + 1 + j]);
            lemma_take_while_at(inner, scope_pred(), e - t - 1);
        }
        let sl = e - t - 1;
        if sl == 0 {
            return Option::None;
        }
        if e >= n || l[e] != ')' {
            proof {
                if e < n {
                    assert(rest[sl + 1] == l@[e as int]);
                }
                assert(rest.len() == n - t);
            }
            return Option::None;
        }
        proof {
            assert(rest[sl + 1] == l@[e as int]);
            assert(rest.len() >= sl + 2);
        }
        let ghost after = rest.skip(sl + 2);
        proof {
            assert(after =~= l@.skip(e + 1));
            assert(after.len() == n - e - 1);
        }
        if n - e < 4 {
            return Option::None;
        }
        proof {
            assert(after.first() == l@[e + 1]);
            assert(after[1] == l@[e + 2]);
        }
        if l[e + 1] != ':' || l[e + 2] != ' ' {
            return Option::None;
        }
        let ctype = subvec(l, 0, t);
        let scope = subvec(l, t + 1, e);
        let subject = subvec(l, e + 3, n);
        proof {
            assert(l@.take(t as int) =~= l@.subrange(0, t as int));
            assert(rest.subrange(1, sl + 1) =~= l@.subrange(t + 1, e as int));
            assert(after.skip(2) =~= l@.subrange(e + 3, n as int));
        }
        Option::Some(Header { ctype, scope: Option::Some(scope), subject })
    } else {
        proof {
            if t < n {
                assert(rest.first() == l@[t as int]);
            }
            assert(rest.len() == n - t);
        }
        if n - t < 3 {
            return Option::None;
        }
        proof {
            assert(rest.first() == l@[t as int]);
            assert(rest[1] == l@[t + 1]);
        }
        if l[t] != ':' || l[t + 1] != ' ' {
            return Option::None;
        }
        let ctype = subvec(l, 0, t);
        let subject = subvec(l, t + 2, n);
        proof {
            assert(l@.take(t as int) =~= l@.subrange(0, t as int));
            assert(rest.skip(2) =~= l@.subrange(t + 2, n as int));
        }
        Option::Some(Header { ctype, scope: Option::None, subject })
    }
}

/// Whether `v` holds a string with exactly the characters `x`.
fn vocab_lookup(v: &Vec<String>, x: &Vec<char>) -> (r: bool)
    ensures
        r == vocab_contains(v@, x@),
{
    let n = v.len();
    let mut i: usize = 0;
    while i < n
        invariant
            i <= n,
            n == v@.len(),
            forall|j: int| 0 <= j < i ==> v@[j]@ != x@,
        decreases n - i,
    {
        if str_eq_chars(v[i].as_str(), x) {
            return true;
        }
        i = i + 1;
    }
    false
}

/// The commit-message linter: checks messages against one linter setup.
pub struct CommitLinter {
    config: LinterConfig,
}

impl CommitLinter {
    /// The setup this linter checks against.
    pub closed spec fn cfg(self) -> LinterConfig {
        self.config
    }

    /// A linter for the given setup.
    pub fn new(config: LinterConfig) -> (l: Self)
        ensures
            l.cfg() == config,
    {
        CommitLinter { config }
    }

    /// Checks one commit message. Succeeds exactly when the message is
    /// accepted; otherwise the reported finding names the first rule broken,
    /// checked in this order: the header shape, the type, the scope, the
    /// subject length bounds, and finally the body lines in order.
    pub fn validate(&self, message: &str) -> (r: Result<(), HookError>)
        ensures
            r is Ok <==> spec_lint_accepts(self.cfg(), message@),
            message@.len() == 0 ==> (r matches Err(HookError::LintError { kind })
                && kind matches LintErrorKind::InvalidFormat { input, expected } && input@
                == Seq::<char>::empty() && expected@ == "<type>(<scope>): <subject>"@),
            message@.len() > 0 && spec_parse_header(spec_header_line(message@)) is None ==> (
            r matches Err(HookError::LintError { kind })
                && kind matches LintErrorKind::InvalidFormat { input, expected } && input@
                == spec_header_line(message@) && expected@ == "<type>(<scope>): <subject>"@),
            header_of(message@) is Some && !vocab_contains(
                self.cfg().types@,
                header_parts(message@).0,
            ) ==> (r matches Err(HookError::LintError { kind })
                && kind matches LintErrorKind::InvalidType { type_value, allowed_types }
                && type_value@ == header_parts(message@).0 && allowed_types@
                == self.cfg().types@),
            header_of(message@) is Some && vocab_contains(
                self.cfg().types@,
                header_parts(message@).0,
            ) && header_parts(message@).1 is Some && self.cfg().scopes@.len() > 0
                && !vocab_contains(self.cfg().scopes@, scope_part(message@)) ==> (r matches Err(
                HookError::LintError { kind },
            ) && kind matches LintErrorKind::InvalidScope { scope, allowed_scopes } && scope@
                == scope_part(message@) && allowed_scopes@ == self.cfg().scopes@),
            header_of(message@) is Some && vocab_contains(
                self.cfg().types@,
                header_parts(message@).0,
            ) && scope_accepted(self.cfg(), header_parts(message@).1) && header_parts(
                message@,
            ).2.len() < self.cfg().min_subject_length ==> (r matches Err(
                HookError::LintError { kind },
            ) && kind matches LintErrorKind::SubjectTooShort { subject, length, min } && subject@
                == header_parts(message@).2 && length == header_parts(message@).2.len() && min
                == self.cfg().min_subject_length),
            header_of(message@) is Some && vocab_contains(
                self.cfg().types@,
                header_parts(message@).0,
            ) && scope_accepted(self.cfg(), header_parts(message@).1) && header_parts(
                message@,
            ).2.len() >= self.cfg().min_subject_length && header_parts(message@).2.len()
                > self.cfg().max_subject_length ==> (r matches Err(HookError::LintError { kind })
                && kind matches LintErrorKind::SubjectTooLong { subject, length, max } && subject@
                == header_parts(message@).2 && length == header_parts(message@).2.len() && max
                == self.cfg().max_subject_length),
            header_of(message@) is Some && vocab_contains(
                self.cfg().types@,
                header_parts(message@).0,
            ) && scope_accepted(self.cfg(), header_parts(message@).1)
                && self.cfg().min_subject_length <= header_parts(message@).2.len()
                && header_parts(message@).2.len() <= self.cfg().max_subject_length && !body_ok(
                spec_lines(message@),
                self.cfg().max_body_line_length as nat,
            ) ==> (exists|k: int|
                {
                    &&& 1 <= k < spec_lines(message@).len()
                    &&& (#[trigger] spec_lines(message@)[k]).len()
                        > self.cfg().max_body_line_length
                    &&& forall|t: int|
                        1 <= t < k ==> ((#[trigger] spec_lines(message@)[t]).len() == 0
                            || spec_lines(message@)[t].len() <= self.cfg().max_body_line_length)
                    &&& r matches Err(HookError::LintError { kind })
                        && kind matches LintErrorKind::BodyLineTooLong { line, content, length, max }
                        && line == k + 1 && content@ == spec_lines(message@)[k] && length
                        == spec_lines(message@)[k].len() && max == self.cfg().max_body_line_length
                }),
    {
        if message.is_empty() {
            return Result::Err(
                HookError::LintError {
                    kind: LintErrorKind::InvalidFormat {
                        input: String::new(),
                        expected: String::from_str("<type>(<scope>): <subject>"),
                    },
                },
            );
        }
        let chars = str_chars(message);
        let lines = split_lines(&chars);
        proof {
            lemma_lines_nonempty(message@);
            assert(views_of(lines@).len() == lines@.len());
            assert(views_of(lines@)[0] == lines@[0]@);
        }
        let first = &lines[0];
        let header = match parse_header(first) {
            Option::Some(h) => h,
            Option::None => {
                return Result::Err(
                    HookError::LintError {
                        kind: LintErrorKind::InvalidFormat {
                            input: chars_to_string(first),
                            expected: String::from_str("<type>(<scope>): <subject>"),
                        },
                    },
                );
            },
        };
        if !vocab_lookup(&self.config.types, &header.ctype) {
            return Result::Err(
                HookError::LintError {
                    kind: LintErrorKind::InvalidType {
                        type_value: chars_to_string(&header.ctype),
                        allowed_types: clone_strings(&self.config.types),
                    },
                },
            );
        }
        match &header.scope {
            Option::Some(sc) => {
                if self.config.scopes.len() > 0 && !vocab_lookup(&self.config.scopes, sc) {
                    return Result::Err(
                        HookError::LintError {
                            kind: LintErrorKind::InvalidScope {
                                scope: chars_to_string(sc),
                                allowed_scopes: clone_strings(&self.config.scopes),
                            },
                        },
                    );
                }
            },
            Option::None => {},
        }
        if header.subject.len() < self.config.min_subject_length {
            return Result::Err(
                HookError::LintError {
                    kind: LintErrorKind::SubjectTooShort {
                        subject: chars_to_string(&header.subject),
                        length: header.subject.len(),
                        min: self.config.min_subject_length,
                    },
                },
            );
        }
        if header.subject.len() > self.config.max_subject_length {
            return Result::Err(
                HookError::LintError {
                    kind: LintErrorKind::SubjectTooLong {
                        subject: chars_to_string(&header.subject),
                        length: header.subject.len(),
                        max: self.config.max_subject_length,
                    },
                },
            );
        }
        proof {
            assert(spec_header_line(message@) == lines@[0]@);
            assert(header_of(message@) is Some);
            assert(header_parts(message@).0 == header.ctype@);
            assert(header_parts(message@).2 == header.subject@);
            assert(vocab_contains(self.config.types@, header_parts(message@).0));
            assert(scope_accepted(self.config, header_parts(message@).1));
        }
        let m = lines.len();
        let mut k: usize = 1;
        while k < m
            invariant
                1 <= k <= m,
                m == lines@.len(),
                message@.len() > 0,
                views_of(lines@) == spec_lines(message@),
                header_of(message@) is Some,
                vocab_contains(self.config.types@, header_parts(message@).0),
                scope_accepted(self.config, header_parts(message@).1),
                self.config.min_subject_length <= header_parts(message@).2.len(),
                header_parts(message@).2.len() <= self.config.max_subject_length,
                forall|t: int|
                    1 <= t < k ==> ((#[trigger] lines@[t]@).len() == 0 || lines@[t]@.len()
                        <= self.config.max_body_line_length),
            decreases m - k,
        {
            let line_len = lines[k].len();
            if line_len > 0 && line_len > self.config.max_body_line_length {
                proof {
                    assert(views_of(lines@)[k as int] == lines@[k as int]@);
                    assert(forall|t: int|
                        1 <= t < k ==> views_of(lines@)[t] == lines@[t]@);
                }
                return Result::Err(
                    HookError::LintError {
                        kind: LintErrorKind::BodyLineTooLong {
                            line: k + 1,
                            content: chars_to_string(&lines[k]),
                            length: line_len,
                            max: self.config.max_body_line_length,
                        },
                    },
                );
            }
            k = k + 1;
        }
        proof {
            assert(forall|t: int|
                1 <= t < spec_lines(message@).len() ==> spec_lines(message@)[t] == lines@[t]@);
        }
        Result::Ok(())
    }
}

} // verus!
