//! Hook management: building hook scripts from the configuration, with
//! `${...}` variable substitution and command-string assembly, and editing
//! the configured hooks. Filesystem and git work — installing the generated
//! scripts, reading directories, running `git config` — belongs to the
//! caller; every decision and every piece of generated text is made here.

use vstd::prelude::*;

use crate::config::{CommandConfig, Config, Hook, ScriptConfig};
use crate::error::HookError;
use crate::git::{is_valid_hook_name, spec_path_ends_with, GitRepo};
use crate::text::{
    chars_to_string, lemma_take_while_at, push_str, str_chars, str_eq, str_eq_chars, subvec,
    take_while_len, views_of,
};

verus! {

/// The first script named `name`, if any.
pub open spec fn spec_script_for(
    ss: Seq<(String, ScriptConfig)>,
    name: Seq<char>,
) -> Option<ScriptConfig>
    decreases ss.len(),
{
    if ss.len() == 0 {
        Option::None
    } else if ss.first().0@ == name {
        Option::Some(ss.first().1)
    } else {
        spec_script_for(ss.drop_first(), name)
    }
}

proof fn lemma_script_for_at(ss: Seq<(String, ScriptConfig)>, name: Seq<char>, k: int)
    requires
        0 <= k < ss.len(),
        ss[k].0@ == name,
        forall|j: int| 0 <= j < k ==> ss[j].0@ != name,
    ensures
        spec_script_for(ss, name) == Option::Some(ss[k].1),
    decreases k,
{
    if k > 0 {
        assert(forall|j: int| 0 <= j < k - 1 ==> ss.drop_first()[j].0@ != name);
        lemma_script_for_at(ss.drop_first(), name, k - 1);
    }
}

proof fn lemma_script_for_absent(ss: Seq<(String, ScriptConfig)>, name: Seq<char>)
    requires
        forall|j: int| 0 <= j < ss.len() ==> ss[j].0@ != name,
    ensures
        spec_script_for(ss, name) is None,
    decreases ss.len(),
{
    if ss.len() > 0 {
        assert(forall|j: int| 0 <= j < ss.len() - 1 ==> ss.drop_first()[j].0@ != name);
        lemma_script_for_absent(ss.drop_first(), name);
    }
}

/// The `KEY="value" ` prefixes contributed by environment overrides, in
/// order.
pub open spec fn spec_env_prefix(env: Seq<(String, String)>) -> Seq<char>
    decreases env.len(),
{
    if env.len() == 0 {
        Seq::empty()
    } else {
        spec_env_prefix(env.drop_last()) + env.last().0@ + "=\""@ + env.last().1@ + "\" "@
    }
}

/// A command as one shell line: a `cd` prefix when it has a working
/// directory, its environment overrides, then the command itself.
pub open spec fn spec_build_command(cmd: CommandConfig) -> Seq<char> {
    (match cmd.working_dir {
        Option::Some(d) => "cd "@ + d@ + " && "@,
        Option::None => Seq::empty(),
    }) + spec_env_prefix(cmd.env@) + cmd.command@
}

/// A decimal digit.
pub open spec fn is_digit(c: char) -> bool {
    '0' <= c && c <= '9'
}

/// A non-empty, all-digit character sequence.
pub open spec fn all_digits(s: Seq<char>) -> bool {
    s.len() > 0 && forall|i: int| 0 <= i < s.len() ==> is_digit(#[trigger] s[i])
}

/// The value of a digit sequence, most significant digit first.
pub open spec fn digits_val(s: Seq<char>) -> int
    decreases s.len(),
{
    if s.len() == 0 {
        0
    } else {
        digits_val(s.drop_last()) * 10 + (s.last() as u32 - 48)
    }
}

proof fn lemma_digits_nonneg(s: Seq<char>)
    requires
        forall|i: int| 0 <= i < s.len() ==> is_digit(#[trigger] s[i]),
    ensures
        digits_val(s) >= 0,
    decreases s.len(),
{
    if s.len() > 0 {
        assert(forall|i: int| 0 <= i < s.len() - 1 ==> is_digit(#[trigger] s.drop_last()[i]));
        lemma_digits_nonneg(s.drop_last());
    }
}

proof fn lemma_digits_monotone(s: Seq<char>, i: int)
    requires
        0 <= i <= s.len(),
        forall|j: int| 0 <= j < s.len() ==> is_digit(#[trigger] s[j]),
    ensures
        digits_val(s.take(i)) <= digits_val(s),
    decreases s.len() - i,
{
    if i < s.len() {
        lemma_digits_monotone(s, i + 1);
        assert(s.take(i + 1).drop_last() =~= s.take(i));
        assert(forall|j: int| 0 <= j < i ==> is_digit(#[trigger] s.take(i)[j]));
        lemma_digits_nonneg(s.take(i));
        assert(is_digit(s[i]));
        assert(digits_val(s.take(i + 1)) == digits_val(s.take(i)) * 10 + (s[i] as u32 - 48));
        assert(digits_val(s.take(i + 1)) >= digits_val(s.take(i)));
    } else {
        assert(s.take(i) =~= s);
    }
}

/// The separator predicate for dotted names, as a value.
pub open spec fn not_dot_pred() -> spec_fn(char) -> bool {
    |c: char| c != '.'
}

/// The closing-brace predicate for variable references, as a value.
pub open spec fn not_rbrace_pred() -> spec_fn(char) -> bool {
    |c: char| c != '}'
}

/// The segments of `s` split at dots; empty segments are kept.
pub open spec fn spec_split_dots(s: Seq<char>) -> Seq<Seq<char>>
    decreases s.len(),
{
    let k = take_while_len(s, not_dot_pred()) as int;
    if k >= s.len() {
        seq![s]
    } else {
        seq![s.take(k)] + spec_split_dots(s.skip(k + 1))
    }
}

/// Whether `pat` occurs inside `s`.
pub open spec fn contains_sub(s: Seq<char>, pat: Seq<char>) -> bool {
    exists|i: int|
        0 <= i && i + pat.len() <= s.len() && #[trigger] s.subrange(i, i + pat.len()) == pat
}

/// What a `${name}` reference stands for: the tool's own binary path for
/// `athira`; a `scripts run` invocation for `scripts.`-prefixed names and
/// names of configured scripts; the assembled shell line of one script
/// command for `script.N` names that point at an existing command; any
/// other reference stays as written.
pub open spec fn spec_var_value(
    ss: Seq<(String, ScriptConfig)>,
    bp: Seq<char>,
    name: Seq<char>,
) -> Seq<char> {
    if name == "athira"@ {
        bp
    } else if name.len() >= 8 && name.take(8) == "scripts."@ {
        bp + " scripts run "@ + name.skip(8)
    } else if spec_script_for(ss, name) is Some {
        bp + " scripts run "@ + name
    } else {
        let parts = spec_split_dots(name);
        if parts.len() == 2 && spec_script_for(ss, parts[0]) is Some {
            let sc = spec_script_for(ss, parts[0]).unwrap();
            if all_digits(parts[1]) && digits_val(parts[1]) <= usize::MAX as int && 1
                <= digits_val(parts[1]) && digits_val(parts[1]) <= sc.commands@.len() {
                spec_build_command(sc.commands@[digits_val(parts[1]) - 1])
            } else {
                "${"@ + name + "}"@
            }
        } else if parts.len() == 3 && parts[0] == "scripts"@ && spec_script_for(
            ss,
            parts[1],
        ) is Some {
            let sc = spec_script_for(ss, parts[1]).unwrap();
            if all_digits(parts[2]) && digits_val(parts[2]) <= usize::MAX as int && 1
                <= digits_val(parts[2]) && digits_val(parts[2]) <= sc.commands@.len() {
                bp + " scripts run "@ + parts[1]
            } else {
                "${"@ + name + "}"@
            }
        } else {
            "${"@ + name + "}"@
        }
    }
}

/// `s` with every well-formed `${name}` reference replaced, scanning left to
/// right; a lone `$` or an unterminated or empty reference stays as written.
pub open spec fn spec_subst(s: Seq<char>, ss: Seq<(String, ScriptConfig)>, bp: Seq<char>) -> Seq<
    char,
>
    decreases s.len(),
{
    if s.len() < 2 {
        s
    } else if s[0] == '$' && s[1] == '{' {
        let k = take_while_len(s.skip(2), not_rbrace_pred()) as int;
        if k >= 1 && 2 + k < s.len() {
            spec_var_value(ss, bp, s.subrange(2, 2 + k)) + spec_subst(s.skip(3 + k), ss, bp)
        } else {
            seq![s[0]] + spec_subst(s.drop_first(), ss, bp)
        }
    } else {
        seq![s[0]] + spec_subst(s.drop_first(), ss, bp)
    }
}

/// The ` arg` suffixes of a hook command, each argument substituted.
pub open spec fn spec_args_part(
    args: Seq<String>,
    ss: Seq<(String, ScriptConfig)>,
    bp: Seq<char>,
) -> Seq<char>
    decreases args.len(),
{
    if args.len() == 0 {
        Seq::empty()
    } else {
        spec_args_part(args.drop_last(), ss, bp) + " "@ + spec_subst(args.last()@, ss, bp)
    }
}

/// One hook's block in a generated hook script: commit-message validation
/// hooks call the tool directly; any other hook runs its substituted command
/// line; either way a failure aborts the script.
pub open spec fn spec_hook_block(
    ss: Seq<(String, ScriptConfig)>,
    bp: Seq<char>,
    h: Hook,
) -> Seq<char> {
    let cmd = spec_subst(h.command@, ss, bp);
    if contains_sub(cmd, "thira"@) && crate::lint::vocab_contains(h.args@, "commit"@) {
        bp + " commit validate \"$1\"\n"@ + "if [ $? -ne 0 ]; then\n  exit 1\nfi\n\n"@
    } else {
        cmd + spec_args_part(h.args@, ss, bp) + "\n"@ + "if [ $? -ne 0 ]; then\n  exit 1\nfi\n\n"@
    }
}

/// A whole generated hook script: the shebang, then one block per hook.
pub open spec fn spec_script_text(
    ss: Seq<(String, ScriptConfig)>,
    bp: Seq<char>,
    hooks: Seq<Hook>,
) -> Seq<char>
    decreases hooks.len(),
{
    if hooks.len() == 0 {
        "#!/bin/sh\n\n"@
    } else {
        spec_script_text(ss, bp, hooks.drop_last()) + spec_hook_block(ss, bp, hooks.last())
    }
}

/// Whether the hook list holds an entry named `name`.
pub open spec fn has_hook(hs: Seq<(String, Vec<Hook>)>, name: Seq<char>) -> bool {
    exists|i: int| 0 <= i < hs.len() && hs[i].0@ == name
}

/// The installed hook files that the configuration no longer names, in
/// directory order.
pub open spec fn spec_stale(ex: Seq<String>, hs: Seq<(String, Vec<Hook>)>) -> Seq<String>
    decreases ex.len(),
{
    if ex.len() == 0 {
        Seq::empty()
    } else if has_hook(hs, ex.first()@) {
        spec_stale(ex.drop_first(), hs)
    } else {
        seq![ex.first()] + spec_stale(ex.drop_first(), hs)
    }
}

/// Splits `s` at dots, as `spec_split_dots` describes.
fn split_dots(s: &Vec<char>) -> (r: Vec<Vec<char>>)
    ensures
        views_of(r@) == spec_split_dots(s@),
{
    let n = s.len();
    let mut out: Vec<Vec<char>> = Vec::new();
    let mut cur: Vec<char> = Vec::new();
    let mut i: usize = 0;
    proof {
        assert(views_of(out@) =~= Seq::<Seq<char>>::empty());
        assert(s@.skip(0) =~= s@);
    }
    while i < n
        invariant
            i <= n,
            n == s@.len(),
            cur@.len() <= i,
            cur@ == s@.subrange(i - cur@.len(), i as int),
            forall|j: int| 0 <= j < cur@.len() ==> #[trigger] cur@[j] != '.',
            spec_split_dots(s@) == views_of(out@) + spec_split_dots(s@.skip(i - cur@.len())),
        decreases n - i,
    {
        let c = s[i];
        if c == '.' {
            let ghost start = i - cur@.len();
            let ghost s1 = s@.skip(start);
            proof {
                assert(forall|j: int|
                    0 <= j < cur@.len() ==> s1[j] == s@[start + j] && s1[j] == cur@[j]);
                assert(s1[cur@.len() as int] == s@[i as int]);
                lemma_take_while_at(s1, not_dot_pred(), cur@.len() as int);
                assert(s1.take(cur@.len() as int) =~= cur@);
                assert(s1.skip(cur@.len() as int + 1) =~= s@.skip(i + 1));
            }
            out.push(cur);
            cur = Vec::new();
            i = i + 1;
            proof {
                let prev_out = out@.drop_last();
                assert(views_of(out@) =~= views_of(prev_out).push(out@.last()@));
            }
        } else {
            cur.push(c);
            i = i + 1;
            proof {
                assert(cur@ =~= s@.subrange(i - cur@.len(), i as int));
            }
        }
    }
    let ghost start = i - cur@.len();
    let ghost s1 = s@.skip(start);
    proof {
        assert(s1.len() == cur@.len());
        assert(forall|j: int| 0 <= j < cur@.len() ==> s1[j] == s@[start + j] && s1[j] == cur@[j]);
        lemma_take_while_at(s1, not_dot_pred(), cur@.len() as int);
        assert(s1 =~= cur@);
        assert(spec_split_dots(s1) == seq![s1]);
    }
    out.push(cur);
    proof {
        let prev_out = out@.drop_last();
        assert(views_of(out@) =~= views_of(prev_out).push(out@.last()@));
        assert(views_of(out@) =~= views_of(prev_out) + spec_split_dots(s1));
    }
    out
}

/// Parses a dotted-name index: a non-empty digit sequence whose value fits.
fn parse_index(s: &Vec<char>) -> (r: Option<usize>)
    ensures
        r is Some <==> (all_digits(s@) && digits_val(s@) <= usize::MAX as int),
        r matches Some(v) ==> v as int == digits_val(s@),
{
    let n = s.len();
    if n == 0 {
        return Option::None;
    }
    let mut acc: usize = 0;
    let mut i: usize = 0;
    proof {
        assert(s@.take(0) =~= Seq::<char>::empty());
    }
    while i < n
        invariant
            i <= n,
            n == s@.len(),
            forall|j: int| 0 <= j < i ==> is_digit(#[trigger] s@[j]),
            acc as int == digits_val(s@.take(i as int)),
        decreases n - i,
    {
        let c = s[i];
        if !('0' <= c && c <= '9') {
            return Option::None;
        }
        let d: usize = ((c as u32) - 48) as usize;
        proof {
            vstd::arithmetic::div_mod::lemma_fundamental_div_mod(usize::MAX as int, 10);
        }
        if acc > usize::MAX / 10 || (acc == usize::MAX / 10 && d > usize::MAX % 10) {
            proof {
                assert(s@.take(i + 1).drop_last() =~= s@.take(i as int));
                assert(digits_val(s@.take(i + 1)) == acc * 10 + d);
                assert(digits_val(s@.take(i + 1)) > usize::MAX as int);
                if all_digits(s@) {
                    lemma_digits_monotone(s@, i + 1);
                }
            }
            return Option::None;
        }
        acc = acc * 10 + d;
        proof {
            assert(s@.take(i + 1).drop_last() =~= s@.take(i as int));
        }
        i = i + 1;
    }
    proof {
        assert(s@.take(n as int) =~= s@);
    }
    Option::Some(acc)
}

/// Whether `pat` occurs inside `s`.
fn contains_sub_exec(s: &Vec<char>, pat: &str) -> (r: bool)
    ensures
        r == contains_sub(s@, pat@),
{
    let n = s.len();
    let m = pat.unicode_len();
    if m > n {
        proof {
            assert(!contains_sub(s@, pat@));
        }
        return false;
    }
    if m == 0 {
        proof {
            assert(s@.subrange(0, 0 + pat@.len() as int) =~= pat@);
            assert(contains_sub(s@, pat@));
        }
        return true;
    }
    let mut i: usize = 0;
    while i <= n - m
        invariant
            1 <= m <= n,
            n == s@.len(),
            m == pat@.len(),
            i <= n - m + 1,
            forall|t: int| 0 <= t < i ==> #[trigger] s@.subrange(t, t + pat@.len()) != pat@,
        decreases n - m + 1 - i,
    {
        let piece = subvec(s, i, i + m);
        if str_eq_chars(pat, &piece) {
            return true;
        }
        i = i + 1;
    }
    false
}

/// Manages the configured hooks of one repository.
pub struct HookManager {
    config: Config,
    repo: GitRepo,
}

impl HookManager {
    /// The configuration this manager works on.
    pub closed spec fn cfg(self) -> Config {
        self.config
    }

    /// The repository this manager installs into.
    pub closed spec fn repo(self) -> GitRepo {
        self.repo
    }

    /// A manager over the given configuration and repository.
    pub fn new(config: Config, repo: GitRepo) -> (m: Self)
        ensures
            m.cfg() == config,
            m.repo() == repo,
    {
        HookManager { config, repo }
    }

    /// All configured hooks, by hook name, in insertion order.
    pub fn get_hooks(&self) -> (r: &Vec<(String, Vec<Hook>)>)
        ensures
            r@ == self.cfg().hooks@,
    {
        &self.config.hooks
    }

    /// The whole configuration.
    pub fn get_config(&self) -> (r: &Config)
        ensures
            *r == self.cfg(),
    {
        &self.config
    }

    /// The repository handle.
    pub fn get_repo(&self) -> (r: &GitRepo)
        ensures
            *r == self.repo(),
    {
        &self.repo
    }

    /// The first script named `name`, if any.
    fn script_for(&self, name: &Vec<char>) -> (r: Option<&ScriptConfig>)
        ensures
            match r {
                Option::Some(sc) => spec_script_for(self.cfg().scripts@, name@) == Option::Some(
                    *sc,
                ),
                Option::None => spec_script_for(self.cfg().scripts@, name@) is None,
            },
    {
        let n = self.config.scripts.len();
        let mut i: usize = 0;
        while i < n
            invariant
                i <= n,
                n == self.config.scripts@.len(),
                forall|j: int| 0 <= j < i ==> self.config.scripts@[j].0@ != name@,
            decreases n - i,
        {
            if str_eq_chars(self.config.scripts[i].0.as_str(), name) {
                proof {
                    lemma_script_for_at(self.config.scripts@, name@, i as int);
                }
                return Option::Some(&self.config.scripts[i].1);
            }
            i = i + 1;
        }
        proof {
            lemma_script_for_absent(self.config.scripts@, name@);
        }
        Option::None
    }

    /// One script command as a shell line, `spec_build_command` exactly.
    fn build_command_chars(&self, cmd: &CommandConfig) -> (r: Vec<char>)
        ensures
            r@ == spec_build_command(*cmd),
    {
        let mut out: Vec<char> = Vec::new();
        match &cmd.working_dir {
            Option::Some(d) => {
                push_str(&mut out, "cd ");
                push_str(&mut out, d.as_str());
                push_str(&mut out, " && ");
            },
            Option::None => {},
        }
        let n = cmd.env.len();
        let ghost dir_part = out@;
        let mut i: usize = 0;
        proof {
            assert(spec_env_prefix(cmd.env@.take(0)) =~= Seq::<char>::empty());
        }
        while i < n
            invariant
                i <= n,
                n == cmd.env@.len(),
                out@ == dir_part + spec_env_prefix(cmd.env@.take(i as int)),
            decreases n - i,
        {
            push_str(&mut out, cmd.env[i].0.as_str());
            push_str(&mut out, "=\"");
            push_str(&mut out, cmd.env[i].1.as_str());
            push_str(&mut out, "\" ");
            proof {
                assert(cmd.env@.take(i + 1).drop_last() =~= cmd.env@.take(i as int));
                assert(cmd.env@.take(i + 1).last() == cmd.env@[i as int]);
            }
            i = i + 1;
        }
        proof {
            assert(cmd.env@.take(n as int) =~= cmd.env@);
        }
        push_str(&mut out, cmd.command.as_str());
        out
    }

    /// One script command as a shell line: a `cd` prefix for its working
    /// directory, `KEY="value"` environment overrides, then the command.
    pub fn build_command_string(&self, cmd: &CommandConfig) -> (r: String)
        ensures
            r@ == spec_build_command(*cmd),
    {
        let chars = self.build_command_chars(cmd);
        chars_to_string(&chars)
    }

    /// What one `${name}` reference stands for, `spec_var_value` exactly.
    fn var_value(&self, name: &Vec<char>, binary_path: &str) -> (r: Vec<char>)
        ensures
            r@ == spec_var_value(self.cfg().scripts@, binary_path@, name@),
    {
        if str_eq_chars("athira", name) {
            return str_chars(binary_path);
        }
        if name.len() >= 8 {
            let pre = subvec(name, 0, 8);
            if str_eq_chars("scripts.", &pre) {
                proof {
                    assert(name@.take(8) =~= name@.subrange(0, 8));
                }
                let mut out = str_chars(binary_path);
                push_str(&mut out, " scripts run ");
                let mut tail = subvec(name, 8, name.len());
                out.append(&mut tail);
                proof {
                    assert(name@.skip(8) =~= name@.subrange(8, name@.len() as int));
                }
                return out;
            }
        }
        match self.script_for(name) {
            Option::Some(_) => {
                let mut out = str_chars(binary_path);
                push_str(&mut out, " scripts run ");
                let mut tail = subvec(name, 0, name.len());
                out.append(&mut tail);
                proof {
                    assert(name@.subrange(0, name@.len() as int) =~= name@);
                }
                return out;
            },
            Option::None => {},
        }
        let parts = split_dots(name);
        proof {
            assert(views_of(parts@).len() == parts@.len());
        }
        if parts.len() == 2 {
            proof {
                assert(views_of(parts@)[0] == parts@[0]@);
                assert(views_of(parts@)[1] == parts@[1]@);
            }
            match self.script_for(&parts[0]) {
                Option::Some(sc) => {
                    match parse_index(&parts[1]) {
                        Option::Some(v) => {
                            if 1 <= v && v <= sc.commands.len() {
                                return self.build_command_chars(&sc.commands[v - 1]);
                            }
                        },
                        Option::None => {},
                    }
                },
                Option::None => {},
            }
        } else if parts.len() == 3 {
            proof {
                assert(views_of(parts@)[0] == parts@[0]@);
                assert(views_of(parts@)[1] == parts@[1]@);
                assert(views_of(parts@)[2] == parts@[2]@);
            }
            if str_eq_chars("scripts", &parts[0]) {
                match self.script_for(&parts[1]) {
                    Option::Some(sc) => {
                        match parse_index(&parts[2]) {
                            Option::Some(v) => {
                                if 1 <= v && v <= sc.commands.len() {
                                    let mut out = str_chars(binary_path);
                                    push_str(&mut out, " scripts run ");
                                    let mut tail = subvec(&parts[1], 0, parts[1].len());
                                    out.append(&mut tail);
                                    proof {
                                        assert(parts@[1]@.subrange(0, parts@[1]@.len() as int)
                                            =~= parts@[1]@);
                                    }
                                    return out;
                                }
                            },
                            Option::None => {},
                        }
                    },
                    Option::None => {},
                }
            }
        }
        let mut out: Vec<char> = Vec::new();
        push_str(&mut out, "${");
        let mut mid = subvec(name, 0, name.len());
        out.append(&mut mid);
        push_str(&mut out, "}");
        proof {
            assert(name@.subrange(0, name@.len() as int) =~= name@);
        }
        out
    }

    /// `input` with every `${name}` reference substituted, scanning left to
    /// right, `spec_subst` exactly.
    fn subst_chars(&self, input: &Vec<char>, binary_path: &str) -> (r: Vec<char>)
        ensures
            r@ == spec_subst(input@, self.cfg().scripts@, binary_path@),
    {
        let n = input.len();
        let mut out: Vec<char> = Vec::new();
        let mut i: usize = 0;
        proof {
            assert(input@.skip(0) =~= input@);
        }
        while i < n
            invariant
                i <= n,
                n == input@.len(),
                spec_subst(input@, self.cfg().scripts@, binary_path@) == out@ + spec_subst(
                    input@.skip(i as int),
                    self.cfg().scripts@,
                    binary_path@,
                ),
            decreases n - i,
        {
            let ghost rem = input@.skip(i as int);
            if input[i] == '$' && i + 1 < n && input[i + 1] == '{' {
                proof {
                    assert(rem[0] == input@[i as int]);
                    assert(rem[1] == input@[i + 1]);
                }
                let mut j: usize = i + 2;
                while j < n && input[j] != '}'
                    invariant
                        i + 2 <= j <= n,
                        n == input@.len(),
                        forall|t: int| i + 2 <= t < j ==> #[trigger] input@[t] != '}',
                    decreases n - j,
                {
                    j = j + 1;
                }
                proof {
                    assert(rem.skip(2) =~= input@.skip(i + 2));
                    assert(forall|t: int|
                        0 <= t < j - i - 2 ==> #[trigger] input@.skip(i + 2)[t] == input@[i + 2
                            + t]);
                    lemma_take_while_at(input@.skip(i + 2), not_rbrace_pred(), j - i - 2);
                }
                if j > i + 2 && j < n {
                    let name = subvec(input, i + 2, j);
                    let mut rep = self.var_value(&name, binary_path);
                    proof {
                        assert(rem.subrange(2, 2 + (j - i - 2)) =~= input@.subrange(
                            i + 2,
                            j as int,
                        ));
                        assert(rem.skip(3 + (j - i - 2)) =~= input@.skip(j + 1));
                    }
                    out.append(&mut rep);
                    i = j + 1;
                } else {
                    proof {
                        assert(rem.drop_first() =~= input@.skip(i + 1));
                    }
                    let c = input[i];
                    out.push(c);
                    i = i + 1;
                }
            } else {
                proof {
                    assert(rem[0] == input@[i as int]);
                    if rem.len() >= 2 {
                        assert(rem[1] == input@[i + 1]);
                    }
                    assert(rem.drop_first() =~= input@.skip(i + 1));
                    if rem.len() == 1 {
                        assert(spec_subst(rem, self.cfg().scripts@, binary_path@) =~= rem);
                        assert(rem =~= seq![rem[0]]);
                        assert(rem.drop_first() =~= Seq::<char>::empty());
                    }
                }
                let c = input[i];
                out.push(c);
                i = i + 1;
            }
        }
        proof {
            assert(input@.skip(n as int) =~= Seq::<char>::empty());
        }
        out
    }

    /// `input` with every `${name}` reference substituted against this
    /// configuration's scripts, the tool's binary path standing in for
    /// `${athira}`.
    pub fn substitute_variables(&self, input: &str, binary_path: &str) -> (r: String)
        ensures
            r@ == spec_subst(input@, self.cfg().scripts@, binary_path@),
    {
        let chars = str_chars(input);
        let rep = self.subst_chars(&chars, binary_path);
        chars_to_string(&rep)
    }

    /// The hook script installed for one hook's command list,
    /// `spec_script_text` exactly: a shebang, then per hook either a direct
    /// commit-message validation call or the substituted command line, each
    /// followed by an exit-on-failure guard.
    pub fn generate_hook_script(&self, hooks: &Vec<Hook>, binary_path: &str) -> (r: String)
        ensures
            r@ == spec_script_text(self.cfg().scripts@, binary_path@, hooks@),
    {
        let mut out: Vec<char> = Vec::new();
        push_str(&mut out, "#!/bin/sh\n\n");
        let n = hooks.len();
        let mut i: usize = 0;
        proof {
            assert(spec_script_text(self.cfg().scripts@, binary_path@, hooks@.take(0)) =~= out@);
        }
        while i < n
            invariant
                i <= n,
                n == hooks@.len(),
                out@ == spec_script_text(self.cfg().scripts@, binary_path@, hooks@.take(i as int)),
            decreases n - i,
        {
            let cmd_chars = str_chars(hooks[i].command.as_str());
            let cmd = self.subst_chars(&cmd_chars, binary_path);
            let special = contains_sub_exec(&cmd, "thira") && crate::text::contains_str(
                &hooks[i].args,
                "commit",
            );
            if special {
                push_str(&mut out, binary_path);
                push_str(&mut out, " commit validate \"$1\"\n");
                push_str(&mut out, "if [ $? -ne 0 ]; then\n  exit 1\nfi\n\n");
            } else {
                let mut body = cmd;
                let m = hooks[i].args.len();
                let mut a: usize = 0;
                proof {
                    assert(spec_args_part(
                        hooks@[i as int].args@.take(0),
                        self.cfg().scripts@,
                        binary_path@,
                    ) =~= Seq::<char>::empty());
                }
                while a < m
                    invariant
                        a <= m,
                        i < n,
                        n == hooks@.len(),
                        m == hooks@[i as int].args@.len(),
                        body@ == spec_subst(
                            hooks@[i as int].command@,
                            self.cfg().scripts@,
                            binary_path@,
                        ) + spec_args_part(
                            hooks@[i as int].args@.take(a as int),
                            self.cfg().scripts@,
                            binary_path@,
                        ),
                    decreases m - a,
                {
                    push_str(&mut body, " ");
                    let arg_chars = str_chars(hooks[i].args[a].as_str());
                    let mut rep = self.subst_chars(&arg_chars, binary_path);
                    body.append(&mut rep);
                    proof {
                        let ghost hargs = hooks@[i as int].args@;
                        assert(hargs.take(a + 1).drop_last() =~= hargs.take(a as int));
                        assert(hargs.take(a + 1).last() == hargs[a as int]);
                    }
                    a = a + 1;
                }
                proof {
                    assert(hooks@[i as int].args@.take(m as int) =~= hooks@[i as int].args@);
                }
                out.append(&mut body);
                push_str(&mut out, "\n");
                push_str(&mut out, "if [ $? -ne 0 ]; then\n  exit 1\nfi\n\n");
            }
            proof {
                assert(hooks@.take(i + 1).drop_last() =~= hooks@.take(i as int));
                assert(hooks@.take(i + 1).last() == hooks@[i as int]);
            }
            i = i + 1;
        }
        proof {
            assert(hooks@.take(n as int) =~= hooks@);
        }
        chars_to_string(&out)
    }

    /// The installed hook files that the configuration no longer names: the
    /// entries of `existing`, in order, whose name is no configured hook.
    pub fn hooks_to_remove(&self, existing: &Vec<String>) -> (r: Vec<String>)
        ensures
            r@ == spec_stale(existing@, self.cfg().hooks@),
    {
        let n = existing.len();
        let mut out: Vec<String> = Vec::new();
        let mut i: usize = 0;
        proof {
            assert(existing@.skip(0) =~= existing@);
        }
        while i < n
            invariant
                i <= n,
                n == existing@.len(),
                spec_stale(existing@, self.cfg().hooks@) == out@ + spec_stale(
                    existing@.skip(i as int),
                    self.cfg().hooks@,
                ),
            decreases n - i,
        {
            let ghost rem = existing@.skip(i as int);
            proof {
                assert(rem.first() == existing@[i as int]);
                assert(rem.drop_first() =~= existing@.skip(i + 1));
            }
            if !self.has_hook_named(&existing[i]) {
                out.push(existing[i].clone());
            }
            i = i + 1;
        }
        proof {
            assert(existing@.skip(n as int).len() == 0);
            assert(spec_stale(existing@.skip(n as int), self.cfg().hooks@) =~= Seq::<
                String,
            >::empty());
        }
        out
    }

    /// Whether some configured hook is named `name`.
    fn has_hook_named(&self, name: &String) -> (r: bool)
        ensures
            r == has_hook(self.cfg().hooks@, name@),
    {
        let n = self.config.hooks.len();
        let mut i: usize = 0;
        while i < n
            invariant
                i <= n,
                n == self.config.hooks@.len(),
                forall|j: int| 0 <= j < i ==> self.config.hooks@[j].0@ != name@,
            decreases n - i,
        {
            if str_eq(self.config.hooks[i].0.as_str(), name.as_str()) {
                proof {
                    assert((#[trigger] self.cfg().hooks@[i as int]).0@ == name@);
                }
                return true;
            }
            i = i + 1;
        }
        false
    }

    /// Adds one hook command under `name`: appended to the hook's existing
    /// commands, or opening a new entry at the end of the list. Only names
    /// git recognizes are accepted; writing the configuration out is the
    /// caller's business.
    pub fn add_hook(&mut self, name: String, command: String, args: Vec<String>) -> (r: Result<
        (),
        HookError,
    >)
        ensures
            r is Ok <==> is_valid_hook_name(name@),
            r matches Err(e) ==> (e matches HookError::InvalidHook(m) && m@ == name@
                && final(self).cfg() == old(self).cfg() && final(self).repo() == old(self).repo()),
            r is Ok ==> final(self).cfg().scripts == old(self).cfg().scripts && final(self).cfg().options == old(self).cfg().options && final(self).cfg().lint == old(self).cfg().lint && final(self).repo() == old(self).repo(),
            r is Ok && has_hook(old(self).cfg().hooks@, name@) ==> exists|k: int|
                {
                    &&& 0 <= k < old(self).cfg().hooks@.len()
                    &&& (#[trigger] old(self).cfg().hooks@[k]).0@ == name@
                    &&& forall|j: int| 0 <= j < k ==> old(self).cfg().hooks@[j].0@ != name@
                    &&& final(self).cfg().hooks@.len() == old(self).cfg().hooks@.len()
                    &&& forall|j: int|
                        0 <= j < old(self).cfg().hooks@.len() && j != k ==> final(self).cfg().hooks@[j] == old(self).cfg().hooks@[j]
                    &&& final(self).cfg().hooks@[k].0 == old(self).cfg().hooks@[k].0
                    &&& final(self).cfg().hooks@[k].1@ == old(self).cfg().hooks@[k].1@.push(
                        (Hook { command: command, args: args, working_dir: Option::None }),
                    )
                },
            r is Ok && !has_hook(old(self).cfg().hooks@, name@) ==> {
                &&& final(self).cfg().hooks@.len() == old(self).cfg().hooks@.len() + 1
                &&& final(self).cfg().hooks@.drop_last() == old(self).cfg().hooks@
                &&& final(self).cfg().hooks@.last().0 == name
                &&& final(self).cfg().hooks@.last().1@ == seq![
                    (Hook { command: command, args: args, working_dir: Option::None }),
                ]
            },
    {
        match self.repo.validate_hook_name(name.as_str()) {
            Err(e) => {
                return Err(e);
            },
            Ok(()) => {},
        }
        let hook = Hook { command, args, working_dir: Option::None };
        let n = self.config.hooks.len();
        let mut i: usize = 0;
        while i < n
            invariant
                i <= n,
                n == self.config.hooks@.len(),
                *self == *old(self),
                is_valid_hook_name(name@),
                hook == (Hook { command: command, args: args, working_dir: Option::None }),
                forall|j: int| 0 <= j < i ==> self.config.hooks@[j].0@ != name@,
            decreases n - i,
        {
            if str_eq(self.config.hooks[i].0.as_str(), name.as_str()) {
                proof {
                    assert((#[trigger] old(self).cfg().hooks@[i as int]).0@ == name@);
                }
                let mut entry = self.config.hooks.remove(i);
                entry.1.push(hook);
                self.config.hooks.insert(i, entry);
                proof {
                    assert(self.config.hooks@ =~= old(self).cfg().hooks@.update(
                        i as int,
                        self.config.hooks@[i as int],
                    ));
                }
                return Ok(());
            }
            i = i + 1;
        }
        self.config.hooks.push((name, vec![hook]));
        proof {
            assert(self.config.hooks@.drop_last() =~= old(self).cfg().hooks@);
        }
        Ok(())
    }

    /// Resets the hooks path to git's own `.git/hooks`, in the configuration
    /// and in the repository handle, guarded against a hooks directory that
    /// is the `.git` directory itself. Unsetting `core.hooksPath`, cleaning
    /// directories and saving the configuration are the caller's business.
    pub fn unset_hooks_path(&mut self) -> (r: Result<(), HookError>)
        ensures
            r is Ok <==> !spec_path_ends_with(old(self).repo().hooks_dir@, ".git"@),
            r matches Err(e) ==> (e matches HookError::ConfigError(m) && m@
                == "Cannot remove .git directory. Use '.git/hooks' for Git hooks."@ && final(self).cfg() == old(self).cfg() && final(self).repo() == old(self).repo()),
            r is Ok ==> {
                &&& final(self).cfg().options.hooks_dir@ == ".git/hooks"@
                &&& final(self).cfg().options.auto_install == old(self).cfg().options.auto_install
                &&& final(self).cfg().hooks == old(self).cfg().hooks
                &&& final(self).cfg().scripts == old(self).cfg().scripts
                &&& final(self).cfg().lint == old(self).cfg().lint
                &&& final(self).repo().hooks_dir@ == ".git/hooks"@
            },
    {
        match self.repo.unset_guard() {
            Err(e) => {
                return Err(e);
            },
            Ok(()) => {},
        }
        self.config.options.hooks_dir = String::from_str(".git/hooks");
        self.repo.hooks_dir = String::from_str(".git/hooks");
        Ok(())
    }
}

} // verus!
