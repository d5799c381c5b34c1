//! The configuration model: hooks, scripts, linter limits and options, with
//! validation and script insertion/removal. Hook and script collections are
//! association lists in insertion order; insertion replaces an existing entry
//! of the same name. Reading and writing the configuration file is the
//! caller's business; this module owns the rules.

use vstd::prelude::*;

use crate::error::HookError;
use crate::text::{chars_to_string, push_decimal, push_str, push_string, spec_decimal, str_eq};

verus! {

/// One named script: its commands in order, and whether (and how widely) they
/// may run in parallel.
#[derive(Debug, Clone)]
pub struct ScriptConfig {
    /// Run the commands concurrently instead of one after another.
    pub parallel: bool,
    /// Admission cap for parallel runs.
    pub max_threads: usize,
    /// The commands, in script order.
    pub commands: Vec<CommandConfig>,
}

/// One command of a script.
#[derive(Debug, Clone)]
pub struct CommandConfig {
    /// The command line, passed verbatim to the shell.
    pub command: String,
    /// A human-readable description.
    pub description: Option<String>,
    /// Where to run; the current directory when absent.
    pub working_dir: Option<String>,
    /// Environment overrides; an override wins over the inherited value.
    pub env: Vec<(String, String)>,
}

/// Limits and vocabularies for commit-message linting.
#[derive(Debug, Clone)]
pub struct LinterConfig {
    /// The accepted commit types.
    pub types: Vec<String>,
    /// The accepted commit scopes; empty accepts any scope.
    pub scopes: Vec<String>,
    /// Least accepted subject length.
    pub min_subject_length: usize,
    /// Greatest accepted subject length.
    pub max_subject_length: usize,
    /// Greatest accepted body line length.
    pub max_body_line_length: usize,
}

/// One hook command.
#[derive(Debug)]
pub struct Hook {
    /// The program to run.
    pub command: String,
    /// Its arguments.
    pub args: Vec<String>,
    /// Where to run; the current directory when absent.
    pub working_dir: Option<String>,
}

/// Global options.
#[derive(Debug)]
pub struct Options {
    /// Install hooks automatically after every configuration save.
    pub auto_install: bool,
    /// The directory the hook scripts live in.
    pub hooks_dir: String,
}

/// The whole configuration: hooks and scripts by name (in insertion order),
/// options, and the linter setup.
#[derive(Debug)]
pub struct Config {
    /// Hook scripts by hook name.
    pub hooks: Vec<(String, Vec<Hook>)>,
    /// Scripts by script name.
    pub scripts: Vec<(String, ScriptConfig)>,
    /// Global options.
    pub options: Options,
    /// Linter limits.
    pub lint: LinterConfig,
}

/// Default least subject length.
pub fn default_min_subject_length() -> (n: usize)
    ensures
        n == 3,
{
    3
}

/// Default greatest subject length.
pub fn default_max_subject_length() -> (n: usize)
    ensures
        n == 72,
{
    72
}

/// Default greatest body line length.
pub fn default_max_body_line_length() -> (n: usize)
    ensures
        n == 100,
{
    100
}

/// Default hooks directory.
pub fn default_hooks_dir() -> (s: String)
    ensures
        s@ == ".thira"@,
{
    String::from_str(".thira")
}

/// Default admission cap for parallel scripts.
pub fn default_max_threads() -> (n: usize)
    ensures
        n == 4,
{
    4
}

/// The default linter setup: the conventional-commit types and scopes, and
/// the default length limits.
pub open spec fn is_default_lint(l: LinterConfig) -> bool {
    &&& l.types@.len() == 11
    &&& l.types@[0]@ == "feat"@
    &&& l.types@[1]@ == "fix"@
    &&& l.types@[2]@ == "docs"@
    &&& l.types@[3]@ == "style"@
    &&& l.types@[4]@ == "refactor"@
    &&& l.types@[5]@ == "perf"@
    &&& l.types@[6]@ == "test"@
    &&& l.types@[7]@ == "build"@
    &&& l.types@[8]@ == "ci"@
    &&& l.types@[9]@ == "chore"@
    &&& l.types@[10]@ == "revert"@
    &&& l.scopes@.len() == 8
    &&& l.scopes@[0]@ == "api"@
    &&& l.scopes@[1]@ == "ui"@
    &&& l.scopes@[2]@ == "db"@
    &&& l.scopes@[3]@ == "core"@
    &&& l.scopes@[4]@ == "cli"@
    &&& l.scopes@[5]@ == "config"@
    &&& l.scopes@[6]@ == "deps"@
    &&& l.scopes@[7]@ == "tests"@
    &&& l.min_subject_length == 3
    &&& l.max_subject_length == 72
    &&& l.max_body_line_length == 100
}

impl Default for LinterConfig {
    /// The linter setup a fresh configuration gets.
    fn default() -> (l: LinterConfig)
        ensures
            is_default_lint(l),
    {
        let mut types: Vec<String> = Vec::new();
        types.push(String::from_str("feat"));
        types.push(String::from_str("fix"));
        types.push(String::from_str("docs"));
        types.push(String::from_str("style"));
        types.push(String::from_str("refactor"));
        types.push(String::from_str("perf"));
        types.push(String::from_str("test"));
        types.push(String::from_str("build"));
        types.push(String::from_str("ci"));
        types.push(String::from_str("chore"));
        types.push(String::from_str("revert"));
        let mut scopes: Vec<String> = Vec::new();
        scopes.push(String::from_str("api"));
        scopes.push(String::from_str("ui"));
        scopes.push(String::from_str("db"));
        scopes.push(String::from_str("core"));
        scopes.push(String::from_str("cli"));
        scopes.push(String::from_str("config"));
        scopes.push(String::from_str("deps"));
        scopes.push(String::from_str("tests"));
        LinterConfig {
            types,
            scopes,
            min_subject_length: default_min_subject_length(),
            max_subject_length: default_max_subject_length(),
            max_body_line_length: default_max_body_line_length(),
        }
    }
}

/// Every hook entry names at least one command, and no command is empty.
pub open spec fn hook_entry_ok(e: (String, Vec<Hook>)) -> bool {
    &&& e.1@.len() > 0
    &&& forall|j: int| 0 <= j < e.1@.len() ==> (#[trigger] e.1@[j]).command@.len() > 0
}

/// All hook entries are well formed.
pub open spec fn hooks_ok(hs: Seq<(String, Vec<Hook>)>) -> bool {
    forall|i: int| 0 <= i < hs.len() ==> hook_entry_ok(#[trigger] hs[i])
}

/// The linter limits are consistent: positive minimum, maximum at least the
/// minimum, positive body line limit.
pub open spec fn lint_ok(l: LinterConfig) -> bool {
    &&& l.min_subject_length > 0
    &&& l.max_subject_length >= l.min_subject_length
    &&& l.max_body_line_length > 0
}

/// The hooks directory is not the bare `.git` directory.
pub open spec fn hooks_dir_ok(o: Options) -> bool {
    o.hooks_dir@ != ".git"@
}

/// The configuration error reported for a bad hook entry.
pub open spec fn spec_hook_error_msg(e: (String, Vec<Hook>)) -> Seq<char> {
    if e.1@.len() == 0 {
        "Hook '"@ + e.0@ + "' has no commands"@
    } else {
        "Empty command in hook '"@ + e.0@ + "'"@
    }
}

/// The script list with its first entry named `name` removed, if any.
pub open spec fn spec_remove_script(
    ss: Seq<(String, ScriptConfig)>,
    name: Seq<char>,
) -> Seq<(String, ScriptConfig)>
    decreases ss.len(),
{
    if ss.len() == 0 {
        ss
    } else if ss.first().0@ == name {
        ss.drop_first()
    } else {
        seq![ss.first()] + spec_remove_script(ss.drop_first(), name)
    }
}

/// A script of one command with no extras, as `add_script` records it.
pub open spec fn is_simple_script(sc: ScriptConfig, command: Seq<char>) -> bool {
    &&& !sc.parallel
    &&& sc.max_threads == 4
    &&& sc.commands@.len() == 1
    &&& sc.commands@[0].command@ == command
    &&& sc.commands@[0].description is None
    &&& sc.commands@[0].working_dir is None
    &&& sc.commands@[0].env@.len() == 0
}

proof fn lemma_remove_script_at(ss: Seq<(String, ScriptConfig)>, name: Seq<char>, k: int)
    requires
        0 <= k < ss.len(),
        ss[k].0@ == name,
        forall|j: int| 0 <= j < k ==> ss[j].0@ != name,
    ensures
        spec_remove_script(ss, name) == ss.remove(k),
    decreases k,
{
    if k == 0 {
        assert(ss.remove(0) =~= ss.drop_first());
    } else {
        assert(forall|j: int| 0 <= j < k - 1 ==> ss.drop_first()[j].0@ != name);
        lemma_remove_script_at(ss.drop_first(), name, k - 1);
        assert(seq![ss.first()] + ss.drop_first().remove(k - 1) =~= ss.remove(k));
    }
}

proof fn lemma_remove_script_absent(ss: Seq<(String, ScriptConfig)>, name: Seq<char>)
    requires
        forall|j: int| 0 <= j < ss.len() ==> ss[j].0@ != name,
    ensures
        spec_remove_script(ss, name) == ss,
    decreases ss.len(),
{
    if ss.len() > 0 {
        assert(forall|j: int| 0 <= j < ss.len() - 1 ==> ss.drop_first()[j].0@ != name);
        lemma_remove_script_absent(ss.drop_first(), name);
        assert(seq![ss.first()] + ss.drop_first() =~= ss);
    }
}

/// The first script entry named `name`, if any: its index, with nothing named
/// `name` before it.
fn script_index(ss: &Vec<(String, ScriptConfig)>, name: &str) -> (r: Option<usize>)
    ensures
        match r {
            Some(k) => {
                &&& (k as int) < ss@.len()
                &&& ss@[k as int].0@ == name@
                &&& forall|j: int| 0 <= j < k ==> ss@[j].0@ != name@
            },
            None => forall|j: int| 0 <= j < ss@.len() ==> ss@[j].0@ != name@,
        },
{
    let n = ss.len();
    let mut i: usize = 0;
    while i < n
        invariant
            i <= n,
            n == ss@.len(),
            forall|j: int| 0 <= j < i ==> ss@[j].0@ != name@,
        decreases n - i,
    {
        if str_eq(ss[i].0.as_str(), name) {
            return Some(i);
        }
        i = i + 1;
    }
    None
}

impl Config {
    /// Checks the whole configuration: hooks first, then the linter limits,
    /// then the hooks directory. Succeeds exactly when all three are well
    /// formed; the error reported is the first failure's.
    pub fn validate(&self) -> (r: Result<(), HookError>)
        ensures
            r is Ok <==> (hooks_ok(self.hooks@) && lint_ok(self.lint) && hooks_dir_ok(
                self.options,
            )),
            r matches Err(e) ==> e is ConfigError,
    {
        match self.validate_hooks() {
            Err(e) => {
                return Err(e);
            },
            Ok(()) => {},
        }
        match self.validate_lint_config() {
            Err(e) => {
                return Err(e);
            },
            Ok(()) => {},
        }
        match self.validate_hooks_dir() {
            Err(e) => {
                return Err(e);
            },
            Ok(()) => {},
        }
        Ok(())
    }

    /// Refuses `.git` as the hooks directory.
    fn validate_hooks_dir(&self) -> (r: Result<(), HookError>)
        ensures
            r is Ok <==> hooks_dir_ok(self.options),
            r matches Err(e) ==> (e matches HookError::ConfigError(m) && m@
                == "Invalid hooks directory: Cannot use '.git' directly. Use '.git/hooks' instead."@),
    {
        if str_eq(self.options.hooks_dir.as_str(), ".git") {
            return Err(
                HookError::ConfigError(
                    String::from_str(
                        "Invalid hooks directory: Cannot use '.git' directly. Use '.git/hooks' instead.",
                    ),
                ),
            );
        }
        Ok(())
    }

    /// Refuses hook entries without commands and empty hook commands; the
    /// error names the first offending hook.
    fn validate_hooks(&self) -> (r: Result<(), HookError>)
        ensures
            r is Ok <==> hooks_ok(self.hooks@),
            r is Err ==> exists|k: int|
                {
                    &&& 0 <= k < self.hooks@.len()
                    &&& !hook_entry_ok(#[trigger] self.hooks@[k])
                    &&& forall|j: int| 0 <= j < k ==> hook_entry_ok(#[trigger] self.hooks@[j])
                    &&& r matches Err(HookError::ConfigError(m)) && m@ == spec_hook_error_msg(
                        self.hooks@[k],
                    )
                },
    {
        let n = self.hooks.len();
        let mut i: usize = 0;
        while i < n
            invariant
                i <= n,
                n == self.hooks@.len(),
                forall|j: int| 0 <= j < i ==> hook_entry_ok(#[trigger] self.hooks@[j]),
            decreases n - i,
        {
            if self.hooks[i].1.len() == 0 {
                let mut msg: Vec<char> = Vec::new();
                push_str(&mut msg, "Hook '");
                push_string(&mut msg, &self.hooks[i].0);
                push_str(&mut msg, "' has no commands");
                return Err(HookError::ConfigError(chars_to_string(&msg)));
            }
            let m = self.hooks[i].1.len();
            let mut j: usize = 0;
            while j < m
                invariant
                    j <= m,
                    i < n,
                    n == self.hooks@.len(),
                    m == self.hooks@[i as int].1@.len(),
                    0 < m,
                    forall|t: int| 0 <= t < i ==> hook_entry_ok(#[trigger] self.hooks@[t]),
                    forall|t: int|
                        0 <= t < j ==> (#[trigger] self.hooks@[i as int].1@[t]).command@.len() > 0,
                decreases m - j,
            {
                if self.hooks[i].1[j].command.as_str().is_empty() {
                    proof {
                        assert(self.hooks@[i as int].1@[j as int].command@.len() == 0);
                        assert(!hook_entry_ok(self.hooks@[i as int]));
                    }
                    let mut msg: Vec<char> = Vec::new();
                    push_str(&mut msg, "Empty command in hook '");
                    push_string(&mut msg, &self.hooks[i].0);
                    push_str(&mut msg, "'");
                    return Err(HookError::ConfigError(chars_to_string(&msg)));
                }
                j = j + 1;
            }
            i = i + 1;
        }
        Ok(())
    }

    /// Refuses inconsistent linter limits: the minimum subject length must be
    /// positive, the maximum no smaller, and the body line limit positive.
    fn validate_lint_config(&self) -> (r: Result<(), HookError>)
        ensures
            r is Ok <==> lint_ok(self.lint),
            self.lint.min_subject_length == 0 ==> (r matches Err(HookError::ConfigError(m))
                && m@ == "min_subject_length must be greater than 0"@),
            self.lint.min_subject_length > 0 && self.lint.max_subject_length
                < self.lint.min_subject_length ==> (r matches Err(HookError::ConfigError(m))
                && m@ == "max_subject_length must be greater than min_subject_length"@),
            self.lint.min_subject_length > 0 && self.lint.max_subject_length
                >= self.lint.min_subject_length && self.lint.max_body_line_length == 0
                ==> (r matches Err(HookError::ConfigError(m))
                && m@ == "max_body_line_length must be greater than 0"@),
    {
        if self.lint.min_subject_length == 0 {
            return Err(
                HookError::ConfigError(String::from_str("min_subject_length must be greater than 0")),
            );
        }
        if self.lint.max_subject_length < self.lint.min_subject_length {
            return Err(
                HookError::ConfigError(
                    String::from_str("max_subject_length must be greater than min_subject_length"),
                ),
            );
        }
        if self.lint.max_body_line_length == 0 {
            return Err(
                HookError::ConfigError(
                    String::from_str("max_body_line_length must be greater than 0"),
                ),
            );
        }
        Ok(())
    }

    /// Records `name` as a one-command sequential script: any earlier script
    /// of that name is dropped and the new entry goes to the end. Writing the
    /// configuration out is the caller's business.
    pub fn add_script(&mut self, name: String, command: String) -> (r: Result<(), HookError>)
        ensures
            r is Ok,
            final(self).scripts@.len() == spec_remove_script(old(self).scripts@, name@).len() + 1,
            final(self).scripts@.drop_last() == spec_remove_script(old(self).scripts@, name@),
            final(self).scripts@.last().0@ == name@,
            is_simple_script(final(self).scripts@.last().1, command@),
            final(self).hooks == old(self).hooks,
            final(self).options == old(self).options,
            final(self).lint == old(self).lint,
    {
        match script_index(&self.scripts, name.as_str()) {
            Some(k) => {
                self.scripts.remove(k);
                proof {
                    lemma_remove_script_at(old(self).scripts@, name@, k as int);
                }
            },
            None => {
                proof {
                    lemma_remove_script_absent(old(self).scripts@, name@);
                }
            },
        }
        let entry = ScriptConfig {
            parallel: false,
            max_threads: default_max_threads(),
            commands: vec![
                CommandConfig {
                    command,
                    description: None,
                    working_dir: None,
                    env: Vec::new(),
                },
            ],
        };
        self.scripts.push((name, entry));
        proof {
            assert(final(self).scripts@.drop_last() =~= spec_remove_script(
                old(self).scripts@,
                name@,
            ));
        }
        Ok(())
    }

    /// Drops the script named `name`, if any. Writing the configuration out
    /// is the caller's business.
    pub fn remove_script(&mut self, name: &str) -> (r: Result<(), HookError>)
        ensures
            r is Ok,
            final(self).scripts@ == spec_remove_script(old(self).scripts@, name@),
            final(self).hooks == old(self).hooks,
            final(self).options == old(self).options,
            final(self).lint == old(self).lint,
    {
        match script_index(&self.scripts, name) {
            Some(k) => {
                self.scripts.remove(k);
                proof {
                    lemma_remove_script_at(old(self).scripts@, name@, k as int);
                }
            },
            None => {
                proof {
                    lemma_remove_script_absent(old(self).scripts@, name@);
                }
            },
        }
        Ok(())
    }
}

/// The hooks a fresh configuration gets: `cargo test` and `cargo clippy`
/// before each commit, and commit-message validation through this tool.
pub open spec fn is_default_hooks(hs: Seq<(String, Vec<Hook>)>) -> bool {
    &&& hs.len() == 2
    &&& hs[0].0@ == "pre-commit"@
    &&& hs[0].1@.len() == 2
    &&& hs[0].1@[0].command@ == "cargo"@
    &&& hs[0].1@[0].args@.len() == 1
    &&& hs[0].1@[0].args@[0]@ == "test"@
    &&& hs[0].1@[0].working_dir is None
    &&& hs[0].1@[1].command@ == "cargo"@
    &&& hs[0].1@[1].args@.len() == 1
    &&& hs[0].1@[1].args@[0]@ == "clippy"@
    &&& hs[0].1@[1].working_dir is None
    &&& hs[1].0@ == "commit-msg"@
    &&& hs[1].1@.len() == 1
    &&& hs[1].1@[0].command@ == "${athira}"@
    &&& hs[1].1@[0].args@.len() == 3
    &&& hs[1].1@[0].args@[0]@ == "commit"@
    &&& hs[1].1@[0].args@[1]@ == "validate"@
    &&& hs[1].1@[0].args@[2]@ == "$1"@
    &&& hs[1].1@[0].working_dir is None
}

/// The scripts a fresh configuration gets: one parallel `test-all` script of
/// two test commands with their own environments.
pub open spec fn is_default_scripts(ss: Seq<(String, ScriptConfig)>) -> bool {
    &&& ss.len() == 1
    &&& ss[0].0@ == "test-all"@
    &&& ss[0].1.parallel == true
    &&& ss[0].1.max_threads == 4
    &&& ss[0].1.commands@.len() == 2
    &&& ss[0].1.commands@[0].command@ == "sh test1.sh"@
    &&& ss[0].1.commands@[0].description matches Some(d) && d@ == "Run test script 1"@
    &&& ss[0].1.commands@[0].working_dir matches Some(w) && w@ == "."@
    &&& ss[0].1.commands@[0].env@.len() == 2
    &&& ss[0].1.commands@[0].env@[0].0@ == "TEST_MODE"@
    &&& ss[0].1.commands@[0].env@[0].1@ == "parallel-1"@
    &&& ss[0].1.commands@[0].env@[1].0@ == "TEST_VALUE"@
    &&& ss[0].1.commands@[0].env@[1].1@ == "123"@
    &&& ss[0].1.commands@[1].command@ == "sh test2.sh"@
    &&& ss[0].1.commands@[1].description matches Some(d) && d@ == "Run test script 2"@
    &&& ss[0].1.commands@[1].working_dir matches Some(w) && w@ == "."@
    &&& ss[0].1.commands@[1].env@.len() == 2
    &&& ss[0].1.commands@[1].env@[0].0@ == "TEST_MODE"@
    &&& ss[0].1.commands@[1].env@[0].1@ == "parallel-2"@
    &&& ss[0].1.commands@[1].env@[1].0@ == "TEST_VALUE"@
    &&& ss[0].1.commands@[1].env@[1].1@ == "456"@
}

/// The options a fresh configuration gets.
pub open spec fn is_default_options(o: Options) -> bool {
    &&& o.auto_install == true
    &&& o.hooks_dir@ == ".thira"@
}

impl Default for Config {
    /// The configuration written by initialization: the default hooks,
    /// the `test-all` script, auto-install on with the default hooks
    /// directory, and the default linter setup.
    fn default() -> (c: Config)
        ensures
            is_default_hooks(c.hooks@),
            is_default_scripts(c.scripts@),
            is_default_options(c.options),
            is_default_lint(c.lint),
    {
        let mut hooks: Vec<(String, Vec<Hook>)> = Vec::new();
        let pre_commit: Vec<Hook> = vec![
            Hook {
                command: String::from_str("cargo"),
                args: vec![String::from_str("test")],
                working_dir: None,
            },
            Hook {
                command: String::from_str("cargo"),
                args: vec![String::from_str("clippy")],
                working_dir: None,
            },
        ];
        hooks.push((String::from_str("pre-commit"), pre_commit));
        let commit_msg: Vec<Hook> = vec![
            Hook {
                command: String::from_str("${athira}"),
                args: vec![
                    String::from_str("commit"),
                    String::from_str("validate"),
                    String::from_str("$1"),
                ],
                working_dir: None,
            },
        ];
        hooks.push((String::from_str("commit-msg"), commit_msg));

        let mut scripts: Vec<(String, ScriptConfig)> = Vec::new();
        let test_all = ScriptConfig {
            parallel: true,
            max_threads: 4,
            commands: vec![
                CommandConfig {
                    command: String::from_str("sh test1.sh"),
                    description: Some(String::from_str("Run test script 1")),
                    working_dir: Some(String::from_str(".")),
                    env: vec![
                        (String::from_str("TEST_MODE"), String::from_str("parallel-1")),
                        (String::from_str("TEST_VALUE"), String::from_str("123")),
                    ],
                },
                CommandConfig {
                    command: String::from_str("sh test2.sh"),
                    description: Some(String::from_str("Run test script 2")),
                    working_dir: Some(String::from_str(".")),
                    env: vec![
                        (String::from_str("TEST_MODE"), String::from_str("parallel-2")),
                        (String::from_str("TEST_VALUE"), String::from_str("456")),
                    ],
                },
            ],
        };
        scripts.push((String::from_str("test-all"), test_all));

        Config {
            hooks,
            scripts,
            options: Options { auto_install: true, hooks_dir: String::from_str(".thira") },
            lint: LinterConfig::default(),
        }
    }
}

/// `true` or `false`, as written to the configuration file.
pub open spec fn spec_bool(b: bool) -> Seq<char> {
    if b {
        "true"@
    } else {
        "false"@
    }
}

/// The `        - arg` lines of one hook's argument list.
pub open spec fn spec_yaml_hook_args(args: Seq<String>) -> Seq<char>
    decreases args.len(),
{
    if args.len() == 0 {
        Seq::empty()
    } else {
        spec_yaml_hook_args(args.drop_last()) + "        - "@ + args.last()@ + "\n"@
    }
}

/// One hook command's lines in the configuration file.
pub open spec fn spec_yaml_hook(h: Hook) -> Seq<char> {
    "    - command: "@ + h.command@ + "\n"@ + (if h.args@.len() > 0 {
        "      args:\n"@ + spec_yaml_hook_args(h.args@)
    } else {
        Seq::empty()
    }) + (match h.working_dir {
        Some(d) => "      working_dir: "@ + d@ + "\n"@,
        None => Seq::empty(),
    })
}

/// The lines of one hook entry's command list.
pub open spec fn spec_yaml_hook_list(hs: Seq<Hook>) -> Seq<char>
    decreases hs.len(),
{
    if hs.len() == 0 {
        Seq::empty()
    } else {
        spec_yaml_hook_list(hs.drop_last()) + spec_yaml_hook(hs.last())
    }
}

/// The lines of the whole `hooks:` section body.
pub open spec fn spec_yaml_hook_entries(es: Seq<(String, Vec<Hook>)>) -> Seq<char>
    decreases es.len(),
{
    if es.len() == 0 {
        Seq::empty()
    } else {
        spec_yaml_hook_entries(es.drop_last()) + "  "@ + es.last().0@ + ":\n"@
            + spec_yaml_hook_list(es.last().1@)
    }
}

/// The `          KEY: "value"` lines of one command's environment.
pub open spec fn spec_yaml_env(env: Seq<(String, String)>) -> Seq<char>
    decreases env.len(),
{
    if env.len() == 0 {
        Seq::empty()
    } else {
        spec_yaml_env(env.drop_last()) + "          "@ + env.last().0@ + ": \""@ + env.last().1@
            + "\"\n"@
    }
}

/// One script command's lines in the configuration file.
pub open spec fn spec_yaml_cmd(c: CommandConfig) -> Seq<char> {
    "      - command: \""@ + c.command@ + "\"\n"@ + (match c.description {
        Some(d) => "        description: \""@ + d@ + "\"\n"@,
        None => Seq::empty(),
    }) + (match c.working_dir {
        Some(w) => "        working_dir: \""@ + w@ + "\"\n"@,
        None => Seq::empty(),
    }) + (if c.env@.len() > 0 {
        "        env:\n"@ + spec_yaml_env(c.env@)
    } else {
        Seq::empty()
    })
}

/// The lines of one script's command list.
pub open spec fn spec_yaml_cmds(cs: Seq<CommandConfig>) -> Seq<char>
    decreases cs.len(),
{
    if cs.len() == 0 {
        Seq::empty()
    } else {
        spec_yaml_cmds(cs.drop_last()) + spec_yaml_cmd(cs.last())
    }
}

/// One script entry's lines: the mode lines only for parallel or multi-command
/// scripts, then the commands.
pub open spec fn spec_yaml_script(name: Seq<char>, sc: ScriptConfig) -> Seq<char> {
    "  "@ + name + ":\n"@ + (if sc.parallel || sc.commands@.len() > 1 {
        "    parallel: "@ + spec_bool(sc.parallel) + "\n"@ + "    max_threads: "@ + spec_decimal(
            sc.max_threads as nat,
        ) + "\n"@
    } else {
        Seq::empty()
    }) + "    commands:\n"@ + spec_yaml_cmds(sc.commands@)
}

/// The lines of the whole `scripts:` section body.
pub open spec fn spec_yaml_script_entries(es: Seq<(String, ScriptConfig)>) -> Seq<char>
    decreases es.len(),
{
    if es.len() == 0 {
        Seq::empty()
    } else {
        spec_yaml_script_entries(es.drop_last()) + spec_yaml_script(es.last().0@, es.last().1)
    }
}

/// The `    - item` lines of the linter's type and scope lists.
pub open spec fn spec_yaml_items(items: Seq<String>) -> Seq<char>
    decreases items.len(),
{
    if items.len() == 0 {
        Seq::empty()
    } else {
        spec_yaml_items(items.drop_last()) + "    - "@ + items.last()@ + "\n"@
    }
}

/// The whole configuration file: the hooks, the scripts, the options, and
/// the linter setup, in that order.
pub open spec fn spec_yaml_config(c: Config) -> Seq<char> {
    "hooks:\n"@ + spec_yaml_hook_entries(c.hooks@) + "\nscripts:\n"@ + spec_yaml_script_entries(
        c.scripts@,
    ) + "\noptions:\n"@ + "  auto_install: "@ + spec_bool(c.options.auto_install) + "\n"@
        + "  hooks_dir: "@ + c.options.hooks_dir@ + "\n"@ + "\nlint:\n"@ + (if c.lint.types@.len()
        > 0 {
        "  types:\n"@ + spec_yaml_items(c.lint.types@)
    } else {
        Seq::empty()
    }) + (if c.lint.scopes@.len() > 0 {
        "  scopes:\n"@ + spec_yaml_items(c.lint.scopes@)
    } else {
        Seq::empty()
    }) + "  min_subject_length: "@ + spec_decimal(c.lint.min_subject_length as nat) + "\n"@
        + "  max_subject_length: "@ + spec_decimal(c.lint.max_subject_length as nat) + "\n"@
        + "  max_body_line_length: "@ + spec_decimal(c.lint.max_body_line_length as nat) + "\n"@
}

/// Appends `true` or `false`.
fn push_bool(out: &mut Vec<char>, b: bool)
    ensures
        final(out)@ == old(out)@ + spec_bool(b),
{
    if b {
        push_str(out, "true");
    } else {
        push_str(out, "false");
    }
}

/// Appends one script command's lines.
fn push_yaml_cmd(out: &mut Vec<char>, c: &CommandConfig)
    ensures
        final(out)@ == old(out)@ + spec_yaml_cmd(*c),
{
    push_str(out, "      - command: \"");
    push_string(out, &c.command);
    push_str(out, "\"\n");
    match &c.description {
        Some(d) => {
            push_str(out, "        description: \"");
            push_str(out, d.as_str());
            push_str(out, "\"\n");
        },
        None => {},
    }
    match &c.working_dir {
        Some(w) => {
            push_str(out, "        working_dir: \"");
            push_str(out, w.as_str());
            push_str(out, "\"\n");
        },
        None => {},
    }
    if c.env.len() > 0 {
        push_str(out, "        env:\n");
        let em = c.env.len();
        let ghost base_env = out@;
        let mut e: usize = 0;
        proof {
            assert(spec_yaml_env(c.env@.take(0)) =~= Seq::<char>::empty());
        }
        while e < em
            invariant
                e <= em,
                em == c.env@.len(),
                out@ == base_env + spec_yaml_env(c.env@.take(e as int)),
            decreases em - e,
        {
            push_str(out, "          ");
            push_string(out, &c.env[e].0);
            push_str(out, ": \"");
            push_string(out, &c.env[e].1);
            push_str(out, "\"\n");
            proof {
                assert(c.env@.take(e + 1).drop_last() =~= c.env@.take(e as int));
                assert(c.env@.take(e + 1).last() == c.env@[e as int]);
            }
            e = e + 1;
        }
        proof {
            assert(c.env@.take(em as int) =~= c.env@);
        }
    }
}

/// Appends one script entry's lines.
fn push_yaml_script(out: &mut Vec<char>, name: &String, sc: &ScriptConfig)
    ensures
        final(out)@ == old(out)@ + spec_yaml_script(name@, *sc),
{
    push_str(out, "  ");
    push_string(out, name);
    push_str(out, ":\n");
    if sc.parallel || sc.commands.len() > 1 {
        push_str(out, "    parallel: ");
        push_bool(out, sc.parallel);
        push_str(out, "\n");
        push_str(out, "    max_threads: ");
        push_decimal(out, sc.max_threads);
        push_str(out, "\n");
    }
    push_str(out, "    commands:\n");
    let cm = sc.commands.len();
    let ghost base_cmds = out@;
    let mut j: usize = 0;
    proof {
        assert(spec_yaml_cmds(sc.commands@.take(0)) =~= Seq::<char>::empty());
    }
    while j < cm
        invariant
            j <= cm,
            cm == sc.commands@.len(),
            out@ == base_cmds + spec_yaml_cmds(sc.commands@.take(j as int)),
        decreases cm - j,
    {
        push_yaml_cmd(out, &sc.commands[j]);
        proof {
            assert(sc.commands@.take(j + 1).drop_last() =~= sc.commands@.take(j as int));
            assert(sc.commands@.take(j + 1).last() == sc.commands@[j as int]);
        }
        j = j + 1;
    }
    proof {
        assert(sc.commands@.take(cm as int) =~= sc.commands@);
    }
}

/// Appends one hook command's lines.
fn push_yaml_hook(out: &mut Vec<char>, h: &Hook)
    ensures
        final(out)@ == old(out)@ + spec_yaml_hook(*h),
{
    push_str(out, "    - command: ");
    push_string(out, &h.command);
    push_str(out, "\n");
    if h.args.len() > 0 {
        push_str(out, "      args:\n");
        let am = h.args.len();
        let ghost base_args = out@;
        let mut a: usize = 0;
        proof {
            assert(spec_yaml_hook_args(h.args@.take(0)) =~= Seq::<char>::empty());
        }
        while a < am
            invariant
                a <= am,
                am == h.args@.len(),
                out@ == base_args + spec_yaml_hook_args(h.args@.take(a as int)),
            decreases am - a,
        {
            push_str(out, "        - ");
            push_string(out, &h.args[a]);
            push_str(out, "\n");
            proof {
                assert(h.args@.take(a + 1).drop_last() =~= h.args@.take(a as int));
                assert(h.args@.take(a + 1).last() == h.args@[a as int]);
            }
            a = a + 1;
        }
        proof {
            assert(h.args@.take(am as int) =~= h.args@);
        }
    }
    match &h.working_dir {
        Some(d) => {
            push_str(out, "      working_dir: ");
            push_str(out, d.as_str());
            push_str(out, "\n");
        },
        None => {},
    }
}

/// Appends one hook entry's lines.
fn push_yaml_hook_entry(out: &mut Vec<char>, name: &String, hs: &Vec<Hook>)
    ensures
        final(out)@ == old(out)@ + "  "@ + name@ + ":\n"@ + spec_yaml_hook_list(hs@),
{
    push_str(out, "  ");
    push_string(out, name);
    push_str(out, ":\n");
    let hm = hs.len();
    let ghost base_list = out@;
    let mut j: usize = 0;
    proof {
        assert(spec_yaml_hook_list(hs@.take(0)) =~= Seq::<char>::empty());
    }
    while j < hm
        invariant
            j <= hm,
            hm == hs@.len(),
            out@ == base_list + spec_yaml_hook_list(hs@.take(j as int)),
        decreases hm - j,
    {
        push_yaml_hook(out, &hs[j]);
        proof {
            assert(hs@.take(j + 1).drop_last() =~= hs@.take(j as int));
            assert(hs@.take(j + 1).last() == hs@[j as int]);
        }
        j = j + 1;
    }
    proof {
        assert(hs@.take(hm as int) =~= hs@);
    }
}

/// Appends the `    - item` lines of a string list.
fn push_yaml_items(out: &mut Vec<char>, items: &Vec<String>)
    ensures
        final(out)@ == old(out)@ + spec_yaml_items(items@),
{
    let n = items.len();
    let mut i: usize = 0;
    proof {
        assert(spec_yaml_items(items@.take(0)) =~= Seq::<char>::empty());
    }
    while i < n
        invariant
            i <= n,
            n == items@.len(),
            out@ == old(out)@ + spec_yaml_items(items@.take(i as int)),
        decreases n - i,
    {
        push_str(out, "    - ");
        push_string(out, &items[i]);
        push_str(out, "\n");
        proof {
            assert(items@.take(i + 1).drop_last() =~= items@.take(i as int));
            assert(items@.take(i + 1).last() == items@[i as int]);
        }
        i = i + 1;
    }
    proof {
        assert(items@.take(n as int) =~= items@);
    }
}

impl Config {
    /// The configuration rendered as its configuration-file text,
    /// `spec_yaml_config` exactly. Writing it out — and any automatic hook
    /// installation afterwards — is the caller's business.
    pub fn render_yaml(&self) -> (r: String)
        ensures
            r@ == spec_yaml_config(*self),
    {
        let mut out: Vec<char> = Vec::new();
        push_str(&mut out, "hooks:\n");

        let hn = self.hooks.len();
        let ghost base_hooks = out@;
        let mut i: usize = 0;
        proof {
            assert(spec_yaml_hook_entries(self.hooks@.take(0)) =~= Seq::<char>::empty());
        }
        while i < hn
            invariant
                i <= hn,
                hn == self.hooks@.len(),
                out@ == base_hooks + spec_yaml_hook_entries(self.hooks@.take(i as int)),
            decreases hn - i,
        {
            push_yaml_hook_entry(&mut out, &self.hooks[i].0, &self.hooks[i].1);
            proof {
                assert(self.hooks@.take(i + 1).drop_last() =~= self.hooks@.take(i as int));
                assert(self.hooks@.take(i + 1).last() == self.hooks@[i as int]);
            }
            i = i + 1;
        }
        proof {
            assert(self.hooks@.take(hn as int) =~= self.hooks@);
        }

        push_str(&mut out, "\nscripts:\n");
        let sn = self.scripts.len();
        let ghost base_scripts = out@;
        let mut i: usize = 0;
        proof {
            assert(spec_yaml_script_entries(self.scripts@.take(0)) =~= Seq::<char>::empty());
        }
        while i < sn
            invariant
                i <= sn,
                sn == self.scripts@.len(),
                out@ == base_scripts + spec_yaml_script_entries(self.scripts@.take(i as int)),
            decreases sn - i,
        {
            push_yaml_script(&mut out, &self.scripts[i].0, &self.scripts[i].1);
            proof {
                assert(self.scripts@.take(i + 1).drop_last() =~= self.scripts@.take(i as int));
                assert(self.scripts@.take(i + 1).last() == self.scripts@[i as int]);
            }
            i = i + 1;
        }
        proof {
            assert(self.scripts@.take(sn as int) =~= self.scripts@);
        }

        push_str(&mut out, "\noptions:\n");
        push_str(&mut out, "  auto_install: ");
        push_bool(&mut out, self.options.auto_install);
        push_str(&mut out, "\n");
        push_str(&mut out, "  hooks_dir: ");
        push_string(&mut out, &self.options.hooks_dir);
        push_str(&mut out, "\n");

        push_str(&mut out, "\nlint:\n");
        if self.lint.types.len() > 0 {
            push_str(&mut out, "  types:\n");
            push_yaml_items(&mut out, &self.lint.types);
        }
        if self.lint.scopes.len() > 0 {
            push_str(&mut out, "  scopes:\n");
            push_yaml_items(&mut out, &self.lint.scopes);
        }
        push_str(&mut out, "  min_subject_length: ");
        push_decimal(&mut out, self.lint.min_subject_length);
        push_str(&mut out, "\n");
        push_str(&mut out, "  max_subject_length: ");
        push_decimal(&mut out, self.lint.max_subject_length);
        push_str(&mut out, "\n");
        push_str(&mut out, "  max_body_line_length: ");
        push_decimal(&mut out, self.lint.max_body_line_length);
        push_str(&mut out, "\n");

        chars_to_string(&out)
    }
}

impl Default for Options {
    /// Bare options: auto-install off and no hooks directory; configuration
    /// loading fills the directory in.
    fn default() -> (o: Options)
        ensures
            o.auto_install == false,
            o.hooks_dir@ == Seq::<char>::empty(),
    {
        Options { auto_install: false, hooks_dir: String::new() }
    }
}

} // verus!
