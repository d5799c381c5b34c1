use athira::config::{CommandConfig, Config, Hook, LinterConfig, Options};
use athira::error::HookError;
use athira::git::GitRepo;
use athira::hooks::HookManager;

fn manager_with(config: Config) -> HookManager {
    HookManager::new(
        config,
        GitRepo {
            hooks_dir: ".thira".to_string(),
        },
    )
}

fn empty_config() -> Config {
    Config {
        hooks: vec![],
        scripts: vec![],
        options: Options {
            auto_install: false,
            hooks_dir: ".thira".to_string(),
        },
        lint: LinterConfig::default(),
    }
}

#[test]
fn test_add_hook() {
    let mut manager = manager_with(Config::default());

    // Add a new hook
    assert!(manager
        .add_hook(
            "pre-push".to_string(),
            "cargo".to_string(),
            vec!["build".to_string()]
        )
        .is_ok());

    // Verify the hook was added
    let hooks = manager.get_hooks();
    let entry = hooks.iter().find(|(n, _)| n == "pre-push").expect("pre-push entry");
    let hook = &entry.1[0];
    assert_eq!(hook.command, "cargo");
    assert_eq!(hook.args, vec!["build"]);
}

#[test]
fn test_add_invalid_hook() {
    let mut manager = manager_with(Config::default());

    let result = manager.add_hook("invalid-hook".to_string(), "command".to_string(), vec![]);
    assert!(matches!(result, Err(HookError::InvalidHook(..))));
}

#[test]
fn test_hooks_test_unset_hooks_path() {
    let mut manager = manager_with(Config::default());

    manager.unset_hooks_path().unwrap();

    // The hooks path falls back to git's own directory
    assert_eq!(manager.get_config().options.hooks_dir, ".git/hooks");
    assert_eq!(manager.get_repo().hooks_dir, ".git/hooks");
}

#[test]
fn test_add_hook_appends_to_existing() {
    let mut manager = manager_with(empty_config());
    manager
        .add_hook("pre-commit".to_string(), "cargo".to_string(), vec!["test".to_string()])
        .unwrap();
    manager
        .add_hook("pre-commit".to_string(), "cargo".to_string(), vec!["clippy".to_string()])
        .unwrap();

    let hooks = manager.get_hooks();
    assert_eq!(hooks.len(), 1);
    assert_eq!(hooks[0].0, "pre-commit");
    assert_eq!(hooks[0].1.len(), 2);
    assert_eq!(hooks[0].1[1].args, vec!["clippy"]);
}

#[test]
fn test_build_command_string() {
    let manager = manager_with(empty_config());
    let cmd = CommandConfig {
        command: "sh test1.sh".to_string(),
        description: None,
        working_dir: Some(".".to_string()),
        env: vec![
            ("TEST_MODE".to_string(), "parallel-1".to_string()),
            ("TEST_VALUE".to_string(), "123".to_string()),
        ],
    };
    assert_eq!(
        manager.build_command_string(&cmd),
        "cd . && TEST_MODE=\"parallel-1\" TEST_VALUE=\"123\" sh test1.sh"
    );

    let bare = CommandConfig {
        command: "echo hi".to_string(),
        description: None,
        working_dir: None,
        env: vec![],
    };
    assert_eq!(manager.build_command_string(&bare), "echo hi");
}

#[test]
fn test_substitute_variables() {
    let manager = manager_with(Config::default());
    let bp = "/usr/local/bin/athira";

    assert_eq!(manager.substitute_variables("${athira}", bp), bp);
    assert_eq!(
        manager.substitute_variables("run: ${scripts.lint} now", bp),
        "run: /usr/local/bin/athira scripts run lint now"
    );
    assert_eq!(
        manager.substitute_variables("${test-all}", bp),
        "/usr/local/bin/athira scripts run test-all"
    );
    assert_eq!(
        manager.substitute_variables("${test-all.1}", bp),
        "cd . && TEST_MODE=\"parallel-1\" TEST_VALUE=\"123\" sh test1.sh"
    );
    // An index out of range keeps the reference as written.
    assert_eq!(manager.substitute_variables("${test-all.3}", bp), "${test-all.3}");
    assert_eq!(manager.substitute_variables("${test-all.0}", bp), "${test-all.0}");
    // Unknown references stay as written; malformed ones too.
    assert_eq!(manager.substitute_variables("${unknown}", bp), "${unknown}");
    assert_eq!(manager.substitute_variables("a $ {b} ${", bp), "a $ {b} ${");
    assert_eq!(manager.substitute_variables("${}", bp), "${}");
}

#[test]
fn test_generate_hook_script_plain() {
    let manager = manager_with(empty_config());
    let hooks = vec![Hook {
        command: "cargo".to_string(),
        args: vec!["test".to_string()],
        working_dir: None,
    }];
    assert_eq!(
        manager.generate_hook_script(&hooks, "/bin/athira"),
        "#!/bin/sh\n\ncargo test\nif [ $? -ne 0 ]; then\n  exit 1\nfi\n\n"
    );
}

#[test]
fn test_generate_hook_script_commit_validation() {
    let manager = manager_with(Config::default());
    let hooks = vec![Hook {
        command: "${athira}".to_string(),
        args: vec![
            "commit".to_string(),
            "validate".to_string(),
            "$1".to_string(),
        ],
        working_dir: None,
    }];
    assert_eq!(
        manager.generate_hook_script(&hooks, "/bin/athira"),
        "#!/bin/sh\n\n/bin/athira commit validate \"$1\"\nif [ $? -ne 0 ]; then\n  exit 1\nfi\n\n"
    );
}

#[test]
fn test_hooks_to_remove() {
    let manager = manager_with(Config::default());
    let existing = vec![
        "pre-commit".to_string(),
        "stale-hook".to_string(),
        "commit-msg".to_string(),
    ];
    assert_eq!(manager.hooks_to_remove(&existing), vec!["stale-hook".to_string()]);
}
