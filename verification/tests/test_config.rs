use athira::config::{CommandConfig, Config, Hook, LinterConfig, Options, ScriptConfig};

#[test]
fn test_config_validation() {
    let mut config = Config::default();

    // Invalid hooks dir
    config.options.hooks_dir = ".git".to_string();
    assert!(config.validate().is_err());

    // Empty hook command
    let hooks = vec![(
        "pre-commit".to_string(),
        vec![Hook {
            command: "".to_string(),
            args: vec![],
            working_dir: None,
        }],
    )];
    config.hooks = hooks;
    assert!(config.validate().is_err());

    // Invalid subject length config
    config = Config::default();
    config.lint.max_subject_length = 2; // Less than min_subject_length
    assert!(config.validate().is_err());
}

#[test]
fn test_default_config_contents() {
    let config = Config::default();

    assert!(config.hooks.iter().any(|(n, _)| n == "pre-commit"));
    assert!(config.hooks.iter().any(|(n, _)| n == "commit-msg"));
    assert!(config.scripts.iter().any(|(n, _)| n == "test-all"));

    assert!(config.options.auto_install);
    assert_eq!(config.options.hooks_dir, ".thira");

    assert!(!config.lint.types.is_empty());
    assert!(!config.lint.scopes.is_empty());
    assert_eq!(config.lint.min_subject_length, 3);
    assert_eq!(config.lint.max_subject_length, 72);
    assert_eq!(config.lint.max_body_line_length, 100);

    assert!(config.validate().is_ok());
}

#[test]
fn test_validation_messages() {
    let mut config = Config::default();
    config.lint.min_subject_length = 0;
    match config.validate() {
        Err(athira::error::HookError::ConfigError(m)) => {
            assert_eq!(m, "min_subject_length must be greater than 0");
        }
        _ => panic!("expected a configuration error"),
    }

    let mut config = Config::default();
    config.hooks = vec![("pre-commit".to_string(), vec![])];
    match config.validate() {
        Err(athira::error::HookError::ConfigError(m)) => {
            assert_eq!(m, "Hook 'pre-commit' has no commands");
        }
        _ => panic!("expected a configuration error"),
    }
}

#[test]
fn test_add_and_remove_script() {
    let mut config = Config {
        hooks: vec![],
        scripts: vec![],
        options: Options {
            auto_install: false,
            hooks_dir: ".thira".to_string(),
        },
        lint: LinterConfig::default(),
    };

    assert!(config.add_script("build".to_string(), "cargo build".to_string()).is_ok());
    assert_eq!(config.scripts.len(), 1);
    assert_eq!(config.scripts[0].0, "build");
    assert!(!config.scripts[0].1.parallel);
    assert_eq!(config.scripts[0].1.max_threads, 4);
    assert_eq!(config.scripts[0].1.commands.len(), 1);
    assert_eq!(config.scripts[0].1.commands[0].command, "cargo build");

    // Re-adding under the same name replaces the entry.
    assert!(config.add_script("build".to_string(), "cargo build --release".to_string()).is_ok());
    assert_eq!(config.scripts.len(), 1);
    assert_eq!(config.scripts[0].1.commands[0].command, "cargo build --release");

    assert!(config.remove_script("build").is_ok());
    assert!(config.scripts.is_empty());

    // Removing an unknown script changes nothing.
    assert!(config.remove_script("missing").is_ok());
    assert!(config.scripts.is_empty());
}

#[test]
fn test_render_yaml_minimal() {
    let config = Config {
        hooks: vec![],
        scripts: vec![(
            "build".to_string(),
            ScriptConfig {
                parallel: false,
                max_threads: 4,
                commands: vec![CommandConfig {
                    command: "cargo build".to_string(),
                    description: None,
                    working_dir: None,
                    env: vec![],
                }],
            },
        )],
        options: Options {
            auto_install: false,
            hooks_dir: ".thira".to_string(),
        },
        lint: LinterConfig {
            types: vec![],
            scopes: vec![],
            min_subject_length: 5,
            max_subject_length: 50,
            max_body_line_length: 80,
        },
    };

    let expected = "hooks:\n\
                    \nscripts:\n  build:\n    commands:\n      - command: \"cargo build\"\n\
                    \noptions:\n  auto_install: false\n  hooks_dir: .thira\n\
                    \nlint:\n  min_subject_length: 5\n  max_subject_length: 50\n  max_body_line_length: 80\n";
    assert_eq!(config.render_yaml(), expected);
}

#[test]
fn test_render_yaml_full_sections() {
    let config = Config {
        hooks: vec![(
            "pre-push".to_string(),
            vec![Hook {
                command: "cargo".to_string(),
                args: vec!["build".to_string(), "--release".to_string()],
                working_dir: Some("/tmp".to_string()),
            }],
        )],
        scripts: vec![(
            "par".to_string(),
            ScriptConfig {
                parallel: true,
                max_threads: 2,
                commands: vec![CommandConfig {
                    command: "echo hi".to_string(),
                    description: Some("say hi".to_string()),
                    working_dir: Some(".".to_string()),
                    env: vec![("K".to_string(), "v".to_string())],
                }],
            },
        )],
        options: Options {
            auto_install: true,
            hooks_dir: ".thira".to_string(),
        },
        lint: LinterConfig {
            types: vec!["feat".to_string()],
            scopes: vec!["api".to_string()],
            min_subject_length: 3,
            max_subject_length: 72,
            max_body_line_length: 100,
        },
    };

    let expected = "hooks:\n  pre-push:\n    - command: cargo\n      args:\n        - build\n        - --release\n      working_dir: /tmp\n\
                    \nscripts:\n  par:\n    parallel: true\n    max_threads: 2\n    commands:\n      - command: \"echo hi\"\n        description: \"say hi\"\n        working_dir: \".\"\n        env:\n          K: \"v\"\n\
                    \noptions:\n  auto_install: true\n  hooks_dir: .thira\n\
                    \nlint:\n  types:\n    - feat\n  scopes:\n    - api\n  min_subject_length: 3\n  max_subject_length: 72\n  max_body_line_length: 100\n";
    assert_eq!(config.render_yaml(), expected);
}

#[test]
fn test_default_helpers() {
    assert_eq!(athira::config::default_min_subject_length(), 3);
    assert_eq!(athira::config::default_max_subject_length(), 72);
    assert_eq!(athira::config::default_max_body_line_length(), 100);
    assert_eq!(athira::config::default_hooks_dir(), ".thira");
    assert_eq!(athira::config::default_max_threads(), 4);
}
