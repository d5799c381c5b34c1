use athira::config::Config;
use athira::error::HookError;
use athira::git::{path_ends_with, GitRepo};
use athira::hooks::HookManager;

#[test]
fn test_validate_hook_name() {
    let repo = GitRepo {
        hooks_dir: ".thira".to_string(),
    };

    // Valid hook names
    assert!(repo.validate_hook_name("pre-commit").is_ok());
    assert!(repo.validate_hook_name("commit-msg").is_ok());
    assert!(repo.validate_hook_name("pre-push").is_ok());

    // Invalid hook names
    assert!(repo.validate_hook_name("invalid-hook").is_err());
    assert!(repo.validate_hook_name("").is_err());
    assert!(repo.validate_hook_name("not-a-hook").is_err());
}

#[test]
fn test_git_hooks_dir_protection() {
    let repo = GitRepo {
        hooks_dir: ".git".to_string(),
    };
    let mut manager = HookManager::new(Config::default(), repo);

    // Attempt to unset hooks path with .git directory
    assert!(matches!(
        manager.unset_hooks_path(),
        Err(HookError::ConfigError(..))
    ));
}

#[test]
fn test_path_suffixes() {
    assert!(path_ends_with(".git", ".git"));
    assert!(path_ends_with("repo/.git", ".git"));
    assert!(!path_ends_with(".git/hooks", ".git"));
    assert!(!path_ends_with("not.git", ".git"));
    assert!(!path_ends_with(".thira", ".git"));
    assert!(path_ends_with("work/.git/hooks", ".git/hooks"));
}

#[test]
fn test_invalid_hook_error_carries_name() {
    let repo = GitRepo {
        hooks_dir: ".thira".to_string(),
    };
    match repo.validate_hook_name("pre-flight") {
        Err(HookError::InvalidHook(name)) => assert_eq!(name, "pre-flight"),
        _ => panic!("expected an invalid-hook error"),
    }
}

#[test]
fn test_unset_guard_allows_custom_dir() {
    let repo = GitRepo {
        hooks_dir: ".thira".to_string(),
    };
    assert!(repo.unset_guard().is_ok());
    assert!(repo.removable_on_unset());

    let own_hooks = GitRepo {
        hooks_dir: ".git/hooks".to_string(),
    };
    assert!(own_hooks.unset_guard().is_ok());
    assert!(!own_hooks.removable_on_unset());
}
