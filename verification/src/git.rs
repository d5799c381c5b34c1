//! The git repository surface the hook manager relies on: the hooks
//! directory, the vocabulary of valid hook names, and the path guards that
//! protect the `.git` directory. Running `git` and touching the filesystem
//! is the caller's business.

use vstd::prelude::*;

use crate::error::HookError;
use crate::text::str_eq;

verus! {

/// A git repository's hook installation target.
#[derive(Debug)]
pub struct GitRepo {
    /// The directory the hook scripts are installed into.
    pub hooks_dir: String,
}

/// The hook names git recognizes.
pub open spec fn is_valid_hook_name(n: Seq<char>) -> bool {
    ||| n == "pre-commit"@
    ||| n == "prepare-commit-msg"@
    ||| n == "commit-msg"@
    ||| n == "post-commit"@
    ||| n == "pre-push"@
    ||| n == "post-checkout"@
    ||| n == "pre-rebase"@
    ||| n == "post-merge"@
    ||| n == "pre-receive"@
    ||| n == "update"@
    ||| n == "post-receive"@
    ||| n == "post-update"@
}

/// Whether the path's final components spell `suffix`: the path is `suffix`
/// itself, or ends with `/` followed by `suffix`.
pub open spec fn spec_path_ends_with(p: Seq<char>, s: Seq<char>) -> bool {
    ||| p == s
    ||| (p.len() > s.len() && p[p.len() - s.len() - 1] == '/' && p.subrange(
        p.len() - s.len(),
        p.len() as int,
    ) == s)
}

/// Whether `path`'s final components spell `suffix`.
pub fn path_ends_with(path: &str, suffix: &str) -> (r: bool)
    ensures
        r == spec_path_ends_with(path@, suffix@),
{
    let n = path.unicode_len();
    let m = suffix.unicode_len();
    if n == m {
        let e = str_eq(path, suffix);
        if e {
            return true;
        }
        proof {
            assert(!spec_path_ends_with(path@, suffix@));
        }
        return false;
    }
    if n < m {
        return false;
    }
    if path.get_char(n - m - 1) != '/' {
        return false;
    }
    let mut i: usize = 0;
    while i < m
        invariant
            i <= m,
            m < n,
            n == path@.len(),
            m == suffix@.len(),
            forall|j: int| 0 <= j < i ==> path@[n - m + j] == suffix@[j],
        decreases m - i,
    {
        if path.get_char(n - m + i) != suffix.get_char(i) {
            proof {
                assert(path@.subrange(n - m, n as int)[i as int] != suffix@[i as int]);
            }
            return false;
        }
        i = i + 1;
    }
    proof {
        assert(path@.subrange(n - m, n as int) =~= suffix@);
    }
    true
}

impl GitRepo {
    /// Accepts exactly the hook names git recognizes; anything else is
    /// reported as an invalid hook carrying the offered name.
    pub fn validate_hook_name(&self, name: &str) -> (r: Result<(), HookError>)
        ensures
            r is Ok <==> is_valid_hook_name(name@),
            r matches Err(e) ==> (e matches HookError::InvalidHook(m) && m@ == name@),
    {
        if str_eq(name, "pre-commit") || str_eq(name, "prepare-commit-msg") || str_eq(
            name,
            "commit-msg",
        ) || str_eq(name, "post-commit") || str_eq(name, "pre-push") || str_eq(
            name,
            "post-checkout",
        ) || str_eq(name, "pre-rebase") || str_eq(name, "post-merge") || str_eq(
            name,
            "pre-receive",
        ) || str_eq(name, "update") || str_eq(name, "post-receive") || str_eq(
            name,
            "post-update",
        ) {
            Ok(())
        } else {
            Err(HookError::InvalidHook(String::from_str(name)))
        }
    }

    /// The guard in front of unsetting the hooks path: a hooks directory
    /// whose last component is `.git` must never be cleaned up.
    pub fn unset_guard(&self) -> (r: Result<(), HookError>)
        ensures
            r is Ok <==> !spec_path_ends_with(self.hooks_dir@, ".git"@),
            r matches Err(e) ==> (e matches HookError::ConfigError(m) && m@
                == "Cannot remove .git directory. Use '.git/hooks' for Git hooks."@),
    {
        if path_ends_with(self.hooks_dir.as_str(), ".git") {
            Err(
                HookError::ConfigError(
                    String::from_str("Cannot remove .git directory. Use '.git/hooks' for Git hooks."),
                ),
            )
        } else {
            Ok(())
        }
    }

    /// Whether the hooks directory may be deleted on cleanup: neither the
    /// `.git` directory itself nor git's own `.git/hooks`.
    pub fn removable_on_unset(&self) -> (r: bool)
        ensures
            r == (!spec_path_ends_with(self.hooks_dir@, ".git/hooks"@) && !spec_path_ends_with(
                self.hooks_dir@,
                ".git"@,
            )),
    {
        !path_ends_with(self.hooks_dir.as_str(), ".git/hooks") && !path_ends_with(
            self.hooks_dir.as_str(),
            ".git",
        )
    }
}

} // verus!
