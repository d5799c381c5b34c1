//! Script management: the named scripts of one configuration, looked up,
//! added and removed. Running a script belongs to the caller, which drives
//! the execution scheduler with the commands a lookup hands back.

use vstd::prelude::*;

use crate::config::{is_simple_script, spec_remove_script, Config, ScriptConfig};
use crate::error::HookError;
use crate::text::str_eq;

verus! {

/// Whether the script list holds an entry named `name`.
pub open spec fn has_script(ss: Seq<(String, ScriptConfig)>, name: Seq<char>) -> bool {
    exists|i: int| 0 <= i < ss.len() && ss[i].0@ == name
}

/// The scripts of one configuration.
pub struct ScriptManager {
    config: Config,
}

impl ScriptManager {
    /// The configuration this manager works on.
    pub closed spec fn cfg(self) -> Config {
        self.config
    }

    /// A manager over the given configuration.
    pub fn new(config: Config) -> (s: Self)
        ensures
            s.cfg() == config,
    {
        ScriptManager { config }
    }

    /// Records `name` as a one-command sequential script, replacing any
    /// earlier script of that name; the new entry goes to the end of the
    /// list. Writing the configuration out is the caller's business.
    pub fn add_script(&mut self, name: String, command: String) -> (r: Result<(), HookError>)
        ensures
            r is Ok,
            final(self).cfg().scripts@.len() == spec_remove_script(
                old(self).cfg().scripts@,
                name@,
            ).len() + 1,
            final(self).cfg().scripts@.drop_last() == spec_remove_script(
                old(self).cfg().scripts@,
                name@,
            ),
            final(self).cfg().scripts@.last().0@ == name@,
            is_simple_script(final(self).cfg().scripts@.last().1, command@),
            final(self).cfg().hooks == old(self).cfg().hooks,
            final(self).cfg().options == old(self).cfg().options,
            final(self).cfg().lint == old(self).cfg().lint,
    {
        self.config.add_script(name, command)
    }

    /// Drops the script named `name`, if any. Writing the configuration out
    /// is the caller's business.
    pub fn remove_script(&mut self, name: &str) -> (r: Result<(), HookError>)
        ensures
            r is Ok,
            final(self).cfg().scripts@ == spec_remove_script(old(self).cfg().scripts@, name@),
            final(self).cfg().hooks == old(self).cfg().hooks,
            final(self).cfg().options == old(self).cfg().options,
            final(self).cfg().lint == old(self).cfg().lint,
    {
        self.config.remove_script(name)
    }

    /// The whole configuration.
    pub fn get_config(&self) -> (r: &Config)
        ensures
            *r == self.cfg(),
    {
        &self.config
    }

    /// All scripts, by name, in insertion order.
    pub fn get_scripts(&self) -> (r: &Vec<(String, ScriptConfig)>)
        ensures
            r@ == self.cfg().scripts@,
    {
        &self.config.scripts
    }

    /// Looks a script up by name; an unknown name fails with a script-not-
    /// found execution error carrying the name.
    pub fn lookup(&self, name: &str) -> (r: Result<&ScriptConfig, HookError>)
        ensures
            r is Ok <==> has_script(self.cfg().scripts@, name@),
            r matches Ok(sc) ==> exists|k: int|
                {
                    &&& 0 <= k < self.cfg().scripts@.len()
                    &&& (#[trigger] self.cfg().scripts@[k]).0@ == name@
                    &&& forall|j: int| 0 <= j < k ==> self.cfg().scripts@[j].0@ != name@
                    &&& *sc == self.cfg().scripts@[k].1
                },
            r matches Err(e) ==> (e matches HookError::ScriptExecutionError {
                script_name,
                reason,
            } && script_name@ == name@ && reason@ == "Script not found"@),
    {
        match self.get_script(name) {
            Some(sc) => Ok(sc),
            None => Err(
                HookError::ScriptExecutionError {
                    script_name: String::from_str(name),
                    reason: String::from_str("Script not found"),
                },
            ),
        }
    }

    /// The first script named `name`, if any.
    pub fn get_script(&self, name: &str) -> (r: Option<&ScriptConfig>)
        ensures
            match r {
                Some(sc) => exists|k: int|
                    {
                        &&& 0 <= k < self.cfg().scripts@.len()
                        &&& (#[trigger] self.cfg().scripts@[k]).0@ == name@
                        &&& forall|j: int| 0 <= j < k ==> self.cfg().scripts@[j].0@ != name@
                        &&& *sc == self.cfg().scripts@[k].1
                    },
                None => !has_script(self.cfg().scripts@, name@),
            },
    {
        let n = self.config.scripts.len();
        let mut i: usize = 0;
        while i < n
            invariant
                i <= n,
                n == self.config.scripts@.len(),
                forall|j: int| 0 <= j < i ==> self.config.scripts@[j].0@ != name@,
            decreases n - i,
        {
            if str_eq(self.config.scripts[i].0.as_str(), name) {
                proof {
                    assert((#[trigger] self.cfg().scripts@[i as int]).0@ == name@);
                }
                return Some(&self.config.scripts[i].1);
            }
            i = i + 1;
        }
        None
    }
}

} // verus!
