use vstd::prelude::*;

use crate::text::str_eq;

verus! {

/// The metadata table of a configuration: display fields and the default-task
/// slots, one generic shorthand plus one per recognized platform.
pub struct Info {
    pub name: String,
    pub author: String,
    pub default_windows_task: Option<String>,
    pub default_linux_task: Option<String>,
    pub default_macos_task: Option<String>,
    pub default_task: Option<String>,
}

/// One environment-variable pair handed to every child process of a task.
pub struct EnvVar {
    pub name: String,
    pub value: String,
}

/// One scalar value from the variable table. Floats and timestamps carry
/// their canonical rendered text, fixed when the configuration is loaded.
/// Arrays and tables are invalid as variable values; they are kept as bare
/// markers so that stringifying one can be rejected.
pub enum VarValue {
    VStr(String),
    VInt(i64),
    VFloat(String),
    VBool(bool),
    VDatetime(String),
    VArray,
    VTable,
}

/// One runnable unit: its commands in execution order and its constraints.
pub struct Task {
    pub env_vars: Option<Vec<EnvVar>>,
    pub commands: Vec<String>,
    pub platforms_supported: Option<Vec<String>>,
    pub dotenv_file: Option<String>,
}

/// The whole configuration: metadata, the variable table and the task map,
/// both maps kept as association lists in declaration order.
pub struct TaskConfig {
    pub info: Info,
    pub tasks: Vec<(String, Task)>,
    pub variables: Vec<(String, VarValue)>,
}

// ---------------------------------------------------------------------------
// Default-task normalization and resolution
// ---------------------------------------------------------------------------

/// `info` with the generic default copied into every per-platform slot that
/// was left unset; set slots and all other fields are untouched.
pub open spec fn normalized_info(info: Info) -> Info {
    Info {
        default_windows_task: if info.default_windows_task is Some {
            info.default_windows_task
        } else {
            info.default_task
        },
        default_linux_task: if info.default_linux_task is Some {
            info.default_linux_task
        } else {
            info.default_task
        },
        default_macos_task: if info.default_macos_task is Some {
            info.default_macos_task
        } else {
            info.default_task
        },
        ..info
    }
}

/// The default task for a host: the host's own slot if set, else the generic
/// shorthand; no default at all on an unrecognized host.
pub open spec fn spec_resolve_default(info: Info, host: Seq<char>) -> Option<String> {
    if host == "windows"@ {
        if info.default_windows_task is Some {
            info.default_windows_task
        } else {
            info.default_task
        }
    } else if host == "linux"@ {
        if info.default_linux_task is Some {
            info.default_linux_task
        } else {
            info.default_task
        }
    } else if host == "macos"@ {
        if info.default_macos_task is Some {
            info.default_macos_task
        } else {
            info.default_task
        }
    } else {
        None
    }
}

impl Info {
    /// Copies the generic `default_task` shorthand into every per-platform
    /// slot that is unset, leaving set slots alone.
    pub fn normalize(&mut self)
        ensures
            *final(self) == normalized_info(*old(self)),
    {
        if self.default_task.is_some() {
            if self.default_windows_task.is_none() {
                self.default_windows_task = clone_opt(&self.default_task);
            }
            if self.default_linux_task.is_none() {
                self.default_linux_task = clone_opt(&self.default_task);
            }
            if self.default_macos_task.is_none() {
                self.default_macos_task = clone_opt(&self.default_task);
            }
        }
    }

    /// The default task for the given host, per `spec_resolve_default`.
    pub fn resolve_default(&self, host: &str) -> (r: Option<String>)
        ensures
            r == spec_resolve_default(*self, host@),
    {
        if str_eq(host, "windows") {
            if self.default_windows_task.is_some() {
                clone_opt(&self.default_windows_task)
            } else {
                clone_opt(&self.default_task)
            }
        } else if str_eq(host, "linux") {
            if self.default_linux_task.is_some() {
                clone_opt(&self.default_linux_task)
            } else {
                clone_opt(&self.default_task)
            }
        } else if str_eq(host, "macos") {
            if self.default_macos_task.is_some() {
                clone_opt(&self.default_macos_task)
            } else {
                clone_opt(&self.default_task)
            }
        } else {
            None
        }
    }
}

fn clone_opt(o: &Option<String>) -> (r: Option<String>)
    ensures
        r == *o,
{
    match o {
        Some(s) => Some(s.clone()),
        None => None,
    }
}

/// Normalization is idempotent, and fills exactly the unset slots: where the
/// generic default is set and a per-platform slot is not, the normalized slot
/// equals the generic default.
pub proof fn lemma_normalize_idempotent(info: Info)
    ensures
        normalized_info(normalized_info(info)) == normalized_info(info),
        info.default_task is Some && info.default_windows_task is None
            ==> normalized_info(info).default_windows_task == info.default_task,
        info.default_task is Some && info.default_linux_task is None ==> normalized_info(
            info,
        ).default_linux_task == info.default_task,
        info.default_task is Some && info.default_macos_task is None ==> normalized_info(
            info,
        ).default_macos_task == info.default_task,
{
}

/// Resolving a default on a normalized configuration agrees with resolving
/// it on the un-normalized one: the on-demand fallback and the one-time
/// normalization pass choose the same task on every host.
pub proof fn lemma_resolve_after_normalize(info: Info, host: Seq<char>)
    ensures
        spec_resolve_default(normalized_info(info), host) == spec_resolve_default(info, host),
{
}

// ---------------------------------------------------------------------------
// Association-list lookup
// ---------------------------------------------------------------------------

/// The task bound to `name`, if any: the first pair with that key.
pub open spec fn spec_lookup_task(tasks: Seq<(String, Task)>, name: Seq<char>) -> Option<int>
    decreases tasks.len(),
{
    if tasks.len() == 0 {
        None
    } else if tasks[0].0@ == name {
        Some(0int)
    } else {
        match spec_lookup_task(tasks.skip(1), name) {
            Some(j) => Some(j + 1),
            None => None,
        }
    }
}

/// Some task in the map is keyed by `name`.
pub open spec fn has_task(tasks: Seq<(String, Task)>, name: Seq<char>) -> bool {
    spec_lookup_task(tasks, name) is Some
}

impl TaskConfig {
    /// The position of the task named `name`, scanning in declaration order.
    pub fn find_task(&self, name: &str) -> (r: Option<usize>)
        ensures
            match r {
                Some(j) => j < self.tasks@.len() && spec_lookup_task(self.tasks@, name@) == Some(
                    j as int,
                ),
                None => !has_task(self.tasks@, name@),
            },
    {
        let mut i: usize = 0;
        proof {
            assert(self.tasks@.skip(0) =~= self.tasks@);
        }
        while i < self.tasks.len()
            invariant
                i <= self.tasks@.len(),
                forall|k: int| 0 <= k < i ==> self.tasks@[k].0@ != name@,
                spec_lookup_task(self.tasks@, name@) == match spec_lookup_task(
                    self.tasks@.skip(i as int),
                    name@,
                ) {
                    Some(j) => Some(j + i),
                    None => None::<int>,
                },
            decreases self.tasks@.len() - i,
        {
            if str_eq(self.tasks[i].0.as_str(), name) {
                proof {
                    assert(self.tasks@.skip(i as int)[0] == self.tasks@[i as int]);
                }
                return Some(i);
            }
            proof {
                assert(self.tasks@.skip(i as int)[0] == self.tasks@[i as int]);
                assert(self.tasks@.skip(i as int).skip(1) =~= self.tasks@.skip(i + 1));
            }
            i += 1;
        }
        proof {
            assert(self.tasks@.skip(i as int) =~= Seq::<(String, Task)>::empty());
        }
        None
    }
}

} // verus!
