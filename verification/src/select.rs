use vstd::prelude::*;

use crate::error::TaskError;
use crate::model::has_task;
use crate::model::spec_resolve_default;
use crate::model::Info;
use crate::model::TaskConfig;
use crate::text::str_eq;

verus! {

/// Decides which task to run. An explicit name is kept as given; with none,
/// the host's default task is taken; either way the candidate must exist in
/// the task map. A host without a default (including an unrecognized host)
/// and no explicit name has no task to run.
pub fn select_task(task_config: &TaskConfig, task: Option<String>, host: &str) -> (r: Result<
    String,
    TaskError,
>)
    ensures
        match r {
            Ok(name) => has_task(task_config.tasks@, name@) && match task {
                Some(t) => name == t,
                None => Some(name) == spec_resolve_default(task_config.info, host@),
            },
            Err(e) => match task {
                Some(t) => e == TaskError::TaskNotFound && !has_task(task_config.tasks@, t@),
                None => match spec_resolve_default(task_config.info, host@) {
                    Some(d) => e == TaskError::TaskNotFound && !has_task(task_config.tasks@, d@),
                    None => e == TaskError::NoDefaultTask,
                },
            },
        },
{
    let selected: String = match task {
        Some(t) => t,
        None => match task_config.info.resolve_default(host) {
            Some(d) => d,
            None => {
                return Err(TaskError::NoDefaultTask);
            },
        },
    };
    if task_config.find_task(selected.as_str()).is_some() {
        Ok(selected)
    } else {
        Err(TaskError::TaskNotFound)
    }
}

/// Whether a task name is the resolved default for the host.
pub open spec fn is_default_mark(info: Info, host: Seq<char>, name: Seq<char>) -> bool {
    match spec_resolve_default(info, host) {
        Some(d) => d@ == name,
        None => false,
    }
}

/// The list-mode view of a configuration: every task name in map order, each
/// marked whether it is the host's default task. Nothing is selected or run.
pub fn list_tasks(task_config: &TaskConfig, host: &str) -> (r: Vec<(String, bool)>)
    ensures
        r@.len() == task_config.tasks@.len(),
        forall|i: int| 0 <= i < r@.len() ==> (#[trigger] r@[i]).0@ == task_config.tasks@[i].0@
            && r@[i].1 == is_default_mark(task_config.info, host@, task_config.tasks@[i].0@),
{
    let default = task_config.info.resolve_default(host);
    let mut r: Vec<(String, bool)> = Vec::new();
    let mut i: usize = 0;
    while i < task_config.tasks.len()
        invariant
            i <= task_config.tasks@.len(),
            r@.len() == i,
            default == spec_resolve_default(task_config.info, host@),
            forall|k: int| 0 <= k < i ==> (#[trigger] r@[k]).0@ == task_config.tasks@[k].0@
                && r@[k].1 == is_default_mark(task_config.info, host@, task_config.tasks@[k].0@),
        decreases task_config.tasks@.len() - i,
    {
        let name = task_config.tasks[i].0.clone();
        let marked = match &default {
            Some(d) => str_eq(d.as_str(), name.as_str()),
            None => false,
        };
        r.push((name, marked));
        i += 1;
    }
    r
}

} // verus!
