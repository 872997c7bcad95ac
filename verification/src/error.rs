use vstd::prelude::*;

verus! {

/// Every way a task-runner invocation can fail. All failures are fatal:
/// the caller prints a message and exits, no error is ever recovered from.
#[derive(Clone, Copy, Debug, PartialEq, Eq, Structural)]
pub enum TaskError {
    /// The configuration file is absent from the working directory.
    ConfigNotFound,
    /// The configuration file is malformed or misses a required field.
    ConfigParseError,
    /// No task name was given and no default is set for the host platform.
    NoDefaultTask,
    /// The resolved task name is not a key of the task map.
    TaskNotFound,
    /// A `platforms_supported` entry is not a recognized platform name.
    InvalidPlatform,
    /// The host platform is not among the task's supported platforms.
    UnsupportedPlatform,
    /// The task's dotenv file could not be read.
    DotenvReadError,
    /// A non-empty dotenv line has no `=` separator.
    DotenvParseError,
    /// A variable holds an array or a table, which cannot be stringified.
    UnsupportedVariableType,
    /// A command's process could not be started.
    SpawnError,
    /// A command exited with the given non-zero code (1 if none was reported).
    CommandFailed(i32),
}

} // verus!
