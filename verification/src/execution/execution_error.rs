use vstd::prelude::*;
use vstd::std_specs::convert::FromSpecImpl;

use crate::command::CommandError;

verus! {

/// Why working on a repository failed.
#[derive(Debug)]
pub enum ExecutionError {
    Io(std::io::Error),
    /// The repository path does not name a directory.
    InvalidDirectory(String),
    /// A command ran but did not exit with status 0.
    CommandFailed { status: Option<i32>, stderr: String },
    /// A command could not be run at all.
    CommandError(CommandError),
}

impl From<std::io::Error> for ExecutionError {
    fn from(error: std::io::Error) -> (result: Self) {
        ExecutionError::Io(error)
    }
}

impl FromSpecImpl<std::io::Error> for ExecutionError {
    open spec fn obeys_from_spec() -> bool {
        true
    }

    open spec fn from_spec(v: std::io::Error) -> Self {
        ExecutionError::Io(v)
    }
}

impl From<CommandError> for ExecutionError {
    fn from(error: CommandError) -> (result: Self) {
        ExecutionError::CommandError(error)
    }
}

impl FromSpecImpl<CommandError> for ExecutionError {
    open spec fn obeys_from_spec() -> bool {
        true
    }

    open spec fn from_spec(v: CommandError) -> Self {
        ExecutionError::CommandError(v)
    }
}

} // verus!
