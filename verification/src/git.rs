//! Working with the version-control tool.
//!
//! The tool itself is run from outside. Decided here is when it is run at
//! all, and what to make of how a run ended.

use vstd::prelude::*;
use vstd::string::*;
use crate::error::{DotmeError, ErrorView};

verus! {

/// What the tool is asked to do.
#[derive(Debug, Clone, Copy, PartialEq, Eq, Structural)]
pub enum GitOperation {
    /// Clone a repository.
    Clone,
    /// Prepare the submodules of a clone.
    SubmoduleInit,
    /// Fetch the submodules of a clone.
    SubmoduleUpdate,
    /// Pull the latest changes into a clone.
    Pull,
    /// Report the state of a clone.
    Status,
    /// Report the version of the tool, to see that it can be run at all.
    Version,
}

/// What is to be done to have a clone at a path.
#[derive(Debug, Clone, Copy, PartialEq, Eq, Structural)]
pub enum CloneStep {
    /// Something is at the path already: nothing is run.
    Keep,
    /// The path is free: the repository is cloned.
    Clone,
}

/// How an operation is named in a message.
pub open spec fn operation_label_spec(operation: GitOperation) -> Seq<char> {
    match operation {
        GitOperation::Clone => "Git clone"@,
        GitOperation::SubmoduleInit => "Git submodule init"@,
        GitOperation::SubmoduleUpdate => "Git submodule update"@,
        GitOperation::Pull => "Git pull"@,
        GitOperation::Status => "Git status"@,
        GitOperation::Version => "Git command"@,
    }
}

/// The message for an operation that the tool reported as failed: the name
/// of the operation, the word `failed`, and what the tool wrote to its error
/// stream. A failed check of the version tells the user to install the tool.
pub open spec fn failure_message_spec(operation: GitOperation, stderr: Seq<char>) -> Seq<char> {
    if operation is Version {
        "Git command failed. Please ensure git is installed."@
    } else {
        operation_label_spec(operation) + " failed: "@ + stderr
    }
}

/// What to make of a run of the tool: nothing if it succeeded, else a
/// failure of the tool with its message.
pub open spec fn tool_result_spec(
    operation: GitOperation,
    succeeded: bool,
    stderr: Seq<char>,
) -> Result<(), ErrorView> {
    if succeeded {
        Ok(())
    } else {
        Err(ErrorView::ExternalToolFailure { message: failure_message_spec(operation, stderr) })
    }
}

/// What is to be done to have a clone at a path, given whether anything is
/// there already.
pub open spec fn clone_step_spec(destination_exists: bool) -> CloneStep {
    if destination_exists {
        CloneStep::Keep
    } else {
        CloneStep::Clone
    }
}

/// Whether changes can be pulled into the clone at `path`: the clone must
/// exist.
pub open spec fn pull_check_spec(path: Seq<char>, clone_exists: bool) -> Result<(), ErrorView> {
    if clone_exists {
        Ok(())
    } else {
        Err(ErrorView::IOFailure { message: "Repository does not exist: "@ + path })
    }
}

/// The view of what a check found.
pub open spec fn checked(result: Result<(), DotmeError>) -> Result<(), ErrorView> {
    match result {
        Ok(()) => Ok(()),
        Err(error) => Err(error@),
    }
}

impl GitOperation {
    /// How the operation is named in a message.
    pub fn label(&self) -> (label: String)
        ensures
            label@ == operation_label_spec(*self),
    {
        match self {
            GitOperation::Clone => String::from_str("Git clone"),
            GitOperation::SubmoduleInit => String::from_str("Git submodule init"),
            GitOperation::SubmoduleUpdate => String::from_str("Git submodule update"),
            GitOperation::Pull => String::from_str("Git pull"),
            GitOperation::Status => String::from_str("Git status"),
            GitOperation::Version => String::from_str("Git command"),
        }
    }
}

/// Says what to make of a run of the tool, given whether it reported
/// success and what it wrote to its error stream.
pub fn tool_result(operation: GitOperation, succeeded: bool, stderr: &str) -> (result: Result<
    (),
    DotmeError,
>)
    ensures
        checked(result) == tool_result_spec(operation, succeeded, stderr@),
{
    if succeeded {
        return Ok(());
    }
    let message = match operation {
        GitOperation::Version => String::from_str(
            "Git command failed. Please ensure git is installed.",
        ),
        _ => {
            let mut message = operation.label();
            message.append(" failed: ");
            message.append(stderr);
            message
        },
    };
    Err(DotmeError::ExternalToolFailure { message })
}

/// Decides what is to be done to have a clone at a path.
pub fn clone_step(destination_exists: bool) -> (step: CloneStep)
    ensures
        step == clone_step_spec(destination_exists),
{
    if destination_exists {
        CloneStep::Keep
    } else {
        CloneStep::Clone
    }
}

/// Checks that changes can be pulled into the clone at `path`.
pub fn pull_check(path: &str, clone_exists: bool) -> (result: Result<(), DotmeError>)
    ensures
        checked(result) == pull_check_spec(path@, clone_exists),
{
    if clone_exists {
        Ok(())
    } else {
        let mut message = String::from_str("Repository does not exist: ");
        message.append(path);
        Err(DotmeError::IOFailure { message })
    }
}

} // verus!
