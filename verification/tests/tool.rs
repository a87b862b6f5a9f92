use dotme::error::DotmeError;
use dotme::git::{clone_step, pull_check, tool_result, CloneStep, GitOperation};

#[test]
fn a_run_that_succeeded_is_no_error() {
    for operation in [
        GitOperation::Clone,
        GitOperation::SubmoduleInit,
        GitOperation::SubmoduleUpdate,
        GitOperation::Pull,
        GitOperation::Status,
        GitOperation::Version,
    ] {
        assert_eq!(tool_result(operation, true, "noise on the error stream"), Ok(()));
    }
}

#[test]
fn a_run_that_failed_carries_the_error_stream() {
    let failure = |message: &str| Err(DotmeError::ExternalToolFailure { message: message.to_string() });
    assert_eq!(
        tool_result(GitOperation::Clone, false, "fatal: repository not found\n"),
        failure("Git clone failed: fatal: repository not found\n")
    );
    assert_eq!(tool_result(GitOperation::SubmoduleInit, false, "x"), failure("Git submodule init failed: x"));
    assert_eq!(tool_result(GitOperation::SubmoduleUpdate, false, "y"), failure("Git submodule update failed: y"));
    assert_eq!(tool_result(GitOperation::Pull, false, ""), failure("Git pull failed: "));
    assert_eq!(tool_result(GitOperation::Status, false, "z"), failure("Git status failed: z"));
    assert_eq!(
        tool_result(GitOperation::Version, false, "ignored"),
        failure("Git command failed. Please ensure git is installed.")
    );
}

#[test]
fn operations_have_their_names() {
    assert_eq!(GitOperation::Clone.label(), "Git clone");
    assert_eq!(GitOperation::SubmoduleInit.label(), "Git submodule init");
    assert_eq!(GitOperation::SubmoduleUpdate.label(), "Git submodule update");
    assert_eq!(GitOperation::Pull.label(), "Git pull");
    assert_eq!(GitOperation::Status.label(), "Git status");
    assert_eq!(GitOperation::Version.label(), "Git command");
}

#[test]
fn a_clone_that_exists_is_kept() {
    assert_eq!(clone_step(true), CloneStep::Keep);
    assert_eq!(clone_step(false), CloneStep::Clone);
}

#[test]
fn only_an_existing_clone_is_pulled() {
    assert_eq!(pull_check("/git/r", true), Ok(()));
    assert_eq!(
        pull_check("/git/r", false),
        Err(DotmeError::IOFailure { message: "Repository does not exist: /git/r".to_string() })
    );
}
