//! What can go wrong.

use vstd::prelude::*;
use vstd::string::*;

verus! {

/// The ways in which an operation can fail.
#[derive(Debug, Clone, PartialEq, Eq)]
pub enum DotmeError {
    /// No configuration exists yet.
    NotInitialized,
    /// The source is already managed.
    DuplicateSource { source: String },
    /// The source is neither an existing path nor a repository address.
    SourceTypeUndetectable { source: String },
    /// The source is not managed.
    NotManaged { source: String },
    /// The path has no final component to name a link after.
    MissingFileName { path: String },
    /// The path at which a link should stand holds something that is not a
    /// symbolic link.
    SymlinkConflict { link: String },
    /// A symbolic link stands at the path and points elsewhere.
    SymlinkWrongTarget { link: String, actual: String, expected: String },
    /// What a link should point to does not exist.
    TargetMissing { target: String },
    /// The file name of a configuration does not say which format it is in.
    UnsupportedFormat,
    /// The home directory is not known.
    HomeUnavailable,
    /// An outside tool reported failure.
    ExternalToolFailure { message: String },
    /// The operating system refused an operation on a file.
    IOFailure { message: String },
}

/// An error as a mathematical value.
pub enum ErrorView {
    NotInitialized,
    DuplicateSource { source: Seq<char> },
    SourceTypeUndetectable { source: Seq<char> },
    NotManaged { source: Seq<char> },
    MissingFileName { path: Seq<char> },
    SymlinkConflict { link: Seq<char> },
    SymlinkWrongTarget { link: Seq<char>, actual: Seq<char>, expected: Seq<char> },
    TargetMissing { target: Seq<char> },
    UnsupportedFormat,
    HomeUnavailable,
    ExternalToolFailure { message: Seq<char> },
    IOFailure { message: Seq<char> },
}

impl View for DotmeError {
    type V = ErrorView;

    open spec fn view(&self) -> ErrorView {
        match self {
            DotmeError::NotInitialized => ErrorView::NotInitialized,
            DotmeError::DuplicateSource { source } => ErrorView::DuplicateSource {
                source: source@,
            },
            DotmeError::SourceTypeUndetectable { source } => ErrorView::SourceTypeUndetectable {
                source: source@,
            },
            DotmeError::NotManaged { source } => ErrorView::NotManaged { source: source@ },
            DotmeError::MissingFileName { path } => ErrorView::MissingFileName { path: path@ },
            DotmeError::SymlinkConflict { link } => ErrorView::SymlinkConflict { link: link@ },
            DotmeError::SymlinkWrongTarget { link, actual, expected } => {
                ErrorView::SymlinkWrongTarget {
                    link: link@,
                    actual: actual@,
                    expected: expected@,
                }
            },
            DotmeError::TargetMissing { target } => ErrorView::TargetMissing { target: target@ },
            DotmeError::UnsupportedFormat => ErrorView::UnsupportedFormat,
            DotmeError::HomeUnavailable => ErrorView::HomeUnavailable,
            DotmeError::ExternalToolFailure { message } => ErrorView::ExternalToolFailure {
                message: message@,
            },
            DotmeError::IOFailure { message } => ErrorView::IOFailure { message: message@ },
        }
    }
}

/// The text of an error, as a user reads it.
pub open spec fn message_spec(error: ErrorView) -> Seq<char> {
    match error {
        ErrorView::NotInitialized => "DotMe is not initialized. Run 'dotme init' first."@,
        ErrorView::DuplicateSource { source } => "Source '"@ + source
            + "' is already being managed"@,
        ErrorView::SourceTypeUndetectable { source } => "Could not determine source type for '"@
            + source + "'. Path does not exist or is not a valid git repository URL."@,
        ErrorView::NotManaged { source } => "Source '"@ + source + "' is not being managed"@,
        ErrorView::MissingFileName { path } => "Failed to get filename from '"@ + path + "'"@,
        ErrorView::SymlinkConflict { link } => "Path exists but is not a symlink: "@ + link,
        ErrorView::SymlinkWrongTarget { link, actual, expected } => "Symlink "@ + link
            + " exists but points to "@ + actual + " instead of "@ + expected,
        ErrorView::TargetMissing { target } => "Target does not exist: "@ + target
            + ". Cannot create symlink."@,
        ErrorView::UnsupportedFormat => "Unsupported configuration file format"@,
        ErrorView::HomeUnavailable => "Failed to get home directory"@,
        ErrorView::ExternalToolFailure { message } => message,
        ErrorView::IOFailure { message } => message,
    }
}

impl DotmeError {
    /// The text of the error, as a user reads it.
    pub fn message(&self) -> (text: String)
        ensures
            text@ == message_spec(self@),
    {
        match self {
            DotmeError::NotInitialized => String::from_str(
                "DotMe is not initialized. Run 'dotme init' first.",
            ),
            DotmeError::DuplicateSource { source } => {
                let mut text = String::from_str("Source '");
                text.append(source.as_str());
                text.append("' is already being managed");
                text
            },
            DotmeError::SourceTypeUndetectable { source } => {
                let mut text = String::from_str("Could not determine source type for '");
                text.append(source.as_str());
                text.append("'. Path does not exist or is not a valid git repository URL.");
                text
            },
            DotmeError::NotManaged { source } => {
                let mut text = String::from_str("Source '");
                text.append(source.as_str());
                text.append("' is not being managed");
                text
            },
            DotmeError::MissingFileName { path } => {
                let mut text = String::from_str("Failed to get filename from '");
                text.append(path.as_str());
                text.append("'");
                text
            },
            DotmeError::SymlinkConflict { link } => {
                let mut text = String::from_str("Path exists but is not a symlink: ");
                text.append(link.as_str());
                text
            },
            DotmeError::SymlinkWrongTarget { link, actual, expected } => {
                let mut text = String::from_str("Symlink ");
                text.append(link.as_str());
                text.append(" exists but points to ");
                text.append(actual.as_str());
                text.append(" instead of ");
                text.append(expected.as_str());
                text
            },
            DotmeError::TargetMissing { target } => {
                let mut text = String::from_str("Target does not exist: ");
                text.append(target.as_str());
                text.append(". Cannot create symlink.");
                text
            },
            DotmeError::UnsupportedFormat => String::from_str(
                "Unsupported configuration file format",
            ),
            DotmeError::HomeUnavailable => String::from_str("Failed to get home directory"),
            DotmeError::ExternalToolFailure { message } => message.clone(),
            DotmeError::IOFailure { message } => message.clone(),
        }
    }
}

} // verus!
