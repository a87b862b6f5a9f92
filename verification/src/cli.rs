//! What the user asks for on the command line.

use vstd::prelude::*;
use crate::config::text_of;
use crate::dotfiles::texts_of;

verus! {

/// What is to be done.
#[derive(Debug, Clone, PartialEq, Eq)]
pub enum ArgumentCommands {
    /// Set up the management of dotfiles.
    Init,
    /// Take a file, a directory or a repository into management.
    Add {
        /// The path of the file or directory, or the address of the
        /// repository.
        source: String,
        /// Where the source is kept.
        target: Option<String>,
        /// The directory under which links are created.
        path: Option<String>,
        /// The folders of a repository whose contents are linked.
        folders: Option<Vec<String>>,
        /// Only show what would be done.
        dry_run: bool,
    },
    /// Bring every managed entry up to date.
    Update {
        /// Only show what would be done.
        dry_run: bool,
    },
    /// Show the managed entries.
    Status,
    /// Let go of a managed entry; the user is asked which where none is
    /// named.
    Remove { source: Option<String> },
    /// Show the links that are recorded.
    List,
}

/// A command as a mathematical value.
pub enum CommandView {
    Init,
    Add {
        source: Seq<char>,
        target: Option<Seq<char>>,
        path: Option<Seq<char>>,
        folders: Option<Seq<Seq<char>>>,
        dry_run: bool,
    },
    Update { dry_run: bool },
    Status,
    Remove { source: Option<Seq<char>> },
    List,
}

impl View for ArgumentCommands {
    type V = CommandView;

    open spec fn view(&self) -> CommandView {
        match self {
            ArgumentCommands::Init => CommandView::Init,
            ArgumentCommands::Add { source, target, path, folders, dry_run } => CommandView::Add {
                source: source@,
                target: text_of(*target),
                path: text_of(*path),
                folders: texts_of(*folders),
                dry_run: *dry_run,
            },
            ArgumentCommands::Update { dry_run } => CommandView::Update { dry_run: *dry_run },
            ArgumentCommands::Status => CommandView::Status,
            ArgumentCommands::Remove { source } => CommandView::Remove { source: text_of(*source) },
            ArgumentCommands::List => CommandView::List,
        }
    }
}

/// Everything that was given on the command line.
#[derive(Debug, Clone, PartialEq, Eq)]
pub struct Arguments {
    /// Whether to log in detail.
    pub debug: bool,
    /// Whether to leave out the banner.
    pub disable_banner: bool,
    /// The configuration file to use in place of the default one.
    pub config: Option<String>,
    /// What is to be done, if anything was asked for.
    pub commands: Option<ArgumentCommands>,
}

/// The arguments as a mathematical value.
pub struct ArgumentsView {
    pub debug: bool,
    pub disable_banner: bool,
    pub config: Option<Seq<char>>,
    pub commands: Option<CommandView>,
}

impl View for Arguments {
    type V = ArgumentsView;

    open spec fn view(&self) -> ArgumentsView {
        ArgumentsView {
            debug: self.debug,
            disable_banner: self.disable_banner,
            config: text_of(self.config),
            commands: match self.commands {
                Some(command) => Some(command@),
                None => None,
            },
        }
    }
}

/// How much is logged.
#[derive(Debug, Clone, Copy, PartialEq, Eq, Structural)]
pub enum LogLevel {
    /// What a user wants to know.
    Info,
    /// Everything.
    Debug,
}

/// The command to carry out: the one that was given, or, where none was, a
/// look at the managed entries.
pub open spec fn command_spec(arguments: ArgumentsView) -> CommandView {
    match arguments.commands {
        Some(command) => command,
        None => CommandView::Status,
    }
}

/// How much is logged: everything where details were asked for.
pub open spec fn log_level_spec(arguments: ArgumentsView) -> LogLevel {
    if arguments.debug {
        LogLevel::Debug
    } else {
        LogLevel::Info
    }
}

impl Arguments {
    /// The command to carry out.
    pub fn command(self) -> (command: ArgumentCommands)
        ensures
            command@ == command_spec(self@),
    {
        match self.commands {
            Some(command) => command,
            None => ArgumentCommands::Status,
        }
    }

    /// How much is logged.
    pub fn log_level(&self) -> (level: LogLevel)
        ensures
            level == log_level_spec(self@),
    {
        if self.debug {
            LogLevel::Debug
        } else {
            LogLevel::Info
        }
    }

    /// Whether the banner is shown.
    pub fn shows_banner(&self) -> (shown: bool)
        ensures
            shown == !self@.disable_banner,
    {
        !self.disable_banner
    }
}

} // verus!
