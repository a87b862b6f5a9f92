//! Symlink-based management of personal configuration files.
//!
//! Sources, that is files, directories and cloned repositories, are kept in
//! one place and linked to where programs look for them. The crate holds the
//! rules of that bookkeeping, and proofs of what they guarantee. It never
//! touches the disk, runs a tool or asks the user: whoever drives it does,
//! and hands over what was found. All it asks of the machine itself is the
//! time and the user's home directory.
//!
//! - `planner` decides what happens at one node of a source tree.
//! - `walker` walks a source tree against a target tree, one request to its
//!   driver at a time; `model` and `walks` say what whole walks do.
//! - `symlinks` is the ledger of the links that were created.
//! - `config` holds the managed entries, `dotfiles` the steps of adding,
//!   updating and removing one, `folders` the choice of folders of a
//!   repository, `git` the dealings with the version-control tool.
//! - `cli` holds what the user asks for on the command line.
//! - `system` reads the clock and looks up the home directory.
//! - `paths`, `text` and `select` are the tools of the trade; `error` lists
//!   what can go wrong.

pub mod cli;
pub mod config;
pub mod dotfiles;
pub mod error;
pub mod folders;
pub mod git;
pub mod model;
pub mod paths;
pub mod planner;
pub mod select;
pub mod symlinks;
pub mod system;
pub mod text;
pub mod walker;
pub mod walks;
