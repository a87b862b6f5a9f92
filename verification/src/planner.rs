//! The rule that decides what happens at one node of a source tree.
//!
//! A node of the source tree is paired with the path at which it would be
//! linked. What is to be done depends only on what the node is and on what
//! already occupies that path: anything that is already there stays.

use vstd::prelude::*;

verus! {

/// What a node of the source tree is, symbolic links followed.
#[derive(Debug, Clone, Copy, PartialEq, Eq, Structural)]
pub enum SourceKind {
    /// Nothing can be reached at the path.
    Missing,
    /// Something that is not a directory.
    File,
    /// A directory.
    Directory,
}

/// What occupies a target path, symbolic links not followed.
#[derive(Debug, Clone, Copy, PartialEq, Eq, Structural)]
pub enum TargetKind {
    /// No entry of any kind, not even a dangling link.
    Absent,
    /// Something that is neither a directory nor a symbolic link.
    File,
    /// A real directory.
    Directory,
    /// A symbolic link, whatever it points to.
    Symlink,
}

/// What is to be done for one node.
#[derive(Debug, Clone, Copy, PartialEq, Eq, Structural)]
pub enum Action {
    /// Bind the whole node, file or directory, with a single link.
    CreateLink,
    /// Pair every child of the node with the entry of that name below the
    /// target, and decide each in turn.
    Descend,
    /// Leave everything as it is.
    Skip,
}

/// The decision for a node of kind `source` whose target path holds `target`.
///
/// A missing source is skipped. A free target path is bound by one link, which
/// covers a whole directory at once. A directory is descended into where the
/// target is a real directory. Whatever else occupies the target is kept.
pub open spec fn decide_spec(source: SourceKind, target: TargetKind) -> Action {
    if source is Missing {
        Action::Skip
    } else if target is Absent {
        Action::CreateLink
    } else if target is Directory && source is Directory {
        Action::Descend
    } else {
        Action::Skip
    }
}

/// Decides what is to be done for one node.
pub fn decide(source: SourceKind, target: TargetKind) -> (action: Action)
    ensures
        action == decide_spec(source, target),
{
    match source {
        SourceKind::Missing => Action::Skip,
        SourceKind::File => match target {
            TargetKind::Absent => Action::CreateLink,
            _ => Action::Skip,
        },
        SourceKind::Directory => match target {
            TargetKind::Absent => Action::CreateLink,
            TargetKind::Directory => Action::Descend,
            _ => Action::Skip,
        },
    }
}

/// A link is created exactly where the source exists and the target path is
/// free.
pub proof fn lemma_links_only_into_free_paths(source: SourceKind, target: TargetKind)
    ensures
        decide_spec(source, target) is CreateLink <==> source !is Missing && target is Absent,
{
}

/// The walk descends exactly where a directory meets a real directory, and
/// creates no link there.
pub proof fn lemma_descends_only_into_directories(source: SourceKind, target: TargetKind)
    ensures
        decide_spec(source, target) is Descend <==> source is Directory && target is Directory,
{
}

/// A target path that holds a file or a symbolic link is never touched.
pub proof fn lemma_occupied_paths_are_kept(source: SourceKind, target: TargetKind)
    requires
        target is File || target is Symlink,
    ensures
        decide_spec(source, target) is Skip,
{
}

} // verus!
