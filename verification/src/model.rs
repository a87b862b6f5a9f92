//! A model of the disk, for statements about whole walks.
//!
//! The walker is driven from outside, one request at a time. To say what a
//! whole walk does, this module plays the driver against a mathematical
//! picture of the disk: what each source path is, what each source directory
//! holds, and what occupies each target path. A request for a link succeeds
//! where the target path is free, and from then on a symbolic link occupies
//! it; nothing else ever changes. The source tree is taken to be unaffected
//! by the links that the walk creates.
//!
//! What holds of the walks defined here is proved in the module `walks`.

use vstd::prelude::*;
use crate::paths::{components, is_absolute_spec, join_spec, within};
use crate::planner::{SourceKind, TargetKind};
use crate::symlinks::LinkRecord;
use crate::walker::{
    advance_spec,
    place_among,
    deeper,
    metadata_dir,
    step_spec,
    Awaiting,
    EventView,
    FrameKind,
    FrameView,
    OutcomeView,
    WalkResult,
    WalkerView,
};

verus! {

/// The disk as the walker's driver sees it.
pub struct World {
    /// What each source path is. A path that is not listed is missing.
    pub sources: Map<Seq<char>, SourceKind>,
    /// The names in each source directory. A path that is not listed cannot
    /// be read as a directory.
    pub listings: Map<Seq<char>, Seq<Seq<char>>>,
    /// What occupies each target path. Paths are told apart by their
    /// components, so two texts that name one place have one entry. A path
    /// that is not listed is free.
    pub targets: Map<Seq<Seq<char>>, TargetKind>,
}

/// What the source path `path` is.
pub open spec fn source_at(world: World, path: Seq<char>) -> SourceKind {
    if world.sources.contains_key(path) {
        world.sources[path]
    } else {
        SourceKind::Missing
    }
}

/// What occupies the target path `path`.
pub open spec fn target_at(world: World, path: Seq<char>) -> TargetKind {
    if world.targets.contains_key(components(path)) {
        world.targets[components(path)]
    } else {
        TargetKind::Absent
    }
}

/// The driver's answer to what the walker is waiting for.
pub open spec fn answer(world: World, awaiting: Awaiting) -> EventView {
    match awaiting {
        Awaiting::Nothing => EventView::Failed,
        Awaiting::Probe(frame) => EventView::Probed {
            source: source_at(world, frame.source),
            target: target_at(world, frame.target),
        },
        Awaiting::Listing(frame) => if world.listings.contains_key(frame.source) {
            EventView::Listed { names: world.listings[frame.source] }
        } else {
            EventView::Failed
        },
        Awaiting::Link(frame) => if target_at(world, frame.target) is Absent {
            EventView::Linked
        } else {
            EventView::Failed
        },
    }
}

/// The disk after the driver has done what the walker is waiting for.
pub open spec fn effect(world: World, awaiting: Awaiting) -> World {
    match awaiting {
        Awaiting::Link(frame) => if target_at(world, frame.target) is Absent {
            World {
                targets: world.targets.insert(components(frame.target), TargetKind::Symlink),
                ..world
            }
        } else {
            world
        },
        _ => world,
    }
}

/// Drives `walker` for at most `fuel` steps, or until it asks for nothing
/// more: the walker, the ledger and the disk at the end.
pub open spec fn run(
    walker: WalkerView,
    store: Seq<LinkRecord>,
    world: World,
    now: Seq<char>,
    fuel: nat,
) -> (WalkerView, Seq<LinkRecord>, World)
    decreases fuel,
{
    if fuel == 0 || walker.awaiting is Nothing {
        (walker, store, world)
    } else {
        let (next, ledger, _) = step_spec(walker, store, answer(world, walker.awaiting), now);
        run(next, ledger, effect(world, walker.awaiting), now, (fuel - 1) as nat)
    }
}

/// A walker that has just been made for `roots`, the first root on top.
pub open spec fn fresh(roots: Seq<FrameView>, simulate: bool, max_depth: usize) -> WalkerView {
    WalkerView {
        pending: roots.reverse(),
        awaiting: Awaiting::Nothing,
        simulate,
        max_depth,
        report: Seq::empty(),
        planned: Seq::empty(),
        freed: Seq::empty(),
    }
}

/// A simulating walker that has just been made for `roots` and told that
/// the links at `freed` are taken away before the walk begins.
pub open spec fn rehearsal(
    roots: Seq<FrameView>,
    max_depth: usize,
    freed: Seq<Seq<char>>,
) -> WalkerView {
    WalkerView { freed, ..fresh(roots, true, max_depth) }
}

/// The disk once the links at `freed` are taken away. Only a link is ever
/// taken away: whatever else stands at one of the paths stays.
pub open spec fn cleared(world: World, freed: Seq<Seq<char>>) -> World {
    World {
        targets: Map::new(
            |place: Seq<Seq<char>>|
                world.targets.contains_key(place) && !(world.targets[place] is Symlink && exists|
                    k: int,
                |
                    0 <= k < freed.len() && components(#[trigger] freed[k]) == place),
            |place: Seq<Seq<char>>| world.targets[place],
        ),
        ..world
    }
}

/// A whole walk over `roots`, cut off after `fuel` steps.
pub open spec fn walk(
    roots: Seq<FrameView>,
    simulate: bool,
    max_depth: usize,
    store: Seq<LinkRecord>,
    world: World,
    now: Seq<char>,
    fuel: nat,
) -> (WalkerView, Seq<LinkRecord>, World) {
    run(advance_spec(fresh(roots, simulate, max_depth)).0, store, world, now, fuel)
}

/// `late` is `early` with links added at paths that were free.
pub open spec fn grows_into(early: World, late: World) -> bool {
    &&& late.sources == early.sources
    &&& late.listings == early.listings
    &&& forall|path: Seq<char>|
        !(#[trigger] target_at(early, path) is Absent) ==> target_at(late, path) == target_at(
            early,
            path,
        )
}

/// Every frame that `walker` holds has its source at or below `root`.
pub open spec fn sources_under(walker: WalkerView, root: Seq<char>) -> bool {
    &&& forall|i: int|
        0 <= i < walker.pending.len() ==> within((#[trigger] walker.pending[i]).source, root)
    &&& match walker.awaiting {
        Awaiting::Nothing => true,
        Awaiting::Probe(frame) => within(frame.source, root),
        Awaiting::Listing(frame) => within(frame.source, root),
        Awaiting::Link(frame) => within(frame.source, root),
    }
}

/// No directory of the source tree lists an absolute path as a name.
pub open spec fn relative_listings(world: World) -> bool {
    forall|path: Seq<char>, i: int|
        world.listings.contains_key(path) && 0 <= i < world.listings[path].len()
            ==> !is_absolute_spec(#[trigger] world.listings[path][i])
}

/// Every link that the ledger records stands on the disk: no recorded link
/// path is free.
pub open spec fn recorded_links_exist(store: Seq<LinkRecord>, world: World) -> bool {
    forall|i: int|
        0 <= i < store.len() ==> !(target_at(world, (#[trigger] store[i]).link) is Absent)
}

/// A report of the real walk as a simulation words it: where the real walk
/// has created a link, the simulation would create one.
pub open spec fn foreseen(report: Seq<OutcomeView>) -> Seq<OutcomeView> {
    Seq::new(
        report.len(),
        |i: int|
            OutcomeView {
                result: if report[i].result is Linked {
                    WalkResult::WouldLink
                } else {
                    report[i].result
                },
                ..report[i]
            },
    )
}

/// `disk` is `origin` with the links at `freed` taken away, and then a link
/// put at each of the paths in `planned`.
pub open spec fn overlays(
    origin: World,
    planned: Seq<Seq<char>>,
    freed: Seq<Seq<char>>,
    disk: World,
) -> bool {
    &&& disk.sources == origin.sources
    &&& disk.listings == origin.listings
    &&& forall|path: Seq<char>| #[trigger]
        target_at(disk, path) == if place_among(planned, path) {
            TargetKind::Symlink
        } else if target_at(origin, path) is Symlink && place_among(freed, path) {
            TargetKind::Absent
        } else {
            target_at(origin, path)
        }
}

/// How deep below `depth` a walk can still descend.
pub open spec fn room(depth: usize, max_depth: usize) -> nat {
    if depth < max_depth {
        (max_depth - depth) as nat
    } else {
        0
    }
}

/// An upper bound on the steps that the pair with the source `source`, at
/// depth `depth`, can take: one to probe it, one to link it or to list it,
/// and those that its children take where it can be descended into.
pub open spec fn pair_cost(world: World, source: Seq<char>, depth: usize, max_depth: usize) -> nat
    decreases room(depth, max_depth), 0nat,
{
    if depth < max_depth && world.listings.contains_key(source) {
        2 + names_cost(world, source, (depth + 1) as usize, max_depth, world.listings[source])
    } else {
        2
    }
}

/// An upper bound on the steps that the children `names` of the directory
/// `parent` can take, each at depth `depth`.
pub open spec fn names_cost(
    world: World,
    parent: Seq<char>,
    depth: usize,
    max_depth: usize,
    names: Seq<Seq<char>>,
) -> nat
    decreases room(depth, max_depth), 1 + names.len(),
{
    if names.len() == 0 {
        0
    } else {
        let rest = names_cost(world, parent, depth, max_depth, names.drop_first());
        if names.first() == metadata_dir() {
            rest
        } else {
            rest + pair_cost(world, join_spec(parent, names.first()), depth, max_depth)
        }
    }
}

/// An upper bound on the steps that listing the directory of `frame` and
/// working through its children can take.
pub open spec fn listing_cost(world: World, frame: FrameView, max_depth: usize) -> nat {
    if world.listings.contains_key(frame.source) {
        1 + names_cost(
            world,
            frame.source,
            deeper(frame.depth),
            max_depth,
            world.listings[frame.source],
        )
    } else {
        1
    }
}

/// An upper bound on the steps that a frame on the stack can take.
pub open spec fn frame_cost(world: World, frame: FrameView, max_depth: usize) -> nat {
    match frame.kind {
        FrameKind::Pair => pair_cost(world, frame.source, frame.depth, max_depth),
        FrameKind::Contents => listing_cost(world, frame, max_depth),
    }
}

/// An upper bound on the steps that the frames of a stack can take.
pub open spec fn stack_cost(world: World, stack: Seq<FrameView>, max_depth: usize) -> nat
    decreases stack.len(),
{
    if stack.len() == 0 {
        0
    } else {
        stack_cost(world, stack.drop_last(), max_depth) + frame_cost(world, stack.last(), max_depth)
    }
}

/// An upper bound on the steps that `walker` can still take.
pub open spec fn walker_cost(world: World, walker: WalkerView) -> nat {
    stack_cost(world, walker.pending, walker.max_depth) + match walker.awaiting {
        Awaiting::Nothing => 0,
        Awaiting::Probe(frame) => pair_cost(world, frame.source, frame.depth, walker.max_depth),
        Awaiting::Listing(frame) => listing_cost(world, frame, walker.max_depth),
        Awaiting::Link(frame) => 1,
    }
}

/// An upper bound on the steps of a whole walk over `roots`.
pub open spec fn walk_cost(world: World, roots: Seq<FrameView>, max_depth: usize) -> nat {
    walker_cost(world, advance_spec(fresh(roots, false, max_depth)).0)
}

/// `walker` once it is done with the frame it was waiting on: the next
/// frame is taken up, or the walk is finished.
pub open spec fn moved_on(walker: WalkerView) -> WalkerView {
    advance_spec(WalkerView { awaiting: Awaiting::Nothing, ..walker }).0
}

/// `world` with a link at the target path `path`.
pub open spec fn with_link(world: World, path: Seq<char>) -> World {
    World { targets: world.targets.insert(components(path), TargetKind::Symlink), ..world }
}

} // verus!
