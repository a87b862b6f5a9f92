//! What holds of whole walks.
//!
//! The statements are made against the model of the disk in the module
//! `model`. They say that every walk ends; that a walk binds a free path
//! with one link; that a second walk finds nothing to do; that a simulation
//! changes nothing and reports what the real walk does; and that letting go
//! of an entry undoes what the walk over it has recorded.

use vstd::prelude::*;
use crate::model::{
    answer,
    cleared,
    rehearsal,
    moved_on,
    with_link,
    effect,
    foreseen,
    fresh,
    grows_into,
    names_cost,
    overlays,
    pair_cost,
    recorded_links_exist,
    relative_listings,
    room,
    run,
    source_at,
    sources_under,
    stack_cost,
    target_at,
    walk,
    walk_cost,
    walker_cost,
    World,
};
use crate::paths::{
    components,
    is_absolute_spec,
    join_spec,
    lemma_join_relative,
    lemma_within_chain,
    same_path_spec,
    within,
};
use crate::planner::{decide_spec, TargetKind};
use crate::symlinks::{fresh_record, outside, tracks, upsert_spec, LinkRecord};
use crate::walker::{
    advance_spec,
    noting,
    skip_reason,
    place_among,
    child_frame,
    child_frames,
    deeper,
    metadata_dir,
    seen_spec,
    settle_spec,
    step_spec,
    Awaiting,
    EventView,
    FrameView,
    OutcomeView,
    WalkResult,
    WalkerView,
};

verus! {

/// A source that exists, paired with a free target path, is bound by exactly
/// one link. The walk over that one pair ends after three steps; on the disk
/// a link now stands at the target path and nothing else has changed, not
/// even below a source directory; the ledger has taken up the one pair; and
/// the report holds one line.
pub proof fn lemma_free_target_walk(
    pair: FrameView,
    max_depth: usize,
    store: Seq<LinkRecord>,
    world: World,
    now: Seq<char>,
    fuel: nat,
)
    requires
        pair.kind is Pair,
        !(source_at(world, pair.source) is Missing),
        target_at(world, pair.target) is Absent,
        fuel >= 3,
    ensures
        ({
            let (walker, ledger, disk) = walk(
                seq![pair],
                false,
                max_depth,
                store,
                world,
                now,
                fuel,
            );
            &&& walker.awaiting is Nothing
            &&& walker.pending.len() == 0
            &&& ledger == upsert_spec(store, pair.target, pair.source, now)
            &&& disk == World {
                targets: world.targets.insert(components(pair.target), TargetKind::Symlink),
                ..world
            }
            &&& walker.report == seq![
                OutcomeView {
                    source: pair.source,
                    target: pair.target,
                    result: WalkResult::Linked,
                },
            ]
        }),
{
    let begin = advance_spec(fresh(seq![pair], false, max_depth)).0;
    assert(seq![pair].reverse() =~= seq![pair]);
    assert(begin.awaiting == Awaiting::Probe(pair));
    assert(begin.pending =~= Seq::empty());
    let (asked, ledger1, _) = step_spec(begin, store, answer(world, begin.awaiting), now);
    assert(asked.awaiting == Awaiting::Link(pair));
    let (done, ledger2, _) = step_spec(asked, ledger1, answer(world, asked.awaiting), now);
    let disk = effect(world, asked.awaiting);
    assert(done.awaiting is Nothing);
    assert(run(begin, store, world, now, fuel) == run(
        asked,
        ledger1,
        world,
        now,
        (fuel - 1) as nat,
    ));
    assert(run(asked, ledger1, world, now, (fuel - 1) as nat) == run(
        done,
        ledger2,
        disk,
        now,
        (fuel - 2) as nat,
    ));
    assert(done.report =~= seq![
        OutcomeView { source: pair.source, target: pair.target, result: WalkResult::Linked },
    ]);
}

/// A walk changes the disk only by putting links at free paths: the source
/// tree stays as it is, and whatever occupied a target path still does.
pub proof fn lemma_run_only_adds_links(
    walker: WalkerView,
    store: Seq<LinkRecord>,
    world: World,
    now: Seq<char>,
    fuel: nat,
)
    ensures
        grows_into(world, run(walker, store, world, now, fuel).2),
    decreases fuel,
{
    if fuel > 0 && !(walker.awaiting is Nothing) {
        let (next, ledger, _) = step_spec(walker, store, answer(world, walker.awaiting), now);
        let after = effect(world, walker.awaiting);
        lemma_run_only_adds_links(next, ledger, after, now, (fuel - 1) as nat);
        let end = run(next, ledger, after, now, (fuel - 1) as nat).2;
        assert forall|path: Seq<char>|
            !(#[trigger] target_at(world, path) is Absent) implies target_at(end, path)
            == target_at(world, path) by {
            assert(target_at(after, path) == target_at(world, path));
        }
    }
}

/// A simulated walk leaves the ledger and the disk exactly as they were.
pub proof fn lemma_simulated_run_changes_nothing(
    walker: WalkerView,
    store: Seq<LinkRecord>,
    world: World,
    now: Seq<char>,
    fuel: nat,
)
    requires
        walker.simulate,
        !(walker.awaiting is Link),
    ensures
        run(walker, store, world, now, fuel).1 == store,
        run(walker, store, world, now, fuel).2 == world,
    decreases fuel,
{
    if fuel > 0 && !(walker.awaiting is Nothing) {
        let (next, ledger, _) = step_spec(walker, store, answer(world, walker.awaiting), now);
        lemma_simulated_run_changes_nothing(next, ledger, world, now, (fuel - 1) as nat);
    }
}

/// A simulated walk over any roots leaves the ledger and the disk exactly as
/// they were, however long it runs.
pub proof fn lemma_simulated_walk_changes_nothing(
    roots: Seq<FrameView>,
    max_depth: usize,
    store: Seq<LinkRecord>,
    world: World,
    now: Seq<char>,
    fuel: nat,
)
    ensures
        walk(roots, true, max_depth, store, world, now, fuel).1 == store,
        walk(roots, true, max_depth, store, world, now, fuel).2 == world,
{
    lemma_simulated_run_changes_nothing(
        advance_spec(fresh(roots, true, max_depth)).0,
        store,
        world,
        now,
        fuel,
    );
}

/// A walker that follows in the steps of a walk that has run to its end finds
/// nothing to do. Let `first` run to its end from `world`; let `second` have
/// the same stack and wait for the same thing, and let it run on the disk as
/// the first run left it. Then the second run also comes to its end, and
/// changes neither its ledger nor the disk.
pub proof fn lemma_rerun_is_quiet(
    first: WalkerView,
    store: Seq<LinkRecord>,
    world: World,
    now: Seq<char>,
    fuel: nat,
    second: WalkerView,
    ledger: Seq<LinkRecord>,
    again: Seq<char>,
    more: nat,
)
    requires
        !first.simulate,
        !second.simulate,
        second.pending == first.pending,
        second.awaiting == first.awaiting,
        second.max_depth == first.max_depth,
        !(first.awaiting is Link),
        run(first, store, world, now, fuel).0.awaiting is Nothing,
        more >= fuel,
    ensures
        ({
            let end = run(first, store, world, now, fuel).2;
            let rerun = run(second, ledger, end, again, more);
            &&& rerun.0.awaiting is Nothing
            &&& rerun.1 == ledger
            &&& rerun.2 == end
        }),
    decreases fuel,
{
    let end = run(first, store, world, now, fuel).2;
    if !(first.awaiting is Nothing) {
        // One step of each run. Neither changes the disk, since neither
        // walker waits for a link.
        assert(fuel > 0);
        let (next1, store1, _) = step_spec(first, store, answer(world, first.awaiting), now);
        assert(effect(world, first.awaiting) == world);
        assert(run(first, store, world, now, fuel) == run(
            next1,
            store1,
            world,
            now,
            (fuel - 1) as nat,
        ));
        lemma_run_only_adds_links(first, store, world, now, fuel);
        let (next2, ledger2, _) = step_spec(second, ledger, answer(end, second.awaiting), again);
        assert(effect(end, second.awaiting) == end);
        assert(run(second, ledger, end, again, more) == run(
            next2,
            ledger2,
            end,
            again,
            (more - 1) as nat,
        ));
        match first.awaiting {
            Awaiting::Probe(frame) => {
                let source = source_at(world, frame.source);
                let target = target_at(world, frame.target);
                assert(source_at(end, frame.source) == source);
                if decide_spec(source, target) is CreateLink {
                    // The first run takes a second step and creates the
                    // link. The link still stands at the end, so the second
                    // run finds the path occupied and skips the pair.
                    assert(next1.awaiting == Awaiting::Link(frame));
                    assert(fuel > 1);
                    let (next1b, store1b, _) = step_spec(
                        next1,
                        store1,
                        answer(world, next1.awaiting),
                        now,
                    );
                    let world1b = effect(world, next1.awaiting);
                    assert(run(next1, store1, world, now, (fuel - 1) as nat) == run(
                        next1b,
                        store1b,
                        world1b,
                        now,
                        (fuel - 2) as nat,
                    ));
                    lemma_run_only_adds_links(next1b, store1b, world1b, now, (fuel - 2) as nat);
                    assert(target_at(world1b, frame.target) is Symlink);
                    assert(target_at(end, frame.target) is Symlink);
                    assert(ledger2 == ledger);
                    lemma_rerun_is_quiet(
                        next1b,
                        store1b,
                        world1b,
                        now,
                        (fuel - 2) as nat,
                        next2,
                        ledger2,
                        again,
                        (more - 1) as nat,
                    );
                } else {
                    // What occupied the path still does, so the second run
                    // decides as the first one did.
                    if !(source is Missing) {
                        assert(!(target is Absent));
                        assert(target_at(end, frame.target) == target);
                    }
                    assert(ledger2 == ledger);
                    lemma_rerun_is_quiet(
                        next1,
                        store1,
                        world,
                        now,
                        (fuel - 1) as nat,
                        next2,
                        ledger2,
                        again,
                        (more - 1) as nat,
                    );
                }
            },
            Awaiting::Listing(frame) => {
                // The source tree has not changed: both see the same names.
                assert(answer(end, second.awaiting) == answer(world, first.awaiting));
                lemma_rerun_is_quiet(
                    next1,
                    store1,
                    world,
                    now,
                    (fuel - 1) as nat,
                    next2,
                    ledger2,
                    again,
                    (more - 1) as nat,
                );
            },
            _ => {},
        }
    }
}

/// Walking twice is walking once. Where a walk over `roots` has run to its
/// end, a second walk over the same roots, on the ledger and the disk as the
/// first one left them, also runs to its end and changes neither: it adds no
/// record, stamps none, and creates no link.
pub proof fn lemma_second_walk_changes_nothing(
    roots: Seq<FrameView>,
    max_depth: usize,
    store: Seq<LinkRecord>,
    world: World,
    now: Seq<char>,
    again: Seq<char>,
    fuel: nat,
)
    requires
        walk(roots, false, max_depth, store, world, now, fuel).0.awaiting is Nothing,
    ensures
        ({
            let first = walk(roots, false, max_depth, store, world, now, fuel);
            let second = walk(roots, false, max_depth, first.1, first.2, again, fuel);
            &&& second.0.awaiting is Nothing
            &&& second.1 == first.1
            &&& second.2 == first.2
        }),
{
    let begin = advance_spec(fresh(roots, false, max_depth)).0;
    lemma_rerun_is_quiet(
        begin,
        store,
        world,
        now,
        fuel,
        begin,
        run(begin, store, world, now, fuel).1,
        again,
        fuel,
    );
}

/// The children of a directory below `root` lie below `root`.
proof fn lemma_children_under(parent: FrameView, names: Seq<Seq<char>>, root: Seq<char>)
    requires
        within(parent.source, root),
        forall|i: int| 0 <= i < names.len() ==> !is_absolute_spec(#[trigger] names[i]),
    ensures
        forall|k: int|
            0 <= k < child_frames(parent, names).len() ==> within(
                (#[trigger] child_frames(parent, names)[k]).source,
                root,
            ),
    decreases names.len(),
{
    if names.len() > 0 {
        let rest = names.drop_first();
        assert forall|i: int| 0 <= i < rest.len() implies !is_absolute_spec(#[trigger] rest[i]) by {
            assert(rest[i] == names[i + 1]);
        }
        lemma_children_under(parent, rest, root);
        assert(!is_absolute_spec(names[0]));
        lemma_join_relative(parent.source, names.first());
        lemma_within_chain(
            join_spec(parent.source, names.first()),
            parent.source,
            root,
        );
    }
}

/// Recording a link that was not recorded, and whose target lies below
/// `root`, does not show once what lies below `root` is removed.
proof fn lemma_outside_ignores_fresh(
    store: Seq<LinkRecord>,
    link: Seq<char>,
    target: Seq<char>,
    now: Seq<char>,
    root: Seq<char>,
)
    requires
        !tracks(store, link),
        within(target, root),
    ensures
        outside(upsert_spec(store, link, target, now), root) == outside(store, root),
{
    let after = store.push(fresh_record(link, target, now));
    assert(after.drop_last() =~= store);
}

/// Letting go of a root undoes what a walk below it has recorded. Let every
/// frame of the walker have its source at or below `root`, let no listing
/// hold an absolute path, and let every recorded link stand on the disk.
/// Then the ledger at the end of the run, with the records under `root`
/// removed, is the ledger from before the run with the records under `root`
/// removed: every record that the run wrote points into `root`, and no
/// record that points elsewhere was touched.
pub proof fn lemma_run_records_under_root(
    walker: WalkerView,
    store: Seq<LinkRecord>,
    world: World,
    now: Seq<char>,
    fuel: nat,
    root: Seq<char>,
)
    requires
        sources_under(walker, root),
        relative_listings(world),
        recorded_links_exist(store, world),
    ensures
        outside(run(walker, store, world, now, fuel).1, root) == outside(store, root),
        recorded_links_exist(
            run(walker, store, world, now, fuel).1,
            run(walker, store, world, now, fuel).2,
        ),
    decreases fuel,
{
    if fuel > 0 && !(walker.awaiting is Nothing) {
        let event = answer(world, walker.awaiting);
        let (next, ledger, _) = step_spec(walker, store, event, now);
        let after = effect(world, walker.awaiting);
        assert(relative_listings(after));
        match walker.awaiting {
            Awaiting::Listing(frame) => {
                if let EventView::Listed { names } = event {
                    assert forall|i: int| 0 <= i < names.len() implies !is_absolute_spec(
                        #[trigger] names[i],
                    ) by {
                        assert(names[i] == world.listings[frame.source][i]);
                    }
                    lemma_children_under(frame, names, root);
                }
            },
            Awaiting::Link(frame) => {
                if event is Linked && !walker.simulate {
                    assert(!tracks(store, frame.target)) by {
                        if tracks(store, frame.target) {
                            let i = choose|i: int|
                                0 <= i < store.len() && same_path_spec(
                                    store[i].link,
                                    frame.target,
                                );
                            assert(!(target_at(world, store[i].link) is Absent));
                        }
                    }
                    lemma_outside_ignores_fresh(store, frame.target, frame.source, now, root);
                }
            },
            _ => {},
        }
        assert(outside(ledger, root) == outside(store, root));
        assert(recorded_links_exist(ledger, after)) by {
            assert forall|i: int| 0 <= i < ledger.len() implies !(target_at(
                after,
                (#[trigger] ledger[i]).link,
            ) is Absent) by {
                if i < store.len() {
                    assert(ledger[i].link == store[i].link);
                    assert(!(target_at(world, store[i].link) is Absent));
                }
            }
        }
        assert(sources_under(next, root)) by {
            assert forall|i: int| 0 <= i < next.pending.len() implies within(
                (#[trigger] next.pending[i]).source,
                root,
            ) by {
                if i < walker.pending.len() {
                    assert(next.pending[i] == walker.pending[i]);
                } else {
                    if let Awaiting::Listing(frame) = walker.awaiting {
                        if let EventView::Listed { names } = event {
                            let children = child_frames(frame, names);
                            assert(next.pending[i] == children[i - walker.pending.len()]);
                        }
                    }
                }
            }
            if walker.pending.len() > 0 {
                assert(within(walker.pending[walker.pending.len() - 1].source, root));
            }
        }
        lemma_run_records_under_root(next, ledger, after, now, (fuel - 1) as nat, root);
    }
}

/// Letting go of an entry undoes what a walk over the entry has recorded.
/// Let every root of the walk have its source at or below `root`, let no
/// listing hold an absolute path, and let every recorded link stand on the
/// disk. Then the ledger after the walk, with the records under `root`
/// removed, is the ledger from before the walk with those records removed.
pub proof fn lemma_walk_records_under_root(
    roots: Seq<FrameView>,
    simulate: bool,
    max_depth: usize,
    store: Seq<LinkRecord>,
    world: World,
    now: Seq<char>,
    fuel: nat,
    root: Seq<char>,
)
    requires
        forall|i: int| 0 <= i < roots.len() ==> within((#[trigger] roots[i]).source, root),
        relative_listings(world),
        recorded_links_exist(store, world),
    ensures
        outside(walk(roots, simulate, max_depth, store, world, now, fuel).1, root) == outside(
            store,
            root,
        ),
{
    let begin = advance_spec(fresh(roots, simulate, max_depth)).0;
    let stack = roots.reverse();
    assert forall|i: int| 0 <= i < stack.len() implies within(
        (#[trigger] stack[i]).source,
        root,
    ) by {
        assert(stack[i] == roots[roots.len() - 1 - i]);
    }
    assert(sources_under(begin, root)) by {
        assert forall|i: int| 0 <= i < begin.pending.len() implies within(
            (#[trigger] begin.pending[i]).source,
            root,
        ) by {
            assert(begin.pending[i] == stack[i]);
        }
        if stack.len() > 0 {
            assert(within(stack[stack.len() - 1].source, root));
        }
    }
    lemma_run_records_under_root(begin, store, world, now, fuel, root);
}

/// A simulation goes the way of the real walk. Let `real` run to its end on
/// `disk`, and let `sim` simulate on `origin`, the disk as it was before any
/// link was made; let the two hold the same stack and wait for the same
/// thing; let `disk` be `origin` with the links that `sim` has planned; and
/// let the report of `sim` be that of `real` in the words of a simulation.
/// Then `sim` also comes to its end, and its report is that of `real` in the
/// words of a simulation.
pub proof fn lemma_simulation_follows(
    real_walker: WalkerView,
    store: Seq<LinkRecord>,
    disk: World,
    now: Seq<char>,
    fuel: nat,
    sim: WalkerView,
    ledger: Seq<LinkRecord>,
    origin: World,
    later: Seq<char>,
    more: nat,
)
    requires
        !real_walker.simulate,
        sim.simulate,
        sim.pending == real_walker.pending,
        sim.awaiting == real_walker.awaiting,
        sim.max_depth == real_walker.max_depth,
        !(real_walker.awaiting is Link),
        sim.report == foreseen(real_walker.report),
        overlays(origin, sim.planned, sim.freed, disk),
        run(real_walker, store, disk, now, fuel).0.awaiting is Nothing,
        more >= fuel,
    ensures
        run(sim, ledger, origin, later, more).0.awaiting is Nothing,
        run(sim, ledger, origin, later, more).0.report == foreseen(
            run(real_walker, store, disk, now, fuel).0.report,
        ),
    decreases fuel,
{
    if !(real_walker.awaiting is Nothing) {
        assert(fuel > 0);
        let (next1, store1, _) = step_spec(
            real_walker,
            store,
            answer(disk, real_walker.awaiting),
            now,
        );
        assert(effect(disk, real_walker.awaiting) == disk);
        assert(run(real_walker, store, disk, now, fuel) == run(
            next1,
            store1,
            disk,
            now,
            (fuel - 1) as nat,
        ));
        let (next2, ledger2, _) = step_spec(sim, ledger, answer(origin, sim.awaiting), later);
        assert(effect(origin, sim.awaiting) == origin);
        assert(run(sim, ledger, origin, later, more) == run(
            next2,
            ledger2,
            origin,
            later,
            (more - 1) as nat,
        ));
        match real_walker.awaiting {
            Awaiting::Probe(frame) => {
                let source = source_at(disk, frame.source);
                let target = target_at(disk, frame.target);
                assert(source_at(origin, frame.source) == source);
                // Where the real walk finds a link that it has made, the
                // simulation remembers having planned it: both see the same.
                assert(seen_spec(sim, frame, target_at(origin, frame.target)) == target);
                if decide_spec(source, target) is CreateLink {
                    // The real walk takes a second step and creates the
                    // link; the simulation plans it and moves on.
                    assert(next1.awaiting == Awaiting::Link(frame));
                    assert(fuel > 1);
                    let (next1b, store1b, _) = step_spec(
                        next1,
                        store1,
                        answer(disk, next1.awaiting),
                        now,
                    );
                    let disk1b = effect(disk, next1.awaiting);
                    assert(run(next1, store1, disk, now, (fuel - 1) as nat) == run(
                        next1b,
                        store1b,
                        disk1b,
                        now,
                        (fuel - 2) as nat,
                    ));
                    assert(next2.report =~= foreseen(next1b.report));
                    assert(overlays(origin, next2.planned, sim.freed, disk1b)) by {
                        assert forall|path: Seq<char>| #[trigger]
                            target_at(disk1b, path) == if place_among(next2.planned, path) {
                                TargetKind::Symlink
                            } else if target_at(origin, path) is Symlink && place_among(
                                sim.freed,
                                path,
                            ) {
                                TargetKind::Absent
                            } else {
                                target_at(origin, path)
                            } by {
                            let before = target_at(disk, path);
                            if same_path_spec(path, frame.target) {
                                assert(same_path_spec(
                                    next2.planned[sim.planned.len() as int],
                                    path,
                                ));
                            } else {
                                if place_among(next2.planned, path) {
                                    let k = choose|k: int|
                                        0 <= k < next2.planned.len() && same_path_spec(
                                            #[trigger] next2.planned[k],
                                            path,
                                        );
                                    assert(same_path_spec(sim.planned[k], path));
                                }
                                if place_among(sim.planned, path) {
                                    let k = choose|k: int|
                                        0 <= k < sim.planned.len() && same_path_spec(
                                            #[trigger] sim.planned[k],
                                            path,
                                        );
                                    assert(same_path_spec(next2.planned[k], path));
                                }
                            }
                        }
                    }
                    lemma_simulation_follows(
                        next1b,
                        store1b,
                        disk1b,
                        now,
                        (fuel - 2) as nat,
                        next2,
                        ledger2,
                        origin,
                        later,
                        (more - 1) as nat,
                    );
                } else {
                    assert(next2.report =~= foreseen(next1.report));
                    lemma_simulation_follows(
                        next1,
                        store1,
                        disk,
                        now,
                        (fuel - 1) as nat,
                        next2,
                        ledger2,
                        origin,
                        later,
                        (more - 1) as nat,
                    );
                }
            },
            Awaiting::Listing(frame) => {
                assert(answer(origin, sim.awaiting) == answer(disk, real_walker.awaiting));
                assert(next2.report =~= foreseen(next1.report));
                lemma_simulation_follows(
                    next1,
                    store1,
                    disk,
                    now,
                    (fuel - 1) as nat,
                    next2,
                    ledger2,
                    origin,
                    later,
                    (more - 1) as nat,
                );
            },
            _ => {},
        }
    }
}

/// A simulation reports what the real walk does, and changes nothing. Where
/// the real walk over `roots` runs to its end, the simulated walk over the
/// same roots, from the same ledger and disk, also runs to its end; it
/// leaves the ledger and the disk exactly as they were; and its report is
/// that of the real walk, line by line, with "would create" in place of
/// "created".
pub proof fn lemma_simulation_reports_the_real_walk(
    roots: Seq<FrameView>,
    max_depth: usize,
    store: Seq<LinkRecord>,
    world: World,
    now: Seq<char>,
    later: Seq<char>,
    fuel: nat,
)
    requires
        walk(roots, false, max_depth, store, world, now, fuel).0.awaiting is Nothing,
    ensures
        ({
            let actual = walk(roots, false, max_depth, store, world, now, fuel);
            let simulated = walk(roots, true, max_depth, store, world, later, fuel);
            &&& simulated.0.awaiting is Nothing
            &&& simulated.0.report == foreseen(actual.0.report)
            &&& simulated.1 == store
            &&& simulated.2 == world
        }),
{
    let begin = advance_spec(fresh(roots, false, max_depth)).0;
    let rehearse = advance_spec(fresh(roots, true, max_depth)).0;
    assert(rehearse.report =~= foreseen(begin.report));
    assert(overlays(world, rehearse.planned, rehearse.freed, world));
    lemma_simulation_follows(begin, store, world, now, fuel, rehearse, store, world, later, fuel);
    lemma_simulated_walk_changes_nothing(roots, max_depth, store, world, later, fuel);
}

/// The cost of a stack with more frames on top is the cost of the stack and
/// that of the frames on top.
proof fn lemma_stack_cost_add(
    world: World,
    stack: Seq<FrameView>,
    top: Seq<FrameView>,
    max_depth: usize,
)
    ensures
        stack_cost(world, stack + top, max_depth) == stack_cost(world, stack, max_depth)
            + stack_cost(world, top, max_depth),
    decreases top.len(),
{
    if top.len() == 0 {
        assert(stack + top =~= stack);
    } else {
        assert((stack + top).drop_last() =~= stack + top.drop_last());
        assert((stack + top).last() == top.last());
        lemma_stack_cost_add(world, stack, top.drop_last(), max_depth);
    }
}

/// The frames of the children of a directory cost what the names of the
/// children cost.
proof fn lemma_children_cost(
    world: World,
    parent: FrameView,
    names: Seq<Seq<char>>,
    max_depth: usize,
)
    ensures
        stack_cost(world, child_frames(parent, names), max_depth) == names_cost(
            world,
            parent.source,
            deeper(parent.depth),
            max_depth,
            names,
        ),
    decreases names.len(),
{
    if names.len() > 0 {
        lemma_children_cost(world, parent, names.drop_first(), max_depth);
        if names.first() != metadata_dir() {
            let below = child_frames(parent, names.drop_first());
            let child = child_frame(parent, names.first());
            assert(below.push(child).drop_last() =~= below);
        }
    }
}

/// A change of what occupies the target paths does not change the cost.
proof fn lemma_cost_ignores_targets(early: World, late: World, walker: WalkerView)
    requires
        late.sources == early.sources,
        late.listings == early.listings,
    ensures
        walker_cost(late, walker) == walker_cost(early, walker),
{
    lemma_stack_cost_ignores_targets(early, late, walker.pending, walker.max_depth);
    match walker.awaiting {
        Awaiting::Probe(frame) => {
            lemma_pair_cost_ignores_targets(
                early,
                late,
                frame.source,
                frame.depth,
                walker.max_depth,
            );
        },
        Awaiting::Listing(frame) => {
            if early.listings.contains_key(frame.source) {
                lemma_names_cost_ignores_targets(
                    early,
                    late,
                    frame.source,
                    deeper(frame.depth),
                    walker.max_depth,
                    early.listings[frame.source],
                );
            }
        },
        _ => {},
    }
}

/// A change of what occupies the target paths does not change the cost of a
/// stack.
proof fn lemma_stack_cost_ignores_targets(
    early: World,
    late: World,
    stack: Seq<FrameView>,
    max_depth: usize,
)
    requires
        late.sources == early.sources,
        late.listings == early.listings,
    ensures
        stack_cost(late, stack, max_depth) == stack_cost(early, stack, max_depth),
    decreases stack.len(),
{
    if stack.len() > 0 {
        lemma_stack_cost_ignores_targets(early, late, stack.drop_last(), max_depth);
        let frame = stack.last();
        lemma_pair_cost_ignores_targets(early, late, frame.source, frame.depth, max_depth);
        if early.listings.contains_key(frame.source) {
            lemma_names_cost_ignores_targets(
                early,
                late,
                frame.source,
                deeper(frame.depth),
                max_depth,
                early.listings[frame.source],
            );
        }
    }
}

/// A change of what occupies the target paths does not change the cost of a
/// pair.
proof fn lemma_pair_cost_ignores_targets(
    early: World,
    late: World,
    source: Seq<char>,
    depth: usize,
    max_depth: usize,
)
    requires
        late.sources == early.sources,
        late.listings == early.listings,
    ensures
        pair_cost(late, source, depth, max_depth) == pair_cost(early, source, depth, max_depth),
    decreases room(depth, max_depth), 0nat,
{
    if depth < max_depth && early.listings.contains_key(source) {
        lemma_names_cost_ignores_targets(
            early,
            late,
            source,
            (depth + 1) as usize,
            max_depth,
            early.listings[source],
        );
    }
}

/// A change of what occupies the target paths does not change the cost of
/// the children of a directory.
proof fn lemma_names_cost_ignores_targets(
    early: World,
    late: World,
    parent: Seq<char>,
    depth: usize,
    max_depth: usize,
    names: Seq<Seq<char>>,
)
    requires
        late.sources == early.sources,
        late.listings == early.listings,
    ensures
        names_cost(late, parent, depth, max_depth, names) == names_cost(
            early,
            parent,
            depth,
            max_depth,
            names,
        ),
    decreases room(depth, max_depth), 1 + names.len(),
{
    if names.len() > 0 {
        lemma_names_cost_ignores_targets(early, late, parent, depth, max_depth, names.drop_first());
        if names.first() != metadata_dir() {
            lemma_pair_cost_ignores_targets(
                early,
                late,
                join_spec(parent, names.first()),
                depth,
                max_depth,
            );
        }
    }
}

/// Each step uses up at least one unit of the cost.
proof fn lemma_step_costs(walker: WalkerView, store: Seq<LinkRecord>, world: World, now: Seq<char>)
    requires
        !(walker.awaiting is Nothing),
    ensures
        walker_cost(world, step_spec(walker, store, answer(world, walker.awaiting), now).0)
            < walker_cost(world, walker),
        step_spec(walker, store, answer(world, walker.awaiting), now).0.max_depth
            == walker.max_depth,
{
    let event = answer(world, walker.awaiting);
    let (next, _, _) = step_spec(walker, store, event, now);
    let max_depth = walker.max_depth;
    let stack = walker.pending;
    let (settled, _, request) = settle_spec(walker, store, event, now);
    if request is Some {
        match walker.awaiting {
            Awaiting::Probe(frame) => {
                if next.awaiting is Listing {
                    assert(frame.depth < max_depth);
                    assert(deeper(frame.depth) == (frame.depth + 1) as usize);
                }
            },
            _ => {},
        }
    } else {
        let resting = WalkerView { awaiting: Awaiting::Nothing, ..settled };
        if let Awaiting::Listing(frame) = walker.awaiting {
            if let EventView::Listed { names } = event {
                lemma_children_cost(world, frame, names, max_depth);
                lemma_stack_cost_add(world, stack, child_frames(frame, names), max_depth);
            }
        }
        assert(walker_cost(world, resting) < walker_cost(world, walker));
        assert(walker_cost(world, next) == walker_cost(world, resting)) by {
            if resting.pending.len() > 0 {
                let frame = resting.pending.last();
                assert(next.pending == resting.pending.drop_last());
            }
        }
    }
}

/// Every walk ends. A walker that is driven for as many steps as its cost
/// allows, or more, asks for nothing more at the end: the depth limit and
/// the finite listings bound the walk, whatever links stand in the source
/// tree.
pub proof fn lemma_run_ends(
    walker: WalkerView,
    store: Seq<LinkRecord>,
    world: World,
    now: Seq<char>,
    fuel: nat,
)
    requires
        fuel >= walker_cost(world, walker),
    ensures
        run(walker, store, world, now, fuel).0.awaiting is Nothing,
    decreases fuel,
{
    if !(walker.awaiting is Nothing) {
        lemma_step_costs(walker, store, world, now);
        let (next, ledger, _) = step_spec(walker, store, answer(world, walker.awaiting), now);
        let after = effect(world, walker.awaiting);
        lemma_cost_ignores_targets(world, after, next);
        lemma_run_ends(next, ledger, after, now, (fuel - 1) as nat);
    }
}

/// Every walk over any roots ends within its cost, real or simulated.
pub proof fn lemma_walk_ends(
    roots: Seq<FrameView>,
    simulate: bool,
    max_depth: usize,
    store: Seq<LinkRecord>,
    world: World,
    now: Seq<char>,
    fuel: nat,
)
    requires
        fuel >= walk_cost(world, roots, max_depth),
    ensures
        walk(roots, simulate, max_depth, store, world, now, fuel).0.awaiting is Nothing,
{
    let begin = advance_spec(fresh(roots, simulate, max_depth)).0;
    let other = advance_spec(fresh(roots, false, max_depth)).0;
    assert(walker_cost(world, begin) == walker_cost(world, other));
    lemma_run_ends(begin, store, world, now, fuel);
}

/// Walking twice is walking once, for every walk. Let the first walk over
/// `roots` have all the steps that its cost allows. A second walk over the
/// same roots, on the ledger and the disk as the first one left them, comes
/// to its end and changes neither: it adds no record, stamps none, and
/// creates no link.
pub proof fn lemma_walking_twice_is_walking_once(
    roots: Seq<FrameView>,
    max_depth: usize,
    store: Seq<LinkRecord>,
    world: World,
    now: Seq<char>,
    again: Seq<char>,
    fuel: nat,
)
    requires
        fuel >= walk_cost(world, roots, max_depth),
    ensures
        ({
            let first = walk(roots, false, max_depth, store, world, now, fuel);
            let second = walk(roots, false, max_depth, first.1, first.2, again, fuel);
            &&& first.0.awaiting is Nothing
            &&& second.0.awaiting is Nothing
            &&& second.1 == first.1
            &&& second.2 == first.2
        }),
{
    lemma_walk_ends(roots, false, max_depth, store, world, now, fuel);
    lemma_second_walk_changes_nothing(roots, max_depth, store, world, now, again, fuel);
}

/// A simulation reports what the real walk does, and changes nothing, for
/// every walk. Let both walks over `roots` have all the steps that the cost
/// allows. Both come to their end; the simulation leaves the ledger and the
/// disk exactly as they were; and its report is that of the real walk, line
/// by line, with "would create" in place of "created".
pub proof fn lemma_simulation_is_faithful(
    roots: Seq<FrameView>,
    max_depth: usize,
    store: Seq<LinkRecord>,
    world: World,
    now: Seq<char>,
    later: Seq<char>,
    fuel: nat,
)
    requires
        fuel >= walk_cost(world, roots, max_depth),
    ensures
        ({
            let actual = walk(roots, false, max_depth, store, world, now, fuel);
            let simulated = walk(roots, true, max_depth, store, world, later, fuel);
            &&& actual.0.awaiting is Nothing
            &&& simulated.0.awaiting is Nothing
            &&& simulated.0.report == foreseen(actual.0.report)
            &&& simulated.1 == store
            &&& simulated.2 == world
        }),
{
    lemma_walk_ends(roots, false, max_depth, store, world, now, fuel);
    lemma_simulation_reports_the_real_walk(roots, max_depth, store, world, now, later, fuel);
}

/// From the probe of a free target on, the run is: bind the pair with one
/// link, record it, and go on with what is left. Let a walker that is not
/// simulating wait for the probe of a pair whose source exists and whose
/// target path is free. Then two steps later a link stands at the target
/// path and nowhere else, the ledger has taken up the pair, nothing was put
/// on the stack, and the run goes on from there.
pub proof fn lemma_run_links_free_target(
    walker: WalkerView,
    store: Seq<LinkRecord>,
    world: World,
    now: Seq<char>,
    fuel: nat,
    frame: FrameView,
)
    requires
        walker.awaiting == Awaiting::Probe(frame),
        !walker.simulate,
        !(source_at(world, frame.source) is Missing),
        target_at(world, frame.target) is Absent,
        fuel >= 2,
    ensures
        run(walker, store, world, now, fuel) == run(
            moved_on(noting(walker, frame, WalkResult::Linked)),
            upsert_spec(store, frame.target, frame.source, now),
            with_link(world, frame.target),
            now,
            (fuel - 2) as nat,
        ),
{
    let (asked, ledger, _) = step_spec(walker, store, answer(world, walker.awaiting), now);
    assert(asked.awaiting == Awaiting::Link(frame));
    assert(run(walker, store, world, now, fuel) == run(
        asked,
        ledger,
        world,
        now,
        (fuel - 1) as nat,
    ));
    let (done, recorded, _) = step_spec(asked, ledger, answer(world, asked.awaiting), now);
    assert(run(asked, ledger, world, now, (fuel - 1) as nat) == run(
        done,
        recorded,
        effect(world, asked.awaiting),
        now,
        (fuel - 2) as nat,
    ));
    assert(done == moved_on(noting(walker, frame, WalkResult::Linked)));
}

/// From the probe of a directory that meets a real directory on, the run
/// is: list the source, put one pair per child on the stack, and go on. No
/// link is made at the directory's own path: the ledger, the disk and the
/// report are as they were.
pub proof fn lemma_run_enters_directory(
    walker: WalkerView,
    store: Seq<LinkRecord>,
    world: World,
    now: Seq<char>,
    fuel: nat,
    frame: FrameView,
)
    requires
        walker.awaiting == Awaiting::Probe(frame),
        !walker.simulate,
        source_at(world, frame.source) is Directory,
        target_at(world, frame.target) is Directory,
        frame.depth < walker.max_depth,
        world.listings.contains_key(frame.source),
        fuel >= 2,
    ensures
        run(walker, store, world, now, fuel) == run(
            moved_on(
                WalkerView {
                    pending: walker.pending + child_frames(frame, world.listings[frame.source]),
                    ..walker
                },
            ),
            store,
            world,
            now,
            (fuel - 2) as nat,
        ),
{
    let (asked, ledger, _) = step_spec(walker, store, answer(world, walker.awaiting), now);
    assert(asked.awaiting == Awaiting::Listing(frame));
    assert(run(walker, store, world, now, fuel) == run(
        asked,
        ledger,
        world,
        now,
        (fuel - 1) as nat,
    ));
    let (listed, after, _) = step_spec(asked, ledger, answer(world, asked.awaiting), now);
    assert(run(asked, ledger, world, now, (fuel - 1) as nat) == run(
        listed,
        after,
        world,
        now,
        (fuel - 2) as nat,
    ));
}

/// From the listing of a directory whose contents are to be linked on, the
/// run is: put one pair per child on the stack, and go on.
pub proof fn lemma_run_lists_contents(
    walker: WalkerView,
    store: Seq<LinkRecord>,
    world: World,
    now: Seq<char>,
    fuel: nat,
    frame: FrameView,
)
    requires
        walker.awaiting == Awaiting::Listing(frame),
        world.listings.contains_key(frame.source),
        fuel >= 1,
    ensures
        run(walker, store, world, now, fuel) == run(
            moved_on(
                WalkerView {
                    pending: walker.pending + child_frames(frame, world.listings[frame.source]),
                    ..walker
                },
            ),
            store,
            world,
            now,
            (fuel - 1) as nat,
        ),
{
}

/// From the probe of a pair that is skipped on, the run is: note the pair,
/// and go on. A pair is skipped where its source is missing, and where a
/// file or a symbolic link occupies its target path; nothing is changed. (A
/// simulation that was told that the link at the path is taken away first
/// takes the path to be free.)
pub proof fn lemma_run_skips(
    walker: WalkerView,
    store: Seq<LinkRecord>,
    world: World,
    now: Seq<char>,
    fuel: nat,
    frame: FrameView,
)
    requires
        walker.awaiting == Awaiting::Probe(frame),
        source_at(world, frame.source) is Missing || target_at(world, frame.target) is File
            || target_at(world, frame.target) is Symlink,
        !(walker.simulate && place_among(walker.freed, frame.target)),
        fuel >= 1,
    ensures
        run(walker, store, world, now, fuel) == run(
            moved_on(noting(walker, frame, skip_reason(source_at(world, frame.source)))),
            store,
            world,
            now,
            (fuel - 1) as nat,
        ),
{
}

/// A directory that meets a real directory is entered, and its one child is
/// linked below. Let the walk be over one pair of a source directory and a
/// real directory, above the depth limit; let the source hold one entry,
/// which exists, and let its path below the target be free. Then the walk
/// ends after five steps; a link stands at the child's path below the
/// target and nowhere else, so that the target is still a real directory;
/// the ledger has taken up the child's pair and no other; and the report
/// holds one line.
pub proof fn lemma_child_of_real_directory_walk(
    pair: FrameView,
    name: Seq<char>,
    max_depth: usize,
    store: Seq<LinkRecord>,
    world: World,
    now: Seq<char>,
    fuel: nat,
)
    requires
        pair.kind is Pair,
        pair.depth < max_depth,
        source_at(world, pair.source) is Directory,
        target_at(world, pair.target) is Directory,
        world.listings.contains_key(pair.source),
        world.listings[pair.source] == seq![name],
        name != metadata_dir(),
        !(source_at(world, child_frame(pair, name).source) is Missing),
        target_at(world, child_frame(pair, name).target) is Absent,
        fuel >= 5,
    ensures
        ({
            let child = child_frame(pair, name);
            let (walker, ledger, disk) = walk(
                seq![pair],
                false,
                max_depth,
                store,
                world,
                now,
                fuel,
            );
            &&& walker.awaiting is Nothing
            &&& walker.pending.len() == 0
            &&& ledger == upsert_spec(store, child.target, child.source, now)
            &&& disk == with_link(world, child.target)
            &&& target_at(disk, pair.target) is Directory
            &&& walker.report == seq![
                OutcomeView {
                    source: child.source,
                    target: child.target,
                    result: WalkResult::Linked,
                },
            ]
        }),
{
    let child = child_frame(pair, name);
    let begin = advance_spec(fresh(seq![pair], false, max_depth)).0;
    assert(seq![pair].reverse() =~= seq![pair]);
    assert(begin.pending =~= Seq::empty());
    lemma_run_enters_directory(begin, store, world, now, fuel, pair);
    let names = world.listings[pair.source];
    assert(names.drop_first() =~= Seq::<Seq<char>>::empty());
    assert(child_frames(pair, names) =~= seq![child]) by {
        reveal_with_fuel(child_frames, 2);
    }
    let entered = moved_on(WalkerView { pending: begin.pending + seq![child], ..begin });
    assert((begin.pending + seq![child]).drop_last() =~= Seq::<FrameView>::empty());
    assert(entered.awaiting == Awaiting::Probe(child));
    lemma_run_links_free_target(entered, store, world, now, (fuel - 2) as nat, child);
    let done = moved_on(noting(entered, child, WalkResult::Linked));
    assert(done.awaiting is Nothing);
    assert(done.report =~= seq![
        OutcomeView { source: child.source, target: child.target, result: WalkResult::Linked },
    ]);
}

/// The contents of a directory are linked, not the directory. Let the walk
/// be over the contents of a source directory that holds two entries, both
/// of which exist, and let their paths below the target be free and name two
/// places. Then the walk ends after five steps; each entry is bound by one
/// link at its own path below the target, a directory as a whole; nothing
/// else on the disk has changed; the ledger has taken up the two pairs, the
/// first entry first; and the report holds the two lines.
pub proof fn lemma_contents_walk(
    root: FrameView,
    first: Seq<char>,
    second: Seq<char>,
    max_depth: usize,
    store: Seq<LinkRecord>,
    world: World,
    now: Seq<char>,
    fuel: nat,
)
    requires
        root.kind is Contents,
        world.listings.contains_key(root.source),
        world.listings[root.source] == seq![first, second],
        first != metadata_dir(),
        second != metadata_dir(),
        !(source_at(world, child_frame(root, first).source) is Missing),
        !(source_at(world, child_frame(root, second).source) is Missing),
        target_at(world, child_frame(root, first).target) is Absent,
        target_at(world, child_frame(root, second).target) is Absent,
        !same_path_spec(child_frame(root, first).target, child_frame(root, second).target),
        fuel >= 5,
    ensures
        ({
            let one = child_frame(root, first);
            let two = child_frame(root, second);
            let (walker, ledger, disk) = walk(
                seq![root],
                false,
                max_depth,
                store,
                world,
                now,
                fuel,
            );
            &&& walker.awaiting is Nothing
            &&& walker.pending.len() == 0
            &&& ledger == upsert_spec(
                upsert_spec(store, one.target, one.source, now),
                two.target,
                two.source,
                now,
            )
            &&& disk == with_link(with_link(world, one.target), two.target)
            &&& walker.report == seq![
                OutcomeView { source: one.source, target: one.target, result: WalkResult::Linked },
                OutcomeView { source: two.source, target: two.target, result: WalkResult::Linked },
            ]
        }),
{
    let one = child_frame(root, first);
    let two = child_frame(root, second);
    let begin = advance_spec(fresh(seq![root], false, max_depth)).0;
    assert(seq![root].reverse() =~= seq![root]);
    assert(begin.pending =~= Seq::empty());
    assert(begin.awaiting == Awaiting::Listing(root));
    lemma_run_lists_contents(begin, store, world, now, fuel, root);
    let names = world.listings[root.source];
    assert(child_frames(root, names) =~= seq![two, one]) by {
        reveal_with_fuel(child_frames, 3);
        assert(names.drop_first() =~= seq![second]);
        assert(names.drop_first().drop_first() =~= Seq::<Seq<char>>::empty());
    }
    let stacked = begin.pending + seq![two, one];
    assert(stacked.drop_last() =~= seq![two]);
    let listed = moved_on(WalkerView { pending: stacked, ..begin });
    assert(listed.awaiting == Awaiting::Probe(one));
    lemma_run_links_free_target(listed, store, world, now, (fuel - 1) as nat, one);
    let store1 = upsert_spec(store, one.target, one.source, now);
    let world1 = with_link(world, one.target);
    let linked = moved_on(noting(listed, one, WalkResult::Linked));
    assert(listed.pending.drop_last() =~= Seq::<FrameView>::empty());
    assert(linked.awaiting == Awaiting::Probe(two));
    assert(target_at(world1, two.target) is Absent);
    lemma_run_links_free_target(linked, store1, world1, now, (fuel - 3) as nat, two);
    let done = moved_on(noting(linked, two, WalkResult::Linked));
    assert(done.awaiting is Nothing);
    assert(done.report =~= seq![
        OutcomeView { source: one.source, target: one.target, result: WalkResult::Linked },
        OutcomeView { source: two.source, target: two.target, result: WalkResult::Linked },
    ]);
}

/// Where the target holds a real directory, the walk goes inside. Let the
/// walk be over the contents of a source directory that holds two entries:
/// the first exists and its path below the target is free; the second is a
/// directory that meets a real directory below the target, above the depth
/// limit, and holds one entry, which exists and whose path is free. Then the
/// walk ends after seven steps; links stand at exactly two new places, the
/// path of the first entry and the path of the entry inside the directory;
/// the real directory is still a real directory, and whatever else it holds
/// was not asked about; the ledger has taken up the two pairs; and the
/// report holds the two lines.
pub proof fn lemma_contents_with_real_directory_walk(
    root: FrameView,
    first: Seq<char>,
    second: Seq<char>,
    inner: Seq<char>,
    max_depth: usize,
    store: Seq<LinkRecord>,
    world: World,
    now: Seq<char>,
    fuel: nat,
)
    requires
        root.kind is Contents,
        deeper(root.depth) < max_depth,
        world.listings.contains_key(root.source),
        world.listings[root.source] == seq![first, second],
        first != metadata_dir(),
        second != metadata_dir(),
        inner != metadata_dir(),
        !(source_at(world, child_frame(root, first).source) is Missing),
        target_at(world, child_frame(root, first).target) is Absent,
        source_at(world, child_frame(root, second).source) is Directory,
        target_at(world, child_frame(root, second).target) is Directory,
        world.listings.contains_key(child_frame(root, second).source),
        world.listings[child_frame(root, second).source] == seq![inner],
        !(source_at(world, child_frame(child_frame(root, second), inner).source) is Missing),
        target_at(world, child_frame(child_frame(root, second), inner).target) is Absent,
        !same_path_spec(
            child_frame(root, first).target,
            child_frame(child_frame(root, second), inner).target,
        ),
        fuel >= 7,
    ensures
        ({
            let one = child_frame(root, first);
            let two = child_frame(root, second);
            let inside = child_frame(two, inner);
            let (walker, ledger, disk) = walk(
                seq![root],
                false,
                max_depth,
                store,
                world,
                now,
                fuel,
            );
            &&& walker.awaiting is Nothing
            &&& walker.pending.len() == 0
            &&& ledger == upsert_spec(
                upsert_spec(store, one.target, one.source, now),
                inside.target,
                inside.source,
                now,
            )
            &&& disk == with_link(with_link(world, one.target), inside.target)
            &&& target_at(disk, two.target) is Directory
            &&& walker.report == seq![
                OutcomeView { source: one.source, target: one.target, result: WalkResult::Linked },
                OutcomeView {
                    source: inside.source,
                    target: inside.target,
                    result: WalkResult::Linked,
                },
            ]
        }),
{
    let one = child_frame(root, first);
    let two = child_frame(root, second);
    let inside = child_frame(two, inner);
    let begin = advance_spec(fresh(seq![root], false, max_depth)).0;
    assert(seq![root].reverse() =~= seq![root]);
    assert(begin.pending =~= Seq::empty());
    assert(begin.awaiting == Awaiting::Listing(root));
    lemma_run_lists_contents(begin, store, world, now, fuel, root);
    let names = world.listings[root.source];
    assert(child_frames(root, names) =~= seq![two, one]) by {
        reveal_with_fuel(child_frames, 3);
        assert(names.drop_first() =~= seq![second]);
        assert(names.drop_first().drop_first() =~= Seq::<Seq<char>>::empty());
    }
    let stacked = begin.pending + seq![two, one];
    assert(stacked.drop_last() =~= seq![two]);
    let listed = moved_on(WalkerView { pending: stacked, ..begin });
    assert(listed.awaiting == Awaiting::Probe(one));
    lemma_run_links_free_target(listed, store, world, now, (fuel - 1) as nat, one);
    let store1 = upsert_spec(store, one.target, one.source, now);
    let world1 = with_link(world, one.target);
    let linked = moved_on(noting(listed, one, WalkResult::Linked));
    assert(listed.pending.drop_last() =~= Seq::<FrameView>::empty());
    assert(linked.awaiting == Awaiting::Probe(two));
    assert(linked.pending =~= Seq::empty());
    assert(target_at(world1, two.target) is Directory);
    assert(target_at(world1, inside.target) is Absent);
    lemma_run_enters_directory(linked, store1, world1, now, (fuel - 3) as nat, two);
    let inner_names = world1.listings[two.source];
    assert(child_frames(two, inner_names) =~= seq![inside]) by {
        reveal_with_fuel(child_frames, 2);
        assert(inner_names.drop_first() =~= Seq::<Seq<char>>::empty());
    }
    let deeper_stack = linked.pending + seq![inside];
    assert(deeper_stack.drop_last() =~= Seq::<FrameView>::empty());
    let entered = moved_on(WalkerView { pending: deeper_stack, ..linked });
    assert(entered.awaiting == Awaiting::Probe(inside));
    lemma_run_links_free_target(entered, store1, world1, now, (fuel - 5) as nat, inside);
    let done = moved_on(noting(entered, inside, WalkResult::Linked));
    assert(done.awaiting is Nothing);
    assert(done.report =~= seq![
        OutcomeView { source: one.source, target: one.target, result: WalkResult::Linked },
        OutcomeView { source: inside.source, target: inside.target, result: WalkResult::Linked },
    ]);
}

/// A simulated update reports what the real update does. The real update
/// takes the old links of an entry away and then walks; the simulation walks
/// the disk with the old links still standing, but is told which links are
/// taken away first. Let the real walk run on the disk without those links,
/// from any ledger, and let both have all the steps that the cost allows.
/// Then both come to their end; the simulation leaves its ledger and the
/// disk exactly as they were; and its report is that of the real walk, line
/// by line, with "would create" in place of "created".
pub proof fn lemma_simulated_update_is_faithful(
    roots: Seq<FrameView>,
    max_depth: usize,
    freed: Seq<Seq<char>>,
    store: Seq<LinkRecord>,
    ledger: Seq<LinkRecord>,
    world: World,
    now: Seq<char>,
    later: Seq<char>,
    fuel: nat,
)
    requires
        fuel >= walk_cost(world, roots, max_depth),
    ensures
        ({
            let actual = walk(roots, false, max_depth, ledger, cleared(world, freed), now, fuel);
            let simulated = run(
                advance_spec(rehearsal(roots, max_depth, freed)).0,
                store,
                world,
                later,
                fuel,
            );
            &&& actual.0.awaiting is Nothing
            &&& simulated.0.awaiting is Nothing
            &&& simulated.0.report == foreseen(actual.0.report)
            &&& simulated.1 == store
            &&& simulated.2 == world
        }),
{
    let disk = cleared(world, freed);
    let begin = advance_spec(fresh(roots, false, max_depth)).0;
    let rehearse = advance_spec(rehearsal(roots, max_depth, freed)).0;
    lemma_cost_ignores_targets(world, disk, begin);
    lemma_walk_ends(roots, false, max_depth, ledger, disk, now, fuel);
    assert(rehearse.report =~= foreseen(begin.report));
    assert(overlays(world, rehearse.planned, rehearse.freed, disk)) by {
        assert forall|path: Seq<char>| #[trigger]
            target_at(disk, path) == if place_among(rehearse.planned, path) {
                TargetKind::Symlink
            } else if target_at(world, path) is Symlink && place_among(freed, path) {
                TargetKind::Absent
            } else {
                target_at(world, path)
            } by {
            if place_among(freed, path) {
                let k = choose|k: int|
                    0 <= k < freed.len() && same_path_spec(#[trigger] freed[k], path);
                assert(components(freed[k]) == components(path));
            }
        }
    }
    lemma_simulation_follows(begin, ledger, disk, now, fuel, rehearse, store, world, later, fuel);
    lemma_simulated_run_changes_nothing(rehearse, store, world, later, fuel);
}

} // verus!
