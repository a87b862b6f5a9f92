//! The walk over a source tree.
//!
//! The walker pairs nodes of a source tree with target paths and decides, node
//! by node, whether to bind the node with one link, to descend into it, or to
//! leave the target alone. It never touches the disk itself. It keeps a stack
//! of the pairs that are still to be looked at and asks its driver for one
//! thing at a time: to probe a pair, to list a directory, or to create a link.
//! The driver answers with what it found, and the walker then says what it
//! needs next. In simulation it never asks for a link and never writes to the
//! ledger; it only notes what it would have done, and remembers where it would
//! have put a link, so that it goes on as the real walk would. Where links
//! are to be taken away before the real walk, a simulation can be told so,
//! and takes their paths to be free.

use vstd::prelude::*;
use vstd::string::*;
use crate::paths;
use crate::planner::{decide, decide_spec, Action, SourceKind, TargetKind};
use crate::symlinks::{lemma_upsert, unique_links, upsert_spec, LinkRecord, SymlinkState};
use crate::select::views;
use crate::text::{copy_text, same_text};

verus! {

/// How a frame is to be treated.
#[derive(Debug, Clone, Copy, PartialEq, Eq, Structural)]
pub enum FrameKind {
    /// The source node itself is paired with the target path.
    Pair,
    /// The source is a directory whose children are linked into the target
    /// directory; no link is made for the directory itself.
    Contents,
}

/// A unit of work: a source node and the target path that belongs to it.
#[derive(Debug, Clone, PartialEq, Eq)]
pub struct Frame {
    /// The path of the source node.
    pub source: String,
    /// The path at which, or below which, links are made.
    pub target: String,
    /// How the frame is to be treated.
    pub kind: FrameKind,
    /// How many directories the walk has descended to reach this frame.
    pub depth: usize,
}

/// A frame as a mathematical value.
pub struct FrameView {
    pub source: Seq<char>,
    pub target: Seq<char>,
    pub kind: FrameKind,
    pub depth: usize,
}

impl View for Frame {
    type V = FrameView;

    open spec fn view(&self) -> FrameView {
        FrameView { source: self.source@, target: self.target@, kind: self.kind, depth: self.depth }
    }
}

/// How the work on a frame ended.
#[derive(Debug, Clone, Copy, PartialEq, Eq, Structural)]
pub enum WalkResult {
    /// A link was created and recorded.
    Linked,
    /// Simulation only: a link would have been created.
    WouldLink,
    /// Skipped: the source does not exist.
    SourceMissing,
    /// Skipped: the target path is occupied.
    Occupied,
    /// Skipped: the walk has reached its depth limit.
    TooDeep,
    /// The driver could not do what was asked.
    Failed,
}

/// One line of the walker's report.
#[derive(Debug, Clone, PartialEq, Eq)]
pub struct Outcome {
    /// The path of the source node.
    pub source: String,
    /// The target path.
    pub target: String,
    /// How the work on the pair ended.
    pub result: WalkResult,
}

/// A report line as a mathematical value.
pub struct OutcomeView {
    pub source: Seq<char>,
    pub target: Seq<char>,
    pub result: WalkResult,
}

impl View for Outcome {
    type V = OutcomeView;

    open spec fn view(&self) -> OutcomeView {
        OutcomeView { source: self.source@, target: self.target@, result: self.result }
    }
}

/// What the driver reports back to the walker.
#[derive(Debug, Clone, PartialEq, Eq)]
pub enum WalkEvent {
    /// The answer to a probe.
    Probed { source: SourceKind, target: TargetKind },
    /// The answer to a listing: the names of the entries of the directory.
    Listed { names: Vec<String> },
    /// The link that was asked for exists now.
    Linked,
    /// What was asked for could not be done.
    Failed,
}

/// An event as a mathematical value.
pub enum EventView {
    Probed { source: SourceKind, target: TargetKind },
    Listed { names: Seq<Seq<char>> },
    Linked,
    Failed,
}

impl View for WalkEvent {
    type V = EventView;

    open spec fn view(&self) -> EventView {
        match self {
            WalkEvent::Probed { source, target } => EventView::Probed {
                source: *source,
                target: *target,
            },
            WalkEvent::Listed { names } => EventView::Listed { names: views(names@) },
            WalkEvent::Linked => EventView::Linked,
            WalkEvent::Failed => EventView::Failed,
        }
    }
}

/// What the walker asks of its driver.
#[derive(Debug, Clone, PartialEq, Eq)]
pub enum WalkRequest {
    /// Find out what the source is and what occupies the target path.
    Probe { source: String, target: String },
    /// Read the names of the entries of a source directory.
    List { source: String },
    /// Create a symbolic link at `link` that points to `target`.
    Link { link: String, target: String },
    /// Nothing is left to do.
    Finished,
}

/// A request as a mathematical value.
pub enum RequestView {
    Probe { source: Seq<char>, target: Seq<char> },
    List { source: Seq<char> },
    Link { link: Seq<char>, target: Seq<char> },
    Finished,
}

impl View for WalkRequest {
    type V = RequestView;

    open spec fn view(&self) -> RequestView {
        match self {
            WalkRequest::Probe { source, target } => RequestView::Probe {
                source: source@,
                target: target@,
            },
            WalkRequest::List { source } => RequestView::List { source: source@ },
            WalkRequest::Link { link, target } => RequestView::Link {
                link: link@,
                target: target@,
            },
            WalkRequest::Finished => RequestView::Finished,
        }
    }
}

/// What the walker is waiting to hear about.
pub enum Awaiting {
    /// Nothing has been asked.
    Nothing,
    /// A probe of this frame.
    Probe(FrameView),
    /// The listing of this frame's source directory.
    Listing(FrameView),
    /// The creation of the link for this frame.
    Link(FrameView),
}

/// A walker as a mathematical value.
pub struct WalkerView {
    /// The frames still to be looked at; the last one is next.
    pub pending: Seq<FrameView>,
    /// What the driver was last asked.
    pub awaiting: Awaiting,
    /// Whether this is a simulation.
    pub simulate: bool,
    /// The depth from which the walk no longer descends.
    pub max_depth: usize,
    /// What has been done so far, oldest first.
    pub report: Seq<OutcomeView>,
    /// Simulation only: the paths at which a link would stand by now.
    pub planned: Seq<Seq<char>>,
    /// Simulation only: the paths at which a link stands that would have
    /// been taken away before the walk began.
    pub freed: Seq<Seq<char>>,
}

/// What a walker is doing with the frame it holds.
#[derive(Debug, Clone, Copy, PartialEq, Eq, Structural)]
enum Phase {
    Probing,
    Listing,
    Linking,
}

/// The walk over a source tree, as a machine that is driven from outside.
#[derive(Debug)]
pub struct Walker {
    pending: Vec<Frame>,
    current: Option<Frame>,
    phase: Phase,
    simulate: bool,
    max_depth: usize,
    report: Vec<Outcome>,
    planned: Vec<String>,
    freed: Vec<String>,
}

impl View for Walker {
    type V = WalkerView;

    closed spec fn view(&self) -> WalkerView {
        WalkerView {
            pending: views(self.pending@),
            awaiting: match self.current {
                None => Awaiting::Nothing,
                Some(frame) => match self.phase {
                    Phase::Probing => Awaiting::Probe(frame@),
                    Phase::Listing => Awaiting::Listing(frame@),
                    Phase::Linking => Awaiting::Link(frame@),
                },
            },
            simulate: self.simulate,
            max_depth: self.max_depth,
            report: views(self.report@),
            planned: views(self.planned@),
            freed: views(self.freed@),
        }
    }
}

/// The name of the directory in which version control keeps its own data.
/// An entry of this name is never linked, at any depth.
pub open spec fn metadata_dir() -> Seq<char> {
    seq!['.', 'g', 'i', 't']
}

/// What a report line says about how the work on a pair ended. In a
/// simulation a skip is worded as something that would happen.
pub open spec fn verdict_spec(result: WalkResult, simulate: bool) -> Seq<char> {
    match result {
        WalkResult::Linked => "Created symlink: "@,
        WalkResult::WouldLink => "Would create symlink: "@,
        WalkResult::SourceMissing => if simulate {
            "Would skip (source missing): "@
        } else {
            "Skipped (source missing): "@
        },
        WalkResult::Occupied => if simulate {
            "Would skip (exists): "@
        } else {
            "Skipped (exists): "@
        },
        WalkResult::TooDeep => if simulate {
            "Would skip (too deep): "@
        } else {
            "Skipped (too deep): "@
        },
        WalkResult::Failed => "Failed: "@,
    }
}

/// A report line as a user reads it: in a simulation the mark `[DRY RUN] `,
/// then what happened, then the target path; and, unless the target was
/// merely occupied, an arrow and the source path.
pub open spec fn describe_spec(outcome: OutcomeView, simulate: bool) -> Seq<char> {
    let mark = if simulate {
        "[DRY RUN] "@
    } else {
        Seq::<char>::empty()
    };
    let head = mark + verdict_spec(outcome.result, simulate) + outcome.target;
    if outcome.result is Occupied {
        head
    } else {
        head + " -> "@ + outcome.source
    }
}

/// The depth of the children of a directory at depth `depth`.
pub open spec fn deeper(depth: usize) -> usize {
    if depth < usize::MAX {
        (depth + 1) as usize
    } else {
        depth
    }
}

/// The frame for the child `name` of the directory of `parent`.
pub open spec fn child_frame(parent: FrameView, name: Seq<char>) -> FrameView {
    FrameView {
        source: paths::join_spec(parent.source, name),
        target: paths::join_spec(parent.target, name),
        kind: FrameKind::Pair,
        depth: deeper(parent.depth),
    }
}

/// The frames for the children `names` of the directory of `parent`, in the
/// order in which they go onto the stack: the first name ends up on top. The
/// version-control directory gets no frame.
pub open spec fn child_frames(parent: FrameView, names: Seq<Seq<char>>) -> Seq<FrameView>
    decreases names.len(),
{
    if names.len() == 0 {
        Seq::empty()
    } else {
        let below = child_frames(parent, names.drop_first());
        if names.first() == metadata_dir() {
            below
        } else {
            below.push(child_frame(parent, names.first()))
        }
    }
}

/// `walker` with one more line in its report.
pub open spec fn noting(walker: WalkerView, frame: FrameView, result: WalkResult) -> WalkerView {
    WalkerView {
        report: walker.report.push(
            OutcomeView { source: frame.source, target: frame.target, result },
        ),
        ..walker
    }
}

/// Why a node is skipped.
pub open spec fn skip_reason(source: SourceKind) -> WalkResult {
    if source is Missing {
        WalkResult::SourceMissing
    } else {
        WalkResult::Occupied
    }
}

/// Whether one of `places` names the place that `path` names.
pub open spec fn place_among(places: Seq<Seq<char>>, path: Seq<char>) -> bool {
    exists|k: int| 0 <= k < places.len() && paths::same_path_spec(#[trigger] places[k], path)
}

/// What the walker takes to occupy the target path of `frame` when the disk
/// shows `target`. A real walk takes what the disk shows. In a simulation, a
/// path at which a link would stand by now counts as holding that link; and
/// a link at a path that would have been freed before the walk counts as
/// gone.
pub open spec fn seen_spec(walker: WalkerView, frame: FrameView, target: TargetKind) -> TargetKind {
    if !walker.simulate {
        target
    } else if place_among(walker.planned, frame.target) {
        TargetKind::Symlink
    } else if target is Symlink && place_among(walker.freed, frame.target) {
        TargetKind::Absent
    } else {
        target
    }
}

/// What the event does to the frame that the walker is waiting on: the walker
/// and the ledger afterwards, and the next request where the same frame needs
/// more work.
pub open spec fn settle_spec(
    walker: WalkerView,
    store: Seq<LinkRecord>,
    event: EventView,
    now: Seq<char>,
) -> (WalkerView, Seq<LinkRecord>, Option<RequestView>) {
    match walker.awaiting {
        Awaiting::Nothing => (walker, store, None),
        Awaiting::Probe(frame) => match event {
            EventView::Probed { source, target } => match decide_spec(
                source,
                seen_spec(walker, frame, target),
            ) {
                Action::CreateLink => if walker.simulate {
                    (
                        WalkerView {
                            planned: walker.planned.push(frame.target),
                            ..noting(walker, frame, WalkResult::WouldLink)
                        },
                        store,
                        None,
                    )
                } else {
                    (
                        WalkerView { awaiting: Awaiting::Link(frame), ..walker },
                        store,
                        Some(RequestView::Link { link: frame.target, target: frame.source }),
                    )
                },
                Action::Descend => if frame.depth < walker.max_depth {
                    (
                        WalkerView { awaiting: Awaiting::Listing(frame), ..walker },
                        store,
                        Some(RequestView::List { source: frame.source }),
                    )
                } else {
                    (noting(walker, frame, WalkResult::TooDeep), store, None)
                },
                Action::Skip => (noting(walker, frame, skip_reason(source)), store, None),
            },
            _ => (noting(walker, frame, WalkResult::Failed), store, None),
        },
        Awaiting::Listing(frame) => match event {
            EventView::Listed { names } => (
                WalkerView { pending: walker.pending + child_frames(frame, names), ..walker },
                store,
                None,
            ),
            _ => (noting(walker, frame, WalkResult::Failed), store, None),
        },
        Awaiting::Link(frame) => match event {
            EventView::Linked => if walker.simulate {
                (noting(walker, frame, WalkResult::Failed), store, None)
            } else {
                (
                    noting(walker, frame, WalkResult::Linked),
                    upsert_spec(store, frame.target, frame.source, now),
                    None,
                )
            },
            _ => (noting(walker, frame, WalkResult::Failed), store, None),
        },
    }
}

/// Takes the next frame from the stack and asks about it: a probe for a pair,
/// a listing for a directory whose contents are to be linked. With an empty
/// stack the walk is finished.
pub open spec fn advance_spec(walker: WalkerView) -> (WalkerView, RequestView) {
    if walker.pending.len() == 0 {
        (WalkerView { awaiting: Awaiting::Nothing, ..walker }, RequestView::Finished)
    } else {
        let frame = walker.pending.last();
        let rest = walker.pending.drop_last();
        match frame.kind {
            FrameKind::Pair => (
                WalkerView { pending: rest, awaiting: Awaiting::Probe(frame), ..walker },
                RequestView::Probe { source: frame.source, target: frame.target },
            ),
            FrameKind::Contents => (
                WalkerView { pending: rest, awaiting: Awaiting::Listing(frame), ..walker },
                RequestView::List { source: frame.source },
            ),
        }
    }
}

/// One step of the walk: the event is settled, and unless the same frame
/// needs more work the next frame is taken up.
pub open spec fn step_spec(
    walker: WalkerView,
    store: Seq<LinkRecord>,
    event: EventView,
    now: Seq<char>,
) -> (WalkerView, Seq<LinkRecord>, RequestView) {
    let (settled, ledger, request) = settle_spec(walker, store, event, now);
    match request {
        Some(request) => (settled, ledger, request),
        None => {
            let (next, request) = advance_spec(
                WalkerView { awaiting: Awaiting::Nothing, ..settled },
            );
            (next, ledger, request)
        },
    }
}

/// Whether `name` is the name of the version-control directory.
pub fn is_metadata_dir(name: &str) -> (yes: bool)
    ensures
        yes == (name@ == metadata_dir()),
{
    proof {
        reveal_strlit(".git");
    }
    assert(".git"@ =~= metadata_dir());
    same_text(name, ".git")
}

/// Whether one of `places` names the place that `path` names.
fn names_place(places: &Vec<String>, path: &str) -> (yes: bool)
    ensures
        yes == place_among(views(places@), path@),
{
    let mut i: usize = 0;
    while i < places.len()
        invariant
            i <= places.len(),
            forall|k: int| 0 <= k < i ==> !paths::same_path_spec(views(places@)[k], path@),
        decreases places.len() - i,
    {
        if paths::same_path(places[i].as_str(), path) {
            assert(paths::same_path_spec(views(places@)[i as int], path@));
            return true;
        }
        i += 1;
    }
    false
}

impl Outcome {
    /// The line as a user reads it.
    pub fn describe(&self, simulate: bool) -> (line: String)
        ensures
            line@ == describe_spec(self@, simulate),
    {
        let mut line = String::new();
        if simulate {
            line.append("[DRY RUN] ");
        }
        match self.result {
            WalkResult::Linked => line.append("Created symlink: "),
            WalkResult::WouldLink => line.append("Would create symlink: "),
            WalkResult::SourceMissing => if simulate {
                line.append("Would skip (source missing): ")
            } else {
                line.append("Skipped (source missing): ")
            },
            WalkResult::Occupied => if simulate {
                line.append("Would skip (exists): ")
            } else {
                line.append("Skipped (exists): ")
            },
            WalkResult::TooDeep => if simulate {
                line.append("Would skip (too deep): ")
            } else {
                line.append("Skipped (too deep): ")
            },
            WalkResult::Failed => line.append("Failed: "),
        }
        line.append(self.target.as_str());
        match self.result {
            WalkResult::Occupied => {},
            _ => {
                line.append(" -> ");
                line.append(self.source.as_str());
            },
        }
        line
    }
}

impl Walker {
    /// A walker that will work through `roots`, the first one first.
    pub fn new(roots: Vec<Frame>, simulate: bool, max_depth: usize) -> (walker: Self)
        ensures
            walker@ == (WalkerView {
                pending: views(roots@).reverse(),
                awaiting: Awaiting::Nothing,
                simulate,
                max_depth,
                report: Seq::empty(),
                planned: Seq::empty(),
                freed: Seq::empty(),
            }),
    {
        let mut roots = roots;
        let ghost all = views(roots@);
        let mut pending: Vec<Frame> = Vec::new();
        while roots.len() > 0
            invariant
                roots.len() + pending.len() == all.len(),
                views(roots@) == all.take(roots.len() as int),
                forall|i: int|
                    0 <= i < pending.len() ==> views(pending@)[i] == all[all.len() - 1 - i],
            decreases roots.len(),
        {
            let ghost before = views(roots@);
            let ghost stacked = views(pending@);
            let frame = roots.pop().unwrap();
            assert(frame@ == before[before.len() - 1]);
            pending.push(frame);
            assert(views(pending@) =~= stacked.push(frame@));
        }
        let walker = Walker {
            pending,
            current: None,
            phase: Phase::Probing,
            simulate,
            max_depth,
            report: Vec::new(),
            planned: Vec::new(),
            freed: Vec::new(),
        };
        assert(walker@.pending =~= all.reverse());
        assert(walker@.report =~= Seq::empty());
        assert(walker@.planned =~= Seq::empty());
        assert(walker@.freed =~= Seq::empty());
        walker
    }

    /// The walker, told that the links at `paths` are taken away before the
    /// walk begins. Only a simulation makes use of this: the real walk finds
    /// those paths free on the disk.
    pub fn expecting_freed(self, paths: Vec<String>) -> (walker: Self)
        ensures
            walker@ == (WalkerView { freed: views(paths@), ..self@ }),
    {
        Walker {
            pending: self.pending,
            current: self.current,
            phase: self.phase,
            simulate: self.simulate,
            max_depth: self.max_depth,
            report: self.report,
            planned: self.planned,
            freed: paths,
        }
    }

    /// Whether this walker only simulates.
    pub fn simulates(&self) -> (simulate: bool)
        ensures
            simulate == self@.simulate,
    {
        self.simulate
    }

    /// Whether nothing is asked and nothing is left to do.
    pub fn is_finished(&self) -> (finished: bool)
        ensures
            finished == (self@.awaiting is Nothing && self@.pending.len() == 0),
    {
        self.current.is_none() && self.pending.len() == 0
    }

    /// What has been done so far, oldest first.
    pub fn report(&self) -> (report: &Vec<Outcome>)
        ensures
            views(report@) == self@.report,
    {
        &self.report
    }

    /// What the walker takes to occupy the target path of `frame`.
    fn seen(&self, frame: &Frame, target: TargetKind) -> (seen: TargetKind)
        ensures
            seen == seen_spec(self@, frame@, target),
    {
        if !self.simulate {
            return target;
        }
        if names_place(&self.planned, frame.target.as_str()) {
            return TargetKind::Symlink;
        }
        match target {
            TargetKind::Symlink => if names_place(&self.freed, frame.target.as_str()) {
                TargetKind::Absent
            } else {
                target
            },
            _ => target,
        }
    }

    /// Remembers that the simulation would have put a link at `path`.
    fn plan(&mut self, path: String)
        ensures
            final(self)@ == (WalkerView {
                planned: old(self)@.planned.push(path@),
                ..old(self)@
            }),
    {
        let ghost before = views(self.planned@);
        self.planned.push(path);
        assert(views(self.planned@) =~= before.push(path@));
    }

    /// Adds a line to the report.
    fn note(&mut self, frame: Frame, result: WalkResult)
        ensures
            final(self)@ == noting(old(self)@, frame@, result),
    {
        let ghost before = views(self.report@);
        let outcome = Outcome { source: frame.source, target: frame.target, result };
        self.report.push(outcome);
        assert(views(self.report@) =~= before.push(outcome@));
    }

    /// Puts the frames for the children `names` of `parent` on the stack.
    fn push_children(&mut self, parent: &Frame, names: &Vec<String>)
        ensures
            final(self)@ == (WalkerView {
                pending: old(self)@.pending + child_frames(parent@, views(names@)),
                ..old(self)@
            }),
    {
        let ghost all = views(names@);
        let ghost base = views(self.pending@);
        let depth = parent.depth.saturating_add(1);
        let mut i: usize = names.len();
        while i > 0
            invariant
                i <= names.len(),
                all == views(names@),
                depth == deeper(parent.depth),
                views(self.pending@) == base + child_frames(parent@, all.skip(i as int)),
                self.current == old(self).current,
                self.phase == old(self).phase,
                self.simulate == old(self).simulate,
                self.max_depth == old(self).max_depth,
                self.report == old(self).report,
                self.planned == old(self).planned,
                self.freed == old(self).freed,
            decreases i,
        {
            i -= 1;
            let name = names[i].as_str();
            let ghost rest = all.skip(i + 1);
            let ghost here = all.skip(i as int);
            assert(here.drop_first() =~= rest);
            if !is_metadata_dir(name) {
                let ghost stacked = views(self.pending@);
                let child = Frame {
                    source: paths::join(parent.source.as_str(), name),
                    target: paths::join(parent.target.as_str(), name),
                    kind: FrameKind::Pair,
                    depth,
                };
                self.pending.push(child);
                assert(views(self.pending@) =~= stacked.push(child@));
            }
        }
        assert(all.skip(0) =~= all);
    }

    /// Takes up the next frame, if there is one.
    fn advance(&mut self) -> (request: WalkRequest)
        requires
            old(self)@.awaiting is Nothing,
        ensures
            (final(self)@, request@) == advance_spec(old(self)@),
    {
        let ghost before = views(self.pending@);
        match self.pending.pop() {
            None => WalkRequest::Finished,
            Some(frame) => {
                assert(views(self.pending@) =~= before.drop_last());
                match frame.kind {
                    FrameKind::Pair => {
                        let request = WalkRequest::Probe {
                            source: copy_text(&frame.source),
                            target: copy_text(&frame.target),
                        };
                        self.current = Some(frame);
                        self.phase = Phase::Probing;
                        request
                    },
                    FrameKind::Contents => {
                        let request = WalkRequest::List { source: copy_text(&frame.source) };
                        self.current = Some(frame);
                        self.phase = Phase::Listing;
                        request
                    },
                }
            },
        }
    }

    /// Begins, or resumes, the walk: says what the driver is to do first.
    pub fn start(&mut self) -> (request: WalkRequest)
        ensures
            (final(self)@, request@) == advance_spec(
                WalkerView { awaiting: Awaiting::Nothing, ..old(self)@ },
            ),
    {
        self.current = None;
        self.advance()
    }

    /// Takes the driver's answer to the last request and says what the driver
    /// is to do next. The ledger is written to only when a link has been
    /// created, and never in simulation.
    pub fn step(&mut self, store: &mut SymlinkState, event: WalkEvent, now: &str) -> (request:
        WalkRequest)
        ensures
            (final(self)@, final(store)@, request@) == step_spec(
                old(self)@,
                old(store)@,
                event@,
                now@,
            ),
            old(self)@.simulate ==> final(store)@ == old(store)@,
            old(store).wf() ==> final(store).wf(),
    {
        proof {
            lemma_step_keeps_ledger_sound(self@, store@, event@, now@);
            if self@.simulate {
                lemma_simulation_changes_nothing(self@, store@, event@, now@);
            }
        }
        let phase = self.phase;
        match self.current.take() {
            None => {},
            Some(frame) => {
                match phase {
                    Phase::Probing => match event {
                        WalkEvent::Probed { source, target } => match decide(
                            source,
                            self.seen(&frame, target),
                        ) {
                            Action::CreateLink => {
                                if self.simulate {
                                    self.plan(copy_text(&frame.target));
                                    self.note(frame, WalkResult::WouldLink);
                                } else {
                                    let request = WalkRequest::Link {
                                        link: copy_text(&frame.target),
                                        target: copy_text(&frame.source),
                                    };
                                    self.current = Some(frame);
                                    self.phase = Phase::Linking;
                                    return request;
                                }
                            },
                            Action::Descend => {
                                if frame.depth < self.max_depth {
                                    let request = WalkRequest::List {
                                        source: copy_text(&frame.source),
                                    };
                                    self.current = Some(frame);
                                    self.phase = Phase::Listing;
                                    return request;
                                } else {
                                    self.note(frame, WalkResult::TooDeep);
                                }
                            },
                            Action::Skip => {
                                let reason = match source {
                                    SourceKind::Missing => WalkResult::SourceMissing,
                                    _ => WalkResult::Occupied,
                                };
                                self.note(frame, reason);
                            },
                        },
                        _ => {
                            self.note(frame, WalkResult::Failed);
                        },
                    },
                    Phase::Listing => match event {
                        WalkEvent::Listed { names } => {
                            self.push_children(&frame, &names);
                        },
                        _ => {
                            self.note(frame, WalkResult::Failed);
                        },
                    },
                    Phase::Linking => match event {
                        WalkEvent::Linked => {
                            if self.simulate {
                                self.note(frame, WalkResult::Failed);
                            } else {
                                store.upsert(
                                    copy_text(&frame.target),
                                    copy_text(&frame.source),
                                    now,
                                );
                                self.note(frame, WalkResult::Linked);
                            }
                        },
                        _ => {
                            self.note(frame, WalkResult::Failed);
                        },
                    },
                }
            },
        }
        self.advance()
    }
}

/// Taking up the next frame never asks for a link.
pub proof fn lemma_advance_never_links(walker: WalkerView)
    ensures
        !(advance_spec(walker).1 is Link),
        advance_spec(walker).0.report == walker.report,
        advance_spec(walker).0.simulate == walker.simulate,
        advance_spec(walker).0.max_depth == walker.max_depth,
        advance_spec(walker).0.planned == walker.planned,
        advance_spec(walker).0.freed == walker.freed,
{
}

/// Where the source exists and nothing occupies the target path, a walker
/// that is not simulating asks for exactly one link, at the target path
/// itself and pointing to the whole source node. It puts no frame on the
/// stack, so nothing below the node is ever linked separately. Once the link
/// is reported, that one pair is recorded in the ledger.
pub proof fn lemma_free_target_is_bound_by_one_link(
    walker: WalkerView,
    store: Seq<LinkRecord>,
    frame: FrameView,
    source: SourceKind,
    now: Seq<char>,
)
    requires
        walker.awaiting == Awaiting::Probe(frame),
        !walker.simulate,
        source !is Missing,
    ensures
        ({
            let probed = EventView::Probed { source, target: TargetKind::Absent };
            let (asked, ledger, request) = step_spec(walker, store, probed, now);
            let (done, recorded, _) = step_spec(asked, ledger, EventView::Linked, now);
            &&& request == RequestView::Link { link: frame.target, target: frame.source }
            &&& asked == WalkerView { awaiting: Awaiting::Link(frame), ..walker }
            &&& ledger == store
            &&& recorded == upsert_spec(store, frame.target, frame.source, now)
            &&& done.report == walker.report.push(
                OutcomeView {
                    source: frame.source,
                    target: frame.target,
                    result: WalkResult::Linked,
                },
            )
        }),
{
}

/// Where a source directory meets a real directory above the depth limit,
/// the walker asks for the listing of the source and creates no link at the
/// directory's own path: the ledger and the report stay as they are. The
/// listing then puts one frame per child on the stack, each pairing the child
/// with the entry of its name below the target. (A simulation that has
/// planned a link at the path takes the path to hold that link.)
pub proof fn lemma_real_directory_is_entered(
    walker: WalkerView,
    store: Seq<LinkRecord>,
    frame: FrameView,
    names: Seq<Seq<char>>,
    now: Seq<char>,
)
    requires
        walker.awaiting == Awaiting::Probe(frame),
        frame.depth < walker.max_depth,
        !(walker.simulate && place_among(walker.planned, frame.target)),
    ensures
        ({
            let probed = EventView::Probed {
                source: SourceKind::Directory,
                target: TargetKind::Directory,
            };
            let (asked, ledger, request) = step_spec(walker, store, probed, now);
            let (next, after, following) = step_spec(
                asked,
                ledger,
                EventView::Listed { names },
                now,
            );
            &&& request == RequestView::List { source: frame.source }
            &&& asked == WalkerView { awaiting: Awaiting::Listing(frame), ..walker }
            &&& ledger == store
            &&& after == store
            &&& next.report == walker.report
            &&& !(following is Link)
            &&& (next, following) == advance_spec(
                WalkerView {
                    pending: walker.pending + child_frames(frame, names),
                    awaiting: Awaiting::Nothing,
                    ..walker
                },
            )
        }),
{
}

/// Where a file or a symbolic link occupies the target path, nothing is
/// changed: no link is asked for, the ledger stays as it is, no frame is put
/// on the stack, and the pair is noted as skipped. (A simulation that was
/// told that the link at the path is taken away first takes the path to be
/// free.)
pub proof fn lemma_occupied_target_is_left_alone(
    walker: WalkerView,
    store: Seq<LinkRecord>,
    frame: FrameView,
    source: SourceKind,
    target: TargetKind,
    now: Seq<char>,
)
    requires
        walker.awaiting == Awaiting::Probe(frame),
        target is File || target is Symlink,
        !(walker.simulate && place_among(walker.freed, frame.target)),
    ensures
        ({
            let probed = EventView::Probed { source, target };
            let (next, ledger, request) = step_spec(walker, store, probed, now);
            &&& ledger == store
            &&& !(request is Link)
            &&& (next, request) == advance_spec(
                WalkerView {
                    awaiting: Awaiting::Nothing,
                    ..noting(walker, frame, skip_reason(source))
                },
            )
        }),
{
}

/// Only free paths are linked. Whatever the source is, where anything at all
/// occupies the target path, a real directory included, the walker asks for
/// no link and leaves the ledger as it is.
pub proof fn lemma_only_free_paths_are_linked(
    walker: WalkerView,
    store: Seq<LinkRecord>,
    frame: FrameView,
    source: SourceKind,
    target: TargetKind,
    now: Seq<char>,
)
    requires
        walker.awaiting == Awaiting::Probe(frame),
        !(target is Absent),
    ensures
        step_spec(walker, store, EventView::Probed { source, target }, now).1 == store,
        !(step_spec(walker, store, EventView::Probed { source, target }, now).2 is Link),
{
}

/// A step writes to the ledger only by recording one link, so it keeps a
/// well-formed ledger well formed and never makes it shorter.
pub proof fn lemma_step_keeps_ledger_sound(
    walker: WalkerView,
    store: Seq<LinkRecord>,
    event: EventView,
    now: Seq<char>,
)
    ensures
        unique_links(store) ==> unique_links(step_spec(walker, store, event, now).1),
        step_spec(walker, store, event, now).1.len() >= store.len(),
        step_spec(walker, store, event, now).1 == store || (exists|frame: FrameView|
            walker.awaiting == Awaiting::Link(frame) && step_spec(walker, store, event, now).1
                == upsert_spec(store, frame.target, frame.source, now)),
{
    if let Awaiting::Link(frame) = walker.awaiting {
        lemma_upsert(store, frame.target, frame.source, now);
    }
}

/// A simulation changes nothing: whatever the event, a simulating walker
/// leaves the ledger as it is, asks for no link, and goes on simulating.
pub proof fn lemma_simulation_changes_nothing(
    walker: WalkerView,
    store: Seq<LinkRecord>,
    event: EventView,
    now: Seq<char>,
)
    requires
        walker.simulate,
    ensures
        step_spec(walker, store, event, now).1 == store,
        !(step_spec(walker, store, event, now).2 is Link),
        step_spec(walker, store, event, now).0.simulate,
{
}

/// A simulation decides as the real walk does. On the same probe of the same
/// frame, at a path where the simulation has not planned a link and none is
/// to be freed, the two differ in one thing only: where the real walker asks
/// for a link, the simulating one notes that it would have, remembers the
/// path, and moves on. At a path where it has planned a link, the simulation
/// decides as the real walk does once the link stands; at the path of a link
/// that is to be freed, as the real walk does once the link is gone.
pub proof fn lemma_simulation_decides_alike(
    walker: WalkerView,
    store: Seq<LinkRecord>,
    frame: FrameView,
    source: SourceKind,
    target: TargetKind,
    now: Seq<char>,
)
    requires
        walker.awaiting == Awaiting::Probe(frame),
    ensures
        ({
            let probed = EventView::Probed { source, target };
            let actual = step_spec(WalkerView { simulate: false, ..walker }, store, probed, now);
            let rehearsing = WalkerView { simulate: true, ..walker };
            let simulated = step_spec(rehearsing, store, probed, now);
            let linked = EventView::Probed { source, target: TargetKind::Symlink };
            let gone = EventView::Probed { source, target: TargetKind::Absent };
            if place_among(walker.planned, frame.target) {
                simulated == step_spec(rehearsing, store, linked, now)
            } else if place_among(walker.freed, frame.target) {
                target is Symlink ==> simulated == step_spec(rehearsing, store, gone, now)
            } else if decide_spec(source, target) is CreateLink {
                &&& actual.2 == RequestView::Link { link: frame.target, target: frame.source }
                &&& actual.0.report == walker.report
                &&& simulated.0.report == walker.report.push(
                    OutcomeView {
                        source: frame.source,
                        target: frame.target,
                        result: WalkResult::WouldLink,
                    },
                )
                &&& simulated.0.planned == walker.planned.push(frame.target)
                &&& simulated.0.pending == advance_spec(walker).0.pending
            } else {
                &&& simulated.0 == WalkerView { simulate: true, ..actual.0 }
                &&& simulated.2 == actual.2
            }
        }),
{
}

} // verus!
