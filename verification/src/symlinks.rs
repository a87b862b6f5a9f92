//! The ledger of links.
//!
//! Every link that is created is written down as a record: where the link
//! stands, what it points to, when it was created and when it was last seen
//! to be in order. The ledger keeps its records in the order in which they
//! were first added. A record is keyed by the path of its link, and paths are
//! compared as paths, not as text: `/a/b`, `/a//b` and `/a/b/` are one key.
//! No two records are meant to have the same key.

use vstd::prelude::*;
use vstd::string::*;
use crate::system::{current_timestamp, timestamp_spec};
use crate::error::{DotmeError, ErrorView};
use crate::paths;
use crate::paths::same_path_spec;
use crate::select::{
    distinct_by,
    kept,
    lemma_kept_distinct,
    lemma_kept_len,
    lemma_kept_views,
    lemma_kept_origin,
    lemma_marked_is_kept,
    retain_marked,
    views,
};
use crate::text::copy_text;

verus! {

/// One row of the ledger.
#[derive(Debug, Clone, PartialEq, Eq)]
pub struct SymlinkEntry {
    /// The path of the link itself.
    pub link: String,
    /// The path that the link points to.
    pub target: String,
    /// When the record was first written.
    pub created_at: String,
    /// When the link was last created or found to be correct.
    pub last_verified: Option<String>,
}

/// A ledger row as a mathematical value.
pub struct LinkRecord {
    pub link: Seq<char>,
    pub target: Seq<char>,
    pub created_at: Seq<char>,
    pub last_verified: Option<Seq<char>>,
}

impl View for SymlinkEntry {
    type V = LinkRecord;

    open spec fn view(&self) -> LinkRecord {
        LinkRecord {
            link: self.link@,
            target: self.target@,
            created_at: self.created_at@,
            last_verified: match self.last_verified {
                Some(stamp) => Some(stamp@),
                None => None,
            },
        }
    }
}

/// The ledger: every record, oldest first.
#[derive(Debug, Clone, PartialEq, Eq)]
pub struct SymlinkState {
    /// The records, in the order in which they were added.
    pub symlinks: Vec<SymlinkEntry>,
}

impl View for SymlinkState {
    type V = Seq<LinkRecord>;

    open spec fn view(&self) -> Seq<LinkRecord> {
        views(self.symlinks@)
    }
}

/// What was found on disk at the path of a link.
#[derive(Debug, Clone, PartialEq, Eq)]
pub enum LinkProbe {
    /// Nothing is there.
    Absent,
    /// Something is there that is not a symbolic link.
    NotSymlink,
    /// A symbolic link is there, with this destination.
    Symlink { destination: String },
}

/// A probe as a mathematical value.
pub enum ProbeView {
    Absent,
    NotSymlink,
    Symlink { destination: Seq<char> },
}

impl View for LinkProbe {
    type V = ProbeView;

    open spec fn view(&self) -> ProbeView {
        match self {
            LinkProbe::Absent => ProbeView::Absent,
            LinkProbe::NotSymlink => ProbeView::NotSymlink,
            LinkProbe::Symlink { destination } => ProbeView::Symlink { destination: destination@ },
        }
    }
}

/// The state of a recorded link on disk.
#[derive(Debug, Clone, Copy, PartialEq, Eq, Structural)]
pub enum LinkStatus {
    /// The link exists and points to the recorded target.
    Correct,
    /// The link exists and points elsewhere.
    WrongTarget,
    /// Nothing exists at the path of the link.
    Missing,
    /// The path exists and is not a symbolic link.
    NotALink,
}

/// How a link is to be brought about.
#[derive(Debug, Clone, Copy, PartialEq, Eq, Structural)]
pub enum LinkStep {
    /// The path is free: the link is to be created, then recorded.
    Create,
    /// The link stands already and points to the right place: it is only to
    /// be recorded.
    AlreadyLinked,
}

/// How a link is to be taken away.
#[derive(Debug, Clone, Copy, PartialEq, Eq, Structural)]
pub enum UnlinkStep {
    /// The link is to be deleted from disk, then from the ledger.
    Delete,
    /// Nothing stands at the path: only the record is to be dropped.
    Forget,
}

/// Some record of `store` is keyed by `link`: its link names the place that
/// `link` names.
pub open spec fn tracks(store: Seq<LinkRecord>, link: Seq<char>) -> bool {
    exists|i: int| 0 <= i < store.len() && same_path_spec(store[i].link, link)
}

/// `at` is the position of the first record of `store` keyed by `link`.
pub open spec fn is_first(store: Seq<LinkRecord>, link: Seq<char>, at: int) -> bool {
    &&& 0 <= at < store.len()
    &&& same_path_spec(store[at].link, link)
    &&& forall|j: int| 0 <= j < at ==> !same_path_spec(store[j].link, link)
}

/// The position of the first record keyed by `link`, where there is one.
pub open spec fn position(store: Seq<LinkRecord>, link: Seq<char>) -> int {
    choose|at: int| is_first(store, link, at)
}

/// No two records name the same path with their links.
pub open spec fn unique_links(store: Seq<LinkRecord>) -> bool {
    forall|i: int, j: int|
        0 <= i < store.len() && 0 <= j < store.len() && i != j ==>
            !same_path_spec(store[i].link, store[j].link)
}

/// The record that a fresh link gets.
pub open spec fn fresh_record(link: Seq<char>, target: Seq<char>, now: Seq<char>) -> LinkRecord {
    LinkRecord { link, target, created_at: now, last_verified: Some(now) }
}

/// `record` pointed at `target` and stamped as verified at `now`.
pub open spec fn retargeted(record: LinkRecord, target: Seq<char>, now: Seq<char>) -> LinkRecord {
    LinkRecord { target, last_verified: Some(now), ..record }
}

/// `record` stamped as verified at `now`.
pub open spec fn stamped(record: LinkRecord, now: Seq<char>) -> LinkRecord {
    LinkRecord { last_verified: Some(now), ..record }
}

/// The ledger after `link -> target` was recorded at `now`: the first record
/// keyed by `link` is retargeted and stamped, or, where there is none, a fresh
/// record is appended.
pub open spec fn upsert_spec(
    store: Seq<LinkRecord>,
    link: Seq<char>,
    target: Seq<char>,
    now: Seq<char>,
) -> Seq<LinkRecord> {
    if tracks(store, link) {
        let at = position(store, link);
        store.update(at, retargeted(store[at], target, now))
    } else {
        store.push(fresh_record(link, target, now))
    }
}

/// The ledger after the first record keyed by `link`, if any, was stamped as
/// verified at `now`.
pub open spec fn stamp_spec(store: Seq<LinkRecord>, link: Seq<char>, now: Seq<char>) -> Seq<
    LinkRecord,
> {
    if tracks(store, link) {
        let at = position(store, link);
        store.update(at, stamped(store[at], now))
    } else {
        store
    }
}

/// The records of `store` that are not keyed by `link`, in order.
pub open spec fn without_link(store: Seq<LinkRecord>, link: Seq<char>) -> Seq<LinkRecord>
    decreases store.len(),
{
    if store.len() == 0 {
        store
    } else {
        let rest = without_link(store.drop_last(), link);
        if same_path_spec(store.last().link, link) {
            rest
        } else {
            rest.push(store.last())
        }
    }
}

/// The status of a link that should point to `expected`, given what was
/// found at its path. The destination and the expected target are compared
/// as absolute paths in their normal form: a relative one is taken below
/// `cwd`, and every `.` and `..` is resolved, so that `/a/b/../c` and `/a/c`
/// are one target.
pub open spec fn status_spec(probe: ProbeView, expected: Seq<char>, cwd: Seq<char>) -> LinkStatus {
    match probe {
        ProbeView::Absent => LinkStatus::Missing,
        ProbeView::NotSymlink => LinkStatus::NotALink,
        ProbeView::Symlink { destination } => if paths::same_place_spec(
            paths::absolute_spec(expected, cwd),
            paths::absolute_spec(destination, cwd),
        ) {
            LinkStatus::Correct
        } else {
            LinkStatus::WrongTarget
        },
    }
}

/// How the status of a link is worded in a listing: a mark, then a few
/// words. A link that is missing and a path that is no link are both worded
/// as broken.
pub open spec fn status_label_spec(status: LinkStatus) -> Seq<char> {
    match status {
        LinkStatus::Correct => "\u{2713} valid"@,
        LinkStatus::WrongTarget => "\u{26a0} points to wrong target"@,
        LinkStatus::Missing => "\u{2717} broken or missing"@,
        LinkStatus::NotALink => "\u{2717} broken or missing"@,
    }
}

/// A link is broken when nothing usable stands at its path.
pub open spec fn is_broken(status: LinkStatus) -> bool {
    status is Missing || status is NotALink
}

/// The status of the record at position `at`, given one probe per record.
pub open spec fn status_at(
    store: Seq<LinkRecord>,
    probes: Seq<ProbeView>,
    cwd: Seq<char>,
    at: int,
) -> LinkStatus {
    status_spec(probes[at], store[at].target, cwd)
}

/// The ledger after a round of verification at `now`: the records found
/// correct are stamped, the others are left as they were.
pub open spec fn verified_spec(
    store: Seq<LinkRecord>,
    probes: Seq<ProbeView>,
    cwd: Seq<char>,
    now: Seq<char>,
) -> Seq<LinkRecord> {
    Seq::new(
        store.len(),
        |i: int|
            if status_at(store, probes, cwd, i) is Correct {
                stamped(store[i], now)
            } else {
                store[i]
            },
    )
}

/// The records of `store` that are not broken, in order.
pub open spec fn surviving(store: Seq<LinkRecord>, probes: Seq<ProbeView>, cwd: Seq<char>) -> Seq<
    LinkRecord,
>
    decreases store.len(),
{
    if store.len() == 0 {
        store
    } else {
        let rest = surviving(store.drop_last(), probes, cwd);
        if is_broken(status_at(store, probes, cwd, store.len() - 1)) {
            rest
        } else {
            rest.push(store.last())
        }
    }
}

/// The records of `store` whose target does not lie at or below `root`.
pub open spec fn outside(store: Seq<LinkRecord>, root: Seq<char>) -> Seq<LinkRecord>
    decreases store.len(),
{
    if store.len() == 0 {
        store
    } else {
        let rest = outside(store.drop_last(), root);
        if paths::within(store.last().target, root) {
            rest
        } else {
            rest.push(store.last())
        }
    }
}

/// The link paths of the records whose target lies at or below `root`.
pub open spec fn links_inside(store: Seq<LinkRecord>, root: Seq<char>) -> Seq<Seq<char>>
    decreases store.len(),
{
    if store.len() == 0 {
        Seq::empty()
    } else {
        let rest = links_inside(store.drop_last(), root);
        if paths::within(store.last().target, root) {
            rest.push(store.last().link)
        } else {
            rest
        }
    }
}

/// The marks that spare the records not keyed by `link`.
pub open spec fn marks_without_link(store: Seq<LinkRecord>, link: Seq<char>) -> Seq<bool> {
    Seq::new(store.len(), |i: int| !same_path_spec(store[i].link, link))
}

/// The marks that spare the records that are not broken.
pub open spec fn marks_surviving(
    store: Seq<LinkRecord>,
    probes: Seq<ProbeView>,
    cwd: Seq<char>,
) -> Seq<bool> {
    Seq::new(store.len(), |i: int| !is_broken(status_at(store, probes, cwd, i)))
}

/// The marks that spare the records whose target is not under `root`.
pub open spec fn marks_outside(store: Seq<LinkRecord>, root: Seq<char>) -> Seq<bool> {
    Seq::new(store.len(), |i: int| !paths::within(store[i].target, root))
}

/// What is to be done to have a link at `link` that points to `target`.
///
/// The target must exist. A free path gets the link. A link that already
/// points to the target is kept. A link that points elsewhere, or anything
/// that is not a link, is an error: nothing that exists is overwritten.
pub open spec fn plan_symlink_spec(
    link: Seq<char>,
    target: Seq<char>,
    target_exists: bool,
    probe: ProbeView,
    cwd: Seq<char>,
) -> Result<LinkStep, ErrorView> {
    if !target_exists {
        Err(ErrorView::TargetMissing { target })
    } else {
        match probe {
            ProbeView::Absent => Ok(LinkStep::Create),
            ProbeView::NotSymlink => Err(ErrorView::SymlinkConflict { link }),
            ProbeView::Symlink { destination } => if status_spec(probe, target, cwd) is Correct {
                Ok(LinkStep::AlreadyLinked)
            } else {
                Err(ErrorView::SymlinkWrongTarget { link, actual: destination, expected: target })
            },
        }
    }
}

/// What is to be done to take the link at `link` away. Only a symbolic link
/// is ever deleted.
pub open spec fn plan_unlink_spec(link: Seq<char>, probe: ProbeView) -> Result<
    UnlinkStep,
    ErrorView,
> {
    match probe {
        ProbeView::Absent => Ok(UnlinkStep::Forget),
        ProbeView::NotSymlink => Err(ErrorView::SymlinkConflict { link }),
        ProbeView::Symlink { destination } => Ok(UnlinkStep::Delete),
    }
}

/// The view of a step that was planned or of the error that came instead.
pub open spec fn planned<S>(result: Result<S, DotmeError>) -> Result<S, ErrorView> {
    match result {
        Ok(step) => Ok(step),
        Err(error) => Err(error@),
    }
}

/// Where the first record keyed by `link` stands, or the number of records
/// where there is none.
fn locate(entries: &Vec<SymlinkEntry>, link: &str) -> (at: usize)
    ensures
        at <= entries.len(),
        at < entries.len() ==> same_path_spec(entries@[at as int]@.link, link@),
        forall|j: int| 0 <= j < at ==> !same_path_spec(entries@[j]@.link, link@),
{
    let mut at: usize = 0;
    while at < entries.len()
        invariant
            at <= entries.len(),
            forall|j: int| 0 <= j < at ==> !same_path_spec(entries@[j]@.link, link@),
        decreases entries.len() - at,
    {
        if paths::same_path(entries[at].link.as_str(), link) {
            return at;
        }
        at += 1;
    }
    at
}

impl LinkStatus {
    /// How the status is worded in a listing.
    pub fn label(&self) -> (label: String)
        ensures
            label@ == status_label_spec(*self),
    {
        match self {
            LinkStatus::Correct => String::from_str("\u{2713} valid"),
            LinkStatus::WrongTarget => String::from_str("\u{26a0} points to wrong target"),
            LinkStatus::Missing => String::from_str("\u{2717} broken or missing"),
            LinkStatus::NotALink => String::from_str("\u{2717} broken or missing"),
        }
    }
}

/// A copy of a ledger row.
pub fn copy_entry(entry: &SymlinkEntry) -> (copy: SymlinkEntry)
    ensures
        copy == *entry,
{
    SymlinkEntry {
        link: copy_text(&entry.link),
        target: copy_text(&entry.target),
        created_at: copy_text(&entry.created_at),
        last_verified: match &entry.last_verified {
            Some(stamp) => Some(copy_text(stamp)),
            None => None,
        },
    }
}

/// The status of a link that should point to `expected_target`, given what
/// was found at its path.
pub fn verify_symlink(probe: &LinkProbe, expected_target: &str, cwd: &str) -> (status: LinkStatus)
    ensures
        status == status_spec(probe@, expected_target@, cwd@),
{
    match probe {
        LinkProbe::Absent => LinkStatus::Missing,
        LinkProbe::NotSymlink => LinkStatus::NotALink,
        LinkProbe::Symlink { destination } => {
            let expected = paths::absolute(expected_target, cwd);
            let actual = paths::absolute(destination.as_str(), cwd);
            if paths::same_place(expected.as_str(), actual.as_str()) {
                LinkStatus::Correct
            } else {
                LinkStatus::WrongTarget
            }
        },
    }
}

/// Decides what is to be done to have a link at `link` that points to
/// `target`, given whether the target exists and what stands at `link`.
pub fn plan_symlink(
    link: &str,
    target: &str,
    target_exists: bool,
    probe: &LinkProbe,
    cwd: &str,
) -> (step: Result<LinkStep, DotmeError>)
    ensures
        planned(step) == plan_symlink_spec(link@, target@, target_exists, probe@, cwd@),
{
    if !target_exists {
        return Err(DotmeError::TargetMissing { target: String::from_str(target) });
    }
    match probe {
        LinkProbe::Absent => Ok(LinkStep::Create),
        LinkProbe::NotSymlink => Err(DotmeError::SymlinkConflict { link: String::from_str(link) }),
        LinkProbe::Symlink { destination } => match verify_symlink(probe, target, cwd) {
            LinkStatus::Correct => Ok(LinkStep::AlreadyLinked),
            _ => Err(
                DotmeError::SymlinkWrongTarget {
                    link: String::from_str(link),
                    actual: copy_text(destination),
                    expected: String::from_str(target),
                },
            ),
        },
    }
}

/// Decides what is to be done to take the link at `link` away, given what
/// stands there.
pub fn plan_unlink(link: &str, probe: &LinkProbe) -> (step: Result<UnlinkStep, DotmeError>)
    ensures
        planned(step) == plan_unlink_spec(link@, probe@),
{
    match probe {
        LinkProbe::Absent => Ok(UnlinkStep::Forget),
        LinkProbe::NotSymlink => Err(DotmeError::SymlinkConflict { link: String::from_str(link) }),
        LinkProbe::Symlink { destination } => Ok(UnlinkStep::Delete),
    }
}

/// Every record of the ledger with its status, given one probe per record.
pub fn list_symlinks(state: &SymlinkState, probes: &Vec<LinkProbe>, cwd: &str) -> (listing: Vec<
    (SymlinkEntry, LinkStatus),
>)
    requires
        probes.len() == state.symlinks.len(),
    ensures
        listing.len() == state.symlinks.len(),
        forall|i: int|
            0 <= i < listing.len() ==> {
                &&& (#[trigger] listing@[i]).0 == state.symlinks@[i]
                &&& listing@[i].1 == status_at(state@, views(probes@), cwd@, i)
            },
{
    let mut listing: Vec<(SymlinkEntry, LinkStatus)> = Vec::new();
    let mut i: usize = 0;
    while i < state.symlinks.len()
        invariant
            probes.len() == state.symlinks.len(),
            i <= state.symlinks.len(),
            listing.len() == i,
            forall|k: int|
                0 <= k < i ==> {
                    &&& (#[trigger] listing@[k]).0 == state.symlinks@[k]
                    &&& listing@[k].1 == status_at(state@, views(probes@), cwd@, k)
                },
        decreases state.symlinks.len() - i,
    {
        let entry = &state.symlinks[i];
        let status = verify_symlink(&probes[i], entry.target.as_str(), cwd);
        listing.push((copy_entry(entry), status));
        i += 1;
    }
    listing
}

/// Drops from the ledger every record whose link is broken, given one probe
/// per record, and says how many were dropped. Links that exist and point
/// elsewhere are kept.
pub fn cleanup_broken_symlinks(
    state: &mut SymlinkState,
    probes: &Vec<LinkProbe>,
    cwd: &str,
) -> (removed: usize)
    requires
        probes.len() == old(state).symlinks.len(),
    ensures
        final(state)@ == surviving(old(state)@, views(probes@), cwd@),
        removed == old(state)@.len() - final(state)@.len(),
        old(state).wf() ==> final(state).wf(),
{
    proof {
        lemma_cleanup_keeps_the_sound(state@, views(probes@), cwd@);
    }
    let before: usize = state.symlinks.len();
    let mut keep: Vec<bool> = Vec::new();
    let mut i: usize = 0;
    while i < state.symlinks.len()
        invariant
            probes.len() == state.symlinks.len(),
            i <= state.symlinks.len(),
            keep.len() == i,
            forall|k: int|
                0 <= k < i ==> keep@[k] == !is_broken(
                    status_at(state@, views(probes@), cwd@, k),
                ),
        decreases state.symlinks.len() - i,
    {
        let status = verify_symlink(&probes[i], state.symlinks[i].target.as_str(), cwd);
        let broken = match status {
            LinkStatus::Missing => true,
            LinkStatus::NotALink => true,
            _ => false,
        };
        keep.push(!broken);
        i += 1;
    }
    proof {
        lemma_kept_surviving(state@, keep@, views(probes@), cwd@);
        lemma_kept_len(state@, keep@);
        lemma_kept_views(state.symlinks@, keep@);
    }
    retain_marked(&mut state.symlinks, &keep);
    before - state.symlinks.len()
}

impl Default for SymlinkState {
    /// An empty ledger.
    fn default() -> (state: Self)
        ensures
            state@ == Seq::<LinkRecord>::empty(),
            state.wf(),
    {
        SymlinkState::new()
    }
}

impl SymlinkState {
    /// The ledger is well formed: no link path keys two records.
    pub open spec fn wf(&self) -> bool {
        unique_links(self@)
    }

    /// An empty ledger.
    pub fn new() -> (state: Self)
        ensures
            state@ == Seq::<LinkRecord>::empty(),
            state.wf(),
    {
        SymlinkState { symlinks: Vec::new() }
    }

    /// The ledger as it was last written: the one that was found, or an
    /// empty one where none was ever written.
    pub fn loaded(found: Option<SymlinkState>) -> (state: Self)
        ensures
            state@ == match found {
                Some(found) => found@,
                None => Seq::<LinkRecord>::empty(),
            },
    {
        match found {
            Some(found) => found,
            None => SymlinkState::new(),
        }
    }

    /// Records `link -> target` as created or confirmed at `now`.
    pub fn upsert(&mut self, link: String, target: String, now: &str)
        ensures
            final(self)@ == upsert_spec(old(self)@, link@, target@, now@),
            old(self).wf() ==> final(self).wf(),
    {
        proof {
            lemma_upsert(self@, link@, target@, now@);
        }
        let at = locate(&self.symlinks, link.as_str());
        if at < self.symlinks.len() {
            proof {
                lemma_position(self@, link@, at as int);
            }
            self.symlinks[at].target = target;
            self.symlinks[at].last_verified = Some(String::from_str(now));
        } else {
            assert(!tracks(self@, link@));
            let entry = SymlinkEntry {
                link,
                target,
                created_at: String::from_str(now),
                last_verified: Some(String::from_str(now)),
            };
            self.symlinks.push(entry);
        }
        assert(self@ =~= upsert_spec(old(self)@, link@, target@, now@));
    }

    /// Records `link -> target` as created or confirmed at the present moment.
    pub fn add_entry(&mut self, link: String, target: String)
        ensures
            exists|reading: Option<(u64, u32)>|
                final(self)@ == upsert_spec(old(self)@, link@, target@, timestamp_spec(reading)),
            old(self).wf() ==> final(self).wf(),
    {
        let now = current_timestamp();
        self.upsert(link, target, now.as_str());
    }

    /// Drops every record keyed by `link` and says whether there was one.
    pub fn remove_entry(&mut self, link: &str) -> (removed: bool)
        ensures
            final(self)@ == without_link(old(self)@, link@),
            removed == tracks(old(self)@, link@),
            old(self).wf() ==> final(self).wf(),
    {
        proof {
            lemma_remove_entry(self@, link@);
        }
        let before: usize = self.symlinks.len();
        let mut keep: Vec<bool> = Vec::new();
        let mut i: usize = 0;
        while i < self.symlinks.len()
            invariant
                i <= self.symlinks.len(),
                keep.len() == i,
                forall|k: int|
                    0 <= k < i ==> keep@[k] == !same_path_spec(self@[k].link, link@),
            decreases self.symlinks.len() - i,
        {
            keep.push(!paths::same_path(self.symlinks[i].link.as_str(), link));
            i += 1;
        }
        proof {
            lemma_kept_without_link(self@, keep@, link@);
            lemma_without_link_len(self@, link@);
            lemma_kept_views(self.symlinks@, keep@);
        }
        retain_marked(&mut self.symlinks, &keep);
        before != self.symlinks.len()
    }

    /// The first record keyed by `link`.
    pub fn find_entry(&self, link: &str) -> (found: Option<&SymlinkEntry>)
        ensures
            found is Some == tracks(self@, link@),
            found matches Some(entry) ==> *entry == self.symlinks@[position(self@, link@)],
    {
        let at = locate(&self.symlinks, link);
        if at < self.symlinks.len() {
            proof {
                lemma_position(self@, link@, at as int);
            }
            Some(&self.symlinks[at])
        } else {
            None
        }
    }

    /// Stamps the first record keyed by `link` as verified at `now`.
    pub fn mark_verified(&mut self, link: &str, now: &str)
        ensures
            final(self)@ == stamp_spec(old(self)@, link@, now@),
            old(self).wf() ==> final(self).wf(),
    {
        proof {
            lemma_mark_verified(self@, link@, now@);
        }
        let at = locate(&self.symlinks, link);
        if at < self.symlinks.len() {
            proof {
                lemma_position(self@, link@, at as int);
            }
            self.symlinks[at].last_verified = Some(String::from_str(now));
        } else {
            assert(!tracks(self@, link@));
        }
        assert(self@ =~= stamp_spec(old(self)@, link@, now@));
    }

    /// Stamps the first record keyed by `link` as verified at the present
    /// moment.
    pub fn update_verified(&mut self, link: &str)
        ensures
            exists|reading: Option<(u64, u32)>|
                final(self)@ == stamp_spec(old(self)@, link@, timestamp_spec(reading)),
            old(self).wf() ==> final(self).wf(),
    {
        let now = current_timestamp();
        self.mark_verified(link, now.as_str());
    }

    /// Works out the status of every record, given one probe per record, and
    /// stamps those found correct as verified at `now`. Nothing is removed.
    pub fn verify_all_at(&mut self, probes: &Vec<LinkProbe>, cwd: &str, now: &str) -> (results: Vec<
        (String, LinkStatus),
    >)
        requires
            probes.len() == old(self).symlinks.len(),
        ensures
            final(self)@ == verified_spec(old(self)@, views(probes@), cwd@, now@),
            results.len() == old(self)@.len(),
            forall|i: int|
                0 <= i < results.len() ==> {
                    &&& (#[trigger] results@[i]).0@ == old(self)@[i].link
                    &&& results@[i].1 == status_at(old(self)@, views(probes@), cwd@, i)
                },
            old(self).wf() ==> final(self).wf(),
    {
        proof {
            lemma_verify_all(self@, views(probes@), cwd@, now@);
        }
        let mut results: Vec<(String, LinkStatus)> = Vec::new();
        let mut i: usize = 0;
        while i < self.symlinks.len()
            invariant
                probes.len() == self.symlinks.len(),
                self@.len() == old(self)@.len(),
                i <= self.symlinks.len(),
                results.len() == i,
                forall|k: int|
                    0 <= k < i ==> {
                        &&& (#[trigger] results@[k]).0@ == old(self)@[k].link
                        &&& results@[k].1 == status_at(
                            old(self)@,
                            views(probes@),
                            cwd@,
                            k,
                        )
                    },
                forall|k: int|
                    0 <= k < i ==> self@[k] == verified_spec(
                        old(self)@,
                        views(probes@),
                        cwd@,
                        now@,
                    )[k],
                forall|k: int| i <= k < self@.len() ==> self@[k] == old(self)@[k],
            decreases self.symlinks.len() - i,
        {
            let ghost current = self@;
            let status = verify_symlink(&probes[i], self.symlinks[i].target.as_str(), cwd);
            let link = copy_text(&self.symlinks[i].link);
            match status {
                LinkStatus::Correct => {
                    self.symlinks[i].last_verified = Some(String::from_str(now));
                    assert(self@ =~= current.update(i as int, stamped(current[i as int], now@)));
                },
                _ => {},
            }
            results.push((link, status));
            i += 1;
        }
        results
    }

    /// Works out the status of every record, given one probe per record, and
    /// stamps those found correct as verified at the present moment.
    pub fn verify_all(&mut self, probes: &Vec<LinkProbe>, cwd: &str) -> (results: Vec<
        (String, LinkStatus),
    >)
        requires
            probes.len() == old(self).symlinks.len(),
        ensures
            exists|reading: Option<(u64, u32)>|
                final(self)@ == verified_spec(
                    old(self)@,
                    views(probes@),
                    cwd@,
                    timestamp_spec(reading),
                ),
            results.len() == old(self)@.len(),
            forall|i: int|
                0 <= i < results.len() ==> {
                    &&& (#[trigger] results@[i]).0@ == old(self)@[i].link
                    &&& results@[i].1 == status_at(old(self)@, views(probes@), cwd@, i)
                },
            old(self).wf() ==> final(self).wf(),
    {
        let now = current_timestamp();
        self.verify_all_at(probes, cwd, now.as_str())
    }

    /// The link paths of the records whose target lies at or below `root`,
    /// in ledger order. The ledger is left as it is.
    pub fn links_under(&self, root: &str) -> (links: Vec<String>)
        ensures
            views(links@) == links_inside(self@, root@),
    {
        let mut links: Vec<String> = Vec::new();
        let mut i: usize = 0;
        while i < self.symlinks.len()
            invariant
                i <= self.symlinks.len(),
                views(links@) == links_inside(self@.take(i as int), root@),
            decreases self.symlinks.len() - i,
        {
            assert(self@.take(i + 1).drop_last() =~= self@.take(i as int));
            if paths::starts_with(self.symlinks[i].target.as_str(), root) {
                links.push(copy_text(&self.symlinks[i].link));
            }
            i += 1;
        }
        assert(self@.take(i as int) =~= self@);
        links
    }

    /// Drops every record whose target lies at or below `root`, and hands
    /// back the link paths of the dropped records, in ledger order.
    pub fn remove_links_under(&mut self, root: &str) -> (removed: Vec<String>)
        ensures
            final(self)@ == outside(old(self)@, root@),
            views(removed@) == links_inside(old(self)@, root@),
            old(self).wf() ==> final(self).wf(),
    {
        proof {
            lemma_remove_links_under(self@, root@);
        }
        let mut removed: Vec<String> = Vec::new();
        let mut keep: Vec<bool> = Vec::new();
        let mut i: usize = 0;
        while i < self.symlinks.len()
            invariant
                i <= self.symlinks.len(),
                keep.len() == i,
                forall|k: int| 0 <= k < i ==> keep@[k] == !paths::within(self@[k].target, root@),
                views(removed@) == links_inside(self@.take(i as int), root@),
            decreases self.symlinks.len() - i,
        {
            let inside = paths::starts_with(self.symlinks[i].target.as_str(), root);
            assert(self@.take(i + 1).drop_last() =~= self@.take(i as int));
            if inside {
                removed.push(copy_text(&self.symlinks[i].link));
            }
            keep.push(!inside);
            i += 1;
        }
        assert(self@.take(i as int) =~= self@);
        proof {
            lemma_kept_outside(self@, keep@, root@);
            lemma_kept_views(self.symlinks@, keep@);
        }
        retain_marked(&mut self.symlinks, &keep);
        removed
    }
}

/// The first record keyed by `link` is the only first one.
pub proof fn lemma_position(store: Seq<LinkRecord>, link: Seq<char>, at: int)
    requires
        is_first(store, link, at),
    ensures
        tracks(store, link),
        position(store, link) == at,
{
    let chosen = position(store, link);
    assert(is_first(store, link, chosen));
    if chosen < at {
        assert(!same_path_spec(store[chosen].link, link));
    }
    if at < chosen {
        assert(!same_path_spec(store[at].link, link));
    }
}

/// Dropping the records keyed by `link` loses a record exactly when one is
/// keyed by it.
pub proof fn lemma_without_link_len(store: Seq<LinkRecord>, link: Seq<char>)
    ensures
        without_link(store, link).len() <= store.len(),
        without_link(store, link).len() == store.len() <==> !tracks(store, link),
    decreases store.len(),
{
    if store.len() > 0 {
        let front = store.drop_last();
        lemma_without_link_len(front, link);
        if tracks(front, link) {
            let i = choose|i: int| 0 <= i < front.len() && same_path_spec(front[i].link, link);
            assert(same_path_spec(store[i].link, link));
        }
        if same_path_spec(store.last().link, link) {
            assert(same_path_spec(store[store.len() - 1].link, link));
        } else if tracks(store, link) {
            let i = choose|i: int| 0 <= i < store.len() && same_path_spec(store[i].link, link);
            assert(same_path_spec(front[i].link, link));
        }
    }
}

/// Marks that spare exactly the records not keyed by `link` keep what
/// `without_link` keeps.
proof fn lemma_kept_without_link(store: Seq<LinkRecord>, keep: Seq<bool>, link: Seq<char>)
    requires
        store.len() <= keep.len(),
        forall|i: int| 0 <= i < store.len() ==> keep[i] == !same_path_spec(store[i].link, link),
    ensures
        kept(store, keep) == without_link(store, link),
    decreases store.len(),
{
    if store.len() > 0 {
        lemma_kept_without_link(store.drop_last(), keep, link);
    }
}

/// Marks that spare exactly the records that are not broken keep what
/// `surviving` keeps.
proof fn lemma_kept_surviving(
    store: Seq<LinkRecord>,
    keep: Seq<bool>,
    probes: Seq<ProbeView>,
    cwd: Seq<char>,
)
    requires
        store.len() <= keep.len(),
        forall|i: int|
            0 <= i < store.len() ==> keep[i] == !is_broken(status_at(store, probes, cwd, i)),
    ensures
        kept(store, keep) == surviving(store, probes, cwd),
    decreases store.len(),
{
    if store.len() > 0 {
        let front = store.drop_last();
        assert forall|i: int| 0 <= i < front.len() implies keep[i] == !is_broken(
            status_at(front, probes, cwd, i),
        ) by {
            assert(front[i] == store[i]);
        }
        lemma_kept_surviving(front, keep, probes, cwd);
    }
}

/// Marks that spare exactly the records whose target is not under `root`
/// keep what `outside` keeps.
proof fn lemma_kept_outside(store: Seq<LinkRecord>, keep: Seq<bool>, root: Seq<char>)
    requires
        store.len() <= keep.len(),
        forall|i: int| 0 <= i < store.len() ==> keep[i] == !paths::within(store[i].target, root),
    ensures
        kept(store, keep) == outside(store, root),
    decreases store.len(),
{
    if store.len() > 0 {
        lemma_kept_outside(store.drop_last(), keep, root);
    }
}

/// Picking records out of a ledger with unique link paths leaves the link
/// paths unique.
pub proof fn lemma_kept_links_unique(store: Seq<LinkRecord>, keep: Seq<bool>)
    requires
        unique_links(store),
    ensures
        unique_links(kept(store, keep)),
{
    let link_of = |record: LinkRecord| paths::components(record.link);
    assert(distinct_by(store, link_of)) by {
        assert forall|i: int, j: int|
            0 <= i < store.len() && 0 <= j < store.len() && i != j implies link_of(store[i])
            != link_of(store[j]) by {
            assert(!same_path_spec(store[i].link, store[j].link));
        }
    }
    lemma_kept_distinct(store, keep, link_of);
    let after = kept(store, keep);
    assert forall|i: int, j: int|
        0 <= i < after.len() && 0 <= j < after.len() && i != j implies
            !same_path_spec(after[i].link, after[j].link) by {
        assert(link_of(after[i]) != link_of(after[j]));
    }
}

/// Removing a link keeps a well-formed ledger well formed, leaves no record
/// keyed by the link, and keeps every other record: a record is in the
/// ledger afterwards exactly if it was there before and is keyed by another
/// link. Removing the same link once more changes nothing.
pub proof fn lemma_remove_entry(store: Seq<LinkRecord>, link: Seq<char>)
    ensures
        !tracks(without_link(store, link), link),
        forall|record: LinkRecord|
            without_link(store, link).contains(record) <==> store.contains(record)
                && !same_path_spec(record.link, link),
        unique_links(store) ==> unique_links(without_link(store, link)),
        without_link(without_link(store, link), link) == without_link(store, link),
{
    let keep = marks_without_link(store, link);
    let after = without_link(store, link);
    lemma_kept_without_link(store, keep, link);
    assert forall|record: LinkRecord| after.contains(record) implies store.contains(record)
        && !same_path_spec(record.link, link) by {
        let k = choose|k: int| 0 <= k < after.len() && after[k] == record;
        let i = lemma_kept_origin(store, keep, k);
    }
    assert forall|record: LinkRecord|
        store.contains(record) && !same_path_spec(record.link, link) implies after.contains(
        record,
    ) by {
        let i = choose|i: int| 0 <= i < store.len() && store[i] == record;
        let k = lemma_marked_is_kept(store, keep, i);
    }
    assert(!tracks(after, link)) by {
        if tracks(after, link) {
            let k = choose|k: int| 0 <= k < after.len() && same_path_spec(after[k].link, link);
            assert(after.contains(after[k]));
        }
    }
    if unique_links(store) {
        lemma_kept_links_unique(store, keep);
    }
    lemma_without_link_unchanged(after, link);
}

/// Removing a link that keys no record changes nothing.
pub proof fn lemma_without_link_unchanged(store: Seq<LinkRecord>, link: Seq<char>)
    requires
        !tracks(store, link),
    ensures
        without_link(store, link) == store,
    decreases store.len(),
{
    if store.len() > 0 {
        let front = store.drop_last();
        assert(!same_path_spec(store[store.len() - 1].link, link));
        assert(!tracks(front, link)) by {
            if tracks(front, link) {
                let i = choose|i: int| 0 <= i < front.len() && same_path_spec(front[i].link, link);
                assert(same_path_spec(store[i].link, link));
            }
        }
        lemma_without_link_unchanged(front, link);
        assert(front.push(store.last()) =~= store);
    }
}

/// Removing what lies under a root is complete and precise: a record is in
/// the ledger afterwards exactly if it was there before and its target does
/// not lie at or below the root; and a link path is handed back exactly if
/// it keys a record whose target does. A well-formed ledger stays well
/// formed.
pub proof fn lemma_remove_links_under(store: Seq<LinkRecord>, root: Seq<char>)
    ensures
        forall|record: LinkRecord|
            outside(store, root).contains(record) <==> store.contains(record) && !paths::within(
                record.target,
                root,
            ),
        forall|link: Seq<char>|
            links_inside(store, root).contains(link) <==> exists|i: int|
                0 <= i < store.len() && #[trigger] store[i].link == link && paths::within(
                    store[i].target,
                    root,
                ),
        unique_links(store) ==> unique_links(outside(store, root)),
        outside(store, root).len() + links_inside(store, root).len() == store.len(),
{
    let keep = marks_outside(store, root);
    let after = outside(store, root);
    lemma_kept_outside(store, keep, root);
    assert forall|record: LinkRecord| after.contains(record) implies store.contains(record)
        && !paths::within(record.target, root) by {
        let k = choose|k: int| 0 <= k < after.len() && after[k] == record;
        let i = lemma_kept_origin(store, keep, k);
    }
    assert forall|record: LinkRecord|
        store.contains(record) && !paths::within(record.target, root) implies after.contains(
        record,
    ) by {
        let i = choose|i: int| 0 <= i < store.len() && store[i] == record;
        let k = lemma_marked_is_kept(store, keep, i);
    }
    if unique_links(store) {
        lemma_kept_links_unique(store, keep);
    }
    lemma_links_inside(store, root);
}

/// The link paths that `links_inside` hands back, and how many there are.
proof fn lemma_links_inside(store: Seq<LinkRecord>, root: Seq<char>)
    ensures
        forall|link: Seq<char>|
            links_inside(store, root).contains(link) <==> exists|i: int|
                0 <= i < store.len() && #[trigger] store[i].link == link && paths::within(
                    store[i].target,
                    root,
                ),
        outside(store, root).len() + links_inside(store, root).len() == store.len(),
    decreases store.len(),
{
    let inside = links_inside(store, root);
    if store.len() > 0 {
        let front = store.drop_last();
        let rest = links_inside(front, root);
        let last = store.last();
        lemma_links_inside(front, root);
        assert forall|link: Seq<char>| inside.contains(link) implies exists|i: int|
            0 <= i < store.len() && #[trigger] store[i].link == link && paths::within(
                store[i].target,
                root,
            ) by {
            let k = choose|k: int| 0 <= k < inside.len() && inside[k] == link;
            if k < rest.len() {
                assert(rest.contains(link));
                let i = choose|i: int|
                    0 <= i < front.len() && #[trigger] front[i].link == link && paths::within(
                        front[i].target,
                        root,
                    );
                assert(same_path_spec(store[i].link, link));
            } else {
                assert(same_path_spec(store[store.len() - 1].link, link));
            }
        }
        assert forall|link: Seq<char>|
            (exists|i: int|
                0 <= i < store.len() && #[trigger] store[i].link == link && paths::within(
                    store[i].target,
                    root,
                )) implies inside.contains(link) by {
            let i = choose|i: int|
                0 <= i < store.len() && #[trigger] store[i].link == link && paths::within(
                    store[i].target,
                    root,
                );
            if i < front.len() {
                assert(same_path_spec(front[i].link, link));
                assert(rest.contains(link));
                let k = choose|k: int| 0 <= k < rest.len() && rest[k] == link;
                assert(inside[k] == link);
            } else {
                assert(inside[inside.len() - 1] == link);
            }
        }
    }
}

/// Cleaning up keeps exactly the records that are not broken, in their
/// order: the ledger afterwards is what the marks of the sound records pick
/// out. A record whose link exists but points elsewhere stays. A well-formed
/// ledger stays well formed.
pub proof fn lemma_cleanup_keeps_the_sound(
    store: Seq<LinkRecord>,
    probes: Seq<ProbeView>,
    cwd: Seq<char>,
)
    ensures
        surviving(store, probes, cwd) == kept(store, marks_surviving(store, probes, cwd)),
        forall|i: int|
            0 <= i < store.len() && !is_broken(status_at(store, probes, cwd, i)) ==> surviving(
                store,
                probes,
                cwd,
            ).contains(#[trigger] store[i]),
        unique_links(store) ==> unique_links(surviving(store, probes, cwd)),
        surviving(store, probes, cwd).len() <= store.len(),
{
    let keep = marks_surviving(store, probes, cwd);
    lemma_kept_surviving(store, keep, probes, cwd);
    assert forall|i: int|
        0 <= i < store.len() && !is_broken(status_at(store, probes, cwd, i)) implies surviving(
        store,
        probes,
        cwd,
    ).contains(#[trigger] store[i]) by {
        let k = lemma_marked_is_kept(store, keep, i);
    }
    if unique_links(store) {
        lemma_kept_links_unique(store, keep);
    }
    lemma_kept_len(store, keep);
}

/// Recording a link keeps a well-formed ledger well formed. The link is
/// tracked afterwards, its record points to the target and is stamped. Where
/// a record was keyed by the same path, whatever its spelling, that record
/// is retargeted in place: it keeps its own link text and its date of
/// creation, every other record stays as it was, and the ledger keeps its
/// length. Where none was, the ledger grows by one record. Recording the
/// same pair at the same moment once more changes nothing.
pub proof fn lemma_upsert(
    store: Seq<LinkRecord>,
    link: Seq<char>,
    target: Seq<char>,
    now: Seq<char>,
)
    ensures
        tracks(upsert_spec(store, link, target, now), link),
        ({
            let after = upsert_spec(store, link, target, now);
            let at = position(after, link);
            &&& same_path_spec(after[at].link, link)
            &&& after[at].target == target
            &&& after[at].last_verified == Some(now)
        }),
        upsert_spec(store, link, target, now).len() == if tracks(store, link) {
            store.len()
        } else {
            store.len() + 1
        },
        tracks(store, link) ==> {
            let after = upsert_spec(store, link, target, now);
            let at = position(store, link);
            &&& after[at].link == store[at].link
            &&& after[at].created_at == store[at].created_at
            &&& forall|j: int| 0 <= j < store.len() && j != at ==> after[j] == store[j]
        },
        unique_links(store) ==> unique_links(upsert_spec(store, link, target, now)),
        upsert_spec(upsert_spec(store, link, target, now), link, target, now) == upsert_spec(
            store,
            link,
            target,
            now,
        ),
{
    let after = upsert_spec(store, link, target, now);
    if tracks(store, link) {
        let found = choose|i: int| 0 <= i < store.len() && same_path_spec(store[i].link, link);
        lemma_first_exists(store, link, found);
        let at = position(store, link);
        assert(is_first(store, link, at));
        assert(is_first(after, link, at)) by {
            assert forall|j: int| 0 <= j < at implies !same_path_spec(after[j].link, link) by {
                assert(after[j] == store[j]);
            }
        }
        lemma_position(after, link, at);
        assert(after.update(at, retargeted(after[at], target, now)) =~= after);
        assert(unique_links(store) ==> unique_links(after)) by {
            if unique_links(store) {
                assert forall|i: int, j: int|
                    0 <= i < after.len() && 0 <= j < after.len() && i != j implies
                        !same_path_spec(after[i].link, after[j].link) by {
                    assert(after[i].link == store[i].link);
                    assert(after[j].link == store[j].link);
                }
            }
        }
    } else {
        let at = store.len() as int;
        assert(is_first(after, link, at)) by {
            assert forall|j: int| 0 <= j < at implies !same_path_spec(after[j].link, link) by {
                assert(after[j] == store[j]);
            }
        }
        lemma_position(after, link, at);
        assert(after.update(at, retargeted(after[at], target, now)) =~= after);
        assert(unique_links(store) ==> unique_links(after)) by {
            if unique_links(store) {
                assert forall|i: int, j: int|
                    0 <= i < after.len() && 0 <= j < after.len() && i != j implies
                        !same_path_spec(after[i].link, after[j].link) by {
                    if i < store.len() {
                        assert(after[i] == store[i]);
                    }
                    if j < store.len() {
                        assert(after[j] == store[j]);
                    }
                }
            }
        }
    }
}

/// Where some record is keyed by `link`, one of them is the first.
pub proof fn lemma_first_exists(store: Seq<LinkRecord>, link: Seq<char>, found: int)
    requires
        0 <= found < store.len(),
        same_path_spec(store[found].link, link),
    ensures
        is_first(store, link, position(store, link)),
        position(store, link) <= found,
    decreases found,
{
    if forall|j: int| 0 <= j < found ==> !same_path_spec(store[j].link, link) {
        lemma_position(store, link, found);
    } else {
        let earlier = choose|j: int| 0 <= j < found && same_path_spec(store[j].link, link);
        lemma_first_exists(store, link, earlier);
    }
}

/// Stamping a link changes nothing but the stamp of its first record: the
/// link paths, targets and dates of creation stay, and so does the length. A
/// well-formed ledger stays well formed.
pub proof fn lemma_mark_verified(store: Seq<LinkRecord>, link: Seq<char>, now: Seq<char>)
    ensures
        stamp_spec(store, link, now).len() == store.len(),
        forall|i: int|
            0 <= i < store.len() ==> {
                let after = #[trigger] stamp_spec(store, link, now)[i];
                &&& after.link == store[i].link
                &&& after.target == store[i].target
                &&& after.created_at == store[i].created_at
                &&& after.last_verified == if is_first(store, link, i) {
                    Some(now)
                } else {
                    store[i].last_verified
                }
            },
        unique_links(store) ==> unique_links(stamp_spec(store, link, now)),
{
    let after = stamp_spec(store, link, now);
    if tracks(store, link) {
        let found = choose|i: int| 0 <= i < store.len() && same_path_spec(store[i].link, link);
        lemma_first_exists(store, link, found);
        let at = position(store, link);
        assert forall|i: int| 0 <= i < store.len() && is_first(store, link, i) implies i == at by {
            lemma_position(store, link, i);
        }
    } else {
        assert forall|i: int| 0 <= i < store.len() implies !is_first(store, link, i) by {
            if is_first(store, link, i) {
                assert(same_path_spec(store[i].link, link));
            }
        }
    }
    if unique_links(store) {
        assert forall|i: int, j: int|
            0 <= i < after.len() && 0 <= j < after.len() && i != j implies
                !same_path_spec(after[i].link, after[j].link) by {
            assert(after[i].link == store[i].link);
            assert(after[j].link == store[j].link);
        }
    }
}

/// A round of verification changes no link path, no target and no date of
/// creation, removes nothing, and stamps exactly the records found correct.
pub proof fn lemma_verify_all(
    store: Seq<LinkRecord>,
    probes: Seq<ProbeView>,
    cwd: Seq<char>,
    now: Seq<char>,
)
    ensures
        verified_spec(store, probes, cwd, now).len() == store.len(),
        forall|i: int|
            0 <= i < store.len() ==> {
                let after = #[trigger] verified_spec(store, probes, cwd, now)[i];
                &&& after.link == store[i].link
                &&& after.target == store[i].target
                &&& after.created_at == store[i].created_at
                &&& after.last_verified == if status_at(store, probes, cwd, i) is Correct {
                    Some(now)
                } else {
                    store[i].last_verified
                }
            },
        unique_links(store) ==> unique_links(verified_spec(store, probes, cwd, now)),
{
    let after = verified_spec(store, probes, cwd, now);
    if unique_links(store) {
        assert forall|i: int, j: int|
            0 <= i < after.len() && 0 <= j < after.len() && i != j implies
                !same_path_spec(after[i].link, after[j].link) by {
            assert(after[i].link == store[i].link);
            assert(after[j].link == store[j].link);
        }
    }
}

} // verus!
