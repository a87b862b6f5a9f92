//! Managing entries: taking a source into management, bringing the managed
//! entries up to date, and letting one go.
//!
//! What is decided here is decided from plain values. Whoever drives the
//! library looks at the disk, runs the outside tools and asks the user, and
//! hands over what was found.

use vstd::prelude::*;
use vstd::string::*;
use crate::config::{
    default_dotme_dir,
    manages,
    text_of,
    without_source,
    Config,
    ConfigView,
    DotfileEntry,
    EntryView,
    SourceType,
};
use crate::error::{DotmeError, ErrorView};
use crate::paths;
use crate::planner::SourceKind;
use crate::select::views;
use crate::symlinks::{
    links_inside,
    outside,
    status_label_spec,
    LinkRecord,
    LinkStatus,
    SymlinkEntry,
    SymlinkState,
};
use crate::system::home_directory;
use crate::text;
use crate::text::{chars_of, copy_text, occurs_in};
use crate::walker::{Frame, FrameKind, FrameView};

verus! {

/// What is to be done to take a source into management.
#[derive(Debug, Clone, PartialEq, Eq)]
pub struct AddPlan {
    /// The entry as it will be managed. Where the user is still to be asked,
    /// its folders are filled in afterwards.
    pub entry: DotfileEntry,
    /// Whether the user is to be asked which folders to link.
    pub ask_folders: bool,
}

/// A plan as a mathematical value.
pub struct AddPlanView {
    pub entry: EntryView,
    pub ask_folders: bool,
}

impl View for AddPlan {
    type V = AddPlanView;

    open spec fn view(&self) -> AddPlanView {
        AddPlanView { entry: self.entry@, ask_folders: self.ask_folders }
    }
}

/// What is to be done on disk once the plan for taking a source into
/// management stands.
#[derive(Debug, Clone, Copy, PartialEq, Eq, Structural)]
pub struct AddStep {
    /// Whether the version-control tool is checked and the repository is
    /// cloned. A clone that exists is kept as it is.
    pub clone: bool,
    /// Whether the user is asked which folders to link.
    pub ask_folders: bool,
    /// Whether the entry is written into the configuration, and the ledger
    /// is written after the walk.
    pub persist: bool,
    /// Whether the source is walked. Where it is not, all that is reported
    /// is that the repository would be cloned.
    pub walk: bool,
}

/// What is to be done about the clone of an entry before its links are
/// renewed.
#[derive(Debug, Clone, Copy, PartialEq, Eq, Structural)]
pub enum GitStep {
    /// The entry is no repository: nothing.
    Nothing,
    /// The clone is missing: clone the repository.
    Clone,
    /// The clone is there: pull the latest changes.
    Pull,
    /// Simulation: the repository would be cloned.
    WouldClone,
    /// Simulation: the latest changes would be pulled.
    WouldPull,
}

/// What is left to do on disk once an entry has been let go.
#[derive(Debug, Clone, PartialEq, Eq)]
pub struct Forgotten {
    /// The links to delete, in ledger order.
    pub links: Vec<String>,
    /// The clone to delete, where the entry was a repository.
    pub clone: Option<String>,
}

/// What letting go of an entry leaves to do, as a mathematical value.
pub struct ForgottenView {
    pub links: Seq<Seq<char>>,
    pub clone: Option<Seq<char>>,
}

impl View for Forgotten {
    type V = ForgottenView;

    open spec fn view(&self) -> ForgottenView {
        ForgottenView { links: views(self.links@), clone: text_of(self.clone) }
    }
}

/// The configuration file below `home`.
pub open spec fn config_path_spec(home: Seq<char>) -> Seq<char> {
    paths::join_spec(default_dotme_dir(home), "config.yml"@)
}

/// The directory of the clones below `home`.
pub open spec fn git_dir_default(home: Seq<char>) -> Seq<char> {
    paths::join_spec(default_dotme_dir(home), "git"@)
}

/// Whether `source` reads as the address of a repository: a web address that
/// ends in `.git` or names one of the two well-known hosts, or an address
/// for access over a secure shell.
pub open spec fn is_repository_url_spec(source: Seq<char>) -> bool {
    let hosted = ".git"@.is_suffix_of(source) || occurs_in(source, "github.com"@) || occurs_in(
        source,
        "gitlab.com"@,
    );
    ||| "https://"@.is_prefix_of(source) && hosted
    ||| "http://"@.is_prefix_of(source) && hosted
    ||| "git@"@.is_prefix_of(source)
    ||| "ssh://git@"@.is_prefix_of(source)
}

/// The kind of a source: a repository where it reads as an address, else
/// whatever stands on disk at its path. A source that is neither is refused.
pub open spec fn detect_spec(source: Seq<char>, on_disk: SourceKind) -> Result<
    SourceType,
    ErrorView,
> {
    if is_repository_url_spec(source) {
        Ok(SourceType::Git)
    } else {
        match on_disk {
            SourceKind::Directory => Ok(SourceType::Directory),
            SourceKind::File => Ok(SourceType::File),
            SourceKind::Missing => Err(ErrorView::SourceTypeUndetectable { source }),
        }
    }
}

/// The view of a value that was worked out or of the error that came
/// instead.
pub open spec fn worked_out<T: View>(result: Result<T, DotmeError>) -> Result<T::V, ErrorView> {
    match result {
        Ok(value) => Ok(value@),
        Err(error) => Err(error@),
    }
}

/// The kind of a source, or the error that it is of no kind.
pub open spec fn detected(result: Result<SourceType, DotmeError>) -> Result<SourceType, ErrorView> {
    match result {
        Ok(kind) => Ok(kind),
        Err(error) => Err(error@),
    }
}

/// What follows the last `/` of `text`; all of it where it holds none.
pub open spec fn last_segment(text: Seq<char>) -> Seq<char>
    decreases text.len(),
{
    if text.len() == 0 {
        text
    } else if text.last() == '/' {
        Seq::empty()
    } else {
        last_segment(text.drop_last()).push(text.last())
    }
}

/// The ending that marks the address of a repository.
pub open spec fn git_suffix() -> Seq<char> {
    seq!['.', 'g', 'i', 't']
}

/// `text` without any `.git` at its end, however often it is repeated.
pub open spec fn without_git_suffix(text: Seq<char>) -> Seq<char>
    decreases text.len(),
{
    if git_suffix().is_suffix_of(text) {
        without_git_suffix(text.take(text.len() - 4))
    } else {
        text
    }
}

/// The name under which a repository is cloned: the last segment of its
/// address, without `.git` at the end.
pub open spec fn repository_name_spec(url: Seq<char>) -> Seq<char> {
    without_git_suffix(last_segment(url))
}

/// Where a source is kept when the user names no place: a repository in a
/// directory of its own name below the directory of the clones, anything
/// else under its own name below the base path.
pub open spec fn default_target_spec(
    source: Seq<char>,
    kind: SourceType,
    base: Seq<char>,
    git_dir: Option<Seq<char>>,
) -> Result<Seq<char>, ErrorView> {
    if kind is Git {
        match git_dir {
            Some(dir) => Ok(paths::join_spec(dir, repository_name_spec(source))),
            None => Err(ErrorView::HomeUnavailable),
        }
    } else {
        match paths::file_name_spec(source) {
            Some(name) => Ok(paths::join_spec(base, name)),
            None => Err(ErrorView::MissingFileName { path: source }),
        }
    }
}

/// Which folders of a repository are linked, and whether the user is still
/// to be asked. A base path that the user named means the whole repository
/// and no question, whatever folders were named; without one, the named
/// folders are taken, and where none were named the user is asked. For
/// anything but a repository the folders are kept as given.
pub open spec fn folder_choice_spec(
    kind: SourceType,
    path_given: bool,
    folders: Option<Seq<Seq<char>>>,
) -> (Option<Seq<Seq<char>>>, bool) {
    if kind is Git {
        if path_given {
            (None, false)
        } else if folders is None {
            (None, true)
        } else {
            (folders, false)
        }
    } else {
        (folders, false)
    }
}

/// The plan for taking `source` into management.
///
/// `entries` are the managed entries, if the tool has been set up; `on_disk`
/// says what stands at the path of the source; `target`, `path` and `folders`
/// are what the user asked for; `cwd` is the base path where the user named
/// none. The checks come in this order: the tool must be set up, the kind of
/// the source must be clear, a place to keep it must be found, and the source
/// must not be managed yet.
pub open spec fn plan_add_spec(
    entries: Option<Seq<EntryView>>,
    source: Seq<char>,
    on_disk: SourceKind,
    target: Option<Seq<char>>,
    path: Option<Seq<char>>,
    folders: Option<Seq<Seq<char>>>,
    cwd: Seq<char>,
    git_dir: Option<Seq<char>>,
) -> Result<AddPlanView, ErrorView> {
    match entries {
        None => Err(ErrorView::NotInitialized),
        Some(entries) => match detect_spec(source, on_disk) {
            Err(error) => Err(error),
            Ok(kind) => {
                let base = match path {
                    Some(path) => path,
                    None => cwd,
                };
                let place = match target {
                    Some(target) => Ok(target),
                    None => default_target_spec(source, kind, base, git_dir),
                };
                match place {
                    Err(error) => Err(error),
                    Ok(place) => if manages(entries, source) {
                        Err(ErrorView::DuplicateSource { source })
                    } else {
                        let (chosen, ask_folders) = folder_choice_spec(
                            kind,
                            path is Some,
                            folders,
                        );
                        Ok(
                            AddPlanView {
                                entry: EntryView {
                                    source,
                                    target: place,
                                    kind,
                                    path: Some(base),
                                    folders: chosen,
                                },
                                ask_folders,
                            },
                        )
                    },
                }
            },
        },
    }
}

/// What is to be done on disk to take a source of kind `kind` into
/// management, given whether its clone exists and whether the plan leaves
/// the choice of folders to the user.
///
/// A simulation changes nothing: it runs no tool and writes neither the
/// configuration nor the ledger. It walks the source only where the source
/// is on disk, which for a repository means that the clone exists; the user
/// is asked about folders only where the source is walked. Otherwise a
/// repository is cloned, the user is asked where the plan says so, the
/// source is walked, and everything is written.
pub open spec fn add_step_spec(
    kind: SourceType,
    clone_exists: bool,
    ask_folders: bool,
    dry_run: bool,
) -> AddStep {
    if dry_run {
        let on_disk = !(kind is Git) || clone_exists;
        AddStep { clone: false, ask_folders: ask_folders && on_disk, persist: false, walk: on_disk }
    } else {
        AddStep { clone: kind is Git, ask_folders, persist: true, walk: true }
    }
}

/// The views of a list of strings that may be absent.
pub open spec fn texts_of(list: Option<Vec<String>>) -> Option<Seq<Seq<char>>> {
    match list {
        Some(list) => Some(views(list@)),
        None => None,
    }
}

/// The managed entries of a configuration that may be absent.
pub open spec fn entries_of(config: Option<&Config>) -> Option<Seq<EntryView>> {
    match config {
        Some(config) => Some(config@.dotfiles),
        None => None,
    }
}

/// The view of a string slice that may be absent.
pub open spec fn slice_of(text: Option<&str>) -> Option<Seq<char>> {
    match text {
        Some(text) => Some(text@),
        None => None,
    }
}

/// The path below which everything lies that the links of an entry point to:
/// the source itself for a file or a directory, the clone for a repository.
pub open spec fn entry_root_spec(entry: EntryView) -> Seq<char> {
    if entry.kind is Git {
        entry.target
    } else {
        entry.source
    }
}

/// The frame for linking the contents of `source` into `base`.
pub open spec fn contents_frame(source: Seq<char>, base: Seq<char>) -> FrameView {
    FrameView { source, target: base, kind: FrameKind::Contents, depth: 0 }
}

/// Where the walk over an entry begins, links going under `base`.
///
/// A file is paired with the path of its own name below `base`. The contents
/// of a directory are linked into `base`, not the directory itself. Of a
/// repository the contents of each chosen folder are linked into `base`, in
/// the order in which the folders were chosen, or the contents of the whole
/// clone where none was.
pub open spec fn entry_roots_spec(entry: EntryView, base: Seq<char>) -> Result<
    Seq<FrameView>,
    ErrorView,
> {
    match entry.kind {
        SourceType::File => match paths::file_name_spec(entry.source) {
            Some(name) => Ok(
                seq![
                    FrameView {
                        source: entry.source,
                        target: paths::join_spec(base, name),
                        kind: FrameKind::Pair,
                        depth: 0,
                    },
                ],
            ),
            None => Err(ErrorView::MissingFileName { path: entry.source }),
        },
        SourceType::Directory => Ok(seq![contents_frame(entry.source, base)]),
        SourceType::Git => match entry.folders {
            Some(folders) => Ok(
                Seq::new(
                    folders.len(),
                    |i: int| contents_frame(paths::join_spec(entry.target, folders[i]), base),
                ),
            ),
            None => Ok(seq![contents_frame(entry.target, base)]),
        },
    }
}

/// The views of the frames that were worked out, or of the error that came
/// instead.
pub open spec fn frames_of(result: Result<Vec<Frame>, DotmeError>) -> Result<
    Seq<FrameView>,
    ErrorView,
> {
    match result {
        Ok(frames) => Ok(views(frames@)),
        Err(error) => Err(error@),
    }
}

/// What is to be done about the clone of an entry of kind `kind`, given
/// whether the clone exists. In a simulation nothing is run.
pub open spec fn git_step_spec(kind: SourceType, clone_exists: bool, dry_run: bool) -> GitStep {
    if !(kind is Git) {
        GitStep::Nothing
    } else if clone_exists {
        if dry_run {
            GitStep::WouldPull
        } else {
            GitStep::Pull
        }
    } else {
        if dry_run {
            GitStep::WouldClone
        } else {
            GitStep::Clone
        }
    }
}

/// The directory under which the links of an entry are renewed: the one kept
/// with the entry, else the home directory, which must then be known.
pub open spec fn update_base_spec(entry: EntryView, home: Option<Seq<char>>) -> Result<
    Seq<char>,
    ErrorView,
> {
    match entry.path {
        Some(path) => Ok(path),
        None => match home {
            Some(home) => Ok(home),
            None => Err(ErrorView::HomeUnavailable),
        },
    }
}

/// The ledger after the old links of an entry were cleared away: in a
/// simulation it is left as it is, else the records whose target lies at or
/// below the root of the entry are gone.
pub open spec fn cleared_spec(store: Seq<LinkRecord>, entry: EntryView, dry_run: bool) -> Seq<
    LinkRecord,
> {
    if dry_run {
        store
    } else {
        outside(store, entry_root_spec(entry))
    }
}

/// The configuration after a round of updates that ended at `now`: the
/// moment is noted, unless the round was a simulation.
pub open spec fn finished_update_spec(
    config: ConfigView,
    dry_run: bool,
    now: Seq<char>,
) -> ConfigView {
    if dry_run {
        config
    } else {
        ConfigView { updated: Some(now), ..config }
    }
}

/// The clone that goes with an entry, if it is a repository.
pub open spec fn clone_of(entry: EntryView) -> Option<Seq<char>> {
    if entry.kind is Git {
        Some(entry.target)
    } else {
        None
    }
}

/// Letting go of the entry with the source `source`: what is left to do on
/// disk, the configuration and the ledger afterwards.
///
/// A source that is not managed is refused, and nothing changes. Otherwise
/// every record whose target lies at or below the root of the entry leaves
/// the ledger, and no other; the paths of those links are handed back, with
/// the clone where the entry is a repository; and the entry leaves the
/// configuration.
pub open spec fn remove_spec(
    config: ConfigView,
    store: Seq<LinkRecord>,
    source: Seq<char>,
) -> (Result<ForgottenView, ErrorView>, ConfigView, Seq<LinkRecord>) {
    if !manages(config.dotfiles, source) {
        (Err(ErrorView::NotManaged { source }), config, store)
    } else {
        let entry = config.dotfiles[crate::config::entry_position(config.dotfiles, source)];
        let root = entry_root_spec(entry);
        (
            Ok(ForgottenView { links: links_inside(store, root), clone: clone_of(entry) }),
            ConfigView { dotfiles: without_source(config.dotfiles, source), ..config },
            outside(store, root),
        )
    }
}

/// How an entry is shown where the user picks one: its kind in brackets,
/// then its source.
pub open spec fn entry_label_spec(entry: EntryView) -> Seq<char> {
    "["@ + crate::config::label_spec(entry.kind) + "] "@ + entry.source
}

/// The texts of `items` in one line, with `separator` between them.
pub open spec fn joined_spec(items: Seq<Seq<char>>, separator: Seq<char>) -> Seq<char>
    decreases items.len(),
{
    if items.len() == 0 {
        Seq::empty()
    } else if items.len() == 1 {
        items[0]
    } else {
        joined_spec(items.drop_last(), separator) + separator + items.last()
    }
}

/// What the status display says of one entry, line by line: whether what
/// the entry keeps exists, and its kind; its source; then, for a repository,
/// the clone and the chosen folders, for anything else the place where it is
/// kept; and an empty line.
pub open spec fn entry_status_spec(entry: EntryView, exists: bool) -> Seq<Seq<char>> {
    let mark = if exists {
        "\u{2713} exists"@
    } else {
        "\u{2717} missing"@
    };
    let head = seq![
        "  "@ + mark + " ["@ + crate::config::label_spec(entry.kind) + "]"@,
        "    Source: "@ + entry.source,
    ];
    let place = if entry.kind is Git {
        match entry.folders {
            Some(folders) => seq![
                "    Local:  "@ + entry.target,
                "    Folders: "@ + joined_spec(folders, ", "@),
            ],
            None => seq!["    Local:  "@ + entry.target],
        }
    } else {
        seq!["    Target: "@ + entry.target]
    };
    head + place + seq![Seq::<char>::empty()]
}

/// What the listing says of one recorded link, line by line: its status and
/// path; what it points to; when it was created and, where that is known,
/// last verified, each moment as the caller words it; and an empty line.
pub open spec fn link_listing_spec(
    record: LinkRecord,
    status: LinkStatus,
    created: Seq<char>,
    verified: Option<Seq<char>>,
) -> Seq<Seq<char>> {
    let head = seq![
        "  "@ + status_label_spec(status) + " "@ + record.link,
        "    \u{2192} "@ + record.target,
        "    Created: "@ + created,
    ];
    let stamp = match verified {
        Some(verified) => seq!["    Verified: "@ + verified],
        None => Seq::empty(),
    };
    head + stamp + seq![Seq::<char>::empty()]
}

/// How a moment is shown: in local time where the caller could word it so,
/// else as the timestamp stands.
pub open spec fn shown_timestamp_spec(timestamp: Seq<char>, local: Option<Seq<char>>) -> Seq<char> {
    match local {
        Some(local) => local,
        None => timestamp,
    }
}

/// The tool's own directory below `home`.
pub fn dotme_dir_in(home: &str) -> (dir: String)
    ensures
        dir@ == default_dotme_dir(home@),
{
    paths::join(home, ".dotme")
}

/// The configuration file below `home`.
pub fn config_path_in(home: &str) -> (path: String)
    ensures
        path@ == config_path_spec(home@),
{
    let dir = dotme_dir_in(home);
    paths::join(dir.as_str(), "config.yml")
}

/// The directory of the clones below `home`.
pub fn git_dir_in(home: &str) -> (dir: String)
    ensures
        dir@ == git_dir_default(home@),
{
    let dir = dotme_dir_in(home);
    paths::join(dir.as_str(), "git")
}

/// The tool's own directory below the home directory of the current user.
pub fn get_dotme_dir() -> (dir: Result<String, DotmeError>)
    ensures
        match dir {
            Ok(dir) => exists|home: Seq<char>| dir@ == default_dotme_dir(home),
            Err(error) => error@ == ErrorView::HomeUnavailable,
        },
{
    match home_directory() {
        Some(home) => Ok(dotme_dir_in(home.as_str())),
        None => Err(DotmeError::HomeUnavailable),
    }
}

/// The configuration file below the home directory of the current user.
pub fn get_config_path() -> (path: Result<String, DotmeError>)
    ensures
        match path {
            Ok(path) => exists|home: Seq<char>| path@ == config_path_spec(home),
            Err(error) => error@ == ErrorView::HomeUnavailable,
        },
{
    match home_directory() {
        Some(home) => Ok(config_path_in(home.as_str())),
        None => Err(DotmeError::HomeUnavailable),
    }
}

/// The directory of the clones below the home directory of the current user.
pub fn get_git_dir() -> (dir: Result<String, DotmeError>)
    ensures
        match dir {
            Ok(dir) => exists|home: Seq<char>| dir@ == git_dir_default(home),
            Err(error) => error@ == ErrorView::HomeUnavailable,
        },
{
    match home_directory() {
        Some(home) => Ok(git_dir_in(home.as_str())),
        None => Err(DotmeError::HomeUnavailable),
    }
}

/// Whether `source` reads as the address of a repository.
pub fn is_repository_url(source: &str) -> (yes: bool)
    ensures
        yes == is_repository_url_spec(source@),
{
    let hosted = text::ends_with(source, ".git") || text::contains(source, "github.com")
        || text::contains(source, "gitlab.com");
    if text::starts_with(source, "https://") && hosted {
        return true;
    }
    if text::starts_with(source, "http://") && hosted {
        return true;
    }
    text::starts_with(source, "git@") || text::starts_with(source, "ssh://git@")
}

/// Works out the kind of `source`, given what stands on disk at its path.
pub fn detect_source_type(source: &str, on_disk: SourceKind) -> (kind: Result<
    SourceType,
    DotmeError,
>)
    ensures
        detected(kind) == detect_spec(source@, on_disk),
{
    if is_repository_url(source) {
        return Ok(SourceType::Git);
    }
    match on_disk {
        SourceKind::Directory => Ok(SourceType::Directory),
        SourceKind::File => Ok(SourceType::File),
        SourceKind::Missing => Err(
            DotmeError::SourceTypeUndetectable { source: String::from_str(source) },
        ),
    }
}

/// The name under which the repository at `url` is cloned.
pub fn repository_name(url: &str) -> (name: String)
    ensures
        name@ == repository_name_spec(url@),
{
    let text = chars_of(url);
    let mut from: usize = text.len();
    while from > 0 && text[from - 1] != '/'
        invariant
            from <= text.len(),
            forall|j: int| from <= j < text.len() ==> text@[j] != '/',
        decreases from,
    {
        from -= 1;
    }
    proof {
        lemma_last_segment(text@, from as int);
    }
    let ghost segment = text@.subrange(from as int, text@.len() as int);
    let mut to: usize = text.len();
    while to - from >= 4 && text[to - 4] == '.' && text[to - 3] == 'g' && text[to - 2] == 'i'
        && text[to - 1] == 't'
        invariant
            from <= to <= text.len(),
            segment == text@.subrange(from as int, text@.len() as int),
            without_git_suffix(segment) == without_git_suffix(
                text@.subrange(from as int, to as int),
            ),
        decreases to,
    {
        let ghost piece = text@.subrange(from as int, to as int);
        assert(piece.take(piece.len() - 4) =~= text@.subrange(from as int, to - 4));
        to -= 4;
    }
    assert(!git_suffix().is_suffix_of(text@.subrange(from as int, to as int)));
    String::from_str(url.substring_char(from, to))
}

/// Works out where a source is kept when the user names no place.
pub fn default_target(source: &str, kind: SourceType, base: &str, git_dir: Option<&str>) -> (target:
    Result<String, DotmeError>)
    ensures
        worked_out(target) == default_target_spec(
            source@,
            kind,
            base@,
            match git_dir {
                Some(dir) => Some(dir@),
                None => None,
            },
        ),
{
    match kind {
        SourceType::Git => match git_dir {
            Some(dir) => {
                let name = repository_name(source);
                Ok(paths::join(dir, name.as_str()))
            },
            None => Err(DotmeError::HomeUnavailable),
        },
        _ => match paths::file_name(source) {
            Some(name) => Ok(paths::join(base, name.as_str())),
            None => Err(DotmeError::MissingFileName { path: String::from_str(source) }),
        },
    }
}

/// Plans how `source` is taken into management. Nothing is changed: the
/// entry of the plan is added to the configuration by the caller, once the
/// repository is cloned and the user has been asked.
pub fn plan_add(
    config: Option<&Config>,
    source: &str,
    on_disk: SourceKind,
    target: Option<String>,
    path: Option<String>,
    folders: Option<Vec<String>>,
    cwd: &str,
    git_dir: Option<&str>,
) -> (plan: Result<AddPlan, DotmeError>)
    ensures
        worked_out(plan) == plan_add_spec(
            entries_of(config),
            source@,
            on_disk,
            text_of(target),
            text_of(path),
            texts_of(folders),
            cwd@,
            slice_of(git_dir),
        ),
{
    let config = match config {
        None => {
            return Err(DotmeError::NotInitialized);
        },
        Some(config) => config,
    };
    let kind = match detect_source_type(source, on_disk) {
        Err(error) => {
            return Err(error);
        },
        Ok(kind) => kind,
    };
    let path_given = path.is_some();
    let base = match path {
        Some(path) => path,
        None => String::from_str(cwd),
    };
    let place = match target {
        Some(target) => target,
        None => match default_target(source, kind, base.as_str(), git_dir) {
            Err(error) => {
                return Err(error);
            },
            Ok(place) => place,
        },
    };
    if config.find_dotfile(source).is_some() {
        return Err(DotmeError::DuplicateSource { source: String::from_str(source) });
    }
    let (chosen, ask_folders) = match kind {
        SourceType::Git => if path_given {
            (None, false)
        } else if folders.is_none() {
            (None, true)
        } else {
            (folders, false)
        },
        _ => (folders, false),
    };
    Ok(
        AddPlan {
            entry: DotfileEntry {
                source: String::from_str(source),
                target: place,
                kind,
                path: Some(base),
                folders: chosen,
            },
            ask_folders,
        },
    )
}

/// Decides what is to be done on disk to take a source into management. In
/// a simulation nothing is cloned and nothing is written.
pub fn add_step(kind: SourceType, clone_exists: bool, ask_folders: bool, dry_run: bool) -> (step:
    AddStep)
    ensures
        step == add_step_spec(kind, clone_exists, ask_folders, dry_run),
        dry_run ==> !step.clone && !step.persist,
{
    let is_repository = match kind {
        SourceType::Git => true,
        _ => false,
    };
    if dry_run {
        let on_disk = !is_repository || clone_exists;
        AddStep { clone: false, ask_folders: ask_folders && on_disk, persist: false, walk: on_disk }
    } else {
        AddStep { clone: is_repository, ask_folders, persist: true, walk: true }
    }
}

/// The path below which everything lies that the links of `entry` point to.
pub fn entry_root(entry: &DotfileEntry) -> (root: String)
    ensures
        root@ == entry_root_spec(entry@),
{
    match entry.kind {
        SourceType::Git => copy_text(&entry.target),
        _ => copy_text(&entry.source),
    }
}

/// Works out where the walk over `entry` begins, links going under `base`.
pub fn entry_roots(entry: &DotfileEntry, base: &str) -> (roots: Result<Vec<Frame>, DotmeError>)
    ensures
        frames_of(roots) == entry_roots_spec(entry@, base@),
{
    let mut roots: Vec<Frame> = Vec::new();
    match entry.kind {
        SourceType::File => match paths::file_name(entry.source.as_str()) {
            Some(name) => {
                roots.push(
                    Frame {
                        source: copy_text(&entry.source),
                        target: paths::join(base, name.as_str()),
                        kind: FrameKind::Pair,
                        depth: 0,
                    },
                );
                assert(frames_of(Ok(roots)) =~= entry_roots_spec(entry@, base@)) by {
                    assert(views(roots@) =~= entry_roots_spec(entry@, base@)->Ok_0);
                }
            },
            None => {
                return Err(DotmeError::MissingFileName { path: copy_text(&entry.source) });
            },
        },
        SourceType::Directory => {
            roots.push(
                Frame {
                    source: copy_text(&entry.source),
                    target: String::from_str(base),
                    kind: FrameKind::Contents,
                    depth: 0,
                },
            );
            assert(views(roots@) =~= entry_roots_spec(entry@, base@)->Ok_0);
        },
        SourceType::Git => match &entry.folders {
            Some(folders) => {
                let ghost wanted = entry_roots_spec(entry@, base@)->Ok_0;
                let mut i: usize = 0;
                while i < folders.len()
                    invariant
                        i <= folders.len(),
                        entry.kind is Git,
                        entry.folders == Some(*folders),
                        wanted == entry_roots_spec(entry@, base@)->Ok_0,
                        views(roots@) == wanted.take(i as int),
                    decreases folders.len() - i,
                {
                    let ghost earlier = views(roots@);
                    let frame = Frame {
                        source: paths::join(entry.target.as_str(), folders[i].as_str()),
                        target: String::from_str(base),
                        kind: FrameKind::Contents,
                        depth: 0,
                    };
                    roots.push(frame);
                    assert(views(roots@) =~= earlier.push(frame@));
                    i += 1;
                }
                assert(wanted.take(i as int) =~= wanted);
            },
            None => {
                roots.push(
                    Frame {
                        source: copy_text(&entry.target),
                        target: String::from_str(base),
                        kind: FrameKind::Contents,
                        depth: 0,
                    },
                );
                assert(views(roots@) =~= entry_roots_spec(entry@, base@)->Ok_0);
            },
        },
    }
    Ok(roots)
}

/// Decides what is to be done about the clone of an entry.
pub fn git_step(kind: SourceType, clone_exists: bool, dry_run: bool) -> (step: GitStep)
    ensures
        step == git_step_spec(kind, clone_exists, dry_run),
{
    match kind {
        SourceType::Git => if clone_exists {
            if dry_run {
                GitStep::WouldPull
            } else {
                GitStep::Pull
            }
        } else {
            if dry_run {
                GitStep::WouldClone
            } else {
                GitStep::Clone
            }
        },
        _ => GitStep::Nothing,
    }
}

/// Works out the directory under which the links of `entry` are renewed.
pub fn update_base(entry: &DotfileEntry, home: Option<&str>) -> (base: Result<String, DotmeError>)
    ensures
        worked_out(base) == update_base_spec(entry@, slice_of(home)),
{
    match &entry.path {
        Some(path) => Ok(copy_text(path)),
        None => match home {
            Some(home) => Ok(String::from_str(home)),
            None => Err(DotmeError::HomeUnavailable),
        },
    }
}

/// Clears the links of `entry` out of the ledger and hands back their paths,
/// so that the caller can delete them from disk. In a simulation the ledger
/// is left as it is and the paths are only reported.
pub fn remove_symlinks_for_entry(
    store: &mut SymlinkState,
    entry: &DotfileEntry,
    dry_run: bool,
) -> (links: Vec<String>)
    ensures
        final(store)@ == cleared_spec(old(store)@, entry@, dry_run),
        views(links@) == links_inside(old(store)@, entry_root_spec(entry@)),
        old(store).wf() ==> final(store).wf(),
{
    let root = entry_root(entry);
    if dry_run {
        store.links_under(root.as_str())
    } else {
        store.remove_links_under(root.as_str())
    }
}

/// Notes `now` as the moment of the last update, unless the round was a
/// simulation.
pub fn finish_update(config: &mut Config, dry_run: bool, now: &str)
    ensures
        final(config)@ == finished_update_spec(old(config)@, dry_run, now@),
{
    if !dry_run {
        config.set_updated(now);
    }
}

/// Lets go of the entry with the source `source`.
pub fn remove(config: &mut Config, store: &mut SymlinkState, source: &str) -> (done: Result<
    Forgotten,
    DotmeError,
>)
    ensures
        (worked_out(done), final(config)@, final(store)@) == remove_spec(
            old(config)@,
            old(store)@,
            source@,
        ),
        old(config).wf() ==> final(config).wf(),
        old(store).wf() ==> final(store).wf(),
{
    let at = match config.find_dotfile(source) {
        None => {
            return Err(DotmeError::NotManaged { source: String::from_str(source) });
        },
        Some(at) => at,
    };
    let entry = &config.dotfiles[at];
    let root = entry_root(entry);
    let clone = match entry.kind {
        SourceType::Git => Some(copy_text(&entry.target)),
        _ => None,
    };
    let links = store.remove_links_under(root.as_str());
    config.remove_dotfile(source);
    Ok(Forgotten { links, clone })
}

/// How `entry` is shown where the user picks one.
pub fn entry_label(entry: &DotfileEntry) -> (label: String)
    ensures
        label@ == entry_label_spec(entry@),
{
    let mut label = String::from_str("[");
    let kind = entry.kind.label();
    label.append(kind.as_str());
    label.append("] ");
    label.append(entry.source.as_str());
    label
}

/// Puts the texts of `items` in one line, with `separator` between them.
pub fn join_texts(items: &Vec<String>, separator: &str) -> (line: String)
    ensures
        line@ == joined_spec(views(items@), separator@),
{
    let mut line = String::new();
    let ghost all = views(items@);
    let mut i: usize = 0;
    while i < items.len()
        invariant
            i <= items.len(),
            all == views(items@),
            line@ == joined_spec(all.take(i as int), separator@),
        decreases items.len() - i,
    {
        assert(all.take(i + 1).drop_last() =~= all.take(i as int));
        if i > 0 {
            line.append(separator);
        }
        line.append(items[i].as_str());
        i += 1;
    }
    assert(all.take(i as int) =~= all);
    line
}

/// Words the status of one entry, line by line, given whether what the
/// entry keeps exists.
pub fn entry_status(entry: &DotfileEntry, exists: bool) -> (lines: Vec<String>)
    ensures
        views(lines@) == entry_status_spec(entry@, exists),
{
    let mut lines: Vec<String> = Vec::new();
    let mut head = String::from_str("  ");
    if exists {
        head.append("\u{2713} exists");
    } else {
        head.append("\u{2717} missing");
    }
    head.append(" [");
    head.append(entry.kind.label().as_str());
    head.append("]");
    lines.push(head);
    let mut source = String::from_str("    Source: ");
    source.append(entry.source.as_str());
    lines.push(source);
    match entry.kind {
        SourceType::Git => {
            let mut local = String::from_str("    Local:  ");
            local.append(entry.target.as_str());
            lines.push(local);
            match &entry.folders {
                Some(folders) => {
                    let mut chosen = String::from_str("    Folders: ");
                    chosen.append(join_texts(folders, ", ").as_str());
                    lines.push(chosen);
                },
                None => {},
            }
        },
        _ => {
            let mut target = String::from_str("    Target: ");
            target.append(entry.target.as_str());
            lines.push(target);
        },
    }
    lines.push(String::new());
    assert(views(lines@) =~= entry_status_spec(entry@, exists));
    lines
}

/// Words one recorded link for the listing, line by line, given its status
/// and the moments of its creation and last verification as they are to be
/// shown.
pub fn link_listing(
    entry: &SymlinkEntry,
    status: LinkStatus,
    created: &str,
    verified: Option<&str>,
) -> (lines: Vec<String>)
    ensures
        views(lines@) == link_listing_spec(entry@, status, created@, slice_of(verified)),
{
    let mut lines: Vec<String> = Vec::new();
    let mut head = String::from_str("  ");
    head.append(status.label().as_str());
    head.append(" ");
    head.append(entry.link.as_str());
    lines.push(head);
    let mut target = String::from_str("    \u{2192} ");
    target.append(entry.target.as_str());
    lines.push(target);
    let mut made = String::from_str("    Created: ");
    made.append(created);
    lines.push(made);
    match verified {
        Some(verified) => {
            let mut seen = String::from_str("    Verified: ");
            seen.append(verified);
            lines.push(seen);
        },
        None => {},
    }
    lines.push(String::new());
    assert(views(lines@) =~= link_listing_spec(entry@, status, created@, slice_of(verified)));
    lines
}

/// Words a moment for display, given its timestamp and, where the caller
/// could work it out, the local time.
pub fn shown_timestamp(timestamp: &str, local: Option<String>) -> (shown: String)
    ensures
        shown@ == shown_timestamp_spec(timestamp@, text_of(local)),
{
    match local {
        Some(local) => local,
        None => String::from_str(timestamp),
    }
}

/// The tail of a text that holds no `/` and follows one, or begins the text,
/// is its last segment.
proof fn lemma_last_segment(text: Seq<char>, from: int)
    requires
        0 <= from <= text.len(),
        from > 0 ==> text[from - 1] == '/',
        forall|j: int| from <= j < text.len() ==> text[j] != '/',
    ensures
        last_segment(text) == text.subrange(from, text.len() as int),
    decreases text.len(),
{
    if text.len() == 0 {
        assert(text.subrange(from, text.len() as int) =~= text);
    } else if from == text.len() {
        assert(text.subrange(from, text.len() as int) =~= Seq::<char>::empty());
    } else {
        lemma_last_segment(text.drop_last(), from);
        assert(text.subrange(from, text.len() as int) =~= text.drop_last().subrange(
            from,
            text.len() - 1,
        ).push(text.last()));
    }
}

/// Wherever the walk over an entry begins, it begins at or below the root
/// of the entry, provided that no chosen folder is an absolute path. So the
/// links that the walk records are the links that letting go of the entry
/// removes.
pub proof fn lemma_entry_roots_under_root(entry: EntryView, base: Seq<char>)
    requires
        entry.folders matches Some(folders) ==> forall|i: int|
            0 <= i < folders.len() ==> !paths::is_absolute_spec(#[trigger] folders[i]),
    ensures
        entry_roots_spec(entry, base) matches Ok(roots) ==> forall|i: int|
            0 <= i < roots.len() ==> paths::within(
                (#[trigger] roots[i]).source,
                entry_root_spec(entry),
            ),
{
    paths::lemma_within_itself(entry_root_spec(entry));
    if let Ok(roots) = entry_roots_spec(entry, base) {
        assert forall|i: int| 0 <= i < roots.len() implies paths::within(
            (#[trigger] roots[i]).source,
            entry_root_spec(entry),
        ) by {
            if entry.kind is Git {
                if let Some(folders) = entry.folders {
                    assert(!paths::is_absolute_spec(folders[i]));
                    paths::lemma_join_relative(entry.target, folders[i]);
                }
            }
        }
    }
}

} // verus!
