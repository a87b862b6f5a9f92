//! The managed entries and where the tool keeps its own files.

use vstd::prelude::*;
use vstd::string::*;
use crate::error::{DotmeError, ErrorView};
use crate::paths;
use crate::select::{
    distinct_by,
    kept,
    lemma_kept_distinct,
    lemma_kept_origin,
    lemma_kept_views,
    lemma_marked_is_kept,
    retain_marked,
    views,
};
use crate::system::{current_timestamp, home_directory, timestamp_spec};
use crate::text::{copy_text, same_text};

verus! {

/// What kind of thing a managed source is.
#[derive(Debug, Clone, Copy, PartialEq, Eq, Structural)]
pub enum SourceType {
    /// A single file.
    File,
    /// A directory whose contents are linked.
    Directory,
    /// A repository that is cloned and whose contents are linked.
    Git,
}

/// One managed source.
#[derive(Debug, Clone, PartialEq, Eq)]
pub struct DotfileEntry {
    /// The path or repository address that was registered. It identifies the
    /// entry.
    pub source: String,
    /// Where the source is kept: the source itself for files and directories,
    /// the local clone for a repository.
    pub target: String,
    /// What kind of thing the source is.
    pub kind: SourceType,
    /// The directory under which links are created.
    pub path: Option<String>,
    /// For a repository, the folders whose contents are linked; all of it
    /// where none are named.
    pub folders: Option<Vec<String>>,
}

/// A managed source as a mathematical value.
pub struct EntryView {
    pub source: Seq<char>,
    pub target: Seq<char>,
    pub kind: SourceType,
    pub path: Option<Seq<char>>,
    pub folders: Option<Seq<Seq<char>>>,
}

impl View for DotfileEntry {
    type V = EntryView;

    open spec fn view(&self) -> EntryView {
        EntryView {
            source: self.source@,
            target: self.target@,
            kind: self.kind,
            path: match self.path {
                Some(path) => Some(path@),
                None => None,
            },
            folders: match self.folders {
                Some(folders) => Some(views(folders@)),
                None => None,
            },
        }
    }
}

/// Where the tool keeps its own files; what is not set has a default below
/// the home directory.
#[derive(Debug, Clone, PartialEq, Eq)]
pub struct PathsConfig {
    /// The tool's own directory.
    pub dotme_dir: Option<String>,
    /// The directory that holds the cloned repositories.
    pub git_dir: Option<String>,
    /// The file that holds the ledger of links.
    pub symlinks_file: Option<String>,
}

/// The configured paths as a mathematical value.
pub struct PathsView {
    pub dotme_dir: Option<Seq<char>>,
    pub git_dir: Option<Seq<char>>,
    pub symlinks_file: Option<Seq<char>>,
}

impl View for PathsConfig {
    type V = PathsView;

    open spec fn view(&self) -> PathsView {
        PathsView {
            dotme_dir: text_of(self.dotme_dir),
            git_dir: text_of(self.git_dir),
            symlinks_file: text_of(self.symlinks_file),
        }
    }
}

/// The formats in which a configuration can be written.
#[derive(Debug, Clone, Copy, PartialEq, Eq, Structural)]
pub enum ConfigFormat {
    Yaml,
    Toml,
    Json,
}

/// Everything the tool is configured with.
#[derive(Debug, Clone, PartialEq, Eq)]
pub struct Config {
    /// When the managed entries were last brought up to date.
    pub updated: Option<String>,
    /// Where the tool keeps its own files.
    pub paths: PathsConfig,
    /// The managed entries, in the order in which they were added.
    pub dotfiles: Vec<DotfileEntry>,
}

/// A configuration as a mathematical value.
pub struct ConfigView {
    pub updated: Option<Seq<char>>,
    pub paths: PathsView,
    pub dotfiles: Seq<EntryView>,
}

impl View for Config {
    type V = ConfigView;

    open spec fn view(&self) -> ConfigView {
        ConfigView {
            updated: text_of(self.updated),
            paths: self.paths@,
            dotfiles: views(self.dotfiles@),
        }
    }
}

/// The word that stands for a source type in documents and messages.
pub open spec fn label_spec(kind: SourceType) -> Seq<char> {
    match kind {
        SourceType::File => "file"@,
        SourceType::Directory => "directory"@,
        SourceType::Git => "git"@,
    }
}

/// The source type that a word stands for, if any.
pub open spec fn from_label_spec(label: Seq<char>) -> Option<SourceType> {
    if label == "file"@ {
        Some(SourceType::File)
    } else if label == "directory"@ {
        Some(SourceType::Directory)
    } else if label == "git"@ {
        Some(SourceType::Git)
    } else {
        None
    }
}

/// The view of a string that may be absent.
pub open spec fn text_of(text: Option<String>) -> Option<Seq<char>> {
    match text {
        Some(text) => Some(text@),
        None => None,
    }
}

/// The view of a path that was found or of the error that came instead.
pub open spec fn found(result: Result<String, DotmeError>) -> Result<Seq<char>, ErrorView> {
    match result {
        Ok(path) => Ok(path@),
        Err(error) => Err(error@),
    }
}

/// The tool's own directory below `home`.
pub open spec fn default_dotme_dir(home: Seq<char>) -> Seq<char> {
    paths::join_spec(home, ".dotme"@)
}

/// The tool's own directory: the configured one, else the default below the
/// home directory, which must then be known.
pub open spec fn dotme_dir_spec(paths: PathsView, home: Option<Seq<char>>) -> Result<
    Seq<char>,
    ErrorView,
> {
    match paths.dotme_dir {
        Some(dir) => Ok(dir),
        None => match home {
            Some(home) => Ok(default_dotme_dir(home)),
            None => Err(ErrorView::HomeUnavailable),
        },
    }
}

/// The directory of the clones: the configured one, else `git` below the
/// tool's own directory.
pub open spec fn git_dir_spec(paths: PathsView, home: Option<Seq<char>>) -> Result<
    Seq<char>,
    ErrorView,
> {
    match paths.git_dir {
        Some(dir) => Ok(dir),
        None => match dotme_dir_spec(paths, home) {
            Ok(dir) => Ok(paths::join_spec(dir, "git"@)),
            Err(error) => Err(error),
        },
    }
}

/// The ledger file: the configured one, else `symlinks.yml` below the tool's
/// own directory.
pub open spec fn symlinks_file_spec(paths: PathsView, home: Option<Seq<char>>) -> Result<
    Seq<char>,
    ErrorView,
> {
    match paths.symlinks_file {
        Some(file) => Ok(file),
        None => match dotme_dir_spec(paths, home) {
            Ok(dir) => Ok(paths::join_spec(dir, "symlinks.yml"@)),
            Err(error) => Err(error),
        },
    }
}

/// The format that the name of a configuration file calls for, going by its
/// extension: `yaml` or `yml`, `toml`, `json`. Anything else is refused.
pub open spec fn format_spec(path: Seq<char>) -> Option<ConfigFormat> {
    match paths::extension_spec(path) {
        None => None,
        Some(extension) => if extension == "yaml"@ || extension == "yml"@ {
            Some(ConfigFormat::Yaml)
        } else if extension == "toml"@ {
            Some(ConfigFormat::Toml)
        } else if extension == "json"@ {
            Some(ConfigFormat::Json)
        } else {
            None
        },
    }
}

/// `config` with `now` noted as the moment of the last update.
pub open spec fn updated_at(config: ConfigView, now: Seq<char>) -> ConfigView {
    ConfigView { updated: Some(now), ..config }
}

/// Some entry of `entries` has the source `source`.
pub open spec fn manages(entries: Seq<EntryView>, source: Seq<char>) -> bool {
    exists|i: int| 0 <= i < entries.len() && entries[i].source == source
}

/// `at` is the position of the first entry with the source `source`.
pub open spec fn is_first_entry(entries: Seq<EntryView>, source: Seq<char>, at: int) -> bool {
    &&& 0 <= at < entries.len()
    &&& entries[at].source == source
    &&& forall|j: int| 0 <= j < at ==> entries[j].source != source
}

/// The position of the first entry with the source `source`, where there is
/// one.
pub open spec fn entry_position(entries: Seq<EntryView>, source: Seq<char>) -> int {
    choose|at: int| is_first_entry(entries, source, at)
}

/// No source is managed twice.
pub open spec fn unique_sources(entries: Seq<EntryView>) -> bool {
    forall|i: int, j: int|
        0 <= i < entries.len() && 0 <= j < entries.len() && i != j ==> entries[i].source
            != entries[j].source
}

/// The entries whose source is not `source`, in order.
pub open spec fn without_source(entries: Seq<EntryView>, source: Seq<char>) -> Seq<EntryView>
    decreases entries.len(),
{
    if entries.len() == 0 {
        entries
    } else {
        let rest = without_source(entries.drop_last(), source);
        if entries.last().source == source {
            rest
        } else {
            rest.push(entries.last())
        }
    }
}

/// The marks that spare the entries with another source.
pub open spec fn marks_without_source(entries: Seq<EntryView>, source: Seq<char>) -> Seq<bool> {
    Seq::new(entries.len(), |i: int| entries[i].source != source)
}

impl SourceType {
    /// The word that stands for this source type.
    pub fn label(&self) -> (label: String)
        ensures
            label@ == label_spec(*self),
    {
        match self {
            SourceType::File => String::from_str("file"),
            SourceType::Directory => String::from_str("directory"),
            SourceType::Git => String::from_str("git"),
        }
    }

    /// The source type that `label` stands for, if any.
    pub fn from_label(label: &str) -> (kind: Option<SourceType>)
        ensures
            kind == from_label_spec(label@),
    {
        if same_text(label, "file") {
            Some(SourceType::File)
        } else if same_text(label, "directory") {
            Some(SourceType::Directory)
        } else if same_text(label, "git") {
            Some(SourceType::Git)
        } else {
            None
        }
    }
}

impl Default for PathsConfig {
    /// Nothing is configured: every path has its default.
    fn default() -> (paths: Self)
        ensures
            paths@ == (PathsView { dotme_dir: None, git_dir: None, symlinks_file: None }),
    {
        PathsConfig { dotme_dir: None, git_dir: None, symlinks_file: None }
    }
}

impl PathsConfig {
    /// The tool's own directory, given the home directory where it is known.
    pub fn dotme_dir_in(&self, home: Option<&str>) -> (dir: Result<String, DotmeError>)
        ensures
            found(dir) == dotme_dir_spec(
                self@,
                match home {
                    Some(home) => Some(home@),
                    None => None,
                },
            ),
    {
        match &self.dotme_dir {
            Some(dir) => Ok(copy_text(dir)),
            None => match home {
                Some(home) => Ok(paths::join(home, ".dotme")),
                None => Err(DotmeError::HomeUnavailable),
            },
        }
    }

    /// The tool's own directory. The home directory is looked up only where
    /// no directory is configured.
    pub fn get_dotme_dir(&self) -> (dir: Result<String, DotmeError>)
        ensures
            exists|home: Option<Seq<char>>| found(dir) == dotme_dir_spec(self@, home),
    {
        match &self.dotme_dir {
            Some(dir) => {
                let dir = Ok(copy_text(dir));
                dir
            },
            None => {
                let home = home_directory();
                let dir = match &home {
                    Some(home) => self.dotme_dir_in(Some(home.as_str())),
                    None => self.dotme_dir_in(None),
                };
                dir
            },
        }
    }

    /// The directory of the clones. The home directory is looked up only
    /// where neither that directory nor the tool's own is configured.
    pub fn get_git_dir(&self) -> (dir: Result<String, DotmeError>)
        ensures
            exists|home: Option<Seq<char>>| found(dir) == git_dir_spec(self@, home),
    {
        match &self.git_dir {
            Some(dir) => {
                let dir = Ok(copy_text(dir));
                assert(found(dir) == git_dir_spec(self@, None));
                dir
            },
            None => {
                let base = self.get_dotme_dir();
                let ghost home = choose|home: Option<Seq<char>>|
                    found(base) == dotme_dir_spec(self@, home);
                let dir = match base {
                    Ok(base) => Ok(paths::join(base.as_str(), "git")),
                    Err(error) => Err(error),
                };
                assert(found(dir) == git_dir_spec(self@, home));
                dir
            },
        }
    }

    /// The ledger file. The home directory is looked up only where neither
    /// that file nor the tool's own directory is configured.
    pub fn get_symlinks_file(&self) -> (file: Result<String, DotmeError>)
        ensures
            exists|home: Option<Seq<char>>| found(file) == symlinks_file_spec(self@, home),
    {
        match &self.symlinks_file {
            Some(file) => {
                let file = Ok(copy_text(file));
                assert(found(file) == symlinks_file_spec(self@, None));
                file
            },
            None => {
                let base = self.get_dotme_dir();
                let ghost home = choose|home: Option<Seq<char>>|
                    found(base) == dotme_dir_spec(self@, home);
                let file = match base {
                    Ok(base) => Ok(paths::join(base.as_str(), "symlinks.yml")),
                    Err(error) => Err(error),
                };
                assert(found(file) == symlinks_file_spec(self@, home));
                file
            },
        }
    }
}

/// The format that the name of a configuration file calls for.
pub fn format_of(path: &str) -> (format: Result<ConfigFormat, DotmeError>)
    ensures
        match format_spec(path@) {
            Some(expected) => format == Ok::<ConfigFormat, DotmeError>(expected),
            None => format matches Err(error) && error@ == ErrorView::UnsupportedFormat,
        },
{
    match paths::extension(path) {
        None => Err(DotmeError::UnsupportedFormat),
        Some(extension) => {
            let extension = extension.as_str();
            if same_text(extension, "yaml") || same_text(extension, "yml") {
                Ok(ConfigFormat::Yaml)
            } else if same_text(extension, "toml") {
                Ok(ConfigFormat::Toml)
            } else if same_text(extension, "json") {
                Ok(ConfigFormat::Json)
            } else {
                Err(DotmeError::UnsupportedFormat)
            }
        },
    }
}

impl Default for Config {
    /// Nothing is managed and nothing is configured.
    fn default() -> (config: Self)
        ensures
            config@ == (ConfigView {
                updated: None,
                paths: PathsView { dotme_dir: None, git_dir: None, symlinks_file: None },
                dotfiles: Seq::empty(),
            }),
            config.wf(),
    {
        let config = Config { updated: None, paths: PathsConfig::default(), dotfiles: Vec::new() };
        assert(config@.dotfiles =~= Seq::empty());
        config
    }
}

impl Config {
    /// The configuration is well formed: no source is managed twice.
    pub open spec fn wf(&self) -> bool {
        unique_sources(self@.dotfiles)
    }

    /// Notes `now` as the moment of the last update.
    pub fn set_updated(&mut self, now: &str)
        ensures
            final(self)@ == updated_at(old(self)@, now@),
            old(self).wf() ==> final(self).wf(),
    {
        self.updated = Some(String::from_str(now));
    }

    /// Notes the present moment as the moment of the last update.
    pub fn update_timestamp(&mut self)
        ensures
            exists|reading: Option<(u64, u32)>|
                final(self)@ == updated_at(old(self)@, timestamp_spec(reading)),
            old(self).wf() ==> final(self).wf(),
    {
        let now = current_timestamp();
        self.set_updated(now.as_str());
    }

    /// Where the first entry with the source `source` stands.
    pub fn find_dotfile(&self, source: &str) -> (at: Option<usize>)
        ensures
            at is Some == manages(self@.dotfiles, source@),
            at matches Some(at) ==> is_first_entry(self@.dotfiles, source@, at as int),
            at matches Some(at) ==> at == entry_position(self@.dotfiles, source@),
    {
        let mut at: usize = 0;
        while at < self.dotfiles.len()
            invariant
                at <= self.dotfiles.len(),
                forall|j: int| 0 <= j < at ==> self@.dotfiles[j].source != source@,
            decreases self.dotfiles.len() - at,
        {
            if same_text(self.dotfiles[at].source.as_str(), source) {
                proof {
                    lemma_entry_position(self@.dotfiles, source@, at as int);
                }
                return Some(at);
            }
            at += 1;
        }
        None
    }

    /// Takes `entry` into management, unless its source is managed already.
    pub fn add_dotfile(&mut self, entry: DotfileEntry) -> (added: Result<(), DotmeError>)
        ensures
            manages(old(self)@.dotfiles, entry@.source) ==> {
                &&& added matches Err(error)
                &&& error@ == ErrorView::DuplicateSource { source: entry@.source }
                &&& final(self)@ == old(self)@
            },
            !manages(old(self)@.dotfiles, entry@.source) ==> {
                &&& added is Ok
                &&& final(self)@ == ConfigView {
                    dotfiles: old(self)@.dotfiles.push(entry@),
                    ..old(self)@
                }
            },
            old(self).wf() ==> final(self).wf(),
    {
        proof {
            if !manages(self@.dotfiles, entry@.source) {
                lemma_add_dotfile(self@.dotfiles, entry@);
            }
        }
        match self.find_dotfile(entry.source.as_str()) {
            Some(_) => Err(DotmeError::DuplicateSource { source: entry.source }),
            None => {
                self.dotfiles.push(entry);
                assert(views(self.dotfiles@) =~= views(old(self).dotfiles@).push(entry@));
                Ok(())
            },
        }
    }

    /// Drops every entry with the source `source`, and says whether there was
    /// one.
    pub fn remove_dotfile(&mut self, source: &str) -> (removed: bool)
        ensures
            final(self)@ == (ConfigView {
                dotfiles: without_source(old(self)@.dotfiles, source@),
                ..old(self)@
            }),
            removed == manages(old(self)@.dotfiles, source@),
            old(self).wf() ==> final(self).wf(),
    {
        proof {
            lemma_remove_dotfile(self@.dotfiles, source@);
        }
        let found = self.find_dotfile(source);
        let mut keep: Vec<bool> = Vec::new();
        let mut i: usize = 0;
        while i < self.dotfiles.len()
            invariant
                i <= self.dotfiles.len(),
                keep.len() == i,
                forall|k: int| 0 <= k < i ==> keep@[k] == (self@.dotfiles[k].source != source@),
            decreases self.dotfiles.len() - i,
        {
            keep.push(!same_text(self.dotfiles[i].source.as_str(), source));
            i += 1;
        }
        proof {
            lemma_kept_without_source(self@.dotfiles, keep@, source@);
            lemma_kept_views(self.dotfiles@, keep@);
        }
        retain_marked(&mut self.dotfiles, &keep);
        found.is_some()
    }
}

/// Every source type is read back from its own word.
pub proof fn lemma_label_round_trip(kind: SourceType)
    ensures
        from_label_spec(label_spec(kind)) == Some(kind),
{
    reveal_strlit("file");
    reveal_strlit("directory");
    reveal_strlit("git");
    assert("file"@.len() == 4);
    assert("directory"@.len() == 9);
    assert("git"@.len() == 3);
}

/// The first entry with a given source is the only first one.
pub proof fn lemma_entry_position(entries: Seq<EntryView>, source: Seq<char>, at: int)
    requires
        is_first_entry(entries, source, at),
    ensures
        manages(entries, source),
        entry_position(entries, source) == at,
{
    let chosen = entry_position(entries, source);
    assert(is_first_entry(entries, source, chosen));
    if chosen < at {
        assert(entries[chosen].source != source);
    }
    if at < chosen {
        assert(entries[at].source != source);
    }
}

/// Marks that spare exactly the entries with another source keep what
/// `without_source` keeps.
proof fn lemma_kept_without_source(entries: Seq<EntryView>, keep: Seq<bool>, source: Seq<char>)
    requires
        entries.len() <= keep.len(),
        forall|i: int| 0 <= i < entries.len() ==> keep[i] == (entries[i].source != source),
    ensures
        kept(entries, keep) == without_source(entries, source),
    decreases entries.len(),
{
    if entries.len() > 0 {
        lemma_kept_without_source(entries.drop_last(), keep, source);
    }
}

/// Taking in an entry whose source is not managed yet keeps the sources
/// unique, and the entry is managed afterwards.
pub proof fn lemma_add_dotfile(entries: Seq<EntryView>, entry: EntryView)
    requires
        !manages(entries, entry.source),
    ensures
        manages(entries.push(entry), entry.source),
        unique_sources(entries) ==> unique_sources(entries.push(entry)),
{
    let after = entries.push(entry);
    assert(after[entries.len() as int].source == entry.source);
    if unique_sources(entries) {
        assert forall|i: int, j: int|
            0 <= i < after.len() && 0 <= j < after.len() && i != j implies after[i].source
            != after[j].source by {
            if i < entries.len() {
                assert(after[i] == entries[i]);
            }
            if j < entries.len() {
                assert(after[j] == entries[j]);
            }
        }
    }
}

/// Letting an entry go leaves no entry with its source and keeps every other
/// entry: an entry is managed afterwards exactly if it was managed before
/// and has another source. Unique sources stay unique.
pub proof fn lemma_remove_dotfile(entries: Seq<EntryView>, source: Seq<char>)
    ensures
        !manages(without_source(entries, source), source),
        forall|entry: EntryView|
            without_source(entries, source).contains(entry) <==> entries.contains(entry)
                && entry.source != source,
        unique_sources(entries) ==> unique_sources(without_source(entries, source)),
{
    let keep = marks_without_source(entries, source);
    let after = without_source(entries, source);
    lemma_kept_without_source(entries, keep, source);
    assert forall|entry: EntryView| after.contains(entry) implies entries.contains(entry)
        && entry.source != source by {
        let k = choose|k: int| 0 <= k < after.len() && after[k] == entry;
        let i = lemma_kept_origin(entries, keep, k);
    }
    assert forall|entry: EntryView| entries.contains(entry) && entry.source
        != source implies after.contains(entry) by {
        let i = choose|i: int| 0 <= i < entries.len() && entries[i] == entry;
        let k = lemma_marked_is_kept(entries, keep, i);
    }
    assert(!manages(after, source)) by {
        if manages(after, source) {
            let k = choose|k: int| 0 <= k < after.len() && after[k].source == source;
            assert(after.contains(after[k]));
        }
    }
    if unique_sources(entries) {
        lemma_kept_sources_unique(entries, keep);
    }
}

/// Picking entries out of a list with unique sources leaves the sources
/// unique.
proof fn lemma_kept_sources_unique(entries: Seq<EntryView>, keep: Seq<bool>)
    requires
        unique_sources(entries),
    ensures
        unique_sources(kept(entries, keep)),
{
    let source_of = |entry: EntryView| entry.source;
    assert(distinct_by(entries, source_of));
    lemma_kept_distinct(entries, keep, source_of);
    let after = kept(entries, keep);
    assert forall|i: int, j: int|
        0 <= i < after.len() && 0 <= j < after.len() && i != j implies after[i].source
        != after[j].source by {
        assert(source_of(after[i]) != source_of(after[j]));
    }
}

} // verus!
