use std::collections::HashMap;

use dotme::config::{DotfileEntry, SourceType};
use dotme::dotfiles::entry_roots;
use dotme::planner::{decide, Action, SourceKind, TargetKind};
use dotme::symlinks::{SymlinkEntry, SymlinkState};
use dotme::walker::{
    is_metadata_dir, Frame, FrameKind, Outcome, WalkEvent, WalkRequest, WalkResult, Walker,
};

/// A disk made of three tables, as the walker's driver sees it.
struct Disk {
    sources: HashMap<String, SourceKind>,
    listings: HashMap<String, Vec<String>>,
    targets: HashMap<String, TargetKind>,
    unlinkable: Vec<String>,
}

fn disk() -> Disk {
    Disk { sources: HashMap::new(), listings: HashMap::new(), targets: HashMap::new(), unlinkable: Vec::new() }
}

fn file(disk: &mut Disk, path: &str) {
    disk.sources.insert(path.to_string(), SourceKind::File);
}

fn dir(disk: &mut Disk, path: &str, names: &[&str]) {
    disk.sources.insert(path.to_string(), SourceKind::Directory);
    disk.listings.insert(path.to_string(), names.iter().map(|n| n.to_string()).collect());
}

fn occupy(disk: &mut Disk, path: &str, kind: TargetKind) {
    disk.targets.insert(path.to_string(), kind);
}

/// The source tree of the examples: `proj/` holds `a.txt` and `b/c.txt`.
fn project() -> Disk {
    let mut disk = disk();
    dir(&mut disk, "proj", &["a.txt", "b"]);
    file(&mut disk, "proj/a.txt");
    dir(&mut disk, "proj/b", &["c.txt"]);
    file(&mut disk, "proj/b/c.txt");
    disk
}

fn answer(disk: &mut Disk, request: &WalkRequest) -> WalkEvent {
    match request {
        WalkRequest::Probe { source, target } => WalkEvent::Probed {
            source: *disk.sources.get(source).unwrap_or(&SourceKind::Missing),
            target: *disk.targets.get(target).unwrap_or(&TargetKind::Absent),
        },
        WalkRequest::List { source } => match disk.listings.get(source) {
            Some(names) => WalkEvent::Listed { names: names.clone() },
            None => WalkEvent::Failed,
        },
        WalkRequest::Link { link, .. } => {
            if disk.targets.contains_key(link) || disk.unlinkable.contains(link) {
                WalkEvent::Failed
            } else {
                disk.targets.insert(link.clone(), TargetKind::Symlink);
                WalkEvent::Linked
            }
        },
        WalkRequest::Finished => unreachable!(),
    }
}

/// Drives a walker to its end and hands back every request it made.
fn drive(walker: &mut Walker, store: &mut SymlinkState, disk: &mut Disk, now: &str) -> Vec<WalkRequest> {
    let mut asked = Vec::new();
    let mut request = walker.start();
    let mut steps = 0;
    while request != WalkRequest::Finished {
        asked.push(request.clone());
        let event = answer(disk, &request);
        request = walker.step(store, event, now);
        steps += 1;
        assert!(steps < 10_000);
    }
    assert!(walker.is_finished());
    asked
}

fn contents(source: &str, target: &str) -> Frame {
    Frame { source: source.to_string(), target: target.to_string(), kind: FrameKind::Contents, depth: 0 }
}

fn pair(source: &str, target: &str) -> Frame {
    Frame { source: source.to_string(), target: target.to_string(), kind: FrameKind::Pair, depth: 0 }
}

fn record(link: &str, target: &str, now: &str) -> SymlinkEntry {
    SymlinkEntry {
        link: link.to_string(),
        target: target.to_string(),
        created_at: now.to_string(),
        last_verified: Some(now.to_string()),
    }
}

fn line(source: &str, target: &str, result: WalkResult) -> Outcome {
    Outcome { source: source.to_string(), target: target.to_string(), result }
}

fn links(asked: &[WalkRequest]) -> Vec<(String, String)> {
    asked
        .iter()
        .filter_map(|r| match r {
            WalkRequest::Link { link, target } => Some((link.clone(), target.clone())),
            _ => None,
        })
        .collect()
}

#[test]
fn decide_follows_the_rules_in_order() {
    for target in [TargetKind::Absent, TargetKind::File, TargetKind::Directory, TargetKind::Symlink] {
        assert_eq!(decide(SourceKind::Missing, target), Action::Skip);
    }
    assert_eq!(decide(SourceKind::File, TargetKind::Absent), Action::CreateLink);
    assert_eq!(decide(SourceKind::Directory, TargetKind::Absent), Action::CreateLink);
    assert_eq!(decide(SourceKind::Directory, TargetKind::Directory), Action::Descend);
    assert_eq!(decide(SourceKind::File, TargetKind::Directory), Action::Skip);
    assert_eq!(decide(SourceKind::File, TargetKind::File), Action::Skip);
    assert_eq!(decide(SourceKind::Directory, TargetKind::File), Action::Skip);
    assert_eq!(decide(SourceKind::File, TargetKind::Symlink), Action::Skip);
    assert_eq!(decide(SourceKind::Directory, TargetKind::Symlink), Action::Skip);
}

#[test]
fn only_the_metadata_directory_is_the_metadata_directory() {
    assert!(is_metadata_dir(".git"));
    assert!(!is_metadata_dir(".gitignore"));
    assert!(!is_metadata_dir("git"));
    assert!(!is_metadata_dir(".github"));
    assert!(!is_metadata_dir(""));
}

#[test]
fn contents_of_a_directory_are_linked_not_the_directory() {
    let mut disk = project();
    let mut store = SymlinkState::new();
    let mut walker = Walker::new(vec![contents("proj", "~/dest")], false, 64);
    let asked = drive(&mut walker, &mut store, &mut disk, "t0");
    assert_eq!(
        links(&asked),
        vec![
            ("~/dest/a.txt".to_string(), "proj/a.txt".to_string()),
            ("~/dest/b".to_string(), "proj/b".to_string()),
        ]
    );
    assert_eq!(
        store.symlinks,
        vec![record("~/dest/a.txt", "proj/a.txt", "t0"), record("~/dest/b", "proj/b", "t0")]
    );
    assert!(!disk.targets.contains_key("~/dest/b/c.txt"));
    assert!(!disk.targets.contains_key("~/dest"));
    assert!(!asked.contains(&WalkRequest::List { source: "proj/b".to_string() }));
    assert_eq!(
        walker.report(),
        &vec![
            line("proj/a.txt", "~/dest/a.txt", WalkResult::Linked),
            line("proj/b", "~/dest/b", WalkResult::Linked),
        ]
    );
}

#[test]
fn an_existing_directory_is_descended_into() {
    let mut disk = project();
    occupy(&mut disk, "~/dest/b", TargetKind::Directory);
    let mut store = SymlinkState::new();
    let mut walker = Walker::new(vec![contents("proj", "~/dest")], false, 64);
    let asked = drive(&mut walker, &mut store, &mut disk, "t0");
    assert_eq!(
        links(&asked),
        vec![
            ("~/dest/a.txt".to_string(), "proj/a.txt".to_string()),
            ("~/dest/b/c.txt".to_string(), "proj/b/c.txt".to_string()),
        ]
    );
    assert_eq!(
        store.symlinks,
        vec![record("~/dest/a.txt", "proj/a.txt", "t0"), record("~/dest/b/c.txt", "proj/b/c.txt", "t0")]
    );
    assert_eq!(disk.targets.get("~/dest/b"), Some(&TargetKind::Directory));
    assert!(store.find_entry("~/dest/b").is_none());
}

#[test]
fn a_file_entry_is_linked_under_its_own_name() {
    let mut disk = disk();
    file(&mut disk, "/src/.bashrc");
    let entry = DotfileEntry {
        source: "/src/.bashrc".to_string(),
        target: "/src/.bashrc".to_string(),
        kind: SourceType::File,
        path: Some("/home/u".to_string()),
        folders: None,
    };
    let roots = entry_roots(&entry, "/home/u").unwrap();
    let mut store = SymlinkState::new();
    let mut walker = Walker::new(roots, false, 64);
    let asked = drive(&mut walker, &mut store, &mut disk, "t0");
    assert_eq!(
        asked,
        vec![
            WalkRequest::Probe { source: "/src/.bashrc".to_string(), target: "/home/u/.bashrc".to_string() },
            WalkRequest::Link { link: "/home/u/.bashrc".to_string(), target: "/src/.bashrc".to_string() },
        ]
    );
    assert_eq!(store.symlinks, vec![record("/home/u/.bashrc", "/src/.bashrc", "t0")]);
}

#[test]
fn occupied_targets_are_never_touched() {
    for kind in [TargetKind::File, TargetKind::Symlink] {
        let mut disk = project();
        occupy(&mut disk, "~/dest/a.txt", kind);
        occupy(&mut disk, "~/dest/b", kind);
        let before = disk.targets.clone();
        let mut store = SymlinkState::new();
        let mut walker = Walker::new(vec![contents("proj", "~/dest")], false, 64);
        let asked = drive(&mut walker, &mut store, &mut disk, "t0");
        assert!(links(&asked).is_empty());
        assert!(store.symlinks.is_empty());
        assert_eq!(disk.targets, before);
        assert_eq!(
            walker.report(),
            &vec![
                line("proj/a.txt", "~/dest/a.txt", WalkResult::Occupied),
                line("proj/b", "~/dest/b", WalkResult::Occupied),
            ]
        );
    }
}

#[test]
fn a_file_never_replaces_a_directory() {
    let mut disk = disk();
    dir(&mut disk, "src", &["x"]);
    file(&mut disk, "src/x");
    occupy(&mut disk, "dst/x", TargetKind::Directory);
    let mut store = SymlinkState::new();
    let mut walker = Walker::new(vec![contents("src", "dst")], false, 64);
    let asked = drive(&mut walker, &mut store, &mut disk, "t0");
    assert!(links(&asked).is_empty());
    assert_eq!(walker.report(), &vec![line("src/x", "dst/x", WalkResult::Occupied)]);
}

#[test]
fn a_missing_source_is_skipped() {
    let mut disk = disk();
    dir(&mut disk, "src", &["dangling"]);
    let mut store = SymlinkState::new();
    let mut walker = Walker::new(vec![contents("src", "dst"), pair("gone", "dst/gone")], false, 64);
    let asked = drive(&mut walker, &mut store, &mut disk, "t0");
    assert!(links(&asked).is_empty());
    assert!(store.symlinks.is_empty());
    assert_eq!(
        walker.report(),
        &vec![
            line("src/dangling", "dst/dangling", WalkResult::SourceMissing),
            line("gone", "dst/gone", WalkResult::SourceMissing),
        ]
    );
}

#[test]
fn the_metadata_directory_is_skipped_at_any_depth() {
    let mut disk = disk();
    dir(&mut disk, "repo", &[".git", "conf", ".gitignore"]);
    dir(&mut disk, "repo/.git", &["HEAD"]);
    dir(&mut disk, "repo/conf", &[".git", "app.toml"]);
    file(&mut disk, "repo/conf/app.toml");
    file(&mut disk, "repo/conf/.git");
    file(&mut disk, "repo/.gitignore");
    occupy(&mut disk, "home/conf", TargetKind::Directory);
    let mut store = SymlinkState::new();
    let mut walker = Walker::new(vec![contents("repo", "home")], false, 64);
    let asked = drive(&mut walker, &mut store, &mut disk, "t0");
    assert_eq!(
        links(&asked),
        vec![
            ("home/conf/app.toml".to_string(), "repo/conf/app.toml".to_string()),
            ("home/.gitignore".to_string(), "repo/.gitignore".to_string()),
        ]
    );
    for request in &asked {
        if let WalkRequest::Probe { source, .. } = request {
            assert!(!source.ends_with(".git"));
        }
    }
}

#[test]
fn children_are_worked_through_depth_first_in_listing_order() {
    let mut disk = disk();
    dir(&mut disk, "s", &["1", "2", "3"]);
    dir(&mut disk, "s/1", &["a", "b"]);
    file(&mut disk, "s/1/a");
    file(&mut disk, "s/1/b");
    file(&mut disk, "s/2");
    file(&mut disk, "s/3");
    occupy(&mut disk, "t/1", TargetKind::Directory);
    let mut store = SymlinkState::new();
    let mut walker = Walker::new(vec![contents("s", "t")], false, 64);
    let asked = drive(&mut walker, &mut store, &mut disk, "t0");
    let linked: Vec<String> = links(&asked).into_iter().map(|(link, _)| link).collect();
    assert_eq!(linked, vec!["t/1/a", "t/1/b", "t/2", "t/3"]);
}

#[test]
fn roots_are_worked_through_in_the_order_given() {
    let mut disk = disk();
    file(&mut disk, "x");
    file(&mut disk, "y");
    let mut store = SymlinkState::new();
    let mut walker = Walker::new(vec![pair("x", "tx"), pair("y", "ty")], false, 64);
    let asked = drive(&mut walker, &mut store, &mut disk, "t0");
    assert_eq!(asked[0], WalkRequest::Probe { source: "x".to_string(), target: "tx".to_string() });
    assert_eq!(store.symlinks[0].link, "tx");
    assert_eq!(store.symlinks[1].link, "ty");
}

#[test]
fn walking_twice_is_walking_once() {
    let mut disk = project();
    occupy(&mut disk, "~/dest/b", TargetKind::Directory);
    let mut store = SymlinkState::new();
    let mut first = Walker::new(vec![contents("proj", "~/dest")], false, 64);
    drive(&mut first, &mut store, &mut disk, "t0");
    let ledger = store.clone();
    let targets = disk.targets.clone();
    assert_eq!(ledger.symlinks.len(), 2);

    let mut second = Walker::new(vec![contents("proj", "~/dest")], false, 64);
    let asked = drive(&mut second, &mut store, &mut disk, "t1");
    assert!(links(&asked).is_empty());
    assert_eq!(store, ledger);
    assert_eq!(disk.targets, targets);
    assert_eq!(
        second.report(),
        &vec![
            line("proj/a.txt", "~/dest/a.txt", WalkResult::Occupied),
            line("proj/b/c.txt", "~/dest/b/c.txt", WalkResult::Occupied),
        ]
    );
}

#[test]
fn a_simulation_changes_nothing_and_reports_what_the_walk_would_do() {
    let mut disk = project();
    occupy(&mut disk, "~/dest/b", TargetKind::Directory);
    let targets = disk.targets.clone();
    let mut store = SymlinkState { symlinks: vec![record("/old", "/elsewhere", "t-1")] };
    let ledger = store.clone();

    let mut rehearsal = Walker::new(vec![contents("proj", "~/dest")], true, 64);
    assert!(rehearsal.simulates());
    let asked = drive(&mut rehearsal, &mut store, &mut disk, "t0");
    assert!(links(&asked).is_empty());
    assert_eq!(store, ledger);
    assert_eq!(disk.targets, targets);
    assert_eq!(
        rehearsal.report(),
        &vec![
            line("proj/a.txt", "~/dest/a.txt", WalkResult::WouldLink),
            line("proj/b/c.txt", "~/dest/b/c.txt", WalkResult::WouldLink),
        ]
    );

    let mut actual = Walker::new(vec![contents("proj", "~/dest")], false, 64);
    assert!(!actual.simulates());
    drive(&mut actual, &mut store, &mut disk, "t0");
    let reworded: Vec<Outcome> = actual
        .report()
        .iter()
        .map(|o| Outcome {
            source: o.source.clone(),
            target: o.target.clone(),
            result: if o.result == WalkResult::Linked { WalkResult::WouldLink } else { o.result },
        })
        .collect();
    assert_eq!(rehearsal.report(), &reworded);
}

#[test]
fn a_simulation_foresees_its_own_links() {
    let build = || {
        let mut disk = disk();
        dir(&mut disk, "repo/one", &["shared", "a"]);
        dir(&mut disk, "repo/two", &["shared", "b"]);
        dir(&mut disk, "repo/one/shared", &["x"]);
        dir(&mut disk, "repo/two/shared", &["y"]);
        file(&mut disk, "repo/one/a");
        file(&mut disk, "repo/two/b");
        disk
    };
    let roots = || vec![contents("repo/one", "home"), contents("repo/two", "home")];

    let mut disk = build();
    let mut store = SymlinkState::new();
    let mut actual = Walker::new(roots(), false, 64);
    drive(&mut actual, &mut store, &mut disk, "t0");
    assert_eq!(
        actual.report(),
        &vec![
            line("repo/one/shared", "home/shared", WalkResult::Linked),
            line("repo/one/a", "home/a", WalkResult::Linked),
            line("repo/two/shared", "home/shared", WalkResult::Occupied),
            line("repo/two/b", "home/b", WalkResult::Linked),
        ]
    );

    let mut disk = build();
    let mut store = SymlinkState::new();
    let mut rehearsal = Walker::new(roots(), true, 64);
    drive(&mut rehearsal, &mut store, &mut disk, "t0");
    assert_eq!(
        rehearsal.report(),
        &vec![
            line("repo/one/shared", "home/shared", WalkResult::WouldLink),
            line("repo/one/a", "home/a", WalkResult::WouldLink),
            line("repo/two/shared", "home/shared", WalkResult::Occupied),
            line("repo/two/b", "home/b", WalkResult::WouldLink),
        ]
    );
    assert!(store.symlinks.is_empty());
    assert!(disk.targets.is_empty());
}

#[test]
fn a_failure_on_one_child_does_not_stop_the_walk() {
    let mut disk = disk();
    dir(&mut disk, "s", &["locked", "bad", "good"]);
    disk.sources.insert("s/locked".to_string(), SourceKind::Directory);
    file(&mut disk, "s/bad");
    file(&mut disk, "s/good");
    occupy(&mut disk, "t/locked", TargetKind::Directory);
    disk.unlinkable.push("t/bad".to_string());
    let mut store = SymlinkState::new();
    let mut walker = Walker::new(vec![contents("nowhere", "t"), contents("s", "t")], false, 64);
    drive(&mut walker, &mut store, &mut disk, "t0");
    assert_eq!(
        walker.report(),
        &vec![
            line("nowhere", "t", WalkResult::Failed),
            line("s/locked", "t/locked", WalkResult::Failed),
            line("s/bad", "t/bad", WalkResult::Failed),
            line("s/good", "t/good", WalkResult::Linked),
        ]
    );
    assert_eq!(store.symlinks, vec![record("t/good", "s/good", "t0")]);
}

#[test]
fn an_answer_that_does_not_fit_counts_as_a_failure() {
    let mut store = SymlinkState::new();
    let mut walker = Walker::new(vec![pair("a", "ta"), pair("b", "tb")], false, 64);
    assert_eq!(walker.start(), WalkRequest::Probe { source: "a".to_string(), target: "ta".to_string() });
    let next = walker.step(&mut store, WalkEvent::Linked, "t0");
    assert_eq!(next, WalkRequest::Probe { source: "b".to_string(), target: "tb".to_string() });
    let next = walker.step(&mut store, WalkEvent::Listed { names: vec!["x".to_string()] }, "t0");
    assert_eq!(next, WalkRequest::Finished);
    assert_eq!(
        walker.report(),
        &vec![line("a", "ta", WalkResult::Failed), line("b", "tb", WalkResult::Failed)]
    );
    assert!(store.symlinks.is_empty());
    assert_eq!(walker.step(&mut store, WalkEvent::Linked, "t0"), WalkRequest::Finished);
    assert_eq!(walker.report().len(), 2);
}

#[test]
fn the_walk_stops_descending_at_its_depth_limit() {
    let mut disk = disk();
    dir(&mut disk, "s", &["d1"]);
    dir(&mut disk, "s/d1", &["d2"]);
    dir(&mut disk, "s/d1/d2", &["f"]);
    file(&mut disk, "s/d1/d2/f");
    occupy(&mut disk, "t/d1", TargetKind::Directory);
    occupy(&mut disk, "t/d1/d2", TargetKind::Directory);

    let mut store = SymlinkState::new();
    let mut shallow = Walker::new(vec![contents("s", "t")], false, 2);
    drive(&mut shallow, &mut store, &mut disk, "t0");
    assert_eq!(shallow.report(), &vec![line("s/d1/d2", "t/d1/d2", WalkResult::TooDeep)]);
    assert!(store.symlinks.is_empty());

    let mut deep = Walker::new(vec![contents("s", "t")], false, 3);
    drive(&mut deep, &mut store, &mut disk, "t0");
    assert_eq!(deep.report(), &vec![line("s/d1/d2/f", "t/d1/d2/f", WalkResult::Linked)]);
}

#[test]
fn a_symlink_cycle_in_the_source_ends_at_the_depth_limit() {
    let mut disk = disk();
    dir(&mut disk, "s", &["loop"]);
    let mut path = "s".to_string();
    let mut target = "t".to_string();
    for _ in 0..10 {
        path.push_str("/loop");
        target.push_str("/loop");
        dir(&mut disk, &path, &["loop"]);
        occupy(&mut disk, &target, TargetKind::Directory);
    }
    let mut store = SymlinkState::new();
    let mut walker = Walker::new(vec![contents("s", "t")], false, 4);
    let asked = drive(&mut walker, &mut store, &mut disk, "t0");
    assert_eq!(walker.report().len(), 1);
    assert_eq!(walker.report()[0].result, WalkResult::TooDeep);
    assert_eq!(walker.report()[0].target, "t/loop/loop/loop/loop");
    assert!(asked.len() < 12);
}

#[test]
fn an_empty_walk_is_finished_at_once() {
    let mut store = SymlinkState::new();
    let mut walker = Walker::new(vec![], false, 64);
    assert!(walker.is_finished());
    assert_eq!(walker.start(), WalkRequest::Finished);
    assert!(walker.is_finished());
    assert_eq!(walker.step(&mut store, WalkEvent::Failed, "t"), WalkRequest::Finished);
    assert!(walker.report().is_empty());
}

#[test]
fn a_walker_is_not_finished_while_it_waits() {
    let mut walker = Walker::new(vec![pair("a", "ta")], false, 64);
    assert!(!walker.is_finished());
    walker.start();
    assert!(!walker.is_finished());
}

#[test]
fn a_relinked_path_updates_its_record() {
    let mut disk = disk();
    file(&mut disk, "new/a");
    let mut store = SymlinkState { symlinks: vec![record("home/a", "old/a", "t0")] };
    let mut walker = Walker::new(vec![pair("new/a", "home/a")], false, 64);
    drive(&mut walker, &mut store, &mut disk, "t1");
    assert_eq!(
        store.symlinks,
        vec![SymlinkEntry {
            link: "home/a".to_string(),
            target: "new/a".to_string(),
            created_at: "t0".to_string(),
            last_verified: Some("t1".to_string()),
        }]
    );
}

#[test]
fn report_lines_read_as_sentences() {
    let linked = line("/src/a", "/home/a", WalkResult::Linked);
    assert_eq!(linked.describe(false), "Created symlink: /home/a -> /src/a");
    let would = line("/src/a", "/home/a", WalkResult::WouldLink);
    assert_eq!(would.describe(true), "[DRY RUN] Would create symlink: /home/a -> /src/a");
    let occupied = line("/src/a", "/home/a", WalkResult::Occupied);
    assert_eq!(occupied.describe(true), "[DRY RUN] Would skip (exists): /home/a");
    assert_eq!(occupied.describe(false), "Skipped (exists): /home/a");
    let missing = line("/src/a", "/home/a", WalkResult::SourceMissing);
    assert_eq!(missing.describe(true), "[DRY RUN] Would skip (source missing): /home/a -> /src/a");
    assert_eq!(missing.describe(false), "Skipped (source missing): /home/a -> /src/a");
    let deep = line("/src/a", "/home/a", WalkResult::TooDeep);
    assert_eq!(deep.describe(true), "[DRY RUN] Would skip (too deep): /home/a -> /src/a");
    assert_eq!(deep.describe(false), "Skipped (too deep): /home/a -> /src/a");
    let failed = line("/src/a", "/home/a", WalkResult::Failed);
    assert_eq!(failed.describe(false), "Failed: /home/a -> /src/a");
    assert_eq!(failed.describe(true), "[DRY RUN] Failed: /home/a -> /src/a");
}

#[test]
fn letting_go_undoes_the_walk() {
    let mut disk = project();
    occupy(&mut disk, "~/dest/b", TargetKind::Directory);
    occupy(&mut disk, "/kept", TargetKind::Symlink);
    let mut store = SymlinkState { symlinks: vec![record("/kept", "/elsewhere/x", "t-1")] };
    let before = store.clone();
    let mut walker = Walker::new(vec![contents("proj", "~/dest")], false, 64);
    drive(&mut walker, &mut store, &mut disk, "t0");
    assert_eq!(store.symlinks.len(), 3);
    let removed = store.remove_links_under("proj");
    assert_eq!(removed, vec!["~/dest/a.txt".to_string(), "~/dest/b/c.txt".to_string()]);
    assert_eq!(store, before);
}

#[test]
fn a_simulation_knows_its_planned_links_by_place() {
    let mut disk = disk();
    file(&mut disk, "s/a");
    file(&mut disk, "s2/a");
    let mut store = SymlinkState::new();
    let mut rehearsal = Walker::new(vec![pair("s/a", "home/a"), pair("s2/a", "home//a/")], true, 64);
    drive(&mut rehearsal, &mut store, &mut disk, "t0");
    assert_eq!(
        rehearsal.report(),
        &vec![
            line("s/a", "home/a", WalkResult::WouldLink),
            line("s2/a", "home//a/", WalkResult::Occupied),
        ]
    );
}

#[test]
fn what_else_a_real_directory_holds_is_not_asked_about() {
    let mut disk = project();
    occupy(&mut disk, "~/dest/b", TargetKind::Directory);
    occupy(&mut disk, "~/dest/b/keep.txt", TargetKind::File);
    let mut store = SymlinkState::new();
    let mut walker = Walker::new(vec![contents("proj", "~/dest")], false, 2);
    let asked = drive(&mut walker, &mut store, &mut disk, "t0");
    assert_eq!(
        asked,
        vec![
            WalkRequest::List { source: "proj".to_string() },
            WalkRequest::Probe { source: "proj/a.txt".to_string(), target: "~/dest/a.txt".to_string() },
            WalkRequest::Link { link: "~/dest/a.txt".to_string(), target: "proj/a.txt".to_string() },
            WalkRequest::Probe { source: "proj/b".to_string(), target: "~/dest/b".to_string() },
            WalkRequest::List { source: "proj/b".to_string() },
            WalkRequest::Probe { source: "proj/b/c.txt".to_string(), target: "~/dest/b/c.txt".to_string() },
            WalkRequest::Link { link: "~/dest/b/c.txt".to_string(), target: "proj/b/c.txt".to_string() },
        ]
    );
    assert_eq!(disk.targets.get("~/dest/b"), Some(&TargetKind::Directory));
    assert_eq!(disk.targets.get("~/dest/b/keep.txt"), Some(&TargetKind::File));
    assert_eq!(
        store.symlinks,
        vec![record("~/dest/a.txt", "proj/a.txt", "t0"), record("~/dest/b/c.txt", "proj/b/c.txt", "t0")]
    );

    let mut disk = project();
    occupy(&mut disk, "~/dest/b", TargetKind::Directory);
    let mut store = SymlinkState::new();
    let mut shallow = Walker::new(vec![contents("proj", "~/dest")], false, 1);
    drive(&mut shallow, &mut store, &mut disk, "t0");
    assert_eq!(
        shallow.report(),
        &vec![
            line("proj/a.txt", "~/dest/a.txt", WalkResult::Linked),
            line("proj/b", "~/dest/b", WalkResult::TooDeep),
        ]
    );
}

/// Drives a simulating walker that was told which links are taken away.
fn rehearse(roots: Vec<Frame>, freed: &[&str], disk: &mut Disk) -> Vec<Outcome> {
    let mut store = SymlinkState::new();
    let freed: Vec<String> = freed.iter().map(|p| p.to_string()).collect();
    let mut walker = Walker::new(roots, true, 64).expecting_freed(freed);
    drive(&mut walker, &mut store, disk, "t0");
    assert!(store.symlinks.is_empty());
    walker.report().clone()
}

#[test]
fn a_simulated_update_takes_the_old_links_as_gone() {
    let mut disk = project();
    occupy(&mut disk, "~/dest/a.txt", TargetKind::Symlink);
    occupy(&mut disk, "~/dest/b", TargetKind::Symlink);
    let before = disk.targets.clone();
    let report = rehearse(vec![contents("proj", "~/dest")], &["~/dest/a.txt", "~/dest//b/"], &mut disk);
    assert_eq!(
        report,
        vec![
            line("proj/a.txt", "~/dest/a.txt", WalkResult::WouldLink),
            line("proj/b", "~/dest/b", WalkResult::WouldLink),
        ]
    );
    assert_eq!(disk.targets, before);

    let mut cleared = project();
    let mut store = SymlinkState::new();
    let mut actual = Walker::new(vec![contents("proj", "~/dest")], false, 64);
    drive(&mut actual, &mut store, &mut cleared, "t0");
    assert_eq!(
        actual.report(),
        &vec![
            line("proj/a.txt", "~/dest/a.txt", WalkResult::Linked),
            line("proj/b", "~/dest/b", WalkResult::Linked),
        ]
    );
}

#[test]
fn only_links_count_as_taken_away() {
    let mut disk = project();
    occupy(&mut disk, "~/dest/a.txt", TargetKind::File);
    occupy(&mut disk, "~/dest/b", TargetKind::Directory);
    occupy(&mut disk, "~/dest/b/c.txt", TargetKind::Symlink);
    let report = rehearse(
        vec![contents("proj", "~/dest")],
        &["~/dest/a.txt", "~/dest/b", "~/dest/b/c.txt"],
        &mut disk,
    );
    assert_eq!(
        report,
        vec![
            line("proj/a.txt", "~/dest/a.txt", WalkResult::Occupied),
            line("proj/b/c.txt", "~/dest/b/c.txt", WalkResult::WouldLink),
        ]
    );
}

#[test]
fn a_link_that_is_not_taken_away_still_occupies_its_path() {
    let mut disk = project();
    occupy(&mut disk, "~/dest/a.txt", TargetKind::Symlink);
    occupy(&mut disk, "~/dest/b", TargetKind::Symlink);
    let report = rehearse(vec![contents("proj", "~/dest")], &["~/dest/b"], &mut disk);
    assert_eq!(
        report,
        vec![
            line("proj/a.txt", "~/dest/a.txt", WalkResult::Occupied),
            line("proj/b", "~/dest/b", WalkResult::WouldLink),
        ]
    );
}

#[test]
fn a_real_walk_takes_the_disk_as_it_is() {
    let mut disk = project();
    occupy(&mut disk, "~/dest/a.txt", TargetKind::Symlink);
    occupy(&mut disk, "~/dest/b", TargetKind::Symlink);
    let mut store = SymlinkState::new();
    let freed = vec!["~/dest/a.txt".to_string(), "~/dest/b".to_string()];
    let mut walker = Walker::new(vec![contents("proj", "~/dest")], false, 64).expecting_freed(freed);
    let asked = drive(&mut walker, &mut store, &mut disk, "t0");
    assert!(links(&asked).is_empty());
    assert!(store.symlinks.is_empty());
}

#[test]
fn a_freed_path_is_linked_only_once_in_a_simulation() {
    let mut disk = disk();
    file(&mut disk, "s/a");
    file(&mut disk, "s2/a");
    occupy(&mut disk, "home/a", TargetKind::Symlink);
    let report = rehearse(vec![pair("s/a", "home/a"), pair("s2/a", "home/a")], &["home/a"], &mut disk);
    assert_eq!(
        report,
        vec![line("s/a", "home/a", WalkResult::WouldLink), line("s2/a", "home/a", WalkResult::Occupied)]
    );
}
