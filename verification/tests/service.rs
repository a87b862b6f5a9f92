use dotme::config::{Config, DotfileEntry, PathsConfig, SourceType};
use dotme::dotfiles::{
    shown_timestamp,
    add_step, AddStep,
    entry_status, join_texts, link_listing,
    config_path_in, default_target, detect_source_type, dotme_dir_in, entry_label,
    entry_root, entry_roots, finish_update, get_config_path, get_dotme_dir, get_git_dir, git_dir_in,
    git_step, is_repository_url, plan_add, remove, remove_symlinks_for_entry, repository_name,
    update_base, AddPlan, Forgotten, GitStep,
};
use dotme::error::DotmeError;
use dotme::planner::SourceKind;
use dotme::symlinks::{LinkStatus, SymlinkEntry, SymlinkState};
use dotme::walker::{Frame, FrameKind};

fn entry(source: &str, target: &str, kind: SourceType) -> DotfileEntry {
    DotfileEntry { source: source.to_string(), target: target.to_string(), kind, path: None, folders: None }
}

fn record(link: &str, target: &str) -> SymlinkEntry {
    SymlinkEntry { link: link.to_string(), target: target.to_string(), created_at: "t".to_string(), last_verified: None }
}

fn managing(entries: Vec<DotfileEntry>) -> Config {
    Config { updated: None, paths: PathsConfig::default(), dotfiles: entries }
}

fn texts(items: &[&str]) -> Vec<String> {
    items.iter().map(|s| s.to_string()).collect()
}

#[test]
fn own_files_live_below_home() {
    assert_eq!(dotme_dir_in("/home/u"), "/home/u/.dotme");
    assert_eq!(config_path_in("/home/u"), "/home/u/.dotme/config.yml");
    assert_eq!(git_dir_in("/home/u"), "/home/u/.dotme/git");
    assert_eq!(config_path_in("/home/u/"), "/home/u/.dotme/config.yml");
}

#[test]
fn own_files_follow_the_home_directory() {
    match get_dotme_dir() {
        Ok(dir) => {
            assert!(dir.ends_with(".dotme"));
            assert_eq!(get_config_path(), Ok(format!("{}/config.yml", dir)));
            assert_eq!(get_git_dir(), Ok(format!("{}/git", dir)));
        },
        Err(error) => {
            assert_eq!(error, DotmeError::HomeUnavailable);
            assert_eq!(get_config_path(), Err(DotmeError::HomeUnavailable));
            assert_eq!(get_git_dir(), Err(DotmeError::HomeUnavailable));
        },
    }
}

#[test]
fn web_addresses_of_repositories_are_recognised() {
    assert!(is_repository_url("https://github.com/user/dotfiles"));
    assert!(is_repository_url("https://gitlab.com/user/dotfiles"));
    assert!(is_repository_url("https://example.org/user/dotfiles.git"));
    assert!(is_repository_url("http://example.org/user/dotfiles.git"));
    assert!(is_repository_url("http://github.com/x"));
    assert!(is_repository_url("https://mirror.example/github.com/x"));
}

#[test]
fn shell_addresses_of_repositories_are_recognised() {
    assert!(is_repository_url("git@github.com:user/dotfiles.git"));
    assert!(is_repository_url("git@host:path"));
    assert!(is_repository_url("ssh://git@host/path"));
}

#[test]
fn other_sources_are_no_repositories() {
    assert!(!is_repository_url("https://example.org/user/dotfiles"));
    assert!(!is_repository_url("ftp://github.com/user/dotfiles.git"));
    assert!(!is_repository_url("/home/u/dotfiles.git"));
    assert!(!is_repository_url("github.com/user/repo"));
    assert!(!is_repository_url("ssh://host/path"));
    assert!(!is_repository_url(""));
    assert!(!is_repository_url("https://"));
}

#[test]
fn the_kind_of_a_source_is_detected() {
    assert_eq!(detect_source_type("https://github.com/u/r", SourceKind::Missing), Ok(SourceType::Git));
    assert_eq!(detect_source_type("git@h:r", SourceKind::Directory), Ok(SourceType::Git));
    assert_eq!(detect_source_type("/home/u/dots", SourceKind::Directory), Ok(SourceType::Directory));
    assert_eq!(detect_source_type(".bashrc", SourceKind::File), Ok(SourceType::File));
    assert_eq!(
        detect_source_type("/nowhere", SourceKind::Missing),
        Err(DotmeError::SourceTypeUndetectable { source: "/nowhere".to_string() })
    );
}

#[test]
fn a_repository_is_named_after_the_end_of_its_address() {
    assert_eq!(repository_name("https://github.com/user/dotfiles.git"), "dotfiles");
    assert_eq!(repository_name("https://github.com/user/dotfiles"), "dotfiles");
    assert_eq!(repository_name("git@github.com:user/dotfiles.git"), "dotfiles");
    assert_eq!(repository_name("git@host:dotfiles.git"), "git@host:dotfiles");
    assert_eq!(repository_name("https://github.com/user/dotfiles/"), "");
    assert_eq!(repository_name("x.git.git"), "x");
    assert_eq!(repository_name(".git"), "");
    assert_eq!(repository_name("a/.gitx"), ".gitx");
    assert_eq!(repository_name(""), "");
    assert_eq!(repository_name("h\u{e9}/w\u{f6}rld.git"), "w\u{f6}rld");
}

#[test]
fn a_repository_is_named_as_the_standard_library_would() {
    for url in ["https://github.com/user/dotfiles.git", "a/b/", "x.git.git", "plain", "git@h:u/r.git", ""] {
        let expected = url.rsplit('/').next().unwrap_or("repo").trim_end_matches(".git");
        assert_eq!(repository_name(url), expected, "{}", url);
    }
}

#[test]
fn a_source_is_kept_where_its_kind_says() {
    assert_eq!(
        default_target("https://github.com/u/dots.git", SourceType::Git, "/base", Some("/home/u/.dotme/git")),
        Ok("/home/u/.dotme/git/dots".to_string())
    );
    assert_eq!(
        default_target("https://github.com/u/dots.git", SourceType::Git, "/base", None),
        Err(DotmeError::HomeUnavailable)
    );
    assert_eq!(default_target("/src/.vimrc", SourceType::File, "/base", None), Ok("/base/.vimrc".to_string()));
    assert_eq!(
        default_target("/src/conf/", SourceType::Directory, "/base", Some("/g")),
        Ok("/base/conf".to_string())
    );
    assert_eq!(
        default_target("/", SourceType::Directory, "/base", None),
        Err(DotmeError::MissingFileName { path: "/".to_string() })
    );
    assert_eq!(
        default_target("a/..", SourceType::File, "/base", None),
        Err(DotmeError::MissingFileName { path: "a/..".to_string() })
    );
}

#[test]
fn adding_needs_a_configuration() {
    assert_eq!(
        plan_add(None, "/src/a", SourceKind::File, None, None, None, "/cwd", Some("/g")),
        Err(DotmeError::NotInitialized)
    );
}

#[test]
fn adding_a_file_links_it_under_the_working_directory() {
    let config = Config::default();
    let plan = plan_add(Some(&config), "/src/.bashrc", SourceKind::File, None, None, None, "/cwd", None);
    assert_eq!(
        plan,
        Ok(AddPlan {
            entry: DotfileEntry {
                source: "/src/.bashrc".to_string(),
                target: "/cwd/.bashrc".to_string(),
                kind: SourceType::File,
                path: Some("/cwd".to_string()),
                folders: None,
            },
            ask_folders: false,
        })
    );
}

#[test]
fn adding_takes_the_place_and_the_base_path_that_were_named() {
    let config = Config::default();
    let plan = plan_add(
        Some(&config),
        "/src/conf",
        SourceKind::Directory,
        Some("/keep/here".to_string()),
        Some("/home/u".to_string()),
        Some(texts(&["x"])),
        "/cwd",
        None,
    )
    .unwrap();
    assert_eq!(plan.entry.target, "/keep/here");
    assert_eq!(plan.entry.path, Some("/home/u".to_string()));
    assert_eq!(plan.entry.kind, SourceType::Directory);
    assert_eq!(plan.entry.folders, Some(texts(&["x"])));
    assert!(!plan.ask_folders);
}

#[test]
fn adding_a_repository_asks_for_folders_when_none_are_named() {
    let config = Config::default();
    let plan = plan_add(
        Some(&config),
        "https://github.com/u/dots.git",
        SourceKind::Missing,
        None,
        None,
        None,
        "/cwd",
        Some("/home/u/.dotme/git"),
    )
    .unwrap();
    assert_eq!(plan.entry.target, "/home/u/.dotme/git/dots");
    assert_eq!(plan.entry.kind, SourceType::Git);
    assert_eq!(plan.entry.path, Some("/cwd".to_string()));
    assert_eq!(plan.entry.folders, None);
    assert!(plan.ask_folders);
}

#[test]
fn adding_a_repository_takes_the_named_folders() {
    let config = Config::default();
    let plan = plan_add(
        Some(&config),
        "git@github.com:u/dots.git",
        SourceKind::Missing,
        None,
        None,
        Some(texts(&["dev", "geek"])),
        "/cwd",
        Some("/g"),
    )
    .unwrap();
    assert_eq!(plan.entry.folders, Some(texts(&["dev", "geek"])));
    assert!(!plan.ask_folders);
}

#[test]
fn a_named_base_path_means_the_whole_repository() {
    let config = Config::default();
    for folders in [None, Some(texts(&["dev"]))] {
        let plan = plan_add(
            Some(&config),
            "git@github.com:u/dots.git",
            SourceKind::Missing,
            None,
            Some("/home/u".to_string()),
            folders,
            "/cwd",
            Some("/g"),
        )
        .unwrap();
        assert_eq!(plan.entry.folders, None);
        assert!(!plan.ask_folders);
        assert_eq!(plan.entry.path, Some("/home/u".to_string()));
    }
}

#[test]
fn adding_refuses_what_it_cannot_place_or_already_has() {
    let config = managing(vec![entry("/src/a", "/src/a", SourceType::File)]);
    assert_eq!(
        plan_add(Some(&config), "/src/a", SourceKind::File, None, None, None, "/cwd", None),
        Err(DotmeError::DuplicateSource { source: "/src/a".to_string() })
    );
    assert_eq!(
        plan_add(Some(&config), "/nowhere", SourceKind::Missing, None, None, None, "/cwd", None),
        Err(DotmeError::SourceTypeUndetectable { source: "/nowhere".to_string() })
    );
    assert_eq!(
        plan_add(Some(&config), "/", SourceKind::Directory, None, None, None, "/cwd", None),
        Err(DotmeError::MissingFileName { path: "/".to_string() })
    );
    assert_eq!(
        plan_add(Some(&config), "git@h:r", SourceKind::Missing, None, None, None, "/cwd", None),
        Err(DotmeError::HomeUnavailable)
    );
}

#[test]
fn adding_checks_in_order() {
    let config = managing(vec![entry("/", "/", SourceType::Directory)]);
    assert_eq!(
        plan_add(Some(&config), "/", SourceKind::Missing, None, None, None, "/cwd", None),
        Err(DotmeError::SourceTypeUndetectable { source: "/".to_string() })
    );
    assert_eq!(
        plan_add(Some(&config), "/", SourceKind::Directory, None, None, None, "/cwd", None),
        Err(DotmeError::MissingFileName { path: "/".to_string() })
    );
    assert_eq!(
        plan_add(Some(&config), "/", SourceKind::Directory, Some("/t".to_string()), None, None, "/cwd", None),
        Err(DotmeError::DuplicateSource { source: "/".to_string() })
    );
}

#[test]
fn the_root_of_an_entry_is_its_source_or_its_clone() {
    assert_eq!(entry_root(&entry("/src/a", "/cwd/a", SourceType::File)), "/src/a");
    assert_eq!(entry_root(&entry("/src/d", "/cwd/d", SourceType::Directory)), "/src/d");
    assert_eq!(entry_root(&entry("https://github.com/u/r", "/git/r", SourceType::Git)), "/git/r");
}

#[test]
fn the_walk_over_a_file_begins_at_the_file() {
    assert_eq!(
        entry_roots(&entry("/src/.bashrc", "/x", SourceType::File), "/home/u"),
        Ok(vec![Frame {
            source: "/src/.bashrc".to_string(),
            target: "/home/u/.bashrc".to_string(),
            kind: FrameKind::Pair,
            depth: 0,
        }])
    );
    assert_eq!(
        entry_roots(&entry("/", "/x", SourceType::File), "/home/u"),
        Err(DotmeError::MissingFileName { path: "/".to_string() })
    );
}

#[test]
fn the_walk_over_a_directory_begins_with_its_contents() {
    assert_eq!(
        entry_roots(&entry("/src/conf", "/x", SourceType::Directory), "/home/u"),
        Ok(vec![Frame {
            source: "/src/conf".to_string(),
            target: "/home/u".to_string(),
            kind: FrameKind::Contents,
            depth: 0,
        }])
    );
}

#[test]
fn the_walk_over_a_repository_begins_with_its_folders() {
    let mut repo = entry("https://github.com/u/r", "/git/r", SourceType::Git);
    assert_eq!(
        entry_roots(&repo, "/home/u"),
        Ok(vec![Frame {
            source: "/git/r".to_string(),
            target: "/home/u".to_string(),
            kind: FrameKind::Contents,
            depth: 0,
        }])
    );
    repo.folders = Some(texts(&["dev", "geek"]));
    assert_eq!(
        entry_roots(&repo, "/home/u"),
        Ok(vec![
            Frame {
                source: "/git/r/dev".to_string(),
                target: "/home/u".to_string(),
                kind: FrameKind::Contents,
                depth: 0,
            },
            Frame {
                source: "/git/r/geek".to_string(),
                target: "/home/u".to_string(),
                kind: FrameKind::Contents,
                depth: 0,
            },
        ])
    );
    repo.folders = Some(vec![]);
    assert_eq!(entry_roots(&repo, "/home/u"), Ok(vec![]));
}

#[test]
fn the_clone_is_cloned_or_pulled() {
    assert_eq!(git_step(SourceType::Git, false, false), GitStep::Clone);
    assert_eq!(git_step(SourceType::Git, true, false), GitStep::Pull);
    assert_eq!(git_step(SourceType::Git, false, true), GitStep::WouldClone);
    assert_eq!(git_step(SourceType::Git, true, true), GitStep::WouldPull);
    for kind in [SourceType::File, SourceType::Directory] {
        for exists in [false, true] {
            for dry_run in [false, true] {
                assert_eq!(git_step(kind, exists, dry_run), GitStep::Nothing);
            }
        }
    }
}

#[test]
fn links_are_renewed_under_the_kept_path_or_home() {
    let mut kept = entry("/src/a", "/x", SourceType::File);
    kept.path = Some("/work".to_string());
    assert_eq!(update_base(&kept, Some("/home/u")), Ok("/work".to_string()));
    assert_eq!(update_base(&kept, None), Ok("/work".to_string()));
    let plain = entry("/src/a", "/x", SourceType::File);
    assert_eq!(update_base(&plain, Some("/home/u")), Ok("/home/u".to_string()));
    assert_eq!(update_base(&plain, None), Err(DotmeError::HomeUnavailable));
}

#[test]
fn old_links_are_cleared_or_only_listed() {
    let repo = entry("https://github.com/u/r", "/git/r", SourceType::Git);
    let ledger = SymlinkState {
        symlinks: vec![record("/h/a", "/git/r/a"), record("/h/b", "/src/b"), record("/h/c", "/git/r/x/c")],
    };

    let mut store = ledger.clone();
    assert_eq!(remove_symlinks_for_entry(&mut store, &repo, true), texts(&["/h/a", "/h/c"]));
    assert_eq!(store, ledger);

    assert_eq!(remove_symlinks_for_entry(&mut store, &repo, false), texts(&["/h/a", "/h/c"]));
    assert_eq!(store.symlinks, vec![record("/h/b", "/src/b")]);

    let file = entry("/src/b", "/h/b", SourceType::File);
    assert_eq!(remove_symlinks_for_entry(&mut store, &file, false), texts(&["/h/b"]));
    assert!(store.symlinks.is_empty());
}

#[test]
fn the_moment_of_an_update_is_noted_only_on_a_real_run() {
    let mut config = Config::default();
    finish_update(&mut config, true, "t1");
    assert_eq!(config.updated, None);
    finish_update(&mut config, false, "t2");
    assert_eq!(config.updated, Some("t2".to_string()));
    finish_update(&mut config, true, "t3");
    assert_eq!(config.updated, Some("t2".to_string()));
}

#[test]
fn letting_go_of_an_entry_removes_its_links_and_no_others() {
    let mut config = managing(vec![
        entry("/src/conf", "/src/conf", SourceType::Directory),
        entry("https://github.com/u/r", "/git/r", SourceType::Git),
        entry("/src/config", "/src/config", SourceType::Directory),
    ]);
    let mut store = SymlinkState {
        symlinks: vec![
            record("/h/a", "/src/conf/a"),
            record("/h/b", "/git/r/b"),
            record("/h/c", "/src/config/c"),
            record("/h/d", "/src/conf/sub/d"),
        ],
    };
    let done = remove(&mut config, &mut store, "/src/conf");
    assert_eq!(done, Ok(Forgotten { links: texts(&["/h/a", "/h/d"]), clone: None }));
    assert_eq!(store.symlinks, vec![record("/h/b", "/git/r/b"), record("/h/c", "/src/config/c")]);
    assert_eq!(
        config.dotfiles,
        vec![
            entry("https://github.com/u/r", "/git/r", SourceType::Git),
            entry("/src/config", "/src/config", SourceType::Directory),
        ]
    );
}

#[test]
fn letting_go_of_a_repository_names_its_clone() {
    let mut config = managing(vec![entry("https://github.com/u/r", "/git/r", SourceType::Git)]);
    let mut store = SymlinkState {
        symlinks: vec![record("/h/x", "https://github.com/u/r/x"), record("/h/b", "/git/r/b")],
    };
    let done = remove(&mut config, &mut store, "https://github.com/u/r");
    assert_eq!(done, Ok(Forgotten { links: texts(&["/h/b"]), clone: Some("/git/r".to_string()) }));
    assert_eq!(store.symlinks, vec![record("/h/x", "https://github.com/u/r/x")]);
    assert!(config.dotfiles.is_empty());
}

#[test]
fn letting_go_of_what_is_not_managed_changes_nothing() {
    let mut config = managing(vec![entry("/src/a", "/src/a", SourceType::File)]);
    let mut store = SymlinkState { symlinks: vec![record("/h/a", "/src/a")] };
    let (before_config, before_store) = (config.clone(), store.clone());
    assert_eq!(
        remove(&mut config, &mut store, "/src/b"),
        Err(DotmeError::NotManaged { source: "/src/b".to_string() })
    );
    assert_eq!(config, before_config);
    assert_eq!(store, before_store);
}

#[test]
fn entries_are_shown_with_their_kind() {
    assert_eq!(entry_label(&entry("/src/a", "/x", SourceType::File)), "[file] /src/a");
    assert_eq!(entry_label(&entry("/src/d", "/x", SourceType::Directory)), "[directory] /src/d");
    assert_eq!(entry_label(&entry("git@h:r", "/x", SourceType::Git)), "[git] git@h:r");
}

#[test]
fn texts_are_joined_with_a_separator() {
    assert_eq!(join_texts(&texts(&["dev", "geek", "bin"]), ", "), "dev, geek, bin");
    assert_eq!(join_texts(&texts(&["dev"]), ", "), "dev");
    assert_eq!(join_texts(&vec![], ", "), "");
    assert_eq!(join_texts(&texts(&["", ""]), "-"), "-");
    assert_eq!(join_texts(&texts(&["a", "b"]), ""), "ab");
}

#[test]
fn the_status_of_a_file_entry_is_worded() {
    let file = entry("/src/.bashrc", "/cwd/.bashrc", SourceType::File);
    assert_eq!(
        entry_status(&file, true),
        texts(&["  \u{2713} exists [file]", "    Source: /src/.bashrc", "    Target: /cwd/.bashrc", ""])
    );
    assert_eq!(
        entry_status(&file, false),
        texts(&["  \u{2717} missing [file]", "    Source: /src/.bashrc", "    Target: /cwd/.bashrc", ""])
    );
}

#[test]
fn the_status_of_a_repository_is_worded() {
    let mut repo = entry("git@h:r.git", "/git/r", SourceType::Git);
    assert_eq!(
        entry_status(&repo, true),
        texts(&["  \u{2713} exists [git]", "    Source: git@h:r.git", "    Local:  /git/r", ""])
    );
    repo.folders = Some(texts(&["dev", "geek"]));
    assert_eq!(
        entry_status(&repo, false),
        texts(&[
            "  \u{2717} missing [git]",
            "    Source: git@h:r.git",
            "    Local:  /git/r",
            "    Folders: dev, geek",
            ""
        ])
    );
    let mut folder = entry("/src/d", "/cwd/d", SourceType::Directory);
    folder.folders = Some(texts(&["ignored"]));
    assert_eq!(
        entry_status(&folder, true),
        texts(&["  \u{2713} exists [directory]", "    Source: /src/d", "    Target: /cwd/d", ""])
    );
}

#[test]
fn a_recorded_link_is_worded_for_the_listing() {
    let link = record("/h/.bashrc", "/src/bashrc");
    assert_eq!(
        link_listing(&link, LinkStatus::Correct, "2024-01-15 10:30:00", Some("2024-01-15 12:45:00")),
        texts(&[
            "  \u{2713} valid /h/.bashrc",
            "    \u{2192} /src/bashrc",
            "    Created: 2024-01-15 10:30:00",
            "    Verified: 2024-01-15 12:45:00",
            ""
        ])
    );
    assert_eq!(
        link_listing(&link, LinkStatus::WrongTarget, "then", None),
        texts(&[
            "  \u{26a0} points to wrong target /h/.bashrc",
            "    \u{2192} /src/bashrc",
            "    Created: then",
            ""
        ])
    );
    assert_eq!(link_listing(&link, LinkStatus::Missing, "t", None)[0], "  \u{2717} broken or missing /h/.bashrc");
}

#[test]
fn every_short_address_is_named_as_the_standard_library_would() {
    let alphabet = ['/', '.', 'g', 'i', 't', 'x'];
    let mut last = vec![String::new()];
    for _ in 0..6 {
        let mut next = Vec::new();
        for text in &last {
            for c in alphabet {
                let mut longer = text.clone();
                longer.push(c);
                next.push(longer);
            }
        }
        for url in &next {
            let expected = url.rsplit('/').next().unwrap_or("repo").trim_end_matches(".git");
            assert_eq!(repository_name(url), expected, "{:?}", url);
        }
        last = next;
    }
}

#[test]
fn a_simulated_add_changes_nothing() {
    for kind in [SourceType::File, SourceType::Directory, SourceType::Git] {
        for clone_exists in [false, true] {
            for ask in [false, true] {
                let step = add_step(kind, clone_exists, ask, true);
                assert!(!step.clone);
                assert!(!step.persist);
            }
        }
    }
}

#[test]
fn a_simulated_add_walks_only_what_is_on_disk() {
    assert_eq!(
        add_step(SourceType::Git, false, true, true),
        AddStep { clone: false, ask_folders: false, persist: false, walk: false }
    );
    assert_eq!(
        add_step(SourceType::Git, true, true, true),
        AddStep { clone: false, ask_folders: true, persist: false, walk: true }
    );
    assert_eq!(
        add_step(SourceType::Directory, false, false, true),
        AddStep { clone: false, ask_folders: false, persist: false, walk: true }
    );
    assert_eq!(
        add_step(SourceType::File, true, false, true),
        AddStep { clone: false, ask_folders: false, persist: false, walk: true }
    );
}

#[test]
fn a_real_add_clones_walks_and_writes() {
    for clone_exists in [false, true] {
        assert_eq!(
            add_step(SourceType::Git, clone_exists, true, false),
            AddStep { clone: true, ask_folders: true, persist: true, walk: true }
        );
        assert_eq!(
            add_step(SourceType::Git, clone_exists, false, false),
            AddStep { clone: true, ask_folders: false, persist: true, walk: true }
        );
        assert_eq!(
            add_step(SourceType::File, clone_exists, false, false),
            AddStep { clone: false, ask_folders: false, persist: true, walk: true }
        );
        assert_eq!(
            add_step(SourceType::Directory, clone_exists, false, false),
            AddStep { clone: false, ask_folders: false, persist: true, walk: true }
        );
    }
}

#[test]
fn a_moment_is_shown_in_local_time_where_that_is_known() {
    assert_eq!(
        shown_timestamp("2024-01-15T10:30:00+00:00", Some("2024-01-15 11:30:00".to_string())),
        "2024-01-15 11:30:00"
    );
    assert_eq!(shown_timestamp("not a moment", None), "not a moment");
    assert_eq!(shown_timestamp("", None), "");
}
