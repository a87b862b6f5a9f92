use dotme::paths::{
    absolute, extension, file_name, is_absolute, join, same_path, same_place, starts_with,
};
use dotme::text;

#[test]
fn join_puts_one_separator_between() {
    assert_eq!(join("/home/u", "x"), "/home/u/x");
    assert_eq!(join("/home/u/", "x"), "/home/u/x");
    assert_eq!(join("rel", "a/b"), "rel/a/b");
}

#[test]
fn join_edge_cases() {
    assert_eq!(join("", "x"), "x");
    assert_eq!(join("/", "x"), "/x");
    assert_eq!(join("/home/u", ""), "/home/u/");
    assert_eq!(join("/home/u", "/etc"), "/etc");
    assert_eq!(join("", ""), "");
}

#[test]
fn join_agrees_with_the_standard_library() {
    let cases = [("/home/u", "x"), ("/home/u/", "x"), ("", "x"), ("/", "x"), ("/a", "/b"), ("a", "b/c"), ("/a", "")];
    for (base, name) in cases {
        let expected = std::path::Path::new(base).join(name);
        assert_eq!(join(base, name), expected.to_str().unwrap());
    }
}

#[test]
fn starts_with_goes_by_whole_components() {
    assert!(starts_with("/repo/a/b", "/repo"));
    assert!(starts_with("/repo/a/b", "/repo/a"));
    assert!(starts_with("/repo", "/repo"));
    assert!(!starts_with("/repository/a", "/repo"));
    assert!(!starts_with("/repo", "/repo/a"));
    assert!(!starts_with("/a/repo", "/repo"));
}

#[test]
fn starts_with_ignores_empty_segments_and_dots() {
    assert!(starts_with("/repo//a/./b/", "/repo/a"));
    assert!(starts_with("/repo/a", "/repo/"));
    assert!(starts_with("/repo/a", "//repo/./"));
}

#[test]
fn starts_with_keeps_absolute_and_relative_apart() {
    assert!(!starts_with("repo/a", "/repo"));
    assert!(!starts_with("/repo/a", "repo"));
    assert!(starts_with("repo/a", "repo"));
    assert!(starts_with("anything", ""));
    assert!(starts_with("/anything", "/"));
    assert!(starts_with("/anything", ""));
    assert!(!starts_with("anything", "/"));
}

#[test]
fn starts_with_agrees_with_the_standard_library() {
    let cases = [
        ("/repo/a/b", "/repo"),
        ("/repository/a", "/repo"),
        ("/repo//a/./b/", "/repo/a"),
        ("repo/a", "/repo"),
        ("/etc/passwd", "/etc/passwd/"),
        ("/etc/passwd", "/e"),
        ("a/b", "a"),
        ("a/b", ""),
        ("/", "/"),
    ];
    for (path, root) in cases {
        assert_eq!(starts_with(path, root), std::path::Path::new(path).starts_with(root), "{} {}", path, root);
    }
}

#[test]
fn same_path_compares_places() {
    assert!(same_path("/a/b", "/a//b/"));
    assert!(same_path("/a/./b", "/a/b"));
    assert!(!same_path("", "."));
    assert!(!same_path("/a/b", "a/b"));
    assert!(!same_path("/a/b", "/a/b/c"));
    assert!(!same_path("/a/b", "/a/c"));
    assert!(!same_path("/a/../b", "/b"));
}

#[test]
fn absolute_paths_are_kept_and_relative_ones_placed() {
    assert!(is_absolute("/x"));
    assert!(!is_absolute("x"));
    assert!(!is_absolute(""));
    assert_eq!(absolute("/x/y", "/cwd"), "/x/y");
    assert_eq!(absolute("x/y", "/cwd"), "/cwd/x/y");
    assert_eq!(absolute("", "/cwd"), "/cwd/");
}

#[test]
fn file_name_is_the_last_component() {
    assert_eq!(file_name("/home/u/.bashrc"), Some(".bashrc".to_string()));
    assert_eq!(file_name("/home/u/dir/"), Some("dir".to_string()));
    assert_eq!(file_name("name"), Some("name".to_string()));
    assert_eq!(file_name("a/b/."), Some("b".to_string()));
    assert_eq!(file_name("/"), None);
    assert_eq!(file_name(""), None);
    assert_eq!(file_name("a/.."), None);
    assert_eq!(file_name(".."), None);
    assert_eq!(file_name("a/..."), Some("...".to_string()));
}

#[test]
fn file_name_agrees_with_the_standard_library() {
    for path in ["/home/u/.bashrc", "/home/u/dir/", "name", "a/b/.", "/", "", "a/..", "x/y.tar.gz", "h\u{e9}llo/w\u{f6}rld"] {
        let expected = std::path::Path::new(path).file_name().map(|n| n.to_str().unwrap().to_string());
        assert_eq!(file_name(path), expected, "{}", path);
    }
}

#[test]
fn extension_follows_the_last_dot() {
    assert_eq!(extension("/etc/config.yml"), Some("yml".to_string()));
    assert_eq!(extension("a.tar.gz"), Some("gz".to_string()));
    assert_eq!(extension("/home/u/.bashrc"), None);
    assert_eq!(extension("/home/u/.config.json"), Some("json".to_string()));
    assert_eq!(extension("noext"), None);
    assert_eq!(extension("trailing."), Some("".to_string()));
    assert_eq!(extension("dir.d/file"), None);
    assert_eq!(extension("/"), None);
    assert_eq!(extension(".."), None);
}

#[test]
fn extension_agrees_with_the_standard_library() {
    for path in ["/etc/config.yml", "a.tar.gz", "/home/u/.bashrc", ".config.json", "noext", "trailing.", "dir.d/file", "/", "x.toml/"] {
        let expected = std::path::Path::new(path).extension().map(|n| n.to_str().unwrap().to_string());
        assert_eq!(extension(path), expected, "{}", path);
    }
}

#[test]
fn text_helpers_work_on_characters() {
    assert_eq!(text::chars_of("h\u{e9}!"), vec!['h', '\u{e9}', '!']);
    assert!(text::chars_of("").is_empty());
    assert!(text::same_text("abc", "abc"));
    assert!(!text::same_text("abc", "abd"));
    assert!(!text::same_text("abc", "ab"));
    assert!(text::same_text("", ""));
    assert_eq!(text::copy_text(&"xyz".to_string()), "xyz");
}

#[test]
fn text_prefix_suffix_and_search() {
    assert!(text::starts_with("https://x", "https://"));
    assert!(!text::starts_with("http://x", "https://"));
    assert!(text::starts_with("abc", ""));
    assert!(!text::starts_with("ab", "abc"));
    assert!(text::ends_with("repo.git", ".git"));
    assert!(!text::ends_with("repo.git/", ".git"));
    assert!(!text::ends_with("git", ".git"));
    assert!(text::ends_with("abc", ""));
    assert!(text::contains("https://github.com/u/r", "github.com"));
    assert!(!text::contains("https://github.co/u/r", "github.com"));
    assert!(text::contains("abc", ""));
    assert!(text::contains("", ""));
    assert!(!text::contains("", "a"));
    assert!(text::contains("xxabc", "abc"));
}

#[test]
fn matches_at_checks_one_position() {
    let hay = text::chars_of("hello");
    assert!(text::matches_at(&hay, 1, &text::chars_of("ell")));
    assert!(!text::matches_at(&hay, 2, &text::chars_of("ell")));
    assert!(!text::matches_at(&hay, 4, &text::chars_of("lo")));
    assert!(text::matches_at(&hay, 5, &text::chars_of("")));
    assert!(!text::matches_at(&hay, 6, &text::chars_of("")));
}

#[test]
fn a_dot_counts_only_in_front_of_a_relative_path() {
    assert!(!same_path("./a/b", "a/b"));
    assert!(same_path("./a/./b", "./a/b"));
    assert!(same_path("/./a", "/a"));
    assert!(same_path("./.", "."));
    assert!(!starts_with("./repo/a", "repo"));
    assert!(starts_with("./repo/a", "./repo"));
    assert!(starts_with("./repo/a", "."));
    assert!(!starts_with("repo/a", "."));
    assert_eq!(file_name("."), None);
    assert_eq!(file_name("./"), None);
    assert_eq!(file_name("./x"), Some("x".to_string()));
}

#[test]
fn the_directory_above_is_a_component_like_any_other() {
    assert!(!same_path("a/../b", "b"));
    assert!(starts_with("a/../b", "a/.."));
    assert!(!starts_with("a/../b", "b"));
}

/// Every text over a small alphabet, up to a length.
fn samples(max_len: usize) -> Vec<String> {
    let alphabet = ['a', 'b', '.', '/'];
    let mut all = vec![String::new()];
    let mut last = vec![String::new()];
    for _ in 0..max_len {
        let mut next = Vec::new();
        for text in &last {
            for c in alphabet {
                let mut longer = text.clone();
                longer.push(c);
                next.push(longer);
            }
        }
        all.extend(next.iter().cloned());
        last = next;
    }
    all
}

#[test]
fn one_path_is_read_as_the_standard_library_reads_it() {
    for path in samples(6) {
        let std_path = std::path::Path::new(&path);
        assert_eq!(is_absolute(&path), std_path.is_absolute(), "{:?}", path);
        let name = std_path.file_name().map(|n| n.to_str().unwrap().to_string());
        assert_eq!(file_name(&path), name, "{:?}", path);
        let ext = std_path.extension().map(|n| n.to_str().unwrap().to_string());
        assert_eq!(extension(&path), ext, "{:?}", path);
    }
}

#[test]
fn two_paths_are_compared_as_the_standard_library_compares_them() {
    let all = samples(4);
    for a in &all {
        for b in &all {
            let (pa, pb) = (std::path::Path::new(a), std::path::Path::new(b));
            assert_eq!(starts_with(a, b), pa.starts_with(pb), "{:?} {:?}", a, b);
            assert_eq!(same_path(a, b), pa == pb, "{:?} {:?}", a, b);
            assert_eq!(join(a, b), pa.join(pb).to_str().unwrap(), "{:?} {:?}", a, b);
        }
    }
}

#[test]
fn texts_are_searched_as_the_standard_library_searches_them() {
    let all = samples(4);
    for a in &all {
        for b in &all {
            assert_eq!(text::starts_with(a, b), a.starts_with(b.as_str()), "{:?} {:?}", a, b);
            assert_eq!(text::ends_with(a, b), a.ends_with(b.as_str()), "{:?} {:?}", a, b);
            assert_eq!(text::contains(a, b), a.contains(b.as_str()), "{:?} {:?}", a, b);
            assert_eq!(text::same_text(a, b), a == b, "{:?} {:?}", a, b);
        }
    }
}

#[test]
fn places_are_compared_in_normal_form() {
    assert!(same_place("/a/b/../c", "/a/c"));
    assert!(same_place("/a/./b//c/", "/a/b/c"));
    assert!(same_place("/..", "/"));
    assert!(same_place("/../../a", "/a"));
    assert!(same_place("a/..", ""));
    assert!(same_place("a/..", "."));
    assert!(same_place("./a", "a"));
    assert!(same_place("../a", "b/../../a"));
    assert!(same_place("a/b/../../..", ".."));
    assert!(!same_place("../a", "a"));
    assert!(!same_place("/a", "a"));
    assert!(!same_place("/a/b/..", "/a/b"));
    assert!(!same_place("/a/b", "/a/B"));
    assert!(same_place("", ""));
}

/// The normal form of a path, worked out the plain way.
fn plain_normal_form(path: &str) -> Vec<String> {
    let mut parts: Vec<String> = Vec::new();
    if path.starts_with('/') {
        parts.push("/".to_string());
    }
    for segment in path.split('/') {
        match segment {
            "" | "." => {},
            ".." => match parts.last().map(|p| p.as_str()) {
                None | Some("..") => parts.push("..".to_string()),
                Some("/") => {},
                Some(_) => {
                    parts.pop();
                },
            },
            other => parts.push(other.to_string()),
        }
    }
    parts
}

#[test]
fn every_short_pair_of_paths_is_compared_in_normal_form() {
    let all = samples(5);
    let forms: Vec<Vec<String>> = all.iter().map(|p| plain_normal_form(p)).collect();
    for (a, form_a) in all.iter().zip(&forms).step_by(7) {
        for (b, form_b) in all.iter().zip(&forms) {
            assert_eq!(same_place(a, b), form_a == form_b, "{:?} {:?}", a, b);
        }
    }
}

#[test]
fn paths_with_the_same_components_lead_to_the_same_place() {
    let all = samples(4);
    for a in &all {
        for b in &all {
            if same_path(a, b) {
                assert!(same_place(a, b), "{:?} {:?}", a, b);
            }
        }
    }
}
