use vfind::config::{Config, ConfigError, FindType, SizeType};
use vfind::matcher::NameMatcher;
use vfind::config::create_name_matcher;
use vfind::walker::{find_all, DiagKind, DirEntry, DirListing, Find, FsTree};

fn file(name: &str, size: u64) -> DirEntry {
    DirEntry::Child { name: String::from(name), node: FsTree::File { size: Some(size) } }
}

fn dir(name: &str, entries: Vec<DirEntry>) -> DirEntry {
    DirEntry::Child {
        name: String::from(name),
        node: FsTree::Dir { listing: DirListing::Entries(entries) },
    }
}

fn plain_config() -> Config {
    Config::parse(String::from("root"), "f", None, None, None, None, None).unwrap()
}

#[test]
fn test_match_name() {
    let mut config = Config::default();
    config.matcher = Some(NameMatcher::new(String::from("^(.*).rs$")).unwrap());
    let find = Find::new(config);

    assert_eq!(find.match_name("./src/main.rs"), true);
    assert_eq!(find.match_name("./src/config.rs"), true);
}

#[test]
fn test_parse_size_at_least() {
    assert_eq!(SizeType::parse("+5K"), Ok(SizeType::AtLeast(5120)));
}

#[test]
fn test_parse_size_at_most() {
    assert_eq!(SizeType::parse("-10M"), Ok(SizeType::AtMost(10485760)));
}

#[test]
fn test_parse_size_exact() {
    assert_eq!(SizeType::parse("100"), Ok(SizeType::ExactlyEquals(100)));
}

#[test]
fn test_parse_size_units_multiply() {
    assert_eq!(SizeType::parse("7G"), Ok(SizeType::ExactlyEquals(7516192768)));
    assert_eq!(SizeType::parse("-2K"), Ok(SizeType::AtMost(2048)));
    assert_eq!(SizeType::parse("+0"), Ok(SizeType::AtLeast(0)));
}

#[test]
fn test_parse_size_rejects_bad_tokens() {
    for bad in ["", "abc", "12x", "K", "+", "-", "+K", "--5", "5KK", "1.5K", "+5k", " 5", "5 "] {
        assert_eq!(SizeType::parse(bad), Err(ConfigError::UnknownSize), "token: {:?}", bad);
    }
}

#[test]
fn test_parse_size_rejects_overflow() {
    assert_eq!(SizeType::parse("99999999999999999999"), Err(ConfigError::UnknownSize));
    assert_eq!(SizeType::parse("+18014398509481984G"), Err(ConfigError::UnknownSize));
    assert_eq!(SizeType::parse("18446744073709551615"), Ok(SizeType::ExactlyEquals(u64::MAX)));
    assert_eq!(SizeType::parse("18446744073709551616"), Err(ConfigError::UnknownSize));
}

#[test]
fn test_glob_matches_rs_names() {
    let m = create_name_matcher(None, Some(String::from("*.rs")), None).unwrap().unwrap();
    let mut config = Config::default();
    config.matcher = Some(m);
    let find = Find::new(config);

    assert!(find.match_name("main.rs"));
    assert!(find.match_name("config.rs"));
    assert!(!find.match_name("main.rs.bak"));
}

#[test]
fn test_case_insensitive_glob() {
    let m = create_name_matcher(None, None, Some(String::from("*.RS"))).unwrap().unwrap();
    let mut config = Config::default();
    config.matcher = Some(m);
    let find = Find::new(config);

    assert!(find.match_name("main.rs"));
    assert!(!find.match_name("main.c"));
}

#[test]
fn test_ambiguous_name_matcher() {
    let r = Config::parse(
        String::from("."),
        "f",
        None,
        Some(String::from("*.rs")),
        None,
        Some(String::from("^a$")),
        None,
    );
    match r {
        Err(e) => assert_eq!(e, ConfigError::AmbiguousNameMatcher),
        Ok(_) => panic!("two name filter sources must be rejected"),
    }
}

#[test]
fn test_config_parse_errors() {
    let r = Config::parse(String::from("."), "x", None, None, None, None, None);
    assert_eq!(r.unwrap_err(), ConfigError::UnknownType);

    let r = Config::parse(
        String::from("."),
        "f",
        Some(String::from("5X")),
        None,
        None,
        None,
        None,
    );
    assert_eq!(r.unwrap_err(), ConfigError::UnknownSize);

    let r = Config::parse(String::from("."), "f", None, None, None, None, Some(0));
    assert_eq!(r.unwrap_err(), ConfigError::InvalidDepth);

    let r = Config::parse(
        String::from("."),
        "f",
        None,
        None,
        None,
        Some(String::from("(")),
        None,
    );
    assert_eq!(r.unwrap_err(), ConfigError::InvalidRegex);
}

#[test]
fn test_config_parse_accepts_full_set() {
    let c = Config::parse(
        String::from("/tmp"),
        "d",
        Some(String::from("+1K")),
        None,
        None,
        None,
        Some(3),
    )
    .unwrap();
    assert_eq!(c.dir, "/tmp");
    assert_eq!(c.find_type, FindType::Dir);
    assert_eq!(c.size_in_bytes, Some(SizeType::AtLeast(1024)));
    assert!(c.matcher.is_none());
    assert_eq!(c.depth, Some(3));
}

#[test]
fn test_partial_failure_reports_file_and_one_diagnostic() {
    let tree = FsTree::Dir {
        listing: DirListing::Entries(vec![
            DirEntry::Child {
                name: String::from("bad"),
                node: FsTree::Dir { listing: DirListing::Unreadable },
            },
            file("a.txt", 3),
        ]),
    };
    let mut find = Find::new(plain_config());
    find.run("root", &tree);

    assert_eq!(find.matches, vec![String::from("root/a.txt")]);
    assert_eq!(find.diagnostics.len(), 1);
    assert_eq!(find.diagnostics[0].path, "root/bad");
    assert_eq!(find.diagnostics[0].kind, DiagKind::UnreadableListing);
}

#[test]
fn test_unreadable_entry_is_skipped_with_diagnostic() {
    let tree = FsTree::Dir {
        listing: DirListing::Entries(vec![
            DirEntry::Unreadable,
            file("kept.txt", 1),
        ]),
    };
    let mut find = Find::new(plain_config());
    find.run("root", &tree);

    assert_eq!(find.matches, vec![String::from("root/kept.txt")]);
    assert_eq!(find.diagnostics.len(), 1);
    assert_eq!(find.diagnostics[0].path, "root");
    assert_eq!(find.diagnostics[0].kind, DiagKind::UnreadableEntry);
}

#[test]
fn test_unknown_root_reports_nothing() {
    let mut find = Find::new(plain_config());
    find.run("/foo", &FsTree::Unknown);

    assert!(find.matches.is_empty());
    assert!(find.diagnostics.is_empty());
}

#[test]
fn test_depth_limit_prunes_deeper_levels() {
    let tree = FsTree::Dir {
        listing: DirListing::Entries(vec![
            dir(
                "sub",
                vec![
                    dir("deep", vec![file("buried.txt", 1)]),
                    file("one.txt", 1),
                ],
            ),
            file("top.txt", 1),
        ]),
    };

    let shallow =
        Config::parse(String::from("root"), "f", None, None, None, None, Some(1)).unwrap();
    let mut find = Find::new(shallow);
    find.run("root", &tree);
    assert_eq!(find.matches, vec![String::from("root/top.txt")]);

    let deeper =
        Config::parse(String::from("root"), "f", None, None, None, None, Some(2)).unwrap();
    let mut find = Find::new(deeper);
    find.run("root", &tree);
    assert_eq!(
        find.matches,
        vec![String::from("root/sub/one.txt"), String::from("root/top.txt")]
    );
}

#[test]
fn test_repeated_traversal_is_identical() {
    let tree = FsTree::Dir {
        listing: DirListing::Entries(vec![
            dir("a", vec![file("x.rs", 10), file("y.txt", 20)]),
            DirEntry::Child {
                name: String::from("bad"),
                node: FsTree::Dir { listing: DirListing::Unreadable },
            },
            file("z.rs", 30),
        ]),
    };
    let make = || {
        Config::parse(
            String::from("root"),
            "f",
            None,
            Some(String::from("*.rs")),
            None,
            None,
            None,
        )
        .unwrap()
    };
    let mut first = Find::new(make());
    first.run("root", &tree);
    let mut second = Find::new(make());
    second.run("root", &tree);

    assert_eq!(first.matches, second.matches);
    assert_eq!(first.matches, vec![String::from("root/a/x.rs"), String::from("root/z.rs")]);
    assert_eq!(first.diagnostics.len(), second.diagnostics.len());
}

#[test]
fn test_directories_reported_preorder_and_ignore_filters() {
    let tree = FsTree::Dir {
        listing: DirListing::Entries(vec![dir("a", vec![dir("b", vec![])]), file("f.txt", 1)]),
    };
    let config = Config::parse(
        String::from("root"),
        "d",
        Some(String::from("+1G")),
        None,
        None,
        None,
        None,
    )
    .unwrap();
    let mut find = Find::new(config);
    find.run("root", &tree);

    assert_eq!(
        find.matches,
        vec![String::from("root"), String::from("root/a"), String::from("root/a/b")]
    );
}

#[test]
fn test_symlinks_matched_by_name_never_followed() {
    let tree = FsTree::Dir {
        listing: DirListing::Entries(vec![
            DirEntry::Child { name: String::from("link.rs"), node: FsTree::Symlink },
            DirEntry::Child { name: String::from("other"), node: FsTree::Symlink },
            file("plain.rs", 1),
        ]),
    };
    let config = Config::parse(
        String::from("root"),
        "s",
        None,
        Some(String::from("*.rs")),
        None,
        None,
        None,
    )
    .unwrap();
    let mut find = Find::new(config);
    find.run("root", &tree);

    assert_eq!(find.matches, vec![String::from("root/link.rs")]);
}

#[test]
fn test_size_filter_applies_to_files() {
    let tree = FsTree::Dir {
        listing: DirListing::Entries(vec![
            file("small", 100),
            file("big", 5000),
            DirEntry::Child { name: String::from("odd"), node: FsTree::File { size: None } },
        ]),
    };
    let config = Config::parse(
        String::from("root"),
        "f",
        Some(String::from("+1K")),
        None,
        None,
        None,
        None,
    )
    .unwrap();
    let mut find = Find::new(config);
    find.run("root", &tree);

    assert_eq!(find.matches, vec![String::from("root/big")]);
}

#[test]
fn test_file_without_readable_size_matches_without_constraint() {
    let tree = FsTree::Dir {
        listing: DirListing::Entries(vec![DirEntry::Child {
            name: String::from("odd"),
            node: FsTree::File { size: None },
        }]),
    };
    let mut find = Find::new(plain_config());
    find.run("root", &tree);

    assert_eq!(find.matches, vec![String::from("root/odd")]);
}

#[test]
fn test_match_size_variants() {
    let exact = Config::parse(
        String::from("."),
        "f",
        Some(String::from("100")),
        None,
        None,
        None,
        None,
    )
    .unwrap();
    let find = Find::new(exact);
    assert!(find.match_size(Some(100)));
    assert!(!find.match_size(Some(101)));
    assert!(!find.match_size(None));

    let most = Config::parse(
        String::from("."),
        "f",
        Some(String::from("-1K")),
        None,
        None,
        None,
        None,
    )
    .unwrap();
    let find = Find::new(most);
    assert!(find.match_size(Some(1024)));
    assert!(!find.match_size(Some(1025)));
}

#[test]
fn test_find_all_runs_whole_pipeline() {
    let tree = FsTree::Dir {
        listing: DirListing::Entries(vec![file("a.rs", 1), file("b.txt", 1)]),
    };
    let find = find_all(
        String::from("root"),
        "f",
        None,
        Some(String::from("*.rs")),
        None,
        None,
        None,
        &tree,
    )
    .unwrap();
    assert_eq!(find.matches, vec![String::from("root/a.rs")]);
    assert!(find.diagnostics.is_empty());

    let err = find_all(String::from("root"), "f", None, None, None, None, Some(0), &tree);
    match err {
        Err(e) => assert_eq!(e, ConfigError::InvalidDepth),
        Ok(_) => panic!("zero depth must be rejected before any traversal"),
    }
}

#[test]
fn test_raw_regex_filters_full_component() {
    let config = Config::parse(
        String::from("root"),
        "f",
        None,
        None,
        None,
        Some(String::from("^ma")),
        None,
    )
    .unwrap();
    let find = Find::new(config);
    assert!(find.match_name("root/main.rs"));
    assert!(!find.match_name("root/lemain.rs"));
}
