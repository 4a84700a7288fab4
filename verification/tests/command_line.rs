use rust_tar::args::{parse_args, usage_error_lines, ArgParser, Event, UsageError};
use rust_tar::compression::Compression;
use rust_tar::options::{Args, CacheExcludeMode};

fn start(argv: &[&str]) -> ArgParser {
    parse_args(argv.iter().map(|s| s.to_string()).collect(), None)
}

fn read(argv: &[&str]) -> Args {
    let (parser, event) = start(argv).advance();
    assert!(matches!(event, Event::Done));
    parser.args
}

fn failed(argv: &[&str]) -> UsageError {
    match start(argv).advance().1 {
        Event::Failed(e) => e,
        other => panic!("{other:?}"),
    }
}

fn pending(parser: &ArgParser) -> Vec<String> {
    parser.queue.iter().cloned().collect()
}

#[test]
fn leading_bundle_is_taken_apart() {
    assert_eq!(
        pending(&start(&["xvfT", "a", "b"])),
        ["-x", "-v", "-f", "a", "-T", "b"]
    );
    assert_eq!(
        pending(&start(&["cf", "a.tar", "p", "q"])),
        ["-c", "-f", "a.tar", "p", "q"]
    );
    assert_eq!(pending(&start(&["fT", "a"])), ["-f", "a", "-T"]);
    assert_eq!(pending(&start(&["fC", "a"])), ["fC", "a"]);
    assert_eq!(pending(&start(&["--list", "x"])), ["--list", "x"]);
    assert_eq!(pending(&start(&["q", "x"])), ["q", "x"]);
    assert_eq!(pending(&start(&[""])), [""]);
}

#[test]
fn bare_dash_is_a_path() {
    assert_eq!(pending(&start(&["-"])), ["-"]);
    assert_eq!(read(&["-"]).paths, ["-"]);
    assert_eq!(read(&["tf", "-", "-"]).file.as_deref(), Some("-"));
    assert_eq!(read(&["tf", "-", "-"]).paths, ["-"]);
}

#[test]
fn paths_go_with_the_directory_before_them() {
    let args = read(&[
        "cf", "a", "p", "-C", "d", "q", "--add-file=r", "--directory=e", "s", "-C", "f",
    ]);
    assert_eq!(args.paths, ["p", "q", "r", "s"]);
    let directories: Vec<Option<&str>> =
        args.path_directories.iter().map(|d| d.as_deref()).collect();
    assert_eq!(directories, [None, Some("d"), Some("d"), Some("e")]);
    assert_eq!(args.directory.as_deref(), Some("f"));
    assert_eq!(args.directory_at(0), None);
    assert_eq!(args.directory_at(3).as_deref(), Some("e"));
    assert_eq!(args.directory_at(4).as_deref(), Some("f"));
    let (parser, event) = start(&["-C", "d", "-T", "list", "-C", "e"]).advance();
    assert!(matches!(event, Event::ReadPaths { .. }));
    let (parser, _) = parser.take_paths("x\n\ny\n", false).advance();
    assert_eq!(parser.args.paths, ["x", "y"]);
    assert_eq!(parser.args.directory_at(1).as_deref(), Some("d"));
}

#[test]
fn leading_dash_is_optional() {
    assert_eq!(
        pending(&start(&["czf", "a", "b"])),
        pending(&start(&["-czf", "a", "b"]))
    );
}

#[test]
fn default_options_come_first() {
    let parser = parse_args(
        vec!["cf".to_string(), "a".to_string()],
        Some(" -H  v7\t".to_string()),
    );
    assert_eq!(pending(&parser), ["-H", "v7", "-c", "-f", "a"]);
    let (parser, _) = parser.advance();
    assert_eq!(parser.args.format.as_deref(), Some("v7"));
    assert_eq!(parser.args.file.as_deref(), Some("a"));
}

#[test]
fn nothing_is_set_at_first() {
    let args = read(&[]);
    assert!(args.switches.wildcards_default);
    assert!(args.switches.match_slash_default);
    assert!(!args.switches.anchored_default);
    assert!(!args.switches.create);
    assert!(args.file.is_none());
    assert!(args.paths.is_empty());
    assert!(args.switches.explicit_anchored.is_none());
}

#[test]
fn long_names_set_switches() {
    let args = read(&[
        "--create",
        "--verbose",
        "--verbose",
        "--gzip",
        "--no-recursion",
        "--dereference",
        "--absolute-names",
        "--numeric-owner",
        "--same-permissions",
        "--no-same-permissions",
        "--no-same-owner",
        "--sort=name",
        "--wildcards",
        "--no-anchored",
        "--ignore-case",
        "--no-wildcards-match-slash",
    ]);
    let s = args.switches;
    assert!(s.create && s.verbose && s.no_recursion && s.dereference);
    assert_eq!(s.verbose_level, 2);
    assert_eq!(s.compression, Some(Compression::Gzip));
    assert!(s.absolute_names && s.numeric_owner && s.preserve_permissions);
    assert!(s.no_same_permissions && s.no_same_owner && s.sort_name);
    assert!(s.explicit_wildcards && s.wildcards_default && s.ignore_case_default);
    assert_eq!(s.explicit_anchored, Some(false));
    assert!(!s.match_slash_default);
    assert!(read(&["--get"]).switches.extract);
    assert!(read(&["--compare"]).switches.diff);
    assert!(read(&["--test-label"]).switches.test_label);
    assert!(!read(&["--sort=none"]).switches.sort_name);
}

#[test]
fn values_follow_or_are_attached() {
    for argv in [
        vec!["--file", "a", "--directory", "d", "--label", "l"],
        vec!["--file=a", "--directory=d", "--label=l"],
        vec!["--list", "-fa", "-Cd", "-Vl"],
        vec!["--list", "-f", "a", "-C", "d", "-V", "l"],
    ] {
        let args = read(&argv);
        assert_eq!(args.file.as_deref(), Some("a"));
        assert_eq!(args.directory.as_deref(), Some("d"));
        assert_eq!(args.label.as_deref(), Some("l"));
    }
}

#[test]
fn missing_values_clear_or_keep() {
    assert_eq!(read(&["--file=a", "--file"]).file, None);
    assert_eq!(
        read(&["--format=v7", "--format"]).format.as_deref(),
        Some("v7")
    );
    assert_eq!(read(&["--format=v7", "-vH"]).format, None);
    assert_eq!(read(&["--list", "-Hustar"]).format.as_deref(), Some("ustar"));
    assert_eq!(read(&["--list", "-vHpax"]).format.as_deref(), Some("pax"));
}

#[test]
fn numbers_and_times_are_read_from_words() {
    assert_eq!(
        read(&["--strip-components=2"]).switches.strip_components,
        2
    );
    assert_eq!(read(&["--strip", "3"]).switches.strip_components, 3);
    assert_eq!(
        read(&["--strip-components=x"]).switches.strip_components,
        0
    );
    assert_eq!(read(&["--mtime=@7"]).switches.mtime_override, Some(7));
    assert_eq!(
        read(&["--mtime", "1970-01-02"]).switches.mtime_override,
        Some(86400)
    );
    assert_eq!(
        read(&["--mtime=@7", "--mtime=later"]).switches.mtime_override,
        None
    );
}

#[test]
fn exclusions_keep_the_rules_of_their_place() {
    let args = read(&[
        "--exclude=a",
        "--no-wildcards",
        "--anchored",
        "--exclude",
        "b",
        "--ignore-case",
        "--no-wildcards-match-slash",
        "--exclude=c",
    ]);
    let rules: Vec<(&str, bool, bool, bool, bool)> = args
        .excludes
        .iter()
        .map(|e| {
            (
                e.pattern.as_str(),
                e.wildcards,
                e.anchored,
                e.match_slash,
                e.ignore_case,
            )
        })
        .collect();
    assert_eq!(
        rules,
        [
            ("a", true, false, true, false),
            ("b", false, true, true, false),
            ("c", false, true, false, true),
        ]
    );
}

#[test]
fn fixed_exclusions_are_added() {
    let args = read(&["--exclude-backups"]);
    let patterns: Vec<&str> = args.excludes.iter().map(|e| e.pattern.as_str()).collect();
    assert_eq!(patterns, ["*~", ".#*", "#*#"]);
    assert!(args.excludes.iter().all(|e| e.wildcards && !e.anchored));
    let args = read(&["--exclude-vcs"]);
    assert_eq!(args.excludes.len(), 25);
    assert_eq!(args.excludes[0].pattern, ".svn");
    assert_eq!(args.excludes[24].pattern, "RCS");
    assert!(args.excludes.iter().all(|e| !e.wildcards && !e.anchored));
}

#[test]
fn tag_files_are_collected() {
    let args = read(&[
        "--exclude-caches-under",
        "--exclude-tag=t",
        "--exclude-tag-all=u",
    ]);
    assert_eq!(
        args.cache_exclude,
        Some(("CACHEDIR.TAG".to_string(), CacheExcludeMode::Under))
    );
    assert_eq!(
        args.tag_excludes,
        [
            ("t".to_string(), CacheExcludeMode::Normal),
            ("u".to_string(), CacheExcludeMode::All)
        ]
    );
}

#[test]
fn bundles_are_read_letter_by_letter() {
    let args = read(&["--list", "-cvvzf", "a.tgz", "p"]);
    assert!(args.switches.create && args.switches.list);
    assert_eq!(args.switches.verbose_level, 2);
    assert_eq!(args.switches.compression, Some(Compression::Gzip));
    assert_eq!(args.file.as_deref(), Some("a.tgz"));
    assert_eq!(args.paths, ["p"]);
    let args = read(&["--list", "-Wkb20", "-L", "9", "-bg", "p"]);
    assert_eq!(args.paths, ["p"]);
    let args = read(&["--list", "-vb", "20", "p"]);
    assert_eq!(args.paths, ["p"]);
}

#[test]
fn ignored_options_change_nothing() {
    let args = read(&[
        "--totals",
        "--warning=no-timestamp",
        "--blocking-factor",
        "20",
        "--acls",
        "-S",
        "-I",
        "zstd",
        "-Izstd",
        "--backup",
        "p",
    ]);
    assert_eq!(args.paths, ["p"]);
    assert_eq!(args.switches.verbose_level, 0);
}

#[test]
fn paths_are_collected_in_order() {
    let args = read(&["--list", "a", "--add-file=b", "--add-file", "c", "-", "d"]);
    assert_eq!(args.paths, ["a", "b", "c", "-", "d"]);
}

#[test]
fn lists_of_paths_are_asked_for_and_taken() {
    let (parser, event) = start(&["--list", "-T", "names", "z"]).advance();
    let marked = match event {
        Event::ReadPaths { file, marked } => {
            assert_eq!(file, "names");
            marked
        }
        other => panic!("{other:?}"),
    };
    assert!(marked);
    assert!(parser.args.switches.files_from_used);
    let parser = parser.take_paths("a\n\nb\0\r\n--add-file=c\nd\r", marked);
    let (parser, event) = parser.advance();
    assert!(matches!(event, Event::Done));
    assert_eq!(parser.args.paths, ["a", "b", "c", "d\r", "z"]);
}

#[test]
fn unmarked_lists_keep_their_lines() {
    for argv in [vec!["--list", "--files-from=n"], vec!["--list", "-vTn"]] {
        match start(&argv).advance() {
            (parser, Event::ReadPaths { file, marked }) => {
                assert_eq!(file, "n");
                let parser = parser.take_paths("--add-file=c\na\0\0\n", marked);
                assert_eq!(parser.args.paths, ["--add-file=c", "a"]);
            }
            (_, other) => panic!("{other:?}"),
        }
    }
    assert!(read(&["--list", "-T"]).switches.files_from_used);
}

#[test]
fn lists_of_exclusions_are_asked_for_and_taken() {
    for argv in [
        vec!["--anchored", "-X", "n"],
        vec!["--anchored", "--exclude-from=n"],
        vec!["--anchored", "-vXn"],
    ] {
        match start(&argv).advance() {
            (parser, Event::ReadExcludes { file }) => {
                assert_eq!(file, "n");
                let args = parser.take_excludes("a\n\nb").args;
                let patterns: Vec<&str> =
                    args.excludes.iter().map(|e| e.pattern.as_str()).collect();
                assert_eq!(patterns, ["a", "b"]);
                assert!(args.excludes.iter().all(|e| e.anchored && e.wildcards));
            }
            (_, other) => panic!("{other:?}"),
        }
    }
}

#[test]
fn transforms_are_collected() {
    let args = read(&["--transform=s/a/b/", "--xform", "s,c,d,g"]);
    assert_eq!(args.transforms.len(), 2);
    assert_eq!(args.transforms[1].pattern, "c");
    assert!(args.transforms[1].global);
}

#[test]
fn version_and_help_are_asked_for() {
    assert!(matches!(start(&["--version"]).advance().1, Event::Version));
    assert!(matches!(start(&["--help"]).advance().1, Event::Help));
}

#[test]
fn usage_errors_are_reported() {
    let e = failed(&["--transform=x"]);
    assert_eq!(
        usage_error_lines(&e),
        ["tar: unsupported transform expression: x"]
    );
    assert!(matches!(
        failed(&["--xform", "sé/a/b/"]),
        UsageError::TransformSeparator
    ));
    let e = failed(&["--format=v7", "--pax-option", "x"]);
    assert_eq!(
        usage_error_lines(&e),
        [
            "tar: --pax-option can be used only on POSIX archives",
            "Try 'tar --help' or 'tar --usage' for more information."
        ]
    );
    let e = failed(&["--format=v7", "--pax-option=x"]);
    assert_eq!(
        usage_error_lines(&e),
        ["tar: --pax-option can be used only on POSIX archives"]
    );
    let e = failed(&["--list", "-vq"]);
    assert_eq!(usage_error_lines(&e), ["tar: unknown option: -q"]);
    let e = failed(&["--nonsense"]);
    assert_eq!(
        usage_error_lines(&e),
        ["tar: unrecognized option: --nonsense"]
    );
    let e = failed(&["--strip=1"]);
    assert_eq!(usage_error_lines(&e), ["tar: unrecognized option: --strip=1"]);
    let args = read(&["--format=posix", "--pax-option=x", "--pax-option", "y", "p"]);
    assert_eq!(args.paths, ["p"]);
}

#[test]
fn verbosity_is_counted_up_to_its_limit() {
    let bundle = format!("-{}", "v".repeat(300));
    let args = read(&["--list", &bundle]);
    assert_eq!(args.switches.verbose_level, 255);
}
