use rust_tar::create::{
    addition_of, addition_order, archive_name, directory_name, display_name, file_entry,
    is_up_to_date, refuses_empty, report_addition, reports_to_stderr, shown_type, wants_path,
    Addition,
};
use rust_tar::exclude::{is_excluded, is_filtered, report_tag, tag_specs, TagFilter};
use rust_tar::extract::{
    decide, destination, extraction_of, hard_link_source, is_selected, label_checked_at_start,
    label_of, mode_on_disk, preserves_permissions, strip_components, Decision, Extraction,
    LinkSource,
};
use rust_tar::header::EntryHeader;
use rust_tar::member::{file_header, label_header, FileMeta, FileType};
use rust_tar::options::{Args, CacheExcludeMode, ExcludeEntry};
use rust_tar::path::{file_name, joined_bytes, place_of, Place};
use rust_tar::run::{
    compares_contents, deletion_line, difference_lines, failure_lines, label_fault_lines,
    label_from, missing_line, operation_of, refusal_of, test_label, Deletion, DiskFile, LabelTest,
    Operation,
};
use rust_tar::compression::Compression;
use rust_tar::transform::parse_transform;

fn exclude(pattern: &str, wildcards: bool, anchored: bool) -> ExcludeEntry {
    ExcludeEntry {
        pattern: pattern.to_string(),
        wildcards,
        anchored,
        match_slash: true,
        ignore_case: false,
    }
}

fn with_paths(paths: &[&str]) -> Args {
    let mut args = Args::new();
    args.paths = paths.iter().map(|s| s.to_string()).collect();
    args
}

fn plain_meta() -> FileMeta {
    FileMeta {
        mode: 0o100666,
        mtime: 0,
        uid: 0,
        gid: 0,
        size: 4,
        user: None,
        group: None,
    }
}

fn plain_header() -> EntryHeader {
    file_header(&plain_meta(), &Args::new())
}

fn filter(dir: &str, mode: CacheExcludeMode, tag: &str) -> TagFilter {
    TagFilter {
        dir: dir.as_bytes().to_vec(),
        mode,
        tag: tag.to_string(),
    }
}

#[test]
fn last_names_of_paths() {
    assert_eq!(file_name("a/b.c").as_deref(), Some("b.c"));
    assert_eq!(file_name("a/b/").as_deref(), Some("b"));
    assert_eq!(file_name("a/.").as_deref(), Some("a"));
    assert_eq!(file_name("a//./").as_deref(), Some("a"));
    assert_eq!(file_name("a/.."), None);
    assert_eq!(file_name("/"), None);
    assert_eq!(file_name("."), None);
    assert_eq!(file_name(""), None);
    for p in ["a/b", "./x", "../..", "a/../b//", "...", "./.", "é/ö/"] {
        let expected = std::path::Path::new(p)
            .file_name()
            .and_then(|n| n.to_str())
            .map(|n| n.to_string());
        assert_eq!(file_name(p), expected);
    }
}

#[test]
fn places_of_paths() {
    assert_eq!(place_of(b"a/b", b"a"), Place::Below);
    assert_eq!(place_of(b"a", b"a/"), Place::Same);
    assert_eq!(place_of(b"a//b/.", b"a/b"), Place::Same);
    assert_eq!(place_of(b"ab", b"a"), Place::Outside);
    assert_eq!(place_of(b"./a", b"a"), Place::Outside);
    assert_eq!(place_of(b"/a", b"a"), Place::Outside);
    assert_eq!(place_of(b"a", b""), Place::Below);
    assert_eq!(joined_bytes(b"d", b"TAG"), b"d/TAG");
    assert_eq!(joined_bytes(b"d/", b"TAG"), b"d/TAG");
    assert_eq!(joined_bytes(b"", b"TAG"), b"TAG");
    assert_eq!(joined_bytes(b"d", b"/TAG"), b"/TAG");
}

#[test]
fn anchored_exclusions_cover_whole_paths() {
    let e = vec![exclude("dir/*.o", true, true)];
    assert!(is_excluded("dir/a.o", &e));
    assert!(!is_excluded("x/dir/a.o", &e));
    let e = vec![exclude("dir", false, true)];
    assert!(is_excluded("dir", &e));
    assert!(is_excluded("dir/", &e));
    assert!(!is_excluded("x/dir", &e));
}

#[test]
fn unanchored_exclusions_also_cover_last_names() {
    let e = vec![exclude("*.o", true, false)];
    assert!(is_excluded("dir/a.o", &e));
    let e = vec![exclude(".git", false, false)];
    assert!(is_excluded("a/.git", &e));
    assert!(is_excluded("a/.git/", &e));
    assert!(!is_excluded("a/.git/config", &e));
    assert!(!is_excluded("a/b", &[]));
    let both = vec![exclude("x", false, false), exclude("b", false, false)];
    assert!(is_excluded("a/b", &both));
}

#[test]
fn unanchored_exclusions_cover_what_follows_a_slash() {
    let e = vec![exclude("b/c", false, false)];
    assert!(is_excluded("a/b/c", &e));
    assert!(is_excluded("x/a/b/c/", &e));
    assert!(is_excluded("b/c", &e));
    assert!(!is_excluded("a/xb/c", &e));
    assert!(!is_excluded("a/b/cd", &e));
    assert!(!is_excluded("a/b/c", &[exclude("b/c", false, true)]));
    let e = vec![exclude("b/*.o", true, false)];
    assert!(is_excluded("a/b/x.o", &e));
    assert!(!is_excluded("a/c/x.o", &e));
    assert!(!is_excluded("a/", &[exclude("", false, false)]));
}

#[test]
fn unanchored_exclusions_cover_no_less_than_anchored() {
    for path in ["a/b/", "a/b", "a", "a//", "/"] {
        for pattern in ["a/b", "a", "a/b/", "", "/", "a?b"] {
            for wildcards in [false, true] {
                if is_excluded(path, &[exclude(pattern, wildcards, true)]) {
                    assert!(is_excluded(path, &[exclude(pattern, wildcards, false)]));
                }
            }
        }
    }
    assert!(is_excluded("a/b/", &[exclude("a/b", false, false)]));
}

#[test]
fn exclusions_obey_slashes_and_case() {
    let mut e = exclude("a*c", true, true);
    e.match_slash = false;
    assert!(!is_excluded("a/c", &[e]));
    let mut e = exclude("README", false, false);
    e.ignore_case = true;
    assert!(is_excluded("x/readme", &[e]));
}

#[test]
fn tag_modes_filter_directories() {
    let (all_mode, normal_mode, under_mode) = (
        CacheExcludeMode::All,
        CacheExcludeMode::Normal,
        CacheExcludeMode::Under,
    );
    let normal = [filter("d", normal_mode, "TAG")];
    assert_eq!(is_filtered(b"d", &normal), (false, Some(0)));
    assert_eq!(is_filtered(b"d/TAG", &normal), (false, None));
    assert_eq!(is_filtered(b"d//./TAG", &normal), (false, None));
    assert_eq!(is_filtered(b"d/x", &normal), (true, None));
    assert_eq!(is_filtered(b"d/x/TAG", &normal), (true, None));
    assert_eq!(is_filtered(b"e", &normal), (false, None));
    let under = [filter("d", under_mode, "TAG")];
    assert_eq!(is_filtered(b"d", &under), (false, Some(0)));
    assert_eq!(is_filtered(b"d/TAG", &under), (true, None));
    let all = [filter("e", normal_mode, "TAG"), filter("d", all_mode, "TAG")];
    assert_eq!(is_filtered(b"d/", &all), (true, Some(1)));
    assert_eq!(is_filtered(b"d/x", &all), (true, None));
}

#[test]
fn tagged_directories_are_reported_once() {
    let (all_mode, normal_mode) = (CacheExcludeMode::All, CacheExcludeMode::Normal);
    let filters = [
        filter("d", normal_mode, "T"),
        filter("d/", all_mode, "U"),
        filter("e/", all_mode, "U"),
    ];
    let mut reported = Vec::new();
    assert_eq!(
        report_tag(&filters, 1, &mut reported).as_deref(),
        Some("tar: d/: contains a cache directory tag U; contents not dumped")
    );
    assert_eq!(report_tag(&filters, 0, &mut reported), None);
    assert_eq!(
        report_tag(&filters, 2, &mut reported).as_deref(),
        Some("tar: e/: contains a cache directory tag U; directory not dumped")
    );
    assert_eq!(reported.len(), 2);
    let mut args = Args::new();
    args.tag_excludes = vec![("T".to_string(), normal_mode)];
    args.cache_exclude = Some(("CACHEDIR.TAG".to_string(), all_mode));
    assert_eq!(
        tag_specs(&args),
        [("CACHEDIR.TAG".to_string(), all_mode), ("T".to_string(), normal_mode)]
    );
}

#[test]
fn wanted_paths_pass_both_filters() {
    let mut args = Args::new();
    args.excludes = vec![exclude("*.o", true, false)];
    let filters = [filter("d", CacheExcludeMode::Under, "T")];
    assert_eq!(wants_path("a.o", b"a.o", &args, &filters), (false, None));
    assert_eq!(wants_path("d/x", b"d/x", &args, &filters), (false, None));
    assert_eq!(wants_path("d", b"d", &args, &filters), (true, Some(0)));
    assert_eq!(wants_path("b", b"b", &args, &filters), (true, None));
}

#[test]
fn empty_archives_are_refused() {
    assert!(refuses_empty(&Args::new()));
    assert!(!refuses_empty(&with_paths(&["a"])));
    let mut args = Args::new();
    args.switches.files_from_used = true;
    assert!(!refuses_empty(&args));
    let mut args = Args::new();
    args.label = Some("l".to_string());
    assert!(!refuses_empty(&args));
}

#[test]
fn updates_leave_what_is_as_new() {
    let members = vec![
        ("f".to_string(), 50),
        ("d/".to_string(), 10),
        ("f".to_string(), 100),
    ];
    assert!(is_up_to_date(&members, "f", false, 100));
    assert!(!is_up_to_date(&members, "f", false, 101));
    assert!(is_up_to_date(&members, "d", true, 999));
    assert!(is_up_to_date(&members, "d/", true, 999));
    assert!(!is_up_to_date(&members, "g", false, 0));
    assert!(is_up_to_date(&[("f".to_string(), 0)], "f", true, 9));
    assert!(is_up_to_date(&[("f".to_string(), 0)], "f", false, 0));
    assert!(!is_up_to_date(&[("f".to_string(), 0)], "f", false, 1));
}

#[test]
fn names_lose_leading_slashes() {
    let mut args = Args::new();
    assert_eq!(archive_name("//a/b", &args), "a/b");
    args.transforms = vec![parse_transform("s/a/x/").unwrap()];
    assert_eq!(archive_name("/a/b", &args), "x/b");
    args.switches.absolute_names = true;
    assert_eq!(archive_name("/a/b", &args), "/x/b");
    assert_eq!(directory_name("d"), "d/");
    assert_eq!(directory_name("d/"), "d/");
    assert_eq!(directory_name(""), "/");
    assert_eq!(display_name("f", false), "f");
    assert_eq!(display_name("d", true), "d/");
}

#[test]
fn additions_depend_on_what_is_on_disk() {
    let mut args = Args::new();
    assert_eq!(addition_of(true, false, false, &args), Addition::Directory);
    assert_eq!(addition_of(true, true, false, &args), Addition::Symlink);
    assert_eq!(addition_of(false, false, true, &args), Addition::File);
    assert_eq!(addition_of(false, false, false, &args), Addition::Nothing);
    assert_eq!(shown_type(true, true, &args), FileType::Directory);
    assert_eq!(shown_type(false, true, &args), FileType::Symlink);
    args.switches.dereference = true;
    assert_eq!(addition_of(true, true, false, &args), Addition::Directory);
    assert_eq!(addition_of(false, true, true, &args), Addition::File);
    assert_eq!(shown_type(false, true, &args), FileType::Other);
}

#[test]
fn additions_are_reported_as_asked() {
    let mut args = Args::new();
    assert_eq!(report_addition(&None, FileType::Other, "n", &args), None);
    args.switches.verbose = true;
    args.switches.verbose_level = 1;
    assert_eq!(
        report_addition(&None, FileType::Other, "n", &args).as_deref(),
        Some("n")
    );
    args.switches.verbose_level = 2;
    assert_eq!(
        report_addition(&None, FileType::Other, "n", &args).as_deref(),
        Some("---------- 0/0               0 1970-01-01 00:00 n")
    );
    assert!(reports_to_stderr(&args));
    args.file = Some("a.tar".to_string());
    assert!(!reports_to_stderr(&args));
}

#[test]
fn components_are_stripped() {
    assert_eq!(strip_components("a/b/c", 0).as_deref(), Some("a/b/c"));
    assert_eq!(strip_components("a/b/c", 1).as_deref(), Some("b/c"));
    assert_eq!(strip_components("a/b/c", 2).as_deref(), Some("c"));
    assert_eq!(strip_components("a/b/c", 3), None);
    assert_eq!(strip_components("a/", 1).as_deref(), Some(""));
    assert_eq!(strip_components("/a", 1).as_deref(), Some("a"));
    let once = strip_components("a/b/c/d", 1).unwrap();
    assert_eq!(strip_components(&once, 2), strip_components("a/b/c/d", 3));
}

#[test]
fn words_select_members_literally() {
    let args = with_paths(&["dir"]);
    assert_eq!(is_selected("dir/a", &args), Some(true));
    assert_eq!(is_selected("dir", &args), Some(true));
    assert_eq!(is_selected("dir/", &args), Some(true));
    assert_eq!(is_selected("dirty", &args), Some(false));
    assert_eq!(is_selected("dir/a/b", &with_paths(&["dir/a/"])), Some(true));
    assert_eq!(is_selected("dir/ab", &with_paths(&["dir/a/"])), Some(false));
    assert_eq!(is_selected("dir/x", &with_paths(&["dir//"])), Some(false));
    assert_eq!(is_selected("dir//x", &with_paths(&["dir//"])), Some(true));
    assert_eq!(is_selected("dir", &with_paths(&["dir//"])), Some(true));
    assert_eq!(is_selected("/x", &with_paths(&["/"])), Some(true));
    assert_eq!(is_selected("x", &with_paths(&["/"])), Some(false));
    assert_eq!(is_selected("x/dir", &args), Some(false));
    assert_eq!(is_selected("anything", &Args::new()), Some(true));
    assert_eq!(is_selected("d", &with_paths(&["d/"])), Some(true));
    assert_eq!(is_selected("*.c", &with_paths(&["*.c"])), Some(true));
    assert_eq!(is_selected("a.c", &with_paths(&["*.c"])), Some(false));
}

#[test]
fn words_select_members_by_pattern() {
    let mut args = with_paths(&["*.c"]);
    args.switches.explicit_wildcards = true;
    assert_eq!(is_selected("d/a.c", &args), Some(true));
    assert_eq!(is_selected("a.c/", &args), Some(false));
    args.switches.match_slash_default = false;
    assert_eq!(is_selected("d/a.c", &args), Some(false));
    args.switches.explicit_anchored = Some(false);
    assert_eq!(is_selected("d/a.c", &args), Some(true));
    let mut args = with_paths(&["a.c"]);
    args.switches.explicit_anchored = Some(false);
    assert_eq!(is_selected("d/a.c", &args), Some(true));
    let mut args = with_paths(&["d?/"]);
    args.switches.explicit_wildcards = true;
    assert_eq!(is_selected("dx/", &args), Some(true));
}

#[test]
fn words_that_end_within_a_character_cannot_be_compared() {
    let mut args = with_paths(&["a"]);
    args.switches.ignore_case_default = true;
    assert_eq!(is_selected("a日", &args), None);
    assert_eq!(is_selected("éa", &args), Some(false));
    assert_eq!(is_selected("A/b", &args), Some(true));
    assert_eq!(is_selected("Ab", &args), Some(false));
    assert_eq!(is_selected("", &args), Some(false));
    args.paths = vec!["A".to_string(), "a日".to_string()];
    assert_eq!(is_selected("a日", &args), None);
    args.paths = vec!["a日".to_string(), "A".to_string()];
    assert_eq!(is_selected("A日", &args), Some(true));
}

#[test]
fn members_are_listed_or_extracted() {
    let mut args = Args::new();
    let h = plain_header();
    let mut checked = label_checked_at_start(&args);
    assert!(checked);
    match decide(&h, b"a/b", &args, &mut checked) {
        Decision::Extract { path, report, .. } => {
            assert_eq!(path, "a/b");
            assert_eq!(report, None);
        }
        other => panic!("{other:?}"),
    }
    args.switches.list = true;
    match decide(&h, b"a/b", &args, &mut checked) {
        Decision::Show(line) => assert_eq!(line, "a/b"),
        other => panic!("{other:?}"),
    }
    args.switches.verbose = true;
    match decide(&h, b"a/b", &args, &mut checked) {
        Decision::Show(line) => assert_eq!(
            line,
            "-rw-rw-rw- 0/0               4 1970-01-01 00:00 a/b"
        ),
        other => panic!("{other:?}"),
    }
    args.switches.list = false;
    args.switches.verbose_level = 1;
    args.switches.strip_components = 1;
    args.transforms = vec![parse_transform("s/b/c/").unwrap()];
    match decide(&h, b"a/b", &args, &mut checked) {
        Decision::Extract { path, report, .. } => {
            assert_eq!(path, "c");
            assert_eq!(report.as_deref(), Some("c"));
        }
        other => panic!("{other:?}"),
    }
    args.switches.verbose_level = 2;
    match decide(&h, b"a/b", &args, &mut checked) {
        Decision::Extract { report, .. } => assert_eq!(
            report.as_deref(),
            Some("-rw-rw-rw- 0/0               4 1970-01-01 00:00 c")
        ),
        other => panic!("{other:?}"),
    }
}

#[test]
fn members_are_passed_over() {
    let h = plain_header();
    let mut checked = true;
    let mut args = Args::new();
    args.switches.strip_components = 2;
    assert!(matches!(
        decide(&h, b"a/b", &args, &mut checked),
        Decision::Skip
    ));
    args.switches.strip_components = 1;
    assert!(matches!(
        decide(&h, b"a/", &args, &mut checked),
        Decision::Skip
    ));
    let mut args = Args::new();
    args.excludes = vec![exclude("b", false, false)];
    assert!(matches!(
        decide(&h, b"a/b", &args, &mut checked),
        Decision::Skip
    ));
    let args = with_paths(&["z"]);
    assert!(matches!(
        decide(&h, b"a/b", &args, &mut checked),
        Decision::Skip
    ));
    let mut args = with_paths(&["a"]);
    args.switches.ignore_case_default = true;
    assert!(matches!(
        decide(&h, "日".as_bytes(), &args, &mut checked),
        Decision::Incomparable
    ));
}

#[test]
fn members_stay_in_the_directory() {
    let h = plain_header();
    let mut checked = true;
    let mut args = Args::new();
    args.directory = Some("d".to_string());
    args.switches.verbose = true;
    match decide(&h, b"//x", &args, &mut checked) {
        Decision::Extract { path, directory, report } => {
            assert_eq!(destination(&path, &directory), "d/x");
            assert_eq!(report.as_deref(), Some("//x"));
        }
        other => panic!("{other:?}"),
    }
    for name in ["../x", "a/../x", "/..", "a/..", "/"] {
        assert!(matches!(
            decide(&h, name.as_bytes(), &args, &mut checked),
            Decision::Skip
        ));
    }
    match decide(&h, b"a/..b/...", &args, &mut checked) {
        Decision::Extract { path, .. } => assert_eq!(path, "a/..b/..."),
        other => panic!("{other:?}"),
    }
    args.switches.absolute_names = true;
    for name in ["../x", "/x"] {
        match decide(&h, name.as_bytes(), &args, &mut checked) {
            Decision::Extract { path, .. } => assert_eq!(path, name),
            other => panic!("{other:?}"),
        }
    }
    args.switches.absolute_names = false;
    args.switches.list = true;
    args.switches.verbose = false;
    match decide(&h, b"/../x", &args, &mut checked) {
        Decision::Show(line) => assert_eq!(line, "/../x"),
        other => panic!("{other:?}"),
    }
}

#[test]
fn hard_links_are_made_within_the_directory() {
    let mut args = Args::new();
    let source = |target: &str, place: &str, dir: Option<&str>, args: &Args| {
        match hard_link_source(target.as_bytes(), place, &dir.map(String::from), args) {
            LinkSource::File(path) => String::from_utf8(path).unwrap(),
            LinkSource::Itself => "(itself)".to_string(),
            LinkSource::Outside => "(outside)".to_string(),
        }
    };
    assert_eq!(source("a", "b", None, &args), "a");
    assert_eq!(source("b", "b", None, &args), "(itself)");
    assert_eq!(source("/a", "b", None, &args), "a");
    assert_eq!(source("x/../a", "b", None, &args), "(outside)");
    assert_eq!(source("/", "b", None, &args), "(outside)");
    assert_eq!(source("/a", "d/b", Some("d"), &args), "d/a");
    assert_eq!(source("b", "d/b", Some("d"), &args), "(itself)");
    assert_eq!(source("a", "d/b", Some("d/"), &args), "d/a");
    args.switches.absolute_names = true;
    assert_eq!(source("../a", "d/b", Some("d"), &args), "d/../a");
    assert_eq!(source("/a", "d/b", Some("d"), &args), "/a");
    assert!(matches!(
        hard_link_source(&[0xff], "b", &None, &Args::new()),
        LinkSource::File(path) if path == [0xff]
    ));
}

#[test]
fn paths_that_a_transform_empties_are_not_passed_over() {
    let h = plain_header();
    let mut checked = true;
    let mut args = Args::new();
    args.transforms = vec![parse_transform("s/a//").unwrap()];
    args.directory = Some("d".to_string());
    match decide(&h, b"a", &args, &mut checked) {
        Decision::Extract { path, directory, .. } => {
            assert_eq!(path, "");
            assert_eq!(destination(&path, &directory), "d/");
        }
        other => panic!("{other:?}"),
    }
}

#[test]
fn sorting_changes_only_the_order() {
    let found: Vec<Vec<u8>> = ["d", "d/b", "d/a", "d/a.c", "d/a/x", "d/c.o"]
        .iter()
        .map(|s| s.as_bytes().to_vec())
        .collect();
    let mut args = Args::new();
    assert_eq!(addition_order(found.clone(), &args), found);
    args.switches.sort_name = true;
    let sorted = addition_order(found.clone(), &args);
    assert_eq!(
        sorted,
        [&b"d"[..], b"d/a", b"d/a/x", b"d/a.c", b"d/b", b"d/c.o"]
    );
}

#[test]
fn control_characters_are_listed_in_octal() {
    let h = plain_header();
    let mut checked = true;
    let mut args = Args::new();
    args.switches.list = true;
    match decide(&h, b"a\x01b\n", &args, &mut checked) {
        Decision::Show(line) => assert_eq!(line, "a\\001b\\012"),
        other => panic!("{other:?}"),
    }
    args.switches.verbose = true;
    match decide(&h, b"a\x7fb", &args, &mut checked) {
        Decision::Show(line) => assert!(line.ends_with(" a\\177b")),
        other => panic!("{other:?}"),
    }
    args.switches.list = false;
    match decide(&h, b"a\x01b", &args, &mut checked) {
        Decision::Extract { path, report, .. } => {
            assert_eq!(path, "a\u{1}b");
            assert_eq!(report.as_deref(), Some("a\\001b"));
        }
        other => panic!("{other:?}"),
    }
    assert_eq!(
        report_addition(&None, FileType::Other, "\t\u{85}", &args).as_deref(),
        Some("\\011\\302\\205")
    );
}

#[test]
fn labels_are_checked_before_members() {
    let mut args = Args::new();
    args.label = Some("vol*".to_string());
    let label = label_header();
    let file = plain_header();
    let mut checked = label_checked_at_start(&args);
    assert!(!checked);
    assert!(matches!(
        decide(&file, b"a", &args, &mut checked),
        Decision::NoLabel
    ));
    match decide(&label, b"other\0", &args, &mut checked) {
        Decision::WrongLabel { found } => assert_eq!(found, "other"),
        other => panic!("{other:?}"),
    }
    assert!(!checked);
    assert!(matches!(
        decide(&label, b"volume", &args, &mut checked),
        Decision::Skip
    ));
    assert!(checked);
    assert!(matches!(
        decide(&file, b"a", &args, &mut checked),
        Decision::Extract { .. }
    ));
    args.switches.list = true;
    match decide(&label, b"volume\0\0", &args, &mut checked) {
        Decision::Show(line) => assert_eq!(line, "volume"),
        other => panic!("{other:?}"),
    }
    assert_eq!(label_of(&[b'v', 0xff]), "v\u{fffd}");
}

#[test]
fn destinations_lie_below_the_directory() {
    let to = |path: &str, dir: &str| destination(path, &Some(dir.to_string()));
    assert_eq!(destination("a", &None), "a");
    assert_eq!(to("a/b", "d"), "d/a/b");
    assert_eq!(to("/a", "d"), "/a");
    assert_eq!(to("a", "d/"), "d/a");
    assert_eq!(to("a", ""), "a");
}

#[test]
fn members_go_to_the_directory_of_their_word() {
    let h = plain_header();
    let mut checked = true;
    let mut args = with_paths(&["a", "b", "a/c", "e"]);
    args.path_directories = vec![None, Some("d".to_string()), Some("d".to_string())];
    args.directory = Some("last".to_string());
    let expected = [("a/c", None), ("b", Some("d")), ("e", Some("last"))];
    for (name, dir) in expected {
        match decide(&h, name.as_bytes(), &args, &mut checked) {
            Decision::Extract { directory, .. } => assert_eq!(directory.as_deref(), dir),
            other => panic!("{other:?}"),
        }
    }
    args.paths = Vec::new();
    match decide(&h, b"x", &args, &mut checked) {
        Decision::Extract { directory, .. } => assert_eq!(directory.as_deref(), Some("last")),
        other => panic!("{other:?}"),
    }
}

#[test]
fn types_of_entries_are_extracted() {
    let mut h = plain_header();
    let cases: [(u8, Extraction); 8] = [
        (0, Extraction::File),
        (b'0', Extraction::File),
        (b'S', Extraction::File),
        (b'5', Extraction::Directory),
        (b'2', Extraction::Symlink),
        (b'1', Extraction::HardLink),
        (b'3', Extraction::Nothing),
        (b'7', Extraction::Nothing),
    ];
    for (flag, expected) in cases {
        h.block[156] = flag;
        assert_eq!(extraction_of(&h), expected);
    }
}

#[test]
fn permissions_are_restored_as_asked() {
    let mut h = plain_header();
    let mut args = Args::new();
    assert_eq!(mode_on_disk(&h, &args), Some(0o100644));
    args.switches.preserve_permissions = true;
    assert_eq!(mode_on_disk(&h, &args), Some(0o100666));
    args.switches.no_same_permissions = true;
    assert!(!preserves_permissions(&args));
    assert_eq!(mode_on_disk(&h, &args), Some(0o100644));
    h.block[100..108].copy_from_slice(b"rubbish\0");
    assert_eq!(mode_on_disk(&h, &args), None);
}

#[test]
fn one_operation_is_done() {
    let mut args = Args::new();
    assert_eq!(operation_of(&args), Operation::Missing);
    args.switches.create = true;
    assert_eq!(operation_of(&args), Operation::Create);
    args.switches.list = true;
    assert_eq!(operation_of(&args), Operation::Ambiguous);
    args.switches.create = false;
    assert_eq!(operation_of(&args), Operation::ExtractOrList);
    let mut args = Args::new();
    args.switches.update = true;
    assert_eq!(operation_of(&args), Operation::Append);
    let mut args = Args::new();
    args.switches.delete = true;
    assert_eq!(operation_of(&args), Operation::Delete);
    let mut args = Args::new();
    args.switches.diff = true;
    assert_eq!(operation_of(&args), Operation::Diff);
    let mut args = Args::new();
    args.switches.test_label = true;
    assert_eq!(operation_of(&args), Operation::TestLabel);
}

#[test]
fn operations_refuse_what_they_cannot_do() {
    let mut args = Args::new();
    args.switches.append = true;
    assert_eq!(
        refusal_of(&args).as_deref(),
        Some("tar: Cowardly refusing to append to stdin/stdout archive")
    );
    args.file = Some("a".to_string());
    assert_eq!(refusal_of(&args), None);
    args.switches.compression = Some(Compression::Gzip);
    assert_eq!(
        refusal_of(&args).as_deref(),
        Some("Cannot update compressed archives")
    );
    args.switches.append = false;
    args.switches.delete = true;
    assert_eq!(
        refusal_of(&args).as_deref(),
        Some("Cannot delete from compressed archives")
    );
    args.switches.delete = false;
    args.switches.create = true;
    assert_eq!(refusal_of(&args), None);
}

#[test]
fn failures_are_reported() {
    assert!(failure_lines("not-found-in-archive").is_empty());
    assert_eq!(
        failure_lines("unexpected EOF"),
        [
            "tar: This does not look like a tar archive",
            "tar: Exiting with failure status due to previous errors"
        ]
    );
    assert_eq!(
        failure_lines("Cannot update compressed archives"),
        [
            "tar: Cannot update compressed archives",
            "Try 'tar --help' or 'tar --usage' for more information."
        ]
    );
    assert_eq!(failure_lines("other"), ["tar: other"]);
}

#[test]
fn labels_are_held_against_the_one_asked_for() {
    assert!(label_fault_lines("v*", &Some("vol/1".to_string())).is_empty());
    assert_eq!(
        label_fault_lines("v", &Some("w".to_string())),
        [
            "tar: Volume 'w' does not match 'v'",
            "tar: Error is not recoverable: exiting now"
        ]
    );
    assert_eq!(
        label_fault_lines("v", &None),
        [
            "tar: Archive not labeled to match 'v'",
            "tar: Error is not recoverable: exiting now"
        ]
    );
    assert_eq!(
        label_from(&label_header(), b"vol\0").as_deref(),
        Some("vol")
    );
    assert_eq!(label_from(&plain_header(), b"vol"), None);
}

#[test]
fn label_tests_end_as_asked() {
    let label = Some("vol".to_string());
    let shown = LabelTest {
        show: true,
        complain: false,
        matched: true,
    };
    assert_eq!(test_label(&label, &Args::new()), shown);
    let mut args = with_paths(&["x", "vol"]);
    assert!(test_label(&label, &args).matched);
    assert!(!test_label(&label, &args).show);
    args.switches.verbose = true;
    assert_eq!(test_label(&label, &args), shown);
    assert_eq!(
        test_label(&None, &args),
        LabelTest {
            show: true,
            complain: true,
            matched: false
        }
    );
    let mut args = with_paths(&["v*"]);
    assert!(!test_label(&label, &args).matched);
    args.switches.explicit_wildcards = true;
    assert!(test_label(&label, &args).matched);
    assert!(test_label(&None, &with_paths(&[""])).matched);
}

#[test]
fn deletions_report_what_was_not_found() {
    let mut d = Deletion::new(&with_paths(&["a", "b", "a", "c"]));
    assert_eq!(d.names, ["a", "b", "c"]);
    assert!(d.deletes("b"));
    assert!(!d.deletes("x"));
    assert!(!d.deletes("b/"));
    assert!(d.deletes("b"));
    assert_eq!(d.missing(), ["a", "c"]);
    assert_eq!(deletion_line("b"), "tar: deleting member b");
    assert_eq!(missing_line("a"), "tar: a: Not found in archive");
}

#[test]
fn directories_are_deleted_with_what_is_in_them() {
    let mut d = Deletion::new(&with_paths(&["d/", "d/a", "e/"]));
    assert!(d.deletes("d/"));
    assert!(d.deletes("d/b/c"));
    assert!(!d.deletes("d"));
    assert!(!d.deletes("dd/a"));
    assert_eq!(d.missing(), ["d/a", "e/"]);
    assert!(d.deletes("d/a"));
    assert_eq!(d.missing(), ["e/"]);
}

#[test]
fn repeated_files_become_hard_links() {
    let args = Args::new();
    let meta = plain_meta();
    let mut files = Vec::new();
    let (h, link) = file_entry(&meta, 1, 7, "a", &args, &mut files);
    assert_eq!((extraction_of(&h), link), (Extraction::File, None));
    let (h, link) = file_entry(&meta, 2, 7, "b", &args, &mut files);
    assert_eq!((extraction_of(&h), link), (Extraction::File, None));
    let (h, link) = file_entry(&meta, 1, 7, "c", &args, &mut files);
    assert_eq!(extraction_of(&h), Extraction::HardLink);
    assert_eq!(link.as_deref(), Some("a"));
    assert_eq!(files.len(), 2);
    assert_eq!(h.block[124..136], *b"00000000000\0");
    let (_, link) = file_entry(&meta, 1, 7, "d", &args, &mut files);
    assert_eq!(link.as_deref(), Some("a"));
}

fn on_disk(contents: &[u8]) -> DiskFile {
    DiskFile {
        mode: 0o100666,
        mtime: 0,
        size: contents.len() as u64,
        contents: contents.to_vec(),
        link: None,
        linked: false,
    }
}

#[test]
fn differences_are_told() {
    let h = plain_header();
    let lines = |disk: DiskFile| difference_lines("n", &h, b"abcd", b"", &Some(disk));
    assert_eq!(
        difference_lines("n", &h, b"", b"", &None),
        ["n: Not found in filesystem"]
    );
    assert!(lines(on_disk(b"abcd")).is_empty());
    assert_eq!(lines(on_disk(b"abcx")), ["n: Contents differ"]);
    assert_eq!(
        lines(on_disk(b"abcde")),
        ["n: Size differs", "n: Contents differ"]
    );
    let mut disk = on_disk(b"abcd");
    disk.mode = 0o40666;
    assert!(lines(disk).is_empty());
    let mut disk = on_disk(b"abcd");
    disk.mode = 0o100644;
    assert_eq!(lines(disk), ["n: Mode differs"]);
    let mut disk = on_disk(b"abcd");
    disk.mtime = -1;
    assert_eq!(lines(disk), ["n: Mod time differs"]);
    let mut disk = on_disk(b"");
    disk.mode = 0;
    disk.mtime = 5;
    assert_eq!(
        lines(disk),
        ["n: Mode differs", "n: Mod time differs", "n: Size differs", "n: Contents differ"]
    );
}

#[test]
fn directories_and_links_differ_in_their_own_ways() {
    let mut h = plain_header();
    assert!(compares_contents(&h));
    h.block[156] = b'5';
    assert!(!compares_contents(&h));
    let mut disk = on_disk(b"abcde");
    disk.mtime = 9;
    assert!(difference_lines("d", &h, b"", b"", &Some(disk)).is_empty());
    let mut disk = on_disk(b"");
    disk.mode = 0o40700;
    assert_eq!(
        difference_lines("d", &h, b"", b"", &Some(disk)),
        ["d: Mode differs"]
    );
    h.block[156] = b'2';
    let mut disk = on_disk(b"");
    disk.link = Some(b"t".to_vec());
    let disk = Some(disk);
    assert!(difference_lines("l", &h, b"", b"t", &disk).is_empty());
    assert_eq!(
        difference_lines("l", &h, b"", b"u", &disk),
        ["l: Symlink differs"]
    );
    assert_eq!(
        difference_lines("l", &h, b"", b"t", &Some(on_disk(b""))),
        ["l: Symlink differs"]
    );
    h.block[156] = b'1';
    assert_eq!(
        difference_lines("l", &h, b"", b"t", &disk),
        ["l: Not linked to t"]
    );
    let mut disk = on_disk(b"");
    disk.linked = true;
    assert!(difference_lines("l", &h, b"", b"t", &Some(disk)).is_empty());
    h.block[156] = b'3';
    assert!(difference_lines("c", &h, b"", b"", &Some(on_disk(b"x"))).is_empty());
}
