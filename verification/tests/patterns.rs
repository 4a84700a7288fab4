use rust_tar::compression::{
    compression_for_reading, compression_for_writing, detect_from_extension, detect_from_magic,
    is_standard_stream, Compression,
};
use rust_tar::glob::{
    eq_opt_ci, eq_opt_ci_prefix, glob_match, glob_match_inner, matches_exclude,
};
use rust_tar::mode::{apply_mode_change, effective_mode, mode_update, working_directory_mode};
use rust_tar::transform::{apply_transforms, parse_transform, transformed};

fn chars(s: &str) -> Vec<char> {
    s.chars().collect()
}

#[test]
fn extensions_announce_compression() {
    assert_eq!(detect_from_extension("a.tar.gz"), Compression::Gzip);
    assert_eq!(detect_from_extension("a.tgz"), Compression::Gzip);
    assert_eq!(detect_from_extension("a.tar.bz2"), Compression::Bzip2);
    assert_eq!(detect_from_extension("a.tbz2"), Compression::Bzip2);
    assert_eq!(detect_from_extension("a.tbz"), Compression::Bzip2);
    assert_eq!(detect_from_extension("a.tar.xz"), Compression::Xz);
    assert_eq!(detect_from_extension("a.txz"), Compression::Xz);
    assert_eq!(detect_from_extension("a.tar"), Compression::Plain);
    assert_eq!(detect_from_extension("a.gz"), Compression::Plain);
    assert_eq!(detect_from_extension(""), Compression::Plain);
}

#[test]
fn first_bytes_announce_compression() {
    assert_eq!(detect_from_magic(&[0x1f, 0x8b]), Compression::Gzip);
    assert_eq!(detect_from_magic(&[0x1f]), Compression::Plain);
    assert_eq!(detect_from_magic(b"BZh9"), Compression::Bzip2);
    assert_eq!(detect_from_magic(b"BZ"), Compression::Plain);
    assert_eq!(
        detect_from_magic(&[0xfd, b'7', b'z', b'X', b'Z', 0]),
        Compression::Xz
    );
    assert_eq!(
        detect_from_magic(&[0xfd, b'7', b'z', b'X', b'Z', 1]),
        Compression::Plain
    );
    assert_eq!(detect_from_magic(b""), Compression::Plain);
}

#[test]
fn requested_compression_comes_first() {
    let file = Some("a.tar.gz".to_string());
    assert_eq!(
        compression_for_writing(Some(Compression::Xz), &file),
        Compression::Xz
    );
    assert_eq!(compression_for_writing(None, &file), Compression::Gzip);
    assert_eq!(compression_for_writing(None, &None), Compression::Plain);
    assert_eq!(
        compression_for_reading(Some(Compression::Xz), &file, b"BZh"),
        Compression::Xz
    );
    assert_eq!(
        compression_for_reading(None, &file, b"BZh"),
        Compression::Bzip2
    );
    assert_eq!(
        compression_for_reading(None, &file, b"plain"),
        Compression::Gzip
    );
    assert_eq!(
        compression_for_reading(None, &Some("-".to_string()), b"plain"),
        Compression::Plain
    );
}

#[test]
fn dash_is_the_standard_stream() {
    assert!(is_standard_stream(&None));
    assert!(is_standard_stream(&Some("-".to_string())));
    assert!(!is_standard_stream(&Some("a".to_string())));
}

#[test]
fn star_runs_across_slashes_only_where_allowed() {
    assert!(glob_match("a*c", "a/b/c", true, false));
    assert!(!glob_match("a*c", "a/b/c", false, false));
    assert!(glob_match("a/*/c", "a/b/c", false, false));
    assert!(glob_match("*", "", false, false));
    assert!(glob_match("*", "abc", false, false));
    assert!(!glob_match("*", "a/b", false, false));
    assert!(!glob_match("x*", "x/y*z", false, false));
    assert!(glob_match("*.c", "dir/file.c", true, false));
}

#[test]
fn slashes_matter_only_where_there_are_some() {
    for text in ["", "a", "abc", "a.c"] {
        for pattern in ["*", "a*", "*c", "?", "a?c", "**", "b*"] {
            assert_eq!(
                glob_match(pattern, text, true, false),
                glob_match(pattern, text, false, false)
            );
        }
    }
}

#[test]
fn question_mark_stands_for_one_character() {
    assert!(glob_match("a?c", "abc", true, false));
    assert!(glob_match("a?c", "a/c", false, false));
    assert!(!glob_match("a?c", "ac", true, false));
    assert!(glob_match("?", "é", true, false));
}

#[test]
fn literal_pattern_matches_itself_only() {
    assert!(glob_match("abc", "abc", true, false));
    assert!(!glob_match("abc", "abcd", true, false));
    assert!(!glob_match("abc", "ab", true, false));
    assert!(glob_match("", "", true, false));
}

#[test]
fn star_also_covers_a_literal_star() {
    assert!(glob_match("*b", "*ab", true, false));
    assert!(glob_match("a*", "a*b", true, false));
}

#[test]
fn several_stars_match_in_turn() {
    assert!(glob_match("*a*b*", "xxaxxbxx", true, false));
    assert!(!glob_match("*a*b*", "xxbxxaxx", true, false));
    assert!(glob_match("a*b*c", "abbbbc", false, false));
    assert!(glob_match("**", "", true, false));
}

#[test]
fn case_is_ignored_in_unicode_lower_case() {
    assert!(glob_match("ÄB*", "äbc", true, true));
    assert!(!glob_match("ÄB*", "äbc", true, false));
    assert!(matches_exclude("FILE.TXT", "*.txt", true, true));
    assert!(!matches_exclude("FILE.TXT", "*.txt", true, false));
}

#[test]
fn inner_matching_takes_characters() {
    assert!(glob_match_inner(&chars("a*"), &chars("abc"), true));
    assert!(!glob_match_inner(&chars("a*d"), &chars("abc"), true));
}

#[test]
fn names_compare_with_and_without_case() {
    assert!(eq_opt_ci("Ab", "aB", true));
    assert!(!eq_opt_ci("Ab", "aB", false));
    assert!(!eq_opt_ci("Ä", "ä", true));
    assert!(eq_opt_ci_prefix("Dir/file", "dir/", true));
    assert!(!eq_opt_ci_prefix("Dir/file", "dir/", false));
    assert!(eq_opt_ci_prefix("dir/file", "dir", false));
    assert!(!eq_opt_ci_prefix("di", "dir", true));
    assert!(eq_opt_ci_prefix("anything", "", true));
}

#[test]
fn symbolic_modes_grant_revoke_and_set() {
    assert_eq!(apply_mode_change(0o644, "+x"), 0o755);
    assert_eq!(apply_mode_change(0o444, "u+w"), 0o644);
    assert_eq!(apply_mode_change(0o777, "go-x"), 0o766);
    assert_eq!(apply_mode_change(0o755, "a=r"), 0o444);
    assert_eq!(apply_mode_change(0o755, "o="), 0o750);
    assert_eq!(apply_mode_change(0o644, "u+x,g-r"), 0o704);
    assert_eq!(apply_mode_change(0o4755, "=rx"), 0o4555);
}

#[test]
fn parts_that_are_no_change_are_passed_over() {
    assert_eq!(apply_mode_change(0o640, ""), 0o640);
    assert_eq!(apply_mode_change(0o640, ", ,"), 0o640);
    assert_eq!(apply_mode_change(0o640, "755"), 0o640);
    assert_eq!(apply_mode_change(0o640, "u"), 0o640);
    assert_eq!(apply_mode_change(0o640, " o+r "), 0o644);
    assert_eq!(apply_mode_change(0o640, "o+sX"), 0o640);
    assert_eq!(apply_mode_change(0o640, "o+rzw"), 0o644);
}

#[test]
fn mode_changes_are_idempotent_and_compose() {
    for changes in ["+w", "u=rwx,go-w", "a-x,o+x"] {
        let once = apply_mode_change(0o100640, changes);
        assert_eq!(apply_mode_change(once, changes), once);
        assert_eq!(once & !0o777, 0o100000);
    }
    let both = apply_mode_change(0o640, "u-r,g+w");
    assert_eq!(
        both,
        apply_mode_change(apply_mode_change(0o640, "u-r"), "g+w")
    );
    assert_eq!(mode_update(0o644, "u+w"), None);
    assert_eq!(mode_update(0o644, "u-w"), Some(0o444));
}

#[test]
fn extracted_permissions_lose_write_of_group_and_others() {
    assert_eq!(effective_mode(0o666, false), 0o644);
    assert_eq!(effective_mode(0o4777, false), 0o4755);
    assert_eq!(effective_mode(0o666, true), 0o666);
    assert_eq!(working_directory_mode(0o555), 0o755);
}

#[test]
fn transform_expressions_are_read() {
    let t = parse_transform("s/old/new/").unwrap();
    assert_eq!(
        (t.pattern.as_str(), t.replacement.as_str(), t.global),
        ("old", "new", false)
    );
    let t = parse_transform("s|a/b|c|g").unwrap();
    assert_eq!(
        (t.pattern.as_str(), t.replacement.as_str(), t.global),
        ("a/b", "c", true)
    );
    let t = parse_transform("s,a,b").unwrap();
    assert_eq!(
        (t.pattern.as_str(), t.replacement.as_str(), t.global),
        ("a", "b", false)
    );
    let t = parse_transform("s/a/b/i/g").unwrap();
    assert!(t.global);
}

#[test]
fn transform_errors_name_the_expression() {
    assert_eq!(
        parse_transform("y/a/b/").unwrap_err(),
        "unsupported transform expression: y/a/b/"
    );
    assert_eq!(
        parse_transform("s/a").unwrap_err(),
        "unsupported transform expression: s/a"
    );
    assert_eq!(
        parse_transform("s/abc").unwrap_err(),
        "bad transform expression: s/abc"
    );
    assert_eq!(
        parse_transform("sé").unwrap_err(),
        "unsupported transform expression: sé"
    );
}

#[test]
fn transforms_replace_once_or_everywhere() {
    let once = vec![parse_transform("s/a/b/").unwrap()];
    let all = vec![parse_transform("s/a/b/g").unwrap()];
    assert_eq!(apply_transforms("aXaXa", &once), "bXaXa");
    assert_eq!(apply_transforms("aXaXa", &all), "bXbXb");
    assert_eq!(apply_transforms("none", &all), "none");
    let grow = vec![parse_transform("s/a/aa/g").unwrap()];
    assert_eq!(apply_transforms("aba", &grow), "aabaa");
    let overlap = vec![parse_transform("s/aa/b/g").unwrap()];
    assert_eq!(apply_transforms("aaaaa", &overlap), "bba");
    let cut = vec![parse_transform("s/a//g").unwrap()];
    assert_eq!(apply_transforms("banana", &cut), "bnn");
}

#[test]
fn empty_pattern_occurs_between_characters() {
    let all = vec![parse_transform("s//-/g").unwrap()];
    assert_eq!(apply_transforms("abc", &all), "abc".replace("", "-"));
    assert_eq!(apply_transforms("", &all), "-");
    let once = vec![parse_transform("s//x/").unwrap()];
    assert_eq!(apply_transforms("abc", &once), "xabc");
}

#[test]
fn transforms_apply_in_order() {
    let rules = vec![
        parse_transform("s/a/b/").unwrap(),
        parse_transform("s/b/c/g").unwrap(),
    ];
    assert_eq!(apply_transforms("ab", &rules), "cc");
    assert_eq!(transformed("ab", &[]), "ab");
    assert_eq!(transformed("ab", &rules), "cc");
}
