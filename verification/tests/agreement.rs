use rust_tar::extract::{destination, strip_components};
use rust_tar::listing::escape_name;
use rust_tar::mtime::format_mtime;
use rust_tar::number::{parse_i64, parse_u64, parse_unsigned};
use rust_tar::path::{
    confine, confine_bytes, file_name, joined_bytes, place_of, sorted_paths, Place,
};
use rust_tar::text::{is_whitespace, split_chars, split_lines, split_words, trim};
use rust_tar::transform::{apply_transforms, Transform};
use std::path::{Path, PathBuf};

/// All strings over an alphabet up to a length.
fn strings(alphabet: &[&str], max: usize) -> Vec<String> {
    let mut all: Vec<String> = vec![String::new()];
    let mut last: Vec<String> = vec![String::new()];
    for _ in 0..max {
        let mut next: Vec<String> = Vec::new();
        for s in &last {
            for a in alphabet {
                next.push(format!("{s}{a}"));
            }
        }
        all.extend(next.iter().cloned());
        last = next;
    }
    all
}

fn chars(s: &str) -> Vec<char> {
    s.chars().collect()
}

#[test]
fn white_space_is_that_of_unicode() {
    for n in 0..=0x10ffffu32 {
        if let Some(c) = char::from_u32(n) {
            assert_eq!(is_whitespace(c), c.is_whitespace());
        }
    }
}

#[test]
fn words_and_lines_are_split_as_strings_are() {
    for s in strings(&["a", " ", "\u{2003}", "\n", "\r"], 5) {
        let words: Vec<String> = s.split_whitespace().map(String::from).collect();
        assert_eq!(split_words(&s), words);
        let lines: Vec<Vec<char>> = s.lines().map(chars).collect();
        assert_eq!(split_lines(&s), lines);
        assert_eq!(trim(&chars(&s)), &chars(s.trim())[..]);
        let parts: Vec<Vec<char>> = s.split('a').map(chars).collect();
        assert_eq!(split_chars(&chars(&s), 'a'), parts);
    }
}

#[test]
fn replacement_is_that_of_strings() {
    for s in strings(&["a", "b", "é"], 4) {
        for p in strings(&["a", "b"], 2) {
            for r in ["", "x", "aa"] {
                for global in [true, false] {
                    let rule = Transform {
                        pattern: p.clone(),
                        replacement: r.to_string(),
                        global,
                    };
                    let expected = if global {
                        s.replace(&p, r)
                    } else {
                        s.replacen(&p, r, 1)
                    };
                    assert_eq!(apply_transforms(&s, &[rule]), expected);
                }
            }
        }
    }
}

#[test]
fn paths_are_taken_apart_as_by_the_system() {
    let all = strings(&["/", ".", "a"], 5);
    for s in &all {
        let expected = Path::new(s).file_name().map(|n| n.to_str().unwrap());
        assert_eq!(file_name(s).as_deref(), expected);
    }
    for s in all.iter().filter(|s| s.len() <= 4) {
        let joined = PathBuf::from(s).join("a");
        assert_eq!(joined_bytes(s.as_bytes(), b"a"), joined.to_str().unwrap().as_bytes());
        for d in all.iter().filter(|d| d.len() <= 3) {
            let (p, q) = (Path::new(s), Path::new(d));
            let expected = if p == q {
                Place::Same
            } else if p.starts_with(q) {
                Place::Below
            } else {
                Place::Outside
            };
            assert_eq!(place_of(s.as_bytes(), d.as_bytes()), expected);
        }
    }
}

#[test]
fn destinations_are_joined_as_by_the_system() {
    let all = strings(&["/", "a", "."], 3);
    for d in &all {
        let directory = Some(d.clone());
        for p in all.iter().filter(|p| !p.is_empty()) {
            let expected = PathBuf::from(d).join(p);
            assert_eq!(destination(p, &directory), expected.to_str().unwrap());
        }
    }
}

#[test]
fn stripping_joins_what_is_left() {
    for s in strings(&["/", "a", "bc"], 5) {
        for n in 0..4 {
            let parts: Vec<&str> = s.split('/').collect();
            let expected = if n == 0 {
                Some(s.clone())
            } else if parts.len() <= n {
                None
            } else {
                Some(parts[n..].join("/"))
            };
            assert_eq!(strip_components(&s, n), expected);
        }
    }
}

#[test]
fn numbers_are_read_as_by_the_standard_library() {
    for s in strings(&["+", "-", "0", "7", "8", "x"], 4) {
        assert_eq!(parse_u64(&s), s.parse::<u64>().ok());
        assert_eq!(parse_i64(&chars(&s)), s.parse::<i64>().ok());
        assert_eq!(
            parse_unsigned(&chars(&s), 8, u64::MAX),
            u64::from_str_radix(&s, 8).ok()
        );
    }
}

#[test]
fn days_follow_one_another() {
    let mut previous = format_mtime(-800000 * 86400);
    for day in -799999..800000i64 {
        let text = format_mtime(day * 86400);
        let date = &text[..text.len() - 6];
        if !date.ends_with("-01") {
            let before = &previous[..previous.len() - 6];
            assert_eq!(date[..date.len() - 2], before[..before.len() - 2]);
        }
        assert!(text != previous);
        previous = text;
    }
}

#[test]
fn paths_are_sorted_as_by_the_system() {
    let all = strings(&["/", ".", "a", "b"], 4);
    let mut mixed: Vec<String> = Vec::new();
    for k in 0..7 {
        mixed.extend(all.iter().skip(k).step_by(7).cloned());
    }
    let sorted = sorted_paths(mixed.iter().map(|s| s.as_bytes().to_vec()).collect());
    let mut expected: Vec<PathBuf> = mixed.iter().map(PathBuf::from).collect();
    expected.sort();
    let expected: Vec<Vec<u8>> = expected
        .iter()
        .map(|p| p.to_str().unwrap().as_bytes().to_vec())
        .collect();
    assert_eq!(sorted, expected);
}

#[test]
fn confined_paths_stay_below() {
    for s in strings(&["/", ".", "a"], 5) {
        let rest = s.trim_start_matches('/');
        let expected = if (rest.is_empty() && !s.is_empty()) || rest.split('/').any(|p| p == "..") {
            None
        } else {
            Some(rest)
        };
        assert_eq!(confine(&s).as_deref(), expected);
        assert_eq!(
            confine_bytes(s.as_bytes()).as_deref(),
            expected.map(|e| e.as_bytes())
        );
    }
}

#[test]
fn names_are_escaped_byte_by_byte() {
    for n in 0..0x300 {
        let c = char::from_u32(n).unwrap();
        let expected: String = if c.is_control() {
            let bytes: Vec<u8> = c.to_string().into_bytes();
            bytes.iter().map(|b| format!("\\{b:03o}")).collect()
        } else {
            c.to_string()
        };
        assert_eq!(escape_name(&format!("a{c}b")), format!("a{expected}b"));
    }
}
