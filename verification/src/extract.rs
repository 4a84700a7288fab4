//! Which members of an archive are listed or extracted, and as what.

use crate::bytes;
use crate::bytes::lossy_text;
use crate::exclude;
use crate::exclude::is_excluded;
use crate::glob;
use crate::glob::{eq_opt_ci, eq_opt_ci_prefix, glob_match};
use crate::header;
use crate::header::EntryHeader;
use crate::listing;
use crate::listing::{escape_name, format_label, format_verbose_entry};
use crate::mode;
use crate::mode::effective_mode;
use crate::options;
use crate::options::Args;
use crate::path;
use crate::path::{confine, confine_bytes, file_name, joined_bytes, same_bytes};
use crate::text;
use crate::text::{
    concat, contains_char, copied, from_chars, join_from, owned, split_chars, to_chars,
    trim_end_char,
};
use crate::transform;
use crate::transform::transformed;
use vstd::prelude::*;
use vstd::slice::slice_to_vec;
use vstd::utf8::encode_utf8;

verus! {

/// A path without its leading components; `None` where no more than those are
/// there.
pub open spec fn stripped(path: Seq<char>, n: int) -> Option<Seq<char>> {
    let parts = text::split(path, '/');
    if n == 0 {
        Some(path)
    } else if parts.len() <= n {
        None
    } else {
        Some(text::joined(parts.skip(n), '/'))
    }
}

/// Strips leading components off a path.
pub fn strip_components(path: &str, n: usize) -> (r: Option<String>)
    ensures
        text::opt_view(r) == stripped(path@, n as int),
{
    if n == 0 {
        return Some(owned(path));
    }
    let chars = to_chars(path);
    let parts = split_chars(&chars, '/');
    let ghost all = text::char_views(parts@);
    if parts.len() <= n {
        return None;
    }
    Some(join_from(&parts, n, '/'))
}

/// Whether a word holds a wildcard.
pub open spec fn has_wildcard(p: Seq<char>) -> bool {
    p.contains('*') || p.contains('?')
}

/// The last name of a path, or nothing.
pub open spec fn last_name_of(p: Seq<char>) -> Seq<char> {
    match path::base_name(p) {
        Some(n) => n,
        None => seq![],
    }
}

/// Whether a glob pattern matches a text under the settings.
pub open spec fn pattern_matches(p: Seq<char>, t: Seq<char>, o: options::Switches) -> bool {
    glob::glob(
        glob::case_view(p, o.ignore_case_default),
        glob::case_view(t, o.ignore_case_default),
        o.match_slash_default,
    )
}

/// Whether a word of the command line is used as a glob pattern.
pub open spec fn is_pattern(p: Seq<char>, o: options::Switches) -> bool {
    o.explicit_wildcards && has_wildcard(p)
}

/// How the paths below that of a word begin: with the word and, where it does
/// not end in one, a slash.
pub open spec fn below_word(p: Seq<char>) -> Seq<char> {
    if p.len() > 0 && p.last() == '/' {
        p
    } else {
        p.push('/')
    }
}

/// Whether a word of the command line names a member. A pattern matches the
/// whole path, with or without slashes at its end, but not a directory unless
/// it ends in a slash itself. Any other word names its own path and the paths
/// below it. Where names are not anchored, either may be about the last name of
/// the path.
pub open spec fn word_names(p: Seq<char>, path: Seq<char>, o: options::Switches) -> bool {
    let unanchored = o.explicit_anchored == Some(false);
    let trimmed = text::trim_end_of(path, '/');
    if is_pattern(p, o) {
        if path.len() > 0 && path.last() == '/' && !(p.len() > 0 && p.last() == '/') {
            false
        } else {
            ||| pattern_matches(p, path, o)
            ||| pattern_matches(p, trimmed, o)
            ||| unanchored && pattern_matches(p, last_name_of(path), o)
        }
    } else {
        ||| glob::name_begins(path, below_word(p), o.ignore_case_default)
        ||| glob::names_equal(trimmed, text::trim_end_of(p, '/'), o.ignore_case_default)
        ||| unanchored && glob::names_equal(last_name_of(path), p, o.ignore_case_default)
    }
}

/// Whether a word can be held against a path: a comparison of beginnings that
/// ignores case does not end within a character.
pub open spec fn comparable(p: Seq<char>, path: Seq<char>, o: options::Switches) -> bool {
    is_pattern(p, o) || !o.ignore_case_default || glob::prefix_comparable(
        path,
        below_word(p),
    )
}

/// Whether one of the words from the `i`-th on names a member; `None` where one
/// that cannot be held against its path comes first.
pub open spec fn named_by(
    words: Seq<Seq<char>>,
    path: Seq<char>,
    o: options::Switches,
    i: int,
) -> Option<bool>
    decreases words.len() - i,
{
    if i < 0 || i >= words.len() {
        Some(false)
    } else if !comparable(words[i], path, o) {
        None
    } else if word_names(words[i], path, o) {
        Some(true)
    } else {
        named_by(words, path, o, i + 1)
    }
}

/// Whether a member is selected: by a word of the command line, or because
/// there is none.
pub open spec fn selected(path: Seq<char>, o: options::Settings) -> Option<bool> {
    if o.paths.len() == 0 {
        Some(true)
    } else {
        named_by(o.paths, path, o.switches, 0)
    }
}

fn uses_pattern(p: &[char], args: &Args) -> (r: bool)
    ensures
        r == is_pattern(p@, args@.switches),
{
    args.switches.explicit_wildcards && (contains_char(p, '*') || contains_char(p, '?'))
}

fn base_of(path: &str) -> (r: String)
    ensures
        r@ == last_name_of(path@),
{
    match file_name(path) {
        Some(n) => n,
        None => String::new(),
    }
}

fn start_below(p: &str) -> (r: String)
    ensures
        r@ == below_word(p@),
{
    let chars = to_chars(p);
    let mut s = owned(p);
    if !(chars.len() > 0 && chars[chars.len() - 1] == '/') {
        s.push('/');
    }
    s
}

fn is_comparable(p: &str, path: &str, pattern: bool, args: &Args) -> (r: bool)
    requires
        pattern == is_pattern(p@, args@.switches),
    ensures
        r == comparable(p@, path@, args@.switches),
{
    if pattern || !args.switches.ignore_case_default {
        return true;
    }
    let start = start_below(p);
    let b = start.as_str().as_bytes();
    path.as_bytes().len() < b.len() || path.is_char_boundary(b.len())
}

fn does_name(p: &str, path: &str, args: &Args) -> (r: bool)
    requires
        comparable(p@, path@, args@.switches),
    ensures
        r == word_names(p@, path@, args@.switches),
{
    let word = to_chars(p);
    let chars = to_chars(path);
    let trimmed = from_chars(trim_end_char(&chars, '/'));
    let unanchored = match args.switches.explicit_anchored {
        Some(anchored) => !anchored,
        None => false,
    };
    let ignore_case = args.switches.ignore_case_default;
    if uses_pattern(&word, args) {
        if chars.len() > 0 && chars[chars.len() - 1] == '/' && !(word.len() > 0 && word[word.len()
            - 1] == '/') {
            return false;
        }
        let match_slash = args.switches.match_slash_default;
        glob_match(p, path, match_slash, ignore_case) || glob_match(
            p,
            trimmed.as_str(),
            match_slash,
            ignore_case,
        ) || (unanchored && glob_match(p, base_of(path).as_str(), match_slash, ignore_case))
    } else {
        let word_trimmed = from_chars(trim_end_char(&word, '/'));
        let start = start_below(p);
        eq_opt_ci_prefix(path, start.as_str(), ignore_case) || eq_opt_ci(
            trimmed.as_str(),
            word_trimmed.as_str(),
            ignore_case,
        ) || (unanchored && eq_opt_ci(base_of(path).as_str(), p, ignore_case))
    }
}

/// Whether a member is selected; `None` where a word that ignores case cannot
/// be held against its path.
pub fn is_selected(path: &str, args: &Args) -> (r: Option<bool>)
    ensures
        r == selected(path@, args@),
{
    if args.paths.len() == 0 {
        return Some(true);
    }
    let ghost all = args@.paths;
    for i in 0..args.paths.len()
        invariant
            all == text::views(args.paths@),
            all == args@.paths,
            named_by(all, path@, args@.switches, i as int) == named_by(
                all,
                path@,
                args@.switches,
                0,
            ),
    {
        let p = args.paths[i].as_str();
        assert(all[i as int] == p@);
        let word = to_chars(p);
        if !is_comparable(p, path, uses_pattern(&word, args), args) {
            return None;
        }
        if does_name(p, path, args) {
            return Some(true);
        }
    }
    Some(false)
}

/// The first of the words from the `i`-th on that names a member; their count
/// where none does.
pub open spec fn naming_word(
    words: Seq<Seq<char>>,
    path: Seq<char>,
    o: options::Switches,
    i: int,
) -> int
    decreases words.len() - i,
{
    if i < 0 || i >= words.len() || word_names(words[i], path, o) {
        i
    } else {
        naming_word(words, path, o, i + 1)
    }
}

/// The directory that a member is extracted to: that of the word that selects
/// it, else the one that was given last.
pub open spec fn member_directory(path: Seq<char>, o: options::Settings) -> Option<Seq<char>> {
    if o.paths.len() == 0 {
        o.directory
    } else {
        options::directory_of(o, naming_word(o.paths, path, o.switches, 0))
    }
}

fn find_directory(path: &str, args: &Args) -> (r: Option<String>)
    requires
        selected(path@, args@) == Some(true),
    ensures
        text::opt_view(r) == member_directory(path@, args@),
{
    if args.paths.len() == 0 {
        return copied(&args.directory);
    }
    let ghost all = args@.paths;
    let mut i: usize = 0;
    while i < args.paths.len()
        invariant
            i <= args.paths.len(),
            all == text::views(args.paths@),
            all == args@.paths,
            named_by(all, path@, args@.switches, i as int) == Some(true),
            naming_word(all, path@, args@.switches, i as int) == naming_word(
                all,
                path@,
                args@.switches,
                0,
            ),
        decreases args.paths.len() - i,
    {
        let p = args.paths[i].as_str();
        assert(all[i as int] == p@);
        if does_name(p, path, args) {
            return args.directory_at(i);
        }
        i = i + 1;
    }
    None
}

/// What becomes of a member.
#[derive(Debug)]
pub enum Decision {
    /// The archive bears another label than the one asked for.
    WrongLabel { found: String },
    /// The archive bears no label, though one is asked for.
    NoLabel,
    /// A line is shown, and the member is done with.
    Show(String),
    /// The member is passed over.
    Skip,
    /// The member is extracted to a path below a directory, perhaps with a line
    /// shown.
    Extract { path: String, directory: Option<String>, report: Option<String> },
    /// A word of the command line cannot be held against the member.
    Incomparable,
}

/// [`Decision`] as a mathematical value.
pub enum Outcome {
    WrongLabel { found: Seq<char> },
    NoLabel,
    Show(Seq<char>),
    Skip,
    Extract { path: Seq<char>, directory: Option<Seq<char>>, report: Option<Seq<char>> },
    Incomparable,
}

impl View for Decision {
    type V = Outcome;

    open spec fn view(&self) -> Outcome {
        match *self {
            Decision::WrongLabel { found } => Outcome::WrongLabel { found: found@ },
            Decision::NoLabel => Outcome::NoLabel,
            Decision::Show(line) => Outcome::Show(line@),
            Decision::Skip => Outcome::Skip,
            Decision::Extract { path, directory, report } => Outcome::Extract {
                path: path@,
                directory: text::opt_view(directory),
                report: text::opt_view(report),
            },
            Decision::Incomparable => Outcome::Incomparable,
        }
    }
}

/// The label of a volume, as text without the zero bytes at its end.
pub open spec fn label_text(name: Seq<u8>) -> Seq<char> {
    text::trim_end_of(bytes::text_of(name), '\0')
}

pub fn label_of(name: &[u8]) -> (r: String)
    ensures
        r@ == label_text(name@),
{
    let s = lossy_text(name);
    let chars = to_chars(s.as_str());
    from_chars(trim_end_char(&chars, '\0'))
}

/// Whether a label matches the pattern that is asked for.
pub open spec fn label_matches(expected: Seq<char>, label: Seq<char>) -> bool {
    glob::glob(expected, label, true)
}

/// What becomes of a volume label.
pub open spec fn label_outcome(name: Seq<u8>, o: options::Settings) -> Outcome {
    let label = label_text(name);
    match o.label {
        Some(expected) => if !label_matches(expected, label) {
            Outcome::WrongLabel { found: label }
        } else {
            shown_label(label, o)
        },
        None => shown_label(label, o),
    }
}

pub open spec fn shown_label(label: Seq<char>, o: options::Settings) -> Outcome {
    if o.switches.list {
        Outcome::Show(listing::label_line(label, o.switches.verbose))
    } else {
        Outcome::Skip
    }
}

/// The path of a member after stripping and rewriting; `None` where nothing is
/// left of it.
pub open spec fn final_path(name: Seq<u8>, o: options::Settings) -> Option<Seq<char>> {
    match stripped(bytes::text_of(name), o.switches.strip_components as int) {
        Some(s) => if s.len() == 0 {
            None
        } else {
            Some(transform::rules_applied(s, o.transforms))
        },
        None => None,
    }
}

/// What becomes of a member that is no label.
pub open spec fn member_outcome(block: Seq<u8>, name: Seq<u8>, o: options::Settings) -> Outcome {
    match final_path(name, o) {
        None => Outcome::Skip,
        Some(path) => if exclude::excluded(path, o.excludes) {
            Outcome::Skip
        } else {
            match selected(path, o) {
                None => Outcome::Incomparable,
                Some(false) => Outcome::Skip,
                Some(true) => selected_outcome(block, path, o),
            }
        },
    }
}

/// The path that a member is extracted to: the one that it is named by where
/// absolute names are asked for, else that confined to the directory of the
/// extraction.
pub open spec fn extracted_path(path: Seq<char>, absolute_names: bool) -> Option<Seq<char>> {
    if absolute_names {
        Some(path)
    } else {
        path::confined(path, '/', '.')
    }
}

/// What becomes of a member that is selected: it is listed, or extracted. One
/// that would leave the directory of the extraction is passed over.
pub open spec fn selected_outcome(
    block: Seq<u8>,
    path: Seq<char>,
    o: options::Settings,
) -> Outcome {
    let line = listing::verbose_line(block, path, o.switches.numeric_owner);
    let name = listing::escaped(path);
    if o.switches.list {
        Outcome::Show(
            if o.switches.verbose {
                line
            } else {
                name
            },
        )
    } else {
        match extracted_path(path, o.switches.absolute_names) {
            None => Outcome::Skip,
            Some(to) => Outcome::Extract {
                path: to,
                directory: member_directory(path, o),
                report: if !o.switches.verbose {
                    None
                } else if o.switches.verbose_level >= 2 {
                    Some(line)
                } else {
                    Some(name)
                },
            },
        }
    }
}

/// What becomes of an entry of the archive, with its header and its name, when
/// the label has been checked or not, and whether it has been checked after it.
pub open spec fn entry_outcome(
    block: Seq<u8>,
    name: Seq<u8>,
    o: options::Settings,
    label_checked: bool,
) -> (Outcome, bool) {
    if header::type_flag(block[156]) == 86 {
        (
            label_outcome(name, o),
            label_checked || (o.label matches Some(e) && label_matches(e, label_text(name))),
        )
    } else if !label_checked && o.label is Some {
        (Outcome::NoLabel, label_checked)
    } else {
        (member_outcome(block, name, o), true)
    }
}

fn decide_label(name: &[u8], args: &Args) -> (r: Decision)
    ensures
        r@ == label_outcome(name@, args@),
{
    let label = label_of(name);
    if let Some(expected) = &args.label {
        if !glob_match(expected.as_str(), label.as_str(), true, false) {
            return Decision::WrongLabel { found: label };
        }
    }
    if args.switches.list {
        Decision::Show(format_label(label.as_str(), args.switches.verbose))
    } else {
        Decision::Skip
    }
}

fn decide_selected(h: &EntryHeader, path: String, args: &Args) -> (r: Decision)
    requires
        selected(path@, args@) == Some(true),
    ensures
        r@ == selected_outcome(h@, path@, args@),
{
    if args.switches.list {
        if args.switches.verbose {
            Decision::Show(format_verbose_entry(h, path.as_str(), args))
        } else {
            Decision::Show(escape_name(path.as_str()))
        }
    } else {
        let report = if !args.switches.verbose {
            None
        } else if args.switches.verbose_level >= 2 {
            Some(format_verbose_entry(h, path.as_str(), args))
        } else {
            Some(escape_name(path.as_str()))
        };
        let directory = find_directory(path.as_str(), args);
        if args.switches.absolute_names {
            Decision::Extract { path, directory, report }
        } else {
            match confine(path.as_str()) {
                Some(path) => Decision::Extract { path, directory, report },
                None => Decision::Skip,
            }
        }
    }
}

fn decide_member(h: &EntryHeader, name: &[u8], args: &Args) -> (r: Decision)
    ensures
        r@ == member_outcome(h@, name@, args@),
{
    let whole = lossy_text(name);
    let path = match strip_components(whole.as_str(), args.switches.strip_components) {
        Some(s) => {
            if s.as_str().is_empty() {
                return Decision::Skip;
            }
            transformed(s.as_str(), &args.transforms)
        },
        None => {
            return Decision::Skip;
        },
    };
    if is_excluded(path.as_str(), &args.excludes) {
        return Decision::Skip;
    }
    match is_selected(path.as_str(), args) {
        None => Decision::Incomparable,
        Some(false) => Decision::Skip,
        Some(true) => decide_selected(h, path, args),
    }
}

/// What becomes of an entry of the archive.
pub fn decide(h: &EntryHeader, name: &[u8], args: &Args, label_checked: &mut bool) -> (r: Decision)
    ensures
        (r@, *final(label_checked)) == entry_outcome(h@, name@, args@, *old(label_checked)),
{
    if h.entry_type() == 86 {
        let r = decide_label(name, args);
        if let Some(expected) = &args.label {
            let label = label_of(name);
            if glob_match(expected.as_str(), label.as_str(), true, false) {
                *label_checked = true;
            }
        }
        return r;
    }
    if !*label_checked && args.label.is_some() {
        return Decision::NoLabel;
    }
    *label_checked = true;
    decide_member(h, name, args)
}

/// Whether the label counts as checked before the first entry.
pub fn label_checked_at_start(args: &Args) -> (r: bool)
    ensures
        r == (args@.label is None),
{
    args.label.is_none()
}

/// Where a path goes below a directory: an absolute path stays where it is.
pub open spec fn below(dir: Option<Seq<char>>, path: Seq<char>) -> Seq<char> {
    match dir {
        None => path,
        Some(d) => if path.len() > 0 && path[0] == '/' || d.len() == 0 {
            path
        } else if d.last() == '/' {
            d + path
        } else {
            d.push('/') + path
        },
    }
}

/// Where a member goes on disk that is extracted below a directory.
pub fn destination(path: &str, directory: &Option<String>) -> (r: String)
    ensures
        r@ == below(text::opt_view(*directory), path@),
{
    match directory {
        None => owned(path),
        Some(d) => {
            let p = to_chars(path);
            let chars = to_chars(d.as_str());
            if (p.len() > 0 && p[0] == '/') || chars.len() == 0 {
                owned(path)
            } else if chars[chars.len() - 1] == '/' {
                concat(d.as_str(), path)
            } else {
                let mut s = d.clone();
                s.push('/');
                concat(s.as_str(), path)
            }
        },
    }
}

/// Where a path of bytes goes below a directory.
pub open spec fn below_bytes(dir: Option<Seq<char>>, path: Seq<u8>) -> Seq<u8> {
    match dir {
        None => path,
        Some(d) => path::join_bytes(encode_utf8(d), path),
    }
}

/// What a hard link is made to.
#[derive(Debug)]
pub enum LinkSource {
    /// A file on disk.
    File(Vec<u8>),
    /// The place of the link itself: there is nothing to link to.
    Itself,
    /// Nothing, because the target leaves the directory of the extraction.
    Outside,
}

/// [`LinkSource`] as mathematical values.
pub enum Source {
    File(Seq<u8>),
    Itself,
    Outside,
}

impl View for LinkSource {
    type V = Source;

    open spec fn view(&self) -> Source {
        match *self {
            LinkSource::File(path) => Source::File(path@),
            LinkSource::Itself => Source::Itself,
            LinkSource::Outside => Source::Outside,
        }
    }
}

/// What a hard link with a target and a place of its own is made to: the target
/// as it is where absolute names are asked for, else confined to the directory
/// of the extraction.
pub open spec fn link_source(
    target: Seq<u8>,
    place: Seq<char>,
    directory: Option<Seq<char>>,
    absolute_names: bool,
) -> Source {
    let confined = if absolute_names {
        Some(target)
    } else {
        path::confined(target, 47u8, 46u8)
    };
    match confined {
        Some(t) => if below_bytes(directory, t) == encode_utf8(place) {
            Source::Itself
        } else {
            Source::File(below_bytes(directory, t))
        },
        None => Source::Outside,
    }
}

/// What a hard link is made to.
pub fn hard_link_source(
    target: &[u8],
    place: &str,
    directory: &Option<String>,
    args: &Args,
) -> (r: LinkSource)
    ensures
        r@ == link_source(
            target@,
            place@,
            text::opt_view(*directory),
            args@.switches.absolute_names,
        ),
{
    let tail = if args.switches.absolute_names {
        slice_to_vec(target)
    } else {
        match confine_bytes(target) {
            Some(t) => t,
            None => {
                return LinkSource::Outside;
            },
        }
    };
    let source = match directory {
        Some(d) => joined_bytes(d.as_str().as_bytes(), &tail),
        None => tail,
    };
    if same_bytes(&source, place.as_bytes()) {
        LinkSource::Itself
    } else {
        LinkSource::File(source)
    }
}

/// What a member is extracted as.
#[derive(Debug, Clone, Copy, PartialEq, Eq, Structural)]
pub enum Extraction {
    Directory,
    File,
    Symlink,
    HardLink,
    Nothing,
}

/// What a type of entry is extracted as; other types are passed over.
pub open spec fn extraction(flag: u8) -> Extraction {
    if flag == 53 {
        Extraction::Directory
    } else if flag == 48 || flag == 83 {
        Extraction::File
    } else if flag == 50 {
        Extraction::Symlink
    } else if flag == 49 {
        Extraction::HardLink
    } else {
        Extraction::Nothing
    }
}

pub fn extraction_of(h: &EntryHeader) -> (r: Extraction)
    ensures
        r == extraction(header::type_flag(h@[156])),
{
    match h.entry_type() {
        53 => Extraction::Directory,
        48 | 83 => Extraction::File,
        50 => Extraction::Symlink,
        49 => Extraction::HardLink,
        _ => Extraction::Nothing,
    }
}

/// Whether permissions are restored as the archive has them.
pub open spec fn preserves(o: options::Switches) -> bool {
    o.preserve_permissions && !o.no_same_permissions
}

pub fn preserves_permissions(args: &Args) -> (r: bool)
    ensures
        r == preserves(args@.switches),
{
    args.switches.preserve_permissions && !args.switches.no_same_permissions
}

/// The permissions of an extracted member, if its header gives any.
pub open spec fn disk_mode(block: Seq<u8>, o: options::Switches) -> Option<u32> {
    match header::octal_value(block.subrange(100, 108)) {
        Some(m) => Some(mode::extracted_mode(m as u32, preserves(o))),
        None => None,
    }
}

/// The permissions of an extracted member, if its header gives any.
pub fn mode_on_disk(h: &EntryHeader, args: &Args) -> (r: Option<u32>)
    ensures
        r == disk_mode(h@, args@.switches),
{
    match h.mode() {
        Some(m) => Some(effective_mode(m, preserves_permissions(args))),
        None => None,
    }
}

/// Stripping no component keeps a path.
pub proof fn law_strip_nothing(path: Seq<char>)
    ensures
        stripped(path, 0) == Some(path),
{
}

/// Stripping one component takes away what stands before the first slash, and
/// the slash; of a path without a slash nothing is left.
pub proof fn law_strip_one(path: Seq<char>)
    ensures
        stripped(path, 1) == (if path.contains('/') {
            Some(path.skip(text::first_index(path, '/') + 1))
        } else {
            None
        }),
{
    let i = text::first_index(path, '/');
    text::lemma_first_index(path, '/');
    if i < path.len() {
        let rest = path.skip(i + 1);
        let parts = text::split(path, '/');
        assert(path[i] == '/');
        text::lemma_split_join(rest, '/');
        assert(parts.skip(1) =~= text::split(rest, '/'));
    } else {
        if path.contains('/') {
            let k = path.index_of('/');
            assert(path[k] == '/');
        }
    }
}

proof fn lemma_split_of_tail(s: Seq<char>, n: int)
    requires
        0 <= n < text::split(s, '/').len(),
    ensures
        text::split(text::joined(text::split(s, '/').skip(n), '/'), '/') == text::split(
            s,
            '/',
        ).skip(n),
    decreases n,
{
    let parts = text::split(s, '/');
    text::lemma_split_join(s, '/');
    if n == 0 {
        assert(parts.skip(0) =~= parts);
    } else {
        let i = text::first_index(s, '/');
        text::lemma_first_index(s, '/');
        let rest = s.skip(i + 1);
        assert(parts.drop_first() =~= text::split(rest, '/'));
        assert(parts.skip(n) =~= text::split(rest, '/').skip(n - 1));
        lemma_split_of_tail(rest, n - 1);
    }
}

/// Stripping some components and then some more strips them all.
pub proof fn law_strip_compose(path: Seq<char>, n: int, m: int)
    requires
        n >= 0,
        m >= 0,
    ensures
        stripped(path, n) is None ==> n + m > 0 && stripped(path, n + m) is None,
        stripped(path, n) matches Some(rest) ==> stripped(rest, m) == stripped(path, n + m),
{
    let parts = text::split(path, '/');
    if n > 0 && parts.len() > n && m > 0 {
        lemma_split_of_tail(path, n);
        if parts.len() > n + m {
            assert(parts.skip(n).skip(m) =~= parts.skip(n + m));
        }
    }
}

/// A name that was given to a new member is, where nothing is stripped or
/// rewritten, the path that it is listed under; and it is extracted to that
/// path where it is relative and leads nowhere up, or absolute names are asked
/// for.
pub proof fn law_name_round_trip(name: Seq<char>, o: options::Settings)
    requires
        o.switches.strip_components == 0,
        o.transforms.len() == 0,
        name.len() > 0,
    ensures
        final_path(encode_utf8(name), o) == Some(name),
        o.switches.absolute_names || name[0] != '/' && !path::leads_up(name, '/', '.')
            ==> extracted_path(name, o.switches.absolute_names) == Some(name),
{
    bytes::lemma_text_of_encoded(name);
    path::law_confined(name);
}

/// Unless absolute names are asked for, what is extracted stays in the
/// directory of the extraction: its path is relative and leads nowhere up.
pub proof fn law_extraction_stays_in_directory(
    block: Seq<u8>,
    name: Seq<u8>,
    o: options::Settings,
    label_checked: bool,
)
    requires
        !o.switches.absolute_names,
    ensures
        entry_outcome(block, name, o, label_checked).0 matches Outcome::Extract {
            path,
            directory,
            ..
        } ==> {
            &&& !path::is_absolute(path)
            &&& !path::leads_up(path, '/', '.')
            &&& path::stays_in(
                below(directory, path),
                match directory {
                    Some(d) => d,
                    None => seq![],
                },
            )
        },
{
    match entry_outcome(block, name, o, label_checked).0 {
        Outcome::Extract { path, directory, .. } => {
            let whole = final_path(name, o)->0;
            path::law_confined(whole);
            match directory {
                Some(d) => {
                    path::lemma_stays_in(d, path);
                    assert(d.len() == 0 ==> d =~= seq![]);
                },
                None => path::lemma_stays_in(seq![], path),
            }
        },
        _ => {},
    }
}

/// Once the label has been checked, or where none is asked for, no entry is
/// refused for want of a label; and where one is asked for, nothing is listed
/// or extracted before it has been checked.
pub proof fn law_label_first(
    block: Seq<u8>,
    name: Seq<u8>,
    o: options::Settings,
    label_checked: bool,
)
    ensures
        label_checked || o.label is None ==> !(entry_outcome(
            block,
            name,
            o,
            label_checked,
        ).0 is NoLabel),
        label_checked ==> entry_outcome(block, name, o, label_checked).1,
        !label_checked && o.label is Some && header::type_flag(block[156]) != 86
            ==> entry_outcome(block, name, o, label_checked) == (Outcome::NoLabel, false),
        o.label matches Some(e) && header::type_flag(block[156]) == 86 && !label_matches(
            e,
            label_text(name),
        ) ==> entry_outcome(block, name, o, label_checked).0 is WrongLabel,
{
}

/// Without words on the command line every member is selected, and a word
/// selects at least the path that it is.
pub proof fn law_selection(path: Seq<char>, o: options::Settings)
    requires
        o.paths == seq![path],
        !is_pattern(path, o.switches),
    ensures
        selected(path, options::Settings { paths: seq![], ..o }) == Some(true),
        selected(path, o) == Some(true),
{
    if path.len() > 0 && path.last() == '/' {
        assert(path + seq![] =~= path);
        glob::lemma_beginning_comparable(path, seq![]);
    } else {
        assert(path.push('/') =~= path + seq!['/']);
        glob::lemma_longer_comparable(path, seq!['/']);
    }
    reveal_with_fuel(named_by, 2);
    glob::law_names_equal_reflexive(text::trim_end_of(path, '/'), o.switches.ignore_case_default);
}

/// A word selects what lies below the path that it is.
pub proof fn law_selection_below(word: Seq<char>, rest: Seq<char>, o: options::Settings)
    requires
        o.paths == seq![word],
        !is_pattern(word, o.switches),
    ensures
        selected(below_word(word) + rest, o) == Some(true),
{
    let start = below_word(word);
    let path = start + rest;
    glob::lemma_beginning_comparable(start, rest);
    assert(path.take(start.len() as int) =~= start);
    glob::law_names_equal_reflexive(start, o.switches.ignore_case_default);
    reveal_with_fuel(named_by, 2);
}

/// A word does not select a path for beginning like it: where names are
/// anchored and case counts, what goes on behind the word without a slash is
/// another name.
pub proof fn law_selection_by_whole_names(word: Seq<char>, rest: Seq<char>, o: options::Settings)
    requires
        o.paths == seq![word],
        !is_pattern(word, o.switches),
        o.switches.explicit_anchored != Some(false),
        !o.switches.ignore_case_default,
        word.len() > 0 ==> word.last() != '/',
        rest.len() > 0,
        rest[0] != '/',
    ensures
        selected(word + rest, o) == Some(false),
{
    let path = word + rest;
    let n = word.len() as int;
    assert(text::trim_end_of(word, '/') == word);
    assert(path[n] == rest[0]);
    text::lemma_trim_end_keeps(path, '/', n);
    reveal_with_fuel(named_by, 2);
    if glob::name_begins(path, below_word(word), false) {
        assert(path.take(n + 1)[n] == below_word(word)[n]);
    }
}

/// A member is extracted to the directory that goes with the first word that
/// names it; without words, to the one that was given last.
pub proof fn law_member_directory(path: Seq<char>, o: options::Settings, k: int)
    requires
        0 <= k < o.paths.len(),
        word_names(o.paths[k], path, o.switches),
        forall|i: int| 0 <= i < k ==> !word_names(#[trigger] o.paths[i], path, o.switches),
    ensures
        member_directory(path, o) == options::directory_of(o, k),
        member_directory(path, options::Settings { paths: seq![], ..o }) == o.directory,
{
    lemma_naming_word(o.paths, path, o.switches, 0, k);
}

proof fn lemma_naming_word(
    words: Seq<Seq<char>>,
    path: Seq<char>,
    o: options::Switches,
    i: int,
    k: int,
)
    requires
        0 <= i <= k < words.len(),
        word_names(words[k], path, o),
        forall|j: int| i <= j < k ==> !word_names(#[trigger] words[j], path, o),
    ensures
        naming_word(words, path, o, i) == k,
    decreases k - i,
{
    if i < k {
        assert(!word_names(words[i], path, o));
        lemma_naming_word(words, path, o, i + 1, k);
    }
}

/// An excluded member is neither listed nor extracted.
pub proof fn law_excluded_skipped(block: Seq<u8>, name: Seq<u8>, o: options::Settings)
    requires
        final_path(name, o) is Some,
        exclude::excluded(final_path(name, o)->0, o.excludes),
    ensures
        member_outcome(block, name, o) is Skip,
{
}

/// A word with wildcards, where these are asked for, selects the members whose
/// paths the glob matches, with or without slashes at their end; a directory
/// only where the word ends in a slash itself; where names are not anchored also
/// those whose last names it matches; and no others.
pub proof fn law_selection_by_glob(word: Seq<char>, path: Seq<char>, o: options::Settings)
    requires
        o.paths == seq![word],
        o.switches.explicit_wildcards,
        word.contains('*') || word.contains('?'),
    ensures
        ({
            let s = o.switches;
            let hit = |t: Seq<char>|
                if s.ignore_case_default {
                    glob::glob(
                        glob::case_view(word, true),
                        glob::case_view(t, true),
                        s.match_slash_default,
                    )
                } else {
                    glob::glob(word, t, s.match_slash_default)
                };
            let directory = path.len() > 0 && path.last() == '/';
            let anchored = s.explicit_anchored != Some(false);
            &&& directory && word.last() != '/' ==> selected(path, o) == Some(false)
            &&& !directory && anchored ==> selected(path, o) == Some(hit(path))
            &&& directory && word.last() == '/' && anchored ==> selected(path, o) == Some(
                hit(path) || hit(text::trim_end_of(path, '/')),
            )
            &&& directory && word.last() == '/' && !anchored ==> selected(path, o) == Some(
                hit(path) || hit(text::trim_end_of(path, '/')) || match path::base_name(path) {
                    Some(n) => hit(n),
                    None => hit(seq![]),
                },
            )
            &&& !directory && !anchored ==> selected(path, o) == Some(
                hit(path) || match path::base_name(path) {
                    Some(n) => hit(n),
                    None => hit(seq![]),
                },
            )
        }),
{
    reveal_with_fuel(named_by, 2);
    assert(word.len() > 0);
    assert(is_pattern(word, o.switches));
}

/// A word without wildcards, or where none are asked for, selects the member of
/// that path and those below it, and where names are not anchored those of that
/// last name; and no others.
pub proof fn law_selection_by_name(word: Seq<char>, path: Seq<char>, o: options::Settings)
    requires
        o.paths == seq![word],
        !o.switches.explicit_wildcards || !word.contains('*') && !word.contains('?'),
        !o.switches.ignore_case_default,
    ensures
        ({
            let named = if word.len() == 0 {
                path.len() == 0 || path[0] == '/'
            } else if word.last() == '/' {
                word.is_prefix_of(path) || text::trim_end_of(path, '/') == text::trim_end_of(
                    word,
                    '/',
                )
            } else {
                path == word || word.push('/').is_prefix_of(path)
            };
            let last = path::base_name(path) == Some(word) || path::base_name(path) is None
                && word.len() == 0;
            if o.switches.explicit_anchored == Some(false) {
                selected(path, o) == Some(named || last)
            } else {
                selected(path, o) == Some(named)
            }
        }),
{
    reveal_with_fuel(named_by, 2);
    assert(!is_pattern(word, o.switches));
    let t = text::trim_end_of(path, '/');
    let start = below_word(word);
    text::law_trim_end(path, '/');
    assert(glob::name_begins(path, start, false) == start.is_prefix_of(path)) by {
        if start.len() <= path.len() {
            assert(path.take(start.len() as int) =~= path.subrange(0, start.len() as int));
        }
    }
    if path::base_name(path) is None {
        assert(word.len() == 0 ==> word =~= seq![]);
    }
    if word.len() == 0 {
        assert(word.push('/') =~= seq!['/']);
        assert(start.is_prefix_of(path) == (path.len() > 0 && path[0] == '/')) by {
            if path.len() > 0 && path[0] == '/' {
                assert(start =~= path.subrange(0, 1));
            }
            if start.is_prefix_of(path) {
                assert(path.subrange(0, 1)[0] == '/');
            }
        }
        assert(text::trim_end_of(word, '/') =~= seq![]);
        if t == word && path.len() > 0 {
            assert(path[0] == '/');
        }
        if path.len() == 0 {
            assert(path =~= word);
        }
    } else if word.last() != '/' {
        assert(text::trim_end_of(word, '/') == word);
        if t == word && path != word {
            if t.len() == path.len() {
                assert(path.take(path.len() as int) =~= path);
            }
            assert(path[word.len() as int] == '/');
            assert(start =~= path.subrange(0, start.len() as int)) by {
                assert forall|i: int| 0 <= i < start.len() implies start[i] == path[i] by {
                    if i < word.len() {
                        assert(path.take(t.len() as int)[i] == word[i]);
                    }
                }
            }
        }
        if path == word {
            assert(t == word);
        }
    }
}

/// A text with the capitals `A` to `Z` as `a` to `z`.
pub open spec fn in_lower_case(s: Seq<char>) -> Seq<char> {
    s.map_values(|c: char| glob::ascii_lower(c))
}

/// Where case is ignored a word selects what it would select in lower case of
/// the path in lower case.
pub proof fn law_selection_ignores_case(word: Seq<char>, path: Seq<char>, o: options::Settings)
    requires
        o.paths == seq![word],
        !o.switches.explicit_wildcards || !word.contains('*') && !word.contains('?'),
        o.switches.explicit_anchored != Some(false),
        o.switches.ignore_case_default,
        selected(path, o) is Some,
    ensures
        selected(path, o) == selected(
            in_lower_case(path),
            options::Settings {
                paths: seq![in_lower_case(word)],
                switches: options::Switches { ignore_case_default: false, ..o.switches },
                ..o
            },
        ),
{
    let (low_word, low_path) = (in_lower_case(word), in_lower_case(path));
    let p = options::Settings {
        paths: seq![low_word],
        switches: options::Switches { ignore_case_default: false, ..o.switches },
        ..o
    };
    lemma_lower_names(word, path, o.switches, p.switches);
    lemma_one_word(word, path, o);
    lemma_one_word(low_word, low_path, p);
}

proof fn lemma_one_word(word: Seq<char>, path: Seq<char>, o: options::Settings)
    requires
        o.paths == seq![word],
    ensures
        selected(path, o) == (if comparable(word, path, o.switches) {
            Some(word_names(word, path, o.switches))
        } else {
            None
        }),
{
    reveal_with_fuel(named_by, 2);
}

proof fn lemma_lower_names(
    word: Seq<char>,
    path: Seq<char>,
    s: options::Switches,
    t: options::Switches,
)
    requires
        s.explicit_wildcards == t.explicit_wildcards,
        !s.explicit_wildcards || !word.contains('*') && !word.contains('?'),
        s.explicit_anchored != Some(false),
        t.explicit_anchored != Some(false),
        s.ignore_case_default,
        !t.ignore_case_default,
    ensures
        word_names(word, path, s) == word_names(in_lower_case(word), in_lower_case(path), t),
{
    let (low_word, low_path) = (in_lower_case(word), in_lower_case(path));
    if s.explicit_wildcards {
        lemma_lower_wildcard(word);
    }
    lemma_trim_lower(path);
    lemma_trim_lower(word);
    let start = below_word(word);
    assert(in_lower_case(start) =~= below_word(low_word)) by {
        assert(low_word.len() > 0 ==> low_word.last() == glob::ascii_lower(word.last()));
    }
    lemma_lower_equal(text::trim_end_of(path, '/'), text::trim_end_of(word, '/'));
    if start.len() <= path.len() {
        let head = path.take(start.len() as int);
        lemma_lower_equal(head, start);
        assert(in_lower_case(head) =~= low_path.take(start.len() as int));
    }
}

proof fn lemma_lower_wildcard(word: Seq<char>)
    requires
        !word.contains('*') && !word.contains('?'),
    ensures
        !in_lower_case(word).contains('*') && !in_lower_case(word).contains('?'),
{
    let low = in_lower_case(word);
    assert forall|i: int| 0 <= i < low.len() implies low[i] != '*' && low[i] != '?' by {
        assert(low[i] == glob::ascii_lower(word[i]));
        assert(word.contains(word[i]));
    }
}

proof fn lemma_lower_equal(a: Seq<char>, b: Seq<char>)
    ensures
        glob::same_but_case(a, b) <==> in_lower_case(a) == in_lower_case(b),
{
    let (la, lb) = (in_lower_case(a), in_lower_case(b));
    if la == lb {
        assert(a.len() == la.len() && b.len() == lb.len());
        assert forall|i: int| 0 <= i < a.len() implies glob::ascii_lower(#[trigger] a[i])
            == glob::ascii_lower(b[i]) by {
            assert(la[i] == glob::ascii_lower(a[i]));
            assert(lb[i] == glob::ascii_lower(b[i]));
        }
    }
    if glob::same_but_case(a, b) {
        assert(la =~= lb);
    }
}

proof fn lemma_trim_lower(s: Seq<char>)
    ensures
        text::trim_end_of(in_lower_case(s), '/') == in_lower_case(text::trim_end_of(s, '/')),
    decreases s.len(),
{
    let l = in_lower_case(s);
    if s.len() > 0 {
        assert(l.last() == glob::ascii_lower(s.last()));
        assert(l.drop_last() =~= in_lower_case(s.drop_last()));
        if s.last() == '/' {
            lemma_trim_lower(s.drop_last());
        }
    }
}

/// A member is selected where one of the words alone selects it, and where
/// there is none.
pub proof fn law_selection_by_any_word(path: Seq<char>, o: options::Settings)
    requires
        !o.switches.ignore_case_default || forall|i: int|
            0 <= i < o.paths.len() ==> selected(
                path,
                options::Settings { paths: seq![#[trigger] o.paths[i]], ..o },
            ) is Some,
    ensures
        selected(path, o) is Some,
        selected(path, o) == Some(true) <==> o.paths.len() == 0 || exists|i: int|
            0 <= i < o.paths.len() && selected(
                path,
                options::Settings { paths: seq![#[trigger] o.paths[i]], ..o },
            ) == Some(true),
{
    assert forall|i: int| 0 <= i < o.paths.len() implies comparable(
        #[trigger] o.paths[i],
        path,
        o.switches,
    ) && selected(path, options::Settings { paths: seq![o.paths[i]], ..o }) == Some(
        word_names(o.paths[i], path, o.switches),
    ) by {
        lemma_one_word(o.paths[i], path, options::Settings { paths: seq![o.paths[i]], ..o });
    }
    lemma_named_by(o.paths, path, o.switches, 0);
    if selected(path, o) == Some(true) && o.paths.len() > 0 {
        let i = choose|i: int|
            0 <= i < o.paths.len() && word_names(#[trigger] o.paths[i], path, o.switches);
        assert(selected(path, options::Settings { paths: seq![o.paths[i]], ..o }) == Some(true));
    }
    if exists|i: int|
        0 <= i < o.paths.len() && selected(
            path,
            options::Settings { paths: seq![#[trigger] o.paths[i]], ..o },
        ) == Some(true) {
        let i = choose|i: int|
            0 <= i < o.paths.len() && selected(
                path,
                options::Settings { paths: seq![#[trigger] o.paths[i]], ..o },
            ) == Some(true);
        assert(word_names(o.paths[i], path, o.switches));
    }
}

proof fn lemma_named_by(words: Seq<Seq<char>>, path: Seq<char>, o: options::Switches, i: int)
    requires
        0 <= i <= words.len(),
        forall|k: int| 0 <= k < words.len() ==> comparable(#[trigger] words[k], path, o),
    ensures
        named_by(words, path, o, i) == Some(
            exists|k: int| i <= k < words.len() && word_names(#[trigger] words[k], path, o),
        ),
    decreases words.len() - i,
{
    if i < words.len() {
        lemma_named_by(words, path, o, i + 1);
        if word_names(words[i], path, o) {
            assert(exists|k: int| i <= k < words.len() && word_names(#[trigger] words[k], path, o));
        }
    }
}

/// A member goes by its name as it is, with the rules applied, where no component
/// is stripped; each component that is stripped takes away what stands before
/// the first slash, and the slash; and nothing is left of a name without enough
/// slashes, or of an empty one.
pub proof fn law_final_path(
    first: Seq<char>,
    rest: Seq<char>,
    o: options::Settings,
    p: options::Settings,
)
    requires
        !first.contains('/'),
        p.transforms == o.transforms,
        p.switches.strip_components == o.switches.strip_components + 1,
    ensures
        o.switches.strip_components == 0 && rest.len() > 0 ==> final_path(encode_utf8(rest), o)
            == Some(transform::rules_applied(rest, o.transforms)),
        rest.len() == 0 ==> final_path(encode_utf8(rest), o) is None,
        final_path(encode_utf8(first.push('/') + rest), p) == final_path(encode_utf8(rest), o),
        final_path(encode_utf8(first), p) is None,
{
    let n = o.switches.strip_components as int;
    let whole = first.push('/') + rest;
    bytes::lemma_text_of_encoded(rest);
    bytes::lemma_text_of_encoded(whole);
    bytes::lemma_text_of_encoded(first);
    law_strip_compose(whole, 1, n);
    law_strip_one(whole);
    law_strip_one(first);
    law_strip_compose(first, 1, n);
    text::lemma_first_index_is(whole, '/', first.len() as int);
    assert(whole[first.len() as int] == '/');
    assert(whole.skip(first.len() as int + 1) =~= rest);
    if rest.len() == 0 {
        text::lemma_first_index(rest, '/');
        assert(text::split(rest, '/').len() == 1);
    }
}

/// What becomes of a member, once the label has been checked or where none is
/// asked for: one that is excluded or not selected is passed over; any other is
/// shown in a listing, by its name or by its verbose line, and is otherwise
/// extracted under its name, unless that would leave the directory.
pub proof fn law_member_outcome(
    block: Seq<u8>,
    name: Seq<u8>,
    path: Seq<char>,
    o: options::Settings,
    label_checked: bool,
)
    requires
        block[156] != 86,
        label_checked || o.label is None,
        final_path(name, o) == Some(path),
    ensures
        ({
            let s = o.switches;
            let outcome = entry_outcome(block, name, o, label_checked).0;
            let wanted = !exclude::excluded(path, o.excludes) && selected(path, o) == Some(true);
            let line = listing::verbose_line(block, path, s.numeric_owner);
            &&& entry_outcome(block, name, o, label_checked).1
            &&& exclude::excluded(path, o.excludes) ==> outcome is Skip
            &&& selected(path, o) == Some(false) ==> outcome is Skip
            &&& wanted && s.list && !s.verbose ==> outcome == Outcome::Show(listing::escaped(path))
            &&& wanted && s.list && s.verbose ==> outcome == Outcome::Show(line)
            &&& wanted && !s.list && (s.absolute_names || !path::is_absolute(path)
                && !path::leads_up(path, '/', '.')) ==> {
                &&& outcome is Extract
                &&& outcome->Extract_path == path
                &&& !s.verbose ==> outcome->report is None
                &&& s.verbose && s.verbose_level < 2 ==> outcome->report == Some(
                    listing::escaped(path),
                )
                &&& s.verbose && s.verbose_level >= 2 ==> outcome->report == Some(line)
            }
            &&& wanted && !s.list && !s.absolute_names && path::leads_up(path, '/', '.')
                ==> outcome is Skip
            &&& wanted && !s.list && !s.absolute_names ==> (outcome is Skip <==> path::confined(
                path,
                '/',
                '.',
            ) is None)
            &&& outcome is Extract && !s.absolute_names ==> Some(outcome->Extract_path)
                == path::confined(path, '/', '.')
            &&& outcome is Extract ==> wanted && !s.list && outcome->directory == member_directory(
                path,
                o,
            )
            &&& outcome is Show ==> wanted && s.list
            &&& !exclude::excluded(path, o.excludes) && selected(path, o) is None
                ==> outcome is Incomparable
        }),
{
    path::law_confined(path);
    path::lemma_rootless_leads_up(path);
}

/// What becomes of a volume label: it is refused where a label is asked for whose
/// pattern does not match it, and is otherwise shown in a listing and counts as
/// checked.
pub proof fn law_label_outcome(
    block: Seq<u8>,
    label: Seq<char>,
    k: nat,
    o: options::Settings,
    label_checked: bool,
)
    requires
        block[156] == 86,
        label.len() > 0 ==> label.last() != '\0',
    ensures
        ({
            let name = encode_utf8(label + Seq::new(k, |i: int| '\0'));
            let (outcome, checked) = entry_outcome(block, name, o, label_checked);
            let refused = o.label matches Some(e) && !glob::glob(e, label, true);
            &&& refused ==> outcome == (Outcome::WrongLabel { found: label })
            &&& refused ==> checked == label_checked
            &&& !refused && o.switches.list ==> outcome == Outcome::Show(
                listing::label_line(label, o.switches.verbose),
            )
            &&& !refused && !o.switches.list ==> outcome is Skip
            &&& !refused && o.label is Some ==> checked
        }),
{
    let padded = label + Seq::new(k, |i: int| '\0');
    bytes::lemma_text_of_encoded(padded);
    lemma_trim_zeros(label, k);
}

/// Trimming takes the zero bytes behind a label away.
pub proof fn lemma_trim_zeros(label: Seq<char>, k: nat)
    requires
        label.len() > 0 ==> label.last() != '\0',
    ensures
        text::trim_end_of(label + Seq::new(k, |i: int| '\0'), '\0') == label,
    decreases k,
{
    let s = label + Seq::new(k, |i: int| '\0');
    if k == 0 {
        assert(s =~= label);
    } else {
        assert(s.drop_last() =~= label + Seq::new((k - 1) as nat, |i: int| '\0'));
        lemma_trim_zeros(label, (k - 1) as nat);
    }
}

/// Directories, regular and sparse files, symbolic and hard links are extracted,
/// each as what it is, and nothing else.
pub proof fn law_extraction_kinds(block: Seq<u8>)
    ensures
        ({
            let kind = extraction(header::type_flag(block[156]));
            &&& kind is Directory <==> block[156] == 53
            &&& kind is File <==> block[156] == 48 || block[156] == 0 || block[156] == 83
            &&& kind is Symlink <==> block[156] == 50
            &&& kind is HardLink <==> block[156] == 49
        }),
{
}

/// A relative path goes below the directory, an absolute one stays where it is,
/// and so does every path without a directory.
pub proof fn law_destination(dir: Seq<char>, path: Seq<char>)
    ensures
        below(None, path) == path,
        dir.len() == 0 ==> below(Some(dir), path) == path,
        path::is_absolute(path) ==> below(Some(dir), path) == path,
        dir.len() > 0 && dir.last() != '/' && !path::is_absolute(path) ==> below(
            Some(dir),
            path,
        ) == dir.push('/') + path,
        dir.len() > 0 && dir.last() == '/' && !path::is_absolute(path) ==> below(
            Some(dir),
            path,
        ) == dir + path,
{
}

/// Permissions are restored as the archive has them where that is asked for and
/// not taken back; else group and others may not write, and the other bits are
/// as the archive has them.
pub proof fn law_disk_mode(block: Seq<u8>, o: options::Switches)
    ensures
        header::octal_value(block.subrange(100, 108)) is None ==> disk_mode(block, o) is None,
        header::octal_value(block.subrange(100, 108)) matches Some(m) ==> {
            &&& disk_mode(block, o) is Some
            &&& o.preserve_permissions && !o.no_same_permissions ==> disk_mode(block, o)->0
                == m as u32
            &&& !o.preserve_permissions || o.no_same_permissions ==> {
                &&& disk_mode(block, o)->0 & 0o022u32 == 0
                &&& disk_mode(block, o)->0 & !0o022u32 == m as u32 & !0o022u32
            }
        },
{
    match header::octal_value(block.subrange(100, 108)) {
        Some(m) => mode::law_extracted_mode(m as u32),
        None => {},
    }
}

/// A hard link is made to its target below the directory of the extraction. No
/// link is made to a target that leads up, unless absolute names are asked for,
/// nor to the place of the link.
pub proof fn law_link_source(
    target: Seq<u8>,
    place: Seq<char>,
    dir: Seq<char>,
    absolute_names: bool,
)
    requires
        target.len() > 0,
        target[0] != 47,
        dir.len() > 0,
        dir.last() != '/',
    ensures
        ({
            let whole = encode_utf8(dir).push(47) + target;
            let source = link_source(target, place, Some(dir), absolute_names);
            &&& !absolute_names && path::leads_up(target, 47u8, 46u8) ==> source is Outside
            &&& (absolute_names || !path::leads_up(target, 47u8, 46u8)) && encode_utf8(place)
                != whole ==> source == Source::File(whole)
            &&& (absolute_names || !path::leads_up(target, 47u8, 46u8)) && encode_utf8(place)
                == whole ==> source is Itself
            &&& (absolute_names || !path::leads_up(target, 47u8, 46u8)) && encode_utf8(place)
                != target ==> link_source(target, place, None, absolute_names) == Source::File(
                target,
            )
        }),
{
    bytes::lemma_encoded_last(dir);
}

/// A word cannot be held against a path only where case is ignored and the word,
/// with a slash at its end, is as long as what ends within a character of the
/// path.
pub proof fn law_selection_comparable(word: Seq<char>, path: Seq<char>, o: options::Settings)
    requires
        o.paths == seq![word],
        selected(path, o) is None,
    ensures
        ({
            let start = if word.len() > 0 && word.last() == '/' {
                word
            } else {
                word.push('/')
            };
            let n = encode_utf8(start).len();
            &&& o.switches.ignore_case_default
            &&& n <= encode_utf8(path).len()
            &&& !vstd::utf8::is_char_boundary(encode_utf8(path), n as int)
        }),
{
    lemma_one_word(word, path, o);
}

/// Where names are not anchored a word without wildcards selects what it selects
/// where they are, and besides the members whose last name it is.
pub proof fn law_selection_unanchored(
    word: Seq<char>,
    path: Seq<char>,
    o: options::Settings,
    p: options::Settings,
)
    requires
        o.paths == seq![word],
        p.paths == seq![word],
        !word.contains('*') && !word.contains('?'),
        o.switches.explicit_anchored == Some(false),
        p.switches.explicit_anchored != Some(false),
        o.switches.ignore_case_default == p.switches.ignore_case_default,
    ensures
        selected(path, o) is Some <==> selected(path, p) is Some,
        selected(path, o) matches Some(b) ==> (b <==> {
            ||| selected(path, p) == Some(true)
            ||| glob::names_equal(
                match path::base_name(path) {
                    Some(n) => n,
                    None => Seq::<char>::empty(),
                },
                word,
                o.switches.ignore_case_default,
            )
        }),
{
    lemma_one_word(word, path, o);
    lemma_one_word(word, path, p);
}

/// An absolute target of a hard link is taken from the directory of the
/// extraction like one without the slashes at its start, and as it is where
/// absolute names are asked for.
pub proof fn law_absolute_link_source(
    target: Seq<u8>,
    place: Seq<char>,
    directory: Option<Seq<char>>,
)
    requires
        target.len() > 0,
    ensures
        link_source(seq![47u8] + target, place, directory, false) == link_source(
            target,
            place,
            directory,
            false,
        ),
        link_source(seq![47u8], place, directory, false) is Outside,
        encode_utf8(place) != seq![47u8] + target ==> link_source(
            seq![47u8] + target,
            place,
            directory,
            true,
        ) == Source::File(seq![47u8] + target),
{
    path::law_bytes_confined(target);
}

} // verus!
