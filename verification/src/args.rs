//! Reading the command line.
//!
//! The words of the command line are read one after the other. Where one names
//! a file whose lines are wanted, reading stops with an [`Event`] that asks for
//! them, and goes on when they have been handed over.

use crate::exclude;
use crate::extract;
use crate::glob;
use crate::mtime;
use crate::mtime::parse_mtime_arg;
use crate::number;
use crate::number::parse_unsigned;
use crate::options;
use crate::options::{Args, CacheExcludeMode, ExcludeEntry, Switches};
use crate::path;
use crate::text;
use crate::text::{
    concat, contains_char, copied, from_chars, owned, same, split_lines, split_words,
    starts_with, strip_prefix, to_chars, trim_end_char, trim_start_char,
};
use crate::transform;
use crate::transform::{parse_transform, Transform};
use crate::words;
use crate::words::{attached_value, flag_of, letter_of, setting_of, Flag, Letter, Setting};
use std::collections::VecDeque;
use vstd::prelude::*;
use vstd::slice::slice_subrange;

verus! {

/// An error on the command line.
#[derive(Debug)]
pub enum UsageError {
    /// A transform expression that cannot be read, and why.
    Transform(String),
    /// A transform expression whose separator is not ASCII.
    TransformSeparator,
    /// A pax option on an archive of another format.
    PaxOption { hint: bool },
    /// A letter that is no short option.
    UnknownShort(char),
    /// A word that is no option.
    Unrecognized(String),
}

/// Where reading the command line has got to.
#[derive(Debug)]
pub enum Event {
    /// A word has been read.
    Continue,
    /// All words have been read.
    Done,
    /// The lines of a file are wanted, as paths.
    ReadPaths { file: String, marked: bool },
    /// The lines of a file are wanted, as patterns to leave out.
    ReadExcludes { file: String },
    /// The version is asked for.
    Version,
    /// The help is asked for.
    Help,
    Failed(UsageError),
}

/// [`UsageError`] and [`Event`] as mathematical values.
pub enum Fault {
    Transform(Seq<char>),
    TransformSeparator,
    PaxOption { hint: bool },
    UnknownShort(char),
    Unrecognized(Seq<char>),
}

pub enum Happening {
    Continue,
    Done,
    ReadPaths { file: Seq<char>, marked: bool },
    ReadExcludes { file: Seq<char> },
    Version,
    Help,
    Failed(Fault),
}

impl View for UsageError {
    type V = Fault;

    open spec fn view(&self) -> Fault {
        match *self {
            UsageError::Transform(m) => Fault::Transform(m@),
            UsageError::TransformSeparator => Fault::TransformSeparator,
            UsageError::PaxOption { hint } => Fault::PaxOption { hint },
            UsageError::UnknownShort(c) => Fault::UnknownShort(c),
            UsageError::Unrecognized(w) => Fault::Unrecognized(w@),
        }
    }
}

impl View for Event {
    type V = Happening;

    open spec fn view(&self) -> Happening {
        match *self {
            Event::Continue => Happening::Continue,
            Event::Done => Happening::Done,
            Event::ReadPaths { file, marked } => Happening::ReadPaths { file: file@, marked },
            Event::ReadExcludes { file } => Happening::ReadExcludes { file: file@ },
            Event::Version => Happening::Version,
            Event::Help => Happening::Help,
            Event::Failed(e) => Happening::Failed(e@),
        }
    }
}

/// An exclusion under the rules in force.
pub open spec fn exclusion(o: options::Settings, pattern: Seq<char>) -> options::Exclusion {
    options::Exclusion {
        pattern,
        wildcards: o.switches.wildcards_default,
        anchored: o.switches.anchored_default,
        match_slash: o.switches.match_slash_default,
        ignore_case: o.switches.ignore_case_default,
    }
}

/// An exclusion of a fixed name or pattern anywhere in a path.
pub open spec fn fixed_exclusion(
    o: options::Settings,
    pattern: Seq<char>,
    wildcards: bool,
) -> options::Exclusion {
    options::Exclusion {
        pattern,
        wildcards,
        anchored: false,
        match_slash: o.switches.match_slash_default,
        ignore_case: o.switches.ignore_case_default,
    }
}

/// The patterns of backup files.
pub open spec fn backup_patterns() -> Seq<Seq<char>> {
    seq!["*~"@, ".#*"@, "#*#"@]
}

/// The names that version control systems use.
pub open spec fn vcs_names() -> Seq<Seq<char>> {
    seq![
        ".svn"@,
        ".bzr"@,
        ".git"@,
        ".hg"@,
        ".arch-ids"@,
        "{arch}"@,
        "=RELEASE-ID"@,
        "=meta-update"@,
        "=update"@,
        "CVS"@,
        ".gitignore"@,
        ".gitmodules"@,
        ".gitattributes"@,
        ".cvsignore"@,
        ".bzrignore"@,
        ".bzr-resolve"@,
        ".bzr-uncommitted"@,
        "_darcs"@,
        ".hgignore"@,
        ".hgsub"@,
        ".hgsubstate"@,
        ".hgtags"@,
        "_MTN"@,
        "SCCS"@,
        "RCS"@,
    ]
}

/// The settings after fixed exclusions.
pub open spec fn with_fixed(
    o: options::Settings,
    patterns: Seq<Seq<char>>,
    wildcards: bool,
) -> options::Settings {
    options::Settings {
        excludes: o.excludes + patterns.map_values(
            |p: Seq<char>| fixed_exclusion(o, p, wildcards),
        ),
        ..o
    }
}

/// The switches after an option without a value.
pub open spec fn switched(o: options::Switches, f: Flag) -> options::Switches {
    match f {
        Flag::Create => options::Switches { create: true, ..o },
        Flag::Extract => options::Switches { extract: true, ..o },
        Flag::List => options::Switches { list: true, ..o },
        Flag::Append => options::Switches { append: true, ..o },
        Flag::Update => options::Switches { update: true, ..o },
        Flag::Diff => options::Switches { diff: true, ..o },
        Flag::Delete => options::Switches { delete: true, ..o },
        Flag::TestLabel => options::Switches { test_label: true, ..o },
        Flag::Wildcards => options::Switches {
            wildcards_default: true,
            explicit_wildcards: true,
            ..o
        },
        Flag::NoWildcards => options::Switches {
            wildcards_default: false,
            explicit_wildcards: false,
            ..o
        },
        Flag::Anchored => options::Switches {
            anchored_default: true,
            explicit_anchored: Some(true),
            ..o
        },
        Flag::NoAnchored => options::Switches {
            anchored_default: false,
            explicit_anchored: Some(false),
            ..o
        },
        Flag::MatchSlash => options::Switches { match_slash_default: true, ..o },
        Flag::NoMatchSlash => options::Switches { match_slash_default: false, ..o },
        Flag::IgnoreCase => options::Switches { ignore_case_default: true, ..o },
        Flag::NoIgnoreCase => options::Switches { ignore_case_default: false, ..o },
        Flag::Verbose => options::Switches {
            verbose: true,
            verbose_level: if o.verbose_level < 255 {
                (o.verbose_level + 1) as u8
            } else {
                o.verbose_level
            },
            ..o
        },
        Flag::Compress(c) => options::Switches { compression: Some(c), ..o },
        Flag::PreservePermissions => options::Switches { preserve_permissions: true, ..o },
        Flag::NoSameOwner => options::Switches { no_same_owner: true, ..o },
        Flag::NoSamePermissions => options::Switches { no_same_permissions: true, ..o },
        Flag::NoRecursion => options::Switches { no_recursion: true, ..o },
        Flag::Dereference => options::Switches { dereference: true, ..o },
        Flag::AbsoluteNames => options::Switches { absolute_names: true, ..o },
        Flag::NumericOwner => options::Switches { numeric_owner: true, ..o },
        _ => o,
    }
}

/// The settings after an option without a value.
pub open spec fn flag_applied(o: options::Settings, f: Flag) -> options::Settings {
    match f {
        Flag::ExcludeBackups => with_fixed(o, backup_patterns(), true),
        Flag::ExcludeVcs => with_fixed(o, vcs_names(), false),
        Flag::ExcludeCaches(m) => options::Settings {
            cache_exclude: Some(("CACHEDIR.TAG"@, m)),
            ..o
        },
        _ => options::Settings { switches: switched(o.switches, f), ..o },
    }
}

/// The first of the pending words, if there is one.
pub open spec fn next_word(q: Seq<Seq<char>>) -> Option<Seq<char>> {
    if q.len() > 0 {
        Some(q[0])
    } else {
        None
    }
}

/// The pending words without the first.
pub open spec fn rest_of(q: Seq<Seq<char>>) -> Seq<Seq<char>> {
    if q.len() > 0 {
        q.drop_first()
    } else {
        q
    }
}

/// Reads a bundle of letters: options without a value one after the other, up
/// to one with a value, which is the rest of the bundle or else the next word.
pub open spec fn bundle(o: options::Settings, s: Seq<char>, q: Seq<Seq<char>>) -> (
    options::Settings,
    Seq<Seq<char>>,
    Happening,
)
    decreases s.len(),
{
    if s.len() == 0 {
        (o, q, Happening::Continue)
    } else {
        match words::letter(s[0]) {
            Letter::Flag(f) => bundle(flag_applied(o, f), s.drop_first(), q),
            Letter::Valued(t) => if s.len() > 1 {
                let (p, h) = assigned(o, t, Some(s.drop_first()));
                (p, q, h)
            } else {
                let (p, h) = assigned(o, t, next_word(q));
                (p, rest_of(q), h)
            },
            Letter::Unknown => (o, q, Happening::Failed(Fault::UnknownShort(s[0]))),
        }
    }
}

/// Reads one word; `q` are the words behind it.
pub open spec fn word_read(o: options::Settings, w: Seq<char>, q: Seq<Seq<char>>) -> (
    options::Settings,
    Seq<Seq<char>>,
    Happening,
) {
    if w == "--version"@ {
        (o, q, Happening::Version)
    } else if w == "--help"@ {
        (o, q, Happening::Help)
    } else if words::flag_named(w) is Some {
        (flag_applied(o, words::flag_named(w)->0), q, Happening::Continue)
    } else if words::setting_named(w) is Some {
        let (p, h) = assigned(o, words::setting_named(w)->0, next_word(q));
        (p, rest_of(q), h)
    } else if words::attached(w) is Some {
        let (s, v) = words::attached(w)->0;
        let (p, h) = assigned(o, s, Some(v));
        (p, q, h)
    } else if w.len() > 1 && w[0] == '-' && w[1] != '-' {
        bundle(o, w.drop_first(), q)
    } else if w.len() > 1 && w[0] == '-' {
        (o, q, Happening::Failed(Fault::Unrecognized(w)))
    } else {
        (options::with_path(o, w), q, Happening::Continue)
    }
}

pub proof fn lemma_bundle_shrinks(o: options::Settings, s: Seq<char>, q: Seq<Seq<char>>)
    ensures
        bundle(o, s, q).1.len() <= q.len(),
    decreases s.len(),
{
    if s.len() > 0 {
        match words::letter(s[0]) {
            Letter::Flag(f) => {
                lemma_bundle_shrinks(flag_applied(o, f), s.drop_first(), q);
            },
            _ => {},
        }
    }
}

/// Reads words until something happens or none is left.
pub open spec fn all_read(o: options::Settings, q: Seq<Seq<char>>) -> (
    options::Settings,
    Seq<Seq<char>>,
    Happening,
)
    decreases q.len(),
{
    if q.len() == 0 {
        (o, q, Happening::Done)
    } else {
        let (p, r, h) = word_read(o, q[0], q.drop_first());
        if h == Happening::Continue {
            proof {
                lemma_bundle_shrinks(o, q[0].drop_first(), q.drop_first());
            }
            all_read(p, r)
        } else {
            (p, r, h)
        }
    }
}

/// The letters that a leading word without a dash may hold.
pub open spec fn leading_letter(c: char) -> bool {
    "cxtrudvzjJfphoWkSUPTXbLIVHgG"@.contains(c)
}

/// The letters that take a value from the words behind a leading word.
pub open spec fn takes_value(c: char) -> bool {
    c == 'f' || c == 'C' || c == 'T' || c == 'X' || c == 'b' || c == 'L' || c == 'I' || c == 'V'
        || c == 'H' || c == 'g'
}

/// Whether the first word is a bundle of letters, with or without a dash. A bare
/// dash holds no letter and is a path.
pub open spec fn is_leading_bundle(w: Seq<char>) -> bool {
    &&& !"--"@.is_prefix_of(w)
    &&& text::trim_start_of(w, '-').len() > 0
    &&& forall|i: int|
        0 <= i < text::trim_start_of(w, '-').len() ==> leading_letter(
            #[trigger] text::trim_start_of(w, '-')[i],
        )
}

/// The letters without a value, each as a word of its own.
pub open spec fn plain_words(letters: Seq<char>) -> Seq<Seq<char>>
    decreases letters.len(),
{
    if letters.len() == 0 {
        seq![]
    } else if takes_value(letters.last()) {
        plain_words(letters.drop_last())
    } else {
        plain_words(letters.drop_last()).push(seq!['-', letters.last()])
    }
}

/// The letters with a value.
pub open spec fn value_letters(letters: Seq<char>) -> Seq<char>
    decreases letters.len(),
{
    if letters.len() == 0 {
        seq![]
    } else if takes_value(letters.last()) {
        value_letters(letters.drop_last()).push(letters.last())
    } else {
        value_letters(letters.drop_last())
    }
}

/// Each letter followed by its value, as long as there are words, and then the
/// words that are left.
pub open spec fn paired(letters: Seq<char>, q: Seq<Seq<char>>) -> Seq<Seq<char>>
    decreases letters.len(),
{
    if letters.len() == 0 {
        q
    } else if q.len() == 0 {
        seq![seq!['-', letters[0]]] + paired(letters.drop_first(), q)
    } else {
        seq![seq!['-', letters[0]], q[0]] + paired(letters.drop_first(), q.drop_first())
    }
}

/// The words of the command line, a leading bundle taken apart: first the
/// letters without a value, then those with one, each before its value.
pub open spec fn expanded(a: Seq<Seq<char>>) -> Seq<Seq<char>> {
    if a.len() > 0 && is_leading_bundle(a[0]) {
        let letters = text::trim_start_of(a[0], '-');
        plain_words(letters) + paired(value_letters(letters), a.drop_first())
    } else {
        a
    }
}

/// The paths in the lines of a file: without zero bytes at the end of a line,
/// and without empty lines.
pub open spec fn listed_paths(lines: Seq<Seq<char>>, marked: bool) -> Seq<Seq<char>>
    decreases lines.len(),
{
    if lines.len() == 0 {
        seq![]
    } else {
        let before = listed_paths(lines.drop_last(), marked);
        let line = text::trim_end_of(lines.last(), '\0');
        if line.len() == 0 {
            before
        } else if marked && "--add-file="@.is_prefix_of(line) {
            before.push(line.skip("--add-file="@.len() as int))
        } else {
            before.push(line)
        }
    }
}

/// The settings with more paths.
pub open spec fn with_paths(o: options::Settings, paths: Seq<Seq<char>>) -> options::Settings
    decreases paths.len(),
{
    if paths.len() == 0 {
        o
    } else {
        options::with_path(with_paths(o, paths.drop_last()), paths.last())
    }
}

/// The exclusions in the lines of a file, but for empty lines.
pub open spec fn listed_exclusions(o: options::Settings, lines: Seq<Seq<char>>) -> Seq<
    options::Exclusion,
>
    decreases lines.len(),
{
    if lines.len() == 0 {
        seq![]
    } else {
        let before = listed_exclusions(o, lines.drop_last());
        if lines.last().len() == 0 {
            before
        } else {
            before.push(exclusion(o, lines.last()))
        }
    }
}

/// The settings with the exclusions in the lines of a file behind the others.
pub open spec fn with_exclusions(o: options::Settings, lines: Seq<Seq<char>>) -> options::Settings {
    options::Settings { excludes: o.excludes + listed_exclusions(o, lines), ..o }
}

/// The settings after a transform expression, and what happens.
pub open spec fn transform_added(o: options::Settings, e: Seq<char>) -> (
    options::Settings,
    Happening,
) {
    if !transform::separator_readable(e) {
        (o, Happening::Failed(Fault::TransformSeparator))
    } else if !transform::is_substitution(e) {
        (o, Happening::Failed(Fault::Transform("unsupported transform expression: "@ + e)))
    } else {
        match transform::rule_of(e) {
            Some(t) => (
                options::Settings { transforms: o.transforms.push(t), ..o },
                Happening::Continue,
            ),
            None => (o, Happening::Failed(Fault::Transform("bad transform expression: "@ + e))),
        }
    }
}

/// The count of leading components that a word asks to strip: none where it is
/// no number.
pub open spec fn strip_count(s: Seq<char>) -> usize {
    match number::unsigned(s, 10, usize::MAX as int) {
        Some(k) => k as usize,
        None => 0,
    }
}

/// The settings after one that holds the value itself.
pub open spec fn stored(
    o: options::Settings,
    s: Setting,
    v: Option<Seq<char>>,
) -> options::Settings {
    match s {
        Setting::File => options::Settings { file: v, ..o },
        Setting::Directory => options::Settings { directory: v, ..o },
        Setting::Owner => options::Settings { owner: v, ..o },
        Setting::Group => options::Settings { group: v, ..o },
        Setting::Mode => options::Settings { mode_override: v, ..o },
        Setting::Label => options::Settings { label: v, ..o },
        Setting::Format { clear } => if v is Some || clear {
            options::Settings { format: v, ..o }
        } else {
            o
        },
        _ => o,
    }
}

/// The modification time that a word gives, if it can be interpreted.
pub open spec fn mtime_given(s: Seq<char>) -> Option<i64> {
    match mtime::mtime_argument(s) {
        Some(t) => Some(t as i64),
        None => None,
    }
}

/// Whether a setting without a value changes nothing.
pub open spec fn needs_value(s: Setting) -> bool {
    s is Exclude || s is Transform || s is StripComponents || s is Mtime || s is AddFile
        || s is ExcludeFrom || s is Sort || s is ExcludeTag
}

/// The switches after one that needs its value.
pub open spec fn switch_read(o: options::Switches, s: Setting, v: Seq<char>) -> options::Switches {
    match s {
        Setting::StripComponents => options::Switches { strip_components: strip_count(v), ..o },
        Setting::Mtime => options::Switches { mtime_override: mtime_given(v), ..o },
        Setting::Sort => options::Switches { sort_name: v == "name"@, ..o },
        _ => o,
    }
}

/// The settings after one that needs its value, and what happens.
pub open spec fn value_read(o: options::Settings, s: Setting, v: Seq<char>) -> (
    options::Settings,
    Happening,
) {
    match s {
        Setting::Exclude => (
            options::Settings { excludes: o.excludes.push(exclusion(o, v)), ..o },
            Happening::Continue,
        ),
        Setting::Transform => transform_added(o, v),
        Setting::AddFile => (options::with_path(o, v), Happening::Continue),
        Setting::ExcludeFrom => (o, Happening::ReadExcludes { file: v }),
        Setting::ExcludeTag(m) => (
            options::Settings { tag_excludes: o.tag_excludes.push((v, m)), ..o },
            Happening::Continue,
        ),
        _ => (
            options::Settings { switches: switch_read(o.switches, s, v), ..o },
            Happening::Continue,
        ),
    }
}

/// The settings after an option with a value, which may be missing, and what
/// happens.
pub open spec fn assigned(o: options::Settings, s: Setting, v: Option<Seq<char>>) -> (
    options::Settings,
    Happening,
) {
    if needs_value(s) {
        match v {
            Some(v) => value_read(o, s, v),
            None => (o, Happening::Continue),
        }
    } else {
        match s {
            Setting::FilesFrom { marked } => (
                options::Settings {
                    switches: options::Switches { files_from_used: true, ..o.switches },
                    ..o
                },
                match v {
                    Some(file) => Happening::ReadPaths { file, marked },
                    None => Happening::Continue,
                },
            ),
            Setting::PaxOption { hint } => (
                o,
                if o.format matches Some(f) && f != "posix"@ && f != "pax"@ {
                    Happening::Failed(Fault::PaxOption { hint })
                } else {
                    Happening::Continue
                },
            ),
            _ => (stored(o, s, v), Happening::Continue),
        }
    }
}

fn new_exclude(args: &Args, pattern: String) -> (r: ExcludeEntry)
    ensures
        r@ == exclusion(args@, pattern@),
{
    ExcludeEntry {
        pattern,
        wildcards: args.switches.wildcards_default,
        anchored: args.switches.anchored_default,
        match_slash: args.switches.match_slash_default,
        ignore_case: args.switches.ignore_case_default,
    }
}

fn push_exclude(args: Args, e: ExcludeEntry) -> (r: Args)
    ensures
        r@ == (options::Settings { excludes: args@.excludes.push(e@), ..args@ }),
{
    let ghost before = args.excludes@;
    let mut excludes = args.excludes;
    excludes.push(e);
    assert(options::exclusions(excludes@) =~= options::exclusions(before).push(e@));
    Args { excludes, ..args }
}

fn exclude_all(args: Args, patterns: &[&str], wildcards: bool) -> (r: Args)
    ensures
        r@ == with_fixed(args@, patterns@.map_values(|s: &str| s@), wildcards),
{
    let ghost o = args@;
    let ghost all = patterns@.map_values(|s: &str| s@);
    let ghost added = all.map_values(|p: Seq<char>| fixed_exclusion(o, p, wildcards));
    let match_slash = args.switches.match_slash_default;
    let ignore_case = args.switches.ignore_case_default;
    let mut excludes = args.excludes;
    assert(o.excludes + added.take(0) =~= o.excludes);
    for i in 0..patterns.len()
        invariant
            all == patterns@.map_values(|s: &str| s@),
            added == all.map_values(|p: Seq<char>| fixed_exclusion(o, p, wildcards)),
            match_slash == o.switches.match_slash_default,
            ignore_case == o.switches.ignore_case_default,
            options::exclusions(excludes@) == o.excludes + added.take(i as int),
    {
        let ghost before = excludes@;
        let e = ExcludeEntry {
            pattern: owned(patterns[i]),
            wildcards,
            anchored: false,
            match_slash,
            ignore_case,
        };
        excludes.push(e);
        assert(added[i as int] == e@);
        assert(options::exclusions(excludes@) =~= options::exclusions(before).push(e@));
        assert(o.excludes + added.take(i + 1) =~= (o.excludes + added.take(i as int)).push(e@));
    }
    assert(added.take(added.len() as int) =~= added);
    Args { excludes, ..args }
}

fn exclude_vcs(args: Args) -> (r: Args)
    ensures
        r@ == with_fixed(args@, vcs_names(), false),
{
    let names = [
        ".svn",
        ".bzr",
        ".git",
        ".hg",
        ".arch-ids",
        "{arch}",
        "=RELEASE-ID",
        "=meta-update",
        "=update",
        "CVS",
        ".gitignore",
        ".gitmodules",
        ".gitattributes",
        ".cvsignore",
        ".bzrignore",
        ".bzr-resolve",
        ".bzr-uncommitted",
        "_darcs",
        ".hgignore",
        ".hgsub",
        ".hgsubstate",
        ".hgtags",
        "_MTN",
        "SCCS",
        "RCS",
    ];
    assert(names@.map_values(|s: &str| s@) =~= vcs_names());
    exclude_all(args, names.as_slice(), false)
}

fn exclude_backups(args: Args) -> (r: Args)
    ensures
        r@ == with_fixed(args@, backup_patterns(), true),
{
    let patterns = ["*~", ".#*", "#*#"];
    assert(patterns@.map_values(|s: &str| s@) =~= backup_patterns());
    exclude_all(args, patterns.as_slice(), true)
}

fn exclude_caches(args: Args, mode: CacheExcludeMode) -> (r: Args)
    ensures
        r@ == (options::Settings { cache_exclude: Some(("CACHEDIR.TAG"@, mode)), ..args@ }),
{
    Args { cache_exclude: Some((owned("CACHEDIR.TAG"), mode)), ..args }
}

fn apply_flag(args: Args, f: Flag) -> (r: Args)
    ensures
        r@ == flag_applied(args@, f),
{
    match f {
        Flag::ExcludeBackups => exclude_backups(args),
        Flag::ExcludeVcs => exclude_vcs(args),
        Flag::ExcludeCaches(m) => exclude_caches(args, m),
        _ => Args { switches: set_switch(args.switches, f), ..args },
    }
}

fn set_switch(switches: Switches, f: Flag) -> (r: Switches)
    ensures
        r == switched(switches, f),
{
    match f {
        Flag::Create => Switches { create: true, ..switches },
        Flag::Extract => Switches { extract: true, ..switches },
        Flag::List => Switches { list: true, ..switches },
        Flag::Append => Switches { append: true, ..switches },
        Flag::Update => Switches { update: true, ..switches },
        Flag::Diff => Switches { diff: true, ..switches },
        Flag::Delete => Switches { delete: true, ..switches },
        Flag::TestLabel => Switches { test_label: true, ..switches },
        Flag::Wildcards => Switches {
            wildcards_default: true,
            explicit_wildcards: true,
            ..switches
        },
        Flag::NoWildcards => Switches {
            wildcards_default: false,
            explicit_wildcards: false,
            ..switches
        },
        Flag::Anchored => Switches {
            anchored_default: true,
            explicit_anchored: Some(true),
            ..switches
        },
        Flag::NoAnchored => Switches {
            anchored_default: false,
            explicit_anchored: Some(false),
            ..switches
        },
        Flag::MatchSlash => Switches { match_slash_default: true, ..switches },
        Flag::NoMatchSlash => Switches { match_slash_default: false, ..switches },
        Flag::IgnoreCase => Switches { ignore_case_default: true, ..switches },
        Flag::NoIgnoreCase => Switches { ignore_case_default: false, ..switches },
        Flag::Verbose => {
            let level: u8 = if switches.verbose_level < 255 {
                switches.verbose_level + 1
            } else {
                switches.verbose_level
            };
            Switches { verbose: true, verbose_level: level, ..switches }
        },
        Flag::Compress(c) => Switches { compression: Some(c), ..switches },
        Flag::PreservePermissions => Switches { preserve_permissions: true, ..switches },
        Flag::NoSameOwner => Switches { no_same_owner: true, ..switches },
        Flag::NoSamePermissions => Switches { no_same_permissions: true, ..switches },
        Flag::NoRecursion => Switches { no_recursion: true, ..switches },
        Flag::Dereference => Switches { dereference: true, ..switches },
        Flag::AbsoluteNames => Switches { absolute_names: true, ..switches },
        Flag::NumericOwner => Switches { numeric_owner: true, ..switches },
        _ => switches,
    }
}

fn add_transform(args: Args, t: Transform) -> (r: Args)
    ensures
        r@ == (options::Settings { transforms: args@.transforms.push(t@), ..args@ }),
{
    let ghost before = args.transforms@;
    let mut transforms = args.transforms;
    transforms.push(t);
    assert(transform::rules_of(transforms@) =~= transform::rules_of(before).push(t@));
    Args { transforms, ..args }
}

fn read_transform(args: Args, expr: String) -> (r: (Args, Event))
    ensures
        (r.0@, r.1@) == transform_added(args@, expr@),
{
    let chars = to_chars(expr.as_str());
    if chars.len() > 0 && chars[0] == 's' && expr.as_str().as_bytes().len() >= 4 && (chars.len() < 2
        || chars[1] as u32 >= 0x80) {
        return (args, Event::Failed(UsageError::TransformSeparator));
    }
    match parse_transform(expr.as_str()) {
        Ok(t) => (add_transform(args, t), Event::Continue),
        Err(e) => (args, Event::Failed(UsageError::Transform(e))),
    }
}

fn read_strip(value: String) -> (r: usize)
    ensures
        r == strip_count(value@),
{
    let chars = to_chars(value.as_str());
    match parse_unsigned(&chars, 10, usize::MAX as u64) {
        Some(n) => n as usize,
        None => 0,
    }
}

fn read_switch(switches: Switches, s: Setting, v: String) -> (r: Switches)
    ensures
        r == switch_read(switches, s, v@),
{
    match s {
        Setting::StripComponents => Switches { strip_components: read_strip(v), ..switches },
        Setting::Mtime => Switches { mtime_override: parse_mtime_arg(v.as_str()), ..switches },
        Setting::Sort => Switches { sort_name: same(v.as_str(), "name"), ..switches },
        _ => switches,
    }
}

fn add_tag(args: Args, tag: String, mode: CacheExcludeMode) -> (r: Args)
    ensures
        r@ == (options::Settings {
            tag_excludes: args@.tag_excludes.push((tag@, mode)),
            ..args@
        }),
{
    let ghost before = args.tag_excludes@;
    let mut tag_excludes = args.tag_excludes;
    tag_excludes.push((tag, mode));
    assert(options::tag_views(tag_excludes@) =~= options::tag_views(before).push((tag@, mode)));
    Args { tag_excludes, ..args }
}

fn push_path(args: Args, path: String) -> (r: Args)
    ensures
        r@ == options::with_path(args@, path@),
{
    let ghost before = args@;
    let directory = copied(&args.directory);
    let mut paths = args.paths;
    let mut path_directories = args.path_directories;
    paths.push(path);
    path_directories.push(directory);
    assert(text::views(paths@) =~= before.paths.push(path@));
    assert(text::opt_views(path_directories@) =~= before.path_directories.push(
        before.directory,
    ));
    Args { paths, path_directories, ..args }
}

fn pax_forbidden(args: &Args) -> (r: bool)
    ensures
        r == (args@.format matches Some(f) && f != "posix"@ && f != "pax"@),
{
    match &args.format {
        Some(f) => !same(f.as_str(), "posix") && !same(f.as_str(), "pax"),
        None => false,
    }
}

fn store(args: Args, s: Setting, value: Option<String>) -> (r: Args)
    ensures
        r@ == stored(args@, s, text::opt_view(value)),
{
    match s {
        Setting::File => Args { file: value, ..args },
        Setting::Directory => Args { directory: value, ..args },
        Setting::Owner => Args { owner: value, ..args },
        Setting::Group => Args { group: value, ..args },
        Setting::Mode => Args { mode_override: value, ..args },
        Setting::Label => Args { label: value, ..args },
        Setting::Format { clear } => {
            if clear || value.is_some() {
                Args { format: value, ..args }
            } else {
                args
            }
        },
        _ => args,
    }
}

fn read_value(args: Args, s: Setting, v: String) -> (r: (Args, Event))
    ensures
        (r.0@, r.1@) == value_read(args@, s, v@),
{
    match s {
        Setting::Exclude => {
            let e = new_exclude(&args, v);
            (push_exclude(args, e), Event::Continue)
        },
        Setting::Transform => read_transform(args, v),
        Setting::AddFile => (push_path(args, v), Event::Continue),
        Setting::ExcludeFrom => (args, Event::ReadExcludes { file: v }),
        Setting::ExcludeTag(m) => (add_tag(args, v, m), Event::Continue),
        _ => (Args { switches: read_switch(args.switches, s, v), ..args }, Event::Continue),
    }
}

fn assign(args: Args, s: Setting, value: Option<String>) -> (r: (Args, Event))
    ensures
        (r.0@, r.1@) == assigned(args@, s, text::opt_view(value)),
{
    match s {
        Setting::FilesFrom { marked } => {
            let switches = Switches { files_from_used: true, ..args.switches };
            let args = Args { switches, ..args };
            match value {
                Some(file) => (args, Event::ReadPaths { file, marked }),
                None => (args, Event::Continue),
            }
        },
        Setting::PaxOption { hint } => {
            if pax_forbidden(&args) {
                (args, Event::Failed(UsageError::PaxOption { hint }))
            } else {
                (args, Event::Continue)
            }
        },
        Setting::Exclude | Setting::Transform | Setting::StripComponents | Setting::Mtime
        | Setting::AddFile | Setting::ExcludeFrom | Setting::Sort | Setting::ExcludeTag(_) => {
            match value {
                Some(v) => read_value(args, s, v),
                None => (args, Event::Continue),
            }
        },
        _ => (store(args, s, value), Event::Continue),
    }
}

/// The settings so far and the words that are still to be read.
pub struct ArgParser {
    pub args: Args,
    pub queue: VecDeque<String>,
}

fn pop(queue: &mut VecDeque<String>) -> (r: Option<String>)
    ensures
        text::opt_view(r) == next_word(text::views(old(queue)@)),
        text::views(final(queue)@) == rest_of(text::views(old(queue)@)),
{
    let r = queue.pop_front();
    assert(text::views(queue@) =~= rest_of(text::views(old(queue)@)));
    r
}

fn read_bundle(start: Args, letters: &[char], queue: &mut VecDeque<String>) -> (r: (Args, Event))
    ensures
        (r.0@, text::views(final(queue)@), r.1@) == bundle(
            start@,
            letters@,
            text::views(old(queue)@),
        ),
{
    let ghost q = text::views(queue@);
    let mut args = start;
    let mut i: usize = 0;
    assert(letters@.skip(0) =~= letters@);
    while i < letters.len()
        invariant
            i <= letters.len(),
            q == text::views(old(queue)@),
            text::views(queue@) == q,
            bundle(args@, letters@.skip(i as int), q) == bundle(start@, letters@, q),
        decreases letters.len() - i,
    {
        let ghost rest = letters@.skip(i as int);
        assert(rest.drop_first() =~= letters@.skip(i + 1));
        match letter_of(letters[i]) {
            Letter::Flag(f) => {
                args = apply_flag(args, f);
            },
            Letter::Valued(s) => {
                if i + 1 < letters.len() {
                    let tail = slice_subrange(letters, i + 1, letters.len());
                    assert(tail@ =~= rest.drop_first());
                    return assign(args, s, Some(from_chars(tail)));
                }
                let value = pop(queue);
                return assign(args, s, value);
            },
            Letter::Unknown => {
                return (args, Event::Failed(UsageError::UnknownShort(letters[i])));
            },
        }
        i = i + 1;
    }
    (args, Event::Continue)
}

fn read_word(args: Args, word: String, queue: &mut VecDeque<String>) -> (r: (Args, Event))
    ensures
        (r.0@, text::views(final(queue)@), r.1@) == word_read(
            args@,
            word@,
            text::views(old(queue)@),
        ),
{
    let chars = to_chars(word.as_str());
    if same(word.as_str(), "--version") {
        return (args, Event::Version);
    }
    if same(word.as_str(), "--help") {
        return (args, Event::Help);
    }
    if let Some(f) = flag_of(&chars) {
        return (apply_flag(args, f), Event::Continue);
    }
    if let Some(s) = setting_of(&chars) {
        let value = pop(queue);
        return assign(args, s, value);
    }
    if let Some((s, v)) = attached_value(&chars) {
        return assign(args, s, Some(v));
    }
    if chars.len() > 1 && chars[0] == '-' {
        if chars[1] != '-' {
            let letters = slice_subrange(chars.as_slice(), 1, chars.len());
            assert(letters@ =~= word@.drop_first());
            return read_bundle(args, letters, queue);
        }
        return (args, Event::Failed(UsageError::Unrecognized(word)));
    }
    (push_path(args, word), Event::Continue)
}

impl ArgParser {
    /// The words that are still to be read.
    pub open spec fn pending(&self) -> Seq<Seq<char>> {
        text::views(self.queue@)
    }

    /// Reads words until something happens or none is left.
    pub fn advance(self) -> (r: (ArgParser, Event))
        ensures
            (r.0.args@, r.0.pending(), r.1@) == all_read(self.args@, self.pending()),
            !(r.1 is Continue),
    {
        let mut args = self.args;
        let mut queue = self.queue;
        loop
            invariant
                all_read(args@, text::views(queue@)) == all_read(self.args@, self.pending()),
            decreases queue@.len(),
        {
            let ghost before = text::views(queue@);
            match pop(&mut queue) {
                None => {
                    return (ArgParser { args, queue }, Event::Done);
                },
                Some(word) => {
                    proof {
                        lemma_bundle_shrinks(args@, before[0].drop_first(), before.drop_first());
                    }
                    let (next, event) = read_word(args, word, &mut queue);
                    match event {
                        Event::Continue => {
                            args = next;
                        },
                        _ => {
                            return (ArgParser { args: next, queue }, event);
                        },
                    }
                },
            }
        }
    }

    /// Takes the paths from the lines of a file.
    pub fn take_paths(self, content: &str, marked: bool) -> (r: ArgParser)
        ensures
            r.pending() == self.pending(),
            r.args@ == with_paths(self.args@, listed_paths(text::lines(content@), marked)),
    {
        let found = split_lines(content);
        let mut args = self.args;
        let ghost o = args@;
        let ghost all = text::char_views(found@);
        for i in 0..found.len()
            invariant
                all == text::char_views(found@),
                args@ == with_paths(o, listed_paths(all.take(i as int), marked)),
        {
            let line = trim_end_char(&found[i], '\0');
            let ghost here = all.take(i + 1);
            let ghost before = listed_paths(all.take(i as int), marked);
            assert(here.drop_last() =~= all.take(i as int));
            assert(here.last() == found@[i as int]@);
            if line.len() > 0 {
                let whole = from_chars(line);
                let path = if marked {
                    match strip_prefix(whole.as_str(), "--add-file=") {
                        Some(path) => path,
                        None => whole,
                    }
                } else {
                    whole
                };
                args = push_path(args, path);
                assert(before.push(path@).drop_last() =~= before);
            }
        }
        assert(all.take(all.len() as int) =~= all);
        ArgParser { args, queue: self.queue }
    }

    /// Takes the patterns to leave out from the lines of a file.
    pub fn take_excludes(self, content: &str) -> (r: ArgParser)
        ensures
            r.pending() == self.pending(),
            r.args@ == with_exclusions(self.args@, text::lines(content@)),
    {
        let found = split_lines(content);
        let ghost o = self.args@;
        let ghost all = text::char_views(found@);
        let mut args = self.args;
        assert(o.excludes + listed_exclusions(o, all.take(0)) =~= o.excludes);
        for i in 0..found.len()
            invariant
                all == text::char_views(found@),
                args@ == with_exclusions(o, all.take(i as int)),
        {
            let ghost here = all.take(i + 1);
            let ghost before = listed_exclusions(o, all.take(i as int));
            assert(here.drop_last() =~= all.take(i as int));
            assert(here.last() == found@[i as int]@);
            if found[i].len() > 0 {
                let e = new_exclude(&args, from_chars(&found[i]));
                args = push_exclude(args, e);
                assert(args@.excludes =~= o.excludes + before.push(e@));
            }
        }
        assert(all.take(all.len() as int) =~= all);
        ArgParser { args, queue: self.queue }
    }
}

fn is_leading_letter(c: char) -> (r: bool)
    ensures
        r == leading_letter(c),
{
    let letters = to_chars("cxtrudvzjJfphoWkSUPTXbLIVHgG");
    contains_char(&letters, c)
}

fn is_value_letter(c: char) -> (r: bool)
    ensures
        r == takes_value(c),
{
    c == 'f' || c == 'C' || c == 'T' || c == 'X' || c == 'b' || c == 'L' || c == 'I' || c == 'V'
        || c == 'H' || c == 'g'
}

fn is_bundle(w: &[char]) -> (r: bool)
    ensures
        r == is_leading_bundle(w@),
{
    let dashes = to_chars("--");
    if starts_with(w, &dashes) {
        return false;
    }
    let letters = trim_start_char(w, '-');
    if letters.len() == 0 {
        return false;
    }
    for i in 0..letters.len()
        invariant
            letters@ == text::trim_start_of(w@, '-'),
            forall|j: int| 0 <= j < i ==> leading_letter(#[trigger] letters@[j]),
    {
        if !is_leading_letter(letters[i]) {
            assert(!leading_letter(letters@[i as int]));
            return false;
        }
    }
    true
}

fn dashed(c: char) -> (r: String)
    ensures
        r@ == seq!['-', c],
{
    let mut s = String::new();
    s.push('-');
    s.push(c);
    assert(s@ =~= seq!['-', c]);
    s
}

/// Takes a leading bundle apart and queues its letters and the words behind it.
fn expand(argv: Vec<String>) -> (r: VecDeque<String>)
    ensures
        text::views(r@) == expanded(text::views(argv@)),
{
    let ghost a = text::views(argv@);
    let mut queue: VecDeque<String> = VecDeque::new();
    let mut next: usize = 0;
    assert(text::views(queue@) =~= Seq::empty());
    let ghost mut front: Seq<Seq<char>> = seq![];
    if argv.len() > 0 {
        let first = to_chars(argv[0].as_str());
        assert(a[0] == first@);
        if is_bundle(&first) {
            let letters = trim_start_char(&first, '-');
            next = 1;
            let mut takers: Vec<char> = Vec::new();
            for i in 0..letters.len()
                invariant
                    text::views(queue@) == plain_words(letters@.take(i as int)),
                    takers@ == value_letters(letters@.take(i as int)),
            {
                let ghost here = letters@.take(i + 1);
                let ghost before = text::views(queue@);
                assert(here.drop_last() =~= letters@.take(i as int));
                if is_value_letter(letters[i]) {
                    takers.push(letters[i]);
                } else {
                    queue.push_back(dashed(letters[i]));
                    assert(text::views(queue@) =~= before.push(seq!['-', letters@[i as int]]));
                }
            }
            assert(letters@.take(letters@.len() as int) =~= letters@);
            proof {
                front = plain_words(letters@);
            }
            let ghost plain = front;
            let ghost all = paired(takers@, a.drop_first());
            assert(takers@.skip(0) =~= takers@);
            assert(a.skip(1) =~= a.drop_first());
            assert(plain + all =~= text::views(queue@) + paired(takers@.skip(0), a.skip(1)));
            for i in 0..takers.len()
                invariant
                    1 <= next <= argv.len(),
                    a == text::views(argv@),
                    text::views(queue@) + paired(takers@.skip(i as int), a.skip(next as int))
                        == plain + all,
            {
                let ghost left = takers@.skip(i as int);
                let ghost rest = a.skip(next as int);
                let ghost before = text::views(queue@);
                assert(left.drop_first() =~= takers@.skip(i + 1));
                let word = dashed(takers[i]);
                queue.push_back(word);
                assert(text::views(queue@) =~= before.push(word@));
                if next < argv.len() {
                    queue.push_back(argv[next].clone());
                    assert(rest[0] == argv@[next as int]@);
                    assert(text::views(queue@) =~= before.push(word@).push(rest[0]));
                    assert(rest.drop_first() =~= a.skip(next + 1));
                    assert(text::views(queue@) + paired(takers@.skip(i + 1), a.skip(next + 1))
                        =~= before + paired(left, rest));
                    next = next + 1;
                } else {
                    assert(text::views(queue@) + paired(takers@.skip(i + 1), rest) =~= before
                        + paired(left, rest));
                }
            }
            assert(takers@.skip(takers@.len() as int) =~= seq![]);
            assert(expanded(a) == plain + all);
        }
    }
    let ghost done = text::views(queue@);
    assert(done + a.skip(next as int) =~= expanded(a));
    for i in next..argv.len()
        invariant
            next <= argv.len(),
            a == text::views(argv@),
            text::views(queue@) == done + a.subrange(next as int, i as int),
    {
        let ghost before = text::views(queue@);
        queue.push_back(argv[i].clone());
        assert(text::views(queue@) =~= before.push(a[i as int]));
        assert(a.subrange(next as int, i + 1) =~= a.subrange(next as int, i as int).push(
            a[i as int],
        ));
    }
    assert(a.subrange(next as int, a.len() as int) =~= a.skip(next as int));
    queue
}

/// The words to read: those of the default options, and behind them those of the
/// command line, a leading bundle taken apart.
pub open spec fn words_given(defaults: Option<Seq<char>>, argv: Seq<Seq<char>>) -> Seq<Seq<char>> {
    (match defaults {
        Some(d) => text::words(d),
        None => seq![],
    }) + expanded(argv)
}

/// Starts to read the command line, without the name of the program, and the
/// words of the environment's default options before it.
pub fn parse_args(argv: Vec<String>, default_options: Option<String>) -> (r: ArgParser)
    ensures
        r.args@ == options::initial(),
        r.pending() == words_given(text::opt_view(default_options), text::views(argv@)),
{
    let ghost e = expanded(text::views(argv@));
    let mut queue = expand(argv);
    let mut all: VecDeque<String> = VecDeque::new();
    assert(text::views(all@) =~= Seq::empty());
    if let Some(d) = default_options {
        let found = split_words(d.as_str());
        let ghost w = text::views(found@);
        for i in 0..found.len()
            invariant
                w == text::views(found@),
                text::views(all@) == w.take(i as int),
        {
            let ghost before = text::views(all@);
            all.push_back(found[i].clone());
            assert(text::views(all@) =~= before.push(w[i as int]));
            assert(w.take(i + 1) =~= w.take(i as int).push(w[i as int]));
        }
        assert(w.take(w.len() as int) =~= w);
    }
    let ghost before = text::views(all@);
    all.append(&mut queue);
    assert(text::views(all@) =~= before + e);
    ArgParser { args: Args::new(), queue: all }
}

/// The lines that report an error on the command line.
pub fn usage_error_lines(e: &UsageError) -> (r: Vec<String>)
    requires
        !(*e is TransformSeparator),
    ensures
        text::views(r@) == fault_lines(e@),
{
    let mut lines: Vec<String> = Vec::new();
    match e {
        UsageError::Transform(m) => {
            lines.push(concat("tar: ", m.as_str()));
        },
        UsageError::TransformSeparator => {},
        UsageError::PaxOption { hint } => {
            lines.push(owned("tar: --pax-option can be used only on POSIX archives"));
            if *hint {
                lines.push(owned("Try 'tar --help' or 'tar --usage' for more information."));
            }
        },
        UsageError::UnknownShort(c) => {
            let mut line = owned("tar: unknown option: -");
            line.push(*c);
            lines.push(line);
        },
        UsageError::Unrecognized(w) => {
            lines.push(concat("tar: unrecognized option: ", w.as_str()));
        },
    }
    assert(text::views(lines@) =~= fault_lines(e@));
    lines
}

pub open spec fn fault_lines(e: Fault) -> Seq<Seq<char>> {
    match e {
        Fault::Transform(m) => seq!["tar: "@ + m],
        Fault::TransformSeparator => seq![],
        Fault::PaxOption { hint } => if hint {
            seq![
                "tar: --pax-option can be used only on POSIX archives"@,
                "Try 'tar --help' or 'tar --usage' for more information."@,
            ]
        } else {
            seq!["tar: --pax-option can be used only on POSIX archives"@]
        },
        Fault::UnknownShort(c) => seq!["tar: unknown option: -"@.push(c)],
        Fault::Unrecognized(w) => seq!["tar: unrecognized option: "@ + w],
    }
}

/// A leading word of letters means the same with and without a dash.
pub proof fn law_leading_dash_optional(w: Seq<char>, rest: Seq<Seq<char>>)
    requires
        w.len() > 0,
        forall|i: int| 0 <= i < w.len() ==> leading_letter(#[trigger] w[i]),
    ensures
        expanded(seq![seq!['-'] + w] + rest) == expanded(seq![w] + rest),
{
    reveal_strlit("--");
    reveal_strlit("cxtrudvzjJfphoWkSUPTXbLIVHgG");
    let d = seq!['-'] + w;
    assert(leading_letter(w[0]));
    assert(w[0] != '-');
    assert(d.drop_first() =~= w);
    assert(text::trim_start_of(w, '-') == w);
    assert(text::trim_start_of(d, '-') == w);
    assert(!"--"@.is_prefix_of(d)) by {
        if "--"@.is_prefix_of(d) {
            assert("--"@[1] == d[1]);
        }
    }
    assert(!"--"@.is_prefix_of(w)) by {
        if "--"@.is_prefix_of(w) {
            assert("--"@[0] == w[0]);
        }
    }
    assert((seq![d] + rest).drop_first() =~= rest);
    assert((seq![w] + rest).drop_first() =~= rest);
}

/// The letters of a bundle that take no value are read one after the other.
pub proof fn law_bundle_in_order(
    o: options::Settings,
    first: Seq<char>,
    second: Seq<char>,
    q: Seq<Seq<char>>,
)
    requires
        forall|i: int| 0 <= i < first.len() ==> words::letter(#[trigger] first[i]) is Flag,
    ensures
        bundle(o, first, q).1 == q,
        bundle(o, first + second, q) == bundle(bundle(o, first, q).0, second, q),
    decreases first.len(),
{
    if first.len() == 0 {
        assert(first + second =~= second);
    } else {
        assert(words::letter(first[0]) is Flag);
        let rest = first.drop_first();
        assert((first + second).drop_first() =~= rest + second);
        assert(forall|i: int| 0 <= i < rest.len() ==> rest[i] == first[i + 1]);
        law_bundle_in_order(flag_applied(o, words::letter(first[0])->Flag_0), rest, second, q);
    }
}

/// A value means the same behind the name of its option, in one word, and as
/// the next word.
pub proof fn law_value_attached_or_next(
    o: options::Settings,
    w: Seq<char>,
    name: Seq<char>,
    s: Setting,
    v: Seq<char>,
    q: Seq<Seq<char>>,
)
    requires
        w != "--version"@ && w != "--help"@,
        words::flag_named(w) is None,
        words::setting_named(w) is None,
        words::attached(w) == Some((s, v)),
        name != "--version"@ && name != "--help"@,
        words::flag_named(name) is None,
        words::setting_named(name) == Some(s),
    ensures
        word_read(o, w, q) == word_read(o, name, seq![v] + q),
{
    let more = seq![v] + q;
    assert(more.drop_first() =~= q);
}

/// Whether the lists of `o` begin those of `p`.
pub open spec fn lists_kept(o: options::Settings, p: options::Settings) -> bool {
    &&& o.paths.is_prefix_of(p.paths)
    &&& o.path_directories.is_prefix_of(p.path_directories)
    &&& o.excludes.is_prefix_of(p.excludes)
    &&& o.transforms.is_prefix_of(p.transforms)
    &&& o.tag_excludes.is_prefix_of(p.tag_excludes)
}

proof fn lemma_prefix<T>(a: Seq<T>, b: Seq<T>, c: Seq<T>, x: T)
    ensures
        a.is_prefix_of(a),
        a.is_prefix_of(a.push(x)),
        a.is_prefix_of(a + b),
        a.is_prefix_of(b) && b.is_prefix_of(c) ==> a.is_prefix_of(c),
{
    assert(a =~= a.subrange(0, a.len() as int));
    assert(a =~= a.push(x).subrange(0, a.len() as int));
    assert(a =~= (a + b).subrange(0, a.len() as int));
    if a.is_prefix_of(b) && b.is_prefix_of(c) {
        assert(a =~= c.subrange(0, a.len() as int));
    }
}

proof fn lemma_lists_kept(o: options::Settings, p: options::Settings, r: options::Settings)
    ensures
        lists_kept(o, o),
        lists_kept(o, p) && lists_kept(p, r) ==> lists_kept(o, r),
{
    lemma_prefix(o.paths, p.paths, r.paths, seq![]);
    lemma_prefix(o.path_directories, p.path_directories, r.path_directories, None);
    lemma_prefix(o.excludes, p.excludes, r.excludes, exclusion(o, seq![]));
    let t = transform::Rule { pattern: seq![], replacement: seq![], global: false };
    lemma_prefix(o.transforms, p.transforms, r.transforms, t);
    let tag = (Seq::<char>::empty(), CacheExcludeMode::Normal);
    lemma_prefix(o.tag_excludes, p.tag_excludes, r.tag_excludes, tag);
}

proof fn lemma_path_kept(o: options::Settings, w: Seq<char>)
    ensures
        lists_kept(o, options::with_path(o, w)),
{
    lemma_lists_kept(o, o, o);
    lemma_prefix(o.paths, o.paths, o.paths, w);
    let d = o.path_directories;
    lemma_prefix(d, d, d, o.directory);
}

proof fn lemma_flag_keeps(o: options::Settings, f: Flag)
    ensures
        lists_kept(o, flag_applied(o, f)),
{
    lemma_lists_kept(o, o, o);
    match f {
        Flag::ExcludeBackups => {
            let added = backup_patterns().map_values(|p: Seq<char>| fixed_exclusion(o, p, true));
            lemma_prefix(o.excludes, added, added, added[0]);
        },
        Flag::ExcludeVcs => {
            let added = vcs_names().map_values(|p: Seq<char>| fixed_exclusion(o, p, false));
            lemma_prefix(o.excludes, added, added, added[0]);
        },
        _ => {},
    }
}

proof fn lemma_assigned_keeps(o: options::Settings, s: Setting, v: Option<Seq<char>>)
    ensures
        lists_kept(o, assigned(o, s, v).0),
{
    lemma_lists_kept(o, o, o);
    match v {
        Some(w) => {
            lemma_path_kept(o, w);
            lemma_prefix(o.excludes, o.excludes, o.excludes, exclusion(o, w));
            match transform::rule_of(w) {
                Some(t) => {
                    lemma_prefix(o.transforms, o.transforms, o.transforms, t);
                },
                None => {},
            }
            match s {
                Setting::ExcludeTag(m) => {
                    lemma_prefix(o.tag_excludes, o.tag_excludes, o.tag_excludes, (w, m));
                },
                _ => {},
            }
        },
        None => {},
    }
}

proof fn lemma_bundle_keeps(o: options::Settings, s: Seq<char>, q: Seq<Seq<char>>)
    ensures
        lists_kept(o, bundle(o, s, q).0),
    decreases s.len(),
{
    lemma_lists_kept(o, o, o);
    if s.len() > 0 {
        match words::letter(s[0]) {
            Letter::Flag(f) => {
                let p = flag_applied(o, f);
                lemma_flag_keeps(o, f);
                lemma_bundle_keeps(p, s.drop_first(), q);
                lemma_lists_kept(o, p, bundle(o, s, q).0);
            },
            Letter::Valued(t) => {
                lemma_assigned_keeps(o, t, Some(s.drop_first()));
                lemma_assigned_keeps(o, t, next_word(q));
            },
            Letter::Unknown => {},
        }
    }
}

proof fn lemma_word_keeps(o: options::Settings, w: Seq<char>, q: Seq<Seq<char>>)
    ensures
        lists_kept(o, word_read(o, w, q).0),
{
    lemma_lists_kept(o, o, o);
    lemma_bundle_keeps(o, w.drop_first(), q);
    lemma_path_kept(o, w);
    match words::flag_named(w) {
        Some(f) => lemma_flag_keeps(o, f),
        None => {},
    }
    match words::setting_named(w) {
        Some(s) => lemma_assigned_keeps(o, s, next_word(q)),
        None => {},
    }
    match words::attached(w) {
        Some((s, v)) => lemma_assigned_keeps(o, s, Some(v)),
        None => {},
    }
}

/// Paths and the directories that go with them, exclusions, transforms and tags
/// that were given stay as they were, in their order, whatever is read after
/// them.
pub proof fn law_given_lists_stay(o: options::Settings, q: Seq<Seq<char>>)
    ensures
        lists_kept(o, all_read(o, q).0),
    decreases q.len(),
{
    lemma_lists_kept(o, o, o);
    if q.len() > 0 {
        let (p, r, h) = word_read(o, q[0], q.drop_first());
        lemma_word_keeps(o, q[0], q.drop_first());
        lemma_bundle_shrinks(o, q[0].drop_first(), q.drop_first());
        if h == Happening::Continue {
            law_given_lists_stay(p, r);
            lemma_lists_kept(o, p, all_read(o, q).0);
        }
    }
}

/// Whether each path goes with a directory of its own.
pub open spec fn paths_placed(o: options::Settings) -> bool {
    o.paths.len() == o.path_directories.len()
}

proof fn lemma_bundle_placed(o: options::Settings, s: Seq<char>, q: Seq<Seq<char>>)
    requires
        paths_placed(o),
    ensures
        paths_placed(bundle(o, s, q).0),
    decreases s.len(),
{
    if s.len() > 0 {
        match words::letter(s[0]) {
            Letter::Flag(f) => lemma_bundle_placed(flag_applied(o, f), s.drop_first(), q),
            _ => {},
        }
    }
}

/// Every path that is read goes with a directory, and so do those that a list
/// gives.
pub proof fn law_paths_placed(o: options::Settings, q: Seq<Seq<char>>, listed: Seq<Seq<char>>)
    requires
        paths_placed(o),
    ensures
        paths_placed(options::initial()),
        paths_placed(all_read(o, q).0),
        paths_placed(with_paths(o, listed)),
        with_paths(o, listed).paths == o.paths + listed,
        forall|i: int|
            o.paths.len() <= i < o.paths.len() + listed.len()
                ==> #[trigger] with_paths(o, listed).path_directories[i] == o.directory,
    decreases q.len(), listed.len(),
{
    if q.len() > 0 {
        let (p, r, h) = word_read(o, q[0], q.drop_first());
        lemma_bundle_placed(o, q[0].drop_first(), q.drop_first());
        lemma_bundle_shrinks(o, q[0].drop_first(), q.drop_first());
        if h == Happening::Continue {
            law_paths_placed(p, r, seq![]);
        }
        law_paths_placed(o, seq![], listed);
    } else if listed.len() > 0 {
        law_paths_placed(o, q, listed.drop_last());
        lemma_with_paths(o, listed.drop_last());
        assert(with_paths(o, listed).paths =~= o.paths + listed);
    } else {
        assert(with_paths(o, listed).paths =~= o.paths + listed);
    }
}

proof fn lemma_with_paths(o: options::Settings, listed: Seq<Seq<char>>)
    ensures
        with_paths(o, listed).directory == o.directory,
    decreases listed.len(),
{
    if listed.len() > 0 {
        lemma_with_paths(o, listed.drop_last());
    }
}

/// A path goes with the directory that was given last before it, whatever
/// directory is given after it.
pub proof fn law_directories_positional(
    o: options::Settings,
    dir: Seq<char>,
    path: Seq<char>,
    q: Seq<Seq<char>>,
)
    requires
        paths_placed(o),
    ensures
        ({
            let p = options::with_path(options::Settings { directory: Some(dir), ..o }, path);
            let r = all_read(p, q).0;
            &&& assigned(o, Setting::Directory, Some(dir)).0 == (options::Settings {
                directory: Some(dir),
                ..o
            })
            &&& r.paths.len() > o.paths.len()
            &&& r.paths[o.paths.len() as int] == path
            &&& options::directory_of(r, o.paths.len() as int) == Some(dir)
        }),
{
    let p = options::with_path(options::Settings { directory: Some(dir), ..o }, path);
    let r = all_read(p, q).0;
    let n = o.paths.len() as int;
    law_given_lists_stay(p, q);
    assert(p.paths[n] == r.paths.subrange(0, p.paths.len() as int)[n]);
    assert(p.path_directories[n] == r.path_directories.subrange(
        0,
        p.path_directories.len() as int,
    )[n]);
}

/// Each operation is asked for after an option where it was before or the option is
/// its own.
#[verifier::spinoff_prover]
pub proof fn law_operation_switches(s: options::Settings, f: Flag)
    ensures
        ({
            let o = s.switches;
            let p = flag_applied(s, f).switches;
            &&& p.create <==> o.create || f is Create
            &&& p.extract <==> o.extract || f is Extract
            &&& p.list <==> o.list || f is List
            &&& p.append <==> o.append || f is Append
            &&& p.update <==> o.update || f is Update
            &&& p.diff <==> o.diff || f is Diff
            &&& p.delete <==> o.delete || f is Delete
            &&& p.test_label <==> o.test_label || f is TestLabel
        }),
{
    match f {
        Flag::Create => {},
        Flag::Extract => {},
        Flag::List => {},
        Flag::Append => {},
        Flag::Update => {},
        Flag::Diff => {},
        Flag::Delete => {},
        Flag::TestLabel => {},
        Flag::Wildcards => {},
        Flag::NoWildcards => {},
        Flag::Anchored => {},
        Flag::NoAnchored => {},
        Flag::MatchSlash => {},
        Flag::NoMatchSlash => {},
        Flag::IgnoreCase => {},
        Flag::NoIgnoreCase => {},
        Flag::Verbose => {},
        Flag::Compress(_) => {},
        Flag::PreservePermissions => {},
        Flag::NoSameOwner => {},
        Flag::NoSamePermissions => {},
        Flag::NoRecursion => {},
        Flag::Dereference => {},
        Flag::AbsoluteNames => {},
        Flag::NumericOwner => {},
        Flag::ExcludeBackups => {},
        Flag::ExcludeVcs => {},
        Flag::ExcludeCaches(_) => {},
        Flag::Ignored => {},
    }
}

/// The rules for exclusions and for words are those that were asked for last, each
/// by its own options.
#[verifier::spinoff_prover]
pub proof fn law_matching_switches(s: options::Settings, f: Flag)
    ensures
        ({
            let o = s.switches;
            let p = flag_applied(s, f).switches;
            &&& p.wildcards_default <==> f is Wildcards || o.wildcards_default
                && !(f is NoWildcards)
            &&& p.explicit_wildcards <==> f is Wildcards || o.explicit_wildcards && !(
                f is NoWildcards)
            &&& p.anchored_default <==> f is Anchored || o.anchored_default && !(f is NoAnchored)
            &&& f is Anchored ==> p.explicit_anchored == Some(true)
            &&& f is NoAnchored ==> p.explicit_anchored == Some(false)
            &&& !(f is Anchored) && !(f is NoAnchored) ==> p.explicit_anchored
                == o.explicit_anchored
            &&& p.match_slash_default <==> f is MatchSlash || o.match_slash_default && !(
                f is NoMatchSlash)
            &&& p.ignore_case_default <==> f is IgnoreCase || o.ignore_case_default && !(
                f is NoIgnoreCase)
        }),
{
    match f {
        Flag::Create => {},
        Flag::Extract => {},
        Flag::List => {},
        Flag::Append => {},
        Flag::Update => {},
        Flag::Diff => {},
        Flag::Delete => {},
        Flag::TestLabel => {},
        Flag::Wildcards => {},
        Flag::NoWildcards => {},
        Flag::Anchored => {},
        Flag::NoAnchored => {},
        Flag::MatchSlash => {},
        Flag::NoMatchSlash => {},
        Flag::IgnoreCase => {},
        Flag::NoIgnoreCase => {},
        Flag::Verbose => {},
        Flag::Compress(_) => {},
        Flag::PreservePermissions => {},
        Flag::NoSameOwner => {},
        Flag::NoSamePermissions => {},
        Flag::NoRecursion => {},
        Flag::Dereference => {},
        Flag::AbsoluteNames => {},
        Flag::NumericOwner => {},
        Flag::ExcludeBackups => {},
        Flag::ExcludeVcs => {},
        Flag::ExcludeCaches(_) => {},
        Flag::Ignored => {},
    }
}

/// Each other switch is on after an option where it was on before or the option is
/// its own.
#[verifier::rlimit(60)]
#[verifier::spinoff_prover]
pub proof fn law_other_switches(s: options::Settings, f: Flag)
    ensures
        ({
            let o = s.switches;
            let p = flag_applied(s, f).switches;
            &&& p.preserve_permissions <==> o.preserve_permissions || f is PreservePermissions
            &&& p.no_same_owner <==> o.no_same_owner || f is NoSameOwner
            &&& p.no_same_permissions <==> o.no_same_permissions || f is NoSamePermissions
            &&& p.no_recursion <==> o.no_recursion || f is NoRecursion
            &&& p.dereference <==> o.dereference || f is Dereference
            &&& p.absolute_names <==> o.absolute_names || f is AbsoluteNames
            &&& p.numeric_owner <==> o.numeric_owner || f is NumericOwner
        }),
{
    match f {
        Flag::Create => {},
        Flag::Extract => {},
        Flag::List => {},
        Flag::Append => {},
        Flag::Update => {},
        Flag::Diff => {},
        Flag::Delete => {},
        Flag::TestLabel => {},
        Flag::Wildcards => {},
        Flag::NoWildcards => {},
        Flag::Anchored => {},
        Flag::NoAnchored => {},
        Flag::MatchSlash => {},
        Flag::NoMatchSlash => {},
        Flag::IgnoreCase => {},
        Flag::NoIgnoreCase => {},
        Flag::Verbose => {},
        Flag::Compress(_) => {},
        Flag::PreservePermissions => {},
        Flag::NoSameOwner => {},
        Flag::NoSamePermissions => {},
        Flag::NoRecursion => {},
        Flag::Dereference => {},
        Flag::AbsoluteNames => {},
        Flag::NumericOwner => {},
        Flag::ExcludeBackups => {},
        Flag::ExcludeVcs => {},
        Flag::ExcludeCaches(_) => {},
        Flag::Ignored => {},
    }
}

/// The compression is the one that was asked for last, being verbose is counted,
/// and no option without a value touches what others set.
#[verifier::rlimit(60)]
#[verifier::spinoff_prover]
pub proof fn law_counted_switches(s: options::Settings, f: Flag)
    ensures
        ({
            let o = s.switches;
            let p = flag_applied(s, f).switches;
            &&& p.verbose <==> o.verbose || f is Verbose
            &&& f is Verbose && o.verbose_level < 255 ==> p.verbose_level == o.verbose_level + 1
            &&& f is Verbose && o.verbose_level == 255 ==> p.verbose_level == 255
            &&& !(f is Verbose) ==> p.verbose_level == o.verbose_level
            &&& f is Compress ==> p.compression == Some(f->Compress_0)
            &&& !(f is Compress) ==> p.compression == o.compression
            &&& p.strip_components == o.strip_components
            &&& p.sort_name == o.sort_name
            &&& p.mtime_override == o.mtime_override
            &&& p.files_from_used == o.files_from_used
        }),
{
    match f {
        Flag::Create => {},
        Flag::Extract => {},
        Flag::List => {},
        Flag::Append => {},
        Flag::Update => {},
        Flag::Diff => {},
        Flag::Delete => {},
        Flag::TestLabel => {},
        Flag::Wildcards => {},
        Flag::NoWildcards => {},
        Flag::Anchored => {},
        Flag::NoAnchored => {},
        Flag::MatchSlash => {},
        Flag::NoMatchSlash => {},
        Flag::IgnoreCase => {},
        Flag::NoIgnoreCase => {},
        Flag::Verbose => {},
        Flag::Compress(_) => {},
        Flag::PreservePermissions => {},
        Flag::NoSameOwner => {},
        Flag::NoSamePermissions => {},
        Flag::NoRecursion => {},
        Flag::Dereference => {},
        Flag::AbsoluteNames => {},
        Flag::NumericOwner => {},
        Flag::ExcludeBackups => {},
        Flag::ExcludeVcs => {},
        Flag::ExcludeCaches(_) => {},
        Flag::Ignored => {},
    }
}

/// An option without a value leaves all settings but the switches as they are,
/// unless it is one that excludes: one for cache directories sets their tag file,
/// the others add exclusions behind those that are there.
pub proof fn law_flags_keep_settings(s: options::Settings, f: Flag)
    ensures
        ({
            let p = flag_applied(s, f);
            &&& p.file == s.file && p.directory == s.directory && p.transforms == s.transforms
            &&& p.owner == s.owner && p.group == s.group && p.mode_override == s.mode_override
            &&& p.tag_excludes == s.tag_excludes && p.format == s.format && p.paths == s.paths
            &&& p.path_directories == s.path_directories && p.label == s.label
            &&& f is ExcludeCaches ==> p.cache_exclude == Some(
                ("CACHEDIR.TAG"@, f->ExcludeCaches_0),
            )
            &&& !(f is ExcludeCaches) ==> p.cache_exclude == s.cache_exclude
            &&& !(f is ExcludeBackups) && !(f is ExcludeVcs) ==> p.excludes == s.excludes
            &&& s.excludes.is_prefix_of(p.excludes)
        }),
{
    lemma_flag_keeps(s, f);
}

/// Each setting takes the value of its own option, and no other option touches
/// it; one whose option comes without a value is taken back.
#[verifier::spinoff_prover]
pub proof fn law_settings(o: options::Settings, s: Setting, v: Option<Seq<char>>)
    ensures
        ({
            let p = assigned(o, s, v).0;
            let given = v is Some;
            let w = v->0;
            &&& p.file == (if s is File { v } else { o.file })
            &&& p.directory == (if s is Directory { v } else { o.directory })
            &&& p.owner == (if s is Owner { v } else { o.owner })
            &&& p.group == (if s is Group { v } else { o.group })
            &&& p.mode_override == (if s is Mode { v } else { o.mode_override })
            &&& p.label == (if s is Label { v } else { o.label })
            &&& p.format == (if s is Format && (given || s->clear) { v } else { o.format })
            &&& p.cache_exclude == o.cache_exclude
        }),
{
    match s {
        Setting::File => {},
        Setting::Directory => {},
        Setting::Exclude => {},
        Setting::Transform => {},
        Setting::StripComponents => {},
        Setting::Owner => {},
        Setting::Group => {},
        Setting::Mode => {},
        Setting::Mtime => {},
        Setting::Format { .. } => {},
        Setting::AddFile => {},
        Setting::FilesFrom { .. } => {},
        Setting::ExcludeFrom => {},
        Setting::Label => {},
        Setting::PaxOption { .. } => {},
        Setting::Sort => {},
        Setting::ExcludeTag(_) => {},
        Setting::Ignored => {},
    }
}

/// Paths, exclusions and tag files are added behind those that are there by their
/// own options alone; an exclusion goes by the rules in force, and a path with the
/// directory that was given last.
#[verifier::spinoff_prover]
pub proof fn law_lists_given(o: options::Settings, s: Setting, v: Option<Seq<char>>)
    ensures
        ({
            let p = assigned(o, s, v).0;
            let given = v is Some;
            let w = v->0;
            &&& p.paths == (if s is AddFile && given { o.paths.push(w) } else { o.paths })
            &&& p.path_directories == (if s is AddFile && given {
                o.path_directories.push(o.directory)
            } else {
                o.path_directories
            })
            &&& p.tag_excludes == (if s is ExcludeTag && given {
                o.tag_excludes.push((w, s->ExcludeTag_0))
            } else {
                o.tag_excludes
            })
            &&& !(s is Exclude && given) ==> p.excludes == o.excludes
            &&& s is Exclude && given ==> {
                let e = p.excludes.last();
                &&& p.excludes.drop_last() == o.excludes
                &&& p.excludes.len() == o.excludes.len() + 1
                &&& e.pattern == w
                &&& e.wildcards == o.switches.wildcards_default
                &&& e.anchored == o.switches.anchored_default
                &&& e.match_slash == o.switches.match_slash_default
                &&& e.ignore_case == o.switches.ignore_case_default
            }
            &&& !(s is Transform && given) ==> p.transforms == o.transforms
        }),
{
    match v {
        Some(w) => {
            assert(o.excludes.push(exclusion(o, w)).drop_last() =~= o.excludes);
        },
        None => {},
    }
    match s {
        Setting::File => {},
        Setting::Directory => {},
        Setting::Exclude => {},
        Setting::Transform => {},
        Setting::StripComponents => {},
        Setting::Owner => {},
        Setting::Group => {},
        Setting::Mode => {},
        Setting::Mtime => {},
        Setting::Format { .. } => {},
        Setting::AddFile => {},
        Setting::FilesFrom { .. } => {},
        Setting::ExcludeFrom => {},
        Setting::Label => {},
        Setting::PaxOption { .. } => {},
        Setting::Sort => {},
        Setting::ExcludeTag(_) => {},
        Setting::Ignored => {},
    }
}

/// How many components are stripped, the time of new members and the order in
/// which they are added are set by their own options alone.
#[verifier::rlimit(60)]
#[verifier::spinoff_prover]
pub proof fn law_values_switched(o: options::Settings, s: Setting, v: Option<Seq<char>>)
    ensures
        ({
            let p = assigned(o, s, v).0;
            let given = v is Some;
            let w = v->0;
            &&& p.switches.strip_components == (if s is StripComponents && given {
                match number::unsigned(w, 10, usize::MAX as int) {
                    Some(n) => n as usize,
                    None => 0,
                }
            } else {
                o.switches.strip_components
            })
            &&& p.switches.mtime_override == (if s is Mtime && given {
                match mtime::mtime_argument(w) {
                    Some(t) => Some(t as i64),
                    None => None,
                }
            } else {
                o.switches.mtime_override
            })
            &&& p.switches.sort_name == (if s is Sort && given {
                w == "name"@
            } else {
                o.switches.sort_name
            })
            &&& p.switches.files_from_used == (o.switches.files_from_used || s is FilesFrom)
        }),
{
    match s {
        Setting::File => {},
        Setting::Directory => {},
        Setting::Exclude => {},
        Setting::Transform => {},
        Setting::StripComponents => {},
        Setting::Owner => {},
        Setting::Group => {},
        Setting::Mode => {},
        Setting::Mtime => {},
        Setting::Format { .. } => {},
        Setting::AddFile => {},
        Setting::FilesFrom { .. } => {},
        Setting::ExcludeFrom => {},
        Setting::Label => {},
        Setting::PaxOption { .. } => {},
        Setting::Sort => {},
        Setting::ExcludeTag(_) => {},
        Setting::Ignored => {},
    }
}

/// No option with a value asks for an operation.
#[verifier::rlimit(60)]
#[verifier::spinoff_prover]
pub proof fn law_settings_keep_operations(o: options::Settings, s: Setting, v: Option<Seq<char>>)
    ensures
        ({
            let p = assigned(o, s, v).0.switches;
            let q = o.switches;
            &&& p.create == q.create
            &&& p.extract == q.extract
            &&& p.list == q.list
            &&& p.append == q.append
            &&& p.update == q.update
            &&& p.diff == q.diff
            &&& p.delete == q.delete
            &&& p.test_label == q.test_label
        }),
{
    match s {
        Setting::File => {},
        Setting::Directory => {},
        Setting::Exclude => {},
        Setting::Transform => {},
        Setting::StripComponents => {},
        Setting::Owner => {},
        Setting::Group => {},
        Setting::Mode => {},
        Setting::Mtime => {},
        Setting::Format { .. } => {},
        Setting::AddFile => {},
        Setting::FilesFrom { .. } => {},
        Setting::ExcludeFrom => {},
        Setting::Label => {},
        Setting::PaxOption { .. } => {},
        Setting::Sort => {},
        Setting::ExcludeTag(_) => {},
        Setting::Ignored => {},
    }
}

/// No option with a value changes the rules for exclusions and words.
#[verifier::rlimit(60)]
#[verifier::spinoff_prover]
pub proof fn law_settings_keep_rules(o: options::Settings, s: Setting, v: Option<Seq<char>>)
    ensures
        ({
            let p = assigned(o, s, v).0.switches;
            let q = o.switches;
            &&& p.wildcards_default == q.wildcards_default
            &&& p.anchored_default == q.anchored_default
            &&& p.match_slash_default == q.match_slash_default
            &&& p.ignore_case_default == q.ignore_case_default
            &&& p.explicit_wildcards == q.explicit_wildcards
            &&& p.explicit_anchored == q.explicit_anchored
        }),
{
    match s {
        Setting::File => {},
        Setting::Directory => {},
        Setting::Exclude => {},
        Setting::Transform => {},
        Setting::StripComponents => {},
        Setting::Owner => {},
        Setting::Group => {},
        Setting::Mode => {},
        Setting::Mtime => {},
        Setting::Format { .. } => {},
        Setting::AddFile => {},
        Setting::FilesFrom { .. } => {},
        Setting::ExcludeFrom => {},
        Setting::Label => {},
        Setting::PaxOption { .. } => {},
        Setting::Sort => {},
        Setting::ExcludeTag(_) => {},
        Setting::Ignored => {},
    }
}

/// No option with a value touches the switches that options without one set.
#[verifier::rlimit(60)]
#[verifier::spinoff_prover]
pub proof fn law_settings_keep_switches(o: options::Settings, s: Setting, v: Option<Seq<char>>)
    ensures
        ({
            let p = assigned(o, s, v).0.switches;
            let q = o.switches;
            &&& p.verbose == q.verbose
            &&& p.verbose_level == q.verbose_level
            &&& p.compression == q.compression
            &&& p.no_same_owner == q.no_same_owner
            &&& p.no_same_permissions == q.no_same_permissions
            &&& p.preserve_permissions == q.preserve_permissions
            &&& p.no_recursion == q.no_recursion
            &&& p.dereference == q.dereference
            &&& p.absolute_names == q.absolute_names
            &&& p.numeric_owner == q.numeric_owner
        }),
{
    match s {
        Setting::File => {},
        Setting::Directory => {},
        Setting::Exclude => {},
        Setting::Transform => {},
        Setting::StripComponents => {},
        Setting::Owner => {},
        Setting::Group => {},
        Setting::Mode => {},
        Setting::Mtime => {},
        Setting::Format { .. } => {},
        Setting::AddFile => {},
        Setting::FilesFrom { .. } => {},
        Setting::ExcludeFrom => {},
        Setting::Label => {},
        Setting::PaxOption { .. } => {},
        Setting::Sort => {},
        Setting::ExcludeTag(_) => {},
        Setting::Ignored => {},
    }
}

/// A rule for rewriting is added behind the others; one that cannot be read is
/// an error and changes nothing.
pub proof fn law_transform_given(o: options::Settings, e: Seq<char>)
    ensures
        ({
            let (p, h) = assigned(o, Setting::Transform, Some(e));
            let readable = transform::separator_readable(e);
            let rule = transform::rule_of(e);
            &&& readable && transform::is_substitution(e) && rule is Some ==> {
                &&& h is Continue
                &&& p.transforms == o.transforms.push(rule->0)
            }
            &&& !readable || !transform::is_substitution(e) || rule is None ==> {
                &&& h is Failed
                &&& p.transforms == o.transforms
            }
        }),
{
}

/// Reading stops for the lines of a file where one is named, and for a pax option
/// on an archive of another format; it goes on behind every other setting but a
/// rule for rewriting.
pub proof fn law_settings_happen(o: options::Settings, s: Setting, v: Option<Seq<char>>)
    ensures
        ({
            let h = assigned(o, s, v).1;
            &&& s is FilesFrom && v is Some ==> h == (Happening::ReadPaths {
                file: v->0,
                marked: s->marked,
            })
            &&& s is ExcludeFrom && v is Some ==> h == (Happening::ReadExcludes { file: v->0 })
            &&& s is PaxOption ==> (h is Failed <==> o.format is Some && o.format->0 != "posix"@
                && o.format->0 != "pax"@)
            &&& !(s is FilesFrom) && !(s is ExcludeFrom) && !(s is PaxOption) && !(s is Transform)
                ==> h is Continue
            &&& v is None && !(s is PaxOption) ==> h is Continue
        }),
{
}

/// A letter that takes a value takes the rest of its bundle, and where there is
/// none the next word.
pub proof fn law_bundle_value(
    o: options::Settings,
    c: char,
    rest: Seq<char>,
    next: Seq<char>,
    q: Seq<Seq<char>>,
)
    requires
        words::letter(c) is Valued,
        rest.len() > 0,
    ensures
        ({
            let s = words::letter(c)->Valued_0;
            &&& bundle(o, seq![c] + rest, q).0 == assigned(o, s, Some(rest)).0
            &&& bundle(o, seq![c] + rest, q).1 == q
            &&& bundle(o, seq![c] + rest, q).2 == assigned(o, s, Some(rest)).1
            &&& bundle(o, seq![c], seq![next] + q).0 == assigned(o, s, Some(next)).0
            &&& bundle(o, seq![c], seq![next] + q).1 == q
            &&& bundle(o, seq![c], seq![next] + q).2 == assigned(o, s, Some(next)).1
            &&& bundle(o, seq![c], seq![]).0 == assigned(o, s, None).0
        }),
{
    assert((seq![c] + rest).drop_first() =~= rest);
    assert((seq![next] + q).drop_first() =~= q);
}

/// A letter that is no option is an error.
pub proof fn law_unknown_letter(o: options::Settings, c: char, rest: Seq<char>, q: Seq<Seq<char>>)
    requires
        words::letter(c) is Unknown,
    ensures
        bundle(o, seq![c] + rest, q) == (o, q, Happening::Failed(Fault::UnknownShort(c))),
{
}

/// The letters of a leading bundle without values stand, each as a word, in front
/// of what follows.
pub proof fn law_plain_bundle(w: Seq<char>, rest: Seq<Seq<char>>)
    requires
        w.len() > 0,
        forall|i: int|
            0 <= i < w.len() ==> leading_letter(#[trigger] w[i]) && !takes_value(w[i]),
    ensures
        expanded(seq![w] + rest) == w.map_values(|c: char| seq!['-', c]) + rest,
{
    let a = seq![w] + rest;
    lemma_leading(w);
    lemma_plain(w);
    assert(a.drop_first() =~= rest);
    assert(a[0] == w);
}

proof fn lemma_leading(w: Seq<char>)
    requires
        w.len() > 0,
        forall|i: int| 0 <= i < w.len() ==> leading_letter(#[trigger] w[i]),
    ensures
        is_leading_bundle(w),
        text::trim_start_of(w, '-') == w,
{
    reveal_strlit("--");
    reveal_strlit("cxtrudvzjJfphoWkSUPTXbLIVHgG");
    assert(leading_letter(w[0]));
    assert(w[0] != '-');
    assert(text::trim_start_of(w, '-') == w);
    assert(!"--"@.is_prefix_of(w)) by {
        if "--"@.is_prefix_of(w) {
            assert("--"@[0] == w[0]);
        }
    }
}

proof fn lemma_plain(w: Seq<char>)
    requires
        forall|i: int| 0 <= i < w.len() ==> !takes_value(#[trigger] w[i]),
    ensures
        plain_words(w) == w.map_values(|c: char| seq!['-', c]),
        value_letters(w) == Seq::<char>::empty(),
    decreases w.len(),
{
    if w.len() > 0 {
        let front = w.drop_last();
        assert forall|i: int| 0 <= i < front.len() implies !takes_value(#[trigger] front[i]) by {
            assert(front[i] == w[i]);
        }
        assert(!takes_value(w[w.len() - 1]));
        lemma_plain(front);
        assert(plain_words(w) =~= w.map_values(|c: char| seq!['-', c]));
    } else {
        assert(plain_words(w) =~= w.map_values(|c: char| seq!['-', c]));
    }
}

proof fn lemma_letters_concat(a: Seq<char>, b: Seq<char>)
    ensures
        plain_words(a + b) == plain_words(a) + plain_words(b),
        value_letters(a + b) == value_letters(a) + value_letters(b),
    decreases b.len(),
{
    if b.len() == 0 {
        assert(a + b =~= a);
        assert(plain_words(a) + plain_words(b) =~= plain_words(a));
        assert(value_letters(a) + value_letters(b) =~= value_letters(a));
    } else {
        assert((a + b).drop_last() =~= a + b.drop_last());
        lemma_letters_concat(a, b.drop_last());
        assert(plain_words(a + b) =~= plain_words(a) + plain_words(b));
        assert(value_letters(a + b) =~= value_letters(a) + value_letters(b));
    }
}

/// In a leading bundle the letters without values come first, in their order, and
/// then those with values, each with the next of the words behind the bundle.
pub proof fn law_bundle_values(
    a: Seq<char>,
    c: char,
    b: Seq<char>,
    value: Seq<char>,
    rest: Seq<Seq<char>>,
)
    requires
        leading_letter(c),
        takes_value(c),
        forall|i: int|
            0 <= i < a.len() ==> leading_letter(#[trigger] a[i]) && !takes_value(a[i]),
        forall|i: int|
            0 <= i < b.len() ==> leading_letter(#[trigger] b[i]) && !takes_value(b[i]),
    ensures
        expanded(seq![a.push(c) + b, value] + rest) == a.map_values(|x: char| seq!['-', x])
            + b.map_values(|x: char| seq!['-', x]) + seq![seq!['-', c], value] + rest,
{
    let w = a.push(c) + b;
    let all = seq![w, value] + rest;
    assert forall|i: int| 0 <= i < w.len() implies leading_letter(#[trigger] w[i]) by {
        if i < a.len() {
            assert(w[i] == a[i]);
        } else if i > a.len() {
            assert(w[i] == b[i - a.len() - 1]);
        }
    }
    lemma_leading(w);
    lemma_plain(a);
    lemma_plain(b);
    assert(a.push(c) =~= a + seq![c]);
    lemma_letters_concat(a, seq![c]);
    lemma_letters_concat(a.push(c), b);
    reveal_with_fuel(plain_words, 2);
    reveal_with_fuel(value_letters, 2);
    assert(seq![c].drop_last() =~= seq![]);
    assert(plain_words(seq![c]) =~= seq![]);
    assert(value_letters(seq![c]) =~= seq![c]);
    assert(value_letters(w) =~= seq![c]);
    assert(all.drop_first() =~= seq![value] + rest);
    let q = seq![value] + rest;
    assert(q.drop_first() =~= rest);
    assert(seq![c].drop_first() =~= seq![]);
    reveal_with_fuel(paired, 2);
    assert(paired(seq![c], q) =~= seq![seq!['-', c], value] + rest);
    let (da, db) = (a.map_values(|x: char| seq!['-', x]), b.map_values(|x: char| seq!['-', x]));
    assert(plain_words(w) =~= da + db);
    assert(expanded(all) =~= da + db + seq![seq!['-', c], value] + rest);
}

/// The lines of a list are its paths, in their order: a line without the zero
/// bytes at its end, unless nothing is left; and in a list where that is allowed,
/// what stands behind `--add-file=`.
pub proof fn law_paths_listed(
    lines: Seq<Seq<char>>,
    line: Seq<char>,
    k: nat,
    marked: bool,
)
    requires
        line.len() > 0 ==> line.last() != '\0',
    ensures
        ({
            let more = lines.push(line + Seq::new(k, |i: int| '\0'));
            let before = listed_paths(lines, marked);
            &&& listed_paths(seq![], marked) == Seq::<Seq<char>>::empty()
            &&& line.len() == 0 ==> listed_paths(more, marked) == before
            &&& line.len() > 0 && (!marked || !"--add-file="@.is_prefix_of(line)) ==> listed_paths(
                more,
                marked,
            ) == before.push(line)
        }),
        line.len() > 0 ==> listed_paths(lines.push("--add-file="@ + line), true) == listed_paths(
            lines,
            true,
        ).push(line),
{
    let more = lines.push(line + Seq::new(k, |i: int| '\0'));
    assert(more.drop_last() =~= lines);
    extract::lemma_trim_zeros(line, k);
    let mark = "--add-file="@;
    let marked_line = mark + line;
    let other = lines.push(marked_line);
    assert(other.drop_last() =~= lines);
    if line.len() > 0 {
        assert(marked_line.last() == line.last());
        assert(text::trim_end_of(marked_line, '\0') == marked_line);
        assert(mark =~= marked_line.subrange(0, mark.len() as int));
        assert(marked_line.skip(mark.len() as int) =~= line);
    }
}

/// The lines of a list of exclusions are patterns under the rules in force, in
/// their order, but for empty lines.
pub proof fn law_exclusions_listed(o: options::Settings, lines: Seq<Seq<char>>, line: Seq<char>)
    ensures
        ({
            let more = listed_exclusions(o, lines.push(line));
            let before = listed_exclusions(o, lines);
            &&& listed_exclusions(o, seq![]) == Seq::<options::Exclusion>::empty()
            &&& line.len() == 0 ==> more == before
            &&& line.len() > 0 ==> {
                &&& more.len() == before.len() + 1
                &&& more.drop_last() == before
                &&& more.last().pattern == line
                &&& more.last().wildcards == o.switches.wildcards_default
                &&& more.last().anchored == o.switches.anchored_default
                &&& more.last().match_slash == o.switches.match_slash_default
                &&& more.last().ignore_case == o.switches.ignore_case_default
            }
        }),
{
    assert(lines.push(line).drop_last() =~= lines);
    let before = listed_exclusions(o, lines);
    assert(before.push(exclusion(o, line)).drop_last() =~= before);
}

/// The option against backup files excludes exactly the names that end in `~`,
/// begin with `.#`, or begin and end with `#`, where nothing else is excluded.
pub proof fn law_backups_excluded(o: options::Settings, name: Seq<char>)
    requires
        o.excludes.len() == 0,
        !o.switches.ignore_case_default,
        !name.contains('/'),
        name.len() > 0,
        name != seq!['.'],
        name != seq!['.', '.'],
    ensures
        exclude::excluded(name, flag_applied(o, Flag::ExcludeBackups).excludes) <==> {
            ||| name.last() == '~'
            ||| name.len() >= 2 && name[0] == '.' && name[1] == '#'
            ||| name.len() >= 2 && name[0] == '#' && name.last() == '#'
        },
{
    let p = flag_applied(o, Flag::ExcludeBackups).excludes;
    let slash = o.switches.match_slash_default;
    reveal_strlit("*~");
    reveal_strlit(".#*");
    reveal_strlit("#*#");
    let (e0, e1, e2) = (
        fixed_exclusion(o, "*~"@, true),
        fixed_exclusion(o, ".#*"@, true),
        fixed_exclusion(o, "#*#"@, true),
    );
    assert(p =~= seq![e0, e1, e2]);
    exclude::law_exclusions_grow(name, seq![e0], seq![e1, e2]);
    exclude::law_exclusions_grow(name, seq![e1], seq![e2]);
    assert(seq![e0] + seq![e1, e2] =~= p);
    assert(seq![e1] + seq![e2] =~= seq![e1, e2]);
    lemma_name_excluded(e0, name);
    lemma_name_excluded(e1, name);
    lemma_name_excluded(e2, name);
    assert("*~"@ =~= seq!['*'] + seq!['~']);
    assert(".#*"@ =~= seq!['.', '#'] + seq!['*']);
    assert("#*#"@ =~= seq!['#'] + (seq!['*'] + seq!['#']));
    lemma_star_then(seq!['~'], name, slash);
    lemma_then_star(seq!['.', '#'], name, slash);
    if name[0] == '#' {
        let rest = name.drop_first();
        assert forall|i: int| 0 <= i < rest.len() implies rest[i] != '/' by {
            assert(name.contains(name[i + 1]));
        }
        if rest.len() > 0 {
            lemma_star_then(seq!['#'], rest, slash);
            assert(rest.last() == name.last());
        } else {
            lemma_star_then(seq!['#'], rest, slash);
        }
    }
    assert((seq!['#'] + (seq!['*'] + seq!['#'])).drop_first() =~= seq!['*'] + seq!['#']);
    if name.len() >= 2 {
        assert(name.take(2) == seq!['.', '#'] <==> name[0] == '.' && name[1] == '#') by {
            if name[0] == '.' && name[1] == '#' {
                assert(name.take(2) =~= seq!['.', '#']);
            }
            if name.take(2) == seq!['.', '#'] {
                assert(name.take(2)[0] == '.' && name.take(2)[1] == '#');
            }
        }
    }
}

/// An unanchored pattern excludes a plain name where it matches it.
proof fn lemma_name_excluded(e: options::Exclusion, name: Seq<char>)
    requires
        e.wildcards,
        !e.anchored,
        !e.ignore_case,
        !name.contains('/'),
        name.len() > 0,
        name != seq!['.'],
        name != seq!['.', '.'],
    ensures
        exclude::excluded(name, seq![e]) <==> glob::glob(e.pattern, name, e.match_slash),
{
    exclude::law_exclusion_by_glob(e, name);
    path::law_last_name(seq![], name);
    assert forall|i: int| 0 <= i < name.len() implies name[i] != '/' by {
        assert(name.contains(name[i]));
    }
    assert(text::trim_end_of(name, '/') == name);
}

/// A star and a character match what ends in the character.
proof fn lemma_star_then(tail: Seq<char>, t: Seq<char>, slash: bool)
    requires
        tail.len() == 1,
        tail[0] != '*',
        tail[0] != '?',
        forall|i: int| 0 <= i < t.len() ==> t[i] != '/',
    ensures
        glob::glob(seq!['*'] + tail, t, slash) <==> t.len() > 0 && t.last() == tail[0],
{
    let star = seq!['*'];
    glob::law_glob_concat(star, tail, t, slash);
    if glob::glob(star + tail, t, slash) {
        let k = choose|k: int| glob::matches_parts(star, tail, t, slash, k);
        glob::law_glob_pieces(tail[0], t.skip(k), slash);
        assert(tail =~= seq![tail[0]]);
        assert(t.skip(k) == seq![tail[0]]);
        assert(t.skip(k).last() == t.last());
    }
    if t.len() > 0 && t.last() == tail[0] {
        let k = t.len() - 1;
        assert(t.skip(k) =~= tail);
        assert(tail =~= seq![tail[0]]);
        glob::law_glob_pieces(tail[0], t.skip(k), slash);
        glob::law_glob_star_alone(t.take(k), slash);
        assert(!t.take(k).contains('/'));
        assert(glob::matches_parts(star, tail, t, slash, k));
    }
}

/// Characters and a star match what begins with the characters.
proof fn lemma_then_star(head: Seq<char>, t: Seq<char>, slash: bool)
    requires
        !head.contains('*'),
        !head.contains('?'),
        forall|i: int| 0 <= i < t.len() ==> t[i] != '/',
    ensures
        glob::glob(head + seq!['*'], t, slash) <==> head.len() <= t.len() && t.take(
            head.len() as int,
        ) == head,
{
    let star = seq!['*'];
    glob::law_glob_concat(head, star, t, slash);
    if glob::glob(head + star, t, slash) {
        let k = choose|k: int| glob::matches_parts(head, star, t, slash, k);
        glob::law_glob_literal(head, t.take(k), slash);
    }
    if head.len() <= t.len() && t.take(head.len() as int) == head {
        let k = head.len() as int;
        glob::law_glob_literal(head, t.take(k), slash);
        glob::law_glob_star_alone(t.skip(k), slash);
        assert(!t.skip(k).contains('/'));
        assert(glob::matches_parts(head, star, t, slash, k));
    }
}

/// A word that does not begin with a dash, and a bare dash, is a path; it goes
/// with the directory that was given last.
pub proof fn law_words_that_are_paths(o: options::Settings, w: Seq<char>, q: Seq<Seq<char>>)
    requires
        w.len() == 0 || w[0] != '-' || w.len() == 1,
    ensures
        ({
            let (p, rest, h) = word_read(o, w, q);
            &&& h is Continue
            &&& rest == q
            &&& p.paths == o.paths.push(w)
            &&& p.path_directories == o.path_directories.push(o.directory)
        }),
{
    words::law_no_option(w);
    reveal_strlit("--version");
    reveal_strlit("--help");
}

/// The option against version control excludes exactly the names that version
/// control systems use, where nothing else is excluded.
pub proof fn law_vcs_excluded(o: options::Settings, name: Seq<char>)
    requires
        o.excludes.len() == 0,
        !o.switches.ignore_case_default,
        !name.contains('/'),
        name.len() > 0,
        name != seq!['.'],
        name != seq!['.', '.'],
    ensures
        exclude::excluded(name, flag_applied(o, Flag::ExcludeVcs).excludes) <==> {
            ||| name == ".svn"@
            ||| name == ".bzr"@
            ||| name == ".git"@
            ||| name == ".hg"@
            ||| name == ".arch-ids"@
            ||| name == "{arch}"@
            ||| name == "=RELEASE-ID"@
            ||| name == "=meta-update"@
            ||| name == "=update"@
            ||| name == "CVS"@
            ||| name == ".gitignore"@
            ||| name == ".gitmodules"@
            ||| name == ".gitattributes"@
            ||| name == ".cvsignore"@
            ||| name == ".bzrignore"@
            ||| name == ".bzr-resolve"@
            ||| name == ".bzr-uncommitted"@
            ||| name == "_darcs"@
            ||| name == ".hgignore"@
            ||| name == ".hgsub"@
            ||| name == ".hgsubstate"@
            ||| name == ".hgtags"@
            ||| name == "_MTN"@
            ||| name == "SCCS"@
            ||| name == "RCS"@
        },
{
    let p = flag_applied(o, Flag::ExcludeVcs).excludes;
    let all = vcs_names();
    assert(p =~= all.map_values(|n: Seq<char>| fixed_exclusion(o, n, false)));
    lemma_names_excluded(o, all, name);
    assert(all.contains(name) <==> {
        ||| name == ".svn"@
        ||| name == ".bzr"@
        ||| name == ".git"@
        ||| name == ".hg"@
        ||| name == ".arch-ids"@
        ||| name == "{arch}"@
        ||| name == "=RELEASE-ID"@
        ||| name == "=meta-update"@
        ||| name == "=update"@
        ||| name == "CVS"@
        ||| name == ".gitignore"@
        ||| name == ".gitmodules"@
        ||| name == ".gitattributes"@
        ||| name == ".cvsignore"@
        ||| name == ".bzrignore"@
        ||| name == ".bzr-resolve"@
        ||| name == ".bzr-uncommitted"@
        ||| name == "_darcs"@
        ||| name == ".hgignore"@
        ||| name == ".hgsub"@
        ||| name == ".hgsubstate"@
        ||| name == ".hgtags"@
        ||| name == "_MTN"@
        ||| name == "SCCS"@
        ||| name == "RCS"@
    }) by {
        assert(all[0] == ".svn"@);
        assert(all[1] == ".bzr"@);
        assert(all[2] == ".git"@);
        assert(all[3] == ".hg"@);
        assert(all[4] == ".arch-ids"@);
        assert(all[5] == "{arch}"@);
        assert(all[6] == "=RELEASE-ID"@);
        assert(all[7] == "=meta-update"@);
        assert(all[8] == "=update"@);
        assert(all[9] == "CVS"@);
        assert(all[10] == ".gitignore"@);
        assert(all[11] == ".gitmodules"@);
        assert(all[12] == ".gitattributes"@);
        assert(all[13] == ".cvsignore"@);
        assert(all[14] == ".bzrignore"@);
        assert(all[15] == ".bzr-resolve"@);
        assert(all[16] == ".bzr-uncommitted"@);
        assert(all[17] == "_darcs"@);
        assert(all[18] == ".hgignore"@);
        assert(all[19] == ".hgsub"@);
        assert(all[20] == ".hgsubstate"@);
        assert(all[21] == ".hgtags"@);
        assert(all[22] == "_MTN"@);
        assert(all[23] == "SCCS"@);
        assert(all[24] == "RCS"@);
    }
}

proof fn lemma_names_excluded(o: options::Settings, names: Seq<Seq<char>>, name: Seq<char>)
    requires
        !o.switches.ignore_case_default,
        !name.contains('/'),
        name.len() > 0,
        name != seq!['.'],
        name != seq!['.', '.'],
    ensures
        exclude::excluded(
            name,
            names.map_values(|n: Seq<char>| fixed_exclusion(o, n, false)),
        ) <==> names.contains(name),
    decreases names.len(),
{
    let all = names.map_values(|n: Seq<char>| fixed_exclusion(o, n, false));
    if names.len() == 0 {
        assert(all =~= seq![]);
    } else {
        let front = names.drop_last();
        let e = fixed_exclusion(o, names.last(), false);
        lemma_names_excluded(o, front, name);
        let before = front.map_values(|n: Seq<char>| fixed_exclusion(o, n, false));
        assert(all =~= before + seq![e]);
        exclude::law_exclusions_grow(name, before, seq![e]);
        lemma_plain_name_excluded(e, name);
        assert(names =~= front.push(names.last()));
        if names.contains(name) {
            let i = names.index_of(name);
            if i < front.len() {
                assert(front[i] == name);
            }
        }
        if front.contains(name) {
            let i = front.index_of(name);
            assert(names[i] == name);
        }
        if names.last() == name {
            assert(names[names.len() - 1] == name);
        }
    }
}

/// An unanchored literal excludes a plain name where it is that name.
proof fn lemma_plain_name_excluded(e: options::Exclusion, name: Seq<char>)
    requires
        !e.wildcards,
        !e.anchored,
        !e.ignore_case,
        !name.contains('/'),
        name.len() > 0,
        name != seq!['.'],
        name != seq!['.', '.'],
    ensures
        exclude::excluded(name, seq![e]) <==> name == e.pattern,
{
    exclude::law_exclusion_by_name(e, name);
    path::law_last_name(seq![], name);
    assert forall|i: int| 0 <= i < name.len() implies name[i] != '/' by {
        assert(name.contains(name[i]));
    }
    assert(text::trim_end_of(name, '/') == name);
}

/// Words that are no options are the paths, in their order, and then all has been
/// read.
pub proof fn law_paths_read(o: options::Settings, q: Seq<Seq<char>>)
    requires
        forall|i: int|
            0 <= i < q.len() ==> (#[trigger] q[i]).len() == 0 || q[i][0] != '-' || q[i].len() == 1,
    ensures
        all_read(o, q).0.paths == o.paths + q,
        all_read(o, q).1.len() == 0,
        all_read(o, q).2 is Done,
    decreases q.len(),
{
    if q.len() == 0 {
        assert(o.paths + q =~= o.paths);
    } else {
        let rest = q.drop_first();
        assert forall|i: int| 0 <= i < rest.len() implies (#[trigger] rest[i]).len() == 0
            || rest[i][0] != '-' || rest[i].len() == 1 by {
            assert(rest[i] == q[i + 1]);
        }
        law_words_that_are_paths(o, q[0], rest);
        let p = word_read(o, q[0], rest).0;
        law_paths_read(p, rest);
        lemma_bundle_shrinks(o, q[0].drop_first(), rest);
        assert(p.paths + rest =~= o.paths + q);
    }
}

/// A word that names an option without a value applies it; one that names an
/// option with a value takes the next word for it; one that has the value behind
/// it takes that; and words are read one after the other.
pub proof fn law_options_read(o: options::Settings, w: Seq<char>, q: Seq<Seq<char>>)
    requires
        w != "--version"@,
        w != "--help"@,
    ensures
        words::flag_named(w) matches Some(f) ==> word_read(o, w, q) == (
            flag_applied(o, f),
            q,
            Happening::Continue,
        ),
        words::flag_named(w) is None && words::setting_named(w) is Some && q.len() > 0 ==> {
            let (p, h) = assigned(o, words::setting_named(w)->0, Some(q[0]));
            word_read(o, w, q) == (p, q.skip(1), h)
        },
        word_read(o, w, q).2 is Continue ==> all_read(o, seq![w] + q) == all_read(
            word_read(o, w, q).0,
            word_read(o, w, q).1,
        ),
        !(word_read(o, w, q).2 is Continue) ==> all_read(o, seq![w] + q) == word_read(o, w, q),
        word_read(o, "--version"@, q).2 is Version,
        word_read(o, "--help"@, q).2 is Help,
{
    let all = seq![w] + q;
    assert(all.drop_first() =~= q);
    assert(all[0] == w);
    assert(q.len() > 0 ==> q.skip(1) =~= q.drop_first());
    lemma_bundle_shrinks(o, w.drop_first(), q);
    reveal_strlit("--version");
    reveal_strlit("--help");
    assert("--version"@.len() == 9 && "--help"@.len() == 6);
}

/// A word that begins with two dashes and is no option is an error; one that
/// begins with one dash is a bundle of letters.
pub proof fn law_unrecognized_words(o: options::Settings, w: Seq<char>, q: Seq<Seq<char>>)
    requires
        w.len() > 1,
        w[0] == '-',
        w != "--version"@,
        w != "--help"@,
        words::flag_named(w) is None,
        words::setting_named(w) is None,
        words::attached(w) is None,
    ensures
        w[1] == '-' ==> word_read(o, w, q) == (o, q, Happening::Failed(Fault::Unrecognized(w))),
        w[1] != '-' ==> word_read(o, w, q) == bundle(o, w.skip(1), q),
{
    assert(w.skip(1) =~= w.drop_first());
}

/// Before any word is read nothing is asked for; exclusions are patterns, are not
/// anchored, and their `*` runs across slashes.
pub proof fn law_initial()
    ensures
        ({
            let s = options::initial_switches();
            let o = options::initial();
            &&& !s.create && !s.extract && !s.list && !s.append && !s.update && !s.diff
                && !s.delete && !s.test_label
            &&& !s.verbose && s.verbose_level == 0 && s.compression is None
            &&& s.strip_components == 0 && s.mtime_override is None && !s.sort_name
            &&& s.wildcards_default && s.match_slash_default && !s.anchored_default
                && !s.ignore_case_default
            &&& !s.explicit_wildcards && s.explicit_anchored is None
            &&& !s.no_same_owner && !s.no_same_permissions && !s.preserve_permissions
            &&& !s.no_recursion && !s.dereference && !s.absolute_names && !s.numeric_owner
            &&& !s.files_from_used
            &&& o.switches == s && o.file is None && o.directory is None && o.label is None
            &&& o.owner is None && o.group is None && o.mode_override is None && o.format is None
            &&& o.cache_exclude is None && o.tag_excludes.len() == 0 && o.excludes.len() == 0
            &&& o.transforms.len() == 0 && o.paths.len() == 0 && o.path_directories.len() == 0
        }),
{
}

/// The words of the default options come before those of the command line, whose
/// first word may be a bundle.
pub proof fn law_words_given(defaults: Seq<char>, argv: Seq<Seq<char>>)
    ensures
        words_given(None, argv) == expanded(argv),
        words_given(Some(defaults), argv) == text::words(defaults) + expanded(argv),
        expanded(seq![]) == Seq::<Seq<char>>::empty(),
{
    assert(Seq::<Seq<char>>::empty() + expanded(argv) =~= expanded(argv));
}

/// A first word that begins with two dashes, holds a character that is no letter
/// of a leading bundle, or is a bare dash is left as it is.
pub proof fn law_no_bundle(w: Seq<char>, rest: Seq<Seq<char>>, i: int)
    requires
        ({
            ||| w.len() >= 2 && w[0] == '-' && w[1] == '-'
            ||| w.len() == 0
            ||| w == seq!['-']
            ||| 0 <= i < w.len() && w[i] != '-' && !leading_letter(w[i])
        }),
    ensures
        expanded(seq![w] + rest) == seq![w] + rest,
{
    let t = text::trim_start_of(w, '-');
    text::law_trim_start(w, '-');
    reveal_strlit("--");
    assert((seq![w] + rest)[0] == w);
    if w.len() >= 2 && w[0] == '-' && w[1] == '-' {
        assert("--"@ =~= w.subrange(0, 2));
    } else if w == seq!['-'] {
        assert(w.drop_first() =~= seq![]);
        reveal_with_fuel(text::trim_start_of, 2);
    } else if w.len() > 0 {
        let k = w.len() - t.len();
        assert(i >= k) by {
            if i < k {
                assert(w[i] == '-');
            }
        }
        assert(t[i - k] == w[i]);
    }
}

/// Every letter of a leading bundle is an option, and those that take a value from
/// the words behind it are options with a value.
pub proof fn law_leading_letters(c: char)
    ensures
        leading_letter(c) ==> !(words::letter(c) is Unknown),
        takes_value(c) ==> words::letter(c) is Valued,
        words::letter(c) is Valued && c != 'G' ==> takes_value(c),
        words::letter(c) is Valued && c != 'C' ==> leading_letter(c),
        words::letter(c) is Flag ==> leading_letter(c),
{
    reveal_strlit("cxtrudvzjJfphoWkSUPTXbLIVHgG");
    let s = "cxtrudvzjJfphoWkSUPTXbLIVHgG"@;
    assert(s.len() == 28);
    assert(s[0] == 'c' && s[1] == 'x' && s[2] == 't' && s[3] == 'r' && s[4] == 'u' && s[5] == 'd');
    assert(s[6] == 'v' && s[7] == 'z' && s[8] == 'j' && s[9] == 'J' && s[10] == 'f' && s[11]
        == 'p');
    assert(s[12] == 'h' && s[13] == 'o' && s[14] == 'W' && s[15] == 'k' && s[16] == 'S' && s[17]
        == 'U');
    assert(s[18] == 'P' && s[19] == 'T' && s[20] == 'X' && s[21] == 'b' && s[22] == 'L' && s[23]
        == 'I');
    assert(s[24] == 'V' && s[25] == 'H' && s[26] == 'g' && s[27] == 'G');
    if leading_letter(c) {
        let i = s.index_of(c);
        assert(s[i] == c);
    }
}

/// A letter without a value applies its option, and the rest of the bundle is read
/// after it.
pub proof fn law_bundle_flag(
    o: options::Settings,
    c: char,
    rest: Seq<char>,
    q: Seq<Seq<char>>,
)
    requires
        words::letter(c) is Flag,
    ensures
        bundle(o, seq![], q) == (o, q, Happening::Continue),
        bundle(o, seq![c] + rest, q) == bundle(
            flag_applied(o, words::letter(c)->Flag_0),
            rest,
            q,
        ),
{
    assert((seq![c] + rest).drop_first() =~= rest);
}

/// An error on the command line is reported by what was wrong in it; the hint at
/// the help follows where it belongs.
pub proof fn law_faults_reported(message: Seq<char>, c: char)
    ensures
        fault_lines(Fault::Transform(message)) == seq!["tar: "@ + message],
        fault_lines(Fault::Unrecognized(message)) == seq!["tar: unrecognized option: "@ + message],
        fault_lines(Fault::UnknownShort(c)).len() == 1,
        fault_lines(Fault::UnknownShort(c))[0] == "tar: unknown option: -"@ + seq![c],
        fault_lines(Fault::PaxOption { hint: false }).len() == 1,
        fault_lines(Fault::PaxOption { hint: true }).len() == 2,
        fault_lines(Fault::PaxOption { hint: true })[0] == fault_lines(
            Fault::PaxOption { hint: false },
        )[0],
        fault_lines(Fault::PaxOption { hint: true })[0]
            == "tar: --pax-option can be used only on POSIX archives"@,
{
    assert("tar: unknown option: -"@.push(c) =~= "tar: unknown option: -"@ + seq![c]);
}

/// A list of exclusions adds them behind those that are there, and changes nothing
/// else.
pub proof fn law_exclusions_taken(o: options::Settings, lines: Seq<Seq<char>>)
    ensures
        ({
            let p = with_exclusions(o, lines);
            &&& o.excludes.is_prefix_of(p.excludes)
            &&& listed_exclusions(o, lines).is_suffix_of(p.excludes)
            &&& p.excludes.len() == o.excludes.len() + listed_exclusions(o, lines).len()
            &&& p == (options::Settings { excludes: p.excludes, ..o })
        }),
{
    let p = with_exclusions(o, lines).excludes;
    let more = listed_exclusions(o, lines);
    assert(o.excludes =~= p.subrange(0, o.excludes.len() as int));
    assert(more =~= p.subrange(p.len() - more.len(), p.len() as int));
}

} // verus!
