//! What the command line asks for.

use crate::compression::Compression;
use crate::text;
use crate::text::copied;
use crate::transform;
use crate::transform::Transform;
use vstd::prelude::*;

verus! {

/// A pattern of names to leave out, with the matching rules that were in force
/// when it was given.
#[derive(Debug)]
pub struct ExcludeEntry {
    pub pattern: String,
    pub wildcards: bool,
    pub anchored: bool,
    /// When true, `*` may run across `/`; when false it stops there.
    pub match_slash: bool,
    pub ignore_case: bool,
}

/// An [`ExcludeEntry`] as a character sequence and its rules.
pub struct Exclusion {
    pub pattern: Seq<char>,
    pub wildcards: bool,
    pub anchored: bool,
    pub match_slash: bool,
    pub ignore_case: bool,
}

impl View for ExcludeEntry {
    type V = Exclusion;

    open spec fn view(&self) -> Exclusion {
        Exclusion {
            pattern: self.pattern@,
            wildcards: self.wildcards,
            anchored: self.anchored,
            match_slash: self.match_slash,
            ignore_case: self.ignore_case,
        }
    }
}

/// What a tag file in a directory keeps out of the archive.
#[derive(Debug, Clone, Copy, Default, PartialEq, Eq, Structural)]
pub enum CacheExcludeMode {
    /// What lies in the directory, but for the tag file itself.
    #[default]
    Normal,
    /// Everything below the directory.
    Under,
    /// The directory and everything below it.
    All,
}

/// The settings that are no text.
#[derive(Debug, Clone, Copy)]
pub struct Switches {
    pub create: bool,
    pub extract: bool,
    pub list: bool,
    pub append: bool,
    pub update: bool,
    pub diff: bool,
    pub delete: bool,
    pub test_label: bool,
    pub verbose: bool,
    pub verbose_level: u8,
    pub compression: Option<Compression>,
    pub strip_components: usize,
    /// Whether the next exclusion is a glob pattern. At first it is.
    pub wildcards_default: bool,
    /// Whether the next exclusion has to cover the whole path. At first it
    /// has not.
    pub anchored_default: bool,
    /// Whether `*` runs across slashes in the next exclusion. At first it does.
    pub match_slash_default: bool,
    /// Whether case is ignored in the next exclusion. At first it is not.
    pub ignore_case_default: bool,
    /// Whether members to list or extract are named by glob patterns; else
    /// they are named literally.
    pub explicit_wildcards: bool,
    /// Whether members to list or extract are named by their whole paths, or
    /// those of directories above them, which they are unless this is
    /// `Some(false)`; then also by their last names.
    pub explicit_anchored: Option<bool>,
    pub sort_name: bool,
    pub no_same_owner: bool,
    pub no_same_permissions: bool,
    pub preserve_permissions: bool,
    pub mtime_override: Option<i64>,
    pub no_recursion: bool,
    pub dereference: bool,
    pub absolute_names: bool,
    pub numeric_owner: bool,
    /// Whether a list of paths was read from a file. If so an archive without
    /// members may be created.
    pub files_from_used: bool,
}

/// The settings of a run.
#[derive(Debug)]
pub struct Args {
    pub switches: Switches,
    pub file: Option<String>,
    /// The directory that was given last.
    pub directory: Option<String>,
    pub transforms: Vec<Transform>,
    pub excludes: Vec<ExcludeEntry>,
    pub owner: Option<String>,
    pub group: Option<String>,
    pub mode_override: Option<String>,
    /// The tag file of cache directories and what it keeps out.
    pub cache_exclude: Option<(String, CacheExcludeMode)>,
    /// Further tag files.
    pub tag_excludes: Vec<(String, CacheExcludeMode)>,
    pub format: Option<String>,
    pub paths: Vec<String>,
    /// The directory that each path is taken from, or that what it selects is
    /// extracted to: the one that was given last before it.
    pub path_directories: Vec<Option<String>>,
    /// The volume label: written as the first entry of a new archive, and a
    /// pattern that the label of an archive that is read has to match.
    pub label: Option<String>,
}

/// [`Args`] as mathematical values.
pub struct Settings {
    pub switches: Switches,
    pub file: Option<Seq<char>>,
    pub directory: Option<Seq<char>>,
    pub transforms: Seq<transform::Rule>,
    pub excludes: Seq<Exclusion>,
    pub owner: Option<Seq<char>>,
    pub group: Option<Seq<char>>,
    pub mode_override: Option<Seq<char>>,
    pub cache_exclude: Option<(Seq<char>, CacheExcludeMode)>,
    pub tag_excludes: Seq<(Seq<char>, CacheExcludeMode)>,
    pub format: Option<Seq<char>>,
    pub paths: Seq<Seq<char>>,
    pub path_directories: Seq<Option<Seq<char>>>,
    pub label: Option<Seq<char>>,
}

pub open spec fn exclusions(v: Seq<ExcludeEntry>) -> Seq<Exclusion> {
    v.map_values(|e: ExcludeEntry| e@)
}

pub open spec fn tag_view(t: (String, CacheExcludeMode)) -> (Seq<char>, CacheExcludeMode) {
    (t.0@, t.1)
}

pub open spec fn tag_views(v: Seq<(String, CacheExcludeMode)>) -> Seq<
    (Seq<char>, CacheExcludeMode),
> {
    v.map_values(|t: (String, CacheExcludeMode)| tag_view(t))
}

pub open spec fn opt_tag_view(t: Option<(String, CacheExcludeMode)>) -> Option<
    (Seq<char>, CacheExcludeMode),
> {
    match t {
        Some(t) => Some(tag_view(t)),
        None => None,
    }
}

impl View for Args {
    type V = Settings;

    open spec fn view(&self) -> Settings {
        Settings {
            switches: self.switches,
            file: text::opt_view(self.file),
            directory: text::opt_view(self.directory),
            transforms: transform::rules_of(self.transforms@),
            excludes: exclusions(self.excludes@),
            owner: text::opt_view(self.owner),
            group: text::opt_view(self.group),
            mode_override: text::opt_view(self.mode_override),
            cache_exclude: opt_tag_view(self.cache_exclude),
            tag_excludes: tag_views(self.tag_excludes@),
            format: text::opt_view(self.format),
            paths: text::views(self.paths@),
            path_directories: text::opt_views(self.path_directories@),
            label: text::opt_view(self.label),
        }
    }
}

/// The switches before any argument is read: nothing asked for, and exclusions
/// are glob patterns whose `*` runs across slashes.
pub open spec fn initial_switches() -> Switches {
    Switches {
        create: false,
        extract: false,
        list: false,
        append: false,
        update: false,
        diff: false,
        delete: false,
        test_label: false,
        verbose: false,
        verbose_level: 0,
        compression: None,
        strip_components: 0,
        wildcards_default: true,
        anchored_default: false,
        match_slash_default: true,
        ignore_case_default: false,
        explicit_wildcards: false,
        explicit_anchored: None,
        sort_name: false,
        no_same_owner: false,
        no_same_permissions: false,
        preserve_permissions: false,
        mtime_override: None,
        no_recursion: false,
        dereference: false,
        absolute_names: false,
        numeric_owner: false,
        files_from_used: false,
    }
}

/// The settings before any argument is read.
pub open spec fn initial() -> Settings {
    Settings {
        switches: initial_switches(),
        file: None,
        directory: None,
        transforms: seq![],
        excludes: seq![],
        owner: None,
        group: None,
        mode_override: None,
        cache_exclude: None,
        tag_excludes: seq![],
        format: None,
        paths: seq![],
        path_directories: seq![],
        label: None,
    }
}

impl Args {
    pub fn new() -> (r: Args)
        ensures
            r@ == initial(),
    {
        let switches = Switches {
            create: false,
            extract: false,
            list: false,
            append: false,
            update: false,
            diff: false,
            delete: false,
            test_label: false,
            verbose: false,
            verbose_level: 0,
            compression: None,
            strip_components: 0,
            wildcards_default: true,
            anchored_default: false,
            match_slash_default: true,
            ignore_case_default: false,
            explicit_wildcards: false,
            explicit_anchored: None,
            sort_name: false,
            no_same_owner: false,
            no_same_permissions: false,
            preserve_permissions: false,
            mtime_override: None,
            no_recursion: false,
            dereference: false,
            absolute_names: false,
            numeric_owner: false,
            files_from_used: false,
        };
        let r = Args {
            switches,
            file: None,
            directory: None,
            transforms: Vec::new(),
            excludes: Vec::new(),
            owner: None,
            group: None,
            mode_override: None,
            cache_exclude: None,
            tag_excludes: Vec::new(),
            format: None,
            paths: Vec::new(),
            path_directories: Vec::new(),
            label: None,
        };
        assert(r@.transforms =~= initial().transforms);
        assert(r@.excludes =~= initial().excludes);
        assert(r@.tag_excludes =~= initial().tag_excludes);
        assert(r@.paths =~= initial().paths);
        assert(r@.path_directories =~= initial().path_directories);
        r
    }

    /// The directory that goes with the `i`-th path.
    pub fn directory_at(&self, i: usize) -> (r: Option<String>)
        ensures
            text::opt_view(r) == directory_of(self@, i as int),
    {
        if i < self.path_directories.len() {
            assert(self@.path_directories[i as int] == text::opt_view(
                self.path_directories@[i as int],
            ));
            copied(&self.path_directories[i])
        } else {
            copied(&self.directory)
        }
    }
}

/// The directory that goes with the `i`-th path: its own, or the one that was
/// given last where it has none.
pub open spec fn directory_of(o: Settings, i: int) -> Option<Seq<char>> {
    if 0 <= i < o.path_directories.len() {
        o.path_directories[i]
    } else {
        o.directory
    }
}

/// The settings with one more path, which goes with the directory that was given
/// last.
pub open spec fn with_path(o: Settings, path: Seq<char>) -> Settings {
    Settings {
        paths: o.paths.push(path),
        path_directories: o.path_directories.push(o.directory),
        ..o
    }
}

/// A path that was given with a directory goes with it, and one that was not with
/// the directory that was given last.
pub proof fn law_path_directory(o: Settings, path: Seq<char>, i: int)
    ensures
        i >= o.path_directories.len() ==> directory_of(o, i) == o.directory,
        directory_of(with_path(o, path), o.path_directories.len() as int) == o.directory,
        0 <= i < o.path_directories.len() ==> directory_of(with_path(o, path), i) == directory_of(
            o,
            i,
        ),
        with_path(o, path).paths == o.paths.push(path),
{
}

} // verus!
