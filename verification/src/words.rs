//! The names of the options on the command line.

use crate::compression::Compression;
use crate::options::CacheExcludeMode;
use crate::text::{from_chars, same_chars, starts_with, to_chars};
use vstd::prelude::*;
use vstd::slice::slice_subrange;

verus! {

/// Options without a value.
#[derive(Debug, Clone, Copy, PartialEq, Eq, Structural)]
pub enum Flag {
    Create,
    Extract,
    List,
    Append,
    Update,
    Diff,
    Delete,
    TestLabel,
    Wildcards,
    NoWildcards,
    Anchored,
    NoAnchored,
    MatchSlash,
    NoMatchSlash,
    IgnoreCase,
    NoIgnoreCase,
    Verbose,
    Compress(Compression),
    PreservePermissions,
    NoSameOwner,
    NoSamePermissions,
    NoRecursion,
    Dereference,
    AbsoluteNames,
    NumericOwner,
    ExcludeBackups,
    ExcludeVcs,
    ExcludeCaches(CacheExcludeMode),
    Ignored,
}

/// Options with a value.
#[derive(Debug, Clone, Copy, PartialEq, Eq, Structural)]
pub enum Setting {
    File,
    Directory,
    Exclude,
    Transform,
    StripComponents,
    Owner,
    Group,
    Mode,
    Mtime,
    /// `clear` says that a missing value takes back an earlier one.
    Format { clear: bool },
    AddFile,
    /// `marked` says that a line of the file may name a path behind
    /// `--add-file=`.
    FilesFrom { marked: bool },
    ExcludeFrom,
    Label,
    /// `hint` says that an error comes with a hint at the help.
    PaxOption { hint: bool },
    Sort,
    ExcludeTag(CacheExcludeMode),
    Ignored,
}

/// What a letter of a bundle of short options means.
#[derive(Debug, Clone, Copy, PartialEq, Eq, Structural)]
pub enum Letter {
    Flag(Flag),
    Valued(Setting),
    Unknown,
}

fn is(s: &[char], name: &str) -> (r: bool)
    ensures
        r == (s@ == name@),
{
    let n = to_chars(name);
    same_chars(s, &n)
}

fn begins(s: &[char], prefix: &str) -> (r: bool)
    ensures
        r == prefix@.is_prefix_of(s@),
{
    let p = to_chars(prefix);
    starts_with(s, &p)
}

/// What stands in a word behind its beginning.
fn behind(s: &[char], prefix: &str) -> (r: String)
    requires
        prefix@.is_prefix_of(s@),
    ensures
        r@ == s@.skip(prefix@.len() as int),
{
    let p = to_chars(prefix);
    assert(s@.subrange(p@.len() as int, s@.len() as int) =~= s@.skip(prefix@.len() as int));
    from_chars(slice_subrange(s, p.len(), s.len()))
}

/// Names of options that are accepted without effect.
pub open spec fn is_ignored_early(s: Seq<char>) -> bool {
    s == "--exclude-vcs-ignores"@
        || s == "--backup"@
        || s == "--null"@
        || s == "--totals"@
        || s == "--no-auto-compress"@
        || s == "--seek"@
        || s == "--no-seek"@
        || s == "--ignore-failed-read"@
        || s == "--check-device"@
        || s == "--no-check-device"@
        || s == "--one-file-system"@
        || s == "--sparse"@
        || s == "-S"@
        || s == "--show-omitted-dirs"@
        || s == "--keep-old-files"@
        || s == "-k"@
        || s == "--keep-newer-files"@
        || s == "--keep-directory-symlink"@
        || s == "--overwrite"@
        || s == "--overwrite-dir"@
        || s == "--no-overwrite-dir"@
        || s == "--unlink-first"@
        || s == "-U"@
        || s == "--recursive-unlink"@
        || s == "--remove-files"@
        || s == "--skip-old-files"@
        || s == "--delay-directory-restore"@
        || s == "--no-delay-directory-restore"@
}

fn ignored_early(s: &[char]) -> (r: bool)
    ensures
        r == is_ignored_early(s@),
{
    is(s, "--exclude-vcs-ignores")
        || is(s, "--backup")
        || is(s, "--null")
        || is(s, "--totals")
        || is(s, "--no-auto-compress")
        || is(s, "--seek")
        || is(s, "--no-seek")
        || is(s, "--ignore-failed-read")
        || is(s, "--check-device")
        || is(s, "--no-check-device")
        || is(s, "--one-file-system")
        || is(s, "--sparse")
        || is(s, "-S")
        || is(s, "--show-omitted-dirs")
        || is(s, "--keep-old-files")
        || is(s, "-k")
        || is(s, "--keep-newer-files")
        || is(s, "--keep-directory-symlink")
        || is(s, "--overwrite")
        || is(s, "--overwrite-dir")
        || is(s, "--no-overwrite-dir")
        || is(s, "--unlink-first")
        || is(s, "-U")
        || is(s, "--recursive-unlink")
        || is(s, "--remove-files")
        || is(s, "--skip-old-files")
        || is(s, "--delay-directory-restore")
        || is(s, "--no-delay-directory-restore")
}

/// Further names of options that are accepted without effect.
pub open spec fn is_ignored_late(s: Seq<char>) -> bool {
    s == "--xattrs"@
        || s == "--no-xattrs"@
        || s == "--selinux"@
        || s == "--no-selinux"@
        || s == "--multi-volume"@
        || s == "-M"@
        || s == "--verify"@
        || s == "-W"@
        || s == "--incremental"@
        || s == "-G"@
        || s == "--listed-incremental"@
        || s == "--read-full-records"@
        || s == "-B"@
        || s == "--full-time"@
        || s == "--posix"@
        || s == "--old-archive"@
        || s == "--portability"@
        || s == "--recursion"@
        || s == "--same-order"@
        || s == "--preserve-order"@
        || s == "-s"@
        || s == "--show-transformed-names"@
        || s == "--show-transformed-name"@
        || s == "--show-transformed"@
        || s == "--show-stored-names"@
        || s == "--utc"@
        || s == "--quiet"@
        || s == "--to-stdout"@
        || s == "-O"@
}

fn ignored_late(s: &[char]) -> (r: bool)
    ensures
        r == is_ignored_late(s@),
{
    is(s, "--xattrs")
        || is(s, "--no-xattrs")
        || is(s, "--selinux")
        || is(s, "--no-selinux")
        || is(s, "--multi-volume")
        || is(s, "-M")
        || is(s, "--verify")
        || is(s, "-W")
        || is(s, "--incremental")
        || is(s, "-G")
        || is(s, "--listed-incremental")
        || is(s, "--read-full-records")
        || is(s, "-B")
        || is(s, "--full-time")
        || is(s, "--posix")
        || is(s, "--old-archive")
        || is(s, "--portability")
        || is(s, "--recursion")
        || is(s, "--same-order")
        || is(s, "--preserve-order")
        || is(s, "-s")
        || is(s, "--show-transformed-names")
        || is(s, "--show-transformed-name")
        || is(s, "--show-transformed")
        || is(s, "--show-stored-names")
        || is(s, "--utc")
        || is(s, "--quiet")
        || is(s, "--to-stdout")
        || is(s, "-O")
}

/// The option without a value that a word names.
pub open spec fn flag_named(s: Seq<char>) -> Option<Flag> {
    if s == "-c"@ || s == "--create"@ {
        Some(Flag::Create)
    } else if s == "-x"@ || s == "--extract"@ || s == "--get"@ {
        Some(Flag::Extract)
    } else if s == "-t"@ || s == "--list"@ {
        Some(Flag::List)
    } else if s == "-r"@ || s == "--append"@ {
        Some(Flag::Append)
    } else if s == "-u"@ || s == "--update"@ {
        Some(Flag::Update)
    } else if s == "-d"@ || s == "--diff"@ || s == "--compare"@ {
        Some(Flag::Diff)
    } else if s == "--delete"@ {
        Some(Flag::Delete)
    } else if s == "--test-label"@ {
        Some(Flag::TestLabel)
    } else if s == "--wildcards"@ {
        Some(Flag::Wildcards)
    } else if s == "--no-wildcards"@ {
        Some(Flag::NoWildcards)
    } else if s == "--anchored"@ {
        Some(Flag::Anchored)
    } else if s == "--no-anchored"@ {
        Some(Flag::NoAnchored)
    } else if s == "--wildcards-match-slash"@ {
        Some(Flag::MatchSlash)
    } else if s == "--no-wildcards-match-slash"@ {
        Some(Flag::NoMatchSlash)
    } else if s == "--ignore-case"@ {
        Some(Flag::IgnoreCase)
    } else if s == "--no-ignore-case"@ {
        Some(Flag::NoIgnoreCase)
    } else if s == "-v"@ || s == "--verbose"@ {
        Some(Flag::Verbose)
    } else if s == "-z"@ || s == "--gzip"@ || s == "--gunzip"@ {
        Some(Flag::Compress(Compression::Gzip))
    } else if s == "-j"@ || s == "--bzip2"@ {
        Some(Flag::Compress(Compression::Bzip2))
    } else if s == "-J"@ || s == "--xz"@ {
        Some(Flag::Compress(Compression::Xz))
    } else if s == "-p"@ || s == "--preserve-permissions"@ || s == "--same-permissions"@ {
        Some(Flag::PreservePermissions)
    } else if s == "-o"@ || s == "--no-same-owner"@ {
        Some(Flag::NoSameOwner)
    } else if s == "--no-same-permissions"@ {
        Some(Flag::NoSamePermissions)
    } else if s == "--no-recursion"@ {
        Some(Flag::NoRecursion)
    } else if s == "-h"@ || s == "--dereference"@ {
        Some(Flag::Dereference)
    } else if s == "-P"@ || s == "--absolute-names"@ {
        Some(Flag::AbsoluteNames)
    } else if s == "--numeric-owner"@ {
        Some(Flag::NumericOwner)
    } else if s == "--exclude-backups"@ {
        Some(Flag::ExcludeBackups)
    } else if s == "--exclude-vcs"@ {
        Some(Flag::ExcludeVcs)
    } else if s == "--exclude-caches"@ {
        Some(Flag::ExcludeCaches(CacheExcludeMode::Normal))
    } else if s == "--exclude-caches-under"@ {
        Some(Flag::ExcludeCaches(CacheExcludeMode::Under))
    } else if s == "--exclude-caches-all"@ {
        Some(Flag::ExcludeCaches(CacheExcludeMode::All))
    } else {
        if is_ignored_early(s) || is_ignored_late(s) {
            Some(Flag::Ignored)
        } else {
            None
        }
    }
}

pub fn flag_of(s: &[char]) -> (r: Option<Flag>)
    ensures
        r == flag_named(s@),
{
    if is(s, "-c") || is(s, "--create") {
        Some(Flag::Create)
    } else if is(s, "-x") || is(s, "--extract") || is(s, "--get") {
        Some(Flag::Extract)
    } else if is(s, "-t") || is(s, "--list") {
        Some(Flag::List)
    } else if is(s, "-r") || is(s, "--append") {
        Some(Flag::Append)
    } else if is(s, "-u") || is(s, "--update") {
        Some(Flag::Update)
    } else if is(s, "-d") || is(s, "--diff") || is(s, "--compare") {
        Some(Flag::Diff)
    } else if is(s, "--delete") {
        Some(Flag::Delete)
    } else if is(s, "--test-label") {
        Some(Flag::TestLabel)
    } else if is(s, "--wildcards") {
        Some(Flag::Wildcards)
    } else if is(s, "--no-wildcards") {
        Some(Flag::NoWildcards)
    } else if is(s, "--anchored") {
        Some(Flag::Anchored)
    } else if is(s, "--no-anchored") {
        Some(Flag::NoAnchored)
    } else if is(s, "--wildcards-match-slash") {
        Some(Flag::MatchSlash)
    } else if is(s, "--no-wildcards-match-slash") {
        Some(Flag::NoMatchSlash)
    } else if is(s, "--ignore-case") {
        Some(Flag::IgnoreCase)
    } else if is(s, "--no-ignore-case") {
        Some(Flag::NoIgnoreCase)
    } else if is(s, "-v") || is(s, "--verbose") {
        Some(Flag::Verbose)
    } else if is(s, "-z") || is(s, "--gzip") || is(s, "--gunzip") {
        Some(Flag::Compress(Compression::Gzip))
    } else if is(s, "-j") || is(s, "--bzip2") {
        Some(Flag::Compress(Compression::Bzip2))
    } else if is(s, "-J") || is(s, "--xz") {
        Some(Flag::Compress(Compression::Xz))
    } else if is(s, "-p") || is(s, "--preserve-permissions") || is(s, "--same-permissions") {
        Some(Flag::PreservePermissions)
    } else if is(s, "-o") || is(s, "--no-same-owner") {
        Some(Flag::NoSameOwner)
    } else if is(s, "--no-same-permissions") {
        Some(Flag::NoSamePermissions)
    } else if is(s, "--no-recursion") {
        Some(Flag::NoRecursion)
    } else if is(s, "-h") || is(s, "--dereference") {
        Some(Flag::Dereference)
    } else if is(s, "-P") || is(s, "--absolute-names") {
        Some(Flag::AbsoluteNames)
    } else if is(s, "--numeric-owner") {
        Some(Flag::NumericOwner)
    } else if is(s, "--exclude-backups") {
        Some(Flag::ExcludeBackups)
    } else if is(s, "--exclude-vcs") {
        Some(Flag::ExcludeVcs)
    } else if is(s, "--exclude-caches") {
        Some(Flag::ExcludeCaches(CacheExcludeMode::Normal))
    } else if is(s, "--exclude-caches-under") {
        Some(Flag::ExcludeCaches(CacheExcludeMode::Under))
    } else if is(s, "--exclude-caches-all") {
        Some(Flag::ExcludeCaches(CacheExcludeMode::All))
    } else {
        if ignored_early(s) || ignored_late(s) {
            Some(Flag::Ignored)
        } else {
            None
        }
    }
}

/// The setting whose value is the next word.
pub open spec fn setting_named(s: Seq<char>) -> Option<Setting> {
    if s == "-f"@ || s == "--file"@ {
        Some(Setting::File)
    } else if s == "-C"@ || s == "--directory"@ {
        Some(Setting::Directory)
    } else if s == "--exclude"@ {
        Some(Setting::Exclude)
    } else if s == "--transform"@ || s == "--xform"@ {
        Some(Setting::Transform)
    } else if s == "--strip-components"@ || s == "--strip"@ {
        Some(Setting::StripComponents)
    } else if s == "--owner"@ {
        Some(Setting::Owner)
    } else if s == "--group"@ {
        Some(Setting::Group)
    } else if s == "--mode"@ {
        Some(Setting::Mode)
    } else if s == "--mtime"@ {
        Some(Setting::Mtime)
    } else if s == "-H"@ || s == "--format"@ {
        Some(Setting::Format { clear: false })
    } else if s == "--add-file"@ {
        Some(Setting::AddFile)
    } else if s == "-T"@ || s == "--files-from"@ {
        Some(Setting::FilesFrom { marked: true })
    } else if s == "-X"@ || s == "--exclude-from"@ {
        Some(Setting::ExcludeFrom)
    } else if s == "-V"@ || s == "--label"@ {
        Some(Setting::Label)
    } else if s == "--pax-option"@ {
        Some(Setting::PaxOption { hint: true })
    } else if s == "--checkpoint"@
        || s == "--checkpoint-action"@
        || s == "--index-file"@
        || s == "--volno-file"@
        || s == "--rsh-command"@
        || s == "--new-volume-script"@
        || s == "--blocking-factor"@
        || s == "-b"@
        || s == "--record-size"@
        || s == "--tape-length"@
        || s == "-L"@
        || s == "--occurrence"@
        || s == "--hole-detection"@
        || s == "--sparse-version"@
        || s == "--xattrs-exclude"@
        || s == "--xattrs-include"@
        || s == "--group-map"@
        || s == "--owner-map"@
        || s == "--suffix"@
        || s == "--backup-prefix"@
        || s == "--transform-option"@
        || s == "--use-compress-program"@
        || s == "-I"@ {
        Some(Setting::Ignored)
    } else {
        None
    }
}

pub fn setting_of(s: &[char]) -> (r: Option<Setting>)
    ensures
        r == setting_named(s@),
{
    if is(s, "-f") || is(s, "--file") {
        Some(Setting::File)
    } else if is(s, "-C") || is(s, "--directory") {
        Some(Setting::Directory)
    } else if is(s, "--exclude") {
        Some(Setting::Exclude)
    } else if is(s, "--transform") || is(s, "--xform") {
        Some(Setting::Transform)
    } else if is(s, "--strip-components") || is(s, "--strip") {
        Some(Setting::StripComponents)
    } else if is(s, "--owner") {
        Some(Setting::Owner)
    } else if is(s, "--group") {
        Some(Setting::Group)
    } else if is(s, "--mode") {
        Some(Setting::Mode)
    } else if is(s, "--mtime") {
        Some(Setting::Mtime)
    } else if is(s, "-H") || is(s, "--format") {
        Some(Setting::Format { clear: false })
    } else if is(s, "--add-file") {
        Some(Setting::AddFile)
    } else if is(s, "-T") || is(s, "--files-from") {
        Some(Setting::FilesFrom { marked: true })
    } else if is(s, "-X") || is(s, "--exclude-from") {
        Some(Setting::ExcludeFrom)
    } else if is(s, "-V") || is(s, "--label") {
        Some(Setting::Label)
    } else if is(s, "--pax-option") {
        Some(Setting::PaxOption { hint: true })
    } else if is(s, "--checkpoint")
        || is(s, "--checkpoint-action")
        || is(s, "--index-file")
        || is(s, "--volno-file")
        || is(s, "--rsh-command")
        || is(s, "--new-volume-script")
        || is(s, "--blocking-factor")
        || is(s, "-b")
        || is(s, "--record-size")
        || is(s, "--tape-length")
        || is(s, "-L")
        || is(s, "--occurrence")
        || is(s, "--hole-detection")
        || is(s, "--sparse-version")
        || is(s, "--xattrs-exclude")
        || is(s, "--xattrs-include")
        || is(s, "--group-map")
        || is(s, "--owner-map")
        || is(s, "--suffix")
        || is(s, "--backup-prefix")
        || is(s, "--transform-option")
        || is(s, "--use-compress-program")
        || is(s, "-I") {
        Some(Setting::Ignored)
    } else {
        None
    }
}

/// Beginnings of words that are accepted without effect.
pub open spec fn begins_ignored_early(s: Seq<char>) -> bool {
    "--warning="@.is_prefix_of(s)
        || "--blocking-factor="@.is_prefix_of(s)
        || "--record-size="@.is_prefix_of(s)
        || "--clamp-mtime="@.is_prefix_of(s)
        || "--occurrence="@.is_prefix_of(s)
        || "--xattrs-exclude="@.is_prefix_of(s)
        || "--xattrs-include="@.is_prefix_of(s)
        || "--acls"@.is_prefix_of(s)
        || "--group-map="@.is_prefix_of(s)
        || "--owner-map="@.is_prefix_of(s)
        || "--hole-detection="@.is_prefix_of(s)
        || "--sparse-version="@.is_prefix_of(s)
}

fn prefix_ignored_early(s: &[char]) -> (r: bool)
    ensures
        r == begins_ignored_early(s@),
{
    begins(s, "--warning=")
        || begins(s, "--blocking-factor=")
        || begins(s, "--record-size=")
        || begins(s, "--clamp-mtime=")
        || begins(s, "--occurrence=")
        || begins(s, "--xattrs-exclude=")
        || begins(s, "--xattrs-include=")
        || begins(s, "--acls")
        || begins(s, "--group-map=")
        || begins(s, "--owner-map=")
        || begins(s, "--hole-detection=")
        || begins(s, "--sparse-version=")
}

/// Further beginnings of words that are accepted without effect.
pub open spec fn begins_ignored_late(s: Seq<char>) -> bool {
    "--tape-length="@.is_prefix_of(s)
        || "--new-volume-script="@.is_prefix_of(s)
        || "--index-file="@.is_prefix_of(s)
        || "--checkpoint="@.is_prefix_of(s)
        || "--checkpoint-action="@.is_prefix_of(s)
        || "--volno-file="@.is_prefix_of(s)
        || "--rsh-command="@.is_prefix_of(s)
        || "--backup="@.is_prefix_of(s)
        || "--suffix="@.is_prefix_of(s)
        || "--atime-preserve="@.is_prefix_of(s)
        || "--use-compress-program="@.is_prefix_of(s)
        || "-I"@.is_prefix_of(s)
}

fn prefix_ignored_late(s: &[char]) -> (r: bool)
    ensures
        r == begins_ignored_late(s@),
{
    begins(s, "--tape-length=")
        || begins(s, "--new-volume-script=")
        || begins(s, "--index-file=")
        || begins(s, "--checkpoint=")
        || begins(s, "--checkpoint-action=")
        || begins(s, "--volno-file=")
        || begins(s, "--rsh-command=")
        || begins(s, "--backup=")
        || begins(s, "--suffix=")
        || begins(s, "--atime-preserve=")
        || begins(s, "--use-compress-program=")
        || begins(s, "-I")
}

/// The setting whose value stands behind its name in the same word, and that
/// value.
pub open spec fn attached(s: Seq<char>) -> Option<(Setting, Seq<char>)> {
    if "--file="@.is_prefix_of(s) {
        Some((Setting::File, s.skip("--file="@.len() as int)))
    } else if "--directory="@.is_prefix_of(s) {
        Some((Setting::Directory, s.skip("--directory="@.len() as int)))
    } else if "--strip-components="@.is_prefix_of(s) {
        Some((Setting::StripComponents, s.skip("--strip-components="@.len() as int)))
    } else if "--transform="@.is_prefix_of(s) {
        Some((Setting::Transform, s.skip("--transform="@.len() as int)))
    } else if "--xform="@.is_prefix_of(s) {
        Some((Setting::Transform, s.skip("--xform="@.len() as int)))
    } else if "--exclude="@.is_prefix_of(s) {
        Some((Setting::Exclude, s.skip("--exclude="@.len() as int)))
    } else if "--label="@.is_prefix_of(s) {
        Some((Setting::Label, s.skip("--label="@.len() as int)))
    } else if "--owner="@.is_prefix_of(s) {
        Some((Setting::Owner, s.skip("--owner="@.len() as int)))
    } else if "--group="@.is_prefix_of(s) {
        Some((Setting::Group, s.skip("--group="@.len() as int)))
    } else if "--sort="@.is_prefix_of(s) {
        Some((Setting::Sort, s.skip("--sort="@.len() as int)))
    } else if "--mode="@.is_prefix_of(s) {
        Some((Setting::Mode, s.skip("--mode="@.len() as int)))
    } else if "--mtime="@.is_prefix_of(s) {
        Some((Setting::Mtime, s.skip("--mtime="@.len() as int)))
    } else if "--format="@.is_prefix_of(s) {
        Some((Setting::Format { clear: false }, s.skip("--format="@.len() as int)))
    } else if "-H"@.is_prefix_of(s) {
        Some((Setting::Format { clear: false }, s.skip("-H"@.len() as int)))
    } else if "--pax-option="@.is_prefix_of(s) {
        Some((Setting::PaxOption { hint: false }, s.skip("--pax-option="@.len() as int)))
    } else if "--add-file="@.is_prefix_of(s) {
        Some((Setting::AddFile, s.skip("--add-file="@.len() as int)))
    } else if "--files-from="@.is_prefix_of(s) {
        Some((Setting::FilesFrom { marked: false }, s.skip("--files-from="@.len() as int)))
    } else if "--exclude-from="@.is_prefix_of(s) {
        Some((Setting::ExcludeFrom, s.skip("--exclude-from="@.len() as int)))
    } else if "--exclude-tag="@.is_prefix_of(s) {
        Some(
            (Setting::ExcludeTag(CacheExcludeMode::Normal), s.skip("--exclude-tag="@.len() as int)),
        )
    } else if "--exclude-tag-under="@.is_prefix_of(s) {
        Some(
            (
                Setting::ExcludeTag(CacheExcludeMode::Under),
                s.skip("--exclude-tag-under="@.len() as int),
            ),
        )
    } else if "--exclude-tag-all="@.is_prefix_of(s) {
        Some(
            (
                Setting::ExcludeTag(CacheExcludeMode::All),
                s.skip("--exclude-tag-all="@.len() as int),
            ),
        )
    } else if begins_ignored_early(s) || begins_ignored_late(s) {
        Some((Setting::Ignored, s))
    } else {
        None
    }
}

pub fn attached_value(s: &[char]) -> (r: Option<(Setting, String)>)
    ensures
        r is Some <==> attached(s@) is Some,
        r matches Some(p) ==> attached(s@) == Some((p.0, p.1@)),
{
    if begins(s, "--file=") {
        Some((Setting::File, behind(s, "--file=")))
    } else if begins(s, "--directory=") {
        Some((Setting::Directory, behind(s, "--directory=")))
    } else if begins(s, "--strip-components=") {
        Some((Setting::StripComponents, behind(s, "--strip-components=")))
    } else if begins(s, "--transform=") {
        Some((Setting::Transform, behind(s, "--transform=")))
    } else if begins(s, "--xform=") {
        Some((Setting::Transform, behind(s, "--xform=")))
    } else if begins(s, "--exclude=") {
        Some((Setting::Exclude, behind(s, "--exclude=")))
    } else if begins(s, "--label=") {
        Some((Setting::Label, behind(s, "--label=")))
    } else if begins(s, "--owner=") {
        Some((Setting::Owner, behind(s, "--owner=")))
    } else if begins(s, "--group=") {
        Some((Setting::Group, behind(s, "--group=")))
    } else if begins(s, "--sort=") {
        Some((Setting::Sort, behind(s, "--sort=")))
    } else if begins(s, "--mode=") {
        Some((Setting::Mode, behind(s, "--mode=")))
    } else if begins(s, "--mtime=") {
        Some((Setting::Mtime, behind(s, "--mtime=")))
    } else if begins(s, "--format=") {
        Some((Setting::Format { clear: false }, behind(s, "--format=")))
    } else if begins(s, "-H") {
        Some((Setting::Format { clear: false }, behind(s, "-H")))
    } else if begins(s, "--pax-option=") {
        Some((Setting::PaxOption { hint: false }, behind(s, "--pax-option=")))
    } else if begins(s, "--add-file=") {
        Some((Setting::AddFile, behind(s, "--add-file=")))
    } else if begins(s, "--files-from=") {
        Some((Setting::FilesFrom { marked: false }, behind(s, "--files-from=")))
    } else if begins(s, "--exclude-from=") {
        Some((Setting::ExcludeFrom, behind(s, "--exclude-from=")))
    } else if begins(s, "--exclude-tag=") {
        Some((Setting::ExcludeTag(CacheExcludeMode::Normal), behind(s, "--exclude-tag=")))
    } else if begins(s, "--exclude-tag-under=") {
        Some((Setting::ExcludeTag(CacheExcludeMode::Under), behind(s, "--exclude-tag-under=")))
    } else if begins(s, "--exclude-tag-all=") {
        Some((Setting::ExcludeTag(CacheExcludeMode::All), behind(s, "--exclude-tag-all=")))
    } else if prefix_ignored_early(s) || prefix_ignored_late(s) {
        Some((Setting::Ignored, from_chars(s)))
    } else {
        None
    }
}

/// What a letter of a bundle of short options means.
pub open spec fn letter(c: char) -> Letter {
    if c == 'c' {
        Letter::Flag(Flag::Create)
    } else if c == 'x' {
        Letter::Flag(Flag::Extract)
    } else if c == 't' {
        Letter::Flag(Flag::List)
    } else if c == 'r' {
        Letter::Flag(Flag::Append)
    } else if c == 'u' {
        Letter::Flag(Flag::Update)
    } else if c == 'd' {
        Letter::Flag(Flag::Diff)
    } else if c == 'v' {
        Letter::Flag(Flag::Verbose)
    } else if c == 'z' {
        Letter::Flag(Flag::Compress(Compression::Gzip))
    } else if c == 'j' {
        Letter::Flag(Flag::Compress(Compression::Bzip2))
    } else if c == 'J' {
        Letter::Flag(Flag::Compress(Compression::Xz))
    } else if c == 'p' {
        Letter::Flag(Flag::PreservePermissions)
    } else if c == 'h' {
        Letter::Flag(Flag::Dereference)
    } else if c == 'o' {
        Letter::Flag(Flag::NoSameOwner)
    } else if c == 'P' {
        Letter::Flag(Flag::AbsoluteNames)
    } else if c == 'W' || c == 'k' || c == 'S' || c == 'U' {
        Letter::Flag(Flag::Ignored)
    } else if c == 'f' {
        Letter::Valued(Setting::File)
    } else if c == 'C' {
        Letter::Valued(Setting::Directory)
    } else if c == 'T' {
        Letter::Valued(Setting::FilesFrom { marked: false })
    } else if c == 'X' {
        Letter::Valued(Setting::ExcludeFrom)
    } else if c == 'H' {
        Letter::Valued(Setting::Format { clear: true })
    } else if c == 'V' {
        Letter::Valued(Setting::Label)
    } else if c == 'b' || c == 'L' || c == 'g' || c == 'G' || c == 'I' {
        Letter::Valued(Setting::Ignored)
    } else {
        Letter::Unknown
    }
}

pub fn letter_of(c: char) -> (r: Letter)
    ensures
        r == letter(c),
{
    if c == 'c' {
        Letter::Flag(Flag::Create)
    } else if c == 'x' {
        Letter::Flag(Flag::Extract)
    } else if c == 't' {
        Letter::Flag(Flag::List)
    } else if c == 'r' {
        Letter::Flag(Flag::Append)
    } else if c == 'u' {
        Letter::Flag(Flag::Update)
    } else if c == 'd' {
        Letter::Flag(Flag::Diff)
    } else if c == 'v' {
        Letter::Flag(Flag::Verbose)
    } else if c == 'z' {
        Letter::Flag(Flag::Compress(Compression::Gzip))
    } else if c == 'j' {
        Letter::Flag(Flag::Compress(Compression::Bzip2))
    } else if c == 'J' {
        Letter::Flag(Flag::Compress(Compression::Xz))
    } else if c == 'p' {
        Letter::Flag(Flag::PreservePermissions)
    } else if c == 'h' {
        Letter::Flag(Flag::Dereference)
    } else if c == 'o' {
        Letter::Flag(Flag::NoSameOwner)
    } else if c == 'P' {
        Letter::Flag(Flag::AbsoluteNames)
    } else if c == 'W' || c == 'k' || c == 'S' || c == 'U' {
        Letter::Flag(Flag::Ignored)
    } else if c == 'f' {
        Letter::Valued(Setting::File)
    } else if c == 'C' {
        Letter::Valued(Setting::Directory)
    } else if c == 'T' {
        Letter::Valued(Setting::FilesFrom { marked: false })
    } else if c == 'X' {
        Letter::Valued(Setting::ExcludeFrom)
    } else if c == 'H' {
        Letter::Valued(Setting::Format { clear: true })
    } else if c == 'V' {
        Letter::Valued(Setting::Label)
    } else if c == 'b' || c == 'L' || c == 'g' || c == 'G' || c == 'I' {
        Letter::Valued(Setting::Ignored)
    } else {
        Letter::Unknown
    }
}

/// The names of the options without a value.
#[verifier::rlimit(60)]
#[verifier::spinoff_prover]
proof fn lemma_flag_names()
    ensures
        "-c"@ == seq!['-', 'c'],
        "--create"@.len() == 8 && "--create"@[0] == '-' && "--create"@[2] == 'c',
        "-x"@ == seq!['-', 'x'],
        "--extract"@.len() == 9 && "--extract"@[0] == '-' && "--extract"@[2] == 'e',
        "--get"@.len() == 5 && "--get"@[0] == '-' && "--get"@[2] == 'g',
        "-t"@ == seq!['-', 't'],
        "--list"@.len() == 6 && "--list"@[0] == '-' && "--list"@[2] == 'l',
        "-r"@ == seq!['-', 'r'],
        "--append"@.len() == 8 && "--append"@[0] == '-' && "--append"@[2] == 'a',
        "-u"@ == seq!['-', 'u'],
        "--update"@.len() == 8 && "--update"@[0] == '-' && "--update"@[2] == 'u',
        "-d"@ == seq!['-', 'd'],
        "--diff"@.len() == 6 && "--diff"@[0] == '-' && "--diff"@[2] == 'd',
        "--compare"@.len() == 9 && "--compare"@[0] == '-' && "--compare"@[2] == 'c',
        "--delete"@.len() == 8 && "--delete"@[0] == '-' && "--delete"@[2] == 'd',
        "--test-label"@.len() == 12 && "--test-label"@[0] == '-' && "--test-label"@[2] == 't',
        "--wildcards"@.len() == 11 && "--wildcards"@[0] == '-' && "--wildcards"@[2] == 'w',
        "--no-wildcards"@.len() == 14 && "--no-wildcards"@[0] == '-' && "--no-wildcards"@[2]
            == 'n' && "--no-wildcards"@[5] == 'w',
        "--anchored"@.len() == 10 && "--anchored"@[0] == '-',
        "--no-anchored"@.len() == 13 && "--no-anchored"@[0] == '-' && "--no-anchored"@[2] == 'n',
        "--wildcards-match-slash"@.len() == 23 && "--wildcards-match-slash"@[0] == '-'
            && "--wildcards-match-slash"@[2] == 'w',
        "--no-wildcards-match-slash"@.len() == 26 && "--no-wildcards-match-slash"@[0] == '-',
        "--ignore-case"@.len() == 13 && "--ignore-case"@[0] == '-' && "--ignore-case"@[2] == 'i'
            && "--ignore-case"@[3] == 'g',
        "--no-ignore-case"@.len() == 16 && "--no-ignore-case"@[0] == '-'
            && "--no-ignore-case"@[2] == 'n',
        "-v"@ == seq!['-', 'v'],
        "--verbose"@.len() == 9 && "--verbose"@[0] == '-' && "--verbose"@[2] == 'v',
        "-z"@ == seq!['-', 'z'],
        "--gzip"@.len() == 6 && "--gzip"@[0] == '-' && "--gzip"@[2] == 'g',
        "--gunzip"@.len() == 8 && "--gunzip"@[0] == '-' && "--gunzip"@[2] == 'g',
        "-j"@ == seq!['-', 'j'],
        "--bzip2"@.len() == 7 && "--bzip2"@[0] == '-' && "--bzip2"@[2] == 'b',
        "-J"@ == seq!['-', 'J'],
        "--xz"@.len() == 4 && "--xz"@[0] == '-',
        "-p"@ == seq!['-', 'p'],
        "--preserve-permissions"@.len() == 22 && "--preserve-permissions"@[0] == '-'
            && "--preserve-permissions"@[2] == 'p',
        "--same-permissions"@.len() == 18 && "--same-permissions"@[0] == '-'
            && "--same-permissions"@[2] == 's' && "--same-permissions"@[3] == 'a',
        "-o"@ == seq!['-', 'o'],
        "--no-same-owner"@.len() == 15 && "--no-same-owner"@[0] == '-' && "--no-same-owner"@[2]
            == 'n' && "--no-same-owner"@[3] == 'o',
        "--no-same-permissions"@.len() == 21 && "--no-same-permissions"@[0] == '-'
            && "--no-same-permissions"@[2] == 'n',
        "--no-recursion"@.len() == 14 && "--no-recursion"@[0] == '-' && "--no-recursion"@[2]
            == 'n' && "--no-recursion"@[5] == 'r',
        "-h"@ == seq!['-', 'h'],
        "--dereference"@.len() == 13 && "--dereference"@[0] == '-' && "--dereference"@[2] == 'd',
        "-P"@ == seq!['-', 'P'],
        "--absolute-names"@.len() == 16 && "--absolute-names"@[0] == '-'
            && "--absolute-names"@[2] == 'a',
        "--numeric-owner"@.len() == 15 && "--numeric-owner"@[0] == '-' && "--numeric-owner"@[2]
            == 'n' && "--numeric-owner"@[3] == 'u',
        "--exclude-backups"@.len() == 17 && "--exclude-backups"@[0] == '-'
            && "--exclude-backups"@[2] == 'e',
        "--exclude-vcs"@.len() == 13 && "--exclude-vcs"@[0] == '-' && "--exclude-vcs"@[2] == 'e',
        "--exclude-caches"@.len() == 16 && "--exclude-caches"@[0] == '-'
            && "--exclude-caches"@[2] == 'e',
        "--exclude-caches-under"@.len() == 22 && "--exclude-caches-under"@[0] == '-'
            && "--exclude-caches-under"@[2] == 'e',
        "--exclude-caches-all"@.len() == 20 && "--exclude-caches-all"@[0] == '-'
            && "--exclude-caches-all"@[2] == 'e',
        "--exclude-vcs-ignores"@.len() == 21 && "--exclude-vcs-ignores"@[0] == '-'
            && "--exclude-vcs-ignores"@[2] == 'e',
        "--backup"@.len() == 8 && "--backup"@[0] == '-' && "--backup"@[2] == 'b',
        "--null"@.len() == 6 && "--null"@[0] == '-' && "--null"@[2] == 'n',
        "--totals"@.len() == 8 && "--totals"@[0] == '-' && "--totals"@[2] == 't',
        "--no-auto-compress"@.len() == 18 && "--no-auto-compress"@[0] == '-'
            && "--no-auto-compress"@[2] == 'n' && "--no-auto-compress"@[5] == 'a',
        "--seek"@.len() == 6 && "--seek"@[0] == '-' && "--seek"@[2] == 's',
        "--no-seek"@.len() == 9 && "--no-seek"@[0] == '-' && "--no-seek"@[2] == 'n',
        "--ignore-failed-read"@.len() == 20 && "--ignore-failed-read"@[0] == '-'
            && "--ignore-failed-read"@[2] == 'i',
        "--check-device"@.len() == 14 && "--check-device"@[0] == '-' && "--check-device"@[2] == 'c',
        "--no-check-device"@.len() == 17 && "--no-check-device"@[0] == '-'
            && "--no-check-device"@[2] == 'n',
        "--one-file-system"@.len() == 17 && "--one-file-system"@[0] == '-'
            && "--one-file-system"@[2] == 'o',
        "--sparse"@.len() == 8 && "--sparse"@[0] == '-' && "--sparse"@[2] == 's',
        "-S"@ == seq!['-', 'S'],
        "--show-omitted-dirs"@.len() == 19 && "--show-omitted-dirs"@[0] == '-'
            && "--show-omitted-dirs"@[2] == 's' && "--show-omitted-dirs"@[7] == 'o',
        "--keep-old-files"@.len() == 16 && "--keep-old-files"@[0] == '-'
            && "--keep-old-files"@[2] == 'k',
        "-k"@ == seq!['-', 'k'],
        "--keep-newer-files"@.len() == 18 && "--keep-newer-files"@[0] == '-'
            && "--keep-newer-files"@[2] == 'k',
        "--keep-directory-symlink"@.len() == 24 && "--keep-directory-symlink"@[0] == '-'
            && "--keep-directory-symlink"@[2] == 'k',
        "--overwrite"@.len() == 11 && "--overwrite"@[0] == '-' && "--overwrite"@[2] == 'o',
        "--overwrite-dir"@.len() == 15 && "--overwrite-dir"@[0] == '-' && "--overwrite-dir"@[2]
            == 'o',
        "--no-overwrite-dir"@.len() == 18 && "--no-overwrite-dir"@[0] == '-'
            && "--no-overwrite-dir"@[2] == 'n' && "--no-overwrite-dir"@[5] == 'o',
        "--unlink-first"@.len() == 14 && "--unlink-first"@[0] == '-' && "--unlink-first"@[2] == 'u',
        "-U"@ == seq!['-', 'U'],
        "--recursive-unlink"@.len() == 18 && "--recursive-unlink"@[0] == '-'
            && "--recursive-unlink"@[2] == 'r',
        "--remove-files"@.len() == 14 && "--remove-files"@[0] == '-' && "--remove-files"@[2] == 'r',
        "--skip-old-files"@.len() == 16 && "--skip-old-files"@[0] == '-'
            && "--skip-old-files"@[2] == 's',
        "--delay-directory-restore"@.len() == 25 && "--delay-directory-restore"@[0] == '-',
        "--no-delay-directory-restore"@.len() == 28 && "--no-delay-directory-restore"@[0] == '-',
        "--xattrs"@.len() == 8 && "--xattrs"@[0] == '-' && "--xattrs"@[2] == 'x',
        "--no-xattrs"@.len() == 11 && "--no-xattrs"@[0] == '-' && "--no-xattrs"@[2] == 'n',
        "--selinux"@.len() == 9 && "--selinux"@[0] == '-' && "--selinux"@[2] == 's',
        "--no-selinux"@.len() == 12 && "--no-selinux"@[0] == '-' && "--no-selinux"@[2] == 'n',
        "--multi-volume"@.len() == 14 && "--multi-volume"@[0] == '-' && "--multi-volume"@[2] == 'm',
        "-M"@ == seq!['-', 'M'],
        "--verify"@.len() == 8 && "--verify"@[0] == '-' && "--verify"@[2] == 'v',
        "-W"@ == seq!['-', 'W'],
        "--incremental"@.len() == 13 && "--incremental"@[0] == '-' && "--incremental"@[2] == 'i'
            && "--incremental"@[3] == 'n',
        "-G"@ == seq!['-', 'G'],
        "--listed-incremental"@.len() == 20 && "--listed-incremental"@[0] == '-'
            && "--listed-incremental"@[2] == 'l',
        "--read-full-records"@.len() == 19 && "--read-full-records"@[0] == '-'
            && "--read-full-records"@[2] == 'r',
        "-B"@ == seq!['-', 'B'],
        "--full-time"@.len() == 11 && "--full-time"@[0] == '-' && "--full-time"@[2] == 'f',
        "--posix"@.len() == 7 && "--posix"@[0] == '-' && "--posix"@[2] == 'p',
        "--old-archive"@.len() == 13 && "--old-archive"@[0] == '-' && "--old-archive"@[2] == 'o',
        "--portability"@.len() == 13 && "--portability"@[0] == '-' && "--portability"@[2] == 'p',
        "--recursion"@.len() == 11 && "--recursion"@[0] == '-' && "--recursion"@[2] == 'r',
        "--same-order"@.len() == 12 && "--same-order"@[0] == '-' && "--same-order"@[2] == 's',
        "--preserve-order"@.len() == 16 && "--preserve-order"@[0] == '-'
            && "--preserve-order"@[2] == 'p',
        "-s"@ == seq!['-', 's'],
        "--show-transformed-names"@.len() == 24 && "--show-transformed-names"@[0] == '-'
            && "--show-transformed-names"@[2] == 's',
        "--show-transformed-name"@.len() == 23 && "--show-transformed-name"@[0] == '-'
            && "--show-transformed-name"@[2] == 's',
        "--show-transformed"@.len() == 18 && "--show-transformed"@[0] == '-'
            && "--show-transformed"@[2] == 's' && "--show-transformed"@[3] == 'h',
        "--show-stored-names"@.len() == 19 && "--show-stored-names"@[0] == '-'
            && "--show-stored-names"@[2] == 's' && "--show-stored-names"@[7] == 's',
        "--utc"@.len() == 5 && "--utc"@[0] == '-' && "--utc"@[2] == 'u',
        "--quiet"@.len() == 7 && "--quiet"@[0] == '-' && "--quiet"@[2] == 'q',
        "--to-stdout"@.len() == 11 && "--to-stdout"@[0] == '-' && "--to-stdout"@[2] == 't',
        "-O"@ == seq!['-', 'O'],
{
    reveal_strlit("-c");
    assert("-c"@ =~= seq!['-', 'c']);
    reveal_strlit("--create");
    reveal_strlit("-x");
    assert("-x"@ =~= seq!['-', 'x']);
    reveal_strlit("--extract");
    reveal_strlit("--get");
    reveal_strlit("-t");
    assert("-t"@ =~= seq!['-', 't']);
    reveal_strlit("--list");
    reveal_strlit("-r");
    assert("-r"@ =~= seq!['-', 'r']);
    reveal_strlit("--append");
    reveal_strlit("-u");
    assert("-u"@ =~= seq!['-', 'u']);
    reveal_strlit("--update");
    reveal_strlit("-d");
    assert("-d"@ =~= seq!['-', 'd']);
    reveal_strlit("--diff");
    reveal_strlit("--compare");
    reveal_strlit("--delete");
    reveal_strlit("--test-label");
    reveal_strlit("--wildcards");
    reveal_strlit("--no-wildcards");
    reveal_strlit("--anchored");
    reveal_strlit("--no-anchored");
    reveal_strlit("--wildcards-match-slash");
    reveal_strlit("--no-wildcards-match-slash");
    reveal_strlit("--ignore-case");
    reveal_strlit("--no-ignore-case");
    reveal_strlit("-v");
    assert("-v"@ =~= seq!['-', 'v']);
    reveal_strlit("--verbose");
    reveal_strlit("-z");
    assert("-z"@ =~= seq!['-', 'z']);
    reveal_strlit("--gzip");
    reveal_strlit("--gunzip");
    reveal_strlit("-j");
    assert("-j"@ =~= seq!['-', 'j']);
    reveal_strlit("--bzip2");
    reveal_strlit("-J");
    assert("-J"@ =~= seq!['-', 'J']);
    reveal_strlit("--xz");
    reveal_strlit("-p");
    assert("-p"@ =~= seq!['-', 'p']);
    reveal_strlit("--preserve-permissions");
    reveal_strlit("--same-permissions");
    reveal_strlit("-o");
    assert("-o"@ =~= seq!['-', 'o']);
    reveal_strlit("--no-same-owner");
    reveal_strlit("--no-same-permissions");
    reveal_strlit("--no-recursion");
    reveal_strlit("-h");
    assert("-h"@ =~= seq!['-', 'h']);
    reveal_strlit("--dereference");
    reveal_strlit("-P");
    assert("-P"@ =~= seq!['-', 'P']);
    reveal_strlit("--absolute-names");
    reveal_strlit("--numeric-owner");
    reveal_strlit("--exclude-backups");
    reveal_strlit("--exclude-vcs");
    reveal_strlit("--exclude-caches");
    reveal_strlit("--exclude-caches-under");
    reveal_strlit("--exclude-caches-all");
    reveal_strlit("--exclude-vcs-ignores");
    reveal_strlit("--backup");
    reveal_strlit("--null");
    reveal_strlit("--totals");
    reveal_strlit("--no-auto-compress");
    reveal_strlit("--seek");
    reveal_strlit("--no-seek");
    reveal_strlit("--ignore-failed-read");
    reveal_strlit("--check-device");
    reveal_strlit("--no-check-device");
    reveal_strlit("--one-file-system");
    reveal_strlit("--sparse");
    reveal_strlit("-S");
    assert("-S"@ =~= seq!['-', 'S']);
    reveal_strlit("--show-omitted-dirs");
    reveal_strlit("--keep-old-files");
    reveal_strlit("-k");
    assert("-k"@ =~= seq!['-', 'k']);
    reveal_strlit("--keep-newer-files");
    reveal_strlit("--keep-directory-symlink");
    reveal_strlit("--overwrite");
    reveal_strlit("--overwrite-dir");
    reveal_strlit("--no-overwrite-dir");
    reveal_strlit("--unlink-first");
    reveal_strlit("-U");
    assert("-U"@ =~= seq!['-', 'U']);
    reveal_strlit("--recursive-unlink");
    reveal_strlit("--remove-files");
    reveal_strlit("--skip-old-files");
    reveal_strlit("--delay-directory-restore");
    reveal_strlit("--no-delay-directory-restore");
    reveal_strlit("--xattrs");
    reveal_strlit("--no-xattrs");
    reveal_strlit("--selinux");
    reveal_strlit("--no-selinux");
    reveal_strlit("--multi-volume");
    reveal_strlit("-M");
    assert("-M"@ =~= seq!['-', 'M']);
    reveal_strlit("--verify");
    reveal_strlit("-W");
    assert("-W"@ =~= seq!['-', 'W']);
    reveal_strlit("--incremental");
    reveal_strlit("-G");
    assert("-G"@ =~= seq!['-', 'G']);
    reveal_strlit("--listed-incremental");
    reveal_strlit("--read-full-records");
    reveal_strlit("-B");
    assert("-B"@ =~= seq!['-', 'B']);
    reveal_strlit("--full-time");
    reveal_strlit("--posix");
    reveal_strlit("--old-archive");
    reveal_strlit("--portability");
    reveal_strlit("--recursion");
    reveal_strlit("--same-order");
    reveal_strlit("--preserve-order");
    reveal_strlit("-s");
    assert("-s"@ =~= seq!['-', 's']);
    reveal_strlit("--show-transformed-names");
    reveal_strlit("--show-transformed-name");
    reveal_strlit("--show-transformed");
    reveal_strlit("--show-stored-names");
    reveal_strlit("--utc");
    reveal_strlit("--quiet");
    reveal_strlit("--to-stdout");
    reveal_strlit("-O");
    assert("-O"@ =~= seq!['-', 'O']);
}

/// The names of the options with a value.
#[verifier::rlimit(60)]
#[verifier::spinoff_prover]
proof fn lemma_setting_names()
    ensures
        "-f"@ == seq!['-', 'f'],
        "--file"@.len() == 6 && "--file"@[0] == '-' && "--file"@[2] == 'f',
        "-C"@ == seq!['-', 'C'],
        "--directory"@.len() == 11 && "--directory"@[0] == '-' && "--directory"@[2] == 'd',
        "--exclude"@.len() == 9 && "--exclude"@[0] == '-',
        "--transform"@.len() == 11 && "--transform"@[0] == '-' && "--transform"@[2] == 't',
        "--xform"@.len() == 7 && "--xform"@[0] == '-' && "--xform"@[2] == 'x',
        "--strip-components"@.len() == 18 && "--strip-components"@[0] == '-'
            && "--strip-components"@[2] == 's',
        "--strip"@.len() == 7 && "--strip"@[0] == '-' && "--strip"@[2] == 's',
        "--owner"@.len() == 7 && "--owner"@[0] == '-' && "--owner"@[2] == 'o',
        "--group"@.len() == 7 && "--group"@[0] == '-' && "--group"@[2] == 'g',
        "--mode"@.len() == 6 && "--mode"@[0] == '-' && "--mode"@[2] == 'm',
        "--mtime"@.len() == 7 && "--mtime"@[0] == '-' && "--mtime"@[2] == 'm',
        "-H"@ == seq!['-', 'H'],
        "--format"@.len() == 8 && "--format"@[0] == '-' && "--format"@[2] == 'f',
        "--add-file"@.len() == 10 && "--add-file"@[0] == '-',
        "-T"@ == seq!['-', 'T'],
        "--files-from"@.len() == 12 && "--files-from"@[0] == '-' && "--files-from"@[2] == 'f',
        "-X"@ == seq!['-', 'X'],
        "--exclude-from"@.len() == 14 && "--exclude-from"@[0] == '-',
        "-V"@ == seq!['-', 'V'],
        "--label"@.len() == 7 && "--label"@[0] == '-' && "--label"@[2] == 'l',
        "--pax-option"@.len() == 12 && "--pax-option"@[0] == '-' && "--pax-option"@[2] == 'p',
        "--checkpoint"@.len() == 12 && "--checkpoint"@[0] == '-' && "--checkpoint"@[2] == 'c',
        "--checkpoint-action"@.len() == 19 && "--checkpoint-action"@[0] == '-'
            && "--checkpoint-action"@[2] == 'c',
        "--index-file"@.len() == 12 && "--index-file"@[0] == '-' && "--index-file"@[2] == 'i',
        "--volno-file"@.len() == 12 && "--volno-file"@[0] == '-' && "--volno-file"@[2] == 'v',
        "--rsh-command"@.len() == 13 && "--rsh-command"@[0] == '-' && "--rsh-command"@[2] == 'r'
            && "--rsh-command"@[3] == 's',
        "--new-volume-script"@.len() == 19 && "--new-volume-script"@[0] == '-'
            && "--new-volume-script"@[2] == 'n',
        "--blocking-factor"@.len() == 17 && "--blocking-factor"@[0] == '-',
        "-b"@ == seq!['-', 'b'],
        "--record-size"@.len() == 13 && "--record-size"@[0] == '-' && "--record-size"@[2] == 'r'
            && "--record-size"@[3] == 'e',
        "--tape-length"@.len() == 13 && "--tape-length"@[0] == '-' && "--tape-length"@[2] == 't',
        "-L"@ == seq!['-', 'L'],
        "--occurrence"@.len() == 12 && "--occurrence"@[0] == '-' && "--occurrence"@[2] == 'o',
        "--hole-detection"@.len() == 16 && "--hole-detection"@[0] == '-'
            && "--hole-detection"@[2] == 'h',
        "--sparse-version"@.len() == 16 && "--sparse-version"@[0] == '-'
            && "--sparse-version"@[2] == 's',
        "--xattrs-exclude"@.len() == 16 && "--xattrs-exclude"@[0] == '-'
            && "--xattrs-exclude"@[2] == 'x' && "--xattrs-exclude"@[9] == 'e',
        "--xattrs-include"@.len() == 16 && "--xattrs-include"@[0] == '-'
            && "--xattrs-include"@[2] == 'x' && "--xattrs-include"@[9] == 'i',
        "--group-map"@.len() == 11 && "--group-map"@[0] == '-' && "--group-map"@[2] == 'g',
        "--owner-map"@.len() == 11 && "--owner-map"@[0] == '-' && "--owner-map"@[2] == 'o',
        "--suffix"@.len() == 8 && "--suffix"@[0] == '-' && "--suffix"@[2] == 's',
        "--backup-prefix"@.len() == 15 && "--backup-prefix"@[0] == '-',
        "--transform-option"@.len() == 18 && "--transform-option"@[0] == '-'
            && "--transform-option"@[2] == 't',
        "--use-compress-program"@.len() == 22 && "--use-compress-program"@[0] == '-',
        "-I"@ == seq!['-', 'I'],
{
    reveal_strlit("-f");
    assert("-f"@ =~= seq!['-', 'f']);
    reveal_strlit("--file");
    reveal_strlit("-C");
    assert("-C"@ =~= seq!['-', 'C']);
    reveal_strlit("--directory");
    reveal_strlit("--exclude");
    reveal_strlit("--transform");
    reveal_strlit("--xform");
    reveal_strlit("--strip-components");
    reveal_strlit("--strip");
    reveal_strlit("--owner");
    reveal_strlit("--group");
    reveal_strlit("--mode");
    reveal_strlit("--mtime");
    reveal_strlit("-H");
    assert("-H"@ =~= seq!['-', 'H']);
    reveal_strlit("--format");
    reveal_strlit("--add-file");
    reveal_strlit("-T");
    assert("-T"@ =~= seq!['-', 'T']);
    reveal_strlit("--files-from");
    reveal_strlit("-X");
    assert("-X"@ =~= seq!['-', 'X']);
    reveal_strlit("--exclude-from");
    reveal_strlit("-V");
    assert("-V"@ =~= seq!['-', 'V']);
    reveal_strlit("--label");
    reveal_strlit("--pax-option");
    reveal_strlit("--checkpoint");
    reveal_strlit("--checkpoint-action");
    reveal_strlit("--index-file");
    reveal_strlit("--volno-file");
    reveal_strlit("--rsh-command");
    reveal_strlit("--new-volume-script");
    reveal_strlit("--blocking-factor");
    reveal_strlit("-b");
    assert("-b"@ =~= seq!['-', 'b']);
    reveal_strlit("--record-size");
    reveal_strlit("--tape-length");
    reveal_strlit("-L");
    assert("-L"@ =~= seq!['-', 'L']);
    reveal_strlit("--occurrence");
    reveal_strlit("--hole-detection");
    reveal_strlit("--sparse-version");
    reveal_strlit("--xattrs-exclude");
    reveal_strlit("--xattrs-include");
    reveal_strlit("--group-map");
    reveal_strlit("--owner-map");
    reveal_strlit("--suffix");
    reveal_strlit("--backup-prefix");
    reveal_strlit("--transform-option");
    reveal_strlit("--use-compress-program");
    reveal_strlit("-I");
    assert("-I"@ =~= seq!['-', 'I']);
}

/// The words that ask for operations and for rules of matching.
#[verifier::rlimit(60)]
#[verifier::spinoff_prover]
pub proof fn law_flag_words_first(w: Seq<char>)
    ensures
        flag_named(w) == Some(Flag::Create) <==> w == "-c"@ || w == "--create"@,
        flag_named(w) == Some(Flag::Extract) <==> w == "-x"@ || w == "--extract"@ || w == "--get"@,
        flag_named(w) == Some(Flag::List) <==> w == "-t"@ || w == "--list"@,
        flag_named(w) == Some(Flag::Append) <==> w == "-r"@ || w == "--append"@,
        flag_named(w) == Some(Flag::Update) <==> w == "-u"@ || w == "--update"@,
        flag_named(w) == Some(Flag::Diff) <==> w == "-d"@ || w == "--diff"@ || w == "--compare"@,
        flag_named(w) == Some(Flag::Delete) <==> w == "--delete"@,
        flag_named(w) == Some(Flag::TestLabel) <==> w == "--test-label"@,
        flag_named(w) == Some(Flag::Wildcards) <==> w == "--wildcards"@,
        flag_named(w) == Some(Flag::NoWildcards) <==> w == "--no-wildcards"@,
{
    lemma_flag_names();
}

/// The words that ask for rules of matching, compression and permissions.
#[verifier::rlimit(60)]
#[verifier::spinoff_prover]
pub proof fn law_flag_words_second(w: Seq<char>)
    ensures
        flag_named(w) == Some(Flag::Anchored) <==> w == "--anchored"@,
        flag_named(w) == Some(Flag::NoAnchored) <==> w == "--no-anchored"@,
        flag_named(w) == Some(Flag::MatchSlash) <==> w == "--wildcards-match-slash"@,
        flag_named(w) == Some(Flag::NoMatchSlash) <==> w == "--no-wildcards-match-slash"@,
        flag_named(w) == Some(Flag::IgnoreCase) <==> w == "--ignore-case"@,
        flag_named(w) == Some(Flag::NoIgnoreCase) <==> w == "--no-ignore-case"@,
        flag_named(w) == Some(Flag::Verbose) <==> w == "-v"@ || w == "--verbose"@,
        flag_named(w) == Some(Flag::Compress(Compression::Gzip)) <==> w == "-z"@ || w
            == "--gzip"@ || w == "--gunzip"@,
        flag_named(w) == Some(Flag::Compress(Compression::Bzip2)) <==> w == "-j"@ || w
            == "--bzip2"@,
        flag_named(w) == Some(Flag::Compress(Compression::Xz)) <==> w == "-J"@ || w == "--xz"@,
{
    lemma_flag_names();
}

/// The words that ask for other switches and for fixed exclusions.
#[verifier::rlimit(60)]
#[verifier::spinoff_prover]
pub proof fn law_flag_words_third(w: Seq<char>)
    ensures
        flag_named(w) == Some(Flag::PreservePermissions) <==> w == "-p"@ || w
            == "--preserve-permissions"@ || w == "--same-permissions"@,
        flag_named(w) == Some(Flag::NoSameOwner) <==> w == "-o"@ || w == "--no-same-owner"@,
        flag_named(w) == Some(Flag::NoSamePermissions) <==> w == "--no-same-permissions"@,
        flag_named(w) == Some(Flag::NoRecursion) <==> w == "--no-recursion"@,
        flag_named(w) == Some(Flag::Dereference) <==> w == "-h"@ || w == "--dereference"@,
        flag_named(w) == Some(Flag::AbsoluteNames) <==> w == "-P"@ || w == "--absolute-names"@,
        flag_named(w) == Some(Flag::NumericOwner) <==> w == "--numeric-owner"@,
        flag_named(w) == Some(Flag::ExcludeBackups) <==> w == "--exclude-backups"@,
        flag_named(w) == Some(Flag::ExcludeVcs) <==> w == "--exclude-vcs"@,
        flag_named(w) == Some(Flag::ExcludeCaches(CacheExcludeMode::Normal)) <==> w
            == "--exclude-caches"@,
        flag_named(w) == Some(Flag::ExcludeCaches(CacheExcludeMode::Under)) <==> w
            == "--exclude-caches-under"@,
        flag_named(w) == Some(Flag::ExcludeCaches(CacheExcludeMode::All)) <==> w
            == "--exclude-caches-all"@,
{
    lemma_flag_names();
}

/// The words that are accepted without effect.
#[verifier::rlimit(60)]
#[verifier::spinoff_prover]
pub proof fn law_ignored_words(w: Seq<char>)
    ensures
        flag_named(w) == Some(Flag::Ignored) <==> {
            ||| w == "--exclude-vcs-ignores"@
            ||| w == "--backup"@
            ||| w == "--null"@
            ||| w == "--totals"@
            ||| w == "--no-auto-compress"@
            ||| w == "--seek"@
            ||| w == "--no-seek"@
            ||| w == "--ignore-failed-read"@
            ||| w == "--check-device"@
            ||| w == "--no-check-device"@
            ||| w == "--one-file-system"@
            ||| w == "--sparse"@
            ||| w == "-S"@
            ||| w == "--show-omitted-dirs"@
            ||| w == "--keep-old-files"@
            ||| w == "-k"@
            ||| w == "--keep-newer-files"@
            ||| w == "--keep-directory-symlink"@
            ||| w == "--overwrite"@
            ||| w == "--overwrite-dir"@
            ||| w == "--no-overwrite-dir"@
            ||| w == "--unlink-first"@
            ||| w == "-U"@
            ||| w == "--recursive-unlink"@
            ||| w == "--remove-files"@
            ||| w == "--skip-old-files"@
            ||| w == "--delay-directory-restore"@
            ||| w == "--no-delay-directory-restore"@
            ||| w == "--xattrs"@
            ||| w == "--no-xattrs"@
            ||| w == "--selinux"@
            ||| w == "--no-selinux"@
            ||| w == "--multi-volume"@
            ||| w == "-M"@
            ||| w == "--verify"@
            ||| w == "-W"@
            ||| w == "--incremental"@
            ||| w == "-G"@
            ||| w == "--listed-incremental"@
            ||| w == "--read-full-records"@
            ||| w == "-B"@
            ||| w == "--full-time"@
            ||| w == "--posix"@
            ||| w == "--old-archive"@
            ||| w == "--portability"@
            ||| w == "--recursion"@
            ||| w == "--same-order"@
            ||| w == "--preserve-order"@
            ||| w == "-s"@
            ||| w == "--show-transformed-names"@
            ||| w == "--show-transformed-name"@
            ||| w == "--show-transformed"@
            ||| w == "--show-stored-names"@
            ||| w == "--utc"@
            ||| w == "--quiet"@
            ||| w == "--to-stdout"@
            ||| w == "-O"@
        },
{
    lemma_flag_names();
}

/// The words that are accepted without effect together with the next word.
#[verifier::rlimit(60)]
#[verifier::spinoff_prover]
pub proof fn law_ignored_settings(w: Seq<char>)
    ensures
        setting_named(w) == Some(Setting::Ignored) <==> {
            ||| w == "--checkpoint"@
            ||| w == "--checkpoint-action"@
            ||| w == "--index-file"@
            ||| w == "--volno-file"@
            ||| w == "--rsh-command"@
            ||| w == "--new-volume-script"@
            ||| w == "--blocking-factor"@
            ||| w == "-b"@
            ||| w == "--record-size"@
            ||| w == "--tape-length"@
            ||| w == "-L"@
            ||| w == "--occurrence"@
            ||| w == "--hole-detection"@
            ||| w == "--sparse-version"@
            ||| w == "--xattrs-exclude"@
            ||| w == "--xattrs-include"@
            ||| w == "--group-map"@
            ||| w == "--owner-map"@
            ||| w == "--suffix"@
            ||| w == "--backup-prefix"@
            ||| w == "--transform-option"@
            ||| w == "--use-compress-program"@
            ||| w == "-I"@
        },
{
    lemma_setting_names();
}

/// The words whose value is the next word.
#[verifier::rlimit(60)]
#[verifier::spinoff_prover]
pub proof fn law_setting_words(w: Seq<char>)
    ensures
        setting_named(w) == Some(Setting::File) <==> w == "-f"@ || w == "--file"@,
        setting_named(w) == Some(Setting::Directory) <==> w == "-C"@ || w == "--directory"@,
        setting_named(w) == Some(Setting::Exclude) <==> w == "--exclude"@,
        setting_named(w) == Some(Setting::Transform) <==> w == "--transform"@ || w == "--xform"@,
        setting_named(w) == Some(Setting::StripComponents) <==> w == "--strip-components"@ || w
            == "--strip"@,
        setting_named(w) == Some(Setting::Owner) <==> w == "--owner"@,
        setting_named(w) == Some(Setting::Group) <==> w == "--group"@,
        setting_named(w) == Some(Setting::Mode) <==> w == "--mode"@,
        setting_named(w) == Some(Setting::Mtime) <==> w == "--mtime"@,
        setting_named(w) == Some(Setting::Format { clear: false }) <==> w == "-H"@ || w
            == "--format"@,
        setting_named(w) == Some(Setting::AddFile) <==> w == "--add-file"@,
        setting_named(w) == Some(Setting::FilesFrom { marked: true }) <==> w == "-T"@ || w
            == "--files-from"@,
        setting_named(w) == Some(Setting::ExcludeFrom) <==> w == "-X"@ || w == "--exclude-from"@,
        setting_named(w) == Some(Setting::Label) <==> w == "-V"@ || w == "--label"@,
        setting_named(w) == Some(Setting::PaxOption { hint: true }) <==> w == "--pax-option"@,
{
    lemma_setting_names();
}

proof fn lemma_other_beginning(a: Seq<char>, b: Seq<char>, v: Seq<char>, i: int)
    requires
        0 <= i < a.len(),
        i < b.len(),
        a[i] != b[i],
    ensures
        !a.is_prefix_of(b + v),
{
    if a.is_prefix_of(b + v) {
        assert((b + v).subrange(0, a.len() as int)[i] == b[i]);
    }
}

proof fn lemma_own_beginning(b: Seq<char>, v: Seq<char>)
    ensures
        b.is_prefix_of(b + v),
        (b + v).skip(b.len() as int) == v,
{
    assert(b =~= (b + v).subrange(0, b.len() as int));
    assert((b + v).skip(b.len() as int) =~= v);
}

/// The beginnings of words that have their value behind them.
#[verifier::rlimit(60)]
#[verifier::spinoff_prover]
pub proof fn law_attached_words_first(v: Seq<char>)
    ensures
        attached("--file="@ + v) == Some((Setting::File, v)),
        attached("--directory="@ + v) == Some((Setting::Directory, v)),
        attached("--strip-components="@ + v) == Some((Setting::StripComponents, v)),
        attached("--transform="@ + v) == Some((Setting::Transform, v)),
        attached("--xform="@ + v) == Some((Setting::Transform, v)),
        attached("--exclude="@ + v) == Some((Setting::Exclude, v)),
        attached("--label="@ + v) == Some((Setting::Label, v)),
        attached("--owner="@ + v) == Some((Setting::Owner, v)),
        attached("--group="@ + v) == Some((Setting::Group, v)),
        attached("--sort="@ + v) == Some((Setting::Sort, v)),
{
    reveal_strlit("--file=");
    reveal_strlit("--directory=");
    reveal_strlit("--strip-components=");
    reveal_strlit("--transform=");
    reveal_strlit("--xform=");
    reveal_strlit("--exclude=");
    reveal_strlit("--label=");
    reveal_strlit("--owner=");
    reveal_strlit("--group=");
    reveal_strlit("--sort=");
    assert(attached("--file="@ + v) == Some((Setting::File, v))) by {
        lemma_own_beginning("--file="@, v);
    }
    assert(attached("--directory="@ + v) == Some((Setting::Directory, v))) by {
        lemma_other_beginning("--file="@, "--directory="@, v, 2);
        lemma_own_beginning("--directory="@, v);
    }
    assert(attached("--strip-components="@ + v) == Some((Setting::StripComponents, v))) by {
        lemma_other_beginning("--file="@, "--strip-components="@, v, 2);
        lemma_other_beginning("--directory="@, "--strip-components="@, v, 2);
        lemma_own_beginning("--strip-components="@, v);
    }
    assert(attached("--transform="@ + v) == Some((Setting::Transform, v))) by {
        lemma_other_beginning("--file="@, "--transform="@, v, 2);
        lemma_other_beginning("--directory="@, "--transform="@, v, 2);
        lemma_other_beginning("--strip-components="@, "--transform="@, v, 2);
        lemma_own_beginning("--transform="@, v);
    }
    assert(attached("--xform="@ + v) == Some((Setting::Transform, v))) by {
        lemma_other_beginning("--file="@, "--xform="@, v, 2);
        lemma_other_beginning("--directory="@, "--xform="@, v, 2);
        lemma_other_beginning("--strip-components="@, "--xform="@, v, 2);
        lemma_other_beginning("--transform="@, "--xform="@, v, 2);
        lemma_own_beginning("--xform="@, v);
    }
    assert(attached("--exclude="@ + v) == Some((Setting::Exclude, v))) by {
        lemma_other_beginning("--file="@, "--exclude="@, v, 2);
        lemma_other_beginning("--directory="@, "--exclude="@, v, 2);
        lemma_other_beginning("--strip-components="@, "--exclude="@, v, 2);
        lemma_other_beginning("--transform="@, "--exclude="@, v, 2);
        lemma_other_beginning("--xform="@, "--exclude="@, v, 2);
        lemma_own_beginning("--exclude="@, v);
    }
    assert(attached("--label="@ + v) == Some((Setting::Label, v))) by {
        lemma_other_beginning("--file="@, "--label="@, v, 2);
        lemma_other_beginning("--directory="@, "--label="@, v, 2);
        lemma_other_beginning("--strip-components="@, "--label="@, v, 2);
        lemma_other_beginning("--transform="@, "--label="@, v, 2);
        lemma_other_beginning("--xform="@, "--label="@, v, 2);
        lemma_other_beginning("--exclude="@, "--label="@, v, 2);
        lemma_own_beginning("--label="@, v);
    }
    assert(attached("--owner="@ + v) == Some((Setting::Owner, v))) by {
        lemma_other_beginning("--file="@, "--owner="@, v, 2);
        lemma_other_beginning("--directory="@, "--owner="@, v, 2);
        lemma_other_beginning("--strip-components="@, "--owner="@, v, 2);
        lemma_other_beginning("--transform="@, "--owner="@, v, 2);
        lemma_other_beginning("--xform="@, "--owner="@, v, 2);
        lemma_other_beginning("--exclude="@, "--owner="@, v, 2);
        lemma_other_beginning("--label="@, "--owner="@, v, 2);
        lemma_own_beginning("--owner="@, v);
    }
    assert(attached("--group="@ + v) == Some((Setting::Group, v))) by {
        lemma_other_beginning("--file="@, "--group="@, v, 2);
        lemma_other_beginning("--directory="@, "--group="@, v, 2);
        lemma_other_beginning("--strip-components="@, "--group="@, v, 2);
        lemma_other_beginning("--transform="@, "--group="@, v, 2);
        lemma_other_beginning("--xform="@, "--group="@, v, 2);
        lemma_other_beginning("--exclude="@, "--group="@, v, 2);
        lemma_other_beginning("--label="@, "--group="@, v, 2);
        lemma_other_beginning("--owner="@, "--group="@, v, 2);
        lemma_own_beginning("--group="@, v);
    }
    assert(attached("--sort="@ + v) == Some((Setting::Sort, v))) by {
        lemma_other_beginning("--file="@, "--sort="@, v, 2);
        lemma_other_beginning("--directory="@, "--sort="@, v, 2);
        lemma_other_beginning("--strip-components="@, "--sort="@, v, 3);
        lemma_other_beginning("--transform="@, "--sort="@, v, 2);
        lemma_other_beginning("--xform="@, "--sort="@, v, 2);
        lemma_other_beginning("--exclude="@, "--sort="@, v, 2);
        lemma_other_beginning("--label="@, "--sort="@, v, 2);
        lemma_other_beginning("--owner="@, "--sort="@, v, 2);
        lemma_other_beginning("--group="@, "--sort="@, v, 2);
        lemma_own_beginning("--sort="@, v);
    }
}

/// The beginnings of words that have their value behind them.
#[verifier::rlimit(60)]
#[verifier::spinoff_prover]
pub proof fn law_attached_words_second(v: Seq<char>)
    ensures
        attached("--mode="@ + v) == Some((Setting::Mode, v)),
        attached("--mtime="@ + v) == Some((Setting::Mtime, v)),
        attached("--format="@ + v) == Some((Setting::Format { clear: false }, v)),
        attached("-H"@ + v) == Some((Setting::Format { clear: false }, v)),
        attached("--pax-option="@ + v) == Some((Setting::PaxOption { hint: false }, v)),
        attached("--add-file="@ + v) == Some((Setting::AddFile, v)),
        attached("--files-from="@ + v) == Some((Setting::FilesFrom { marked: false }, v)),
        attached("--exclude-from="@ + v) == Some((Setting::ExcludeFrom, v)),
        attached("--exclude-tag="@ + v) == Some((Setting::ExcludeTag(CacheExcludeMode::Normal), v)),
        attached("--exclude-tag-under="@ + v)
            == Some((Setting::ExcludeTag(CacheExcludeMode::Under), v)),
        attached("--exclude-tag-all="@ + v)
            == Some((Setting::ExcludeTag(CacheExcludeMode::All), v)),
{
    reveal_strlit("--file=");
    reveal_strlit("--directory=");
    reveal_strlit("--strip-components=");
    reveal_strlit("--transform=");
    reveal_strlit("--xform=");
    reveal_strlit("--exclude=");
    reveal_strlit("--label=");
    reveal_strlit("--owner=");
    reveal_strlit("--group=");
    reveal_strlit("--sort=");
    reveal_strlit("--mode=");
    reveal_strlit("--mtime=");
    reveal_strlit("--format=");
    reveal_strlit("-H");
    reveal_strlit("--pax-option=");
    reveal_strlit("--add-file=");
    reveal_strlit("--files-from=");
    reveal_strlit("--exclude-from=");
    reveal_strlit("--exclude-tag=");
    reveal_strlit("--exclude-tag-under=");
    reveal_strlit("--exclude-tag-all=");
    assert(attached("--mode="@ + v) == Some((Setting::Mode, v))) by {
        lemma_other_beginning("--file="@, "--mode="@, v, 2);
        lemma_other_beginning("--directory="@, "--mode="@, v, 2);
        lemma_other_beginning("--strip-components="@, "--mode="@, v, 2);
        lemma_other_beginning("--transform="@, "--mode="@, v, 2);
        lemma_other_beginning("--xform="@, "--mode="@, v, 2);
        lemma_other_beginning("--exclude="@, "--mode="@, v, 2);
        lemma_other_beginning("--label="@, "--mode="@, v, 2);
        lemma_other_beginning("--owner="@, "--mode="@, v, 2);
        lemma_other_beginning("--group="@, "--mode="@, v, 2);
        lemma_other_beginning("--sort="@, "--mode="@, v, 2);
        lemma_own_beginning("--mode="@, v);
    }
    assert(attached("--mtime="@ + v) == Some((Setting::Mtime, v))) by {
        lemma_other_beginning("--file="@, "--mtime="@, v, 2);
        lemma_other_beginning("--directory="@, "--mtime="@, v, 2);
        lemma_other_beginning("--strip-components="@, "--mtime="@, v, 2);
        lemma_other_beginning("--transform="@, "--mtime="@, v, 2);
        lemma_other_beginning("--xform="@, "--mtime="@, v, 2);
        lemma_other_beginning("--exclude="@, "--mtime="@, v, 2);
        lemma_other_beginning("--label="@, "--mtime="@, v, 2);
        lemma_other_beginning("--owner="@, "--mtime="@, v, 2);
        lemma_other_beginning("--group="@, "--mtime="@, v, 2);
        lemma_other_beginning("--sort="@, "--mtime="@, v, 2);
        lemma_other_beginning("--mode="@, "--mtime="@, v, 3);
        lemma_own_beginning("--mtime="@, v);
    }
    assert(attached("--format="@ + v) == Some((Setting::Format { clear: false }, v))) by {
        lemma_other_beginning("--file="@, "--format="@, v, 3);
        lemma_other_beginning("--directory="@, "--format="@, v, 2);
        lemma_other_beginning("--strip-components="@, "--format="@, v, 2);
        lemma_other_beginning("--transform="@, "--format="@, v, 2);
        lemma_other_beginning("--xform="@, "--format="@, v, 2);
        lemma_other_beginning("--exclude="@, "--format="@, v, 2);
        lemma_other_beginning("--label="@, "--format="@, v, 2);
        lemma_other_beginning("--owner="@, "--format="@, v, 2);
        lemma_other_beginning("--group="@, "--format="@, v, 2);
        lemma_other_beginning("--sort="@, "--format="@, v, 2);
        lemma_other_beginning("--mode="@, "--format="@, v, 2);
        lemma_other_beginning("--mtime="@, "--format="@, v, 2);
        lemma_own_beginning("--format="@, v);
    }
    assert(attached("-H"@ + v) == Some((Setting::Format { clear: false }, v))) by {
        lemma_other_beginning("--file="@, "-H"@, v, 1);
        lemma_other_beginning("--directory="@, "-H"@, v, 1);
        lemma_other_beginning("--strip-components="@, "-H"@, v, 1);
        lemma_other_beginning("--transform="@, "-H"@, v, 1);
        lemma_other_beginning("--xform="@, "-H"@, v, 1);
        lemma_other_beginning("--exclude="@, "-H"@, v, 1);
        lemma_other_beginning("--label="@, "-H"@, v, 1);
        lemma_other_beginning("--owner="@, "-H"@, v, 1);
        lemma_other_beginning("--group="@, "-H"@, v, 1);
        lemma_other_beginning("--sort="@, "-H"@, v, 1);
        lemma_other_beginning("--mode="@, "-H"@, v, 1);
        lemma_other_beginning("--mtime="@, "-H"@, v, 1);
        lemma_other_beginning("--format="@, "-H"@, v, 1);
        lemma_own_beginning("-H"@, v);
    }
    assert(attached("--pax-option="@ + v) == Some((Setting::PaxOption { hint: false }, v))) by {
        lemma_other_beginning("--file="@, "--pax-option="@, v, 2);
        lemma_other_beginning("--directory="@, "--pax-option="@, v, 2);
        lemma_other_beginning("--strip-components="@, "--pax-option="@, v, 2);
        lemma_other_beginning("--transform="@, "--pax-option="@, v, 2);
        lemma_other_beginning("--xform="@, "--pax-option="@, v, 2);
        lemma_other_beginning("--exclude="@, "--pax-option="@, v, 2);
        lemma_other_beginning("--label="@, "--pax-option="@, v, 2);
        lemma_other_beginning("--owner="@, "--pax-option="@, v, 2);
        lemma_other_beginning("--group="@, "--pax-option="@, v, 2);
        lemma_other_beginning("--sort="@, "--pax-option="@, v, 2);
        lemma_other_beginning("--mode="@, "--pax-option="@, v, 2);
        lemma_other_beginning("--mtime="@, "--pax-option="@, v, 2);
        lemma_other_beginning("--format="@, "--pax-option="@, v, 2);
        lemma_other_beginning("-H"@, "--pax-option="@, v, 1);
        lemma_own_beginning("--pax-option="@, v);
    }
    assert(attached("--add-file="@ + v) == Some((Setting::AddFile, v))) by {
        lemma_other_beginning("--file="@, "--add-file="@, v, 2);
        lemma_other_beginning("--directory="@, "--add-file="@, v, 2);
        lemma_other_beginning("--strip-components="@, "--add-file="@, v, 2);
        lemma_other_beginning("--transform="@, "--add-file="@, v, 2);
        lemma_other_beginning("--xform="@, "--add-file="@, v, 2);
        lemma_other_beginning("--exclude="@, "--add-file="@, v, 2);
        lemma_other_beginning("--label="@, "--add-file="@, v, 2);
        lemma_other_beginning("--owner="@, "--add-file="@, v, 2);
        lemma_other_beginning("--group="@, "--add-file="@, v, 2);
        lemma_other_beginning("--sort="@, "--add-file="@, v, 2);
        lemma_other_beginning("--mode="@, "--add-file="@, v, 2);
        lemma_other_beginning("--mtime="@, "--add-file="@, v, 2);
        lemma_other_beginning("--format="@, "--add-file="@, v, 2);
        lemma_other_beginning("-H"@, "--add-file="@, v, 1);
        lemma_other_beginning("--pax-option="@, "--add-file="@, v, 2);
        lemma_own_beginning("--add-file="@, v);
    }
    assert(attached("--files-from="@ + v) == Some((Setting::FilesFrom { marked: false }, v))) by {
        lemma_other_beginning("--file="@, "--files-from="@, v, 6);
        lemma_other_beginning("--directory="@, "--files-from="@, v, 2);
        lemma_other_beginning("--strip-components="@, "--files-from="@, v, 2);
        lemma_other_beginning("--transform="@, "--files-from="@, v, 2);
        lemma_other_beginning("--xform="@, "--files-from="@, v, 2);
        lemma_other_beginning("--exclude="@, "--files-from="@, v, 2);
        lemma_other_beginning("--label="@, "--files-from="@, v, 2);
        lemma_other_beginning("--owner="@, "--files-from="@, v, 2);
        lemma_other_beginning("--group="@, "--files-from="@, v, 2);
        lemma_other_beginning("--sort="@, "--files-from="@, v, 2);
        lemma_other_beginning("--mode="@, "--files-from="@, v, 2);
        lemma_other_beginning("--mtime="@, "--files-from="@, v, 2);
        lemma_other_beginning("--format="@, "--files-from="@, v, 3);
        lemma_other_beginning("-H"@, "--files-from="@, v, 1);
        lemma_other_beginning("--pax-option="@, "--files-from="@, v, 2);
        lemma_other_beginning("--add-file="@, "--files-from="@, v, 2);
        lemma_own_beginning("--files-from="@, v);
    }
    assert(attached("--exclude-from="@ + v) == Some((Setting::ExcludeFrom, v))) by {
        lemma_other_beginning("--file="@, "--exclude-from="@, v, 2);
        lemma_other_beginning("--directory="@, "--exclude-from="@, v, 2);
        lemma_other_beginning("--strip-components="@, "--exclude-from="@, v, 2);
        lemma_other_beginning("--transform="@, "--exclude-from="@, v, 2);
        lemma_other_beginning("--xform="@, "--exclude-from="@, v, 2);
        lemma_other_beginning("--exclude="@, "--exclude-from="@, v, 9);
        lemma_other_beginning("--label="@, "--exclude-from="@, v, 2);
        lemma_other_beginning("--owner="@, "--exclude-from="@, v, 2);
        lemma_other_beginning("--group="@, "--exclude-from="@, v, 2);
        lemma_other_beginning("--sort="@, "--exclude-from="@, v, 2);
        lemma_other_beginning("--mode="@, "--exclude-from="@, v, 2);
        lemma_other_beginning("--mtime="@, "--exclude-from="@, v, 2);
        lemma_other_beginning("--format="@, "--exclude-from="@, v, 2);
        lemma_other_beginning("-H"@, "--exclude-from="@, v, 1);
        lemma_other_beginning("--pax-option="@, "--exclude-from="@, v, 2);
        lemma_other_beginning("--add-file="@, "--exclude-from="@, v, 2);
        lemma_other_beginning("--files-from="@, "--exclude-from="@, v, 2);
        lemma_own_beginning("--exclude-from="@, v);
    }
    assert(attached("--exclude-tag="@ + v)
        == Some((Setting::ExcludeTag(CacheExcludeMode::Normal), v))) by {
        lemma_other_beginning("--file="@, "--exclude-tag="@, v, 2);
        lemma_other_beginning("--directory="@, "--exclude-tag="@, v, 2);
        lemma_other_beginning("--strip-components="@, "--exclude-tag="@, v, 2);
        lemma_other_beginning("--transform="@, "--exclude-tag="@, v, 2);
        lemma_other_beginning("--xform="@, "--exclude-tag="@, v, 2);
        lemma_other_beginning("--exclude="@, "--exclude-tag="@, v, 9);
        lemma_other_beginning("--label="@, "--exclude-tag="@, v, 2);
        lemma_other_beginning("--owner="@, "--exclude-tag="@, v, 2);
        lemma_other_beginning("--group="@, "--exclude-tag="@, v, 2);
        lemma_other_beginning("--sort="@, "--exclude-tag="@, v, 2);
        lemma_other_beginning("--mode="@, "--exclude-tag="@, v, 2);
        lemma_other_beginning("--mtime="@, "--exclude-tag="@, v, 2);
        lemma_other_beginning("--format="@, "--exclude-tag="@, v, 2);
        lemma_other_beginning("-H"@, "--exclude-tag="@, v, 1);
        lemma_other_beginning("--pax-option="@, "--exclude-tag="@, v, 2);
        lemma_other_beginning("--add-file="@, "--exclude-tag="@, v, 2);
        lemma_other_beginning("--files-from="@, "--exclude-tag="@, v, 2);
        lemma_other_beginning("--exclude-from="@, "--exclude-tag="@, v, 10);
        lemma_own_beginning("--exclude-tag="@, v);
    }
    assert(attached("--exclude-tag-under="@ + v)
        == Some((Setting::ExcludeTag(CacheExcludeMode::Under), v))) by {
        lemma_other_beginning("--file="@, "--exclude-tag-under="@, v, 2);
        lemma_other_beginning("--directory="@, "--exclude-tag-under="@, v, 2);
        lemma_other_beginning("--strip-components="@, "--exclude-tag-under="@, v, 2);
        lemma_other_beginning("--transform="@, "--exclude-tag-under="@, v, 2);
        lemma_other_beginning("--xform="@, "--exclude-tag-under="@, v, 2);
        lemma_other_beginning("--exclude="@, "--exclude-tag-under="@, v, 9);
        lemma_other_beginning("--label="@, "--exclude-tag-under="@, v, 2);
        lemma_other_beginning("--owner="@, "--exclude-tag-under="@, v, 2);
        lemma_other_beginning("--group="@, "--exclude-tag-under="@, v, 2);
        lemma_other_beginning("--sort="@, "--exclude-tag-under="@, v, 2);
        lemma_other_beginning("--mode="@, "--exclude-tag-under="@, v, 2);
        lemma_other_beginning("--mtime="@, "--exclude-tag-under="@, v, 2);
        lemma_other_beginning("--format="@, "--exclude-tag-under="@, v, 2);
        lemma_other_beginning("-H"@, "--exclude-tag-under="@, v, 1);
        lemma_other_beginning("--pax-option="@, "--exclude-tag-under="@, v, 2);
        lemma_other_beginning("--add-file="@, "--exclude-tag-under="@, v, 2);
        lemma_other_beginning("--files-from="@, "--exclude-tag-under="@, v, 2);
        lemma_other_beginning("--exclude-from="@, "--exclude-tag-under="@, v, 10);
        lemma_other_beginning("--exclude-tag="@, "--exclude-tag-under="@, v, 13);
        lemma_own_beginning("--exclude-tag-under="@, v);
    }
    assert(attached("--exclude-tag-all="@ + v)
        == Some((Setting::ExcludeTag(CacheExcludeMode::All), v))) by {
        lemma_other_beginning("--file="@, "--exclude-tag-all="@, v, 2);
        lemma_other_beginning("--directory="@, "--exclude-tag-all="@, v, 2);
        lemma_other_beginning("--strip-components="@, "--exclude-tag-all="@, v, 2);
        lemma_other_beginning("--transform="@, "--exclude-tag-all="@, v, 2);
        lemma_other_beginning("--xform="@, "--exclude-tag-all="@, v, 2);
        lemma_other_beginning("--exclude="@, "--exclude-tag-all="@, v, 9);
        lemma_other_beginning("--label="@, "--exclude-tag-all="@, v, 2);
        lemma_other_beginning("--owner="@, "--exclude-tag-all="@, v, 2);
        lemma_other_beginning("--group="@, "--exclude-tag-all="@, v, 2);
        lemma_other_beginning("--sort="@, "--exclude-tag-all="@, v, 2);
        lemma_other_beginning("--mode="@, "--exclude-tag-all="@, v, 2);
        lemma_other_beginning("--mtime="@, "--exclude-tag-all="@, v, 2);
        lemma_other_beginning("--format="@, "--exclude-tag-all="@, v, 2);
        lemma_other_beginning("-H"@, "--exclude-tag-all="@, v, 1);
        lemma_other_beginning("--pax-option="@, "--exclude-tag-all="@, v, 2);
        lemma_other_beginning("--add-file="@, "--exclude-tag-all="@, v, 2);
        lemma_other_beginning("--files-from="@, "--exclude-tag-all="@, v, 2);
        lemma_other_beginning("--exclude-from="@, "--exclude-tag-all="@, v, 10);
        lemma_other_beginning("--exclude-tag="@, "--exclude-tag-all="@, v, 13);
        lemma_other_beginning("--exclude-tag-under="@, "--exclude-tag-all="@, v, 14);
        lemma_own_beginning("--exclude-tag-all="@, v);
    }
}

/// The beginnings of words that are accepted without effect.
#[verifier::rlimit(60)]
#[verifier::spinoff_prover]
pub proof fn law_ignored_beginnings_early(v: Seq<char>)
    ensures
        attached("--warning="@ + v) matches Some((s, _)) && s is Ignored,
        attached("--blocking-factor="@ + v) matches Some((s, _)) && s is Ignored,
        attached("--record-size="@ + v) matches Some((s, _)) && s is Ignored,
        attached("--clamp-mtime="@ + v) matches Some((s, _)) && s is Ignored,
        attached("--occurrence="@ + v) matches Some((s, _)) && s is Ignored,
        attached("--xattrs-exclude="@ + v) matches Some((s, _)) && s is Ignored,
        attached("--xattrs-include="@ + v) matches Some((s, _)) && s is Ignored,
        attached("--acls"@ + v) matches Some((s, _)) && s is Ignored,
        attached("--group-map="@ + v) matches Some((s, _)) && s is Ignored,
        attached("--owner-map="@ + v) matches Some((s, _)) && s is Ignored,
        attached("--hole-detection="@ + v) matches Some((s, _)) && s is Ignored,
        attached("--sparse-version="@ + v) matches Some((s, _)) && s is Ignored,
{
    reveal_strlit("--file=");
    reveal_strlit("--directory=");
    reveal_strlit("--strip-components=");
    reveal_strlit("--transform=");
    reveal_strlit("--xform=");
    reveal_strlit("--exclude=");
    reveal_strlit("--label=");
    reveal_strlit("--owner=");
    reveal_strlit("--group=");
    reveal_strlit("--sort=");
    reveal_strlit("--mode=");
    reveal_strlit("--mtime=");
    reveal_strlit("--format=");
    reveal_strlit("-H");
    reveal_strlit("--pax-option=");
    reveal_strlit("--add-file=");
    reveal_strlit("--files-from=");
    reveal_strlit("--exclude-from=");
    reveal_strlit("--exclude-tag=");
    reveal_strlit("--exclude-tag-under=");
    reveal_strlit("--exclude-tag-all=");
    reveal_strlit("--warning=");
    reveal_strlit("--blocking-factor=");
    reveal_strlit("--record-size=");
    reveal_strlit("--clamp-mtime=");
    reveal_strlit("--occurrence=");
    reveal_strlit("--xattrs-exclude=");
    reveal_strlit("--xattrs-include=");
    reveal_strlit("--acls");
    reveal_strlit("--group-map=");
    reveal_strlit("--owner-map=");
    reveal_strlit("--hole-detection=");
    reveal_strlit("--sparse-version=");
    assert(attached("--warning="@ + v) matches Some((s, _)) && s is Ignored) by {
        lemma_other_beginning("--file="@, "--warning="@, v, 2);
        lemma_other_beginning("--directory="@, "--warning="@, v, 2);
        lemma_other_beginning("--strip-components="@, "--warning="@, v, 2);
        lemma_other_beginning("--transform="@, "--warning="@, v, 2);
        lemma_other_beginning("--xform="@, "--warning="@, v, 2);
        lemma_other_beginning("--exclude="@, "--warning="@, v, 2);
        lemma_other_beginning("--label="@, "--warning="@, v, 2);
        lemma_other_beginning("--owner="@, "--warning="@, v, 2);
        lemma_other_beginning("--group="@, "--warning="@, v, 2);
        lemma_other_beginning("--sort="@, "--warning="@, v, 2);
        lemma_other_beginning("--mode="@, "--warning="@, v, 2);
        lemma_other_beginning("--mtime="@, "--warning="@, v, 2);
        lemma_other_beginning("--format="@, "--warning="@, v, 2);
        lemma_other_beginning("-H"@, "--warning="@, v, 1);
        lemma_other_beginning("--pax-option="@, "--warning="@, v, 2);
        lemma_other_beginning("--add-file="@, "--warning="@, v, 2);
        lemma_other_beginning("--files-from="@, "--warning="@, v, 2);
        lemma_other_beginning("--exclude-from="@, "--warning="@, v, 2);
        lemma_other_beginning("--exclude-tag="@, "--warning="@, v, 2);
        lemma_other_beginning("--exclude-tag-under="@, "--warning="@, v, 2);
        lemma_other_beginning("--exclude-tag-all="@, "--warning="@, v, 2);
        lemma_own_beginning("--warning="@, v);
    }
    assert(attached("--blocking-factor="@ + v) matches Some((s, _)) && s is Ignored) by {
        lemma_other_beginning("--file="@, "--blocking-factor="@, v, 2);
        lemma_other_beginning("--directory="@, "--blocking-factor="@, v, 2);
        lemma_other_beginning("--strip-components="@, "--blocking-factor="@, v, 2);
        lemma_other_beginning("--transform="@, "--blocking-factor="@, v, 2);
        lemma_other_beginning("--xform="@, "--blocking-factor="@, v, 2);
        lemma_other_beginning("--exclude="@, "--blocking-factor="@, v, 2);
        lemma_other_beginning("--label="@, "--blocking-factor="@, v, 2);
        lemma_other_beginning("--owner="@, "--blocking-factor="@, v, 2);
        lemma_other_beginning("--group="@, "--blocking-factor="@, v, 2);
        lemma_other_beginning("--sort="@, "--blocking-factor="@, v, 2);
        lemma_other_beginning("--mode="@, "--blocking-factor="@, v, 2);
        lemma_other_beginning("--mtime="@, "--blocking-factor="@, v, 2);
        lemma_other_beginning("--format="@, "--blocking-factor="@, v, 2);
        lemma_other_beginning("-H"@, "--blocking-factor="@, v, 1);
        lemma_other_beginning("--pax-option="@, "--blocking-factor="@, v, 2);
        lemma_other_beginning("--add-file="@, "--blocking-factor="@, v, 2);
        lemma_other_beginning("--files-from="@, "--blocking-factor="@, v, 2);
        lemma_other_beginning("--exclude-from="@, "--blocking-factor="@, v, 2);
        lemma_other_beginning("--exclude-tag="@, "--blocking-factor="@, v, 2);
        lemma_other_beginning("--exclude-tag-under="@, "--blocking-factor="@, v, 2);
        lemma_other_beginning("--exclude-tag-all="@, "--blocking-factor="@, v, 2);
        lemma_own_beginning("--blocking-factor="@, v);
    }
    assert(attached("--record-size="@ + v) matches Some((s, _)) && s is Ignored) by {
        lemma_other_beginning("--file="@, "--record-size="@, v, 2);
        lemma_other_beginning("--directory="@, "--record-size="@, v, 2);
        lemma_other_beginning("--strip-components="@, "--record-size="@, v, 2);
        lemma_other_beginning("--transform="@, "--record-size="@, v, 2);
        lemma_other_beginning("--xform="@, "--record-size="@, v, 2);
        lemma_other_beginning("--exclude="@, "--record-size="@, v, 2);
        lemma_other_beginning("--label="@, "--record-size="@, v, 2);
        lemma_other_beginning("--owner="@, "--record-size="@, v, 2);
        lemma_other_beginning("--group="@, "--record-size="@, v, 2);
        lemma_other_beginning("--sort="@, "--record-size="@, v, 2);
        lemma_other_beginning("--mode="@, "--record-size="@, v, 2);
        lemma_other_beginning("--mtime="@, "--record-size="@, v, 2);
        lemma_other_beginning("--format="@, "--record-size="@, v, 2);
        lemma_other_beginning("-H"@, "--record-size="@, v, 1);
        lemma_other_beginning("--pax-option="@, "--record-size="@, v, 2);
        lemma_other_beginning("--add-file="@, "--record-size="@, v, 2);
        lemma_other_beginning("--files-from="@, "--record-size="@, v, 2);
        lemma_other_beginning("--exclude-from="@, "--record-size="@, v, 2);
        lemma_other_beginning("--exclude-tag="@, "--record-size="@, v, 2);
        lemma_other_beginning("--exclude-tag-under="@, "--record-size="@, v, 2);
        lemma_other_beginning("--exclude-tag-all="@, "--record-size="@, v, 2);
        lemma_own_beginning("--record-size="@, v);
    }
    assert(attached("--clamp-mtime="@ + v) matches Some((s, _)) && s is Ignored) by {
        lemma_other_beginning("--file="@, "--clamp-mtime="@, v, 2);
        lemma_other_beginning("--directory="@, "--clamp-mtime="@, v, 2);
        lemma_other_beginning("--strip-components="@, "--clamp-mtime="@, v, 2);
        lemma_other_beginning("--transform="@, "--clamp-mtime="@, v, 2);
        lemma_other_beginning("--xform="@, "--clamp-mtime="@, v, 2);
        lemma_other_beginning("--exclude="@, "--clamp-mtime="@, v, 2);
        lemma_other_beginning("--label="@, "--clamp-mtime="@, v, 2);
        lemma_other_beginning("--owner="@, "--clamp-mtime="@, v, 2);
        lemma_other_beginning("--group="@, "--clamp-mtime="@, v, 2);
        lemma_other_beginning("--sort="@, "--clamp-mtime="@, v, 2);
        lemma_other_beginning("--mode="@, "--clamp-mtime="@, v, 2);
        lemma_other_beginning("--mtime="@, "--clamp-mtime="@, v, 2);
        lemma_other_beginning("--format="@, "--clamp-mtime="@, v, 2);
        lemma_other_beginning("-H"@, "--clamp-mtime="@, v, 1);
        lemma_other_beginning("--pax-option="@, "--clamp-mtime="@, v, 2);
        lemma_other_beginning("--add-file="@, "--clamp-mtime="@, v, 2);
        lemma_other_beginning("--files-from="@, "--clamp-mtime="@, v, 2);
        lemma_other_beginning("--exclude-from="@, "--clamp-mtime="@, v, 2);
        lemma_other_beginning("--exclude-tag="@, "--clamp-mtime="@, v, 2);
        lemma_other_beginning("--exclude-tag-under="@, "--clamp-mtime="@, v, 2);
        lemma_other_beginning("--exclude-tag-all="@, "--clamp-mtime="@, v, 2);
        lemma_own_beginning("--clamp-mtime="@, v);
    }
    assert(attached("--occurrence="@ + v) matches Some((s, _)) && s is Ignored) by {
        lemma_other_beginning("--file="@, "--occurrence="@, v, 2);
        lemma_other_beginning("--directory="@, "--occurrence="@, v, 2);
        lemma_other_beginning("--strip-components="@, "--occurrence="@, v, 2);
        lemma_other_beginning("--transform="@, "--occurrence="@, v, 2);
        lemma_other_beginning("--xform="@, "--occurrence="@, v, 2);
        lemma_other_beginning("--exclude="@, "--occurrence="@, v, 2);
        lemma_other_beginning("--label="@, "--occurrence="@, v, 2);
        lemma_other_beginning("--owner="@, "--occurrence="@, v, 3);
        lemma_other_beginning("--group="@, "--occurrence="@, v, 2);
        lemma_other_beginning("--sort="@, "--occurrence="@, v, 2);
        lemma_other_beginning("--mode="@, "--occurrence="@, v, 2);
        lemma_other_beginning("--mtime="@, "--occurrence="@, v, 2);
        lemma_other_beginning("--format="@, "--occurrence="@, v, 2);
        lemma_other_beginning("-H"@, "--occurrence="@, v, 1);
        lemma_other_beginning("--pax-option="@, "--occurrence="@, v, 2);
        lemma_other_beginning("--add-file="@, "--occurrence="@, v, 2);
        lemma_other_beginning("--files-from="@, "--occurrence="@, v, 2);
        lemma_other_beginning("--exclude-from="@, "--occurrence="@, v, 2);
        lemma_other_beginning("--exclude-tag="@, "--occurrence="@, v, 2);
        lemma_other_beginning("--exclude-tag-under="@, "--occurrence="@, v, 2);
        lemma_other_beginning("--exclude-tag-all="@, "--occurrence="@, v, 2);
        lemma_own_beginning("--occurrence="@, v);
    }
    assert(attached("--xattrs-exclude="@ + v) matches Some((s, _)) && s is Ignored) by {
        lemma_other_beginning("--file="@, "--xattrs-exclude="@, v, 2);
        lemma_other_beginning("--directory="@, "--xattrs-exclude="@, v, 2);
        lemma_other_beginning("--strip-components="@, "--xattrs-exclude="@, v, 2);
        lemma_other_beginning("--transform="@, "--xattrs-exclude="@, v, 2);
        lemma_other_beginning("--xform="@, "--xattrs-exclude="@, v, 3);
        lemma_other_beginning("--exclude="@, "--xattrs-exclude="@, v, 2);
        lemma_other_beginning("--label="@, "--xattrs-exclude="@, v, 2);
        lemma_other_beginning("--owner="@, "--xattrs-exclude="@, v, 2);
        lemma_other_beginning("--group="@, "--xattrs-exclude="@, v, 2);
        lemma_other_beginning("--sort="@, "--xattrs-exclude="@, v, 2);
        lemma_other_beginning("--mode="@, "--xattrs-exclude="@, v, 2);
        lemma_other_beginning("--mtime="@, "--xattrs-exclude="@, v, 2);
        lemma_other_beginning("--format="@, "--xattrs-exclude="@, v, 2);
        lemma_other_beginning("-H"@, "--xattrs-exclude="@, v, 1);
        lemma_other_beginning("--pax-option="@, "--xattrs-exclude="@, v, 2);
        lemma_other_beginning("--add-file="@, "--xattrs-exclude="@, v, 2);
        lemma_other_beginning("--files-from="@, "--xattrs-exclude="@, v, 2);
        lemma_other_beginning("--exclude-from="@, "--xattrs-exclude="@, v, 2);
        lemma_other_beginning("--exclude-tag="@, "--xattrs-exclude="@, v, 2);
        lemma_other_beginning("--exclude-tag-under="@, "--xattrs-exclude="@, v, 2);
        lemma_other_beginning("--exclude-tag-all="@, "--xattrs-exclude="@, v, 2);
        lemma_own_beginning("--xattrs-exclude="@, v);
    }
    assert(attached("--xattrs-include="@ + v) matches Some((s, _)) && s is Ignored) by {
        lemma_other_beginning("--file="@, "--xattrs-include="@, v, 2);
        lemma_other_beginning("--directory="@, "--xattrs-include="@, v, 2);
        lemma_other_beginning("--strip-components="@, "--xattrs-include="@, v, 2);
        lemma_other_beginning("--transform="@, "--xattrs-include="@, v, 2);
        lemma_other_beginning("--xform="@, "--xattrs-include="@, v, 3);
        lemma_other_beginning("--exclude="@, "--xattrs-include="@, v, 2);
        lemma_other_beginning("--label="@, "--xattrs-include="@, v, 2);
        lemma_other_beginning("--owner="@, "--xattrs-include="@, v, 2);
        lemma_other_beginning("--group="@, "--xattrs-include="@, v, 2);
        lemma_other_beginning("--sort="@, "--xattrs-include="@, v, 2);
        lemma_other_beginning("--mode="@, "--xattrs-include="@, v, 2);
        lemma_other_beginning("--mtime="@, "--xattrs-include="@, v, 2);
        lemma_other_beginning("--format="@, "--xattrs-include="@, v, 2);
        lemma_other_beginning("-H"@, "--xattrs-include="@, v, 1);
        lemma_other_beginning("--pax-option="@, "--xattrs-include="@, v, 2);
        lemma_other_beginning("--add-file="@, "--xattrs-include="@, v, 2);
        lemma_other_beginning("--files-from="@, "--xattrs-include="@, v, 2);
        lemma_other_beginning("--exclude-from="@, "--xattrs-include="@, v, 2);
        lemma_other_beginning("--exclude-tag="@, "--xattrs-include="@, v, 2);
        lemma_other_beginning("--exclude-tag-under="@, "--xattrs-include="@, v, 2);
        lemma_other_beginning("--exclude-tag-all="@, "--xattrs-include="@, v, 2);
        lemma_own_beginning("--xattrs-include="@, v);
    }
    assert(attached("--acls"@ + v) matches Some((s, _)) && s is Ignored) by {
        lemma_other_beginning("--file="@, "--acls"@, v, 2);
        lemma_other_beginning("--directory="@, "--acls"@, v, 2);
        lemma_other_beginning("--strip-components="@, "--acls"@, v, 2);
        lemma_other_beginning("--transform="@, "--acls"@, v, 2);
        lemma_other_beginning("--xform="@, "--acls"@, v, 2);
        lemma_other_beginning("--exclude="@, "--acls"@, v, 2);
        lemma_other_beginning("--label="@, "--acls"@, v, 2);
        lemma_other_beginning("--owner="@, "--acls"@, v, 2);
        lemma_other_beginning("--group="@, "--acls"@, v, 2);
        lemma_other_beginning("--sort="@, "--acls"@, v, 2);
        lemma_other_beginning("--mode="@, "--acls"@, v, 2);
        lemma_other_beginning("--mtime="@, "--acls"@, v, 2);
        lemma_other_beginning("--format="@, "--acls"@, v, 2);
        lemma_other_beginning("-H"@, "--acls"@, v, 1);
        lemma_other_beginning("--pax-option="@, "--acls"@, v, 2);
        lemma_other_beginning("--add-file="@, "--acls"@, v, 3);
        lemma_other_beginning("--files-from="@, "--acls"@, v, 2);
        lemma_other_beginning("--exclude-from="@, "--acls"@, v, 2);
        lemma_other_beginning("--exclude-tag="@, "--acls"@, v, 2);
        lemma_other_beginning("--exclude-tag-under="@, "--acls"@, v, 2);
        lemma_other_beginning("--exclude-tag-all="@, "--acls"@, v, 2);
        lemma_own_beginning("--acls"@, v);
    }
    assert(attached("--group-map="@ + v) matches Some((s, _)) && s is Ignored) by {
        lemma_other_beginning("--file="@, "--group-map="@, v, 2);
        lemma_other_beginning("--directory="@, "--group-map="@, v, 2);
        lemma_other_beginning("--strip-components="@, "--group-map="@, v, 2);
        lemma_other_beginning("--transform="@, "--group-map="@, v, 2);
        lemma_other_beginning("--xform="@, "--group-map="@, v, 2);
        lemma_other_beginning("--exclude="@, "--group-map="@, v, 2);
        lemma_other_beginning("--label="@, "--group-map="@, v, 2);
        lemma_other_beginning("--owner="@, "--group-map="@, v, 2);
        lemma_other_beginning("--group="@, "--group-map="@, v, 7);
        lemma_other_beginning("--sort="@, "--group-map="@, v, 2);
        lemma_other_beginning("--mode="@, "--group-map="@, v, 2);
        lemma_other_beginning("--mtime="@, "--group-map="@, v, 2);
        lemma_other_beginning("--format="@, "--group-map="@, v, 2);
        lemma_other_beginning("-H"@, "--group-map="@, v, 1);
        lemma_other_beginning("--pax-option="@, "--group-map="@, v, 2);
        lemma_other_beginning("--add-file="@, "--group-map="@, v, 2);
        lemma_other_beginning("--files-from="@, "--group-map="@, v, 2);
        lemma_other_beginning("--exclude-from="@, "--group-map="@, v, 2);
        lemma_other_beginning("--exclude-tag="@, "--group-map="@, v, 2);
        lemma_other_beginning("--exclude-tag-under="@, "--group-map="@, v, 2);
        lemma_other_beginning("--exclude-tag-all="@, "--group-map="@, v, 2);
        lemma_own_beginning("--group-map="@, v);
    }
    assert(attached("--owner-map="@ + v) matches Some((s, _)) && s is Ignored) by {
        lemma_other_beginning("--file="@, "--owner-map="@, v, 2);
        lemma_other_beginning("--directory="@, "--owner-map="@, v, 2);
        lemma_other_beginning("--strip-components="@, "--owner-map="@, v, 2);
        lemma_other_beginning("--transform="@, "--owner-map="@, v, 2);
        lemma_other_beginning("--xform="@, "--owner-map="@, v, 2);
        lemma_other_beginning("--exclude="@, "--owner-map="@, v, 2);
        lemma_other_beginning("--label="@, "--owner-map="@, v, 2);
        lemma_other_beginning("--owner="@, "--owner-map="@, v, 7);
        lemma_other_beginning("--group="@, "--owner-map="@, v, 2);
        lemma_other_beginning("--sort="@, "--owner-map="@, v, 2);
        lemma_other_beginning("--mode="@, "--owner-map="@, v, 2);
        lemma_other_beginning("--mtime="@, "--owner-map="@, v, 2);
        lemma_other_beginning("--format="@, "--owner-map="@, v, 2);
        lemma_other_beginning("-H"@, "--owner-map="@, v, 1);
        lemma_other_beginning("--pax-option="@, "--owner-map="@, v, 2);
        lemma_other_beginning("--add-file="@, "--owner-map="@, v, 2);
        lemma_other_beginning("--files-from="@, "--owner-map="@, v, 2);
        lemma_other_beginning("--exclude-from="@, "--owner-map="@, v, 2);
        lemma_other_beginning("--exclude-tag="@, "--owner-map="@, v, 2);
        lemma_other_beginning("--exclude-tag-under="@, "--owner-map="@, v, 2);
        lemma_other_beginning("--exclude-tag-all="@, "--owner-map="@, v, 2);
        lemma_own_beginning("--owner-map="@, v);
    }
    assert(attached("--hole-detection="@ + v) matches Some((s, _)) && s is Ignored) by {
        lemma_other_beginning("--file="@, "--hole-detection="@, v, 2);
        lemma_other_beginning("--directory="@, "--hole-detection="@, v, 2);
        lemma_other_beginning("--strip-components="@, "--hole-detection="@, v, 2);
        lemma_other_beginning("--transform="@, "--hole-detection="@, v, 2);
        lemma_other_beginning("--xform="@, "--hole-detection="@, v, 2);
        lemma_other_beginning("--exclude="@, "--hole-detection="@, v, 2);
        lemma_other_beginning("--label="@, "--hole-detection="@, v, 2);
        lemma_other_beginning("--owner="@, "--hole-detection="@, v, 2);
        lemma_other_beginning("--group="@, "--hole-detection="@, v, 2);
        lemma_other_beginning("--sort="@, "--hole-detection="@, v, 2);
        lemma_other_beginning("--mode="@, "--hole-detection="@, v, 2);
        lemma_other_beginning("--mtime="@, "--hole-detection="@, v, 2);
        lemma_other_beginning("--format="@, "--hole-detection="@, v, 2);
        lemma_other_beginning("-H"@, "--hole-detection="@, v, 1);
        lemma_other_beginning("--pax-option="@, "--hole-detection="@, v, 2);
        lemma_other_beginning("--add-file="@, "--hole-detection="@, v, 2);
        lemma_other_beginning("--files-from="@, "--hole-detection="@, v, 2);
        lemma_other_beginning("--exclude-from="@, "--hole-detection="@, v, 2);
        lemma_other_beginning("--exclude-tag="@, "--hole-detection="@, v, 2);
        lemma_other_beginning("--exclude-tag-under="@, "--hole-detection="@, v, 2);
        lemma_other_beginning("--exclude-tag-all="@, "--hole-detection="@, v, 2);
        lemma_own_beginning("--hole-detection="@, v);
    }
    assert(attached("--sparse-version="@ + v) matches Some((s, _)) && s is Ignored) by {
        lemma_other_beginning("--file="@, "--sparse-version="@, v, 2);
        lemma_other_beginning("--directory="@, "--sparse-version="@, v, 2);
        lemma_other_beginning("--strip-components="@, "--sparse-version="@, v, 3);
        lemma_other_beginning("--transform="@, "--sparse-version="@, v, 2);
        lemma_other_beginning("--xform="@, "--sparse-version="@, v, 2);
        lemma_other_beginning("--exclude="@, "--sparse-version="@, v, 2);
        lemma_other_beginning("--label="@, "--sparse-version="@, v, 2);
        lemma_other_beginning("--owner="@, "--sparse-version="@, v, 2);
        lemma_other_beginning("--group="@, "--sparse-version="@, v, 2);
        lemma_other_beginning("--sort="@, "--sparse-version="@, v, 3);
        lemma_other_beginning("--mode="@, "--sparse-version="@, v, 2);
        lemma_other_beginning("--mtime="@, "--sparse-version="@, v, 2);
        lemma_other_beginning("--format="@, "--sparse-version="@, v, 2);
        lemma_other_beginning("-H"@, "--sparse-version="@, v, 1);
        lemma_other_beginning("--pax-option="@, "--sparse-version="@, v, 2);
        lemma_other_beginning("--add-file="@, "--sparse-version="@, v, 2);
        lemma_other_beginning("--files-from="@, "--sparse-version="@, v, 2);
        lemma_other_beginning("--exclude-from="@, "--sparse-version="@, v, 2);
        lemma_other_beginning("--exclude-tag="@, "--sparse-version="@, v, 2);
        lemma_other_beginning("--exclude-tag-under="@, "--sparse-version="@, v, 2);
        lemma_other_beginning("--exclude-tag-all="@, "--sparse-version="@, v, 2);
        lemma_own_beginning("--sparse-version="@, v);
    }
}

/// Further beginnings of words that are accepted without effect.
#[verifier::rlimit(60)]
#[verifier::spinoff_prover]
pub proof fn law_ignored_beginnings_late(v: Seq<char>)
    ensures
        attached("--tape-length="@ + v) matches Some((s, _)) && s is Ignored,
        attached("--new-volume-script="@ + v) matches Some((s, _)) && s is Ignored,
        attached("--index-file="@ + v) matches Some((s, _)) && s is Ignored,
        attached("--checkpoint="@ + v) matches Some((s, _)) && s is Ignored,
        attached("--checkpoint-action="@ + v) matches Some((s, _)) && s is Ignored,
        attached("--volno-file="@ + v) matches Some((s, _)) && s is Ignored,
        attached("--rsh-command="@ + v) matches Some((s, _)) && s is Ignored,
        attached("--backup="@ + v) matches Some((s, _)) && s is Ignored,
        attached("--suffix="@ + v) matches Some((s, _)) && s is Ignored,
        attached("--atime-preserve="@ + v) matches Some((s, _)) && s is Ignored,
        attached("--use-compress-program="@ + v) matches Some((s, _)) && s is Ignored,
        attached("-I"@ + v) matches Some((s, _)) && s is Ignored,
{
    reveal_strlit("--file=");
    reveal_strlit("--directory=");
    reveal_strlit("--strip-components=");
    reveal_strlit("--transform=");
    reveal_strlit("--xform=");
    reveal_strlit("--exclude=");
    reveal_strlit("--label=");
    reveal_strlit("--owner=");
    reveal_strlit("--group=");
    reveal_strlit("--sort=");
    reveal_strlit("--mode=");
    reveal_strlit("--mtime=");
    reveal_strlit("--format=");
    reveal_strlit("-H");
    reveal_strlit("--pax-option=");
    reveal_strlit("--add-file=");
    reveal_strlit("--files-from=");
    reveal_strlit("--exclude-from=");
    reveal_strlit("--exclude-tag=");
    reveal_strlit("--exclude-tag-under=");
    reveal_strlit("--exclude-tag-all=");
    reveal_strlit("--tape-length=");
    reveal_strlit("--new-volume-script=");
    reveal_strlit("--index-file=");
    reveal_strlit("--checkpoint=");
    reveal_strlit("--checkpoint-action=");
    reveal_strlit("--volno-file=");
    reveal_strlit("--rsh-command=");
    reveal_strlit("--backup=");
    reveal_strlit("--suffix=");
    reveal_strlit("--atime-preserve=");
    reveal_strlit("--use-compress-program=");
    reveal_strlit("-I");
    assert(attached("--tape-length="@ + v) matches Some((s, _)) && s is Ignored) by {
        lemma_other_beginning("--file="@, "--tape-length="@, v, 2);
        lemma_other_beginning("--directory="@, "--tape-length="@, v, 2);
        lemma_other_beginning("--strip-components="@, "--tape-length="@, v, 2);
        lemma_other_beginning("--transform="@, "--tape-length="@, v, 3);
        lemma_other_beginning("--xform="@, "--tape-length="@, v, 2);
        lemma_other_beginning("--exclude="@, "--tape-length="@, v, 2);
        lemma_other_beginning("--label="@, "--tape-length="@, v, 2);
        lemma_other_beginning("--owner="@, "--tape-length="@, v, 2);
        lemma_other_beginning("--group="@, "--tape-length="@, v, 2);
        lemma_other_beginning("--sort="@, "--tape-length="@, v, 2);
        lemma_other_beginning("--mode="@, "--tape-length="@, v, 2);
        lemma_other_beginning("--mtime="@, "--tape-length="@, v, 2);
        lemma_other_beginning("--format="@, "--tape-length="@, v, 2);
        lemma_other_beginning("-H"@, "--tape-length="@, v, 1);
        lemma_other_beginning("--pax-option="@, "--tape-length="@, v, 2);
        lemma_other_beginning("--add-file="@, "--tape-length="@, v, 2);
        lemma_other_beginning("--files-from="@, "--tape-length="@, v, 2);
        lemma_other_beginning("--exclude-from="@, "--tape-length="@, v, 2);
        lemma_other_beginning("--exclude-tag="@, "--tape-length="@, v, 2);
        lemma_other_beginning("--exclude-tag-under="@, "--tape-length="@, v, 2);
        lemma_other_beginning("--exclude-tag-all="@, "--tape-length="@, v, 2);
        lemma_own_beginning("--tape-length="@, v);
    }
    assert(attached("--new-volume-script="@ + v) matches Some((s, _)) && s is Ignored) by {
        lemma_other_beginning("--file="@, "--new-volume-script="@, v, 2);
        lemma_other_beginning("--directory="@, "--new-volume-script="@, v, 2);
        lemma_other_beginning("--strip-components="@, "--new-volume-script="@, v, 2);
        lemma_other_beginning("--transform="@, "--new-volume-script="@, v, 2);
        lemma_other_beginning("--xform="@, "--new-volume-script="@, v, 2);
        lemma_other_beginning("--exclude="@, "--new-volume-script="@, v, 2);
        lemma_other_beginning("--label="@, "--new-volume-script="@, v, 2);
        lemma_other_beginning("--owner="@, "--new-volume-script="@, v, 2);
        lemma_other_beginning("--group="@, "--new-volume-script="@, v, 2);
        lemma_other_beginning("--sort="@, "--new-volume-script="@, v, 2);
        lemma_other_beginning("--mode="@, "--new-volume-script="@, v, 2);
        lemma_other_beginning("--mtime="@, "--new-volume-script="@, v, 2);
        lemma_other_beginning("--format="@, "--new-volume-script="@, v, 2);
        lemma_other_beginning("-H"@, "--new-volume-script="@, v, 1);
        lemma_other_beginning("--pax-option="@, "--new-volume-script="@, v, 2);
        lemma_other_beginning("--add-file="@, "--new-volume-script="@, v, 2);
        lemma_other_beginning("--files-from="@, "--new-volume-script="@, v, 2);
        lemma_other_beginning("--exclude-from="@, "--new-volume-script="@, v, 2);
        lemma_other_beginning("--exclude-tag="@, "--new-volume-script="@, v, 2);
        lemma_other_beginning("--exclude-tag-under="@, "--new-volume-script="@, v, 2);
        lemma_other_beginning("--exclude-tag-all="@, "--new-volume-script="@, v, 2);
        lemma_own_beginning("--new-volume-script="@, v);
    }
    assert(attached("--index-file="@ + v) matches Some((s, _)) && s is Ignored) by {
        lemma_other_beginning("--file="@, "--index-file="@, v, 2);
        lemma_other_beginning("--directory="@, "--index-file="@, v, 2);
        lemma_other_beginning("--strip-components="@, "--index-file="@, v, 2);
        lemma_other_beginning("--transform="@, "--index-file="@, v, 2);
        lemma_other_beginning("--xform="@, "--index-file="@, v, 2);
        lemma_other_beginning("--exclude="@, "--index-file="@, v, 2);
        lemma_other_beginning("--label="@, "--index-file="@, v, 2);
        lemma_other_beginning("--owner="@, "--index-file="@, v, 2);
        lemma_other_beginning("--group="@, "--index-file="@, v, 2);
        lemma_other_beginning("--sort="@, "--index-file="@, v, 2);
        lemma_other_beginning("--mode="@, "--index-file="@, v, 2);
        lemma_other_beginning("--mtime="@, "--index-file="@, v, 2);
        lemma_other_beginning("--format="@, "--index-file="@, v, 2);
        lemma_other_beginning("-H"@, "--index-file="@, v, 1);
        lemma_other_beginning("--pax-option="@, "--index-file="@, v, 2);
        lemma_other_beginning("--add-file="@, "--index-file="@, v, 2);
        lemma_other_beginning("--files-from="@, "--index-file="@, v, 2);
        lemma_other_beginning("--exclude-from="@, "--index-file="@, v, 2);
        lemma_other_beginning("--exclude-tag="@, "--index-file="@, v, 2);
        lemma_other_beginning("--exclude-tag-under="@, "--index-file="@, v, 2);
        lemma_other_beginning("--exclude-tag-all="@, "--index-file="@, v, 2);
        lemma_own_beginning("--index-file="@, v);
    }
    assert(attached("--checkpoint="@ + v) matches Some((s, _)) && s is Ignored) by {
        lemma_other_beginning("--file="@, "--checkpoint="@, v, 2);
        lemma_other_beginning("--directory="@, "--checkpoint="@, v, 2);
        lemma_other_beginning("--strip-components="@, "--checkpoint="@, v, 2);
        lemma_other_beginning("--transform="@, "--checkpoint="@, v, 2);
        lemma_other_beginning("--xform="@, "--checkpoint="@, v, 2);
        lemma_other_beginning("--exclude="@, "--checkpoint="@, v, 2);
        lemma_other_beginning("--label="@, "--checkpoint="@, v, 2);
        lemma_other_beginning("--owner="@, "--checkpoint="@, v, 2);
        lemma_other_beginning("--group="@, "--checkpoint="@, v, 2);
        lemma_other_beginning("--sort="@, "--checkpoint="@, v, 2);
        lemma_other_beginning("--mode="@, "--checkpoint="@, v, 2);
        lemma_other_beginning("--mtime="@, "--checkpoint="@, v, 2);
        lemma_other_beginning("--format="@, "--checkpoint="@, v, 2);
        lemma_other_beginning("-H"@, "--checkpoint="@, v, 1);
        lemma_other_beginning("--pax-option="@, "--checkpoint="@, v, 2);
        lemma_other_beginning("--add-file="@, "--checkpoint="@, v, 2);
        lemma_other_beginning("--files-from="@, "--checkpoint="@, v, 2);
        lemma_other_beginning("--exclude-from="@, "--checkpoint="@, v, 2);
        lemma_other_beginning("--exclude-tag="@, "--checkpoint="@, v, 2);
        lemma_other_beginning("--exclude-tag-under="@, "--checkpoint="@, v, 2);
        lemma_other_beginning("--exclude-tag-all="@, "--checkpoint="@, v, 2);
        lemma_own_beginning("--checkpoint="@, v);
    }
    assert(attached("--checkpoint-action="@ + v) matches Some((s, _)) && s is Ignored) by {
        lemma_other_beginning("--file="@, "--checkpoint-action="@, v, 2);
        lemma_other_beginning("--directory="@, "--checkpoint-action="@, v, 2);
        lemma_other_beginning("--strip-components="@, "--checkpoint-action="@, v, 2);
        lemma_other_beginning("--transform="@, "--checkpoint-action="@, v, 2);
        lemma_other_beginning("--xform="@, "--checkpoint-action="@, v, 2);
        lemma_other_beginning("--exclude="@, "--checkpoint-action="@, v, 2);
        lemma_other_beginning("--label="@, "--checkpoint-action="@, v, 2);
        lemma_other_beginning("--owner="@, "--checkpoint-action="@, v, 2);
        lemma_other_beginning("--group="@, "--checkpoint-action="@, v, 2);
        lemma_other_beginning("--sort="@, "--checkpoint-action="@, v, 2);
        lemma_other_beginning("--mode="@, "--checkpoint-action="@, v, 2);
        lemma_other_beginning("--mtime="@, "--checkpoint-action="@, v, 2);
        lemma_other_beginning("--format="@, "--checkpoint-action="@, v, 2);
        lemma_other_beginning("-H"@, "--checkpoint-action="@, v, 1);
        lemma_other_beginning("--pax-option="@, "--checkpoint-action="@, v, 2);
        lemma_other_beginning("--add-file="@, "--checkpoint-action="@, v, 2);
        lemma_other_beginning("--files-from="@, "--checkpoint-action="@, v, 2);
        lemma_other_beginning("--exclude-from="@, "--checkpoint-action="@, v, 2);
        lemma_other_beginning("--exclude-tag="@, "--checkpoint-action="@, v, 2);
        lemma_other_beginning("--exclude-tag-under="@, "--checkpoint-action="@, v, 2);
        lemma_other_beginning("--exclude-tag-all="@, "--checkpoint-action="@, v, 2);
        lemma_own_beginning("--checkpoint-action="@, v);
    }
    assert(attached("--volno-file="@ + v) matches Some((s, _)) && s is Ignored) by {
        lemma_other_beginning("--file="@, "--volno-file="@, v, 2);
        lemma_other_beginning("--directory="@, "--volno-file="@, v, 2);
        lemma_other_beginning("--strip-components="@, "--volno-file="@, v, 2);
        lemma_other_beginning("--transform="@, "--volno-file="@, v, 2);
        lemma_other_beginning("--xform="@, "--volno-file="@, v, 2);
        lemma_other_beginning("--exclude="@, "--volno-file="@, v, 2);
        lemma_other_beginning("--label="@, "--volno-file="@, v, 2);
        lemma_other_beginning("--owner="@, "--volno-file="@, v, 2);
        lemma_other_beginning("--group="@, "--volno-file="@, v, 2);
        lemma_other_beginning("--sort="@, "--volno-file="@, v, 2);
        lemma_other_beginning("--mode="@, "--volno-file="@, v, 2);
        lemma_other_beginning("--mtime="@, "--volno-file="@, v, 2);
        lemma_other_beginning("--format="@, "--volno-file="@, v, 2);
        lemma_other_beginning("-H"@, "--volno-file="@, v, 1);
        lemma_other_beginning("--pax-option="@, "--volno-file="@, v, 2);
        lemma_other_beginning("--add-file="@, "--volno-file="@, v, 2);
        lemma_other_beginning("--files-from="@, "--volno-file="@, v, 2);
        lemma_other_beginning("--exclude-from="@, "--volno-file="@, v, 2);
        lemma_other_beginning("--exclude-tag="@, "--volno-file="@, v, 2);
        lemma_other_beginning("--exclude-tag-under="@, "--volno-file="@, v, 2);
        lemma_other_beginning("--exclude-tag-all="@, "--volno-file="@, v, 2);
        lemma_own_beginning("--volno-file="@, v);
    }
    assert(attached("--rsh-command="@ + v) matches Some((s, _)) && s is Ignored) by {
        lemma_other_beginning("--file="@, "--rsh-command="@, v, 2);
        lemma_other_beginning("--directory="@, "--rsh-command="@, v, 2);
        lemma_other_beginning("--strip-components="@, "--rsh-command="@, v, 2);
        lemma_other_beginning("--transform="@, "--rsh-command="@, v, 2);
        lemma_other_beginning("--xform="@, "--rsh-command="@, v, 2);
        lemma_other_beginning("--exclude="@, "--rsh-command="@, v, 2);
        lemma_other_beginning("--label="@, "--rsh-command="@, v, 2);
        lemma_other_beginning("--owner="@, "--rsh-command="@, v, 2);
        lemma_other_beginning("--group="@, "--rsh-command="@, v, 2);
        lemma_other_beginning("--sort="@, "--rsh-command="@, v, 2);
        lemma_other_beginning("--mode="@, "--rsh-command="@, v, 2);
        lemma_other_beginning("--mtime="@, "--rsh-command="@, v, 2);
        lemma_other_beginning("--format="@, "--rsh-command="@, v, 2);
        lemma_other_beginning("-H"@, "--rsh-command="@, v, 1);
        lemma_other_beginning("--pax-option="@, "--rsh-command="@, v, 2);
        lemma_other_beginning("--add-file="@, "--rsh-command="@, v, 2);
        lemma_other_beginning("--files-from="@, "--rsh-command="@, v, 2);
        lemma_other_beginning("--exclude-from="@, "--rsh-command="@, v, 2);
        lemma_other_beginning("--exclude-tag="@, "--rsh-command="@, v, 2);
        lemma_other_beginning("--exclude-tag-under="@, "--rsh-command="@, v, 2);
        lemma_other_beginning("--exclude-tag-all="@, "--rsh-command="@, v, 2);
        lemma_own_beginning("--rsh-command="@, v);
    }
    assert(attached("--backup="@ + v) matches Some((s, _)) && s is Ignored) by {
        lemma_other_beginning("--file="@, "--backup="@, v, 2);
        lemma_other_beginning("--directory="@, "--backup="@, v, 2);
        lemma_other_beginning("--strip-components="@, "--backup="@, v, 2);
        lemma_other_beginning("--transform="@, "--backup="@, v, 2);
        lemma_other_beginning("--xform="@, "--backup="@, v, 2);
        lemma_other_beginning("--exclude="@, "--backup="@, v, 2);
        lemma_other_beginning("--label="@, "--backup="@, v, 2);
        lemma_other_beginning("--owner="@, "--backup="@, v, 2);
        lemma_other_beginning("--group="@, "--backup="@, v, 2);
        lemma_other_beginning("--sort="@, "--backup="@, v, 2);
        lemma_other_beginning("--mode="@, "--backup="@, v, 2);
        lemma_other_beginning("--mtime="@, "--backup="@, v, 2);
        lemma_other_beginning("--format="@, "--backup="@, v, 2);
        lemma_other_beginning("-H"@, "--backup="@, v, 1);
        lemma_other_beginning("--pax-option="@, "--backup="@, v, 2);
        lemma_other_beginning("--add-file="@, "--backup="@, v, 2);
        lemma_other_beginning("--files-from="@, "--backup="@, v, 2);
        lemma_other_beginning("--exclude-from="@, "--backup="@, v, 2);
        lemma_other_beginning("--exclude-tag="@, "--backup="@, v, 2);
        lemma_other_beginning("--exclude-tag-under="@, "--backup="@, v, 2);
        lemma_other_beginning("--exclude-tag-all="@, "--backup="@, v, 2);
        lemma_own_beginning("--backup="@, v);
    }
    assert(attached("--suffix="@ + v) matches Some((s, _)) && s is Ignored) by {
        lemma_other_beginning("--file="@, "--suffix="@, v, 2);
        lemma_other_beginning("--directory="@, "--suffix="@, v, 2);
        lemma_other_beginning("--strip-components="@, "--suffix="@, v, 3);
        lemma_other_beginning("--transform="@, "--suffix="@, v, 2);
        lemma_other_beginning("--xform="@, "--suffix="@, v, 2);
        lemma_other_beginning("--exclude="@, "--suffix="@, v, 2);
        lemma_other_beginning("--label="@, "--suffix="@, v, 2);
        lemma_other_beginning("--owner="@, "--suffix="@, v, 2);
        lemma_other_beginning("--group="@, "--suffix="@, v, 2);
        lemma_other_beginning("--sort="@, "--suffix="@, v, 3);
        lemma_other_beginning("--mode="@, "--suffix="@, v, 2);
        lemma_other_beginning("--mtime="@, "--suffix="@, v, 2);
        lemma_other_beginning("--format="@, "--suffix="@, v, 2);
        lemma_other_beginning("-H"@, "--suffix="@, v, 1);
        lemma_other_beginning("--pax-option="@, "--suffix="@, v, 2);
        lemma_other_beginning("--add-file="@, "--suffix="@, v, 2);
        lemma_other_beginning("--files-from="@, "--suffix="@, v, 2);
        lemma_other_beginning("--exclude-from="@, "--suffix="@, v, 2);
        lemma_other_beginning("--exclude-tag="@, "--suffix="@, v, 2);
        lemma_other_beginning("--exclude-tag-under="@, "--suffix="@, v, 2);
        lemma_other_beginning("--exclude-tag-all="@, "--suffix="@, v, 2);
        lemma_own_beginning("--suffix="@, v);
    }
    assert(attached("--atime-preserve="@ + v) matches Some((s, _)) && s is Ignored) by {
        lemma_other_beginning("--file="@, "--atime-preserve="@, v, 2);
        lemma_other_beginning("--directory="@, "--atime-preserve="@, v, 2);
        lemma_other_beginning("--strip-components="@, "--atime-preserve="@, v, 2);
        lemma_other_beginning("--transform="@, "--atime-preserve="@, v, 2);
        lemma_other_beginning("--xform="@, "--atime-preserve="@, v, 2);
        lemma_other_beginning("--exclude="@, "--atime-preserve="@, v, 2);
        lemma_other_beginning("--label="@, "--atime-preserve="@, v, 2);
        lemma_other_beginning("--owner="@, "--atime-preserve="@, v, 2);
        lemma_other_beginning("--group="@, "--atime-preserve="@, v, 2);
        lemma_other_beginning("--sort="@, "--atime-preserve="@, v, 2);
        lemma_other_beginning("--mode="@, "--atime-preserve="@, v, 2);
        lemma_other_beginning("--mtime="@, "--atime-preserve="@, v, 2);
        lemma_other_beginning("--format="@, "--atime-preserve="@, v, 2);
        lemma_other_beginning("-H"@, "--atime-preserve="@, v, 1);
        lemma_other_beginning("--pax-option="@, "--atime-preserve="@, v, 2);
        lemma_other_beginning("--add-file="@, "--atime-preserve="@, v, 3);
        lemma_other_beginning("--files-from="@, "--atime-preserve="@, v, 2);
        lemma_other_beginning("--exclude-from="@, "--atime-preserve="@, v, 2);
        lemma_other_beginning("--exclude-tag="@, "--atime-preserve="@, v, 2);
        lemma_other_beginning("--exclude-tag-under="@, "--atime-preserve="@, v, 2);
        lemma_other_beginning("--exclude-tag-all="@, "--atime-preserve="@, v, 2);
        lemma_own_beginning("--atime-preserve="@, v);
    }
    assert(attached("--use-compress-program="@ + v) matches Some((s, _)) && s is Ignored) by {
        lemma_other_beginning("--file="@, "--use-compress-program="@, v, 2);
        lemma_other_beginning("--directory="@, "--use-compress-program="@, v, 2);
        lemma_other_beginning("--strip-components="@, "--use-compress-program="@, v, 2);
        lemma_other_beginning("--transform="@, "--use-compress-program="@, v, 2);
        lemma_other_beginning("--xform="@, "--use-compress-program="@, v, 2);
        lemma_other_beginning("--exclude="@, "--use-compress-program="@, v, 2);
        lemma_other_beginning("--label="@, "--use-compress-program="@, v, 2);
        lemma_other_beginning("--owner="@, "--use-compress-program="@, v, 2);
        lemma_other_beginning("--group="@, "--use-compress-program="@, v, 2);
        lemma_other_beginning("--sort="@, "--use-compress-program="@, v, 2);
        lemma_other_beginning("--mode="@, "--use-compress-program="@, v, 2);
        lemma_other_beginning("--mtime="@, "--use-compress-program="@, v, 2);
        lemma_other_beginning("--format="@, "--use-compress-program="@, v, 2);
        lemma_other_beginning("-H"@, "--use-compress-program="@, v, 1);
        lemma_other_beginning("--pax-option="@, "--use-compress-program="@, v, 2);
        lemma_other_beginning("--add-file="@, "--use-compress-program="@, v, 2);
        lemma_other_beginning("--files-from="@, "--use-compress-program="@, v, 2);
        lemma_other_beginning("--exclude-from="@, "--use-compress-program="@, v, 2);
        lemma_other_beginning("--exclude-tag="@, "--use-compress-program="@, v, 2);
        lemma_other_beginning("--exclude-tag-under="@, "--use-compress-program="@, v, 2);
        lemma_other_beginning("--exclude-tag-all="@, "--use-compress-program="@, v, 2);
        lemma_own_beginning("--use-compress-program="@, v);
    }
    assert(attached("-I"@ + v) matches Some((s, _)) && s is Ignored) by {
        lemma_other_beginning("--file="@, "-I"@, v, 1);
        lemma_other_beginning("--directory="@, "-I"@, v, 1);
        lemma_other_beginning("--strip-components="@, "-I"@, v, 1);
        lemma_other_beginning("--transform="@, "-I"@, v, 1);
        lemma_other_beginning("--xform="@, "-I"@, v, 1);
        lemma_other_beginning("--exclude="@, "-I"@, v, 1);
        lemma_other_beginning("--label="@, "-I"@, v, 1);
        lemma_other_beginning("--owner="@, "-I"@, v, 1);
        lemma_other_beginning("--group="@, "-I"@, v, 1);
        lemma_other_beginning("--sort="@, "-I"@, v, 1);
        lemma_other_beginning("--mode="@, "-I"@, v, 1);
        lemma_other_beginning("--mtime="@, "-I"@, v, 1);
        lemma_other_beginning("--format="@, "-I"@, v, 1);
        lemma_other_beginning("-H"@, "-I"@, v, 1);
        lemma_other_beginning("--pax-option="@, "-I"@, v, 1);
        lemma_other_beginning("--add-file="@, "-I"@, v, 1);
        lemma_other_beginning("--files-from="@, "-I"@, v, 1);
        lemma_other_beginning("--exclude-from="@, "-I"@, v, 1);
        lemma_other_beginning("--exclude-tag="@, "-I"@, v, 1);
        lemma_other_beginning("--exclude-tag-under="@, "-I"@, v, 1);
        lemma_other_beginning("--exclude-tag-all="@, "-I"@, v, 1);
        lemma_own_beginning("-I"@, v);
    }
}

/// A word that does not begin with a dash, and a bare dash, names no option.
#[verifier::rlimit(60)]
#[verifier::spinoff_prover]
pub proof fn law_no_option(w: Seq<char>)
    requires
        w.len() == 0 || w[0] != '-' || w.len() == 1,
    ensures
        flag_named(w) is None,
        setting_named(w) is None,
        attached(w) is None,
{
    lemma_no_flag(w);
    lemma_no_setting(w);
    lemma_no_attached(w);
}

#[verifier::rlimit(60)]
#[verifier::spinoff_prover]
proof fn lemma_no_flag(w: Seq<char>)
    requires
        w.len() == 0 || w[0] != '-' || w.len() == 1,
    ensures
        flag_named(w) is None,
{
    lemma_flag_names();
}

#[verifier::rlimit(60)]
#[verifier::spinoff_prover]
proof fn lemma_no_setting(w: Seq<char>)
    requires
        w.len() == 0 || w[0] != '-' || w.len() == 1,
    ensures
        setting_named(w) is None,
{
    lemma_setting_names();
}

proof fn lemma_no_beginning(a: Seq<char>, w: Seq<char>)
    requires
        w.len() == 0 || w[0] != '-' || w.len() == 1,
        a.len() >= 2,
        a[0] == '-',
    ensures
        !a.is_prefix_of(w),
{
    if a.is_prefix_of(w) {
        assert(w.subrange(0, a.len() as int)[0] == w[0]);
    }
}

#[verifier::rlimit(60)]
#[verifier::spinoff_prover]
proof fn lemma_no_attached(w: Seq<char>)
    requires
        w.len() == 0 || w[0] != '-' || w.len() == 1,
    ensures
        attached(w) is None,
{
    reveal_strlit("--file=");
    lemma_no_beginning("--file="@, w);
    reveal_strlit("--directory=");
    lemma_no_beginning("--directory="@, w);
    reveal_strlit("--strip-components=");
    lemma_no_beginning("--strip-components="@, w);
    reveal_strlit("--transform=");
    lemma_no_beginning("--transform="@, w);
    reveal_strlit("--xform=");
    lemma_no_beginning("--xform="@, w);
    reveal_strlit("--exclude=");
    lemma_no_beginning("--exclude="@, w);
    reveal_strlit("--label=");
    lemma_no_beginning("--label="@, w);
    reveal_strlit("--owner=");
    lemma_no_beginning("--owner="@, w);
    reveal_strlit("--group=");
    lemma_no_beginning("--group="@, w);
    reveal_strlit("--sort=");
    lemma_no_beginning("--sort="@, w);
    reveal_strlit("--mode=");
    lemma_no_beginning("--mode="@, w);
    reveal_strlit("--mtime=");
    lemma_no_beginning("--mtime="@, w);
    reveal_strlit("--format=");
    lemma_no_beginning("--format="@, w);
    reveal_strlit("-H");
    lemma_no_beginning("-H"@, w);
    reveal_strlit("--pax-option=");
    lemma_no_beginning("--pax-option="@, w);
    reveal_strlit("--add-file=");
    lemma_no_beginning("--add-file="@, w);
    reveal_strlit("--files-from=");
    lemma_no_beginning("--files-from="@, w);
    reveal_strlit("--exclude-from=");
    lemma_no_beginning("--exclude-from="@, w);
    reveal_strlit("--exclude-tag=");
    lemma_no_beginning("--exclude-tag="@, w);
    reveal_strlit("--exclude-tag-under=");
    lemma_no_beginning("--exclude-tag-under="@, w);
    reveal_strlit("--exclude-tag-all=");
    lemma_no_beginning("--exclude-tag-all="@, w);
    reveal_strlit("--warning=");
    lemma_no_beginning("--warning="@, w);
    reveal_strlit("--blocking-factor=");
    lemma_no_beginning("--blocking-factor="@, w);
    reveal_strlit("--record-size=");
    lemma_no_beginning("--record-size="@, w);
    reveal_strlit("--clamp-mtime=");
    lemma_no_beginning("--clamp-mtime="@, w);
    reveal_strlit("--occurrence=");
    lemma_no_beginning("--occurrence="@, w);
    reveal_strlit("--xattrs-exclude=");
    lemma_no_beginning("--xattrs-exclude="@, w);
    reveal_strlit("--xattrs-include=");
    lemma_no_beginning("--xattrs-include="@, w);
    reveal_strlit("--acls");
    lemma_no_beginning("--acls"@, w);
    reveal_strlit("--group-map=");
    lemma_no_beginning("--group-map="@, w);
    reveal_strlit("--owner-map=");
    lemma_no_beginning("--owner-map="@, w);
    reveal_strlit("--hole-detection=");
    lemma_no_beginning("--hole-detection="@, w);
    reveal_strlit("--sparse-version=");
    lemma_no_beginning("--sparse-version="@, w);
    reveal_strlit("--tape-length=");
    lemma_no_beginning("--tape-length="@, w);
    reveal_strlit("--new-volume-script=");
    lemma_no_beginning("--new-volume-script="@, w);
    reveal_strlit("--index-file=");
    lemma_no_beginning("--index-file="@, w);
    reveal_strlit("--checkpoint=");
    lemma_no_beginning("--checkpoint="@, w);
    reveal_strlit("--checkpoint-action=");
    lemma_no_beginning("--checkpoint-action="@, w);
    reveal_strlit("--volno-file=");
    lemma_no_beginning("--volno-file="@, w);
    reveal_strlit("--rsh-command=");
    lemma_no_beginning("--rsh-command="@, w);
    reveal_strlit("--backup=");
    lemma_no_beginning("--backup="@, w);
    reveal_strlit("--suffix=");
    lemma_no_beginning("--suffix="@, w);
    reveal_strlit("--atime-preserve=");
    lemma_no_beginning("--atime-preserve="@, w);
    reveal_strlit("--use-compress-program=");
    lemma_no_beginning("--use-compress-program="@, w);
    reveal_strlit("-I");
    lemma_no_beginning("-I"@, w);
}

/// A letter of a bundle means what the same letter means as a word of its own.
#[verifier::rlimit(60)]
#[verifier::spinoff_prover]
pub proof fn law_letters(c: char)
    ensures
        letter(c) is Flag ==> flag_named(seq!['-', c]) == Some(letter(c)->Flag_0),
        c == 'f' || c == 'C' || c == 'X' || c == 'V' || c == 'b' || c == 'L' || c == 'I' ==> letter(
            c,
        ) is Valued && setting_named(seq!['-', c]) == Some(letter(c)->Valued_0),
        letter(c) is Unknown ==> {
            ||| flag_named(seq!['-', c]) is None
            ||| flag_named(seq!['-', c]) == Some(Flag::Ignored)
        },
        letter('T') == Letter::Valued(Setting::FilesFrom { marked: false }),
        letter('H') == Letter::Valued(Setting::Format { clear: true }),
        letter('g') == Letter::Valued(Setting::Ignored),
        letter('G') == Letter::Valued(Setting::Ignored),
{
    let w = seq!['-', c];
    lemma_short_flag(c);
    lemma_short_setting(c);
}

#[verifier::rlimit(60)]
#[verifier::spinoff_prover]
proof fn lemma_short_flag(c: char)
    ensures
        letter(c) is Flag ==> flag_named(seq!['-', c]) == Some(letter(c)->Flag_0),
        letter(c) is Unknown ==> flag_named(seq!['-', c]) is None || flag_named(seq!['-', c])
            == Some(Flag::Ignored),
{
    let w = seq!['-', c];
    assert(w.len() == 2 && w[0] == '-' && w[1] == c);
    lemma_flag_names();
}

#[verifier::rlimit(60)]
#[verifier::spinoff_prover]
proof fn lemma_short_setting(c: char)
    ensures
        c == 'f' || c == 'C' || c == 'X' || c == 'V' || c == 'b' || c == 'L' || c == 'I' ==> letter(
            c,
        ) is Valued && setting_named(seq!['-', c]) == Some(letter(c)->Valued_0),
{
    let w = seq!['-', c];
    assert(w.len() == 2 && w[0] == '-' && w[1] == c);
    lemma_setting_names();
}

} // verus!
