//! The operations of a run: which one it is, what they refuse, and how they
//! report.

use crate::bytes;
use crate::bytes::lossy_text;
use crate::extract;
use crate::extract::label_of;
use crate::glob;
use crate::glob::glob_match;
use crate::header;
use crate::header::EntryHeader;
use crate::listing;
use crate::member;
use crate::member::{member_time, to_unsigned, FileMeta};
use crate::options;
use crate::options::Args;
use crate::path;
use crate::text;
use crate::text::{concat, contains_char, owned, same, same_chars, starts_with, to_chars};
use vstd::prelude::*;

verus! {

/// What a run does.
#[derive(Debug, Clone, Copy, PartialEq, Eq, Structural)]
pub enum Operation {
    Create,
    Append,
    Delete,
    Diff,
    TestLabel,
    ExtractOrList,
    /// No operation was asked for.
    Missing,
    /// More than one operation was asked for.
    Ambiguous,
}

pub open spec fn as_one(b: bool) -> int {
    if b {
        1
    } else {
        0
    }
}

/// How many operations are asked for.
pub open spec fn operation_count(o: options::Switches) -> int {
    as_one(o.create) + as_one(o.extract) + as_one(o.list) + as_one(o.append) + as_one(o.update)
        + as_one(o.diff) + as_one(o.delete) + as_one(o.test_label)
}

/// What a run does: exactly one operation has to be asked for. An update is a
/// way of appending.
pub open spec fn operation(o: options::Switches) -> Operation {
    if operation_count(o) == 0 {
        Operation::Missing
    } else if operation_count(o) > 1 {
        Operation::Ambiguous
    } else if o.create {
        Operation::Create
    } else if o.append || o.update {
        Operation::Append
    } else if o.delete {
        Operation::Delete
    } else if o.diff {
        Operation::Diff
    } else if o.test_label {
        Operation::TestLabel
    } else {
        Operation::ExtractOrList
    }
}

fn one_if(b: bool) -> (r: u8)
    ensures
        r == as_one(b),
{
    if b {
        1
    } else {
        0
    }
}

pub fn operation_of(args: &Args) -> (r: Operation)
    ensures
        r == operation(args@.switches),
{
    let s = &args.switches;
    let count: u8 = one_if(s.create) + one_if(s.extract) + one_if(s.list) + one_if(s.append)
        + one_if(s.update) + one_if(s.diff) + one_if(s.delete) + one_if(s.test_label);
    if count == 0 {
        Operation::Missing
    } else if count > 1 {
        Operation::Ambiguous
    } else if s.create {
        Operation::Create
    } else if s.append || s.update {
        Operation::Append
    } else if s.delete {
        Operation::Delete
    } else if s.diff {
        Operation::Diff
    } else if s.test_label {
        Operation::TestLabel
    } else {
        Operation::ExtractOrList
    }
}

/// Why an operation does not begin, if it does not: members cannot be appended
/// to the standard stream or to a compressed archive, nor deleted from a
/// compressed one.
pub open spec fn refusal(o: options::Settings) -> Option<Seq<char>> {
    match operation(o.switches) {
        Operation::Append => if o.file is None {
            Some("tar: Cowardly refusing to append to stdin/stdout archive"@)
        } else if o.switches.compression is Some {
            Some("Cannot update compressed archives"@)
        } else {
            None
        },
        Operation::Delete => if o.switches.compression is Some {
            Some("Cannot delete from compressed archives"@)
        } else {
            None
        },
        _ => None,
    }
}

pub fn refusal_of(args: &Args) -> (r: Option<String>)
    ensures
        text::opt_view(r) == refusal(args@),
{
    match operation_of(args) {
        Operation::Append => {
            if args.file.is_none() {
                Some(owned("tar: Cowardly refusing to append to stdin/stdout archive"))
            } else if args.switches.compression.is_some() {
                Some(owned("Cannot update compressed archives"))
            } else {
                None
            }
        },
        Operation::Delete => {
            if args.switches.compression.is_some() {
                Some(owned("Cannot delete from compressed archives"))
            } else {
                None
            }
        },
        _ => None,
    }
}

/// The lines that report a run that failed with a message. A message that
/// stands for lines already written is not reported again; those of a reader
/// that found no whole block say that the file is no archive.
pub open spec fn failure(message: Seq<char>) -> Seq<Seq<char>> {
    if message == "not-found-in-archive"@ {
        seq![]
    } else if message == "failed to read entire block"@ || message == "unexpected EOF"@ || message
        == "This does not look like a tar archive"@ {
        seq![
            "tar: "@ + "This does not look like a tar archive"@,
            "tar: Exiting with failure status due to previous errors"@,
        ]
    } else if message == "Cannot update compressed archives"@ || message
        == "Cannot delete from compressed archives"@ {
        seq!["tar: "@ + message, "Try 'tar --help' or 'tar --usage' for more information."@]
    } else {
        seq!["tar: "@ + message]
    }
}

pub fn failure_lines(message: &str) -> (r: Vec<String>)
    ensures
        text::views(r@) == failure(message@),
{
    let mut lines: Vec<String> = Vec::new();
    if same(message, "not-found-in-archive") {
    } else if same(message, "failed to read entire block") || same(message, "unexpected EOF")
        || same(message, "This does not look like a tar archive") {
        lines.push(concat("tar: ", "This does not look like a tar archive"));
        lines.push(owned("tar: Exiting with failure status due to previous errors"));
    } else {
        lines.push(concat("tar: ", message));
        if same(message, "Cannot update compressed archives") || same(
            message,
            "Cannot delete from compressed archives",
        ) {
            lines.push(owned("Try 'tar --help' or 'tar --usage' for more information."));
        }
    }
    assert(text::views(lines@) =~= failure(message@));
    lines
}

/// The label of an archive whose first entry has a header and a name, if that
/// is a volume label.
pub open spec fn first_label(block: Seq<u8>, name: Seq<u8>) -> Option<Seq<char>> {
    if header::type_flag(block[156]) == 86 {
        Some(extract::label_text(name))
    } else {
        None
    }
}

pub fn label_from(h: &EntryHeader, name: &[u8]) -> (r: Option<String>)
    ensures
        text::opt_view(r) == first_label(h@, name@),
{
    if h.entry_type() == 86 {
        Some(label_of(name))
    } else {
        None
    }
}

/// The lines that refuse an archive whose label is not the one asked for.
pub open spec fn label_fault(expected: Seq<char>, found: Option<Seq<char>>) -> Seq<Seq<char>> {
    match found {
        None => seq![
            "tar: Archive not labeled to match '"@ + expected + "'"@,
            "tar: Error is not recoverable: exiting now"@,
        ],
        Some(label) => if extract::label_matches(expected, label) {
            seq![]
        } else {
            seq![
                "tar: Volume '"@ + label + "' does not match '"@ + expected + "'"@,
                "tar: Error is not recoverable: exiting now"@,
            ]
        },
    }
}

/// Holds the label of an archive against the one that is asked for: the lines
/// that refuse it, none where it matches.
pub fn label_fault_lines(expected: &str, found: &Option<String>) -> (r: Vec<String>)
    ensures
        text::views(r@) == label_fault(expected@, text::opt_view(*found)),
{
    let mut lines: Vec<String> = Vec::new();
    match found {
        None => {
            let s = concat("tar: Archive not labeled to match '", expected);
            lines.push(concat(s.as_str(), "'"));
            lines.push(owned("tar: Error is not recoverable: exiting now"));
        },
        Some(label) => {
            if !glob_match(expected, label.as_str(), true, false) {
                let mut s = concat("tar: Volume '", label.as_str());
                s.append("' does not match '");
                s.append(expected);
                s.append("'");
                lines.push(s);
                lines.push(owned("tar: Error is not recoverable: exiting now"));
            }
        },
    }
    assert(text::views(lines@) =~= label_fault(expected@, text::opt_view(*found)));
    lines
}

/// How a test of the label ends.
#[derive(Debug, Clone, Copy, PartialEq, Eq, Structural)]
pub struct LabelTest {
    /// Whether the label is shown, if there is one.
    pub show: bool,
    /// Whether a mismatch is reported.
    pub complain: bool,
    /// Whether the test succeeds.
    pub matched: bool,
}

/// Whether a word is the label, or a pattern that matches it.
pub open spec fn tests_label(word: Seq<char>, label: Seq<char>, wildcards: bool) -> bool {
    if wildcards && extract::has_wildcard(word) {
        glob::glob(word, label, true)
    } else {
        word == label
    }
}

/// How a test of the label ends: without words it is shown, with words one of
/// them has to match it. An archive without a label has an empty one.
pub open spec fn label_test(label: Option<Seq<char>>, o: options::Settings) -> LabelTest {
    let text = match label {
        Some(l) => l,
        None => seq![],
    };
    if o.paths.len() == 0 {
        LabelTest { show: true, complain: false, matched: true }
    } else if any_tests(o.paths, text, o.switches.explicit_wildcards) {
        LabelTest { show: o.switches.verbose, complain: false, matched: true }
    } else {
        LabelTest { show: o.switches.verbose, complain: o.switches.verbose, matched: false }
    }
}

pub open spec fn any_tests(words: Seq<Seq<char>>, label: Seq<char>, wildcards: bool) -> bool {
    exists|i: int| 0 <= i < words.len() && tests_label(#[trigger] words[i], label, wildcards)
}

fn word_tests(word: &str, label: &str, wildcards: bool) -> (r: bool)
    ensures
        r == tests_label(word@, label@, wildcards),
{
    let chars = to_chars(word);
    if wildcards && (contains_char(&chars, '*') || contains_char(&chars, '?')) {
        glob_match(word, label, true, false)
    } else {
        same(word, label)
    }
}

pub fn test_label(label: &Option<String>, args: &Args) -> (r: LabelTest)
    ensures
        r == label_test(text::opt_view(*label), args@),
{
    let verbose = args.switches.verbose;
    if args.paths.len() == 0 {
        return LabelTest { show: true, complain: false, matched: true };
    }
    let text = match label {
        Some(l) => l.clone(),
        None => String::new(),
    };
    let ghost all = args@.paths;
    for i in 0..args.paths.len()
        invariant
            all == text::views(args.paths@),
            all == args@.paths,
            verbose == args@.switches.verbose,
            text@ == (match text::opt_view(*label) {
                Some(l) => l,
                None => seq![],
            }),
            forall|j: int|
                0 <= j < i ==> !tests_label(
                    #[trigger] all[j],
                    text@,
                    args.switches.explicit_wildcards,
                ),
    {
        assert(all[i as int] == args.paths@[i as int]@);
        if word_tests(args.paths[i].as_str(), text.as_str(), args.switches.explicit_wildcards) {
            assert(any_tests(all, text@, args.switches.explicit_wildcards));
            return LabelTest { show: verbose, complain: false, matched: true };
        }
    }
    LabelTest { show: verbose, complain: verbose, matched: false }
}

/// The names to delete, each once, and which of them have been found.
pub struct Deletion {
    pub names: Vec<String>,
    pub found: Vec<bool>,
}

/// Whether a name is among those to delete.
pub open spec fn listed(names: Seq<Seq<char>>, name: Seq<char>) -> bool {
    exists|i: int| 0 <= i < names.len() && #[trigger] names[i] == name
}

/// The words of a list, each once, in the order of their first places.
pub open spec fn each_once(words: Seq<Seq<char>>) -> Seq<Seq<char>>
    decreases words.len(),
{
    if words.len() == 0 {
        seq![]
    } else {
        let before = each_once(words.drop_last());
        if listed(before, words.last()) {
            before
        } else {
            before.push(words.last())
        }
    }
}

/// Whether a name to delete stands for a member: it is its path, or ends in a
/// slash and is what the path begins with.
pub open spec fn stands_for(name: Seq<char>, path: Seq<char>) -> bool {
    name == path || name.len() > 0 && name.last() == '/' && name.is_prefix_of(path)
}

/// Whether one of the names to delete stands for a member.
pub open spec fn any_stands_for(names: Seq<Seq<char>>, path: Seq<char>) -> bool {
    exists|i: int| 0 <= i < names.len() && stands_for(#[trigger] names[i], path)
}

/// The marks of the names that have been found, after a member was met.
pub open spec fn marks_after(names: Seq<Seq<char>>, found: Seq<bool>, path: Seq<char>) -> Seq<
    bool,
> {
    Seq::new(found.len(), |i: int| found[i] || stands_for(names[i], path))
}

fn does_stand_for(name: &str, path: &[char]) -> (r: bool)
    ensures
        r == stands_for(name@, path@),
{
    let chars = to_chars(name);
    same_chars(&chars, path) || (chars.len() > 0 && chars[chars.len() - 1] == '/' && starts_with(
        path,
        &chars,
    ))
}

fn is_listed(names: &[String], name: &str) -> (r: bool)
    ensures
        r == listed(text::views(names@), name@),
{
    let ghost all = text::views(names@);
    for i in 0..names.len()
        invariant
            all == text::views(names@),
            forall|j: int| 0 <= j < i ==> #[trigger] all[j] != name@,
    {
        assert(all[i as int] == names@[i as int]@);
        if same(names[i].as_str(), name) {
            return true;
        }
    }
    false
}

impl Deletion {
    pub open spec fn names_view(&self) -> Seq<Seq<char>> {
        text::views(self.names@)
    }

    /// Each name has its mark.
    pub open spec fn wf(&self) -> bool {
        self.names@.len() == self.found@.len() && self.names_view() == each_once(self.names_view())
    }

    /// Begins to delete the members that the command line names.
    pub fn new(args: &Args) -> (r: Deletion)
        ensures
            r.wf(),
            r.names_view() == each_once(args@.paths),
            forall|i: int| 0 <= i < r.found@.len() ==> !#[trigger] r.found@[i],
    {
        let ghost all = args@.paths;
        let mut names: Vec<String> = Vec::new();
        let mut found: Vec<bool> = Vec::new();
        assert(text::views(names@) =~= Seq::empty());
        for i in 0..args.paths.len()
            invariant
                all == text::views(args.paths@),
                text::views(names@) == each_once(all.take(i as int)),
                found@.len() == names@.len(),
                forall|j: int| 0 <= j < found@.len() ==> !#[trigger] found@[j],
        {
            let ghost here = all.take(i + 1);
            let ghost before = text::views(names@);
            assert(here.drop_last() =~= all.take(i as int));
            assert(here.last() == args.paths@[i as int]@);
            if !is_listed(&names, args.paths[i].as_str()) {
                names.push(args.paths[i].clone());
                found.push(false);
                assert(text::views(names@) =~= before.push(here.last()));
            }
        }
        assert(all.take(all.len() as int) =~= all);
        proof {
            lemma_each_once(all);
        }
        Deletion { names, found }
    }

    /// Whether a member is deleted; if so every name that stands for it counts
    /// as found.
    pub fn deletes(&mut self, path: &str) -> (r: bool)
        requires
            old(self).wf(),
        ensures
            final(self).wf(),
            final(self).names_view() == old(self).names_view(),
            r == any_stands_for(old(self).names_view(), path@),
            final(self).found@ == marks_after(old(self).names_view(), old(self).found@, path@),
    {
        let ghost all = self.names_view();
        let ghost marks = self.found@;
        let chars = to_chars(path);
        let mut hit = false;
        let count: usize = self.names.len();
        for i in 0..count
            invariant
                count == self.names@.len(),
                self.names@.len() == self.found@.len(),
                self.names_view() == all,
                all == each_once(all),
                marks.len() == all.len(),
                chars@ == path@,
                hit == exists|j: int| 0 <= j < i && stands_for(#[trigger] all[j], path@),
                forall|j: int|
                    0 <= j < all.len() ==> #[trigger] self.found@[j] == (marks[j] || j < i
                        && stands_for(all[j], path@)),
        {
            assert(all[i as int] == self.names@[i as int]@);
            if does_stand_for(self.names[i].as_str(), &chars) {
                self.found.set(i, true);
                hit = true;
                assert(stands_for(all[i as int], path@));
            }
        }
        assert(self.found@ =~= marks_after(all, marks, path@));
        hit
    }

    /// The names that were not found.
    pub fn missing(&self) -> (r: Vec<String>)
        requires
            self.wf(),
        ensures
            text::views(r@) == not_found(self.names_view(), self.found@),
    {
        let ghost all = self.names_view();
        let mut r: Vec<String> = Vec::new();
        assert(text::views(r@) =~= Seq::empty());
        for i in 0..self.names.len()
            invariant
                all == text::views(self.names@),
                self.names@.len() == self.found@.len(),
                text::views(r@) == not_found(all.take(i as int), self.found@.take(i as int)),
        {
            let ghost before = text::views(r@);
            assert(all.take(i + 1).drop_last() =~= all.take(i as int));
            assert(self.found@.take(i + 1).drop_last() =~= self.found@.take(i as int));
            assert(all[i as int] == self.names@[i as int]@);
            if !self.found[i] {
                r.push(self.names[i].clone());
                assert(text::views(r@) =~= before.push(all[i as int]));
            }
        }
        assert(all.take(all.len() as int) =~= all);
        assert(self.found@.take(all.len() as int) =~= self.found@);
        r
    }
}

/// The names whose mark is not set.
pub open spec fn not_found(names: Seq<Seq<char>>, found: Seq<bool>) -> Seq<Seq<char>>
    decreases names.len(),
{
    if names.len() == 0 {
        seq![]
    } else if found.last() {
        not_found(names.drop_last(), found.drop_last())
    } else {
        not_found(names.drop_last(), found.drop_last()).push(names.last())
    }
}

/// The words of a list without repetition are kept by taking each once.
proof fn lemma_each_once(words: Seq<Seq<char>>)
    ensures
        each_once(each_once(words)) == each_once(words),
    decreases words.len(),
{
    if words.len() > 0 {
        lemma_each_once(words.drop_last());
        let before = each_once(words.drop_last());
        if !listed(before, words.last()) {
            assert(before.push(words.last()).drop_last() =~= before);
        }
    }
}

/// The line that reports a member as deleted.
pub open spec fn deleted_line(path: Seq<char>) -> Seq<char> {
    "tar: deleting member "@ + path
}

/// The line that reports a member as deleted.
pub fn deletion_line(path: &str) -> (r: String)
    ensures
        r@ == deleted_line(path@),
{
    concat("tar: deleting member ", path)
}

/// The line that reports a name as not found.
pub open spec fn not_found_line(name: Seq<char>) -> Seq<char> {
    "tar: "@ + name + ": Not found in archive"@
}

/// The line that reports a name as not found.
pub fn missing_line(name: &str) -> (r: String)
    ensures
        r@ == not_found_line(name@),
{
    let s = concat("tar: ", name);
    concat(s.as_str(), ": Not found in archive")
}

/// Whether a member is a regular file, whose contents are compared.
pub open spec fn has_contents(block: Seq<u8>) -> bool {
    header::type_flag(block[156]) == 48
}

/// Whether the contents of a member have to be compared.
pub fn compares_contents(h: &EntryHeader) -> (r: bool)
    ensures
        r == has_contents(h@),
{
    h.entry_type() == 48
}

/// A file on disk, as far as it is compared.
#[derive(Debug)]
pub struct DiskFile {
    pub mode: u32,
    pub mtime: i64,
    pub size: u64,
    pub contents: Vec<u8>,
    /// The target of a symbolic link.
    pub link: Option<Vec<u8>>,
    /// Whether it is the file that the member is a hard link to.
    pub linked: bool,
}

/// A [`DiskFile`] as mathematical values.
pub struct OnDisk {
    pub mode: u32,
    pub mtime: int,
    pub size: int,
    pub contents: Seq<u8>,
    pub link: Option<Seq<u8>>,
    pub linked: bool,
}

impl View for DiskFile {
    type V = OnDisk;

    open spec fn view(&self) -> OnDisk {
        OnDisk {
            mode: self.mode,
            mtime: self.mtime as int,
            size: self.size as int,
            contents: self.contents@,
            link: match self.link {
                Some(l) => Some(l@),
                None => None,
            },
            linked: self.linked,
        }
    }
}

/// A line, where it is called for.
pub open spec fn line_if(wanted: bool, line: Seq<char>) -> Seq<Seq<char>> {
    if wanted {
        seq![line]
    } else {
        seq![]
    }
}

/// Whether the permissions of a member are not those on disk.
pub open spec fn mode_differs(block: Seq<u8>, mode: u32) -> bool {
    listing::or_zero(header::octal_value(block.subrange(100, 108))) as u32 & 0o7777 != mode & 0o7777
}

/// Whether the modification time of a member is not that on disk.
pub open spec fn time_differs(block: Seq<u8>, mtime: int) -> bool {
    listing::or_zero(header::number_value(block.subrange(136, 148))) != member::as_unsigned(mtime)
}

/// The lines that tell a member from what is on disk. A regular file differs in
/// mode, modification time, size and contents; a directory in its mode alone,
/// since its time changes with what is in it; a symbolic link in its target; and
/// a hard link in not being one. Other members are only looked for.
pub open spec fn differences(
    name: Seq<char>,
    block: Seq<u8>,
    archived: Seq<u8>,
    target: Seq<u8>,
    disk: Option<OnDisk>,
) -> Seq<Seq<char>> {
    let flag = header::type_flag(block[156]);
    match disk {
        None => seq![name + ": Not found in filesystem"@],
        Some(d) => if flag == 48 {
            line_if(mode_differs(block, d.mode), name + ": Mode differs"@) + line_if(
                time_differs(block, d.mtime),
                name + ": Mod time differs"@,
            ) + line_if(
                listing::or_zero(header::header_size(block)) != d.size,
                name + ": Size differs"@,
            ) + line_if(archived != d.contents, name + ": Contents differ"@)
        } else if flag == 53 {
            line_if(mode_differs(block, d.mode), name + ": Mode differs"@)
        } else if flag == 50 {
            line_if(d.link != Some(target), name + ": Symlink differs"@)
        } else if flag == 49 {
            line_if(!d.linked, name + ": Not linked to "@ + bytes::text_of(target))
        } else {
            seq![]
        },
    }
}

fn push_if(lines: &mut Vec<String>, wanted: bool, name: &str, what: &str)
    ensures
        text::views(final(lines)@) == text::views(old(lines)@) + line_if(wanted, name@ + what@),
{
    let ghost before = text::views(lines@);
    if wanted {
        lines.push(concat(name, what));
    }
    assert(text::views(lines@) =~= before + line_if(wanted, name@ + what@));
}

fn has_other_mode(h: &EntryHeader, mode: u32) -> (r: bool)
    ensures
        r == mode_differs(h@, mode),
{
    let archived: u32 = match h.mode() {
        Some(m) => m,
        None => 0,
    };
    archived & 0o7777 != mode & 0o7777
}

fn has_other_target(d: &DiskFile, target: &[u8]) -> (r: bool)
    ensures
        r == (d@.link != Some(target@)),
{
    match &d.link {
        Some(l) => !path::same_bytes(l, target),
        None => true,
    }
}

/// The lines that tell a member, with its contents and the target of a link,
/// from what is on disk, if it is there.
pub fn difference_lines(
    name: &str,
    h: &EntryHeader,
    archived: &[u8],
    target: &[u8],
    disk: &Option<DiskFile>,
) -> (r: Vec<String>)
    ensures
        text::views(r@) == differences(
            name@,
            h@,
            archived@,
            target@,
            match *disk {
                Some(d) => Some(d@),
                None => None,
            },
        ),
{
    let mut lines: Vec<String> = Vec::new();
    assert(text::views(lines@) =~= Seq::empty());
    match disk {
        None => {
            push_if(&mut lines, true, name, ": Not found in filesystem");
        },
        Some(d) => {
            let flag: u8 = h.entry_type();
            if flag == 48 {
                push_if(&mut lines, has_other_mode(h, d.mode), name, ": Mode differs");
                let time_differs = member_time(h) != to_unsigned(d.mtime);
                push_if(&mut lines, time_differs, name, ": Mod time differs");
                let size: u64 = match h.size() {
                    Some(n) => n,
                    None => 0,
                };
                push_if(&mut lines, size != d.size, name, ": Size differs");
                let contents_differ = !path::same_bytes(archived, &d.contents);
                push_if(&mut lines, contents_differ, name, ": Contents differ");
            } else if flag == 53 {
                push_if(&mut lines, has_other_mode(h, d.mode), name, ": Mode differs");
            } else if flag == 50 {
                push_if(&mut lines, has_other_target(d, target), name, ": Symlink differs");
            } else if flag == 49 {
                let what = concat(": Not linked to ", lossy_text(target).as_str());
                push_if(&mut lines, !d.linked, name, what.as_str());
                assert(name@ + what@ =~= name@ + ": Not linked to "@ + bytes::text_of(target@));
            }
        },
    }
    assert(text::views(lines@) =~= differences(
        name@,
        h@,
        archived@,
        target@,
        match *disk {
            Some(d) => Some(d@),
            None => None,
        },
    ));
    lines
}

/// A run that names exactly one operation does it.
pub proof fn law_one_operation(o: options::Switches)
    ensures
        operation(o) is Missing <==> !(o.create || o.extract || o.list || o.append || o.update
            || o.diff || o.delete || o.test_label),
        operation(o) is Create ==> o.create && !(o.extract || o.list || o.append || o.update
            || o.diff || o.delete || o.test_label),
        operation(o) is ExtractOrList ==> (o.extract || o.list) && !(o.extract && o.list),
        operation(o) is Append ==> (o.append || o.update) && !(o.append && o.update),
{
}

/// An archive bears the label that it is tested for.
pub proof fn law_label_tested(label: Seq<char>, o: options::Settings)
    requires
        o.paths == seq![label],
        !(o.switches.explicit_wildcards && extract::has_wildcard(label)),
    ensures
        label_test(Some(label), o).matched,
        label.len() > 0 ==> !label_test(None, o).matched,
{
    assert(tests_label(o.paths[0], label, o.switches.explicit_wildcards));
}

/// Every name that was asked for and not met while deleting is reported, and
/// no other.
pub proof fn law_missing_names(names: Seq<Seq<char>>, found: Seq<bool>, name: Seq<char>)
    requires
        names.len() == found.len(),
    ensures
        listed(not_found(names, found), name) <==> exists|i: int|
            0 <= i < names.len() && #[trigger] names[i] == name && !found[i],
    decreases names.len(),
{
    if names.len() > 0 {
        let n = names.drop_last();
        let f = found.drop_last();
        let r = not_found(names, found);
        let before = not_found(n, f);
        law_missing_names(n, f, name);
        if listed(before, name) {
            let i = choose|i: int| 0 <= i < n.len() && #[trigger] n[i] == name && !f[i];
            assert(names[i] == name && !found[i]);
            let k = choose|k: int| 0 <= k < before.len() && #[trigger] before[k] == name;
            assert(r[k] == name);
        }
        if !found.last() && names.last() == name {
            assert(r.last() == name);
            assert(r[r.len() - 1] == name);
            assert(names[names.len() - 1] == name);
        }
        if listed(r, name) && !listed(before, name) {
            let k = choose|k: int| 0 <= k < r.len() && #[trigger] r[k] == name;
            if k < before.len() {
                assert(before[k] == name);
            }
            assert(names[names.len() - 1] == name);
        }
        if exists|i: int| 0 <= i < names.len() && #[trigger] names[i] == name && !found[i] {
            let i = choose|i: int| 0 <= i < names.len() && #[trigger] names[i] == name && !found[i];
            if i < n.len() {
                assert(n[i] == name && !f[i]);
            }
        }
    }
}

/// A name that ends in a slash deletes what is in the directory of that name,
/// and the directory; one that does not deletes only the member that it is the
/// path of.
pub proof fn law_directories_deleted(dir: Seq<char>, rest: Seq<char>)
    ensures
        stands_for(dir.push('/'), dir.push('/') + rest),
        dir.len() > 0 && dir.last() != '/' && rest.len() > 0 ==> !stands_for(dir, dir + rest),
        stands_for(dir, dir),
{
    let name = dir.push('/');
    let path = name + rest;
    assert(name =~= path.subrange(0, name.len() as int));
}

/// What was written of a regular file, held against the file as it was, shows no
/// difference; and where only the contents have changed, just that.
pub proof fn law_differences(
    name: Seq<char>,
    stored: Seq<u8>,
    m: FileMeta,
    o: options::Settings,
    contents: Seq<u8>,
    other: Seq<u8>,
)
    requires
        o.mode_override is None,
        o.switches.mtime_override is None,
        m.mode < 0o10000000,
        contents.len() == m.size,
    ensures
        ({
            let block = member::named_block(member::file_block(m@, o), stored, None);
            let disk = OnDisk {
                mode: m.mode,
                mtime: m.mtime as int,
                size: m.size as int,
                contents,
                link: None,
                linked: false,
            };
            &&& differences(name, block, contents, seq![], Some(disk)) == Seq::<Seq<char>>::empty()
            &&& other != contents ==> differences(
                name,
                block,
                contents,
                seq![],
                Some(OnDisk { contents: other, ..disk }),
            ) == seq![name + ": Contents differ"@]
        }),
{
    let block = member::named_block(member::file_block(m@, o), stored, None);
    member::law_file_header(m, o, stored);
    member::law_file_times(m, o, stored);
    let disk = OnDisk {
        mode: m.mode,
        mtime: m.mtime as int,
        size: m.size as int,
        contents,
        link: None,
        linked: false,
    };
    assert(differences(name, block, contents, seq![], Some(disk)) =~= Seq::empty());
    if other != contents {
        assert(differences(
            name,
            block,
            contents,
            seq![],
            Some(OnDisk { contents: other, ..disk }),
        ) =~= seq![name + ": Contents differ"@]);
    }
}

/// A name deletes the member that it is the path of, and no other; one that ends
/// in a slash deletes the members whose paths begin with it, and no others; and
/// several names delete what each of them deletes.
pub proof fn law_deletion(name: Seq<char>, more: Seq<Seq<char>>, path: Seq<char>)
    ensures
        name.len() == 0 || name.last() != '/' ==> (any_stands_for(seq![name], path) <==> path
            == name),
        name.len() > 0 && name.last() == '/' ==> (any_stands_for(seq![name], path)
            <==> name.is_prefix_of(path)),
        !any_stands_for(seq![], path),
        any_stands_for(seq![name] + more, path) <==> any_stands_for(seq![name], path)
            || any_stands_for(more, path),
{
    let one = seq![name];
    let all = one + more;
    assert(one[0] == name);
    assert(any_stands_for(one, path) <==> stands_for(name, path)) by {
        if stands_for(name, path) {
            assert(stands_for(one[0], path));
        }
    }
    assert(name =~= name.subrange(0, name.len() as int));
    if stands_for(name, path) {
        assert(stands_for(all[0], path));
    }
    if any_stands_for(more, path) {
        let i = choose|i: int| 0 <= i < more.len() && stands_for(#[trigger] more[i], path);
        assert(stands_for(all[i + 1], path));
    }
    if any_stands_for(all, path) {
        let i = choose|i: int| 0 <= i < all.len() && stands_for(#[trigger] all[i], path);
        if i > 0 {
            assert(stands_for(more[i - 1], path));
        }
    }
}

/// The names to delete are those of the command line, each once, and stand as
/// they were first given.
pub proof fn law_names_once(words: Seq<Seq<char>>, more: Seq<Seq<char>>, name: Seq<char>)
    ensures
        each_once(seq![]) == Seq::<Seq<char>>::empty(),
        words.contains(name) <==> each_once(words).contains(name),
        each_once(words).no_duplicates(),
        each_once(words).is_prefix_of(each_once(words + more)),
        words.no_duplicates() ==> each_once(words) == words,
    decreases words.len(), more.len(),
{
    let once = each_once(words);
    if words.len() > 0 {
        let front = words.drop_last();
        let before = each_once(front);
        law_names_once(front, seq![], name);
        law_names_once(front, seq![], words.last());
        assert(listed(before, words.last()) <==> before.contains(words.last()));
        if words.contains(name) {
            let i = words.index_of(name);
            if i < front.len() {
                assert(front[i] == name);
                let k = before.index_of(name);
                assert(once[k] == name);
            } else if listed(before, words.last()) {
                assert(once.contains(name));
            } else {
                assert(once[once.len() - 1] == name);
            }
        }
        if once.contains(name) {
            let k = once.index_of(name);
            if k < before.len() {
                assert(before[k] == name);
                let i = front.index_of(name);
                assert(words[i] == name);
            } else {
                assert(words[words.len() - 1] == name);
            }
        }
        if words.no_duplicates() {
            assert(front.no_duplicates());
            if before.contains(words.last()) {
                law_names_once(front, seq![], words.last());
                let i = front.index_of(words.last());
                assert(words[i] == words[words.len() - 1]);
            }
            assert(once =~= words);
        }
    } else {
        assert(once =~= words);
    }
    if more.len() > 0 {
        law_names_once(words, more.drop_last(), name);
        let all = words + more;
        assert(all.drop_last() =~= words + more.drop_last());
        let mid = each_once(all.drop_last());
        assert(once =~= each_once(all).subrange(0, once.len() as int)) by {
            assert forall|i: int| 0 <= i < once.len() implies once[i] == each_once(all)[i] by {
                assert(mid.subrange(0, once.len() as int)[i] == once[i]);
            }
        }
    } else {
        assert(words + more =~= words);
        assert(once =~= once.subrange(0, once.len() as int));
    }
}

/// The names that were not found are reported in their order.
pub proof fn law_missing_in_order(
    names: Seq<Seq<char>>,
    found: Seq<bool>,
    more: Seq<Seq<char>>,
    more_found: Seq<bool>,
)
    requires
        names.len() == found.len(),
        more.len() == more_found.len(),
    ensures
        not_found(names + more, found + more_found) == not_found(names, found) + not_found(
            more,
            more_found,
        ),
        (forall|i: int| 0 <= i < found.len() ==> !#[trigger] found[i]) ==> not_found(names, found)
            == names,
        (forall|i: int| 0 <= i < found.len() ==> #[trigger] found[i]) ==> not_found(names, found)
            == Seq::<Seq<char>>::empty(),
    decreases names.len() + more.len(),
{
    if more.len() > 0 {
        assert((names + more).drop_last() =~= names + more.drop_last());
        assert((found + more_found).drop_last() =~= found + more_found.drop_last());
        law_missing_in_order(names, found, more.drop_last(), more_found.drop_last());
        assert(not_found(names + more, found + more_found) =~= not_found(names, found) + not_found(
            more,
            more_found,
        ));
    } else {
        assert(names + more =~= names);
        assert(found + more_found =~= found);
        assert(not_found(names, found) + not_found(more, more_found) =~= not_found(names, found));
        if names.len() > 0 {
            let (n, f) = (names.drop_last(), found.drop_last());
            law_missing_in_order(n, f, seq![], seq![]);
            assert(found.last() == found[found.len() - 1]);
            if forall|i: int| 0 <= i < found.len() ==> !#[trigger] found[i] {
                assert forall|i: int| 0 <= i < f.len() implies !#[trigger] f[i] by {
                    assert(f[i] == found[i]);
                }
                assert(names =~= n.push(names.last()));
            }
            if forall|i: int| 0 <= i < found.len() ==> #[trigger] found[i] {
                assert forall|i: int| 0 <= i < f.len() implies #[trigger] f[i] by {
                    assert(f[i] == found[i]);
                }
            }
        } else {
            assert(not_found(names, found) =~= names);
        }
    }
}

/// A label is tested for being one of the words, or where wildcards are asked for
/// for being matched by one of them; without words every archive passes, and
/// without a label an archive is tested as if that were empty. The label is shown
/// where there are no words or more is to be told, and a mismatch is told only
/// then.
pub proof fn law_label_test(label: Option<Seq<char>>, o: options::Settings)
    ensures
        ({
            let t = match label {
                Some(l) => l,
                None => Seq::<char>::empty(),
            };
            let test = label_test(label, o);
            &&& test.matched <==> o.paths.len() == 0 || exists|i: int|
                0 <= i < o.paths.len() && (#[trigger] o.paths[i] == t
                    || o.switches.explicit_wildcards && glob::glob(o.paths[i], t, true))
            &&& test.show <==> o.paths.len() == 0 || o.switches.verbose
            &&& test.complain <==> !test.matched && o.switches.verbose
        }),
{
    let t = match label {
        Some(l) => l,
        None => Seq::<char>::empty(),
    };
    let wildcards = o.switches.explicit_wildcards;
    assert forall|w: Seq<char>|
        #[trigger] tests_label(w, t, wildcards) <==> (w == t || wildcards && glob::glob(
            w,
            t,
            true,
        )) by {
        if wildcards {
            if extract::has_wildcard(w) {
                glob::law_glob_matches_itself(w);
            } else {
                glob::law_glob_literal(w, t, true);
            }
        }
    }
    if any_tests(o.paths, t, wildcards) {
        let i = choose|i: int|
            0 <= i < o.paths.len() && tests_label(#[trigger] o.paths[i], t, wildcards);
        assert(o.paths[i] == t || wildcards && glob::glob(o.paths[i], t, true));
    }
    if exists|i: int|
        0 <= i < o.paths.len() && (#[trigger] o.paths[i] == t || wildcards && glob::glob(
            o.paths[i],
            t,
            true,
        )) {
        let i = choose|i: int|
            0 <= i < o.paths.len() && (#[trigger] o.paths[i] == t || wildcards && glob::glob(
                o.paths[i],
                t,
                true,
            ));
        assert(tests_label(o.paths[i], t, wildcards));
    }
}

/// An archive is refused exactly where the label asked for does not match its
/// own, or it has none; and its label is the name of a first entry that is a
/// label, without the zero bytes at its end.
pub proof fn law_label_fault(
    expected: Seq<char>,
    label: Seq<char>,
    block: Seq<u8>,
    k: nat,
)
    requires
        label.len() > 0 ==> label.last() != '\0',
    ensures
        label_fault(expected, None).len() == 2,
        label_fault(expected, None)[0] == "tar: Archive not labeled to match '"@ + expected + "'"@,
        label_fault(expected, Some(label)).len() == 0 <==> glob::glob(expected, label, true),
        !glob::glob(expected, label, true) ==> {
            &&& label_fault(expected, Some(label)).len() == 2
            &&& label_fault(expected, Some(label))[0] == "tar: Volume '"@ + label
                + "' does not match '"@ + expected + "'"@
            &&& label_fault(expected, Some(label))[1] == label_fault(expected, None)[1]
        },
        ({
            let name = vstd::utf8::encode_utf8(label + Seq::new(k, |i: int| '\0'));
            first_label(block, name) == (if block[156] == 86 {
                Some(label)
            } else {
                None
            })
        }),
{
    let name = vstd::utf8::encode_utf8(label + Seq::new(k, |i: int| '\0'));
    bytes::lemma_text_of_encoded(label + Seq::new(k, |i: int| '\0'));
    extract::lemma_trim_zeros(label, k);
}

/// Each operation is done exactly where it, and no other, is asked for; an update
/// is an append, and lists and extractions are told apart later.
pub proof fn law_operation_asked_for(o: options::Switches)
    ensures
        ({
            let op = operation(o);
            let reading = o.extract || o.list;
            let adding = o.append || o.update;
            let both = o.extract && o.list || o.append && o.update;
            &&& op is Create <==> o.create && !reading && !adding && !o.diff && !o.delete
                && !o.test_label
            &&& op is ExtractOrList <==> reading && !both && !o.create && !adding && !o.diff
                && !o.delete && !o.test_label
            &&& op is Append <==> adding && !both && !o.create && !reading && !o.diff && !o.delete
                && !o.test_label
            &&& op is Delete <==> o.delete && !o.create && !reading && !adding && !o.diff
                && !o.test_label
            &&& op is Diff <==> o.diff && !o.create && !reading && !adding && !o.delete
                && !o.test_label
            &&& op is TestLabel <==> o.test_label && !o.create && !reading && !adding && !o.diff
                && !o.delete
        }),
{
}

/// Members are appended only to a named archive without a compression, and
/// deleted only from one without a compression; nothing else is refused.
pub proof fn law_refusal(o: options::Settings)
    ensures
        ({
            let s = o.switches;
            let op = operation(s);
            &&& op is Append ==> (refusal(o) is Some <==> o.file is None || s.compression is Some)
            &&& op is Delete ==> (refusal(o) is Some <==> s.compression is Some)
            &&& !(op is Append) && !(op is Delete) ==> refusal(o) is None
            &&& op is Append && o.file is None ==> refusal(o) == Some(
                "tar: Cowardly refusing to append to stdin/stdout archive"@,
            )
            &&& op is Append && o.file is Some && s.compression is Some ==> refusal(o) == Some(
                "Cannot update compressed archives"@,
            )
            &&& op is Delete && s.compression is Some ==> refusal(o) == Some(
                "Cannot delete from compressed archives"@,
            )
        }),
{
}

/// Which differences are told: that nothing is there, and of what is there each
/// on its own, by the fields of the header, the contents and the target.
pub proof fn law_differences_told(
    name: Seq<char>,
    block: Seq<u8>,
    archived: Seq<u8>,
    target: Seq<u8>,
    d: OnDisk,
)
    ensures
        differences(name, block, archived, target, None) == seq![
            name + ": Not found in filesystem"@,
        ],
        ({
            let lines = differences(name, block, archived, target, Some(d));
            let regular = block[156] == 48 || block[156] == 0;
            let mode = match header::octal_value(block.subrange(100, 108)) {
                Some(m) => m as u32,
                None => 0,
            };
            let time = match header::number_value(block.subrange(136, 148)) {
                Some(t) => t,
                None => 0,
            };
            let size = match header::number_value(block.subrange(124, 136)) {
                Some(n) => n,
                None => 0,
            };
            let disk_time = if d.mtime >= 0 {
                d.mtime
            } else {
                d.mtime + 0x1_0000_0000_0000_0000
            };
            &&& lines.contains(name + ": Mode differs"@) <==> (regular || block[156] == 53) && mode
                & 0o7777 != d.mode & 0o7777
            &&& lines.contains(name + ": Mod time differs"@) <==> regular && time != disk_time
            &&& lines.contains(name + ": Size differs"@) <==> regular && size != d.size
            &&& lines.contains(name + ": Contents differ"@) <==> regular && archived != d.contents
            &&& block[156] == 50 ==> (lines.contains(name + ": Symlink differs"@) <==> d.link
                != Some(target))
            &&& block[156] == 50 && d.link == Some(target) ==> lines.len() == 0
            &&& block[156] == 49 ==> lines == (if d.linked {
                Seq::<Seq<char>>::empty()
            } else {
                seq![name + ": Not linked to "@ + bytes::text_of(target)]
            })
            &&& lines.no_duplicates()
            &&& block[156] == 53 && mode & 0o7777 == d.mode & 0o7777 ==> lines.len() == 0
            &&& !regular && block[156] != 53 && block[156] != 50 && block[156] != 49
                ==> lines.len() == 0
            &&& block[156] == 53 || block[156] == 50 ==> lines.len() <= 1
            &&& regular ==> lines.len() <= 4
        }),
{
    let lines = differences(name, block, archived, target, Some(d));
    reveal_strlit(": Mode differs");
    reveal_strlit(": Mod time differs");
    reveal_strlit(": Size differs");
    reveal_strlit(": Contents differ");
    reveal_strlit(": Symlink differs");
    reveal_strlit(": Not linked to ");
    let n = name.len() as int;
    let (l1, l2, l3, l4) = (
        name + ": Mode differs"@,
        name + ": Mod time differs"@,
        name + ": Size differs"@,
        name + ": Contents differ"@,
    );
    let l5 = name + ": Symlink differs"@;
    let l6 = name + ": Not linked to "@ + bytes::text_of(target);
    assert(l1[n + 2] == 'M' && l2[n + 2] == 'M' && l3[n + 2] == 'S' && l4[n + 2] == 'C');
    assert(l1[n + 4] == 'd' && l1[n + 5] == 'e' && l2[n + 5] == ' ');
    assert(l5[n + 2] == 'S' && l5[n + 3] == 'y' && l3[n + 3] == 'i' && l6[n + 2] == 'N');
    let flag = header::type_flag(block[156]);
    if flag == 48 {
        let a = line_if(mode_differs(block, d.mode), l1);
        let b = line_if(time_differs(block, d.mtime), l2);
        let c = line_if(listing::or_zero(header::header_size(block)) != d.size, l3);
        let e = line_if(archived != d.contents, l4);
        assert(lines == a + b + c + e);
        lemma_in_four(a, b, c, e, l1);
        lemma_in_four(a, b, c, e, l2);
        lemma_in_four(a, b, c, e, l3);
        lemma_in_four(a, b, c, e, l4);
    } else {
        assert(lines.len() <= 1);
        assert forall|x: Seq<char>| lines.contains(x) <==> lines.len() == 1 && lines[0] == x by {
            if lines.len() == 1 && lines[0] == x {
                assert(lines.contains(lines[0]));
            }
        }
    }
}

proof fn lemma_in_four(
    a: Seq<Seq<char>>,
    b: Seq<Seq<char>>,
    c: Seq<Seq<char>>,
    d: Seq<Seq<char>>,
    x: Seq<char>,
)
    requires
        a.len() <= 1,
        b.len() <= 1,
        c.len() <= 1,
        d.len() <= 1,
    ensures
        (a + b + c + d).contains(x) <==> {
            ||| a.len() == 1 && a[0] == x
            ||| b.len() == 1 && b[0] == x
            ||| c.len() == 1 && c[0] == x
            ||| d.len() == 1 && d[0] == x
        },
{
    let all = a + b + c + d;
    let i = a.len() as int;
    let j = i + b.len();
    let k = j + c.len();
    if a.len() == 1 {
        assert(all[0] == a[0]);
    }
    if b.len() == 1 {
        assert(all[i] == b[0]);
    }
    if c.len() == 1 {
        assert(all[j] == c[0]);
    }
    if d.len() == 1 {
        assert(all[k] == d[0]);
    }
}

/// A run that failed says why, unless that has been said; one that found no
/// archive says so and that it failed.
pub proof fn law_failure(message: Seq<char>)
    ensures
        failure(message).len() == 0 <==> message == "not-found-in-archive"@,
        message == "failed to read entire block"@ || message == "unexpected EOF"@ ==> failure(
            message,
        ) == failure("This does not look like a tar archive"@),
        failure("This does not look like a tar archive"@)[0] == "tar: "@
            + "This does not look like a tar archive"@,
        failure(message).len() > 0 && message != "failed to read entire block"@ && message
            != "unexpected EOF"@ ==> failure(message)[0] == "tar: "@ + message,
        failure(message).len() == 2 <==> message == "failed to read entire block"@ || message
            == "unexpected EOF"@ || message == "This does not look like a tar archive"@ || message
            == "Cannot update compressed archives"@ || message
            == "Cannot delete from compressed archives"@,
{
    reveal_strlit("not-found-in-archive");
    reveal_strlit("failed to read entire block");
    reveal_strlit("unexpected EOF");
    reveal_strlit("This does not look like a tar archive");
    reveal_strlit("Cannot update compressed archives");
    reveal_strlit("Cannot delete from compressed archives");
    assert("not-found-in-archive"@.len() == 20 && "failed to read entire block"@.len() == 27);
    assert("unexpected EOF"@.len() == 14);
    assert("This does not look like a tar archive"@.len() == 37);
    assert("Cannot update compressed archives"@.len() == 33);
    assert("Cannot delete from compressed archives"@.len() == 38);
}

/// What is deleted and what is not found is reported by its whole name.
pub proof fn law_deletions_reported(name: Seq<char>)
    ensures
        name.is_suffix_of(deleted_line(name)),
        "tar: deleting member "@.is_prefix_of(deleted_line(name)),
        deleted_line(name).len() == "tar: deleting member "@.len() + name.len(),
        ("tar: "@ + name).is_prefix_of(not_found_line(name)),
        ": Not found in archive"@.is_suffix_of(not_found_line(name)),
        not_found_line(name).len() == 5 + name.len() + ": Not found in archive"@.len(),
{
    reveal_strlit("tar: ");
    let a = deleted_line(name);
    let b = not_found_line(name);
    let start = "tar: deleting member "@;
    assert(name =~= a.subrange(a.len() - name.len(), a.len() as int));
    assert(start =~= a.subrange(0, start.len() as int));
    let head = "tar: "@ + name;
    let end = ": Not found in archive"@;
    assert(head =~= b.subrange(0, head.len() as int));
    assert(end =~= b.subrange(b.len() - end.len(), b.len() as int));
}

/// The contents of regular files alone are compared.
pub proof fn law_contents_compared(block: Seq<u8>)
    ensures
        has_contents(block) <==> block[156] == 48 || block[156] == 0,
{
}

/// A name counts as found from the first member on that it deletes.
pub proof fn law_names_found(names: Seq<Seq<char>>, found: Seq<bool>, path: Seq<char>, i: int)
    requires
        names.len() == found.len(),
        0 <= i < names.len(),
    ensures
        marks_after(names, found, path).len() == found.len(),
        marks_after(names, found, path)[i] <==> found[i] || any_stands_for(seq![names[i]], path),
        any_stands_for(names, path) ==> exists|k: int|
            0 <= k < names.len() && #[trigger] marks_after(names, found, path)[k],
{
    law_deletion(names[i], seq![], path);
    assert(any_stands_for(seq![names[i]], path) <==> stands_for(names[i], path)) by {
        if stands_for(names[i], path) {
            assert(stands_for(seq![names[i]][0], path));
        }
    }
    if any_stands_for(names, path) {
        let k = choose|k: int| 0 <= k < names.len() && stands_for(#[trigger] names[k], path);
        assert(marks_after(names, found, path)[k]);
    }
}

} // verus!
