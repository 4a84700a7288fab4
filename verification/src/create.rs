//! What is added to an archive, and under which name.

use crate::bytes;
use crate::compression;
use crate::compression::is_standard_stream;
use crate::exclude;
use crate::exclude::{is_excluded, is_filtered, TagFilter};
use crate::header;
use crate::header::EntryHeader;
use crate::listing;
use crate::listing::{escape_name, format_verbose_entry};
use crate::member;
use crate::member::{file_header, link_header, shown_header, FileMeta, FileType};
use crate::options;
use crate::options::Args;
use crate::path;
use crate::path::sorted_paths;
use crate::text;
use crate::text::{from_chars, owned, same, to_chars, trim_end_char, trim_start_char};
use crate::transform;
use crate::transform::transformed;
use vstd::prelude::*;

verus! {

/// Whether there is nothing to put into a new archive: no path, no list of
/// paths and no label.
pub open spec fn nothing_to_archive(o: options::Settings) -> bool {
    o.paths.len() == 0 && !o.switches.files_from_used && o.label is None
}

/// Whether there is nothing to put into a new archive.
pub fn refuses_empty(args: &Args) -> (r: bool)
    ensures
        r == nothing_to_archive(args@),
{
    args.paths.len() == 0 && !args.switches.files_from_used && args.label.is_none()
}

/// Whether a path on disk goes into the archive, as far as exclusions and tag
/// files decide, and the tag filter whose directory it is.
pub open spec fn wanted(
    shown: Seq<char>,
    p: Seq<u8>,
    o: options::Settings,
    filters: Seq<exclude::Tagged>,
) -> (bool, Option<int>) {
    if exclude::excluded(shown, o.excludes) {
        (false, None)
    } else {
        let v = exclude::filter_verdict(p, filters, 0);
        (!v.0, v.1)
    }
}

/// Whether a path on disk, given as text and as bytes, goes into the archive,
/// and the tag filter whose directory has to be reported.
pub fn wants_path(shown: &str, p: &[u8], args: &Args, filters: &[TagFilter]) -> (r: (
    bool,
    Option<usize>,
))
    ensures
        ({
            let w = wanted(shown@, p@, args@, exclude::tagged(filters@));
            &&& r.0 == w.0
            &&& r.1 is Some <==> w.1 is Some
            &&& r.1 matches Some(i) ==> i < filters@.len() && w.1 == Some(i as int)
        }),
{
    if is_excluded(shown, &args.excludes) {
        return (false, None);
    }
    let (skip, tag) = is_filtered(p, filters);
    (!skip, tag)
}

/// The members of an archive with their modification times, in their order.
pub open spec fn times(v: Seq<(String, u64)>) -> Seq<(Seq<char>, u64)> {
    v.map_values(|m: (String, u64)| (m.0@, m.1))
}

/// The modification time of the last member of a name.
pub open spec fn last_time(members: Seq<(Seq<char>, u64)>, name: Seq<char>) -> Option<u64>
    decreases members.len(),
{
    if members.len() == 0 {
        None
    } else if members.last().0 == name {
        Some(members.last().1)
    } else {
        last_time(members.drop_last(), name)
    }
}

/// The modification time that a name has in the archive, without slashes at its
/// end or with one, if it is there.
pub open spec fn archived_time(members: Seq<(Seq<char>, u64)>, name: Seq<char>) -> Option<u64> {
    let trimmed = text::trim_end_of(name, '/');
    match last_time(members, trimmed) {
        Some(t) => Some(t),
        None => last_time(members, trimmed.push('/')),
    }
}

/// Whether an update leaves a name as the archive has it: it is there, and is a
/// directory or no newer on disk.
pub open spec fn up_to_date(
    members: Seq<(Seq<char>, u64)>,
    name: Seq<char>,
    is_dir: bool,
    disk: u64,
) -> bool {
    match archived_time(members, name) {
        Some(t) => is_dir || disk <= t,
        None => false,
    }
}

fn find_time(members: &[(String, u64)], name: &str) -> (r: Option<u64>)
    ensures
        r == last_time(times(members@), name@),
{
    let ghost all = times(members@);
    let mut n: usize = members.len();
    assert(all.take(n as int) =~= all);
    while n > 0
        invariant
            n <= members.len(),
            all == times(members@),
            last_time(all.take(n as int), name@) == last_time(all, name@),
        decreases n,
    {
        let m = &members[n - 1];
        assert(all.take(n as int).last() == (m.0@, m.1));
        assert(all.take(n as int).drop_last() =~= all.take(n - 1));
        if same(m.0.as_str(), name) {
            return Some(m.1);
        }
        n = n - 1;
    }
    None
}

/// Whether an update leaves a name as the archive has it.
pub fn is_up_to_date(members: &[(String, u64)], name: &str, is_dir: bool, disk: u64) -> (r: bool)
    ensures
        r == up_to_date(times(members@), name@, is_dir, disk),
{
    let chars = to_chars(name);
    let trimmed = from_chars(trim_end_char(&chars, '/'));
    let mut with_slash = trimmed.clone();
    with_slash.push('/');
    let archived = match find_time(members, trimmed.as_str()) {
        Some(t) => Some(t),
        None => find_time(members, with_slash.as_str()),
    };
    match archived {
        Some(t) => is_dir || disk <= t,
        None => false,
    }
}

/// The name of a new member: its path rewritten, and without leading slashes
/// unless absolute names are asked for.
pub open spec fn member_name(path: Seq<char>, o: options::Settings) -> Seq<char> {
    let name = transform::rules_applied(path, o.transforms);
    if o.switches.absolute_names {
        name
    } else {
        text::trim_start_of(name, '/')
    }
}

pub fn archive_name(path: &str, args: &Args) -> (r: String)
    ensures
        r@ == member_name(path@, args@),
{
    let name = transformed(path, &args.transforms);
    if args.switches.absolute_names {
        name
    } else {
        let chars = to_chars(name.as_str());
        from_chars(trim_start_char(&chars, '/'))
    }
}

/// A name with a slash at its end.
pub open spec fn with_slash(name: Seq<char>) -> Seq<char> {
    if name.len() > 0 && name.last() == '/' {
        name
    } else {
        name.push('/')
    }
}

/// The name of a directory in the archive: with a slash at its end.
pub fn directory_name(name: &str) -> (r: String)
    ensures
        r@ == with_slash(name@),
{
    let chars = to_chars(name);
    if chars.len() > 0 && chars[chars.len() - 1] == '/' {
        owned(name)
    } else {
        let mut s = owned(name);
        s.push('/');
        s
    }
}

/// The name that a report shows: that of a directory with a slash at its end.
pub open spec fn reported_name(name: Seq<char>, is_dir: bool) -> Seq<char> {
    if is_dir {
        with_slash(name)
    } else {
        name
    }
}

pub fn display_name(name: &str, is_dir: bool) -> (r: String)
    ensures
        r@ == reported_name(name@, is_dir),
{
    if is_dir {
        directory_name(name)
    } else {
        owned(name)
    }
}

/// Whether reports go to the error stream, because the archive goes to the
/// standard output.
pub fn reports_to_stderr(args: &Args) -> (r: bool)
    ensures
        r == compression::standard_stream(args@.file),
{
    is_standard_stream(&args.file)
}

/// The report of a new member, if one is asked for: its name, or the line of a
/// listing where more is asked for.
pub open spec fn addition_report(
    m: Option<member::Meta>,
    kind: FileType,
    name: Seq<char>,
    o: options::Settings,
) -> Option<Seq<char>> {
    if !o.switches.verbose {
        None
    } else if o.switches.verbose_level >= 2 {
        Some(
            listing::verbose_line(
                member::shown_block(m, kind, o),
                name,
                o.switches.numeric_owner,
            ),
        )
    } else {
        Some(listing::escaped(name))
    }
}

pub fn report_addition(m: &Option<FileMeta>, kind: FileType, name: &str, args: &Args) -> (r: Option<
    String,
>)
    ensures
        text::opt_view(r) == addition_report(
            match *m {
                Some(m) => Some(m@),
                None => None,
            },
            kind,
            name@,
            args@,
        ),
{
    if !args.switches.verbose {
        None
    } else if args.switches.verbose_level >= 2 {
        let h = shown_header(m, kind, args);
        Some(format_verbose_entry(&h, name, args))
    } else {
        Some(escape_name(name))
    }
}

/// What becomes of a path on disk.
#[derive(Debug, Clone, Copy, PartialEq, Eq, Structural)]
pub enum Addition {
    Directory,
    Symlink,
    File,
    Nothing,
}

/// What becomes of a path on disk: a symbolic link is stored as such unless
/// links are followed; what is no directory, link or file is left out.
/// Whether a path is a directory or a file is asked of what a link points at.
pub open spec fn addition(
    is_dir: bool,
    is_symlink: bool,
    is_file: bool,
    dereference: bool,
) -> Addition {
    if is_symlink && !dereference {
        Addition::Symlink
    } else if is_dir {
        Addition::Directory
    } else if is_file {
        Addition::File
    } else {
        Addition::Nothing
    }
}

pub fn addition_of(is_dir: bool, is_symlink: bool, is_file: bool, args: &Args) -> (r: Addition)
    ensures
        r == addition(is_dir, is_symlink, is_file, args@.switches.dereference),
{
    if is_symlink && !args.switches.dereference {
        Addition::Symlink
    } else if is_dir {
        Addition::Directory
    } else if is_file {
        Addition::File
    } else {
        Addition::Nothing
    }
}

/// Whether paths stand as they are added: sorted where that is asked for, else
/// in the order in which they were found.
pub open spec fn in_addition_order(
    r: Seq<Seq<u8>>,
    found: Seq<Seq<u8>>,
    o: options::Settings,
) -> bool {
    if o.switches.sort_name {
        path::is_sorting(r, found)
    } else {
        r == found
    }
}

/// The order in which paths that were found below one of the command line are
/// added.
pub fn addition_order(found: Vec<Vec<u8>>, args: &Args) -> (r: Vec<Vec<u8>>)
    ensures
        in_addition_order(path::byte_views(r@), path::byte_views(found@), args@),
{
    if args.switches.sort_name {
        sorted_paths(found)
    } else {
        found
    }
}

/// The paths that are added: those that are wanted and are, on disk, something
/// to add.
pub open spec fn added(
    paths: Seq<Seq<u8>>,
    disk: spec_fn(Seq<u8>) -> Addition,
    o: options::Settings,
    filters: Seq<exclude::Tagged>,
) -> Seq<Seq<u8>> {
    paths.filter(
        |p: Seq<u8>| wanted(bytes::text_of(p), p, o, filters).0 && disk(p) != Addition::Nothing,
    )
}

/// A regular file that went into the archive: where it is on disk, by device and
/// inode, and the name of its member.
#[derive(Debug)]
pub struct ArchivedFile {
    pub dev: u64,
    pub ino: u64,
    pub name: String,
}

/// An [`ArchivedFile`] as mathematical values.
pub struct Archived {
    pub dev: u64,
    pub ino: u64,
    pub name: Seq<char>,
}

impl View for ArchivedFile {
    type V = Archived;

    open spec fn view(&self) -> Archived {
        Archived { dev: self.dev, ino: self.ino, name: self.name@ }
    }
}

pub open spec fn archived(v: Seq<ArchivedFile>) -> Seq<Archived> {
    v.map_values(|f: ArchivedFile| f@)
}

/// The name of the first member that a file on disk went into, if it did.
pub open spec fn first_name(files: Seq<Archived>, dev: u64, ino: u64) -> Option<Seq<char>>
    decreases files.len(),
{
    if files.len() == 0 {
        None
    } else if files[0].dev == dev && files[0].ino == ino {
        Some(files[0].name)
    } else {
        first_name(files.drop_first(), dev, ino)
    }
}

fn find_name(files: &[ArchivedFile], dev: u64, ino: u64) -> (r: Option<String>)
    ensures
        text::opt_view(r) == first_name(archived(files@), dev, ino),
{
    let ghost all = archived(files@);
    assert(all.skip(0) =~= all);
    for i in 0..files.len()
        invariant
            all == archived(files@),
            first_name(all.skip(i as int), dev, ino) == first_name(all, dev, ino),
    {
        let f = &files[i];
        assert(all.skip(i as int)[0] == f@);
        assert(all.skip(i as int).drop_first() =~= all.skip(i + 1));
        if f.dev == dev && f.ino == ino {
            return Some(f.name.clone());
        }
    }
    None
}

/// What is written of a regular file: where the same file, by device and inode,
/// went into the archive before, a hard link to the first member of it, which
/// is given by its name; else the file, which from now on counts as archived.
pub open spec fn file_written(
    m: member::Meta,
    file: Archived,
    o: options::Settings,
    files: Seq<Archived>,
) -> (Seq<u8>, Option<Seq<char>>, Seq<Archived>) {
    match first_name(files, file.dev, file.ino) {
        Some(first) => (member::link_block(m, o), Some(first), files),
        None => (member::file_block(m, o), None, files.push(file)),
    }
}

/// What is written of a regular file, and what counts as archived behind it.
pub fn file_entry(
    m: &FileMeta,
    dev: u64,
    ino: u64,
    name: &str,
    args: &Args,
    files: &mut Vec<ArchivedFile>,
) -> (r: (EntryHeader, Option<String>))
    ensures
        (r.0@, text::opt_view(r.1), archived(final(files)@)) == file_written(
            m@,
            Archived { dev, ino, name: name@ },
            args@,
            archived(old(files)@),
        ),
{
    match find_name(files, dev, ino) {
        Some(first) => (link_header(m, args), Some(first)),
        None => {
            let ghost before = archived(files@);
            files.push(ArchivedFile { dev, ino, name: owned(name) });
            assert(archived(files@) =~= before.push(Archived { dev, ino, name: name@ }));
            (file_header(m, args), None)
        },
    }
}

/// What a report takes a path on disk for.
pub open spec fn reported_type(is_dir: bool, is_symlink: bool, dereference: bool) -> FileType {
    if is_dir {
        FileType::Directory
    } else if is_symlink && !dereference {
        FileType::Symlink
    } else {
        FileType::Other
    }
}

/// What a report takes a path on disk for.
pub fn shown_type(is_dir: bool, is_symlink: bool, args: &Args) -> (r: FileType)
    ensures
        r == reported_type(is_dir, is_symlink, args@.switches.dereference),
{
    if is_dir {
        FileType::Directory
    } else if is_symlink && !args.switches.dereference {
        FileType::Symlink
    } else {
        FileType::Other
    }
}

proof fn lemma_trim_start(s: Seq<char>, c: char)
    ensures
        text::trim_start_of(s, c).len() > 0 ==> text::trim_start_of(s, c)[0] != c,
    decreases s.len(),
{
    if s.len() > 0 && s[0] == c {
        lemma_trim_start(s.drop_first(), c);
    }
}

/// Unless absolute names are asked for, no name in the archive begins with a
/// slash.
pub proof fn law_names_relative(path: Seq<char>, o: options::Settings)
    requires
        !o.switches.absolute_names,
    ensures
        member_name(path, o).len() > 0 ==> member_name(path, o)[0] != '/',
{
    lemma_trim_start(transform::rules_applied(path, o.transforms), '/');
}

/// Where nothing is rewritten a relative path is its own name in the archive.
pub proof fn law_relative_name_kept(path: Seq<char>, o: options::Settings)
    requires
        o.transforms.len() == 0,
        path.len() > 0 ==> path[0] != '/',
    ensures
        member_name(path, o) == path,
{
}

/// Sorting by name changes only the order in which paths are added: of the same
/// paths, all distinct, the same are added with and without it, and with it they
/// ascend strictly.
pub proof fn law_sorted_additions(
    found: Seq<Seq<u8>>,
    with: Seq<Seq<u8>>,
    without: Seq<Seq<u8>>,
    disk: spec_fn(Seq<u8>) -> Addition,
    o: options::Settings,
    filters: Seq<exclude::Tagged>,
)
    requires
        o.switches.sort_name,
        path::all_distinct(found),
        in_addition_order(with, found, o),
        in_addition_order(without, found, unsorted(o)),
    ensures
        path::ascending(added(with, disk, o, filters)),
        added(with, disk, o, filters).to_set() == added(
            without,
            disk,
            unsorted(o),
            filters,
        ).to_set(),
{
    let keep = |p: Seq<u8>|
        wanted(bytes::text_of(p), p, o, filters).0 && disk(p) != Addition::Nothing;
    let keep_unsorted = |p: Seq<u8>|
        wanted(bytes::text_of(p), p, unsorted(o), filters).0 && disk(p) != Addition::Nothing;
    path::law_sorting(with, found, keep);
    assert forall|p: Seq<u8>| found.filter(keep).contains(p) <==> found.filter(
        keep_unsorted,
    ).contains(p) by {
        path::lemma_kept(found, keep, p);
        path::lemma_kept(found, keep_unsorted, p);
    }
    assert(found.filter(keep).to_set() =~= found.filter(keep_unsorted).to_set());
}

/// The settings without sorting by name.
pub open spec fn unsorted(o: options::Settings) -> options::Settings {
    options::Settings { switches: options::Switches { sort_name: false, ..o.switches }, ..o }
}

/// Every later path to a file is a hard link to the member that the file first
/// went into, whatever was archived in between.
pub proof fn law_hard_links(
    before: Seq<Archived>,
    file: Archived,
    between: Seq<Archived>,
)
    requires
        first_name(before, file.dev, file.ino) is None,
    ensures
        first_name(before.push(file) + between, file.dev, file.ino) == Some(file.name),
    decreases before.len(),
{
    let all = before.push(file) + between;
    if before.len() > 0 {
        law_hard_links(before.drop_first(), file, between);
        assert(all.drop_first() =~= before.drop_first().push(file) + between);
        assert(all[0] == before[0]);
    } else {
        assert(all[0] == file);
    }
}

/// A member that is newer in the archive, or as new, is not added again by an
/// update, nor is a directory that is there; a file that is newer on disk, or
/// is not in the archive, always is.
pub proof fn law_update(
    members: Seq<(Seq<char>, u64)>,
    name: Seq<char>,
    time: u64,
    disk: u64,
    is_dir: bool,
)
    requires
        name.len() > 0 ==> name.last() != '/',
    ensures
        disk <= time || is_dir ==> up_to_date(members.push((name, time)), name, is_dir, disk),
        time < disk && !is_dir ==> !up_to_date(members.push((name, time)), name, is_dir, disk),
        last_time(members, name) is None && last_time(members, name.push('/')) is None
            ==> !up_to_date(members, name, is_dir, disk),
{
    let more = members.push((name, time));
    assert(more.drop_last() =~= members);
    assert(text::trim_end_of(name, '/') == name);
}

/// An archive is made where there is a path, a list of paths or a label, and only
/// then.
pub proof fn law_empty_refused(o: options::Settings)
    ensures
        nothing_to_archive(o) ==> o.paths.len() == 0 && o.label is None,
        o.paths.len() > 0 || o.switches.files_from_used || o.label is Some ==> !nothing_to_archive(
            o,
        ),
        o.paths.len() == 0 && !o.switches.files_from_used && o.label is None
            ==> nothing_to_archive(o),
{
}

/// The name of a member is its path, rewritten; unless absolute names are asked
/// for the slashes at its start, and nothing else, are taken away.
pub proof fn law_member_name(path: Seq<char>, o: options::Settings)
    ensures
        ({
            let whole = transform::rules_applied(path, o.transforms);
            let name = member_name(path, o);
            let k = whole.len() - name.len();
            &&& o.switches.absolute_names ==> name == whole
            &&& !o.switches.absolute_names ==> {
                &&& 0 <= k
                &&& name == whole.skip(k)
                &&& forall|i: int| 0 <= i < k ==> whole[i] == '/'
                &&& name.len() > 0 ==> name[0] != '/'
            }
        }),
{
    text::law_trim_start(transform::rules_applied(path, o.transforms), '/');
}

/// A directory is named with a slash at its end, which is added where there is
/// none; other names are shown as they are.
pub proof fn law_directory_name(name: Seq<char>)
    ensures
        with_slash(name).last() == '/',
        name.len() > 0 && name.last() == '/' ==> with_slash(name) == name,
        name.len() == 0 || name.last() != '/' ==> with_slash(name) == name.push('/'),
        reported_name(name, true) == with_slash(name),
        reported_name(name, false) == name,
{
}

/// A symbolic link is stored as one unless links are followed; what is none, or
/// is followed, as a directory or a file where it is one; anything else is left
/// out. A report says the same of it, but tells a directory first.
pub proof fn law_additions(is_dir: bool, is_symlink: bool, is_file: bool, dereference: bool)
    ensures
        ({
            let a = addition(is_dir, is_symlink, is_file, dereference);
            let linked = is_symlink && !dereference;
            &&& a is Symlink <==> linked
            &&& a is Directory <==> is_dir && !linked
            &&& a is File <==> is_file && !is_dir && !linked
            &&& a is Nothing <==> !is_file && !is_dir && !linked
        }),
        reported_type(is_dir, is_symlink, dereference) is Directory <==> is_dir,
        reported_type(is_dir, is_symlink, dereference) is Symlink <==> !is_dir && is_symlink
            && !dereference,
{
}

/// A path goes into the archive unless it is excluded or a tag file keeps it out;
/// without exclusions and tag files every path does.
pub proof fn law_wanted(
    shown: Seq<char>,
    p: Seq<u8>,
    o: options::Settings,
    filters: Seq<exclude::Tagged>,
)
    ensures
        wanted(shown, p, o, filters).0 <==> !exclude::excluded(shown, o.excludes)
            && !exclude::filter_verdict(p, filters, 0).0,
        wanted(shown, p, o, filters).1 is Some ==> wanted(shown, p, o, filters).1
            == exclude::filter_verdict(p, filters, 0).1,
        !exclude::excluded(shown, o.excludes) ==> wanted(shown, p, o, filters).1
            == exclude::filter_verdict(p, filters, 0).1,
        exclude::excluded(shown, o.excludes) ==> wanted(shown, p, o, filters).1 is None,
        o.excludes.len() == 0 && filters.len() == 0 ==> wanted(shown, p, o, filters) == (
            true,
            None::<int>,
        ),
{
}

/// The time of a member in an archive is that of the last entry of its name; a
/// name is found with and without slashes at its end, and a directory also under
/// its name with one.
pub proof fn law_archived_time(
    members: Seq<(Seq<char>, u64)>,
    name: Seq<char>,
    other: Seq<char>,
    time: u64,
    is_dir: bool,
    disk: u64,
)
    requires
        name.len() > 0,
        name.last() != '/',
        other != name,
        other != name.push('/'),
    ensures
        !up_to_date(seq![], name, is_dir, disk),
        up_to_date(members.push((other, time)), name, is_dir, disk) == up_to_date(
            members,
            name,
            is_dir,
            disk,
        ),
        up_to_date(members.push((name, time)), name, is_dir, disk) <==> is_dir || disk <= time,
        last_time(members, name) is None ==> (up_to_date(
            members.push((name.push('/'), time)),
            name,
            is_dir,
            disk,
        ) <==> is_dir || disk <= time),
        up_to_date(members, name.push('/'), is_dir, disk) == up_to_date(
            members,
            name,
            is_dir,
            disk,
        ),
{
    assert(text::trim_end_of(name, '/') == name);
    assert(name.push('/').drop_last() =~= name);
    assert(text::trim_end_of(name.push('/'), '/') == name) by {
        reveal_with_fuel(text::trim_end_of, 2);
    }
    assert(members.push((other, time)).drop_last() =~= members);
    assert(members.push((name, time)).drop_last() =~= members);
    assert(members.push((name.push('/'), time)).drop_last() =~= members);
    assert(name.push('/') != name) by {
        assert(name.push('/').len() != name.len());
    }
}

/// An addition is reported only where that is asked for: by its name, or by the
/// verbose line of what is added where more is asked for.
pub proof fn law_addition_reported(
    m: Option<member::Meta>,
    kind: FileType,
    name: Seq<char>,
    o: options::Settings,
)
    ensures
        addition_report(m, kind, name, o) is Some <==> o.switches.verbose,
        o.switches.verbose && o.switches.verbose_level < 2 ==> addition_report(m, kind, name, o)
            == Some(listing::escaped(name)),
        o.switches.verbose && o.switches.verbose_level >= 2 ==> addition_report(m, kind, name, o)
            == Some(
            listing::verbose_line(
                member::shown_block(m, kind, o),
                name,
                o.switches.numeric_owner,
            ),
        ),
{
}

/// A file is new to the archive exactly where no file of the same device and
/// inode went into it.
pub proof fn law_new_files(files: Seq<Archived>, dev: u64, ino: u64)
    ensures
        first_name(files, dev, ino) is None <==> forall|i: int|
            0 <= i < files.len() ==> !(#[trigger] files[i].dev == dev && files[i].ino == ino),
        first_name(files, dev, ino) matches Some(n) ==> exists|i: int|
            0 <= i < files.len() && #[trigger] files[i].dev == dev && files[i].ino == ino
                && files[i].name == n,
    decreases files.len(),
{
    if files.len() > 0 {
        let rest = files.drop_first();
        law_new_files(rest, dev, ino);
        assert forall|i: int| 0 <= i < rest.len() implies #[trigger] rest[i] == files[i + 1] by {}
        if files[0].dev == dev && files[0].ino == ino {
            assert(files[0].dev == dev);
        } else {
            match first_name(files, dev, ino) {
                Some(n) => {
                    let i = choose|i: int|
                        0 <= i < rest.len() && #[trigger] rest[i].dev == dev && rest[i].ino == ino
                            && rest[i].name == n;
                    assert(files[i + 1].dev == dev);
                },
                None => {
                    assert forall|i: int| 0 <= i < files.len() implies !(#[trigger] files[i].dev
                        == dev && files[i].ino == ino) by {
                        if i > 0 {
                            assert(!(rest[i - 1].dev == dev && rest[i - 1].ino == ino));
                        }
                    }
                },
            }
        }
    }
}

/// A file is written with its contents the first time, and as a hard link without
/// contents, which names the first member, every other time; and either way the
/// header says what is known of the file.
pub proof fn law_files_written(
    m: FileMeta,
    file: Archived,
    other: Archived,
    between: Seq<Archived>,
    o: options::Settings,
    files: Seq<Archived>,
    stored: Seq<u8>,
)
    requires
        forall|i: int|
            0 <= i < files.len() ==> !(#[trigger] files[i].dev == file.dev && files[i].ino
                == file.ino),
        other.dev == file.dev,
        other.ino == file.ino,
    ensures
        ({
            let (block, link, after) = file_written(m@, file, o, files);
            let (again, target, last) = file_written(m@, other, o, after + between);
            let a = member::named_block(block, stored, None);
            let b = member::named_block(again, stored, None);
            &&& link is None
            &&& after == files.push(file)
            &&& target == Some(file.name)
            &&& last == after + between
            &&& header::type_flag(a[156]) == 48
            &&& b[156] == 49
            &&& header::number_value(a.subrange(124, 136)) == Some(m.size as int)
            &&& header::number_value(b.subrange(124, 136)) == Some(0int)
            &&& member::describes(a, m, o)
            &&& member::describes(b, m, o)
        }),
{
    law_new_files(files, file.dev, file.ino);
    law_hard_links(files, file, between);
    member::law_headers_describe(m, o, stored, None);
}

} // verus!
