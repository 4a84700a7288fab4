//! What is left out of an archive: excluded names, and directories that hold
//! a tag file.

use crate::bytes;
use crate::bytes::lossy_text;
use crate::glob;
use crate::glob::{eq_opt_ci, matches_exclude};
use crate::options;
use crate::options::{Args, CacheExcludeMode, ExcludeEntry};
use crate::path;
use crate::path::{file_name, joined_bytes, place_of, Place};
use crate::text;
use crate::text::{concat, from_chars, to_chars, trim_end_char};
use vstd::prelude::*;
use vstd::slice::slice_subrange;

verus! {

/// Whether an exclusion names a text: as a glob pattern, or literally.
pub open spec fn names(e: options::Exclusion, s: Seq<char>) -> bool {
    if e.wildcards {
        glob::glob(
            glob::case_view(e.pattern, e.ignore_case),
            glob::case_view(s, e.ignore_case),
            e.match_slash,
        )
    } else {
        glob::names_equal(s, e.pattern, e.ignore_case)
    }
}

/// Whether an exclusion names what stands behind one of the slashes of a path.
pub open spec fn names_suffix(e: options::Exclusion, path: Seq<char>) -> bool {
    exists|k: int|
        0 < k < path.len() && path[k - 1] == '/' && names(e, #[trigger] path.skip(k))
}

/// Whether an exclusion covers a path: the whole of it, with or without the
/// slashes at its end; where it is not anchored, also what stands behind one of
/// its slashes, and its last name.
pub open spec fn covers(e: options::Exclusion, path: Seq<char>) -> bool {
    let trimmed = text::trim_end_of(path, '/');
    ||| names(e, path)
    ||| names(e, trimmed)
    ||| !e.anchored && {
        ||| names_suffix(e, path)
        ||| names_suffix(e, trimmed)
        ||| path::base_name(path) matches Some(n) && names(e, n)
    }
}

/// Whether one of the exclusions covers a path.
pub open spec fn excluded(path: Seq<char>, excludes: Seq<options::Exclusion>) -> bool {
    exists|i: int| 0 <= i < excludes.len() && covers(#[trigger] excludes[i], path)
}

fn entry_names(e: &ExcludeEntry, s: &str) -> (r: bool)
    ensures
        r == names(e@, s@),
{
    if e.wildcards {
        matches_exclude(s, e.pattern.as_str(), e.match_slash, e.ignore_case)
    } else {
        eq_opt_ci(s, e.pattern.as_str(), e.ignore_case)
    }
}

fn entry_names_suffix(e: &ExcludeEntry, path: &[char]) -> (r: bool)
    ensures
        r == names_suffix(e@, path@),
{
    let mut k: usize = 1;
    while k < path.len()
        invariant
            1 <= k,
            forall|j: int|
                0 < j < k && j < path@.len() && path@[j - 1] == '/' ==> !names(
                    e@,
                    #[trigger] path@.skip(j),
                ),
        decreases path.len() - k,
    {
        if path[k - 1] == '/' {
            assert(path@.subrange(k as int, path@.len() as int) =~= path@.skip(k as int));
            let suffix = from_chars(slice_subrange(path, k, path.len()));
            if entry_names(e, suffix.as_str()) {
                return true;
            }
        }
        k = k + 1;
    }
    false
}

fn entry_covers(e: &ExcludeEntry, path: &str) -> (r: bool)
    ensures
        r == covers(e@, path@),
{
    let chars = to_chars(path);
    let trimmed = from_chars(trim_end_char(&chars, '/'));
    if entry_names(e, path) || entry_names(e, trimmed.as_str()) {
        return true;
    }
    if e.anchored {
        return false;
    }
    if entry_names_suffix(e, &chars) || entry_names_suffix(e, trim_end_char(&chars, '/')) {
        return true;
    }
    match file_name(path) {
        Some(name) => entry_names(e, name.as_str()),
        None => false,
    }
}

/// Whether a path is excluded.
pub fn is_excluded(path: &str, excludes: &[ExcludeEntry]) -> (r: bool)
    ensures
        r == excluded(path@, options::exclusions(excludes@)),
{
    let ghost all = options::exclusions(excludes@);
    for i in 0..excludes.len()
        invariant
            all == options::exclusions(excludes@),
            forall|j: int| 0 <= j < i ==> !covers(#[trigger] all[j], path@),
    {
        assert(all[i as int] == excludes@[i as int]@);
        if entry_covers(&excludes[i], path) {
            return true;
        }
    }
    false
}

/// A directory that holds a tag file.
#[derive(Debug)]
pub struct TagFilter {
    pub dir: Vec<u8>,
    pub mode: CacheExcludeMode,
    pub tag: String,
}

/// A [`TagFilter`] as mathematical values.
pub struct Tagged {
    pub dir: Seq<u8>,
    pub mode: CacheExcludeMode,
    pub tag: Seq<char>,
}

impl View for TagFilter {
    type V = Tagged;

    open spec fn view(&self) -> Tagged {
        Tagged { dir: self.dir@, mode: self.mode, tag: self.tag@ }
    }
}

pub open spec fn tagged(v: Seq<TagFilter>) -> Seq<Tagged> {
    v.map_values(|f: TagFilter| f@)
}

/// The tag files to look for, that of cache directories first.
pub open spec fn tags_sought(o: options::Settings) -> Seq<(Seq<char>, CacheExcludeMode)> {
    (match o.cache_exclude {
        Some(t) => seq![t],
        None => seq![],
    }) + o.tag_excludes
}

/// The tag files to look for.
pub fn tag_specs(args: &Args) -> (r: Vec<(String, CacheExcludeMode)>)
    ensures
        options::tag_views(r@) == tags_sought(args@),
{
    let mut r: Vec<(String, CacheExcludeMode)> = Vec::new();
    let ghost all = args@.tag_excludes;
    if let Some(t) = &args.cache_exclude {
        r.push((t.0.clone(), t.1));
    }
    let ghost front = options::tag_views(r@);
    assert(front =~= (match args@.cache_exclude {
        Some(t) => seq![t],
        None => seq![],
    }));
    assert(front + all.take(0) =~= front);
    for i in 0..args.tag_excludes.len()
        invariant
            all == options::tag_views(args.tag_excludes@),
            options::tag_views(r@) == front + all.take(i as int),
    {
        let ghost before = r@;
        let t = &args.tag_excludes[i];
        r.push((t.0.clone(), t.1));
        assert(all[i as int] == options::tag_view(args.tag_excludes@[i as int]));
        assert(options::tag_views(r@) =~= options::tag_views(before).push(all[i as int]));
        assert(front + all.take(i + 1) =~= (front + all.take(i as int)).push(all[i as int]));
    }
    assert(all.take(all.len() as int) =~= all);
    r
}

/// Whether a path is the tag file of a filter.
pub open spec fn is_tag_file(p: Seq<u8>, f: Tagged) -> bool {
    path::same_path(p, path::join_bytes(f.dir, vstd::utf8::encode_utf8(f.tag)))
}

/// What the tag filters from the `i`-th on make of a path: whether it is left
/// out, and the filter that it is the directory of. The first filter whose
/// directory is the path or lies above it decides, but that in the plain mode
/// the tag file itself is left to the filters behind it.
pub open spec fn filter_verdict(p: Seq<u8>, filters: Seq<Tagged>, i: int) -> (bool, Option<int>)
    decreases filters.len() - i,
{
    if i < 0 || i >= filters.len() {
        (false, None)
    } else {
        let f = filters[i];
        match path::place(p, f.dir) {
            Place::Same => (f.mode == CacheExcludeMode::All, Some(i)),
            Place::Below => if f.mode == CacheExcludeMode::Normal && is_tag_file(p, f) {
                filter_verdict(p, filters, i + 1)
            } else {
                (true, None)
            },
            Place::Outside => filter_verdict(p, filters, i + 1),
        }
    }
}

/// Whether the tag filters leave a path out, and the filter whose directory it
/// is.
pub fn is_filtered(p: &[u8], filters: &[TagFilter]) -> (r: (bool, Option<usize>))
    ensures
        r.0 == filter_verdict(p@, tagged(filters@), 0).0,
        r.1 is Some <==> filter_verdict(p@, tagged(filters@), 0).1 is Some,
        r.1 matches Some(i) ==> i < filters@.len() && filter_verdict(p@, tagged(filters@), 0).1
            == Some(i as int),
{
    let ghost all = tagged(filters@);
    for i in 0..filters.len()
        invariant
            all == tagged(filters@),
            filter_verdict(p@, all, i as int) == filter_verdict(p@, all, 0),
    {
        let f = &filters[i];
        assert(all[i as int] == f@);
        match place_of(p, &f.dir) {
            Place::Same => {
                return (f.mode == CacheExcludeMode::All, Some(i));
            },
            Place::Below => {
                if f.mode != CacheExcludeMode::Normal {
                    return (true, None);
                }
                let tag = joined_bytes(&f.dir, f.tag.as_str().as_bytes());
                match place_of(p, &tag) {
                    Place::Same => {},
                    _ => {
                        return (true, None);
                    },
                }
            },
            Place::Outside => {},
        }
    }
    (false, None)
}

/// The first filter, from the `i`-th on, of a directory.
pub open spec fn first_filter(dir: Seq<u8>, filters: Seq<Tagged>, i: int) -> int
    decreases filters.len() - i,
{
    if i < 0 || i >= filters.len() || path::same_path(filters[i].dir, dir) {
        i
    } else {
        first_filter(dir, filters, i + 1)
    }
}

/// The line that reports a tagged directory.
pub open spec fn tag_line(f: Tagged, mode: CacheExcludeMode) -> Seq<char> {
    let dir = bytes::text_of(f.dir);
    let slash = if dir.len() > 0 && dir.last() == '/' {
        ""@
    } else {
        "/"@
    };
    let what = if mode == CacheExcludeMode::All {
        "directory not dumped"@
    } else {
        "contents not dumped"@
    };
    "tar: "@ + dir + slash + ": contains a cache directory tag "@ + f.tag + "; "@ + what
}

/// Whether a directory is among those already reported.
pub open spec fn already_reported(dir: Seq<u8>, reported: Seq<Seq<u8>>) -> bool {
    exists|i: int| 0 <= i < reported.len() && path::same_path(#[trigger] reported[i], dir)
}

fn is_reported(dir: &[u8], reported: &Vec<Vec<u8>>) -> (r: bool)
    ensures
        r == already_reported(dir@, path::byte_views(reported@)),
{
    let ghost all = path::byte_views(reported@);
    for i in 0..reported.len()
        invariant
            all == path::byte_views(reported@),
            forall|j: int| 0 <= j < i ==> !path::same_path(#[trigger] all[j], dir@),
    {
        assert(all[i as int] == reported@[i as int]@);
        match place_of(&reported[i], dir) {
            Place::Same => {
                return true;
            },
            _ => {},
        }
    }
    false
}

fn mode_of_dir(dir: &[u8], filters: &[TagFilter]) -> (r: Option<CacheExcludeMode>)
    ensures
        ({
            let i = first_filter(dir@, tagged(filters@), 0);
            r == (if 0 <= i < filters@.len() {
                Some(filters@[i].mode)
            } else {
                None
            })
        }),
{
    let ghost all = tagged(filters@);
    for i in 0..filters.len()
        invariant
            all == tagged(filters@),
            first_filter(dir@, all, i as int) == first_filter(dir@, all, 0),
    {
        assert(all[i as int] == filters@[i as int]@);
        match place_of(&filters[i].dir, dir) {
            Place::Same => {
                return Some(filters[i].mode);
            },
            _ => {},
        }
    }
    None
}

/// The line that reports the directory of the `i`-th filter, unless it was
/// reported before, and the directories that count as reported from now on. What
/// it says is left out goes by the first filter of the directory.
pub open spec fn tag_report(filters: Seq<Tagged>, i: int, reported: Seq<Seq<u8>>) -> (
    Option<Seq<char>>,
    Seq<Seq<u8>>,
) {
    let dir = filters[i].dir;
    if already_reported(dir, reported) {
        (None, reported)
    } else {
        (
            Some(tag_line(filters[i], filters[first_filter(dir, filters, 0)].mode)),
            reported.push(dir),
        )
    }
}

/// The line that reports the directory of the `i`-th filter, unless it was
/// reported before; from now on it counts as reported.
pub fn report_tag(filters: &[TagFilter], i: usize, reported: &mut Vec<Vec<u8>>) -> (r: Option<
    String,
>)
    requires
        i < filters@.len(),
    ensures
        (text::opt_view(r), path::byte_views(final(reported)@)) == tag_report(
            tagged(filters@),
            i as int,
            path::byte_views(old(reported)@),
        ),
{
    let ghost all = tagged(filters@);
    let f = &filters[i];
    assert(all[i as int] == f@);
    if is_reported(&f.dir, reported) {
        return None;
    }
    let ghost before = reported@;
    let copy = vstd::slice::slice_to_vec(f.dir.as_slice());
    reported.push(copy);
    assert(path::byte_views(reported@) =~= path::byte_views(before).push(f.dir@));
    proof {
        lemma_first_filter(f.dir@, all, 0, i as int);
    }
    let mode = match mode_of_dir(&f.dir, filters) {
        Some(m) => m,
        None => CacheExcludeMode::Normal,
    };
    let dir = lossy_text(&f.dir);
    let chars = to_chars(dir.as_str());
    let slash = if chars.len() > 0 && chars[chars.len() - 1] == '/' {
        ""
    } else {
        "/"
    };
    let what = if mode == CacheExcludeMode::All {
        "directory not dumped"
    } else {
        "contents not dumped"
    };
    let mut line = concat("tar: ", dir.as_str());
    line.append(slash);
    line.append(": contains a cache directory tag ");
    line.append(f.tag.as_str());
    line.append("; ");
    line.append(what);
    Some(line)
}

proof fn lemma_first_filter(dir: Seq<u8>, filters: Seq<Tagged>, i: int, k: int)
    requires
        0 <= i <= k < filters.len(),
        path::same_path(filters[k].dir, dir),
    ensures
        i <= first_filter(dir, filters, i) <= k,
    decreases k - i,
{
    if !path::same_path(filters[i].dir, dir) {
        lemma_first_filter(dir, filters, i + 1, k);
    }
}

/// Nothing is excluded where there are no exclusions, and what is excluded
/// stays so when there are more of them.
pub proof fn law_exclusions_grow(
    path: Seq<char>,
    excludes: Seq<options::Exclusion>,
    more: Seq<options::Exclusion>,
)
    ensures
        !excluded(path, seq![]),
        excluded(path, excludes) || excluded(path, more) <==> excluded(path, excludes + more),
{
    let all = excludes + more;
    if excluded(path, excludes) {
        let i = choose|i: int| 0 <= i < excludes.len() && covers(#[trigger] excludes[i], path);
        assert(covers(all[i], path));
    }
    if excluded(path, more) {
        let i = choose|i: int| 0 <= i < more.len() && covers(#[trigger] more[i], path);
        assert(all[excludes.len() + i] == more[i]);
        assert(covers(all[excludes.len() + i], path));
    }
    if excluded(path, all) {
        let i = choose|i: int| 0 <= i < all.len() && covers(#[trigger] all[i], path);
        if i < excludes.len() {
            assert(covers(excludes[i], path));
        } else {
            assert(covers(more[i - excludes.len()], path));
        }
    }
}

/// What an exclusion covers where it is anchored, it covers where it is not.
pub proof fn law_anchored_covers_less(e: options::Exclusion, path: Seq<char>)
    requires
        e.anchored,
        covers(e, path),
    ensures
        covers(options::Exclusion { anchored: false, ..e }, path),
{
    let loose = options::Exclusion { anchored: false, ..e };
    assert(names(e, path) == names(loose, path));
    assert(names(e, text::trim_end_of(path, '/')) == names(
        loose,
        text::trim_end_of(path, '/'),
    ));
}

/// An exclusion that is not anchored covers, below every directory, the paths
/// that it names.
pub proof fn law_unanchored_covers_suffixes(
    e: options::Exclusion,
    dir: Seq<char>,
    path: Seq<char>,
)
    requires
        !e.anchored,
        path.len() > 0,
        names(e, path),
    ensures
        covers(e, dir.push('/') + path),
{
    let whole = dir.push('/') + path;
    let k = dir.len() as int + 1;
    assert(whole.skip(k) =~= path);
    assert(whole[k - 1] == '/');
    assert(names_suffix(e, whole));
}

/// A directory tagged to be left out as a whole is left out with all that lies
/// below it; tagged otherwise its own entry is kept, and what lies below it is
/// left out but, in the plain mode, for the tag file itself.
pub proof fn law_tag_modes(p: Seq<u8>, f: Tagged)
    ensures
        path::same_path(p, f.dir) ==> filter_verdict(p, seq![f], 0).0 == (f.mode
            == CacheExcludeMode::All),
        path::place(p, f.dir) == Place::Below ==> filter_verdict(p, seq![f], 0).0 == (f.mode
            != CacheExcludeMode::Normal || !is_tag_file(p, f)),
        path::place(p, f.dir) == Place::Outside ==> !filter_verdict(p, seq![f], 0).0,
{
    reveal_with_fuel(filter_verdict, 2);
}

/// A pattern excludes the paths that the glob matches, with or without the
/// slashes at their end; where it is not anchored also those of which it matches
/// what stands behind a slash, or the last name; and no others.
pub proof fn law_exclusion_by_glob(e: options::Exclusion, path: Seq<char>)
    requires
        e.wildcards,
    ensures
        ({
            let t = text::trim_end_of(path, '/');
            let hit = |s: Seq<char>|
                if e.ignore_case {
                    glob::glob(
                        glob::case_view(e.pattern, true),
                        glob::case_view(s, true),
                        e.match_slash,
                    )
                } else {
                    glob::glob(e.pattern, s, e.match_slash)
                };
            &&& hit(path) ==> excluded(path, seq![e])
            &&& hit(t) ==> excluded(path, seq![e])
            &&& e.anchored ==> (excluded(path, seq![e]) <==> hit(path) || hit(t))
            &&& !e.anchored ==> (excluded(path, seq![e]) <==> {
                ||| hit(path)
                ||| hit(t)
                ||| exists|k: int| 0 < k < path.len() && path[k - 1] == '/'
                    && hit(#[trigger] path.skip(k))
                ||| exists|k: int| 0 < k < t.len() && t[k - 1] == '/' && hit(#[trigger] t.skip(k))
                ||| path::base_name(path) matches Some(n) && hit(n)
            })
        }),
{
    lemma_excluded_by_one(e, path);
    let t = text::trim_end_of(path, '/');
    let hit = |s: Seq<char>|
        if e.ignore_case {
            glob::glob(glob::case_view(e.pattern, true), glob::case_view(s, true), e.match_slash)
        } else {
            glob::glob(e.pattern, s, e.match_slash)
        };
    assert forall|s: Seq<char>| #[trigger] names(e, s) == hit(s) by {}
    lemma_suffix(e, path, hit);
    lemma_suffix(e, t, hit);
}

/// A literal exclusion excludes the path that it is, with or without slashes at
/// its end; where it is not anchored also a path that ends in it behind a slash,
/// or has it as its last name; and no others.
pub proof fn law_exclusion_by_name(e: options::Exclusion, path: Seq<char>)
    requires
        !e.wildcards,
    ensures
        ({
            let t = text::trim_end_of(path, '/');
            let hit = |s: Seq<char>|
                if e.ignore_case {
                    glob::names_equal(s, e.pattern, true)
                } else {
                    s == e.pattern
                };
            &&& e.anchored ==> (excluded(path, seq![e]) <==> hit(path) || hit(t))
            &&& !e.anchored ==> (excluded(path, seq![e]) <==> {
                ||| hit(path)
                ||| hit(t)
                ||| exists|k: int| 0 < k < path.len() && path[k - 1] == '/'
                    && hit(#[trigger] path.skip(k))
                ||| exists|k: int| 0 < k < t.len() && t[k - 1] == '/' && hit(#[trigger] t.skip(k))
                ||| path::base_name(path) matches Some(n) && hit(n)
            })
        }),
{
    lemma_excluded_by_one(e, path);
    let t = text::trim_end_of(path, '/');
    let hit = |s: Seq<char>|
        if e.ignore_case {
            glob::names_equal(s, e.pattern, true)
        } else {
            s == e.pattern
        };
    assert forall|s: Seq<char>| #[trigger] names(e, s) == hit(s) by {}
    lemma_suffix(e, path, hit);
    lemma_suffix(e, t, hit);
}

proof fn lemma_excluded_by_one(e: options::Exclusion, path: Seq<char>)
    ensures
        excluded(path, seq![e]) <==> covers(e, path),
{
    if covers(e, path) {
        assert(covers(seq![e][0], path));
    }
}

proof fn lemma_suffix(e: options::Exclusion, s: Seq<char>, hit: spec_fn(Seq<char>) -> bool)
    requires
        forall|t: Seq<char>| #[trigger] names(e, t) == hit(t),
    ensures
        names_suffix(e, s) <==> exists|k: int|
            0 < k < s.len() && s[k - 1] == '/' && hit(#[trigger] s.skip(k)),
{
    if names_suffix(e, s) {
        let k = choose|k: int| 0 < k < s.len() && s[k - 1] == '/' && names(e, #[trigger] s.skip(k));
        assert(hit(s.skip(k)));
    }
    if exists|k: int| 0 < k < s.len() && s[k - 1] == '/' && hit(#[trigger] s.skip(k)) {
        let k = choose|k: int| 0 < k < s.len() && s[k - 1] == '/' && hit(#[trigger] s.skip(k));
        assert(names(e, s.skip(k)));
    }
}

/// What a tag file keeps out of the archive: everything below its directory, but
/// for the tag file itself in the plain mode, and the directory only where the
/// whole of it is to be left out. Nothing outside the directory is left out.
pub proof fn law_tagged_directory(p: Seq<u8>, f: Tagged)
    requires
        f.dir.len() > 0,
        f.dir.last() != 47,
        f.tag.len() > 0,
        f.tag[0] != '/',
    ensures
        ({
            let tag_file = f.dir.push(47) + vstd::utf8::encode_utf8(f.tag);
            let out = filter_verdict(p, seq![f], 0).0;
            &&& f.mode == CacheExcludeMode::All ==> (out <==> path::within(p, f.dir))
            &&& f.mode == CacheExcludeMode::Under ==> (out <==> path::within(p, f.dir)
                && !path::same_path(p, f.dir))
            &&& f.mode == CacheExcludeMode::Normal ==> (out <==> path::within(p, f.dir)
                && !path::same_path(p, f.dir) && !path::same_path(p, tag_file))
            &&& filter_verdict(p, seq![f], 0).1 == (if path::same_path(p, f.dir) {
                Some(0int)
            } else {
                None
            })
        }),
{
    reveal_with_fuel(filter_verdict, 2);
    let tag = vstd::utf8::encode_utf8(f.tag);
    vstd::utf8::encode_utf8_first_scalar(f.tag);
    lemma_first_byte(f.tag);
    path::law_within(p, f.dir, f.dir);
    if path::same_path(p, f.dir) {
        assert(path::components(f.dir) =~= path::components(p).subrange(
            0,
            path::components(p).len() as int,
        ));
    }
}

/// Only a slash is encoded with the byte of a slash in front.
proof fn lemma_first_byte(s: Seq<char>)
    requires
        s.len() > 0,
        s[0] != '/',
    ensures
        vstd::utf8::encode_utf8(s).len() > 0,
        vstd::utf8::encode_utf8(s)[0] != 47,
{
    let b = vstd::utf8::encode_utf8(s);
    vstd::utf8::encode_utf8_valid_utf8(s);
    vstd::utf8::encode_utf8_decode_utf8(s);
    if b.len() > 0 && b[0] == 47 {
        vstd::utf8::encode_utf8_first_scalar(s);
        vstd::utf8::decode_utf8_first_scalar(b);
        lemma_slash_first(b);
    }
}

proof fn lemma_slash_first(b: Seq<u8>)
    requires
        b.len() > 0,
        b[0] == 47,
        vstd::utf8::valid_utf8(b),
    ensures
        vstd::utf8::decode_utf8(b)[0] == '/',
{
    let x: u8 = b[0];
    vstd::utf8::utf8_byte_ranges_bitwise(x);
    assert(vstd::utf8::codepoint_width_1(47u8) == 47u32) by (bit_vector);
}

/// Several tagged directories are asked in turn: one that a path lies outside of
/// does not count.
pub proof fn law_tagged_directories(p: Seq<u8>, f: Tagged, rest: Seq<Tagged>)
    ensures
        ({
            let here = filter_verdict(p, seq![f], 0);
            let all = filter_verdict(p, seq![f] + rest, 0);
            let others = filter_verdict(p, rest, 0);
            if here.0 || here.1 is Some {
                all == here
            } else {
                &&& all.0 == others.0
                &&& all.1 == (match others.1 {
                    Some(i) => Some(i + 1),
                    None => None,
                })
            }
        }),
{
    reveal_with_fuel(filter_verdict, 2);
    lemma_verdict_shift(p, f, rest, 0);
}

proof fn lemma_verdict_shift(p: Seq<u8>, f: Tagged, rest: Seq<Tagged>, i: int)
    requires
        0 <= i <= rest.len(),
    ensures
        ({
            let a = filter_verdict(p, seq![f] + rest, i + 1);
            let b = filter_verdict(p, rest, i);
            &&& a.0 == b.0
            &&& a.1 == (match b.1 {
                Some(k) => Some(k + 1),
                None => None,
            })
        }),
    decreases rest.len() - i,
{
    if i < rest.len() {
        assert((seq![f] + rest)[i + 1] == rest[i]);
        lemma_verdict_shift(p, f, rest, i + 1);
    }
}

/// The line that reports a tagged directory names it, with one slash at its end,
/// and the tag file, and says whether the directory or only what is in it is
/// left out.
pub proof fn law_tag_line(f: Tagged, mode: CacheExcludeMode)
    ensures
        ({
            let dir = bytes::text_of(f.dir);
            let whole = if dir.len() > 0 && dir.last() == '/' {
                dir
            } else {
                dir.push('/')
            };
            let start = "tar: "@ + whole + ": contains a cache directory tag "@ + f.tag + "; "@;
            &&& mode is All ==> tag_line(f, mode) == start + "directory not dumped"@
            &&& !(mode is All) ==> tag_line(f, mode) == start + "contents not dumped"@
        }),
{
    reveal_strlit("/");
    reveal_strlit("");
    let dir = bytes::text_of(f.dir);
    assert("tar: "@ + dir + "/"@ =~= "tar: "@ + dir.push('/'));
    assert("tar: "@ + dir + ""@ =~= "tar: "@ + dir);
}

/// The tag file of cache directories is looked for first, where there is one, and
/// then all the others in their order.
pub proof fn law_tags_sought(o: options::Settings)
    ensures
        o.cache_exclude is None ==> tags_sought(o) == o.tag_excludes,
        o.cache_exclude is Some ==> tags_sought(o)[0] == o.cache_exclude->0,
        o.cache_exclude is Some ==> tags_sought(o).skip(1) == o.tag_excludes,
{
    let front = match o.cache_exclude {
        Some(t) => seq![t],
        None => seq![],
    };
    assert(o.cache_exclude is None ==> front + o.tag_excludes =~= o.tag_excludes);
    assert(o.cache_exclude is Some ==> (front + o.tag_excludes).skip(1) =~= o.tag_excludes);
}

/// A tagged directory is reported once, however it is spelled; where several tag
/// files are in it, by the one at hand and for what the first of them leaves out.
pub proof fn law_reported_once(filters: Seq<Tagged>, i: int, reported: Seq<Seq<u8>>, k: int)
    requires
        0 <= i < filters.len(),
        0 <= k <= i,
        path::same_path(filters[k].dir, filters[i].dir),
        forall|j: int| 0 <= j < k ==> !path::same_path(#[trigger] filters[j].dir, filters[i].dir),
    ensures
        ({
            let (line, after) = tag_report(filters, i, reported);
            let new = forall|j: int|
                0 <= j < reported.len() ==> !path::same_path(
                    #[trigger] reported[j],
                    filters[i].dir,
                );
            &&& line is Some <==> new
            &&& line is Some ==> line == Some(tag_line(filters[i], filters[k].mode))
            &&& after == (if new {
                reported.push(filters[i].dir)
            } else {
                reported
            })
            &&& tag_report(filters, i, after).0 is None
        }),
{
    let (line, after) = tag_report(filters, i, reported);
    lemma_first_filter_is(filters[i].dir, filters, 0, k);
    if line is Some {
        assert(path::same_path(after[after.len() - 1], filters[i].dir));
        assert(already_reported(filters[i].dir, after));
    }
}

proof fn lemma_first_filter_is(dir: Seq<u8>, filters: Seq<Tagged>, i: int, k: int)
    requires
        0 <= i <= k < filters.len(),
        path::same_path(filters[k].dir, dir),
        forall|j: int| i <= j < k ==> !path::same_path(#[trigger] filters[j].dir, dir),
    ensures
        first_filter(dir, filters, i) == k,
    decreases k - i,
{
    if i < k {
        assert(!path::same_path(filters[i].dir, dir));
        lemma_first_filter_is(dir, filters, i + 1, k);
    }
}

} // verus!
