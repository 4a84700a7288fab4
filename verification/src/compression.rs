//! Which compression an archive uses.

use crate::text;
use crate::text::{ends_with, same, to_chars};
use vstd::prelude::*;

verus! {

#[derive(Debug, Clone, Copy, PartialEq, Eq, Structural)]
pub enum Compression {
    Plain,
    Gzip,
    Bzip2,
    Xz,
}

/// The compression that a file name announces by its ending.
pub open spec fn extension_compression(path: Seq<char>) -> Compression {
    if ".tar.gz"@.is_suffix_of(path) || ".tgz"@.is_suffix_of(path) {
        Compression::Gzip
    } else if ".tar.bz2"@.is_suffix_of(path) || ".tbz2"@.is_suffix_of(path)
        || ".tbz"@.is_suffix_of(path) {
        Compression::Bzip2
    } else if ".tar.xz"@.is_suffix_of(path) || ".txz"@.is_suffix_of(path) {
        Compression::Xz
    } else {
        Compression::Plain
    }
}

fn has_ending(path: &[char], ending: &str) -> (r: bool)
    ensures
        r == ending@.is_suffix_of(path@),
{
    let e = to_chars(ending);
    ends_with(path, &e)
}

pub fn detect_from_extension(path: &str) -> (r: Compression)
    ensures
        r == extension_compression(path@),
{
    let p = to_chars(path);
    if has_ending(&p, ".tar.gz") || has_ending(&p, ".tgz") {
        Compression::Gzip
    } else if has_ending(&p, ".tar.bz2") || has_ending(&p, ".tbz2") || has_ending(&p, ".tbz") {
        Compression::Bzip2
    } else if has_ending(&p, ".tar.xz") || has_ending(&p, ".txz") {
        Compression::Xz
    } else {
        Compression::Plain
    }
}

/// The compression that the first bytes of a stream announce: the gzip magic
/// number, `BZh`, or the xz magic number `FD 37 7A 58 5A 00`.
pub open spec fn magic_compression(buf: Seq<u8>) -> Compression {
    if seq![0x1fu8, 0x8bu8].is_prefix_of(buf) {
        Compression::Gzip
    } else if seq![0x42u8, 0x5au8, 0x68u8].is_prefix_of(buf) {
        Compression::Bzip2
    } else if seq![0xfdu8, 0x37u8, 0x7au8, 0x58u8, 0x5au8, 0x00u8].is_prefix_of(buf) {
        Compression::Xz
    } else {
        Compression::Plain
    }
}

pub fn detect_from_magic(buf: &[u8]) -> (r: Compression)
    ensures
        r == magic_compression(buf@),
{
    let ghost gz = seq![0x1fu8, 0x8bu8];
    let ghost bz = seq![0x42u8, 0x5au8, 0x68u8];
    let ghost xz = seq![0xfdu8, 0x37u8, 0x7au8, 0x58u8, 0x5au8, 0x00u8];
    if buf.len() >= 2 && buf[0] == 0x1f && buf[1] == 0x8b {
        assert(buf@.subrange(0, 2) =~= gz);
        return Compression::Gzip;
    }
    assert(!gz.is_prefix_of(buf@)) by {
        if gz.is_prefix_of(buf@) {
            assert(gz[0] == buf@[0] && gz[1] == buf@[1]);
        }
    }
    if buf.len() >= 3 && buf[0] == 0x42 && buf[1] == 0x5a && buf[2] == 0x68 {
        assert(buf@.subrange(0, 3) =~= bz);
        return Compression::Bzip2;
    }
    assert(!bz.is_prefix_of(buf@)) by {
        if bz.is_prefix_of(buf@) {
            assert(bz[0] == buf@[0] && bz[1] == buf@[1] && bz[2] == buf@[2]);
        }
    }
    if buf.len() >= 6 && buf[0] == 0xfd && buf[1] == 0x37 && buf[2] == 0x7a && buf[3] == 0x58
        && buf[4] == 0x5a && buf[5] == 0x00 {
        assert(buf@.subrange(0, 6) =~= xz);
        return Compression::Xz;
    }
    assert(!xz.is_prefix_of(buf@)) by {
        if xz.is_prefix_of(buf@) {
            assert(xz[0] == buf@[0] && xz[1] == buf@[1] && xz[2] == buf@[2]);
            assert(xz[3] == buf@[3] && xz[4] == buf@[4] && xz[5] == buf@[5]);
        }
    }
    Compression::Plain
}

/// Whether the archive is the standard stream: no name, or the name `-`.
pub open spec fn standard_stream(file: Option<Seq<char>>) -> bool {
    match file {
        Some(name) => name == "-"@,
        None => true,
    }
}

pub fn is_standard_stream(file: &Option<String>) -> (r: bool)
    ensures
        r == standard_stream(text::opt_view(*file)),
{
    match file {
        Some(name) => same(name.as_str(), "-"),
        None => true,
    }
}

/// The compression of an archive about to be written: the requested one, else
/// the one that the archive's name announces.
pub open spec fn written_compression(
    requested: Option<Compression>,
    file: Option<Seq<char>>,
) -> Compression {
    match (requested, file) {
        (Some(c), _) => c,
        (None, Some(name)) => extension_compression(name),
        (None, None) => Compression::Plain,
    }
}

pub fn compression_for_writing(requested: Option<Compression>, file: &Option<String>) -> (r:
    Compression)
    ensures
        r == written_compression(requested, text::opt_view(*file)),
{
    match requested {
        Some(c) => c,
        None => match file {
            Some(name) => detect_from_extension(name.as_str()),
            None => Compression::Plain,
        },
    }
}

/// The compression of an archive about to be read: the requested one, else
/// the one that its first bytes announce, else, for a named file, the one
/// that its name announces.
pub open spec fn read_compression(
    requested: Option<Compression>,
    file: Option<Seq<char>>,
    start: Seq<u8>,
) -> Compression {
    match requested {
        Some(c) => c,
        None => if standard_stream(file) || magic_compression(start) != Compression::Plain {
            magic_compression(start)
        } else {
            extension_compression(file->0)
        },
    }
}

pub fn compression_for_reading(
    requested: Option<Compression>,
    file: &Option<String>,
    start: &[u8],
) -> (r: Compression)
    ensures
        r == read_compression(requested, text::opt_view(*file), start@),
{
    match requested {
        Some(c) => c,
        None => {
            let magic = detect_from_magic(start);
            if magic != Compression::Plain || is_standard_stream(file) {
                return magic;
            }
            match file {
                Some(name) => detect_from_extension(name.as_str()),
                None => magic,
            }
        },
    }
}

/// A requested compression is used whatever the archive looks like.
pub proof fn law_requested_compression_wins(
    c: Compression,
    file: Option<Seq<char>>,
    start: Seq<u8>,
)
    ensures
        written_compression(Some(c), file) == c,
        read_compression(Some(c), file, start) == c,
{
}

/// The first bytes of an archive decide before its name does.
pub proof fn law_magic_before_extension(file: Option<Seq<char>>, start: Seq<u8>)
    ensures
        magic_compression(start) != Compression::Plain ==> read_compression(None, file, start)
            == magic_compression(start),
        magic_compression(start) == Compression::Plain && !standard_stream(file)
            ==> read_compression(None, file, start) == extension_compression(file->0),
{
}

/// An ending of a file name announces its compression, whatever stands before it,
/// and only these endings do.
pub proof fn law_endings(path: Seq<char>)
    ensures
        extension_compression(path + ".tar.gz"@) is Gzip,
        extension_compression(path + ".tgz"@) is Gzip,
        extension_compression(path + ".tar.bz2"@) is Bzip2,
        extension_compression(path + ".tbz2"@) is Bzip2,
        extension_compression(path + ".tbz"@) is Bzip2,
        extension_compression(path + ".tar.xz"@) is Xz,
        extension_compression(path + ".txz"@) is Xz,
        extension_compression(path) is Gzip ==> ".tar.gz"@.is_suffix_of(path)
            || ".tgz"@.is_suffix_of(path),
        extension_compression(path) is Bzip2 ==> ".tar.bz2"@.is_suffix_of(path)
            || ".tbz2"@.is_suffix_of(path) || ".tbz"@.is_suffix_of(path),
        extension_compression(path) is Xz ==> ".tar.xz"@.is_suffix_of(path)
            || ".txz"@.is_suffix_of(path),
{
    reveal_strlit(".tar.gz");
    reveal_strlit(".tgz");
    reveal_strlit(".tar.bz2");
    reveal_strlit(".tbz2");
    reveal_strlit(".tbz");
    reveal_strlit(".tar.xz");
    reveal_strlit(".txz");
    lemma_ending(path, ".tar.gz"@);
    lemma_ending(path, ".tgz"@);
    lemma_ending(path, ".tar.bz2"@);
    lemma_ending(path, ".tbz2"@);
    lemma_ending(path, ".tbz"@);
    lemma_ending(path, ".tar.xz"@);
    lemma_ending(path, ".txz"@);
    assert forall|e: Seq<char>, s: Seq<char>|
        e.len() > 0 && #[trigger] e.is_suffix_of(s) implies s.len() >= e.len() && s.last()
        == e.last() && (e.len() > 1 ==> s[s.len() - 2] == e[e.len() - 2]) by {
        let t = s.subrange(s.len() - e.len(), s.len() as int);
        assert(t == e);
        assert(t.last() == s.last());
        assert(e.len() > 1 ==> t[t.len() - 2] == s[s.len() - 2]);
    }
}

proof fn lemma_ending(path: Seq<char>, e: Seq<char>)
    ensures
        e.is_suffix_of(path + e),
        e.len() > 0 ==> (path + e).last() == e.last(),
        e.len() > 1 ==> (path + e)[(path + e).len() - 2] == e[e.len() - 2],
{
    let s = path + e;
    assert(e =~= s.subrange(s.len() - e.len(), s.len() as int));
}

/// The first bytes of a stream announce its compression, whatever follows them,
/// and only these bytes do.
pub proof fn law_magic_numbers(start: Seq<u8>)
    ensures
        magic_compression(start) is Gzip <==> start.len() >= 2 && start[0] == 0x1f && start[1]
            == 0x8b,
        magic_compression(start) is Bzip2 <==> start.len() >= 3 && start[0] == 66 && start[1] == 90
            && start[2] == 104,
        magic_compression(start) is Xz <==> start.len() >= 6 && start[0] == 0xfd && start[1] == 55
            && start[2] == 122 && start[3] == 88 && start[4] == 90 && start[5] == 0,
{
    let gz = seq![0x1fu8, 0x8bu8];
    let bz = seq![0x42u8, 0x5au8, 0x68u8];
    let xz = seq![0xfdu8, 0x37u8, 0x7au8, 0x58u8, 0x5au8, 0x00u8];
    if gz.is_prefix_of(start) {
        let h = start.subrange(0, 2);
        assert(h == gz);
        assert(h[0] == start[0] && h[1] == start[1]);
    }
    if bz.is_prefix_of(start) {
        let h = start.subrange(0, 3);
        assert(h == bz);
        assert(h[0] == start[0] && h[1] == start[1] && h[2] == start[2]);
    }
    if xz.is_prefix_of(start) {
        let h = start.subrange(0, 6);
        assert(h == xz);
        assert(h[0] == start[0] && h[1] == start[1] && h[2] == start[2]);
        assert(h[3] == start[3] && h[4] == start[4] && h[5] == start[5]);
    }
    if start.len() >= 2 && start[0] == 0x1f && start[1] == 0x8b {
        assert(gz =~= start.subrange(0, 2));
    }
    if start.len() >= 3 && start[0] == 66 && start[1] == 90 && start[2] == 104 {
        assert(bz =~= start.subrange(0, 3));
    }
    if start.len() >= 6 && start[0] == 0xfd && start[1] == 55 && start[2] == 122 && start[3] == 88
        && start[4] == 90 && start[5] == 0 {
        assert(xz =~= start.subrange(0, 6));
    }
}

/// What is not requested is taken from the name of an archive that is written;
/// of one that is read from its first bytes, and only where these say nothing
/// and it has a name of its own from that. A dash is no such name, and nothing
/// is compressed for want of a name.
pub proof fn law_compression_chosen(name: Seq<char>, start: Seq<u8>)
    ensures
        written_compression(None, Some(name)) == extension_compression(name),
        written_compression(None, None) is Plain,
        read_compression(None, None, start) == magic_compression(start),
        read_compression(None, Some(seq!['-']), start) == magic_compression(start),
        !(magic_compression(start) is Plain) ==> read_compression(None, Some(name), start)
            == magic_compression(start),
        magic_compression(start) is Plain && name != seq!['-'] ==> read_compression(
            None,
            Some(name),
            start,
        ) == extension_compression(name),
        standard_stream(None),
        standard_stream(Some(name)) <==> name == seq!['-'],
{
    reveal_strlit("-");
    assert("-"@ =~= seq!['-']);
}

} // verus!
