//! The members of an archive, and where they end.
//!
//! An archive is a sequence of blocks of 512 bytes. A member is a header block
//! and its contents, filled up with zeros to whole blocks. Behind the last
//! member stand blocks of zeros.

use crate::bytes;
use crate::bytes::utf8_text;
use crate::header;
use crate::number;
use crate::number::parse_unsigned;
use crate::text;
use crate::text::{to_chars, trim, trim_end_char, trim_start_char};
use vstd::prelude::*;
use vstd::slice::slice_subrange;
use vstd::utf8::{decode_utf8, valid_utf8};

verus! {

/// The size in the size field of a header, without the zero bytes and then
/// the white space around it; zero where it is no octal number.
pub open spec fn listed_size(field: Seq<u8>) -> int {
    if valid_utf8(field) {
        let s = text::trim_end_of(text::trim_start_of(decode_utf8(field), '\0'), '\0');
        match number::unsigned(text::trimmed(s), 8, u64::MAX as int) {
            Some(n) => n,
            None => 0,
        }
    } else {
        0
    }
}

/// A size filled up to whole blocks.
pub open spec fn whole_blocks(size: int) -> int {
    (size + 511) / 512 * 512
}

pub open spec fn all_zero(block: Seq<u8>) -> bool {
    forall|i: int| 0 <= i < block.len() ==> #[trigger] block[i] == 0
}

/// Where a search for the end of the members has got to: it is found, or the
/// block at a position has to be looked at.
#[derive(Debug, Clone, Copy, PartialEq, Eq, Structural)]
pub enum Scan {
    End(u64),
    ReadAt(u64),
}

/// How far it is from a header to the next: the header and the contents of the
/// member.
pub open spec fn member_length(block: Seq<u8>) -> int {
    512 + whole_blocks(listed_size(block.subrange(124, 136)))
}

/// A search at a position in an archive of a length.
pub open spec fn scan_at(pos: int, len: int) -> Scan {
    if pos + 512 > len {
        Scan::End(len as u64)
    } else {
        Scan::ReadAt(pos as u64)
    }
}

/// A search behind the block at a position.
pub open spec fn scan_past(pos: int, len: int, block: Seq<u8>) -> Scan {
    if all_zero(block) {
        Scan::End(pos as u64)
    } else {
        scan_at(pos + member_length(block), len)
    }
}

/// The end of the members of an archive, from the header at `pos` on: the
/// first block of zeros in the place of a header, or the end of the archive
/// where there is none.
pub open spec fn data_end(archive: Seq<u8>, pos: int) -> int
    decreases archive.len() - pos,
{
    let block = archive.subrange(pos, pos + 512);
    if pos < 0 || pos + 512 > archive.len() {
        archive.len() as int
    } else if all_zero(block) {
        pos
    } else if pos + member_length(block) > archive.len() {
        archive.len() as int
    } else {
        proof {
            lemma_listed_size(block.subrange(124, 136));
        }
        data_end(archive, pos + member_length(block))
    }
}

pub proof fn lemma_listed_size(field: Seq<u8>)
    ensures
        0 <= listed_size(field) <= u64::MAX,
{
    if valid_utf8(field) {
        let s = text::trim_end_of(text::trim_start_of(decode_utf8(field), '\0'), '\0');
        number::lemma_unsigned_range(text::trimmed(s), 8, u64::MAX as int);
    }
}

fn read_size(field: &[u8]) -> (r: u64)
    ensures
        r == listed_size(field@),
{
    match utf8_text(field) {
        Some(s) => {
            let chars = to_chars(s.as_str());
            let inner = trim_end_char(trim_start_char(&chars, '\0'), '\0');
            match parse_unsigned(trim(inner), 8, u64::MAX) {
                Some(n) => n,
                None => 0,
            }
        },
        None => 0,
    }
}

fn is_all_zero(block: &[u8]) -> (r: bool)
    ensures
        r == all_zero(block@),
{
    for i in 0..block.len()
        invariant
            forall|j: int| 0 <= j < i ==> #[trigger] block@[j] == 0,
    {
        if block[i] != 0 {
            assert(block@[i as int] != 0);
            return false;
        }
    }
    true
}

/// Goes on with the search at a position in an archive of a length.
pub fn scan_from(pos: u64, len: u64) -> (r: Scan)
    ensures
        r == scan_at(pos as int, len as int),
{
    if len < 512 || pos > len - 512 {
        Scan::End(len)
    } else {
        Scan::ReadAt(pos)
    }
}

/// Goes on with the search behind the block at a position.
pub fn scan_block(pos: u64, len: u64, block: &[u8]) -> (r: Scan)
    requires
        pos + 512 <= len,
        block@.len() == 512,
    ensures
        r == scan_past(pos as int, len as int, block@),
{
    if is_all_zero(block) {
        return Scan::End(pos);
    }
    let size: u64 = read_size(slice_subrange(block, 124, 136));
    let rest: u64 = len - pos - 512;
    if size > rest {
        return Scan::End(len);
    }
    let extra: u64 = if size % 512 > 0 {
        1
    } else {
        0
    };
    let body: u128 = (size as u128 / 512 + extra as u128) * 512;
    assert(body == whole_blocks(size as int));
    if body > rest as u128 {
        return Scan::End(len);
    }
    scan_from(pos + 512 + body as u64, len)
}

/// Finds where the members of an archive end: the position of the first of the
/// blocks of zeros behind them, or the length of the archive where there are
/// no such blocks.
pub fn find_archive_data_end(archive: &[u8]) -> (r: u64)
    ensures
        r == data_end(archive@, 0),
        r <= archive@.len(),
{
    let len: usize = archive.len();
    let mut pos: usize = 0;
    loop
        invariant
            len == archive@.len(),
            pos <= len,
            data_end(archive@, pos as int) == data_end(archive@, 0),
        decreases len - pos,
    {
        match scan_from(pos as u64, len as u64) {
            Scan::End(p) => {
                return p;
            },
            Scan::ReadAt(_) => {
                let block = slice_subrange(archive, pos, pos + 512);
                proof {
                    lemma_listed_size(block@.subrange(124, 136));
                    reveal_with_fuel(data_end, 2);
                }
                match scan_block(pos as u64, len as u64, block) {
                    Scan::End(p) => {
                        return p;
                    },
                    Scan::ReadAt(p) => {
                        pos = p as usize;
                    },
                }
            },
        }
    }
}

/// A search that looks at the blocks that it asks for gets, step by step, to
/// the end of the members.
pub proof fn law_scan_finds_end(archive: Seq<u8>, pos: int)
    requires
        0 <= pos,
        archive.len() <= u64::MAX,
        pos <= u64::MAX,
    ensures
        match scan_at(pos, archive.len() as int) {
            Scan::End(p) => p == data_end(archive, pos),
            Scan::ReadAt(p) => {
                &&& p == pos
                &&& match scan_past(pos, archive.len() as int, archive.subrange(pos, pos + 512)) {
                    Scan::End(q) => q == data_end(archive, pos),
                    Scan::ReadAt(q) => pos + 512 <= q && data_end(archive, q as int) == data_end(
                        archive,
                        pos,
                    ),
                }
            },
        },
{
    let block = archive.subrange(pos, pos + 512);
    lemma_listed_size(block.subrange(124, 136));
    reveal_with_fuel(data_end, 2);
}

/// A member in an archive: its header, its contents, and zeros up to a whole
/// block.
pub open spec fn member_bytes(block: Seq<u8>, data: Seq<u8>) -> Seq<u8> {
    block + data + bytes::zeros((whole_blocks(data.len() as int) - data.len()) as nat)
}

/// The members of an archive one after the other.
pub open spec fn members_bytes(members: Seq<(Seq<u8>, Seq<u8>)>) -> Seq<u8>
    decreases members.len(),
{
    if members.len() == 0 {
        seq![]
    } else {
        member_bytes(members[0].0, members[0].1) + members_bytes(members.drop_first())
    }
}

/// The members of an archive from the header at `pos` on, each as a header and
/// its contents, as a reader finds them: those whose header gives a size, in
/// octal or in binary, and whose contents are there, up to the first block of
/// zeros in the place of a header.
pub open spec fn members_read(archive: Seq<u8>, pos: int) -> Seq<(Seq<u8>, Seq<u8>)>
    decreases archive.len() - pos,
{
    let block = archive.subrange(pos, pos + 512);
    if pos < 0 || pos + 512 > archive.len() || all_zero(block) {
        seq![]
    } else {
        match header::number_value(block.subrange(124, 136)) {
            Some(size) => if pos + 512 + whole_blocks(size) > archive.len() {
                seq![]
            } else {
                proof {
                    header::lemma_number_value_range(block.subrange(124, 136));
                }
                seq![(block, archive.subrange(pos + 512, pos + 512 + size))] + members_read(
                    archive,
                    pos + 512 + whole_blocks(size),
                )
            },
            None => seq![],
        }
    }
}

/// An archive after members were appended to it: what stands before the end of
/// its members, the new ones, and two blocks of zeros.
pub open spec fn appended(archive: Seq<u8>, members: Seq<(Seq<u8>, Seq<u8>)>) -> Seq<u8> {
    archive.take(data_end(archive, 0)) + members_bytes(members) + bytes::zeros(1024)
}

/// Whether the search for the end of the members reads a length from a header,
/// which it does in octal digits.
pub open spec fn lists(block: Seq<u8>, len: int) -> bool {
    block.len() == 512 && !all_zero(block) && listed_size(block.subrange(124, 136)) == len
}

/// Whether a reader finds a length in a header, in octal digits or in binary.
pub open spec fn sizes(block: Seq<u8>, len: int) -> bool {
    &&& block.len() == 512
    &&& !all_zero(block)
    &&& header::number_value(block.subrange(124, 136)) == Some(len)
}

/// Whether the search for the end reads from every header of some members how
/// long the contents behind it are.
pub open spec fn all_listed(members: Seq<(Seq<u8>, Seq<u8>)>) -> bool {
    forall|i: int|
        0 <= i < members.len() ==> lists(#[trigger] members[i].0, members[i].1.len() as int)
}

/// Whether a reader finds in every header of some members how long the contents
/// behind it are.
pub open spec fn all_sized(members: Seq<(Seq<u8>, Seq<u8>)>) -> bool {
    forall|i: int|
        0 <= i < members.len() ==> sizes(#[trigger] members[i].0, members[i].1.len() as int)
}

/// A reader finds every length that was written to a header, and the search for
/// the end reads those below eight gigabytes.
pub proof fn lemma_written_size(block: Seq<u8>, len: int)
    requires
        block.len() == 512,
        0 <= len <= u64::MAX,
        block.subrange(124, 136) == header::number_field(len, 12),
    ensures
        sizes(block, len),
        len < 8589934592 ==> lists(block, len),
{
    let field = header::number_field(len, 12);
    assert(field[0] == block[124]);
    header::law_number_field_round_trip(len as u64, 12);
    if len < 8589934592 {
        header::lemma_octal_text(len);
        let d = field.map_values(|b: u8| b as char);
        let digits = field.take(11).map_values(|b: u8| b as char);
        assert(d =~= digits.push('\0'));
        header::lemma_ascii_bytes(field);
        assert(number::is_digit(digits[0], 8));
        assert(d[0] == digits[0]);
        assert(text::trim_start_of(d, '\0') == d);
        assert(d.drop_last() =~= digits);
        assert(number::is_digit(digits[10], 8));
        assert(text::trim_end_of(digits, '\0') == digits);
        assert(text::trim_end_of(d, '\0') == digits) by {
            reveal_with_fuel(text::trim_end_of, 2);
        }
        header::lemma_trimmed(digits);
    } else {
        assert(field[0] == 128);
    }
}

/// The end that is found of an archive is where its members end, so that what
/// is written from there on follows the members and overwrites the blocks of
/// zeros.
pub proof fn law_data_end(
    before: Seq<u8>,
    members: Seq<(Seq<u8>, Seq<u8>)>,
    rest: Seq<u8>,
)
    requires
        all_listed(members),
    ensures
        ({
            let all = before + members_bytes(members);
            &&& data_end(all + bytes::zeros(512) + rest, before.len() as int) == all.len()
            &&& data_end(all, before.len() as int) == all.len()
        }),
    decreases members.len(),
{
    let all = before + members_bytes(members);
    let archive = all + bytes::zeros(512) + rest;
    let pos = before.len() as int;
    if members.len() == 0 {
        assert(all =~= before);
        assert(archive.subrange(pos, pos + 512) =~= bytes::zeros(512));
    } else {
        let (block, data) = members[0];
        let here = member_bytes(block, data);
        let tail = members.drop_first();
        assert(lists(members[0].0, members[0].1.len() as int));
        lemma_parts(seq![members[0]], tail, members);
        law_data_end(before + here, tail, rest);
        assert(before + here + members_bytes(tail) =~= all);
        assert(archive.subrange(pos, pos + 512) =~= block);
        assert(all.subrange(pos, pos + 512) =~= block);
        assert(here.len() == member_length(block));
    }
}

/// The members that were written one after the other are read back, each with
/// its header and its contents.
pub proof fn law_members_read_back(
    before: Seq<u8>,
    members: Seq<(Seq<u8>, Seq<u8>)>,
    rest: Seq<u8>,
)
    requires
        all_sized(members),
    ensures
        members_read(
            before + members_bytes(members) + bytes::zeros(512) + rest,
            before.len() as int,
        ) == members,
    decreases members.len(),
{
    let all = before + members_bytes(members);
    let archive = all + bytes::zeros(512) + rest;
    let pos = before.len() as int;
    if members.len() == 0 {
        assert(all =~= before);
        assert(archive.subrange(pos, pos + 512) =~= bytes::zeros(512));
        assert(members =~= seq![]);
    } else {
        let (block, data) = members[0];
        let here = member_bytes(block, data);
        let tail = members.drop_first();
        assert(sizes(members[0].0, members[0].1.len() as int));
        lemma_parts(seq![members[0]], tail, members);
        law_members_read_back(before + here, tail, rest);
        assert(before + here + members_bytes(tail) =~= all);
        assert(archive.subrange(pos, pos + 512) =~= block);
        assert(archive.subrange(pos + 512, pos + 512 + data.len()) =~= data);
        assert(here.len() == 512 + whole_blocks(data.len() as int));
        assert(seq![members[0]] + tail =~= members);
    }
}

/// What holds of all members holds of those of two parts, and the other way
/// round.
pub proof fn lemma_parts(
    a: Seq<(Seq<u8>, Seq<u8>)>,
    b: Seq<(Seq<u8>, Seq<u8>)>,
    all: Seq<(Seq<u8>, Seq<u8>)>,
)
    requires
        all =~= a + b,
    ensures
        all_listed(all) <==> all_listed(a) && all_listed(b),
        all_sized(all) <==> all_sized(a) && all_sized(b),
{
    assert forall|i: int| 0 <= i < a.len() implies #[trigger] a[i] == all[i] by {}
    assert forall|i: int| 0 <= i < b.len() implies #[trigger] b[i] == all[a.len() + i] by {}
    if all_listed(all) {
        assert forall|i: int| 0 <= i < a.len() implies lists(
            #[trigger] a[i].0,
            a[i].1.len() as int,
        ) by {
            assert(lists(all[i].0, all[i].1.len() as int));
        }
        assert forall|i: int| 0 <= i < b.len() implies lists(
            #[trigger] b[i].0,
            b[i].1.len() as int,
        ) by {
            assert(lists(all[a.len() + i].0, all[a.len() + i].1.len() as int));
        }
    }
    if all_sized(all) {
        assert forall|i: int| 0 <= i < a.len() implies sizes(
            #[trigger] a[i].0,
            a[i].1.len() as int,
        ) by {
            assert(sizes(all[i].0, all[i].1.len() as int));
        }
        assert forall|i: int| 0 <= i < b.len() implies sizes(
            #[trigger] b[i].0,
            b[i].1.len() as int,
        ) by {
            assert(sizes(all[a.len() + i].0, all[a.len() + i].1.len() as int));
        }
    }
    assert forall|i: int| 0 <= i < all.len() implies #[trigger] all[i] == (if i < a.len() {
        a[i]
    } else {
        b[i - a.len()]
    }) by {}
}

proof fn lemma_members_bytes_concat(a: Seq<(Seq<u8>, Seq<u8>)>, b: Seq<(Seq<u8>, Seq<u8>)>)
    ensures
        members_bytes(a + b) == members_bytes(a) + members_bytes(b),
    decreases a.len(),
{
    if a.len() == 0 {
        assert(a + b =~= b);
        assert(members_bytes(a) + members_bytes(b) =~= members_bytes(b));
    } else {
        assert((a + b).drop_first() =~= a.drop_first() + b);
        lemma_members_bytes_concat(a.drop_first(), b);
        let here = member_bytes(a[0].0, a[0].1);
        assert(here + (members_bytes(a.drop_first()) + members_bytes(b)) =~= here + members_bytes(
            a.drop_first(),
        ) + members_bytes(b));
    }
}

/// An append keeps the members of an archive, byte for byte, puts the new ones
/// behind them in the place of the blocks of zeros, and ends in two such blocks.
/// A reader of the sizes finds the members of the one and then of the other, and
/// where the new sizes are in octal digits a further append begins behind them.
pub proof fn law_append(
    old: Seq<(Seq<u8>, Seq<u8>)>,
    new: Seq<(Seq<u8>, Seq<u8>)>,
    rest: Seq<u8>,
)
    requires
        all_listed(old),
    ensures
        ({
            let archive = members_bytes(old) + bytes::zeros(512) + rest;
            let result = appended(archive, new);
            &&& archive.take(data_end(archive, 0)) == members_bytes(old)
            &&& result == members_bytes(old + new) + bytes::zeros(1024)
            &&& all_sized(old) && all_sized(new) ==> members_read(result, 0) == old + new
            &&& all_listed(new) ==> data_end(result, 0) == members_bytes(old + new).len()
        }),
{
    let nothing = Seq::<u8>::empty();
    let archive = members_bytes(old) + bytes::zeros(512) + rest;
    let result = appended(archive, new);
    let end = members_bytes(old).len() as int;
    assert(nothing + members_bytes(old) =~= members_bytes(old));
    law_data_end(nothing, old, rest);
    assert(archive.take(end) =~= members_bytes(old));
    lemma_members_bytes_concat(old, new);
    lemma_parts(old, new, old + new);
    let all = members_bytes(old + new);
    assert(nothing + all =~= all);
    assert(bytes::zeros(1024) =~= bytes::zeros(512) + bytes::zeros(512));
    assert(result =~= all + bytes::zeros(512) + bytes::zeros(512));
    assert(result =~= all + bytes::zeros(1024));
    if all_listed(new) {
        law_data_end(nothing, old + new, bytes::zeros(512));
    }
    if all_sized(old) && all_sized(new) {
        law_members_read_back(nothing, old + new, bytes::zeros(512));
    }
}

/// Contents take up whole blocks, no more than are needed.
pub proof fn law_whole_blocks(size: int)
    requires
        size >= 0,
    ensures
        whole_blocks(size) % 512 == 0,
        size <= whole_blocks(size) < size + 512,
{
}

/// A member takes up a block for its header and the whole blocks of its contents:
/// the header, the contents, and zeros behind them.
pub proof fn law_member_bytes(block: Seq<u8>, data: Seq<u8>)
    requires
        block.len() == 512,
    ensures
        ({
            let b = member_bytes(block, data);
            &&& b.len() % 512 == 0
            &&& 512 + data.len() <= b.len() < 512 + data.len() + 512
            &&& b.take(512) == block
            &&& b.subrange(512, 512 + data.len() as int) == data
            &&& forall|i: int| 512 + data.len() <= i < b.len() ==> b[i] == 0
        }),
{
    let b = member_bytes(block, data);
    law_whole_blocks(data.len() as int);
    assert(b.take(512) =~= block);
    assert(b.subrange(512, 512 + data.len() as int) =~= data);
}

/// The size in a header is read from its octal digits, between spaces and before
/// zero bytes.
pub proof fn law_listed_size(digits: Seq<u8>, a: nat, b: nat, c: nat)
    requires
        digits.len() > 0,
        forall|i: int| 0 <= i < digits.len() ==> 48 <= #[trigger] digits[i] < 56,
        number::digits_value(digits.map_values(|d: u8| d as char), 8) <= u64::MAX,
    ensures
        listed_size(
            Seq::new(a, |i: int| 32u8) + digits + Seq::new(b, |i: int| 32u8) + bytes::zeros(c),
        ) == number::digits_value(digits.map_values(|d: u8| d as char), 8),
{
    let field = Seq::new(a, |i: int| 32u8) + digits + Seq::new(b, |i: int| 32u8) + bytes::zeros(c);
    let chars = field.map_values(|d: u8| d as char);
    let s = digits.map_values(|d: u8| d as char);
    let (front, back) = (Seq::new(a, |i: int| ' '), Seq::new(b, |i: int| ' '));
    let nuls = Seq::new(c, |i: int| '\0');
    header::lemma_ascii_bytes(field);
    assert(decode_utf8(field) == chars);
    assert(chars =~= front + s + back + nuls);
    assert forall|i: int| 0 <= i < s.len() implies number::is_digit(#[trigger] s[i], 8) by {
        assert(48 <= digits[i] < 56);
        assert(s[i] == digits[i] as char);
    }
    assert(number::is_digit(s[0], 8) && number::is_digit(s[s.len() - 1], 8));
    let inner = front + s + back;
    assert(inner.len() > 0 && inner[0] != '\0') by {
        if a == 0 {
            assert(inner[0] == s[0]);
        } else {
            assert(inner[0] == front[0]);
        }
    }
    assert(chars[0] == inner[0]);
    assert(text::trim_start_of(chars, '\0') == chars);
    assert(inner.last() != '\0') by {
        if b == 0 {
            assert(inner.last() == s[s.len() - 1]);
        } else {
            assert(inner.last() == back[b - 1]);
        }
    }
    lemma_nuls_trimmed(inner, c);
    assert(inner + nuls =~= chars);
    assert(text::all_white(front) && text::all_white(back));
    text::lemma_white_around(front, s, back);
}

proof fn lemma_nuls_trimmed(s: Seq<char>, c: nat)
    requires
        s.len() > 0,
        s.last() != '\0',
    ensures
        text::trim_end_of(s + Seq::new(c, |i: int| '\0'), '\0') == s,
    decreases c,
{
    let t = s + Seq::new(c, |i: int| '\0');
    if c == 0 {
        assert(t =~= s);
    } else {
        assert(t.drop_last() =~= s + Seq::new((c - 1) as nat, |i: int| '\0'));
        lemma_nuls_trimmed(s, (c - 1) as nat);
    }
}

/// The end of the members is at a block of zeros, or is that of the archive; a
/// member whose contents are not all there, and what is no whole block, belongs
/// to what is kept.
pub proof fn law_end_of_members(archive: Seq<u8>, pos: int)
    requires
        0 <= pos <= archive.len(),
    ensures
        pos <= data_end(archive, pos) <= archive.len(),
        data_end(archive, pos) < archive.len() ==> {
            &&& data_end(archive, pos) + 512 <= archive.len()
            &&& all_zero(
                archive.subrange(data_end(archive, pos), data_end(archive, pos) + 512),
            )
        },
        (data_end(archive, pos) - pos) % 512 == 0 || data_end(archive, pos) == archive.len(),
    decreases archive.len() - pos,
{
    let block = archive.subrange(pos, pos + 512);
    if pos + 512 <= archive.len() && !all_zero(block) && pos + member_length(block)
        <= archive.len() {
        lemma_listed_size(block.subrange(124, 136));
        law_whole_blocks(listed_size(block.subrange(124, 136)));
        law_end_of_members(archive, pos + member_length(block));
    }
}

/// A size that is not written in octal digits, as one in binary is not, counts as
/// none.
pub proof fn law_unlisted_size(field: Seq<u8>, c: char, s: Seq<char>, i: int)
    requires
        !valid_utf8(field) || {
            &&& decode_utf8(field) == s
            &&& 0 <= i < s.len()
            &&& s[i] == c
            &&& c != '\0' && c != '+' && !text::is_white(c) && !number::is_digit(c, 8)
        },
    ensures
        listed_size(field) == 0,
{
    if valid_utf8(field) {
        let a = text::trim_start_of(s, '\0');
        let b = text::trim_end_of(a, '\0');
        let t = text::trimmed(b);
        text::law_trim_start(s, '\0');
        text::law_trim_end(a, '\0');
        text::law_trimmed(b);
        let k = s.len() - a.len();
        assert(k <= i);
        assert(a[i - k] == c);
        assert(i - k < b.len()) by {
            if b.len() <= i - k {
                assert(a[i - k] == '\0');
            }
        }
        assert(b[i - k] == a.take(b.len() as int)[i - k]);
        let (x, y) = choose|x: Seq<char>, y: Seq<char>|
            #![trigger text::all_white(x), text::all_white(y)]
            text::all_white(x) && text::all_white(y) && b == x + t + y;
        let j = i - k - x.len();
        assert(0 <= j < t.len()) by {
            if j < 0 {
                assert(text::is_white(x[i - k]));
            } else if j >= t.len() {
                assert(text::is_white(y[j - t.len()]));
            }
        }
        assert(t[j] == c);
        if t[0] == '+' {
            assert(t.drop_first()[j - 1] == c);
            assert(!number::all_digits(t.drop_first(), 8)) by {
                if number::all_digits(t.drop_first(), 8) {
                    assert(number::is_digit(t.drop_first()[j - 1], 8));
                }
            }
        } else {
            assert(!number::all_digits(t, 8)) by {
                if number::all_digits(t, 8) {
                    assert(number::is_digit(t[j], 8));
                }
            }
        }
    }
}

} // verus!
