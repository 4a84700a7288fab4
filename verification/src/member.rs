//! The headers of new members, and the records that carry names too long for
//! a header.

use crate::archive;
use crate::bytes;
use crate::header;
use crate::header::EntryHeader;
use crate::mode;
use crate::mode::apply_mode_change;
use crate::number;
use crate::number::parse_u64;
use crate::options;
use crate::options::Args;
use crate::text;
use crate::text::{find_char, from_chars, to_chars};
use vstd::prelude::*;
use vstd::slice::{slice_subrange, slice_to_vec};
use vstd::utf8::encode_utf8;

verus! {

/// What the file system knows of a file.
#[derive(Debug)]
pub struct FileMeta {
    pub mode: u32,
    pub mtime: i64,
    pub uid: u32,
    pub gid: u32,
    pub size: u64,
    pub user: Option<String>,
    pub group: Option<String>,
}

/// [`FileMeta`] as mathematical values.
pub struct Meta {
    pub mode: u32,
    pub mtime: int,
    pub uid: int,
    pub gid: int,
    pub size: int,
    pub user: Option<Seq<char>>,
    pub group: Option<Seq<char>>,
}

impl View for FileMeta {
    type V = Meta;

    open spec fn view(&self) -> Meta {
        Meta {
            mode: self.mode,
            mtime: self.mtime as int,
            uid: self.uid as int,
            gid: self.gid as int,
            size: self.size as int,
            user: text::opt_view(self.user),
            group: text::opt_view(self.group),
        }
    }
}

/// A signed number of 64 bits read as an unsigned one.
pub open spec fn as_unsigned(n: int) -> int {
    if n >= 0 {
        n
    } else {
        n + 0x1_0000_0000_0000_0000
    }
}

pub(crate) fn to_unsigned(n: i64) -> (r: u64)
    ensures
        r == as_unsigned(n as int),
{
    if n >= 0 {
        n as u64
    } else {
        0xffff_ffff_ffff_ffff - (-(n + 1)) as u64
    }
}

/// The name and the number in an owner given as `NAME`, `NAME:ID` or `ID`.
pub open spec fn owner_parts(s: Seq<char>) -> (Seq<char>, Option<int>) {
    let i = text::first_index(s, ':');
    if i < s.len() {
        (s.take(i), number::unsigned(s.skip(i + 1), 10, u64::MAX as int))
    } else {
        (s, number::unsigned(s, 10, u64::MAX as int))
    }
}

/// A header with an owner or group: its number, where there is one, in the
/// field at `id_at`, and its name, where it is not empty, in that at `name_at`.
pub open spec fn with_owner(block: Seq<u8>, id_at: int, name_at: int, s: Seq<char>) -> Seq<u8> {
    let (name, id) = owner_parts(s);
    let b = match id {
        Some(n) => bytes::put(block, id_at, header::number_field(n, 8)),
        None => block,
    };
    if name.len() > 0 {
        header::with_name(b, name_at, encode_utf8(name))
    } else {
        b
    }
}

/// A header with the owner and the group that the settings give.
pub open spec fn with_owners(block: Seq<u8>, o: options::Settings) -> Seq<u8> {
    let b = match o.owner {
        Some(s) => with_owner(block, 108, 265, s),
        None => block,
    };
    match o.group {
        Some(s) => with_owner(b, 116, 297, s),
        None => b,
    }
}

fn split_owner(s: &str) -> (r: (String, Option<u64>))
    ensures
        r.0@ == owner_parts(s@).0,
        r.1 is Some <==> owner_parts(s@).1 is Some,
        r.1 matches Some(n) ==> owner_parts(s@).1 == Some(n as int),
{
    let chars = to_chars(s);
    let i = find_char(&chars, 0, ':');
    assert(chars@.skip(0) =~= chars@);
    proof {
        text::lemma_first_index(chars@, ':');
    }
    let name = from_chars(slice_subrange(chars.as_slice(), 0, i));
    if i < chars.len() {
        assert(chars@.subrange(i + 1, chars@.len() as int) =~= s@.skip(i + 1));
        let id = from_chars(slice_subrange(chars.as_slice(), i + 1, chars.len()));
        (name, parse_u64(id.as_str()))
    } else {
        assert(name@ =~= s@);
        (name, parse_u64(s))
    }
}

/// Sets the owner and the group that the settings give: `NAME`, `NAME:ID` or a
/// plain number.
pub fn set_owner_group(h: &mut EntryHeader, args: &Args)
    ensures
        final(h)@ == with_owners(old(h)@, args@),
{
    if let Some(owner) = &args.owner {
        let (name, id) = split_owner(owner.as_str());
        if let Some(uid) = id {
            h.set_uid(uid);
        }
        if !name.as_str().is_empty() {
            h.set_username(name.as_str());
        }
    }
    if let Some(group) = &args.group {
        let (name, id) = split_owner(group.as_str());
        if let Some(gid) = id {
            h.set_gid(gid);
        }
        if !name.as_str().is_empty() {
            h.set_groupname(name.as_str());
        }
    }
}

/// The mode of a new member: that of the file, changed as the settings ask.
pub open spec fn member_mode(m: Meta, o: options::Settings) -> u32 {
    match o.mode_override {
        Some(changes) => mode::changed_mode(m.mode, changes),
        None => m.mode,
    }
}

/// The modification time of a new member: that of the settings, else that of
/// the file.
pub open spec fn member_mtime(m: Meta, o: options::Settings) -> int {
    match o.switches.mtime_override {
        Some(t) => as_unsigned(t as int),
        None => as_unsigned(m.mtime),
    }
}

/// A header with mode, modification time, ids and names.
pub open spec fn with_meta(block: Seq<u8>, m: Meta, mode: u32, mtime: int) -> Seq<u8> {
    let b = bytes::put(block, 100, header::octal_field(mode as int, 8));
    let b = bytes::put(b, 136, header::number_field(mtime, 12));
    let b = bytes::put(b, 108, header::number_field(m.uid, 8));
    let b = bytes::put(b, 116, header::number_field(m.gid, 8));
    let b = match m.user {
        Some(u) => header::with_name(b, 265, encode_utf8(u)),
        None => b,
    };
    match m.group {
        Some(g) => header::with_name(b, 297, encode_utf8(g)),
        None => b,
    }
}

fn set_meta(h: &mut EntryHeader, m: &FileMeta, mode: u32, mtime: u64)
    ensures
        final(h)@ == with_meta(old(h)@, m@, mode, mtime as int),
{
    h.set_mode(mode);
    h.set_mtime(mtime);
    h.set_uid(m.uid as u64);
    h.set_gid(m.gid as u64);
    if let Some(u) = &m.user {
        h.set_username(u.as_str());
    }
    if let Some(g) = &m.group {
        h.set_groupname(g.as_str());
    }
}

fn mode_for(m: &FileMeta, args: &Args) -> (r: u32)
    ensures
        r == member_mode(m@, args@),
{
    match &args.mode_override {
        Some(changes) => apply_mode_change(m.mode, changes.as_str()),
        None => m.mode,
    }
}

fn mtime_for(m: &FileMeta, args: &Args) -> (r: u64)
    ensures
        r == member_mtime(m@, args@),
{
    match args.switches.mtime_override {
        Some(t) => to_unsigned(t),
        None => to_unsigned(m.mtime),
    }
}

/// A blank header of a type, with a size.
pub open spec fn typed(flag: u8, size: int) -> Seq<u8> {
    bytes::put(header::blank().update(156, flag), 124, header::number_field(size, 12))
}

/// The header of a directory.
pub open spec fn directory_block(m: Meta, o: options::Settings) -> Seq<u8> {
    with_owners(with_meta(typed(53, 0), m, member_mode(m, o), member_mtime(m, o)), o)
}

pub fn directory_header(m: &FileMeta, args: &Args) -> (r: EntryHeader)
    ensures
        r@ == directory_block(m@, args@),
{
    let mut h = EntryHeader::new_gnu();
    h.set_entry_type(53);
    h.set_size(0);
    set_meta(&mut h, m, mode_for(m, args), mtime_for(m, args));
    set_owner_group(&mut h, args);
    h
}

/// The header of a symbolic link.
pub open spec fn symlink_block(o: options::Settings) -> Seq<u8> {
    with_owners(typed(50, 0), o)
}

pub fn symlink_header(args: &Args) -> (r: EntryHeader)
    ensures
        r@ == symlink_block(args@),
{
    let mut h = EntryHeader::new_gnu();
    h.set_entry_type(50);
    h.set_size(0);
    set_owner_group(&mut h, args);
    h
}

/// The header of a hard link.
pub open spec fn link_block(m: Meta, o: options::Settings) -> Seq<u8> {
    with_owners(with_meta(typed(49, 0), m, member_mode(m, o), member_mtime(m, o)), o)
}

pub fn link_header(m: &FileMeta, args: &Args) -> (r: EntryHeader)
    ensures
        r@ == link_block(m@, args@),
{
    let mut h = EntryHeader::new_gnu();
    h.set_entry_type(49);
    h.set_size(0);
    set_meta(&mut h, m, mode_for(m, args), mtime_for(m, args));
    set_owner_group(&mut h, args);
    h
}

/// The header of a regular file.
pub open spec fn file_block(m: Meta, o: options::Settings) -> Seq<u8> {
    with_owners(
        with_meta(
            bytes::put(header::blank(), 124, header::number_field(m.size, 12)),
            m,
            member_mode(m, o),
            member_mtime(m, o),
        ),
        o,
    )
}

pub fn file_header(m: &FileMeta, args: &Args) -> (r: EntryHeader)
    ensures
        r@ == file_block(m@, args@),
{
    let mut h = EntryHeader::new_gnu();
    h.set_size(m.size);
    set_meta(&mut h, m, mode_for(m, args), mtime_for(m, args));
    set_owner_group(&mut h, args);
    h
}

/// The header of a volume label.
pub open spec fn label_block() -> Seq<u8> {
    let b = bytes::put(typed(86, 0), 100, header::octal_field(0, 8));
    let b = bytes::put(b, 136, header::number_field(0, 12));
    let b = bytes::put(b, 108, header::number_field(0, 8));
    bytes::put(b, 116, header::number_field(0, 8))
}

pub fn label_header() -> (r: EntryHeader)
    ensures
        r@ == label_block(),
{
    let mut h = EntryHeader::new_gnu();
    h.set_entry_type(86);
    h.set_size(0);
    h.set_mode(0);
    h.set_mtime(0);
    h.set_uid(0);
    h.set_gid(0);
    h
}

/// What a path is on disk.
#[derive(Debug, Clone, Copy, PartialEq, Eq, Structural)]
pub enum FileType {
    Directory,
    Symlink,
    Other,
}

/// The header that a verbose report shows of a file about to be added: its
/// mode as it is on disk, and the size only of what has contents.
pub open spec fn shown_block(m: Option<Meta>, kind: FileType, o: options::Settings) -> Seq<u8> {
    let b = match m {
        Some(m) => {
            let b = with_meta(header::blank(), m, m.mode, member_mtime(m, o));
            match kind {
                FileType::Directory => bytes::put(
                    b.update(156, 53),
                    124,
                    header::number_field(0, 12),
                ),
                FileType::Symlink => bytes::put(
                    b.update(156, 50),
                    124,
                    header::number_field(0, 12),
                ),
                FileType::Other => bytes::put(
                    b.update(156, 48),
                    124,
                    header::number_field(m.size, 12),
                ),
            }
        },
        None => header::blank(),
    };
    with_owners(b, o)
}

pub fn shown_header(m: &Option<FileMeta>, kind: FileType, args: &Args) -> (r: EntryHeader)
    ensures
        r@ == shown_block(
            match *m {
                Some(m) => Some(m@),
                None => None,
            },
            kind,
            args@,
        ),
{
    let mut h = EntryHeader::new_gnu();
    if let Some(m) = m {
        set_meta(&mut h, m, m.mode, mtime_for(m, args));
        match kind {
            FileType::Directory => {
                h.set_entry_type(53);
                h.set_size(0);
            },
            FileType::Symlink => {
                h.set_entry_type(50);
                h.set_size(0);
            },
            FileType::Other => {
                h.set_entry_type(48);
                h.set_size(m.size);
            },
        }
    }
    set_owner_group(&mut h, args);
    h
}

/// The modification time that a header gives, or zero.
pub fn member_time(h: &EntryHeader) -> (r: u64)
    ensures
        r == (match header::number_value(h@.subrange(136, 148)) {
            Some(t) => t,
            None => 0,
        }),
{
    match h.mtime() {
        Some(t) => t,
        None => 0,
    }
}

/// A record that goes before a member: a header and what it announces.
pub struct LongRecord {
    pub header: EntryHeader,
    pub payload: Vec<u8>,
}

/// The name in the header of a record that carries a long name:
/// `././@LongLink`.
pub open spec fn long_link_name() -> Seq<u8> {
    seq![46u8, 47, 46, 47, 64, 76, 111, 110, 103, 76, 105, 110, 107]
}

/// The header of a record that carries a long name of `len` bytes.
pub open spec fn long_block(flag: u8, len: int) -> Seq<u8> {
    let b = bytes::put(header::blank(), 124, header::number_field(len + 1, 12));
    let b = header::with_field(b.update(156, flag), 0, long_link_name());
    let b = bytes::put(b, 100, header::octal_field(0, 8));
    let b = bytes::put(b, 108, header::number_field(0, 8));
    let b = bytes::put(b, 116, header::number_field(0, 8));
    let b = bytes::put(b, 136, header::number_field(0, 12));
    sealed(b)
}

/// A header with its checksum.
pub open spec fn sealed(block: Seq<u8>) -> Seq<u8> {
    bytes::put(block, 148, header::octal_field(header::checksum(block), 8))
}

/// The record that carries a long name, closed by a zero byte.
pub open spec fn is_long_record(r: LongRecord, flag: u8, name: Seq<u8>) -> bool {
    r.header@ == long_block(flag, name.len() as int) && r.payload@ == name.push(0)
}

fn long_record(flag: u8, name: &[u8]) -> (r: LongRecord)
    requires
        flag != 0,
    ensures
        is_long_record(r, flag, name@),
{
    let mut payload = slice_to_vec(name);
    payload.push(0);
    let mut h = EntryHeader::new_gnu();
    h.set_size(payload.len() as u64);
    h.set_entry_type(flag);
    let long_link: [u8; 13] = [46, 47, 46, 47, 64, 76, 111, 110, 103, 76, 105, 110, 107];
    assert(long_link@ =~= long_link_name());
    h.set_name_field(0, long_link.as_slice());
    h.set_mode(0);
    h.set_uid(0);
    h.set_gid(0);
    h.set_mtime(0);
    h.set_cksum();
    LongRecord { header: h, payload }
}

/// The header of a member with its name, and its link target, in fields of a
/// hundred bytes, and its checksum.
pub open spec fn named_block(block: Seq<u8>, name: Seq<u8>, link: Option<Seq<u8>>) -> Seq<u8> {
    let b = header::with_field(block, 0, name);
    sealed(
        match link {
            Some(l) => header::with_field(b, 157, l),
            None => b,
        },
    )
}

/// The records before a member whose name or link target is longer than a
/// hundred bytes: that of the name first.
pub open spec fn are_long_records(
    r: Seq<LongRecord>,
    name: Seq<u8>,
    link: Option<Seq<u8>>,
) -> bool {
    let long_name = name.len() > 100;
    let long_link = link matches Some(l) && l.len() > 100;
    &&& r.len() == (if long_name {
        1int
    } else {
        0
    }) + (if long_link {
        1int
    } else {
        0
    })
    &&& long_name ==> is_long_record(r[0], 76, name)
    &&& long_link ==> is_long_record(r.last(), 75, link->0)
}

pub open spec fn opt_bytes(b: Option<&[u8]>) -> Option<Seq<u8>> {
    match b {
        Some(b) => Some(b@),
        None => None,
    }
}

/// Puts the name of a member, whatever it is, and its link target into its
/// header, as far as they fit, and gives the records that have to go before it
/// for what does not.
pub fn append_entry_raw(h: &mut EntryHeader, path: &str, linkname: Option<&[u8]>) -> (r: Vec<
    LongRecord,
>)
    ensures
        final(h)@ == named_block(old(h)@, encode_utf8(path@), opt_bytes(linkname)),
        are_long_records(r@, encode_utf8(path@), opt_bytes(linkname)),
{
    let mut records: Vec<LongRecord> = Vec::new();
    let name = path.as_bytes();
    if name.len() > 100 {
        records.push(long_record(76, name));
    }
    h.set_name_field(0, name);
    if let Some(link) = linkname {
        h.set_name_field(157, link);
        if link.len() > 100 {
            records.push(long_record(75, link));
        }
    }
    h.set_cksum();
    records
}

/// The name of a member as a reader finds it: in the record of a long name,
/// else in the header.
pub open spec fn name_read(r: Seq<LongRecord>, block: Seq<u8>) -> Seq<u8> {
    if r.len() > 0 && r[0].header@[156] == 76 {
        r[0].payload@.drop_last()
    } else {
        bytes::until_nul(block.subrange(0, 100))
    }
}

/// The link target of a member as a reader finds it: in the record of a long
/// target, else in the header.
pub open spec fn link_read(r: Seq<LongRecord>, block: Seq<u8>) -> Option<Seq<u8>> {
    if r.len() > 0 && r.last().header@[156] == 75 {
        Some(r.last().payload@.drop_last())
    } else {
        header::header_link(block)
    }
}

proof fn lemma_long_flag(flag: u8, len: int)
    ensures
        long_block(flag, len)[156] == flag,
{
    header::lemma_field_lengths(len + 1);
    header::lemma_field_lengths(0);
    let b = bytes::put(header::blank(), 124, header::number_field(len + 1, 12));
    let b = header::with_field(b.update(156, flag), 0, long_link_name());
    let b = bytes::put(b, 100, header::octal_field(0, 8));
    let b = bytes::put(b, 108, header::number_field(0, 8));
    let b = bytes::put(b, 116, header::number_field(0, 8));
    let b = bytes::put(b, 136, header::number_field(0, 12));
    header::lemma_field_lengths(header::checksum(b));
    assert(b[156] == flag);
}

proof fn lemma_field_read(block: Seq<u8>, at: int, name: Seq<u8>)
    requires
        0 <= at,
        at + 100 <= block.len(),
        name.len() <= 100,
        !name.contains(0),
    ensures
        bytes::until_nul(header::with_field(block, at, name).subrange(at, at + 100)) == name,
{
    let field = header::with_field(block, at, name).subrange(at, at + 100);
    assert forall|i: int| 0 <= i < name.len() implies field[i] != 0 by {
        assert(field[i] == name[i]);
        assert(name.contains(name[i]));
    }
    bytes::lemma_until_nul(field, name.len() as int);
    assert(field.take(name.len() as int) =~= name);
}

/// What is written of a member is read back: its whole name, and the whole
/// target of a link, however long they are.
pub proof fn law_names_read_back(
    block: Seq<u8>,
    name: Seq<u8>,
    link: Option<Seq<u8>>,
    r: Seq<LongRecord>,
)
    requires
        block.len() == 512,
        are_long_records(r, name, link),
        name.len() <= 100 ==> !name.contains(0),
        link matches Some(l) ==> l.len() > 0 && (l.len() <= 100 ==> !l.contains(0)),
    ensures
        name_read(r, named_block(block, name, link)) == name,
        link matches Some(l) ==> link_read(r, named_block(block, name, link)) == Some(l),
{
    lemma_long_flag(76, name.len() as int);
    let b = header::with_field(block, 0, name);
    let c = match link {
        Some(l) => header::with_field(b, 157, l),
        None => b,
    };
    header::lemma_field_lengths(header::checksum(c));
    let sealed_block = named_block(block, name, link);
    match link {
        Some(l) => {
            lemma_long_flag(75, l.len() as int);
            if l.len() > 100 {
                assert(l.push(0).drop_last() =~= l);
            } else {
                lemma_field_read(b, 157, l);
                assert(sealed_block.subrange(157, 257) =~= c.subrange(157, 257));
                assert(sealed_block[157] == l[0]);
                assert(l.contains(l[0]));
            }
        },
        None => {},
    }
    if name.len() > 100 {
        assert(name.push(0).drop_last() =~= name);
    } else {
        lemma_field_read(block, 0, name);
        assert(sealed_block.subrange(0, 100) =~= b.subrange(0, 100));
    }
}

/// The header of a record with a long name announces the name and the zero
/// byte behind it, and bears its checksum.
pub proof fn law_long_record(r: LongRecord, flag: u8, name: Seq<u8>)
    requires
        is_long_record(r, flag, name),
        name.len() < u64::MAX,
    ensures
        r.header@[156] == flag,
        archive::sizes(r.header@, r.payload@.len() as int),
        name.len() < 8589934591 ==> archive::lists(r.header@, r.payload@.len() as int),
        header::octal_value(r.header@.subrange(148, 156)) == Some(header::checksum(r.header@)),
{
    lemma_long_sizes(flag, name);
}

proof fn lemma_long_sizes(flag: u8, name: Seq<u8>)
    requires
        name.len() < u64::MAX,
    ensures
        ({
            let b = long_block(flag, name.len() as int);
            &&& b[156] == flag
            &&& archive::sizes(b, name.push(0).len() as int)
            &&& name.len() < 8589934591 ==> archive::lists(b, name.push(0).len() as int)
            &&& header::octal_value(b.subrange(148, 156)) == Some(header::checksum(b))
        }),
{
    let len = name.len() as int;
    lemma_long_flag(flag, len);
    header::lemma_field_lengths(len + 1);
    header::lemma_field_lengths(0);
    let b = bytes::put(header::blank(), 124, header::number_field(len + 1, 12));
    let b = header::with_field(b.update(156, flag), 0, long_link_name());
    let b = bytes::put(b, 100, header::octal_field(0, 8));
    let b = bytes::put(b, 108, header::number_field(0, 8));
    let b = bytes::put(b, 116, header::number_field(0, 8));
    let b = bytes::put(b, 136, header::number_field(0, 12));
    header::lemma_field_lengths(header::checksum(b));
    header::law_checksum(b);
    assert(sealed(b).subrange(124, 136) =~= header::number_field(len + 1, 12));
    archive::lemma_written_size(sealed(b), len + 1);
}

/// Every header that is written bears its checksum.
pub proof fn law_headers_sealed(block: Seq<u8>, name: Seq<u8>, link: Option<Seq<u8>>)
    requires
        block.len() == 512,
    ensures
        ({
            let b = named_block(block, name, link);
            header::octal_value(b.subrange(148, 156)) == Some(header::checksum(b))
        }),
{
    let b = header::with_field(block, 0, name);
    match link {
        Some(l) => header::law_checksum(header::with_field(b, 157, l)),
        None => header::law_checksum(b),
    }
}

proof fn lemma_with_owners(block: Seq<u8>, o: options::Settings, i: int)
    requires
        block.len() == 512,
        0 <= i < 512,
        i < 108 || 124 <= i < 265 || 329 <= i,
    ensures
        with_owners(block, o).len() == 512,
        with_owners(block, o)[i] == block[i],
{
    let b = match o.owner {
        Some(s) => {
            let (name, id) = owner_parts(s);
            match id {
                Some(n) => {
                    header::lemma_field_lengths(n);
                },
                None => {},
            }
            with_owner(block, 108, 265, s)
        },
        None => block,
    };
    match o.group {
        Some(s) => {
            let (name, id) = owner_parts(s);
            match id {
                Some(n) => {
                    header::lemma_field_lengths(n);
                },
                None => {},
            }
        },
        None => {},
    }
}

proof fn lemma_with_meta(block: Seq<u8>, m: Meta, mode: u32, mtime: int, i: int)
    requires
        block.len() == 512,
        0 <= i < 512,
        i < 100 || 124 <= i < 136 || 148 <= i < 265 || 329 <= i,
    ensures
        with_meta(block, m, mode, mtime).len() == 512,
        with_meta(block, m, mode, mtime)[i] == block[i],
{
    header::lemma_field_lengths(mode as int);
    header::lemma_field_lengths(mtime);
    header::lemma_field_lengths(m.uid);
    header::lemma_field_lengths(m.gid);
}

/// The owner that was given is read back from the header: its number, below two
/// to the 63rd, and its name, as far as it fits.
pub proof fn law_owner_read_back(block: Seq<u8>, group: bool, s: Seq<char>)
    requires
        block.len() == 512,
        header::is_gnu(block),
    ensures
        ({
            let id_at = if group {
                116int
            } else {
                108
            };
            let name_at = if group {
                297int
            } else {
                265
            };
            let (name, id) = owner_parts(s);
            let b = with_owner(block, id_at, name_at, s);
            &&& id is Some && id->0 < 0x8000_0000_0000_0000 ==> header::number_value(
                b.subrange(id_at, id_at + 8),
            ) == id
            &&& 0 < name.len() && encode_utf8(name).len() <= 32 && !encode_utf8(name).contains(0)
                ==> header::name_at(b, name_at) == Some(name)
        }),
{
    let id_at = if group {
        116int
    } else {
        108
    };
    let name_at = if group {
        297int
    } else {
        265
    };
    let (name, id) = owner_parts(s);
    let bytes_of = encode_utf8(name);
    let b = match id {
        Some(n) => {
            header::lemma_field_lengths(n);
            bytes::put(block, id_at, header::number_field(n, 8))
        },
        None => block,
    };
    let r = with_owner(block, id_at, name_at, s);
    assert(b.subrange(257, 265) =~= block.subrange(257, 265));
    assert(r.subrange(id_at, id_at + 8) =~= b.subrange(id_at, id_at + 8));
    match id {
        Some(n) => {
            assert(b.subrange(id_at, id_at + 8) =~= header::number_field(n, 8));
            if n < 0x8000_0000_0000_0000 {
                number::lemma_unsigned_range(s, 10, u64::MAX as int);
                let i = text::first_index(s, ':');
                number::lemma_unsigned_range(s.skip(i + 1), 10, u64::MAX as int);
                header::law_number_field_round_trip(n as u64, 8);
            }
        },
        None => {},
    }
    if 0 < name.len() && bytes_of.len() <= 32 && !bytes_of.contains(0) {
        let field = r.subrange(name_at, name_at + 32);
        assert(r.subrange(257, 265) =~= block.subrange(257, 265));
        assert forall|i: int| 0 <= i < bytes_of.len() implies field[i] != 0 by {
            assert(field[i] == bytes_of[i]);
            assert(bytes_of.contains(bytes_of[i]));
        }
        bytes::lemma_until_nul(field, bytes_of.len() as int);
        assert(field.take(bytes_of.len() as int) =~= bytes_of);
        vstd::utf8::encode_utf8_valid_utf8(name);
        vstd::utf8::encode_utf8_decode_utf8(name);
    }
}

/// The header that is written of a regular file says that it is one, and how
/// long its contents are, so that the search for the end reads it where octal
/// digits are enough.
pub proof fn law_file_header(m: FileMeta, o: options::Settings, name: Seq<u8>)
    ensures
        ({
            let b = named_block(file_block(m@, o), name, None);
            &&& b.len() == 512
            &&& header::type_flag(b[156]) == 48
            &&& header::header_size(b) == Some(m.size as int)
            &&& archive::sizes(b, m.size as int)
            &&& m.size < 8589934592 ==> archive::lists(b, m.size as int)
        }),
{
    let size = header::number_field(m.size as int, 12);
    header::lemma_field_lengths(m.size as int);
    header::lemma_field_lengths(0);
    header::law_number_field_round_trip(m.size, 12);
    let start = bytes::put(header::blank(), 124, size);
    let mode = member_mode(m@, o);
    let time = member_mtime(m@, o);
    let filled = with_meta(start, m@, mode, time);
    let block = file_block(m@, o);
    assert forall|i: int| 124 <= i < 136 || i == 156 implies #[trigger] block[i] == start[i]
        && block.len() == 512 by {
        lemma_with_meta(start, m@, mode, time, i);
        lemma_with_owners(filled, o, i);
    }
    assert(block[156] == start[156]);
    assert(start[156] == 0);
    let named = header::with_field(block, 0, name);
    header::lemma_field_lengths(header::checksum(named));
    let b = named_block(block, name, None);
    assert(b.subrange(124, 136) =~= size) by {
        assert forall|i: int| 124 <= i < 136 implies b[i] == size[i - 124] by {
            assert(block[i] == start[i]);
        }
    }
    archive::lemma_written_size(b, m.size as int);
}

/// The mode and the modification time of a regular file are read back from the
/// header that is written of it, the mode as far as seven octal digits hold it.
pub proof fn law_file_times(m: FileMeta, o: options::Settings, name: Seq<u8>)
    ensures
        ({
            let b = named_block(file_block(m@, o), name, None);
            let mode = member_mode(m@, o);
            &&& mode < 0o10000000 ==> header::octal_value(b.subrange(100, 108)) == Some(mode as int)
            &&& header::number_value(b.subrange(136, 148)) == Some(member_mtime(m@, o))
        }),
{
    let start = bytes::put(header::blank(), 124, header::number_field(m.size as int, 12));
    let mode = member_mode(m@, o);
    let time = member_mtime(m@, o);
    let filled = with_meta(start, m@, mode, time);
    let block = file_block(m@, o);
    let mode_field = header::octal_field(mode as int, 8);
    let time_field = header::number_field(time, 12);
    header::lemma_field_lengths(m.size as int);
    header::lemma_field_lengths(0);
    header::lemma_field_lengths(mode as int);
    header::lemma_field_lengths(time);
    header::lemma_field_lengths(m@.uid);
    header::lemma_field_lengths(m@.gid);
    if mode < 0o10000000 {
        header::law_mode_field_round_trip(mode);
    }
    header::law_number_field_round_trip(time as u64, 12);
    assert(filled.len() == 512);
    assert forall|i: int| 100 <= i < 108 || 136 <= i < 148 implies #[trigger] block[i] == filled[i]
        && block.len() == 512 by {
        lemma_with_owners(filled, o, i);
    }
    assert(block[100] == filled[100]);
    let named = header::with_field(block, 0, name);
    header::lemma_field_lengths(header::checksum(named));
    let b = named_block(block, name, None);
    assert(b.subrange(100, 108) =~= mode_field) by {
        assert forall|i: int| 100 <= i < 108 implies b[i] == mode_field[i - 100] by {
            assert(block[i] == filled[i]);
        }
    }
    assert(b.subrange(136, 148) =~= time_field) by {
        assert forall|i: int| 136 <= i < 148 implies b[i] == time_field[i - 136] by {
            assert(block[i] == filled[i]);
        }
    }
}

/// Whether a header, before its member is named, is one of an entry with
/// contents of a length: it gives that length, names no link, and is not that of a
/// long name.
pub open spec fn is_entry_block(block: Seq<u8>, len: int) -> bool {
    &&& block.len() == 512
    &&& block.subrange(124, 136) == header::number_field(len, 12)
    &&& block[157] == 0
    &&& block[156] != 75
    &&& block[156] != 76
}

/// The headers of new entries are those of a file with its contents, and of a
/// directory, a symbolic link, a hard link and a label without any.
pub proof fn law_new_headers(m: FileMeta, o: options::Settings)
    ensures
        is_entry_block(file_block(m@, o), m.size as int),
        is_entry_block(directory_block(m@, o), 0),
        is_entry_block(symlink_block(o), 0),
        is_entry_block(link_block(m@, o), 0),
        is_entry_block(label_block(), 0),
        header::type_flag(file_block(m@, o)[156]) == 48,
        directory_block(m@, o)[156] == 53,
        symlink_block(o)[156] == 50,
        link_block(m@, o)[156] == 49,
        label_block()[156] == 86,
{
    header::lemma_field_lengths(m.size as int);
    header::lemma_field_lengths(0);
    let file = bytes::put(header::blank(), 124, header::number_field(m.size as int, 12));
    lemma_entry_block(file, m, o, m.size as int);
    lemma_entry_block(typed(53, 0), m, o, 0);
    lemma_entry_block(typed(50, 0), m, o, 0);
    lemma_entry_block(typed(49, 0), m, o, 0);
    assert(label_block().subrange(124, 136) =~= header::number_field(0, 12));
}

proof fn lemma_entry_block(start: Seq<u8>, m: FileMeta, o: options::Settings, len: int)
    requires
        start.len() == 512,
        start[157] == 0,
        forall|i: int|
            124 <= i < 136 ==> #[trigger] start[i] == header::number_field(len, 12)[i - 124],
        start[156] != 75,
        start[156] != 76,
    ensures
        is_entry_block(
            with_owners(with_meta(start, m@, member_mode(m@, o), member_mtime(m@, o)), o),
            len,
        ),
        is_entry_block(with_owners(start, o), len),
        with_owners(with_meta(start, m@, member_mode(m@, o), member_mtime(m@, o)), o)[156]
            == start[156],
        with_owners(start, o)[156] == start[156],
{
    let field = header::number_field(len, 12);
    let filled = with_meta(start, m@, member_mode(m@, o), member_mtime(m@, o));
    let (a, b) = (with_owners(filled, o), with_owners(start, o));
    header::lemma_field_lengths(len);
    assert forall|i: int| 124 <= i < 136 || 156 <= i <= 157 implies #[trigger] a[i] == start[i]
        && b[i] == start[i] && a.len() == 512 && b.len() == 512 by {
        lemma_with_meta(start, m@, member_mode(m@, o), member_mtime(m@, o), i);
        lemma_with_owners(filled, o, i);
        lemma_with_owners(start, o, i);
    }
    assert(a[156] == start[156]);
    assert(a[157] == start[157]);
    assert forall|i: int| 124 <= i < 136 implies a[i] == field[i - 124] && b[i] == field[i
        - 124] by {
        assert(a[i] == start[i]);
    }
    assert(a.subrange(124, 136) =~= field);
    assert(b.subrange(124, 136) =~= field);
}

/// An entry that is written to an archive: its header before it is named, its
/// name, the target of a link, and its contents.
pub struct NewEntry {
    pub block: Seq<u8>,
    pub name: Seq<u8>,
    pub link: Option<Seq<u8>>,
    pub data: Seq<u8>,
}

/// Whether an entry can be read back as it was: a name or target that goes into
/// a field of a hundred bytes holds no zero byte, a target is not empty, and
/// every length is a number of 64 bits.
pub open spec fn storable(e: NewEntry) -> bool {
    &&& is_entry_block(e.block, e.data.len() as int)
    &&& e.data.len() <= u64::MAX
    &&& e.name.len() < u64::MAX
    &&& e.name.len() <= 100 ==> !e.name.contains(0)
    &&& e.link matches Some(l) ==> 0 < l.len() < u64::MAX && (l.len() <= 100 ==> !l.contains(0))
}

/// Whether every length of an entry is below eight gigabytes, so that it is
/// written in octal digits.
pub open spec fn is_short(e: NewEntry) -> bool {
    &&& e.data.len() < 8589934592
    &&& e.name.len() < 8589934591
    &&& e.link matches Some(l) ==> l.len() < 8589934591
}

/// What is written of an entry: the records of its long names, and the entry
/// itself, each as a header and what follows it.
pub open spec fn entry_members(e: NewEntry) -> Seq<(Seq<u8>, Seq<u8>)> {
    (if e.name.len() > 100 {
        seq![(long_block(76, e.name.len() as int), e.name.push(0))]
    } else {
        seq![]
    }) + (if e.link matches Some(l) && l.len() > 100 {
        seq![(long_block(75, e.link->0.len() as int), e.link->0.push(0))]
    } else {
        seq![]
    }) + seq![(named_block(e.block, e.name, e.link), e.data)]
}

/// What is written of some entries.
pub open spec fn entries_members(entries: Seq<NewEntry>) -> Seq<(Seq<u8>, Seq<u8>)>
    decreases entries.len(),
{
    if entries.len() == 0 {
        seq![]
    } else {
        entry_members(entries[0]) + entries_members(entries.drop_first())
    }
}

/// Records and the member that they go before, each as a header and what
/// follows it.
pub open spec fn with_records(r: Seq<LongRecord>, block: Seq<u8>, data: Seq<u8>) -> Seq<
    (Seq<u8>, Seq<u8>),
> {
    r.map_values(|x: LongRecord| (x.header@, x.payload@)).push((block, data))
}

/// An entry as a reader finds it.
pub struct FoundEntry {
    pub block: Seq<u8>,
    pub name: Seq<u8>,
    pub link: Option<Seq<u8>>,
    pub data: Seq<u8>,
}

/// The name that a record carries, without the zero byte at its end.
pub open spec fn carried(payload: Seq<u8>) -> Seq<u8> {
    if payload.len() > 0 && payload.last() == 0 {
        payload.drop_last()
    } else {
        payload
    }
}

/// The entries among the members of an archive, when records before them have
/// carried a name and a target, or not: a record is about the next entry, and
/// what it carries stands for what is in the header.
pub open spec fn entries_found(
    members: Seq<(Seq<u8>, Seq<u8>)>,
    name: Option<Seq<u8>>,
    link: Option<Seq<u8>>,
) -> Seq<FoundEntry>
    decreases members.len(),
{
    if members.len() == 0 {
        seq![]
    } else {
        let (block, data) = members[0];
        let rest = members.drop_first();
        if block[156] == 76 {
            entries_found(rest, Some(carried(data)), link)
        } else if block[156] == 75 {
            entries_found(rest, name, Some(carried(data)))
        } else {
            seq![
                FoundEntry {
                    block,
                    name: match name {
                        Some(n) => n,
                        None => bytes::until_nul(block.subrange(0, 100)),
                    },
                    link: match link {
                        Some(l) => Some(l),
                        None => header::header_link(block),
                    },
                    data,
                },
            ] + entries_found(rest, None, None)
        }
    }
}

/// An entry as it is found when it was written whole.
pub open spec fn found_whole(e: NewEntry) -> FoundEntry {
    FoundEntry {
        block: named_block(e.block, e.name, e.link),
        name: e.name,
        link: e.link,
        data: e.data,
    }
}

/// The members that an entry is written as are the records that go before it
/// and the member itself.
pub proof fn law_records_written(e: NewEntry, r: Seq<LongRecord>)
    requires
        are_long_records(r, e.name, e.link),
    ensures
        with_records(r, named_block(e.block, e.name, e.link), e.data) == entry_members(e),
{
    assert(with_records(r, named_block(e.block, e.name, e.link), e.data) =~= entry_members(e));
}

/// A named header is in its type and size what it was before, and in its name
/// and link fields what was put there.
proof fn lemma_named_block(e: NewEntry)
    requires
        storable(e),
    ensures
        ({
            let b = named_block(e.block, e.name, e.link);
            &&& b[156] == e.block[156]
            &&& archive::sizes(b, e.data.len() as int)
            &&& e.data.len() < 8589934592 ==> archive::lists(b, e.data.len() as int)
            &&& e.name.len() <= 100 ==> bytes::until_nul(b.subrange(0, 100)) == e.name
            &&& e.link is None ==> header::header_link(b) is None
            &&& e.link matches Some(l) ==> (l.len() <= 100 ==> header::header_link(b) == Some(l))
        }),
{
    let b = header::with_field(e.block, 0, e.name);
    let c = match e.link {
        Some(l) => header::with_field(b, 157, l),
        None => b,
    };
    let r = named_block(e.block, e.name, e.link);
    header::lemma_field_lengths(header::checksum(c));
    assert(r.subrange(124, 136) =~= e.block.subrange(124, 136));
    archive::lemma_written_size(r, e.data.len() as int);
    if e.name.len() <= 100 {
        lemma_field_read(e.block, 0, e.name);
        assert(r.subrange(0, 100) =~= b.subrange(0, 100));
    }
    match e.link {
        Some(l) => {
            if l.len() <= 100 {
                lemma_field_read(b, 157, l);
                assert(r.subrange(157, 257) =~= c.subrange(157, 257));
                assert(r[157] == l[0]);
                assert(l.contains(l[0]));
            }
        },
        None => {
            assert(r[157] == e.block[157]);
        },
    }
}

proof fn lemma_found_step(
    m: (Seq<u8>, Seq<u8>),
    rest: Seq<(Seq<u8>, Seq<u8>)>,
    name: Option<Seq<u8>>,
    link: Option<Seq<u8>>,
)
    ensures
        m.0[156] == 76 ==> entries_found(seq![m] + rest, name, link) == entries_found(
            rest,
            Some(carried(m.1)),
            link,
        ),
        m.0[156] == 75 ==> entries_found(seq![m] + rest, name, link) == entries_found(
            rest,
            name,
            Some(carried(m.1)),
        ),
{
    assert((seq![m] + rest).drop_first() =~= rest);
}

proof fn lemma_entry_found(e: NewEntry, rest: Seq<(Seq<u8>, Seq<u8>)>)
    requires
        storable(e),
    ensures
        entries_found(entry_members(e) + rest, None, None) == seq![found_whole(e)] + entries_found(
            rest,
            None,
            None,
        ),
        archive::all_sized(entry_members(e)),
        is_short(e) ==> archive::all_listed(entry_members(e)),
{
    let own = (named_block(e.block, e.name, e.link), e.data);
    let last = seq![own] + rest;
    lemma_named_block(e);
    assert(last.drop_first() =~= rest);
    let with_link = if e.link matches Some(l) && l.len() > 100 {
        let l = e.link->0;
        lemma_long_sizes(75, l);
        assert(l.push(0).drop_last() =~= l);
        let record = (long_block(75, l.len() as int), l.push(0));
        lemma_found_step(record, last, None, None);
        lemma_found_step(record, last, Some(e.name), None);
        seq![record] + last
    } else {
        last
    };
    if e.name.len() > 100 {
        lemma_long_sizes(76, e.name);
        assert(e.name.push(0).drop_last() =~= e.name);
        let record = (long_block(76, e.name.len() as int), e.name.push(0));
        lemma_found_step(record, with_link, None, None);
        assert(entry_members(e) + rest =~= seq![record] + with_link);
    } else {
        assert(entry_members(e) + rest =~= with_link);
    }
}

/// What is written of an entry is read back as one entry: with its whole name,
/// the whole target of a link, however long they are, and its contents.
pub proof fn law_entry_round_trip(e: NewEntry, r: Seq<LongRecord>)
    requires
        storable(e),
        are_long_records(r, e.name, e.link),
    ensures
        ({
            let members = with_records(r, named_block(e.block, e.name, e.link), e.data);
            let written = archive::members_bytes(members) + bytes::zeros(1024);
            entries_found(archive::members_read(written, 0), None, None) == seq![found_whole(e)]
        }),
{
    let members = entry_members(e);
    law_records_written(e, r);
    lemma_entry_found(e, seq![]);
    assert(members + seq![] =~= members);
    let nothing = Seq::<u8>::empty();
    archive::law_members_read_back(nothing, members, bytes::zeros(512));
    assert(nothing + archive::members_bytes(members) =~= archive::members_bytes(members));
    assert(archive::members_bytes(members) + bytes::zeros(512) + bytes::zeros(512)
        =~= archive::members_bytes(members) + bytes::zeros(1024));
    assert(seq![found_whole(e)] + Seq::<FoundEntry>::empty() =~= seq![found_whole(e)]);
}

/// Whether the last of some members is no record about an entry to come.
pub open spec fn complete(members: Seq<(Seq<u8>, Seq<u8>)>) -> bool {
    members.len() > 0 ==> members.last().0[156] != 75 && members.last().0[156] != 76
}

proof fn lemma_found_concat(
    a: Seq<(Seq<u8>, Seq<u8>)>,
    b: Seq<(Seq<u8>, Seq<u8>)>,
    name: Option<Seq<u8>>,
    link: Option<Seq<u8>>,
)
    requires
        complete(a),
        a.len() > 0 || name is None && link is None,
    ensures
        entries_found(a + b, name, link) == entries_found(a, name, link) + entries_found(
            b,
            None,
            None,
        ),
    decreases a.len(),
{
    if a.len() == 0 {
        assert(a + b =~= b);
        assert(Seq::<FoundEntry>::empty() + entries_found(b, None, None) =~= entries_found(
            b,
            None,
            None,
        ));
    } else {
        let rest = a.drop_first();
        assert((a + b).drop_first() =~= rest + b);
        assert(rest.len() > 0 ==> rest.last() == a.last());
        let flag = a[0].0[156];
        if flag == 76 {
            lemma_found_concat(rest, b, Some(carried(a[0].1)), link);
        } else if flag == 75 {
            lemma_found_concat(rest, b, name, Some(carried(a[0].1)));
        } else {
            lemma_found_concat(rest, b, None, None);
            assert(entries_found(a + b, name, link) =~= entries_found(a, name, link)
                + entries_found(b, None, None));
        }
    }
}

proof fn lemma_entries_found(entries: Seq<NewEntry>)
    requires
        forall|i: int| 0 <= i < entries.len() ==> storable(#[trigger] entries[i]),
    ensures
        entries_found(entries_members(entries), None, None) == entries.map_values(
            |e: NewEntry| found_whole(e),
        ),
        archive::all_sized(entries_members(entries)),
        (forall|i: int| 0 <= i < entries.len() ==> is_short(#[trigger] entries[i]))
            ==> archive::all_listed(entries_members(entries)),
    decreases entries.len(),
{
    let found = entries.map_values(|e: NewEntry| found_whole(e));
    if entries.len() == 0 {
        assert(found =~= seq![]);
    } else {
        let rest = entries.drop_first();
        assert(storable(entries[0]));
        assert forall|i: int| 0 <= i < rest.len() implies storable(#[trigger] rest[i]) by {
            assert(storable(entries[i + 1]));
        }
        lemma_entries_found(rest);
        lemma_entry_found(entries[0], entries_members(rest));
        if forall|i: int| 0 <= i < entries.len() ==> is_short(#[trigger] entries[i]) {
            assert(is_short(entries[0]));
            assert forall|i: int| 0 <= i < rest.len() implies is_short(#[trigger] rest[i]) by {
                assert(is_short(entries[i + 1]));
            }
        }
        archive::lemma_parts(
            entry_members(entries[0]),
            entries_members(rest),
            entries_members(entries),
        );
        assert(found =~= seq![found_whole(entries[0])] + rest.map_values(
            |e: NewEntry| found_whole(e),
        ));
    }
}

/// An append keeps what an archive holds and adds to it: of the archive that it
/// leaves behind, the entries that were there before are read, unchanged, and
/// after them the new ones, whether files, directories, links or labels, each
/// whole. Where the new lengths are below eight gigabytes a further append
/// begins behind them.
pub proof fn law_entries_appended(
    old: Seq<(Seq<u8>, Seq<u8>)>,
    rest: Seq<u8>,
    entries: Seq<NewEntry>,
)
    requires
        archive::all_listed(old),
        forall|i: int| 0 <= i < entries.len() ==> storable(#[trigger] entries[i]),
    ensures
        ({
            let before = archive::members_bytes(old) + bytes::zeros(512) + rest;
            let new = entries_members(entries);
            let after = archive::appended(before, new);
            &&& archive::members_bytes(old).is_prefix_of(after)
            &&& bytes::zeros(1024).is_suffix_of(after)
            &&& archive::all_sized(old) ==> entries_found(
                archive::members_read(before, 0),
                None,
                None,
            ) == entries_found(old, None, None)
            &&& archive::all_sized(old) && complete(old) ==> entries_found(
                archive::members_read(after, 0),
                None,
                None,
            ) == entries_found(old, None, None) + entries.map_values(
                |e: NewEntry| found_whole(e),
            )
            &&& (forall|i: int| 0 <= i < entries.len() ==> is_short(#[trigger] entries[i]))
                ==> archive::data_end(after, 0) == after.len() - 1024
        }),
{
    let new = entries_members(entries);
    let before = archive::members_bytes(old) + bytes::zeros(512) + rest;
    let after = archive::appended(before, new);
    let nothing = Seq::<u8>::empty();
    lemma_entries_found(entries);
    archive::law_append(old, new, rest);
    if archive::all_sized(old) {
        archive::law_members_read_back(nothing, old, rest);
        assert(nothing + archive::members_bytes(old) =~= archive::members_bytes(old));
        if complete(old) {
            lemma_found_concat(old, new, None, None);
        }
    }
    let head = archive::members_bytes(old);
    assert(head =~= after.subrange(0, head.len() as int));
    assert(bytes::zeros(1024) =~= after.subrange(after.len() - 1024, after.len() as int));
}

/// An owner is given as a name, as a name and a number with a colon between
/// them, or as a plain number.
pub proof fn law_owner_forms(name: Seq<char>, id: u64)
    requires
        !name.contains(':'),
    ensures
        owner_parts(name.push(':') + number::decimal(id as int)) == (name, Some(id as int)),
        owner_parts(number::decimal(id as int)) == (
            number::decimal(id as int),
            Some(id as int),
        ),
        owner_parts(name).0 == name,
        name.len() == 0 || !number::is_digit(name[0], 10) && name[0] != '+' ==> owner_parts(name).1
            is None,
        owner_parts(name.push(':')) == (name, None::<int>),
{
    let d = number::decimal(id as int);
    number::law_decimal_round_trip(id);
    number::lemma_decimal(id as int);
    assert(number::is_digit(d[0], 10));
    let whole = name.push(':') + d;
    text::lemma_first_index_is(whole, ':', name.len() as int);
    assert(whole.take(name.len() as int) =~= name);
    assert(whole.skip(name.len() as int + 1) =~= d);
    text::lemma_first_index_is(name, ':', name.len() as int);
    assert forall|i: int| 0 <= i < d.len() implies d[i] != ':' by {
        assert(number::is_digit(d[i], 10));
    }
    text::lemma_first_index_is(d, ':', d.len() as int);
    let colon = name.push(':');
    text::lemma_first_index_is(colon, ':', name.len() as int);
    assert(colon.take(name.len() as int) =~= name);
    assert(colon.skip(name.len() as int + 1) =~= seq![]);
    if name.len() > 0 && !number::is_digit(name[0], 10) && name[0] != '+' {
        assert(!number::all_digits(name, 10));
    }
}

proof fn lemma_owner_elsewhere(block: Seq<u8>, id_at: int, name_at: int, s: Seq<char>, i: int)
    requires
        block.len() == 512,
        0 <= i < 512,
        0 <= id_at <= 504,
        0 <= name_at <= 480,
        !(name_at <= i < name_at + 32),
        !(id_at <= i < id_at + 8) || owner_parts(s).1 is None,
    ensures
        with_owner(block, id_at, name_at, s).len() == 512,
        with_owner(block, id_at, name_at, s)[i] == block[i],
{
    match owner_parts(s).1 {
        Some(n) => header::lemma_field_lengths(n),
        None => {},
    }
}

/// A name in one of the fields of 32 bytes, where it fits.
pub open spec fn fits_name(s: Seq<char>) -> bool {
    encode_utf8(s).len() <= 32 && !encode_utf8(s).contains(0)
}

proof fn lemma_name_put(block: Seq<u8>, at: int, s: Seq<char>)
    requires
        block.len() == 512,
        header::is_gnu(block),
        at == 265 || at == 297,
        fits_name(s),
        s.len() > 0 || block[at] == 0,
    ensures
        header::name_at(header::with_name(block, at, encode_utf8(s)), at) == Some(s),
        header::is_gnu(header::with_name(block, at, encode_utf8(s))),
{
    let b = encode_utf8(s);
    let r = header::with_name(block, at, b);
    assert(r.subrange(257, 265) =~= block.subrange(257, 265));
    let field = r.subrange(at, at + 32);
    assert forall|i: int| 0 <= i < b.len() implies field[i] != 0 by {
        assert(field[i] == b[i]);
        assert(b.contains(b[i]));
    }
    bytes::lemma_until_nul(field, b.len() as int);
    assert(field.take(b.len() as int) =~= b);
    vstd::utf8::encode_utf8_valid_utf8(s);
    vstd::utf8::encode_utf8_decode_utf8(s);
}

/// What the header of an entry says of its owner or group, by the number and the
/// name in its fields: the one that is asked for, where it has a number, or a name
/// that fits, else that of the file, which has no name where none fits.
pub open spec fn owner_found(
    block: Seq<u8>,
    id_at: int,
    name_at: int,
    given: Option<Seq<char>>,
    id: int,
    name: Option<Seq<char>>,
) -> bool {
    let number = header::number_value(block.subrange(id_at, id_at + 8));
    let own = if name is Some && fits_name(name->0) {
        name->0
    } else {
        Seq::<char>::empty()
    };
    match given {
        None => number == Some(id) && header::name_at(block, name_at) == Some(own),
        Some(s) => {
            let (n, i) = owner_parts(s);
            &&& i is None ==> number == Some(id)
            &&& i is Some && i->0 < 0x8000_0000_0000_0000 ==> number == i
            &&& header::name_at(block, name_at) == Some(
                if n.len() > 0 && fits_name(n) {
                    n
                } else {
                    own
                },
            )
        },
    }
}

/// What the header that is written of a new entry says of a file: its mode,
/// changed as is asked for, its modification time, or the one that is asked for,
/// and its owner and group.
pub open spec fn describes(block: Seq<u8>, m: FileMeta, o: options::Settings) -> bool {
    let mode = match o.mode_override {
        Some(changes) => mode::changed_mode(m.mode, changes),
        None => m.mode,
    };
    let time = match o.switches.mtime_override {
        Some(t) => t as int,
        None => m.mtime as int,
    };
    &&& mode < 0o10000000 ==> header::octal_value(block.subrange(100, 108)) == Some(mode as int)
    &&& header::number_value(block.subrange(136, 148)) == Some(
        if time >= 0 {
            time
        } else {
            time + 0x1_0000_0000_0000_0000
        },
    )
    &&& owner_found(block, 108, 265, o.owner, m.uid as int, text::opt_view(m.user))
    &&& owner_found(block, 116, 297, o.group, m.gid as int, text::opt_view(m.group))
}

proof fn lemma_name_kept(block: Seq<u8>, id_at: int, name_at: int, s: Seq<char>)
    requires
        block.len() == 512,
        header::is_gnu(block),
        id_at == 108 && name_at == 265 || id_at == 116 && name_at == 297,
        owner_parts(s).0.len() == 0 || !fits_name(owner_parts(s).0),
    ensures
        header::name_at(with_owner(block, id_at, name_at, s), name_at) == header::name_at(
            block,
            name_at,
        ),
{
    let (name, id) = owner_parts(s);
    match id {
        Some(n) => header::lemma_field_lengths(n),
        None => {},
    }
    let r = with_owner(block, id_at, name_at, s);
    assert(r.subrange(257, 265) =~= block.subrange(257, 265));
    assert(r.subrange(name_at, name_at + 32) =~= block.subrange(name_at, name_at + 32));
}

proof fn lemma_owner_fields(
    filled: Seq<u8>,
    o: options::Settings,
    uid: int,
    user: Option<Seq<char>>,
    gid: int,
    group: Option<Seq<char>>,
)
    requires
        filled.len() == 512,
        header::is_gnu(filled),
        owner_found(filled, 108, 265, None, uid, user),
        owner_found(filled, 116, 297, None, gid, group),
    ensures
        with_owners(filled, o).len() == 512,
        header::is_gnu(with_owners(filled, o)),
        owner_found(with_owners(filled, o), 108, 265, o.owner, uid, user),
        owner_found(with_owners(filled, o), 116, 297, o.group, gid, group),
{
    let owned = match o.owner {
        Some(s) => with_owner(filled, 108, 265, s),
        None => filled,
    };
    let all = with_owners(filled, o);
    assert forall|i: int| 0 <= i < 512 && !(108 <= i < 116) && !(265 <= i < 297) implies
        #[trigger] owned[i] == filled[i] && owned.len() == 512 by {
        match o.owner {
            Some(s) => lemma_owner_elsewhere(filled, 108, 265, s, i),
            None => {},
        }
    }
    assert(owned[0] == filled[0]);
    assert forall|i: int| 0 <= i < 512 && !(116 <= i < 124) && !(297 <= i < 329) implies
        #[trigger] all[i] == owned[i] && all.len() == 512 by {
        match o.group {
            Some(s) => lemma_owner_elsewhere(owned, 116, 297, s, i),
            None => {},
        }
    }
    assert(all[0] == owned[0]);
    assert(owned.subrange(257, 265) =~= filled.subrange(257, 265));
    assert(all.subrange(257, 265) =~= owned.subrange(257, 265));
    assert(all.subrange(108, 116) =~= owned.subrange(108, 116));
    assert(all.subrange(265, 297) =~= owned.subrange(265, 297));
    assert(owned.subrange(116, 124) =~= filled.subrange(116, 124));
    assert(owned.subrange(297, 329) =~= filled.subrange(297, 329));
    match o.owner {
        Some(s) => {
            law_owner_read_back(filled, false, s);
            if owner_parts(s).0.len() == 0 || !fits_name(owner_parts(s).0) {
                lemma_name_kept(filled, 108, 265, s);
            }
            if owner_parts(s).1 is None {
                assert(owned.subrange(108, 116) =~= filled.subrange(108, 116)) by {
                    assert forall|i: int| 108 <= i < 116 implies owned[i] == filled[i] by {
                        lemma_owner_elsewhere(filled, 108, 265, s, i);
                    }
                }
            }
        },
        None => {},
    }
    match o.group {
        Some(s) => {
            law_owner_read_back(owned, true, s);
            if owner_parts(s).0.len() == 0 || !fits_name(owner_parts(s).0) {
                lemma_name_kept(owned, 116, 297, s);
            }
            if owner_parts(s).1 is None {
                assert(all.subrange(116, 124) =~= owned.subrange(116, 124)) by {
                    assert forall|i: int| 116 <= i < 124 implies all[i] == owned[i] by {
                        lemma_owner_elsewhere(owned, 116, 297, s, i);
                    }
                }
            }
        },
        None => {},
    }
}

/// A header without a name has an empty one.
proof fn lemma_no_name(block: Seq<u8>, at: int)
    requires
        block.len() == 512,
        header::is_gnu(block),
        at == 265 || at == 297,
        block[at] == 0,
    ensures
        header::name_at(block, at) == Some(Seq::<char>::empty()),
{
    let field = block.subrange(at, at + 32);
    bytes::lemma_until_nul(field, 0);
    assert(field.take(0) =~= encode_utf8(Seq::<char>::empty()));
    vstd::utf8::encode_utf8_valid_utf8(Seq::<char>::empty());
    vstd::utf8::encode_utf8_decode_utf8(Seq::<char>::empty());
}

proof fn lemma_meta_fields(start: Seq<u8>, m: FileMeta, mode: u32, mtime: int)
    requires
        start.len() == 512,
        header::is_gnu(start),
        start[265] == 0,
        start[297] == 0,
        0 <= mtime <= u64::MAX,
    ensures
        ({
            let b = with_meta(start, m@, mode, mtime);
            &&& b.len() == 512
            &&& header::is_gnu(b)
            &&& mode < 0o10000000 ==> header::octal_value(b.subrange(100, 108)) == Some(mode as int)
            &&& header::number_value(b.subrange(136, 148)) == Some(mtime)
            &&& owner_found(b, 108, 265, None, m.uid as int, text::opt_view(m.user))
            &&& owner_found(b, 116, 297, None, m.gid as int, text::opt_view(m.group))
        }),
{
    header::lemma_field_lengths(mode as int);
    header::lemma_field_lengths(mtime);
    header::lemma_field_lengths(m@.uid);
    header::lemma_field_lengths(m@.gid);
    if mode < 0o10000000 {
        header::law_mode_field_round_trip(mode);
    }
    header::law_number_field_round_trip(mtime as u64, 12);
    header::law_number_field_round_trip(m.uid as u64, 8);
    header::law_number_field_round_trip(m.gid as u64, 8);
    let b1 = bytes::put(start, 100, header::octal_field(mode as int, 8));
    let b2 = bytes::put(b1, 136, header::number_field(mtime, 12));
    let b3 = bytes::put(b2, 108, header::number_field(m@.uid, 8));
    let b4 = bytes::put(b3, 116, header::number_field(m@.gid, 8));
    let b5 = match m@.user {
        Some(u) => header::with_name(b4, 265, encode_utf8(u)),
        None => b4,
    };
    let b6 = with_meta(start, m@, mode, mtime);
    assert(b4.subrange(257, 265) =~= start.subrange(257, 265));
    lemma_no_name(b4, 265);
    match m@.user {
        Some(u) => {
            if fits_name(u) {
                lemma_name_put(b4, 265, u);
            }
        },
        None => {},
    }
    assert(b5.subrange(257, 265) =~= b4.subrange(257, 265));
    assert(b5[297] == 0);
    lemma_no_name(b5, 297);
    match m@.group {
        Some(g) => {
            if fits_name(g) {
                lemma_name_put(b5, 297, g);
            }
        },
        None => {},
    }
    assert(b6.subrange(257, 265) =~= b5.subrange(257, 265));
    assert(b6.subrange(265, 297) =~= b5.subrange(265, 297));
    assert(b6.subrange(100, 108) =~= header::octal_field(mode as int, 8));
    assert(b6.subrange(136, 148) =~= header::number_field(mtime, 12));
    assert(b6.subrange(108, 116) =~= header::number_field(m@.uid, 8));
    assert(b6.subrange(116, 124) =~= header::number_field(m@.gid, 8));
}

proof fn lemma_naming_keeps(b: Seq<u8>, name: Seq<u8>, link: Option<Seq<u8>>)
    requires
        b.len() == 512,
    ensures
        ({
            let r = named_block(b, name, link);
            &&& r.len() == 512
            &&& r[156] == b[156]
            &&& r.subrange(100, 108) == b.subrange(100, 108)
            &&& r.subrange(108, 116) == b.subrange(108, 116)
            &&& r.subrange(116, 124) == b.subrange(116, 124)
            &&& r.subrange(124, 136) == b.subrange(124, 136)
            &&& r.subrange(136, 148) == b.subrange(136, 148)
            &&& header::name_at(r, 265) == header::name_at(b, 265)
            &&& header::name_at(r, 297) == header::name_at(b, 297)
        }),
{
    let r = named_block(b, name, link);
    let c = match link {
        Some(l) => header::with_field(header::with_field(b, 0, name), 157, l),
        None => header::with_field(b, 0, name),
    };
    header::lemma_field_lengths(header::checksum(c));
    assert(r.subrange(100, 108) =~= b.subrange(100, 108));
    assert(r.subrange(108, 116) =~= b.subrange(108, 116));
    assert(r.subrange(116, 124) =~= b.subrange(116, 124));
    assert(r.subrange(124, 136) =~= b.subrange(124, 136));
    assert(r.subrange(136, 148) =~= b.subrange(136, 148));
    assert(r.subrange(257, 265) =~= b.subrange(257, 265));
    assert(r.subrange(265, 297) =~= b.subrange(265, 297));
    assert(r.subrange(297, 329) =~= b.subrange(297, 329));
}

proof fn lemma_describes(
    start: Seq<u8>,
    m: FileMeta,
    o: options::Settings,
    name: Seq<u8>,
    link: Option<Seq<u8>>,
)
    requires
        start.len() == 512,
        header::is_gnu(start),
        start[265] == 0,
        start[297] == 0,
    ensures
        describes(
            named_block(
                with_owners(with_meta(start, m@, member_mode(m@, o), member_mtime(m@, o)), o),
                name,
                link,
            ),
            m,
            o,
        ),
{
    let filled = with_meta(start, m@, member_mode(m@, o), member_mtime(m@, o));
    let block = with_owners(filled, o);
    lemma_meta_fields(start, m, member_mode(m@, o), member_mtime(m@, o));
    lemma_owner_fields(
        filled,
        o,
        m.uid as int,
        text::opt_view(m.user),
        m.gid as int,
        text::opt_view(m.group),
    );
    lemma_naming_keeps(block, name, link);
    assert(block.subrange(100, 108) =~= filled.subrange(100, 108)) by {
        assert forall|i: int| 100 <= i < 108 implies block[i] == filled[i] by {
            lemma_with_owners(filled, o, i);
        }
    }
    assert(block.subrange(136, 148) =~= filled.subrange(136, 148)) by {
        assert forall|i: int| 136 <= i < 148 implies block[i] == filled[i] by {
            lemma_with_owners(filled, o, i);
        }
    }
}

/// A field of zero bytes holds no number.
proof fn lemma_no_number()
    ensures
        header::octal_value(bytes::zeros(8)) is None,
        header::number_value(bytes::zeros(8)) is None,
{
    let z = bytes::zeros(8);
    bytes::lemma_until_nul(z, 0);
    let t = z.take(0);
    assert(t =~= encode_utf8(Seq::<char>::empty()));
    vstd::utf8::encode_utf8_valid_utf8(Seq::<char>::empty());
    vstd::utf8::encode_utf8_decode_utf8(Seq::<char>::empty());
    assert(text::trimmed(Seq::<char>::empty()) == Seq::<char>::empty());
}

proof fn lemma_typed(flag: u8, size: int)
    requires
        0 <= size <= u64::MAX,
    ensures
        typed(flag, size).len() == 512,
        header::is_gnu(typed(flag, size)),
        typed(flag, size)[265] == 0,
        typed(flag, size)[297] == 0,
        typed(flag, size)[156] == flag,
        typed(flag, size).subrange(124, 136) == header::number_field(size, 12),
        header::blank().len() == 512,
        header::is_gnu(header::blank()),
        header::blank()[265] == 0,
        header::blank()[297] == 0,
{
    header::lemma_field_lengths(size);
    header::lemma_field_lengths(0);
    assert(header::blank().subrange(257, 265) =~= header::gnu_magic());
    assert(typed(flag, size).subrange(257, 265) =~= header::gnu_magic());
    assert(typed(flag, size).subrange(124, 136) =~= header::number_field(size, 12));
}

/// The headers that are written of a file, a directory and a hard link say what
/// they are, how long their contents are, and what is known of the file: its
/// mode, time, owner and group, or what is asked for in their place.
pub proof fn law_headers_describe(
    m: FileMeta,
    o: options::Settings,
    name: Seq<u8>,
    link: Option<Seq<u8>>,
)
    ensures
        ({
            let file = named_block(file_block(m@, o), name, link);
            let dir = named_block(directory_block(m@, o), name, link);
            let hard = named_block(link_block(m@, o), name, link);
            &&& describes(file, m, o)
            &&& describes(dir, m, o)
            &&& describes(hard, m, o)
            &&& header::type_flag(file[156]) == 48 && dir[156] == 53 && hard[156] == 49
            &&& header::number_value(file.subrange(124, 136)) == Some(m.size as int)
            &&& header::number_value(dir.subrange(124, 136)) == Some(0int)
            &&& header::number_value(hard.subrange(124, 136)) == Some(0int)
        }),
{
    lemma_typed(53, 0);
    lemma_typed(49, 0);
    header::lemma_field_lengths(m.size as int);
    let start = bytes::put(header::blank(), 124, header::number_field(m.size as int, 12));
    assert(start.subrange(257, 265) =~= header::blank().subrange(257, 265));
    lemma_describes(start, m, o, name, link);
    lemma_describes(typed(53, 0), m, o, name, link);
    lemma_describes(typed(49, 0), m, o, name, link);
    law_new_headers(m, o);
    lemma_naming_keeps(file_block(m@, o), name, link);
    lemma_naming_keeps(directory_block(m@, o), name, link);
    lemma_naming_keeps(link_block(m@, o), name, link);
    header::law_number_field_round_trip(m.size, 12);
    header::law_number_field_round_trip(0, 12);
}

/// The header that is written of a symbolic link says that it is one, without
/// contents and of the time zero, with the owner and group that are asked for;
/// that of a label says that it is one, and nothing else.
pub proof fn law_plain_headers(
    o: options::Settings,
    name: Seq<u8>,
    link: Option<Seq<u8>>,
)
    ensures
        ({
            let soft = named_block(symlink_block(o), name, link);
            let label = named_block(label_block(), name, link);
            &&& soft[156] == 50 && label[156] == 86
            &&& header::number_value(soft.subrange(124, 136)) == Some(0int)
            &&& header::number_value(soft.subrange(136, 148)) == Some(0int)
            &&& header::octal_value(soft.subrange(100, 108)) is None
            &&& o.owner is None ==> header::number_value(soft.subrange(108, 116)) is None
                && header::name_at(soft, 265) == Some(Seq::<char>::empty())
            &&& o.group is None ==> header::number_value(soft.subrange(116, 124)) is None
                && header::name_at(soft, 297) == Some(Seq::<char>::empty())
            &&& o.owner matches Some(s) ==> {
                let (n, i) = owner_parts(s);
                &&& i is Some && i->0 < 0x8000_0000_0000_0000 ==> header::number_value(
                    soft.subrange(108, 116),
                ) == i
                &&& n.len() > 0 && fits_name(n) ==> header::name_at(soft, 265) == Some(n)
            }
            &&& o.group matches Some(s) ==> {
                let (n, i) = owner_parts(s);
                &&& i is Some && i->0 < 0x8000_0000_0000_0000 ==> header::number_value(
                    soft.subrange(116, 124),
                ) == i
                &&& n.len() > 0 && fits_name(n) ==> header::name_at(soft, 297) == Some(n)
            }
            &&& header::octal_value(label.subrange(100, 108)) == Some(0int)
            &&& header::number_value(label.subrange(108, 116)) == Some(0int)
            &&& header::number_value(label.subrange(116, 124)) == Some(0int)
            &&& header::number_value(label.subrange(124, 136)) == Some(0int)
            &&& header::number_value(label.subrange(136, 148)) == Some(0int)
        }),
{
    let start = typed(50, 0);
    let block = symlink_block(o);
    lemma_typed(50, 0);
    lemma_typed(86, 0);
    header::law_number_field_round_trip(0, 12);
    header::law_number_field_round_trip(0, 8);
    header::law_mode_field_round_trip(0);
    header::lemma_field_lengths(0);
    let owned = match o.owner {
        Some(s) => with_owner(start, 108, 265, s),
        None => start,
    };
    assert forall|i: int| 0 <= i < 512 && !(108 <= i < 116) && !(265 <= i < 297) implies
        #[trigger] owned[i] == start[i] && owned.len() == 512 by {
        match o.owner {
            Some(s) => lemma_owner_elsewhere(start, 108, 265, s, i),
            None => {},
        }
    }
    assert(owned[0] == start[0]);
    assert forall|i: int| 0 <= i < 512 && !(116 <= i < 124) && !(297 <= i < 329) implies
        #[trigger] block[i] == owned[i] && block.len() == 512 by {
        match o.group {
            Some(s) => lemma_owner_elsewhere(owned, 116, 297, s, i),
            None => {},
        }
    }
    assert(block[0] == owned[0]);
    assert(owned.subrange(257, 265) =~= start.subrange(257, 265));
    assert(block.subrange(257, 265) =~= owned.subrange(257, 265));
    assert(block.subrange(108, 116) =~= owned.subrange(108, 116));
    assert(block.subrange(265, 297) =~= owned.subrange(265, 297));
    assert(block.subrange(124, 136) =~= start.subrange(124, 136));
    assert(block[156] == owned[156] && owned[156] == start[156]);
    assert(start.subrange(136, 148) =~= header::number_field(0, 12));
    assert(block.subrange(136, 148) =~= start.subrange(136, 148));
    match o.owner {
        Some(s) => law_owner_read_back(start, false, s),
        None => {},
    }
    match o.group {
        Some(s) => law_owner_read_back(owned, true, s),
        None => {},
    }
    assert(block.subrange(100, 108) =~= bytes::zeros(8));
    lemma_no_number();
    if o.owner is None {
        assert(block.subrange(108, 116) =~= bytes::zeros(8));
        assert(block[265] == owned[265] && owned[265] == start[265]);
        lemma_no_name(block, 265);
    }
    if o.group is None {
        assert(block == owned);
        assert(block.subrange(116, 124) =~= bytes::zeros(8));
        assert(owned[297] == start[297]);
        lemma_no_name(block, 297);
    }
    lemma_naming_keeps(block, name, link);
    let label = label_block();
    assert(label.subrange(100, 108) =~= header::octal_field(0, 8));
    assert(label.subrange(108, 116) =~= header::number_field(0, 8));
    assert(label.subrange(116, 124) =~= header::number_field(0, 8));
    assert(label.subrange(124, 136) =~= header::number_field(0, 12));
    assert(label.subrange(136, 148) =~= header::number_field(0, 12));
    assert(label[156] == 86);
    lemma_naming_keeps(label, name, link);
}

/// The header that a report shows of a file about to be added says what it will
/// be, with the mode that it has on disk, and how long its contents are.
pub proof fn law_shown_header(m: FileMeta, kind: FileType, o: options::Settings)
    ensures
        ({
            let b = shown_block(Some(m@), kind, o);
            let plain = options::Settings { mode_override: None, ..o };
            &&& describes(b, m, plain)
            &&& kind is Directory ==> b[156] == 53
            &&& kind is Symlink ==> b[156] == 50
            &&& kind is Other ==> b[156] == 48
            &&& header::header_size(b) == Some(
                if kind is Other {
                    m.size as int
                } else {
                    0
                },
            )
        }),
{
    let mtime = member_mtime(m@, o);
    let start = header::blank();
    lemma_typed(53, 0);
    lemma_meta_fields(start, m, m.mode, mtime);
    let a = with_meta(start, m@, m.mode, mtime);
    let size = if kind is Other {
        m.size as int
    } else {
        0
    };
    let flag: u8 = match kind {
        FileType::Directory => 53,
        FileType::Symlink => 50,
        FileType::Other => 48,
    };
    let b = bytes::put(a.update(156, flag), 124, header::number_field(size, 12));
    header::lemma_field_lengths(size);
    header::law_number_field_round_trip(size as u64, 12);
    assert(b.subrange(100, 108) =~= a.subrange(100, 108));
    assert(b.subrange(108, 116) =~= a.subrange(108, 116));
    assert(b.subrange(116, 124) =~= a.subrange(116, 124));
    assert(b.subrange(124, 136) =~= header::number_field(size, 12));
    assert(b.subrange(136, 148) =~= a.subrange(136, 148));
    assert(b.subrange(257, 265) =~= a.subrange(257, 265));
    assert(b.subrange(265, 297) =~= a.subrange(265, 297));
    assert(b.subrange(297, 329) =~= a.subrange(297, 329));
    lemma_owner_fields(
        b,
        o,
        m.uid as int,
        text::opt_view(m.user),
        m.gid as int,
        text::opt_view(m.group),
    );
    let r = shown_block(Some(m@), kind, o);
    assert(r == with_owners(b, o));
    assert forall|i: int| 100 <= i < 108 || 124 <= i < 148 || i == 156 implies #[trigger] r[i]
        == b[i] by {
        lemma_with_owners(b, o, i);
    }
    assert(r.subrange(100, 108) =~= b.subrange(100, 108));
    assert(r.subrange(124, 136) =~= b.subrange(124, 136));
    assert(r.subrange(136, 148) =~= b.subrange(136, 148));
    assert(r[156] == b[156]);
}

/// Of a name or target that is too long for its field the header holds the first
/// hundred bytes, and the record before it bears the name `././@LongLink`.
pub proof fn law_long_names_cut(
    block: Seq<u8>,
    name: Seq<u8>,
    link: Option<Seq<u8>>,
    flag: u8,
    len: int,
)
    requires
        block.len() == 512,
        0 <= len < u64::MAX,
    ensures
        name.len() >= 100 ==> named_block(block, name, link).subrange(0, 100) == name.take(100),
        link matches Some(l) ==> (l.len() >= 100 ==> named_block(block, name, link).subrange(
            157,
            257,
        ) == l.take(100)),
        bytes::until_nul(long_block(flag, len).subrange(0, 100)) == encode_utf8("././@LongLink"@),
{
    let b = header::with_field(block, 0, name);
    let c = match link {
        Some(l) => header::with_field(b, 157, l),
        None => b,
    };
    let r = named_block(block, name, link);
    header::lemma_field_lengths(header::checksum(c));
    if name.len() >= 100 {
        assert(r.subrange(0, 100) =~= name.take(100));
    }
    match link {
        Some(l) => {
            if l.len() >= 100 {
                assert(r.subrange(157, 257) =~= l.take(100));
            }
        },
        None => {},
    }
    header::lemma_field_lengths(len + 1);
    header::lemma_field_lengths(0);
    let n = long_link_name();
    let b1 = bytes::put(header::blank(), 124, header::number_field(len + 1, 12));
    let b2 = header::with_field(b1.update(156, flag), 0, n);
    let b3 = bytes::put(b2, 100, header::octal_field(0, 8));
    let b4 = bytes::put(b3, 108, header::number_field(0, 8));
    let b5 = bytes::put(b4, 116, header::number_field(0, 8));
    let b6 = bytes::put(b5, 136, header::number_field(0, 12));
    header::lemma_field_lengths(header::checksum(b6));
    let l = long_block(flag, len);
    assert(l.subrange(0, 100) =~= b2.subrange(0, 100));
    assert(!n.contains(0));
    lemma_field_read(b1.update(156, flag), 0, n);
    reveal_strlit("././@LongLink");
    let s = "././@LongLink"@;
    assert(vstd::utf8::is_ascii_chars(s));
    vstd::utf8::is_ascii_chars_encode_utf8(s);
    assert(encode_utf8(s) =~= n) by {
        assert forall|i: int| 0 <= i < 13 implies encode_utf8(s)[i] == n[i] by {
            assert(s[i] as u8 == encode_utf8(s)[i]);
        }
    }
}

} // verus!
