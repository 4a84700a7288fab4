//! How members are shown in listings: plain and verbose, without control
//! characters.

use crate::bytes;
use crate::bytes::lossy_text;
use crate::calendar;
use crate::header;
use crate::header::EntryHeader;
use crate::mtime;
use crate::mtime::format_mtime;
use crate::number;
use crate::number::decimal_chars;
use crate::options::Args;
use crate::text;
use crate::text::{concat, from_chars, to_chars};
use vstd::prelude::*;

verus! {

/// Whether a character is a control character.
pub open spec fn is_control(c: char) -> bool {
    (c as u32) < 0x20 || 0x7f <= c as u32 && (c as u32) < 0xa0
}

/// Whether a text holds no control character.
pub open spec fn printable(s: Seq<char>) -> bool {
    forall|i: int| 0 <= i < s.len() ==> !is_control(#[trigger] s[i])
}

/// A byte as a backslash and three octal digits.
pub open spec fn octal_escape(b: int) -> Seq<char> {
    seq![
        '\\',
        number::digit_char(b / 64),
        number::digit_char(b / 8 % 8),
        number::digit_char(b % 8),
    ]
}

/// A character as a listing shows it: a control character by the one or two
/// bytes that encode it in UTF-8, each in octal, and any other as it is.
pub open spec fn shown_char(c: char) -> Seq<char> {
    if !is_control(c) {
        seq![c]
    } else if (c as u32) < 0x80 {
        octal_escape(c as u32 as int)
    } else {
        octal_escape(0xc2) + octal_escape(c as u32 as int)
    }
}

/// A text as a listing shows it.
pub open spec fn escaped(s: Seq<char>) -> Seq<char>
    decreases s.len(),
{
    if s.len() == 0 {
        seq![]
    } else {
        escaped(s.drop_last()) + shown_char(s.last())
    }
}

fn push_octal(out: &mut Vec<char>, b: u8)
    ensures
        final(out)@ == old(out)@ + octal_escape(b as int),
{
    out.push('\\');
    out.push((48 + b / 64) as char);
    out.push((48 + b / 8 % 8) as char);
    out.push((48 + b % 8) as char);
    assert(out@ =~= old(out)@ + octal_escape(b as int));
}

fn escaped_chars(s: &[char]) -> (r: Vec<char>)
    ensures
        r@ == escaped(s@),
{
    let mut out: Vec<char> = Vec::new();
    assert(s@.take(0) =~= seq![]);
    for i in 0..s.len()
        invariant
            out@ == escaped(s@.take(i as int)),
    {
        let c: char = s[i];
        let n: u32 = c as u32;
        let ghost before = out@;
        assert(s@.take(i + 1).drop_last() =~= s@.take(i as int));
        if n < 0x20 || n == 0x7f {
            push_octal(&mut out, n as u8);
        } else if 0x7f < n && n < 0xa0 {
            push_octal(&mut out, 0xc2);
            push_octal(&mut out, n as u8);
            assert(out@ =~= before + shown_char(c));
        } else {
            out.push(c);
            assert(out@ =~= before + shown_char(c));
        }
    }
    assert(s@.take(s@.len() as int) =~= s@);
    out
}

/// A name as a listing shows it, with every control character written in octal.
pub fn escape_name(name: &str) -> (r: String)
    ensures
        r@ == escaped(name@),
{
    let chars = to_chars(name);
    from_chars(&escaped_chars(&chars))
}

/// The letter that stands for a type of entry in front of the permissions.
pub open spec fn type_letter(flag: u8) -> char {
    if flag == 53 {
        'd'
    } else if flag == 50 {
        'l'
    } else if flag == 49 {
        'h'
    } else if flag == 51 {
        'c'
    } else if flag == 52 {
        'b'
    } else if flag == 54 {
        'p'
    } else {
        '-'
    }
}

/// The letter of a permission, or a dash.
pub open spec fn permission_letter(mode: u32, bit: u32, letter: char) -> char {
    if mode & bit != 0 {
        letter
    } else {
        '-'
    }
}

/// The letter of a permission to execute, which also shows a special bit: in
/// lower case where the permission is granted, else in upper case.
pub open spec fn execute_letter(
    mode: u32,
    bit: u32,
    special: u32,
    lower: char,
    upper: char,
) -> char {
    if mode & special != 0 {
        if mode & bit != 0 {
            lower
        } else {
            upper
        }
    } else {
        permission_letter(mode, bit, 'x')
    }
}

/// Type and permissions, as in `-rw-r--r--`.
pub open spec fn permissions(flag: u8, mode: u32) -> Seq<char> {
    seq![
        type_letter(flag),
        permission_letter(mode, 0o400, 'r'),
        permission_letter(mode, 0o200, 'w'),
        execute_letter(mode, 0o100, 0o4000, 's', 'S'),
        permission_letter(mode, 0o040, 'r'),
        permission_letter(mode, 0o020, 'w'),
        execute_letter(mode, 0o010, 0o2000, 's', 'S'),
        permission_letter(mode, 0o004, 'r'),
        permission_letter(mode, 0o002, 'w'),
        execute_letter(mode, 0o001, 0o1000, 't', 'T'),
    ]
}

fn permission_char(mode: u32, bit: u32, letter: char) -> (r: char)
    ensures
        r == permission_letter(mode, bit, letter),
{
    if mode & bit != 0 {
        letter
    } else {
        '-'
    }
}

fn execute_char(mode: u32, bit: u32, special: u32, lower: char, upper: char) -> (r: char)
    ensures
        r == execute_letter(mode, bit, special, lower, upper),
{
    if mode & special != 0 {
        if mode & bit != 0 {
            lower
        } else {
            upper
        }
    } else {
        permission_char(mode, bit, 'x')
    }
}

fn type_char(flag: u8) -> (r: char)
    ensures
        r == type_letter(flag),
{
    match flag {
        53 => 'd',
        50 => 'l',
        49 => 'h',
        51 => 'c',
        52 => 'b',
        54 => 'p',
        _ => '-',
    }
}

/// Type and permissions, as in `-rw-r--r--`.
pub fn permission_text(flag: u8, mode: u32) -> (r: Vec<char>)
    ensures
        r@ == permissions(flag, mode),
{
    let mut v: Vec<char> = Vec::new();
    v.push(type_char(flag));
    v.push(permission_char(mode, 0o400, 'r'));
    v.push(permission_char(mode, 0o200, 'w'));
    v.push(execute_char(mode, 0o100, 0o4000, 's', 'S'));
    v.push(permission_char(mode, 0o040, 'r'));
    v.push(permission_char(mode, 0o020, 'w'));
    v.push(execute_char(mode, 0o010, 0o2000, 's', 'S'));
    v.push(permission_char(mode, 0o004, 'r'));
    v.push(permission_char(mode, 0o002, 'w'));
    v.push(execute_char(mode, 0o001, 0o1000, 't', 'T'));
    assert(v@ =~= permissions(flag, mode));
    v
}

/// A value, or zero where there is none.
pub open spec fn or_zero(v: Option<int>) -> int {
    match v {
        Some(n) => n,
        None => 0,
    }
}

/// A name, or a number where there is none.
pub open spec fn name_or_number(name: Option<Seq<char>>, id: int) -> Seq<char> {
    match name {
        Some(n) => if n.len() > 0 {
            escaped(n)
        } else {
            number::decimal(id)
        },
        None => number::decimal(id),
    }
}

/// The owner of a member as `user/group`, by name or by number.
pub open spec fn owner_text(block: Seq<u8>, numeric: bool) -> Seq<char> {
    let uid = or_zero(header::number_value(block.subrange(108, 116)));
    let gid = or_zero(header::number_value(block.subrange(116, 124)));
    if numeric {
        number::decimal(uid) + seq!['/'] + number::decimal(gid)
    } else {
        name_or_number(header::name_at(block, 265), uid) + seq!['/'] + name_or_number(
            header::name_at(block, 297),
            gid,
        )
    }
}

/// A text padded on the right with spaces to a width.
pub open spec fn space_padded(s: Seq<char>, width: int) -> Seq<char>
    decreases width - s.len(),
{
    if s.len() >= width {
        s
    } else {
        space_padded(s.push(' '), width)
    }
}

/// A number of 64 bits read as a signed one.
pub open spec fn as_signed(n: int) -> int {
    if n < 0x8000_0000_0000_0000 {
        n
    } else {
        n - 0x1_0000_0000_0000_0000
    }
}

/// The target of a link as text.
pub open spec fn link_text(block: Seq<u8>) -> Seq<char> {
    match header::header_link(block) {
        Some(b) => bytes::text_of(b),
        None => seq![],
    }
}

/// The name of a member, with the target of a link behind it.
pub open spec fn shown_name(block: Seq<u8>, name: Seq<char>) -> Seq<char> {
    let flag = header::type_flag(block[156]);
    if flag == 50 {
        escaped(name) + " -> "@ + escaped(link_text(block))
    } else if flag == 49 {
        escaped(name) + " link to "@ + escaped(link_text(block))
    } else {
        escaped(name)
    }
}

/// The line of a member in a verbose listing: type and permissions, owner,
/// size, modification time and name.
pub open spec fn verbose_line(block: Seq<u8>, name: Seq<char>, numeric: bool) -> Seq<char> {
    let mode = or_zero(header::octal_value(block.subrange(100, 108))) as u32;
    let size = or_zero(header::header_size(block));
    let time = or_zero(header::number_value(block.subrange(136, 148)));
    permissions(header::type_flag(block[156]), mode) + seq![' '] + space_padded(
        owner_text(block, numeric),
        17,
    ) + seq![' '] + number::decimal(size) + seq![' '] + mtime::time_text(as_signed(time))
        + seq![' '] + shown_name(block, name)
}

fn name_or_id(name: Option<String>, id: u64) -> (r: Vec<char>)
    ensures
        r@ == name_or_number(text::opt_view(name), id as int),
{
    match name {
        Some(n) => {
            let chars = to_chars(n.as_str());
            if chars.len() > 0 {
                escaped_chars(&chars)
            } else {
                decimal_chars(id)
            }
        },
        None => decimal_chars(id),
    }
}

fn id_or_zero(id: Option<u64>) -> (r: u64)
    ensures
        id matches Some(n) ==> r == n,
        id is None ==> r == 0,
{
    match id {
        Some(n) => n,
        None => 0,
    }
}

fn owner_chars(header: &EntryHeader, numeric: bool) -> (r: Vec<char>)
    ensures
        r@ == owner_text(header@, numeric),
{
    let uid = id_or_zero(header.uid());
    let gid = id_or_zero(header.gid());
    let mut user = if numeric {
        decimal_chars(uid)
    } else {
        name_or_id(header.username(), uid)
    };
    let mut group = if numeric {
        decimal_chars(gid)
    } else {
        name_or_id(header.groupname(), gid)
    };
    user.push('/');
    user.append(&mut group);
    assert(user@ =~= owner_text(header@, numeric));
    user
}

fn pad_spaces(s: &mut Vec<char>, width: usize)
    ensures
        final(s)@ == space_padded(old(s)@, width as int),
{
    while s.len() < width
        invariant
            space_padded(s@, width as int) == space_padded(old(s)@, width as int),
        decreases width - s.len(),
    {
        s.push(' ');
    }
}

fn to_signed(n: u64) -> (r: i64)
    ensures
        r == as_signed(n as int),
{
    if n < 0x8000_0000_0000_0000 {
        n as i64
    } else {
        -((0xffff_ffff_ffff_ffff - n) as i64) - 1
    }
}

fn link_string(header: &EntryHeader) -> (r: String)
    ensures
        r@ == link_text(header@),
{
    match header.link_name() {
        Some(b) => lossy_text(&b),
        None => String::new(),
    }
}

fn name_with_link(header: &EntryHeader, name: &str) -> (r: String)
    ensures
        r@ == shown_name(header@, name@),
{
    let flag: u8 = header.entry_type();
    let shown = escape_name(name);
    if flag == 50 {
        let link = escape_name(link_string(header).as_str());
        let s = concat(shown.as_str(), " -> ");
        concat(s.as_str(), link.as_str())
    } else if flag == 49 {
        let link = escape_name(link_string(header).as_str());
        let s = concat(shown.as_str(), " link to ");
        concat(s.as_str(), link.as_str())
    } else {
        shown
    }
}

/// The line of a member in a verbose listing:
/// `-rw-r--r-- user/group       size yyyy-mm-dd hh:mm name`.
pub fn format_verbose_entry(header: &EntryHeader, name: &str, args: &Args) -> (r: String)
    ensures
        r@ == verbose_line(header@, name@, args@.switches.numeric_owner),
{
    let numeric = args.switches.numeric_owner;
    let mode: u32 = match header.mode() {
        Some(m) => m,
        None => 0,
    };
    let mut line = permission_text(header.entry_type(), mode);
    line.push(' ');
    let mut owner = owner_chars(header, numeric);
    pad_spaces(&mut owner, 17);
    line.append(&mut owner);
    line.push(' ');
    let mut size = decimal_chars(id_or_zero(header.size()));
    line.append(&mut size);
    line.push(' ');
    let time = format_mtime(to_signed(id_or_zero(header.mtime())));
    let mut time_chars = to_chars(time.as_str());
    line.append(&mut time_chars);
    line.push(' ');
    let shown = name_with_link(header, name);
    let mut shown_chars = to_chars(shown.as_str());
    line.append(&mut shown_chars);
    assert(line@ =~= verbose_line(header@, name@, numeric));
    from_chars(&line)
}

/// The line of a volume label in a listing.
pub open spec fn label_line(label: Seq<char>, verbose: bool) -> Seq<char> {
    if verbose {
        "V--------- 0/0             0 1970-01-01 00:00 "@ + escaped(label) + "--Volume Header--"@
    } else {
        escaped(label)
    }
}

pub fn format_label(label: &str, verbose: bool) -> (r: String)
    ensures
        r@ == label_line(label@, verbose),
{
    let shown = escape_name(label);
    if verbose {
        let s = concat("V--------- 0/0             0 1970-01-01 00:00 ", shown.as_str());
        concat(s.as_str(), "--Volume Header--")
    } else {
        shown
    }
}

proof fn lemma_escaped(s: Seq<char>)
    ensures
        printable(escaped(s)),
        printable(s) ==> escaped(s) == s,
    decreases s.len(),
{
    if s.len() > 0 {
        lemma_escaped(s.drop_last());
        let front = escaped(s.drop_last());
        let back = shown_char(s.last());
        assert forall|i: int| 0 <= i < back.len() implies !is_control(#[trigger] back[i]) by {}
        assert forall|i: int| 0 <= i < escaped(s).len() implies !is_control(
            #[trigger] escaped(s)[i],
        ) by {
            if i < front.len() {
                assert(escaped(s)[i] == front[i]);
            } else {
                assert(escaped(s)[i] == back[i - front.len()]);
            }
        }
        if printable(s) {
            assert forall|i: int| 0 <= i < s.len() - 1 implies !is_control(
                #[trigger] s.drop_last()[i],
            ) by {
                assert(s.drop_last()[i] == s[i]);
            }
            assert(!is_control(s[s.len() - 1]));
            assert(escaped(s) =~= s);
        }
    } else {
        assert(escaped(s) =~= s);
    }
}

/// A listing shows no control character of a name, and a name without control
/// characters as it is.
pub proof fn law_names_shown_printable(name: Seq<char>)
    ensures
        printable(escaped(name)),
        printable(name) ==> escaped(name) == name,
{
    lemma_escaped(name);
}

proof fn lemma_printable_concat(a: Seq<char>, b: Seq<char>)
    requires
        printable(a),
        printable(b),
    ensures
        printable(a + b),
{
    assert forall|i: int| 0 <= i < (a + b).len() implies !is_control(#[trigger] (a + b)[i]) by {
        if i < a.len() {
            assert((a + b)[i] == a[i]);
        } else {
            assert((a + b)[i] == b[i - a.len()]);
        }
    }
}

proof fn lemma_digits_printable(s: Seq<char>)
    requires
        number::all_digits(s, 10),
    ensures
        printable(s),
{
    assert forall|i: int| 0 <= i < s.len() implies !is_control(#[trigger] s[i]) by {
        assert(number::is_digit(s[i], 10));
    }
}

proof fn lemma_padded_printable(n: int, width: int)
    ensures
        printable(number::padded_decimal(n, width)),
{
    let k = if n < 0 {
        -n
    } else {
        n
    };
    let w = if n < 0 {
        width - 1
    } else {
        width
    };
    number::lemma_decimal(k);
    number::lemma_zero_padded(number::decimal(k), w);
    lemma_digits_printable(number::zero_padded(number::decimal(k), w));
    lemma_printable_concat(seq!['-'], number::zero_padded(number::decimal(k), w));
}

proof fn lemma_time_printable(secs: int)
    ensures
        printable(mtime::time_text(secs)),
{
    let (y, m, d) = calendar::date_of(secs / 86400);
    let s = secs % 86400;
    let t1 = number::padded_decimal(y, 4);
    lemma_padded_printable(y, 4);
    lemma_padded_printable(m, 2);
    lemma_padded_printable(d, 2);
    lemma_padded_printable(s / 3600, 2);
    lemma_padded_printable((s / 60) % 60, 2);
    let t2 = t1 + seq!['-'];
    lemma_printable_concat(t1, seq!['-']);
    let t3 = t2 + number::padded_decimal(m, 2);
    lemma_printable_concat(t2, number::padded_decimal(m, 2));
    let t4 = t3 + seq!['-'];
    lemma_printable_concat(t3, seq!['-']);
    let t5 = t4 + number::padded_decimal(d, 2);
    lemma_printable_concat(t4, number::padded_decimal(d, 2));
    let t6 = t5 + seq![' '];
    lemma_printable_concat(t5, seq![' ']);
    let t7 = t6 + number::padded_decimal(s / 3600, 2);
    lemma_printable_concat(t6, number::padded_decimal(s / 3600, 2));
    let t8 = t7 + seq![':'];
    lemma_printable_concat(t7, seq![':']);
    lemma_printable_concat(t8, number::padded_decimal((s / 60) % 60, 2));
}

proof fn lemma_padding_printable(s: Seq<char>, width: int)
    requires
        printable(s),
    ensures
        printable(space_padded(s, width)),
    decreases width - s.len(),
{
    if s.len() < width {
        assert(s.push(' ') =~= s + seq![' ']);
        lemma_printable_concat(s, seq![' ']);
        lemma_padding_printable(s.push(' '), width);
    }
}

proof fn lemma_name_or_number_printable(name: Option<Seq<char>>, id: int)
    requires
        id >= 0,
    ensures
        printable(name_or_number(name, id)),
{
    number::lemma_decimal(id);
    lemma_digits_printable(number::decimal(id));
    match name {
        Some(n) => lemma_escaped(n),
        None => {},
    }
}

/// No line of a verbose listing holds a control character, whatever names the
/// member, its owner and its link bear.
pub proof fn law_listing_printable(header: EntryHeader, name: Seq<char>, numeric: bool)
    ensures
        printable(verbose_line(header@, name, numeric)),
{
    let block = header@;
    let mode = or_zero(header::octal_value(block.subrange(100, 108))) as u32;
    let size = or_zero(header::header_size(block));
    let time = or_zero(header::number_value(block.subrange(136, 148)));
    let uid = or_zero(header::number_value(block.subrange(108, 116)));
    let gid = or_zero(header::number_value(block.subrange(116, 124)));
    header::lemma_number_value_range(block.subrange(108, 116));
    header::lemma_number_value_range(block.subrange(116, 124));
    header::lemma_number_value_range(block.subrange(124, 136));
    header::lemma_number_value_range(block.subrange(483, 495));
    number::lemma_decimal(size);
    lemma_digits_printable(number::decimal(size));
    lemma_name_or_number_printable(header::name_at(block, 265), uid);
    lemma_name_or_number_printable(header::name_at(block, 297), gid);
    lemma_name_or_number_printable(None, uid);
    lemma_name_or_number_printable(None, gid);
    let owner = owner_text(block, numeric);
    assert(printable(owner)) by {
        let (u, g) = if numeric {
            (number::decimal(uid), number::decimal(gid))
        } else {
            (
                name_or_number(header::name_at(block, 265), uid),
                name_or_number(header::name_at(block, 297), gid),
            )
        };
        lemma_printable_concat(u, seq!['/']);
        lemma_printable_concat(u + seq!['/'], g);
    }
    lemma_padding_printable(owner, 17);
    lemma_time_printable(as_signed(time));
    lemma_escaped(name);
    lemma_escaped(link_text(block));
    let shown = shown_name(block, name);
    assert(printable(shown)) by {
        reveal_strlit(" -> ");
        reveal_strlit(" link to ");
        let n = escaped(name);
        lemma_printable_concat(n, " -> "@);
        lemma_printable_concat(n, " link to "@);
        lemma_printable_concat(n + " -> "@, escaped(link_text(block)));
        lemma_printable_concat(n + " link to "@, escaped(link_text(block)));
    }
    let l1 = permissions(header::type_flag(block[156]), mode);
    assert(printable(l1));
    let l2 = l1 + seq![' '];
    lemma_printable_concat(l1, seq![' ']);
    let l3 = l2 + space_padded(owner, 17);
    lemma_printable_concat(l2, space_padded(owner, 17));
    let l4 = l3 + seq![' '];
    lemma_printable_concat(l3, seq![' ']);
    let l5 = l4 + number::decimal(size);
    lemma_printable_concat(l4, number::decimal(size));
    let l6 = l5 + seq![' '];
    lemma_printable_concat(l5, seq![' ']);
    let l7 = l6 + mtime::time_text(as_signed(time));
    lemma_printable_concat(l6, mtime::time_text(as_signed(time)));
    let l8 = l7 + seq![' '];
    lemma_printable_concat(l7, seq![' ']);
    lemma_printable_concat(l8, shown);
}

proof fn lemma_space_padded(s: Seq<char>, width: int)
    ensures
        space_padded(s, width).len() == (if s.len() >= width { s.len() as int } else { width }),
        s.is_prefix_of(space_padded(s, width)),
    decreases width - s.len(),
{
    if s.len() < width {
        lemma_space_padded(s.push(' '), width);
        let t = space_padded(s, width);
        assert(s =~= t.subrange(0, s.len() as int)) by {
            assert forall|i: int| 0 <= i < s.len() implies s[i] == t[i] by {
                assert(s.push(' ')[i] == t.subrange(0, s.len() as int + 1)[i]);
            }
        }
    } else {
        assert(s =~= s.subrange(0, s.len() as int));
    }
}

/// Type and permissions take ten columns, and the owner follows after a space
/// in at least seventeen more.
pub proof fn law_listing_columns(block: Seq<u8>, name: Seq<char>, numeric: bool)
    ensures
        verbose_line(block, name, numeric).len() >= 29,
        verbose_line(block, name, numeric).take(10) == permissions(
            header::type_flag(block[156]),
            or_zero(header::octal_value(block.subrange(100, 108))) as u32,
        ),
        verbose_line(block, name, numeric)[10] == ' ',
        owner_text(block, numeric).is_prefix_of(verbose_line(block, name, numeric).skip(11)),
        shown_name(block, name).is_suffix_of(verbose_line(block, name, numeric)),
{
    let line = verbose_line(block, name, numeric);
    let owner = owner_text(block, numeric);
    let padded = space_padded(owner, 17);
    let shown = shown_name(block, name);
    lemma_space_padded(owner, 17);
    let mode = or_zero(header::octal_value(block.subrange(100, 108))) as u32;
    assert(line.take(10) =~= permissions(header::type_flag(block[156]), mode));
    assert(owner =~= line.skip(11).subrange(0, owner.len() as int)) by {
        assert forall|i: int| 0 <= i < owner.len() implies owner[i] == line.skip(11)[i] by {
            assert(padded.subrange(0, owner.len() as int)[i] == owner[i]);
            assert(line[11 + i] == padded[i]);
        }
    }
    assert(shown =~= line.subrange(line.len() - shown.len(), line.len() as int));
}

/// A listing shows names character by character: a control character of ASCII as
/// a backslash and the three octal digits of its code, one beyond ASCII as those
/// of its two bytes, and every other character as it is.
pub proof fn law_names_shown(a: Seq<char>, b: Seq<char>, c: char)
    ensures
        escaped(seq![]) == Seq::<char>::empty(),
        escaped(a + b) == escaped(a) + escaped(b),
        ' ' <= c && c != '\u{7f}' && !('\u{80}' <= c < '\u{a0}') ==> escaped(seq![c]) == seq![c],
        c < ' ' || c == '\u{7f}' ==> {
            let s = escaped(seq![c]);
            &&& s.len() == 4
            &&& s[0] == '\\'
            &&& number::all_digits(s.skip(1), 8)
            &&& number::digits_value(s.skip(1), 8) == c as u32
        },
        '\u{80}' <= c < '\u{a0}' ==> {
            let s = escaped(seq![c]);
            &&& s.len() == 8
            &&& s[0] == '\\' && s[4] == '\\'
            &&& number::digits_value(s.subrange(1, 4), 8) == 0xc2
            &&& number::digits_value(s.subrange(5, 8), 8) == c as u32
        },
    decreases b.len(),
{
    assert(seq![c].drop_last() =~= seq![]);
    reveal_with_fuel(escaped, 2);
    assert(escaped(seq![c]) =~= shown_char(c));
    lemma_octal_escape(c as u32 as int);
    lemma_octal_escape(0xc2);
    let s = escaped(seq![c]);
    assert(s.len() == 4 ==> s.skip(1) =~= s.subrange(1, 4));
    if is_control(c) && (c as u32) < 0x80 {
        assert(s.subrange(1, 4) =~= octal_escape(c as u32 as int).skip(1));
    }
    if is_control(c) && (c as u32) >= 0x80 {
        assert(s.subrange(1, 4) =~= octal_escape(0xc2).skip(1));
        assert(s.subrange(5, 8) =~= octal_escape(c as u32 as int).skip(1));
    }
    if b.len() == 0 {
        assert(a + b =~= a);
        assert(escaped(a) + escaped(b) =~= escaped(a));
    } else {
        assert((a + b).drop_last() =~= a + b.drop_last());
        law_names_shown(a, b.drop_last(), c);
        assert(escaped(a) + escaped(b.drop_last()) + shown_char(b.last()) =~= escaped(a) + (escaped(
            b.drop_last(),
        ) + shown_char(b.last())));
    }
}

proof fn lemma_octal_escape(b: int)
    ensures
        0 <= b < 256 ==> number::all_digits(octal_escape(b).skip(1), 8),
        0 <= b < 256 ==> number::digits_value(octal_escape(b).skip(1), 8) == b,
{
    if 0 <= b < 256 {
        let s = octal_escape(b).skip(1);
        assert(s =~= seq![
            number::digit_char(b / 64),
            number::digit_char(b / 8 % 8),
            number::digit_char(b % 8),
        ]);
        reveal_with_fuel(number::digits_value, 4);
        assert(s.drop_last() =~= seq![
            number::digit_char(b / 64),
            number::digit_char(b / 8 % 8),
        ]);
        assert(s.drop_last().drop_last() =~= seq![number::digit_char(b / 64)]);
        assert(s.drop_last().drop_last().drop_last() =~= seq![]);
    }
}

/// The ten letters in front of a verbose line: what the entry is, and for its
/// owner, its group and others whether they may read, write and execute it. A
/// special bit changes the letter for executing, to a capital where executing is
/// not allowed.
pub proof fn law_permission_letters(block: Seq<u8>, mode: u32)
    ensures
        ({
            let flag = block[156];
            let p = permissions(header::type_flag(flag), mode);
            &&& p.len() == 10
            &&& p[0] == 'd' <==> flag == 53
            &&& p[0] == 'l' <==> flag == 50
            &&& p[0] == 'h' <==> flag == 49
            &&& p[0] == 'c' <==> flag == 51
            &&& p[0] == 'b' <==> flag == 52
            &&& p[0] == 'p' <==> flag == 54
            &&& p[0] == '-' <==> flag != 53 && !(49 <= flag <= 52) && flag != 54
            &&& p[1] == (if mode & 0o400 == 0 { '-' } else { 'r' })
            &&& p[2] == (if mode & 0o200 == 0 { '-' } else { 'w' })
            &&& p[4] == (if mode & 0o040 == 0 { '-' } else { 'r' })
            &&& p[5] == (if mode & 0o020 == 0 { '-' } else { 'w' })
            &&& p[7] == (if mode & 0o004 == 0 { '-' } else { 'r' })
            &&& p[8] == (if mode & 0o002 == 0 { '-' } else { 'w' })
            &&& mode & 0o4000 == 0 ==> p[3] == (if mode & 0o100 == 0 { '-' } else { 'x' })
            &&& mode & 0o2000 == 0 ==> p[6] == (if mode & 0o010 == 0 { '-' } else { 'x' })
            &&& mode & 0o1000 == 0 ==> p[9] == (if mode & 0o001 == 0 { '-' } else { 'x' })
            &&& mode & 0o4000 != 0 ==> p[3] == (if mode & 0o100 == 0 { 'S' } else { 's' })
            &&& mode & 0o2000 != 0 ==> p[6] == (if mode & 0o010 == 0 { 'S' } else { 's' })
            &&& mode & 0o1000 != 0 ==> p[9] == (if mode & 0o001 == 0 { 'T' } else { 't' })
        }),
{
}

/// The owner column is the numbers of user and group, or where names are wanted
/// and there is one, the name in place of the number, with a slash between them.
pub proof fn law_owner_column(header: EntryHeader)
    ensures
        ({
            let block = header@;
            let uid = match header::number_value(block.subrange(108, 116)) {
                Some(n) => n,
                None => 0,
            };
            let gid = match header::number_value(block.subrange(116, 124)) {
                Some(n) => n,
                None => 0,
            };
            let numbers = owner_text(block, true);
            let k = text::first_index(numbers, '/');
            &&& number::unsigned(numbers.take(k), 10, uid) == Some(uid)
            &&& number::unsigned(numbers.skip(k + 1), 10, gid) == Some(gid)
            &&& k < numbers.len()
            &&& ({
                let user = match header::name_at(block, 265) {
                    Some(u) => if u.len() > 0 {
                        escaped(u)
                    } else {
                        numbers.take(k)
                    },
                    None => numbers.take(k),
                };
                let group = match header::name_at(block, 297) {
                    Some(g) => if g.len() > 0 {
                        escaped(g)
                    } else {
                        numbers.skip(k + 1)
                    },
                    None => numbers.skip(k + 1),
                };
                owner_text(block, false) == user.push('/') + group
            })
        }),
{
    let block = header@;
    let uid = or_zero(header::number_value(block.subrange(108, 116)));
    let gid = or_zero(header::number_value(block.subrange(116, 124)));
    header::lemma_number_value_range(block.subrange(108, 116));
    header::lemma_number_value_range(block.subrange(116, 124));
    let (u, g) = (number::decimal(uid), number::decimal(gid));
    number::lemma_decimal(uid);
    number::lemma_decimal(gid);
    assert(number::is_digit(u[0], 10) && number::is_digit(g[0], 10));
    let numbers = owner_text(block, true);
    assert(numbers =~= u + seq!['/'] + g);
    assert forall|i: int| 0 <= i < u.len() implies numbers[i] != '/' by {
        assert(number::is_digit(u[i], 10));
        assert(numbers[i] == u[i]);
    }
    text::lemma_first_index_is(numbers, '/', u.len() as int);
    assert(numbers.take(u.len() as int) =~= u);
    assert(numbers.skip(u.len() as int + 1) =~= g);
    let user = name_or_number(header::name_at(block, 265), uid);
    let group = name_or_number(header::name_at(block, 297), gid);
    assert(user + seq!['/'] + group =~= user.push('/') + group);
}

/// The name in a verbose line is that of the member, and behind it stands the
/// target of a link.
pub proof fn law_name_column(block: Seq<u8>, name: Seq<char>)
    ensures
        block[156] != 50 && block[156] != 49 ==> shown_name(block, name) == escaped(name),
        block[156] == 50 && block[157] != 0 ==> shown_name(block, name) == escaped(name) + " -> "@
            + escaped(bytes::text_of(bytes::until_nul(block.subrange(157, 257)))),
        block[156] == 49 && block[157] != 0 ==> shown_name(block, name) == escaped(name)
            + " link to "@ + escaped(bytes::text_of(bytes::until_nul(block.subrange(157, 257)))),
        block[156] == 50 && block[157] == 0 ==> shown_name(block, name) == escaped(name) + " -> "@,
        block[156] == 49 && block[157] == 0 ==> shown_name(block, name) == escaped(name)
            + " link to "@,
{
    if block[157] == 0 {
        assert(escaped(link_text(block)) =~= seq![]);
        assert(escaped(name) + " -> "@ + Seq::<char>::empty() =~= escaped(name) + " -> "@);
        assert(escaped(name) + " link to "@ + Seq::<char>::empty() =~= escaped(name)
            + " link to "@);
    }
}

/// Behind the owner column, which spaces fill up to seventeen, a verbose line
/// holds a space, the decimal digits of the size in the header, a space, the time
/// in the header to the minute, a space, and the name.
pub proof fn law_size_and_time_columns(header: EntryHeader, name: Seq<char>, numeric: bool)
    ensures
        ({
            let block = header@;
            let line = verbose_line(block, name, numeric);
            let owner = owner_text(block, numeric);
            let w = if owner.len() < 17 {
                17
            } else {
                owner.len() as int
            };
            let rest = line.skip(11 + w);
            let k = text::first_index(rest.skip(1), ' ');
            let size = match header::header_size(block) {
                Some(n) => n,
                None => 0,
            };
            let t = match header::number_value(block.subrange(136, 148)) {
                Some(n) => n,
                None => 0,
            };
            let secs = if t < 0x8000_0000_0000_0000 {
                t
            } else {
                t - 0x1_0000_0000_0000_0000
            };
            &&& line.len() > 11 + w
            &&& forall|i: int| 11 + owner.len() <= i < 11 + w ==> line[i] == ' '
            &&& rest[0] == ' '
            &&& number::unsigned(rest.subrange(1, 1 + k), 10, size) == Some(size)
            &&& k > 1 ==> rest[1] != '0'
            &&& rest.skip(1 + k) == seq![' '] + mtime::time_text(secs) + seq![' '] + shown_name(
                block,
                name,
            )
            &&& 0 <= calendar::date_of(secs / 86400).0 <= 9999 ==> {
                &&& mtime::time_text(secs).len() == 16
                &&& mtime::mtime_argument(mtime::time_text(secs)) == Some(secs - secs % 60)
            }
        }),
{
    let block = header@;
    let line = verbose_line(block, name, numeric);
    let owner = owner_text(block, numeric);
    let padded = space_padded(owner, 17);
    let w = padded.len() as int;
    let size = or_zero(header::header_size(block));
    let t = or_zero(header::number_value(block.subrange(136, 148)));
    let secs = as_signed(t);
    header::lemma_number_value_range(block.subrange(124, 136));
    header::lemma_number_value_range(block.subrange(483, 495));
    let digits = number::decimal(size);
    number::law_decimal(size, 0);
    lemma_space_padded(owner, 17);
    lemma_padding(owner, 17);
    let tail = seq![' '] + mtime::time_text(secs) + seq![' '] + shown_name(block, name);
    let rest = line.skip(11 + w);
    assert(rest =~= seq![' '] + digits + tail);
    assert(number::is_digit(digits[0], 10));
    assert forall|i: int| 0 <= i < digits.len() implies rest.skip(1)[i] != ' ' by {
        assert(number::is_digit(digits[i], 10));
        assert(rest.skip(1)[i] == digits[i]);
    }
    assert(rest.skip(1)[digits.len() as int] == tail[0]);
    text::lemma_first_index_is(rest.skip(1), ' ', digits.len() as int);
    assert(rest.subrange(1, 1 + digits.len() as int) =~= digits);
    assert(rest.skip(1 + digits.len() as int) =~= tail);
    assert(rest[1] == digits[0]);
    assert forall|i: int| 11 + owner.len() <= i < 11 + w implies line[i] == ' ' by {
        assert(line[i] == padded[i - 11]);
    }
    if 0 <= calendar::date_of(secs / 86400).0 <= 9999 {
        mtime::law_mtime_round_trip(secs);
        mtime::lemma_time_length(secs);
    }
}

proof fn lemma_padding(s: Seq<char>, width: int)
    ensures
        forall|i: int| s.len() <= i < space_padded(s, width).len() ==> space_padded(s, width)[i]
            == ' ',
    decreases width - s.len(),
{
    if s.len() < width {
        let t = s.push(' ');
        lemma_padding(t, width);
        lemma_space_padded(t, width);
        let r = space_padded(s, width);
        assert(t[s.len() as int] == r.subrange(0, t.len() as int)[s.len() as int]);
    }
}

/// A label is listed by its name, and in a verbose listing is marked as one.
pub proof fn law_label_column(label: Seq<char>)
    ensures
        label_line(label, false) == escaped(label),
        (escaped(label) + "--Volume Header--"@).is_suffix_of(label_line(label, true)),
        label_line(label, true).len() > 0 && label_line(label, true)[0] == 'V',
{
    reveal_strlit("V--------- 0/0             0 1970-01-01 00:00 ");
    let line = label_line(label, true);
    let end = escaped(label) + "--Volume Header--"@;
    assert(end =~= line.subrange(line.len() - end.len(), line.len() as int));
}

} // verus!
