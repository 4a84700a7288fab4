//! Archive headers: blocks of 512 bytes that hold the name, the permissions,
//! the owner, the size and the time of a member as text and numbers at fixed
//! positions.

use crate::bytes;
use crate::number;
use crate::text;
use vstd::prelude::*;
use vstd::utf8::{decode_utf8, encode_utf8, valid_utf8};

verus! {

/// The header of an archive member.
#[derive(Clone, Copy)]
pub struct EntryHeader {
    pub block: [u8; 512],
}

impl View for EntryHeader {
    type V = Seq<u8>;

    open spec fn view(&self) -> Seq<u8> {
        self.block@
    }
}

/// The low `k` octal digits of `n`.
pub open spec fn octal_digits(n: int, k: int) -> Seq<u8>
    decreases k,
{
    if k <= 0 {
        seq![]
    } else {
        octal_digits(n / 8, k - 1).push((48 + n % 8) as u8)
    }
}

/// A number as a field of octal digits closed by a zero byte.
pub open spec fn octal_field(n: int, len: int) -> Seq<u8> {
    octal_digits(n, len - 1).push(0)
}

/// The low `k` bytes of `n`, the highest first.
pub open spec fn big_endian(n: int, k: int) -> Seq<u8>
    decreases k,
{
    if k <= 0 {
        seq![]
    } else {
        big_endian(n / 256, k - 1).push((n % 256) as u8)
    }
}

/// A number as a binary field: its eight bytes, behind zeros, with the highest
/// bit of the field set.
pub open spec fn binary_field(n: int, len: int) -> Seq<u8> {
    let f = bytes::zeros((len - 8) as nat) + big_endian(n, 8);
    f.update(
        0,
        (if f[0] < 128 {
            f[0] + 128
        } else {
            f[0] as int
        }) as u8,
    )
}

/// A number as a field: octal where that is wide enough, else binary.
pub open spec fn number_field(n: int, len: int) -> Seq<u8> {
    if n >= 8589934592 || n >= 2097152 && len == 8 {
        binary_field(n, len)
    } else {
        octal_field(n, len)
    }
}

/// The number in a field of octal digits: what stands before the first zero
/// byte, without the white space around it.
pub open spec fn octal_value(field: Seq<u8>) -> Option<int> {
    let t = bytes::until_nul(field);
    if valid_utf8(t) {
        number::unsigned(text::trimmed(decode_utf8(t)), 8, u64::MAX as int)
    } else {
        None
    }
}

/// The number that bytes stand for, the highest first.
pub open spec fn big_endian_value(s: Seq<u8>) -> int
    decreases s.len(),
{
    if s.len() == 0 {
        0
    } else {
        big_endian_value(s.drop_last()) * 256 + s.last()
    }
}

/// The number in a field of eight or twelve bytes, octal or binary.
pub open spec fn number_value(field: Seq<u8>) -> Option<int> {
    if field[0] < 128 {
        octal_value(field)
    } else if field.len() == 8 {
        Some(big_endian_value(field.update(0, (field[0] - 128) as u8)))
    } else {
        Some(big_endian_value(field.skip(field.len() - 8)))
    }
}

/// The sum of the bytes of a block, the checksum field counted as spaces.
pub open spec fn checksum(block: Seq<u8>) -> int {
    byte_sum(
        bytes::put(block, 148, Seq::new(8, |i: int| 32u8)),
    )
}

pub open spec fn byte_sum(s: Seq<u8>) -> int
    decreases s.len(),
{
    if s.len() == 0 {
        0
    } else {
        byte_sum(s.drop_last()) + s.last()
    }
}

/// What stands where a header has the GNU format: `ustar`, two spaces and a
/// zero byte.
pub open spec fn gnu_magic() -> Seq<u8> {
    seq![117u8, 115, 116, 97, 114, 32, 32, 0]
}

/// What stands where a header has the POSIX format: `ustar`, a zero byte and
/// the version `00`.
pub open spec fn posix_magic() -> Seq<u8> {
    seq![117u8, 115, 116, 97, 114, 0, 48, 48]
}

pub open spec fn is_gnu(block: Seq<u8>) -> bool {
    block.subrange(257, 265) == gnu_magic()
}

/// Whether a header has room for the names of user and group.
pub open spec fn has_names(block: Seq<u8>) -> bool {
    is_gnu(block) || block.subrange(257, 265) == posix_magic()
}

/// A GNU header with nothing set but a modification time of zero.
pub open spec fn blank() -> Seq<u8> {
    bytes::put(bytes::put(bytes::zeros(512), 257, gnu_magic()), 136, number_field(0, 12))
}

/// The letter of an entry type; a zero byte means a regular file.
pub open spec fn type_flag(b: u8) -> u8 {
    if b == 0 {
        48
    } else {
        b
    }
}

/// A header with a name put into one of its fields of 32 bytes, if it has room
/// for names, the name fits and holds no zero byte.
pub open spec fn with_name(block: Seq<u8>, at: int, name: Seq<u8>) -> Seq<u8> {
    if !has_names(block) || name.len() > 32 || name.contains(0) {
        block
    } else if name.len() < 32 {
        bytes::put(block, at, name.push(0))
    } else {
        bytes::put(block, at, name)
    }
}

/// The name in one of the fields of 32 bytes, if the header has them and it is
/// UTF-8.
pub open spec fn name_at(block: Seq<u8>, at: int) -> Option<Seq<char>> {
    let name = bytes::until_nul(block.subrange(at, at + 32));
    if has_names(block) && valid_utf8(name) {
        Some(decode_utf8(name))
    } else {
        None
    }
}

pub open spec fn header_size(block: Seq<u8>) -> Option<int> {
    if type_flag(block[156]) != 83 {
        number_value(block.subrange(124, 136))
    } else if is_gnu(block) {
        number_value(block.subrange(483, 495))
    } else {
        None
    }
}

pub open spec fn header_link(block: Seq<u8>) -> Option<Seq<u8>> {
    if block[157] != 0 {
        Some(bytes::until_nul(block.subrange(157, 257)))
    } else {
        None
    }
}

impl EntryHeader {
    /// `tar::Header::new_gnu`: a blank GNU header.
    #[verifier::external_body]
    pub(crate) fn new_gnu() -> (r: EntryHeader)
        ensures
            r@ == blank(),
    {
        EntryHeader { block: *tar::Header::new_gnu().as_bytes() }
    }

    /// `tar::Header::set_size` writes the size field.
    #[verifier::external_body]
    pub(crate) fn set_size(&mut self, size: u64)
        ensures
            final(self)@ == bytes::put(old(self)@, 124, number_field(size as int, 12)),
    {
        let mut h = tar::Header::from_byte_slice(&self.block).clone();
        h.set_size(size);
        self.block = *h.as_bytes();
    }

    /// `tar::Header::set_mode` writes the low seven octal digits of the mode.
    #[verifier::external_body]
    pub(crate) fn set_mode(&mut self, mode: u32)
        ensures
            final(self)@ == bytes::put(old(self)@, 100, octal_field(mode as int, 8)),
    {
        let mut h = tar::Header::from_byte_slice(&self.block).clone();
        h.set_mode(mode);
        self.block = *h.as_bytes();
    }

    /// `tar::Header::set_uid` writes the user id field.
    #[verifier::external_body]
    pub(crate) fn set_uid(&mut self, uid: u64)
        ensures
            final(self)@ == bytes::put(old(self)@, 108, number_field(uid as int, 8)),
    {
        let mut h = tar::Header::from_byte_slice(&self.block).clone();
        h.set_uid(uid);
        self.block = *h.as_bytes();
    }

    /// `tar::Header::set_gid` writes the group id field.
    #[verifier::external_body]
    pub(crate) fn set_gid(&mut self, gid: u64)
        ensures
            final(self)@ == bytes::put(old(self)@, 116, number_field(gid as int, 8)),
    {
        let mut h = tar::Header::from_byte_slice(&self.block).clone();
        h.set_gid(gid);
        self.block = *h.as_bytes();
    }

    /// `tar::Header::set_mtime` writes the modification time field.
    #[verifier::external_body]
    pub(crate) fn set_mtime(&mut self, mtime: u64)
        ensures
            final(self)@ == bytes::put(old(self)@, 136, number_field(mtime as int, 12)),
    {
        let mut h = tar::Header::from_byte_slice(&self.block).clone();
        h.set_mtime(mtime);
        self.block = *h.as_bytes();
    }

    /// `tar::EntryType::new` and `tar::Header::set_entry_type` write the type
    /// letter, that of a regular file for a zero byte.
    #[verifier::external_body]
    pub(crate) fn set_entry_type(&mut self, flag: u8)
        ensures
            final(self)@ == old(self)@.update(156, type_flag(flag)),
    {
        let mut h = tar::Header::from_byte_slice(&self.block).clone();
        h.set_entry_type(tar::EntryType::new(flag));
        self.block = *h.as_bytes();
    }

    /// `tar::Header::set_username` writes the user name and a zero byte behind
    /// it where there is room; a header without room for names, a name of more
    /// than 32 bytes or one with a zero byte leaves the header as it is.
    #[verifier::external_body]
    pub(crate) fn set_username(&mut self, name: &str)
        ensures
            final(self)@ == with_name(old(self)@, 265, encode_utf8(name@)),
    {
        let mut h = tar::Header::from_byte_slice(&self.block).clone();
        let _ = h.set_username(name);
        self.block = *h.as_bytes();
    }

    /// `tar::Header::set_groupname` writes the group name as
    /// `tar::Header::set_username` does the user name.
    #[verifier::external_body]
    pub(crate) fn set_groupname(&mut self, name: &str)
        ensures
            final(self)@ == with_name(old(self)@, 297, encode_utf8(name@)),
    {
        let mut h = tar::Header::from_byte_slice(&self.block).clone();
        let _ = h.set_groupname(name);
        self.block = *h.as_bytes();
    }

    /// `tar::Header::set_cksum` writes the sum of the bytes of the block, the
    /// checksum field counted as spaces, as octal digits.
    #[verifier::external_body]
    pub(crate) fn set_cksum(&mut self)
        ensures
            final(self)@ == bytes::put(old(self)@, 148, octal_field(checksum(old(self)@), 8)),
    {
        let mut h = tar::Header::from_byte_slice(&self.block).clone();
        h.set_cksum();
        self.block = *h.as_bytes();
    }

    /// `tar::Header::entry_type` reads the type letter, that of a regular file
    /// for a zero byte.
    #[verifier::external_body]
    pub(crate) fn entry_type(&self) -> (r: u8)
        ensures
            r == type_flag(self@[156]),
    {
        tar::Header::from_byte_slice(&self.block).entry_type().as_byte()
    }

    /// `tar::Header::mode` reads the mode, if its field holds an octal number.
    #[verifier::external_body]
    pub(crate) fn mode(&self) -> (r: Option<u32>)
        ensures
            r is Some <==> octal_value(self@.subrange(100, 108)) is Some,
            r matches Some(n) ==> octal_value(self@.subrange(100, 108)) == Some(n as int),
    {
        tar::Header::from_byte_slice(&self.block).mode().ok()
    }

    /// `tar::Header::uid` reads the user id, if its field holds a number.
    #[verifier::external_body]
    pub(crate) fn uid(&self) -> (r: Option<u64>)
        ensures
            r is Some <==> number_value(self@.subrange(108, 116)) is Some,
            r matches Some(n) ==> number_value(self@.subrange(108, 116)) == Some(n as int),
    {
        tar::Header::from_byte_slice(&self.block).uid().ok()
    }

    /// `tar::Header::gid` reads the group id, if its field holds a number.
    #[verifier::external_body]
    pub(crate) fn gid(&self) -> (r: Option<u64>)
        ensures
            r is Some <==> number_value(self@.subrange(116, 124)) is Some,
            r matches Some(n) ==> number_value(self@.subrange(116, 124)) == Some(n as int),
    {
        tar::Header::from_byte_slice(&self.block).gid().ok()
    }

    /// `tar::Header::size` reads the size of the file, which of a sparse file
    /// stands in a field of its own, if the field holds a number.
    #[verifier::external_body]
    pub(crate) fn size(&self) -> (r: Option<u64>)
        ensures
            r is Some <==> header_size(self@) is Some,
            r matches Some(n) ==> header_size(self@) == Some(n as int),
    {
        tar::Header::from_byte_slice(&self.block).size().ok()
    }

    /// `tar::Header::mtime` reads the modification time, if its field holds a
    /// number.
    #[verifier::external_body]
    pub(crate) fn mtime(&self) -> (r: Option<u64>)
        ensures
            r is Some <==> number_value(self@.subrange(136, 148)) is Some,
            r matches Some(n) ==> number_value(self@.subrange(136, 148)) == Some(n as int),
    {
        tar::Header::from_byte_slice(&self.block).mtime().ok()
    }

    /// `tar::Header::username` reads the user name, if the header has one and
    /// it is UTF-8.
    #[verifier::external_body]
    pub(crate) fn username(&self) -> (r: Option<String>)
        ensures
            r is Some <==> name_at(self@, 265) is Some,
            r matches Some(s) ==> name_at(self@, 265) == Some(s@),
    {
        tar::Header::from_byte_slice(&self.block).username().ok().flatten().map(String::from)
    }

    /// `tar::Header::groupname` reads the group name, if the header has one
    /// and it is UTF-8.
    #[verifier::external_body]
    pub(crate) fn groupname(&self) -> (r: Option<String>)
        ensures
            r is Some <==> name_at(self@, 297) is Some,
            r matches Some(s) ==> name_at(self@, 297) == Some(s@),
    {
        tar::Header::from_byte_slice(&self.block).groupname().ok().flatten().map(String::from)
    }

    /// `tar::Header::link_name` reads the target of a link, if there is one.
    #[verifier::external_body]
    pub(crate) fn link_name(&self) -> (r: Option<Vec<u8>>)
        ensures
            r is Some <==> header_link(self@) is Some,
            r matches Some(b) ==> header_link(self@) == Some(b@),
    {
        let h = tar::Header::from_byte_slice(&self.block);
        h.link_name().ok().flatten().map(|p| p.as_os_str().as_encoded_bytes().to_vec())
    }

    /// Puts the first hundred bytes of a name into a field of a hundred bytes,
    /// and zeros behind them.
    pub(crate) fn set_name_field(&mut self, at: usize, name: &[u8])
        requires
            at <= 412,
        ensures
            final(self)@ == with_field(old(self)@, at as int, name@),
    {
        let mut i: usize = 0;
        while i < 100
            invariant
                at <= 412,
                i <= 100,
                self@.len() == 512,
                forall|j: int|
                    0 <= j < 512 ==> self@[j] == (if at <= j < at + i {
                        with_field(old(self)@, at as int, name@)[j]
                    } else {
                        old(self)@[j]
                    }),
            decreases 100 - i,
        {
            let b: u8 = if i < name.len() {
                name[i]
            } else {
                0
            };
            self.block[at + i] = b;
            i = i + 1;
        }
        assert(self@ =~= with_field(old(self)@, at as int, name@));
    }
}

/// A header with the first hundred bytes of a name in a field of a hundred
/// bytes, and zeros behind them.
pub open spec fn with_field(block: Seq<u8>, at: int, name: Seq<u8>) -> Seq<u8> {
    bytes::put(block, at, Seq::new(100, |i: int| if i < name.len() { name[i] } else { 0u8 }))
}

spec fn power(base: int, k: int) -> int
    decreases k,
{
    if k <= 0 {
        1
    } else {
        base * power(base, k - 1)
    }
}

proof fn lemma_power(base: int, k: int)
    requires
        base > 0,
    ensures
        power(base, k) > 0,
    decreases k,
{
    if k > 0 {
        lemma_power(base, k - 1);
        let p = power(base, k - 1);
        assert(base * p > 0) by (nonlinear_arith)
            requires
                base > 0,
                p > 0,
        ;
    }
}

/// The octal digits of a number, as characters.
spec fn octal_chars(n: int, k: int) -> Seq<char> {
    octal_digits(n, k).map_values(|b: u8| b as char)
}

proof fn lemma_octal_digits(n: int, k: int)
    requires
        0 <= n < power(8, k),
        0 <= k,
    ensures
        octal_digits(n, k).len() == k,
        forall|i: int| 0 <= i < k ==> 48 <= #[trigger] octal_digits(n, k)[i] < 56,
        number::digits_value(octal_chars(n, k), 8) == n,
    decreases k,
{
    if k > 0 {
        lemma_octal_digits(n / 8, k - 1);
        let s = octal_chars(n, k);
        let d = octal_digits(n, k);
        assert(s.drop_last() =~= octal_chars(n / 8, k - 1));
        assert(s.last() == d[k - 1] as char);
    }
}

/// Bytes below 128 are UTF-8, one character each.
pub proof fn lemma_ascii_bytes(b: Seq<u8>)
    requires
        forall|i: int| 0 <= i < b.len() ==> #[trigger] b[i] < 128,
    ensures
        valid_utf8(b),
        decode_utf8(b) == b.map_values(|x: u8| x as char),
{
    let chars = b.map_values(|x: u8| x as char);
    vstd::utf8::is_ascii_chars_encode_utf8(chars);
    assert(encode_utf8(chars) =~= b) by {
        assert forall|i: int| 0 <= i < b.len() implies encode_utf8(chars)[i] == b[i] by {
            assert(chars[i] as u8 == encode_utf8(chars)[i]);
        }
    }
    vstd::utf8::encode_utf8_valid_utf8(chars);
    vstd::utf8::encode_utf8_decode_utf8(chars);
}

/// Text whose ends are no white space is kept by trimming.
pub proof fn lemma_trimmed(s: Seq<char>)
    requires
        s.len() > 0 ==> !text::is_white(s[0]) && !text::is_white(s.last()),
    ensures
        text::trimmed(s) == s,
{
}

proof fn lemma_digit_counts(n: int, k: int)
    requires
        k >= 0,
    ensures
        octal_digits(n, k).len() == k,
        big_endian(n, k).len() == k,
    decreases k,
{
    if k > 0 {
        lemma_digit_counts(n / 8, k - 1);
        lemma_digit_counts(n / 256, k - 1);
    }
}

/// The lengths of the fields of a header.
pub proof fn lemma_field_lengths(n: int)
    ensures
        octal_field(n, 8).len() == 8,
        number_field(n, 8).len() == 8,
        number_field(n, 12).len() == 12,
{
    lemma_digit_counts(n, 7);
    lemma_digit_counts(n, 8);
    lemma_digit_counts(n, 11);
}

proof fn lemma_octal_field(n: int, len: int)
    requires
        2 <= len <= 12,
        0 <= n < power(8, len - 1),
        n <= u64::MAX,
    ensures
        octal_field(n, len).len() == len,
        octal_field(n, len)[0] < 128,
        octal_value(octal_field(n, len)) == Some(n),
{
    let k = len - 1;
    let d = octal_digits(n, k);
    let s = octal_chars(n, k);
    lemma_octal_digits(n, k);
    bytes::lemma_until_nul(octal_field(n, len), k);
    assert(octal_field(n, len).take(k) =~= d);
    lemma_ascii_bytes(d);
    assert forall|i: int| 0 <= i < k implies number::is_digit(#[trigger] s[i], 8) && s[i]
        == d[i] as char by {
        assert(48 <= d[i] < 56);
    }
    assert(number::is_digit(s[0], 8) && number::is_digit(s[k - 1], 8));
    lemma_trimmed(s);
    assert(d.map_values(|x: u8| x as char) =~= s);
}

/// A number below eight gigabytes fills a field of twelve bytes with eleven
/// octal digits and a zero byte.
pub proof fn lemma_octal_text(n: int)
    requires
        0 <= n < 8589934592,
    ensures
        ({
            let field = number_field(n, 12);
            let digits = field.take(11).map_values(|b: u8| b as char);
            &&& field.len() == 12
            &&& field[11] == 0
            &&& forall|i: int| 0 <= i < 12 ==> #[trigger] field[i] < 128
            &&& forall|i: int| 0 <= i < 11 ==> number::is_digit(#[trigger] digits[i], 8)
            &&& digits.len() == 11
            &&& number::unsigned(digits, 8, u64::MAX as int) == Some(n)
        }),
{
    reveal_with_fuel(power, 13);
    lemma_octal_digits(n, 11);
    let field = number_field(n, 12);
    let d = octal_digits(n, 11);
    let digits = field.take(11).map_values(|b: u8| b as char);
    assert(field.take(11) =~= d);
    assert(digits =~= octal_chars(n, 11));
    assert forall|i: int| 0 <= i < 11 implies number::is_digit(#[trigger] digits[i], 8)
        && field[i] < 128 by {
        assert(48 <= d[i] < 56);
        assert(digits[i] == d[i] as char);
        assert(field[i] == d[i]);
    }
    assert(number::is_digit(digits[0], 8));
}

proof fn lemma_big_endian(n: int, k: int)
    requires
        0 <= n < power(256, k),
        0 <= k,
    ensures
        big_endian(n, k).len() == k,
        big_endian_value(big_endian(n, k)) == n,
        k > 0 ==> big_endian(n, k)[0] == n / power(256, k - 1),
    decreases k,
{
    if k > 0 {
        lemma_big_endian(n / 256, k - 1);
        assert(big_endian(n, k).drop_last() =~= big_endian(n / 256, k - 1));
        if k == 1 {
            assert(power(256, 1) == 256 * power(256, 0));
            assert(n / 1 == n);
        } else {
            let p = power(256, k - 2);
            lemma_power(256, k - 2);
            assert((n / 256) / p == n / (256 * p)) by (nonlinear_arith)
                requires
                    p > 0,
                    n >= 0,
            {
                vstd::arithmetic::div_mod::lemma_div_denominator(n, 256, p);
            }
        }
    }
}

proof fn lemma_big_endian_value(s: Seq<u8>)
    ensures
        big_endian_value(s) >= 0,
    decreases s.len(),
{
    if s.len() > 0 {
        lemma_big_endian_value(s.drop_last());
    }
}

/// What is read from a number field is no less than zero.
pub proof fn lemma_number_value_range(field: Seq<u8>)
    ensures
        number_value(field) matches Some(n) ==> n >= 0,
{
    let t = bytes::until_nul(field);
    number::lemma_unsigned_range(text::trimmed(decode_utf8(t)), 8, u64::MAX as int);
    lemma_big_endian_value(field.update(0, (field[0] - 128) as u8));
    lemma_big_endian_value(field.skip(field.len() - 8));
}

/// A number written to a field is read back from it: any number from a field
/// of twelve bytes, one below two to the 63rd from a field of eight.
pub proof fn law_number_field_round_trip(n: u64, len: int)
    requires
        len == 12 || len == 8 && n < 0x8000_0000_0000_0000,
    ensures
        number_field(n as int, len).len() == len,
        number_value(number_field(n as int, len)) == Some(n as int),
{
    reveal_with_fuel(power, 13);
    if n >= 8589934592 || n >= 2097152 && len == 8 {
        lemma_big_endian(n as int, 8);
        let b = big_endian(n as int, 8);
        let f = binary_field(n as int, len);
        if len == 8 {
            assert(bytes::zeros(0) + b =~= b);
            assert(power(256, 7) == 0x100_0000_0000_0000);
            let top = n as int / 0x100_0000_0000_0000;
            assert(b[0] == n as int / power(256, 7));
            assert(b[0] == top);
            assert(top < 128);
            assert(f.update(0, (f[0] - 128) as u8) =~= b);
        } else {
            assert(f.skip(4) =~= b);
        }
    } else {
        lemma_octal_field(n as int, len);
    }
}

/// The permissions, and what stands above them, are read back from the mode
/// field as far as seven octal digits hold them.
pub proof fn law_mode_field_round_trip(mode: u32)
    requires
        mode < 0o10000000,
    ensures
        octal_field(mode as int, 8).len() == 8,
        octal_value(octal_field(mode as int, 8)) == Some(mode as int),
{
    reveal_with_fuel(power, 9);
    lemma_octal_field(mode as int, 8);
}

/// A field that was put is found where it was put, and the rest of the header
/// is as it was.
pub proof fn law_field_put(block: Seq<u8>, at: int, field: Seq<u8>, from: int, to: int)
    requires
        0 <= at,
        at + field.len() <= block.len(),
        0 <= from <= to <= block.len(),
    ensures
        bytes::put(block, at, field).len() == block.len(),
        bytes::put(block, at, field).subrange(at, at + field.len()) == field,
        to <= at || at + field.len() <= from ==> bytes::put(block, at, field).subrange(from, to)
            == block.subrange(from, to),
{
    assert(bytes::put(block, at, field).subrange(at, at + field.len()) =~= field);
    if to <= at || at + field.len() <= from {
        assert(bytes::put(block, at, field).subrange(from, to) =~= block.subrange(from, to));
    }
}

proof fn lemma_byte_sum(s: Seq<u8>)
    ensures
        0 <= byte_sum(s) <= 255 * s.len(),
    decreases s.len(),
{
    if s.len() > 0 {
        lemma_byte_sum(s.drop_last());
    }
}

/// The checksum that was put into a header is the checksum of that header, and
/// is read back.
pub proof fn law_checksum(block: Seq<u8>)
    requires
        block.len() == 512,
    ensures
        ({
            let sealed = bytes::put(block, 148, octal_field(checksum(block), 8));
            octal_value(sealed.subrange(148, 156)) == Some(checksum(sealed))
        }),
{
    let field = octal_field(checksum(block), 8);
    let sealed = bytes::put(block, 148, field);
    let spaces = Seq::new(8, |i: int| 32u8);
    lemma_byte_sum(bytes::put(block, 148, spaces));
    reveal_with_fuel(power, 9);
    lemma_octal_field(checksum(block), 8);
    law_field_put(block, 148, field, 0, 0);
    assert(bytes::put(sealed, 148, spaces) =~= bytes::put(block, 148, spaces));
}

} // verus!
