//! Byte sequences and the text in them.

use vstd::prelude::*;
use vstd::utf8::{decode_utf8, valid_utf8};

verus! {

/// `s` with the bytes of `field` in place of those from position `at` on.
pub open spec fn put(s: Seq<u8>, at: int, field: Seq<u8>) -> Seq<u8> {
    Seq::new(
        s.len(),
        |i: int|
            if at <= i < at + field.len() {
                field[i - at]
            } else {
                s[i]
            },
    )
}

pub open spec fn zeros(n: nat) -> Seq<u8> {
    Seq::new(n, |i: int| 0u8)
}

/// The bytes before the first zero byte.
pub open spec fn until_nul(s: Seq<u8>) -> Seq<u8>
    decreases s.len(),
{
    if s.len() == 0 || s[0] == 0 {
        seq![]
    } else {
        seq![s[0]] + until_nul(s.drop_first())
    }
}

pub proof fn lemma_until_nul(s: Seq<u8>, k: int)
    requires
        0 <= k <= s.len(),
        forall|i: int| 0 <= i < k ==> s[i] != 0,
        k < s.len() ==> s[k] == 0,
    ensures
        until_nul(s) == s.take(k),
    decreases k,
{
    if k > 0 {
        let t = s.drop_first();
        assert(forall|i: int| 0 <= i < k - 1 ==> t[i] == s[i + 1]);
        lemma_until_nul(t, k - 1);
        assert(seq![s[0]] + t.take(k - 1) =~= s.take(k));
    } else {
        assert(s.take(0) =~= seq![]);
    }
}

/// `std::str::from_utf8`: the text that the bytes encode, if they are UTF-8.
#[verifier::external_body]
pub(crate) fn utf8_text(bytes: &[u8]) -> (r: Option<String>)
    ensures
        r is Some <==> valid_utf8(bytes@),
        r matches Some(s) ==> s@ == decode_utf8(bytes@),
{
    std::str::from_utf8(bytes).ok().map(String::from)
}

/// The text of bytes that are not UTF-8, with replacement characters for what
/// cannot be read.
pub uninterp spec fn lossy(bytes: Seq<u8>) -> Seq<char>;

/// The text of bytes: what they encode where they are UTF-8, else what can be
/// read of them.
pub open spec fn text_of(bytes: Seq<u8>) -> Seq<char> {
    if valid_utf8(bytes) {
        decode_utf8(bytes)
    } else {
        lossy(bytes)
    }
}

/// `String::from_utf8_lossy`. Of UTF-8 it is the text that the bytes encode;
/// where replacement characters stand in that of other bytes is left unsaid.
#[verifier::external_body]
pub(crate) fn lossy_text(bytes: &[u8]) -> (r: String)
    ensures
        valid_utf8(bytes@) ==> r@ == decode_utf8(bytes@),
        !valid_utf8(bytes@) ==> r@ == lossy(bytes@),
{
    String::from_utf8_lossy(bytes).into_owned()
}

/// The text of the encoding of a text is that text.
pub proof fn lemma_text_of_encoded(s: Seq<char>)
    ensures
        text_of(vstd::utf8::encode_utf8(s)) == s,
{
    vstd::utf8::encode_utf8_valid_utf8(s);
    vstd::utf8::encode_utf8_decode_utf8(s);
}

/// Only a slash is encoded with the byte of a slash at the end.
pub proof fn lemma_encoded_last(s: Seq<char>)
    requires
        s.len() > 0,
        s.last() != '/',
    ensures
        vstd::utf8::encode_utf8(s).len() > 0,
        vstd::utf8::encode_utf8(s).last() != 47,
    decreases s.len(),
{
    let c = s[0] as u32;
    let head = vstd::utf8::encode_scalar(c);
    let rest = s.drop_first();
    if rest.len() > 0 {
        assert(rest.last() == s.last());
        lemma_encoded_last(rest);
    } else {
        assert(head + vstd::utf8::encode_utf8(rest) =~= head);
        vstd::utf8::char_u32_cast(s[0], c);
        lemma_last_byte(c);
    }
}

proof fn lemma_last_byte(c: u32)
    requires
        c != 47,
        vstd::utf8::is_scalar(c),
    ensures
        vstd::utf8::encode_scalar(c).len() > 0,
        vstd::utf8::encode_scalar(c).last() != 47,
{
    assert(c < 0x80 ==> c & 0x7f == c) by (bit_vector);
    assert(0x80u8 | (c & 0x3f) as u8 != 47) by (bit_vector);
}

} // verus!
