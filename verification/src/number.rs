//! Numbers in text: decimal and octal digits, read and written.

use crate::text;
use crate::text::to_chars;
use vstd::prelude::*;
use vstd::slice::slice_subrange;

verus! {

/// The character of a digit below ten.
pub open spec fn digit_char(d: int) -> char {
    (48 + d) as char
}

/// Whether `c` is an ASCII digit of the given radix, which is at most ten.
pub open spec fn is_digit(c: char, radix: int) -> bool {
    48 <= c as u32 && (c as u32) < 48 + radix
}

pub open spec fn all_digits(s: Seq<char>, radix: int) -> bool {
    forall|i: int| 0 <= i < s.len() ==> is_digit(#[trigger] s[i], radix)
}

/// The number that a run of digits stands for.
pub open spec fn digits_value(s: Seq<char>, radix: int) -> int
    decreases s.len(),
{
    if s.len() == 0 {
        0
    } else {
        digits_value(s.drop_last(), radix) * radix + (s.last() as u32 - 48)
    }
}

/// The digits of a number, without leading zeros.
pub open spec fn decimal(n: int) -> Seq<char>
    decreases n,
{
    if n < 10 {
        seq![digit_char(n)]
    } else {
        decimal(n / 10).push(digit_char(n % 10))
    }
}

/// A text padded on the left with `0` to a width.
pub open spec fn zero_padded(s: Seq<char>, width: int) -> Seq<char>
    decreases width - s.len(),
{
    if s.len() >= width {
        s
    } else {
        zero_padded(seq!['0'] + s, width)
    }
}

/// A number in decimal, padded with zeros behind its sign to a width.
pub open spec fn padded_decimal(n: int, width: int) -> Seq<char> {
    if n < 0 {
        seq!['-'] + zero_padded(decimal(-n), width - 1)
    } else {
        zero_padded(decimal(n), width)
    }
}

/// What an unsigned number with an optional `+` in front stands for, if it is
/// one and is at most `max`.
pub open spec fn unsigned(s: Seq<char>, radix: int, max: int) -> Option<int> {
    let d = if s.len() > 0 && s[0] == '+' {
        s.drop_first()
    } else {
        s
    };
    if d.len() > 0 && all_digits(d, radix) && digits_value(d, radix) <= max {
        Some(digits_value(d, radix))
    } else {
        None
    }
}

/// What a signed decimal number stands for, if it is one and lies in
/// `min..=max`.
pub open spec fn signed(s: Seq<char>, min: int, max: int) -> Option<int> {
    if s.len() > 0 && s[0] == '-' {
        let d = s.drop_first();
        if d.len() > 0 && all_digits(d, 10) && -digits_value(d, 10) >= min {
            Some(-digits_value(d, 10))
        } else {
            None
        }
    } else {
        unsigned(s, 10, max)
    }
}

proof fn lemma_digits_value_grows(s: Seq<char>, k: int, radix: int)
    requires
        all_digits(s, radix),
        0 <= k <= s.len(),
        radix >= 1,
    ensures
        0 <= digits_value(s.take(k), radix) <= digits_value(s, radix),
    decreases s.len() + k,
{
    if k < s.len() {
        let t = s.drop_last();
        assert(t.take(k) =~= s.take(k));
        assert(all_digits(t, radix)) by {
            assert forall|i: int| 0 <= i < t.len() implies is_digit(#[trigger] t[i], radix) by {
                assert(t[i] == s[i]);
            }
        }
        lemma_digits_value_grows(t, k, radix);
        let a = digits_value(t, radix);
        assert(a * radix >= a) by (nonlinear_arith)
            requires
                a >= 0,
                radix >= 1,
        ;
        assert(is_digit(s[s.len() - 1], radix));
    } else {
        assert(s.take(k) =~= s);
        if s.len() > 0 {
            let t = s.drop_last();
            assert(all_digits(t, radix)) by {
                assert forall|i: int| 0 <= i < t.len() implies is_digit(#[trigger] t[i], radix) by {
                    assert(t[i] == s[i]);
                }
            }
            lemma_digits_value_grows(t, t.len() as int, radix);
            assert(t.take(t.len() as int) =~= t);
            let a = digits_value(t, radix);
            assert(a * radix >= 0) by (nonlinear_arith)
                requires
                    a >= 0,
                    radix >= 1,
            ;
            assert(is_digit(s[s.len() - 1], radix));
        }
    }
}

/// What is read as an unsigned number is no less than zero and within the
/// limit.
pub proof fn lemma_unsigned_range(s: Seq<char>, radix: int, max: int)
    requires
        radix >= 1,
    ensures
        unsigned(s, radix, max) matches Some(n) ==> 0 <= n <= max,
{
    let d = if s.len() > 0 && s[0] == '+' {
        s.drop_first()
    } else {
        s
    };
    if all_digits(d, radix) {
        lemma_digits_value_grows(d, 0, radix);
    }
}

/// Reads a run of digits, if it is one, is not empty and is at most `max`.
fn read_digits(s: &[char], radix: u64, max: u64) -> (r: Option<u64>)
    requires
        2 <= radix <= 10,
    ensures
        r is Some <==> s@.len() > 0 && all_digits(s@, radix as int) && digits_value(
            s@,
            radix as int,
        ) <= max,
        r matches Some(n) ==> n == digits_value(s@, radix as int),
{
    if s.len() == 0 {
        return None;
    }
    let mut acc: u64 = 0;
    for i in 0..s.len()
        invariant
            2 <= radix <= 10,
            acc == digits_value(s@.take(i as int), radix as int),
            acc <= max,
            forall|j: int| 0 <= j < i ==> is_digit(#[trigger] s@[j], radix as int),
    {
        let ch: char = s[i];
        let c: u32 = ch as u32;
        if c < 48 || c as u64 >= 48 + radix {
            assert(!is_digit(s@[i as int], radix as int));
            return None;
        }
        let digit: u64 = (c - 48) as u64;
        let ghost head = s@.take(i + 1);
        assert(head.drop_last() =~= s@.take(i as int));
        assert(head.last() == s@[i as int]);
        assert(0 <= acc * radix <= acc * 10) by (nonlinear_arith)
            requires
                0 <= radix <= 10,
                acc >= 0,
        ;
        let next: u128 = acc as u128 * radix as u128 + digit as u128;
        assert(digits_value(head, radix as int) == acc as int * radix as int + (ch as u32 - 48));
        assert(next == acc as int * radix as int + digit);
        if next > max as u128 {
            proof {
                if all_digits(s@, radix as int) {
                    lemma_digits_value_grows(s@, i + 1, radix as int);
                }
            }
            return None;
        }
        acc = next as u64;
    }
    assert(s@.take(s@.len() as int) =~= s@);
    Some(acc)
}

/// Reads an unsigned number of the given radix.
pub fn parse_unsigned(s: &[char], radix: u64, max: u64) -> (r: Option<u64>)
    requires
        2 <= radix <= 10,
    ensures
        r is Some <==> unsigned(s@, radix as int, max as int) is Some,
        r matches Some(n) ==> unsigned(s@, radix as int, max as int) == Some(n as int),
{
    if s.len() > 0 && s[0] == '+' {
        let rest = slice_subrange(s, 1, s.len());
        assert(rest@ =~= s@.drop_first());
        read_digits(rest, radix, max)
    } else {
        read_digits(s, radix, max)
    }
}

/// Reads a signed decimal number.
pub fn parse_i64(s: &[char]) -> (r: Option<i64>)
    ensures
        r is Some <==> signed(s@, i64::MIN as int, i64::MAX as int) is Some,
        r matches Some(n) ==> signed(s@, i64::MIN as int, i64::MAX as int) == Some(n as int),
{
    if s.len() > 0 && s[0] == '-' {
        let rest = slice_subrange(s, 1, s.len());
        assert(rest@ =~= s@.drop_first());
        match read_digits(rest, 10, 0x8000_0000_0000_0000) {
            Some(n) => {
                if n == 0x8000_0000_0000_0000 {
                    Some(i64::MIN)
                } else {
                    Some(-(n as i64))
                }
            },
            None => None,
        }
    } else {
        match parse_unsigned(s, 10, 0x7fff_ffff_ffff_ffff) {
            Some(n) => Some(n as i64),
            None => None,
        }
    }
}

/// Reads a `u64` as `--owner` and `--group` give it.
pub fn parse_u64(s: &str) -> (r: Option<u64>)
    ensures
        r is Some <==> unsigned(s@, 10, u64::MAX as int) is Some,
        r matches Some(n) ==> unsigned(s@, 10, u64::MAX as int) == Some(n as int),
{
    let chars = to_chars(s);
    parse_unsigned(&chars, 10, u64::MAX)
}

/// Writes a number in decimal.
pub fn decimal_chars(n: u64) -> (r: Vec<char>)
    ensures
        r@ == decimal(n as int),
    decreases n,
{
    if n < 10 {
        let mut v: Vec<char> = Vec::new();
        v.push((48 + n as u8) as char);
        assert(v@ =~= decimal(n as int));
        v
    } else {
        let mut v = decimal_chars(n / 10);
        v.push((48 + (n % 10) as u8) as char);
        v
    }
}

/// Pads digits on the left with zeros to a width.
fn pad_zeros(digits: &[char], width: usize) -> (r: Vec<char>)
    ensures
        r@ == zero_padded(digits@, width as int),
{
    let mut zeros: Vec<char> = Vec::new();
    let mut missing: usize = if digits.len() < width {
        width - digits.len()
    } else {
        0
    };
    assert(zeros@ + digits@ =~= digits@);
    while missing > 0
        invariant
            missing == 0 || zeros@.len() + digits@.len() + missing == width,
            missing == 0 ==> zeros@.len() + digits@.len() >= width,
            forall|i: int| 0 <= i < zeros@.len() ==> zeros@[i] == '0',
            zero_padded(zeros@ + digits@, width as int) == zero_padded(digits@, width as int),
        decreases missing,
    {
        let ghost before = zeros@ + digits@;
        zeros.push('0');
        assert(zeros@ + digits@ =~= seq!['0'] + before);
        missing = missing - 1;
    }
    for i in 0..digits.len()
        invariant
            zeros@.len() >= i,
            zeros@.take(zeros@.len() - i) + digits@ == zero_padded(digits@, width as int),
            zeros@.skip(zeros@.len() - i) == digits@.take(i as int),
    {
        let ghost before = zeros@;
        zeros.push(digits[i]);
        assert(zeros@.take(zeros@.len() - (i + 1)) =~= before.take(before.len() - i));
        assert(zeros@.skip(zeros@.len() - (i + 1)) =~= digits@.take(i + 1));
    }
    assert(zeros@.skip(zeros@.len() - digits@.len()) =~= digits@);
    assert(zeros@ =~= zeros@.take(zeros@.len() - digits@.len()) + zeros@.skip(
        zeros@.len() - digits@.len(),
    ));
    zeros
}

/// Writes a number in decimal, padded with zeros behind its sign to a width.
pub fn padded_chars(n: i64, width: usize) -> (r: Vec<char>)
    requires
        n > i64::MIN,
        width >= 1,
    ensures
        r@ == padded_decimal(n as int, width as int),
{
    if n < 0 {
        let digits = decimal_chars((-n) as u64);
        let mut body = pad_zeros(&digits, width - 1);
        let mut out: Vec<char> = Vec::new();
        out.push('-');
        out.append(&mut body);
        assert(out@ =~= padded_decimal(n as int, width as int));
        out
    } else {
        let digits = decimal_chars(n as u64);
        pad_zeros(&digits, width)
    }
}

/// The decimal digits of a number are digits that stand for it.
pub proof fn lemma_decimal(n: int)
    requires
        n >= 0,
    ensures
        decimal(n).len() > 0,
        all_digits(decimal(n), 10),
        digits_value(decimal(n), 10) == n,
    decreases n,
{
    let s = decimal(n);
    if n < 10 {
        assert(s.drop_last() =~= seq![]);
        assert(digits_value(s.drop_last(), 10) == 0);
    } else {
        lemma_decimal(n / 10);
        assert(s.drop_last() =~= decimal(n / 10));
        assert forall|i: int| 0 <= i < s.len() implies is_digit(#[trigger] s[i], 10) by {
            if i < s.len() - 1 {
                assert(s[i] == decimal(n / 10)[i]);
            }
        }
    }
}

/// Zeros in front do not change a number.
pub proof fn lemma_leading_zero(s: Seq<char>)
    ensures
        digits_value(seq!['0'] + s, 10) == digits_value(s, 10),
    decreases s.len(),
{
    let t = seq!['0'] + s;
    if s.len() == 0 {
        assert(t.drop_last() =~= seq![]);
        assert(digits_value(t.drop_last(), 10) == 0);
    } else {
        assert(t.drop_last() =~= seq!['0'] + s.drop_last());
        lemma_leading_zero(s.drop_last());
    }
}

/// Digits padded with zeros are digits that stand for the same number.
pub proof fn lemma_zero_padded(s: Seq<char>, width: int)
    requires
        all_digits(s, 10),
    ensures
        all_digits(zero_padded(s, width), 10),
        digits_value(zero_padded(s, width), 10) == digits_value(s, 10),
        zero_padded(s, width).len() == (if s.len() >= width { s.len() as int } else { width }),
    decreases width - s.len(),
{
    if s.len() < width {
        let t = seq!['0'] + s;
        assert forall|i: int| 0 <= i < t.len() implies is_digit(#[trigger] t[i], 10) by {
            if i > 0 {
                assert(t[i] == s[i - 1]);
            }
        }
        lemma_leading_zero(s);
        lemma_zero_padded(t, width);
    }
}

/// Runs of as many digits are ordered like the numbers that they stand for.
pub proof fn lemma_digits_order(s: Seq<char>, t: Seq<char>)
    requires
        s.len() == t.len(),
        all_digits(s, 10),
        all_digits(t, 10),
    ensures
        digits_value(s, 10) < digits_value(t, 10) ==> text::before(s, t),
        digits_value(s, 10) == digits_value(t, 10) ==> s == t,
    decreases s.len(),
{
    if s.len() == 0 {
        assert(s =~= t);
    } else {
        let (a, b) = (s.drop_last(), t.drop_last());
        let n = s.len() - 1;
        assert forall|i: int| 0 <= i < n implies is_digit(#[trigger] a[i], 10) by {
            assert(a[i] == s[i]);
        }
        assert forall|i: int| 0 <= i < n implies is_digit(#[trigger] b[i], 10) by {
            assert(b[i] == t[i]);
        }
        assert(is_digit(s[n], 10) && is_digit(t[n], 10));
        lemma_digits_order(a, b);
        if digits_value(a, 10) < digits_value(b, 10) {
            text::lemma_before_within(seq![], a, b, seq![s.last()], seq![t.last()]);
            assert(seq![] + a + seq![s.last()] =~= s);
            assert(seq![] + b + seq![t.last()] =~= t);
        } else if digits_value(a, 10) == digits_value(b, 10) {
            assert(s.take(n) =~= a);
            assert(t.take(n) =~= b);
            if digits_value(s, 10) < digits_value(t, 10) {
                assert(text::differs_below(s, t, n));
            } else if digits_value(s, 10) == digits_value(t, 10) {
                let (x, y) = (s[n], t[n]);
                assert(x as u32 == y as u32);
                vstd::utf8::char_u32_cast(x, x as u32);
                vstd::utf8::char_u32_cast(y, y as u32);
                assert(x == y);
                assert(s =~= a.push(s[n]));
                assert(t =~= b.push(t[n]));
            }
        }
    }
}

/// What is written in decimal is read back.
pub proof fn law_decimal_round_trip(n: u64)
    ensures
        unsigned(decimal(n as int), 10, u64::MAX as int) == Some(n as int),
{
    lemma_decimal(n as int);
    let s = decimal(n as int);
    assert(is_digit(s[0], 10));
}

/// A number is written in decimal without leading zeros, one digit after the
/// other.
pub proof fn law_decimal(n: int, d: int)
    requires
        n >= 0,
        0 <= d <= 9,
    ensures
        decimal(n).len() > 0,
        all_digits(decimal(n), 10),
        digits_value(decimal(n), 10) == n,
        decimal(n)[0] == '0' ==> n == 0 && decimal(n).len() == 1,
        n > 0 ==> decimal(n * 10 + d).drop_last() == decimal(n),
        n > 0 ==> decimal(n * 10 + d).last() as u32 == 48 + d,
    decreases n,
{
    lemma_decimal(n);
    if n >= 10 {
        law_decimal(n / 10, n % 10);
        assert(decimal(n)[0] == decimal(n / 10)[0]);
    }
    if n > 0 {
        assert((n * 10 + d) / 10 == n && (n * 10 + d) % 10 == d);
        assert(decimal(n * 10 + d).drop_last() =~= decimal(n));
    }
}

/// The value of a run of digits is made up digit by digit.
pub proof fn law_digits_value(s: Seq<char>, c: char, radix: int)
    ensures
        digits_value(seq![], radix) == 0,
        digits_value(s.push(c), radix) == digits_value(s, radix) * radix + (c as u32 - '0' as u32),
{
    assert(s.push(c).drop_last() =~= s);
}

/// Numbers are read with an optional plus in front, and signed ones with a minus;
/// what is empty, holds anything but digits, or is beyond the limits is none.
pub proof fn law_numbers_read(d: Seq<char>, radix: int, min: int, max: int)
    requires
        d.len() > 0,
        2 <= radix <= 10,
    ensures
        all_digits(d, radix) && digits_value(d, radix) <= max ==> {
            &&& unsigned(d, radix, max) == Some(digits_value(d, radix))
            &&& unsigned(seq!['+'] + d, radix, max) == Some(digits_value(d, radix))
        },
        all_digits(d, radix) && digits_value(d, radix) > max ==> unsigned(d, radix, max) is None,
        !all_digits(d, radix) && d[0] != '+' ==> unsigned(d, radix, max) is None,
        unsigned(seq![], radix, max) is None,
        unsigned(seq!['+'], radix, max) is None,
        all_digits(d, 10) && -digits_value(d, 10) >= min ==> signed(seq!['-'] + d, min, max)
            == Some(-digits_value(d, 10)),
        all_digits(d, 10) && -digits_value(d, 10) < min ==> signed(seq!['-'] + d, min, max) is None,
        d[0] != '-' ==> signed(d, min, max) == unsigned(d, 10, max),
        signed(seq!['-'], min, max) is None,
{
    assert((seq!['+'] + d).drop_first() =~= d);
    assert((seq!['-'] + d).drop_first() =~= d);
    assert(seq!['+'].drop_first() =~= seq![]);
    assert(seq!['-'].drop_first() =~= seq![]);
    if all_digits(d, radix) {
        assert(is_digit(d[0], radix));
    }
}

/// Padding puts zeros in front, behind a minus, up to a width.
pub proof fn law_padded(n: int, width: int)
    requires
        width >= 1,
    ensures
        n >= 0 ==> {
            let s = padded_decimal(n, width);
            &&& decimal(n).is_suffix_of(s)
            &&& s.len() == (if decimal(n).len() >= width {
                decimal(n).len() as int
            } else {
                width
            })
            &&& forall|i: int| 0 <= i < s.len() - decimal(n).len() ==> s[i] == '0'
        },
        n < 0 ==> padded_decimal(n, width) == seq!['-'] + padded_decimal(-n, width - 1),
{
    if n >= 0 {
        lemma_zeros_in_front(decimal(n), width);
    }
}

proof fn lemma_zeros_in_front(s: Seq<char>, width: int)
    ensures
        s.is_suffix_of(zero_padded(s, width)),
        zero_padded(s, width).len() == (if s.len() >= width { s.len() as int } else { width }),
        forall|i: int| 0 <= i < zero_padded(s, width).len() - s.len() ==> zero_padded(s, width)[i]
            == '0',
    decreases width - s.len(),
{
    let r = zero_padded(s, width);
    if s.len() >= width {
        assert(s =~= r.subrange(0, r.len() as int));
    } else {
        let t = seq!['0'] + s;
        lemma_zeros_in_front(t, width);
        let k = r.len() - s.len();
        assert(t =~= r.subrange(k - 1, r.len() as int));
        assert(s =~= r.subrange(k, r.len() as int)) by {
            assert forall|i: int| 0 <= i < s.len() implies s[i] == r[k + i] by {
                assert(t[i + 1] == r.subrange(k - 1, r.len() as int)[i + 1]);
            }
        }
        assert(r[k - 1] == '0') by {
            assert(r.subrange(k - 1, r.len() as int)[0] == t[0]);
        }
    }
}

} // verus!
