//! Modification times in text: how a listing shows them and how `--mtime`
//! gives them.

use crate::calendar;
use crate::calendar::{date_from_days, days_of_date, is_calendar_date};
use crate::number;
use crate::number::{padded_chars, parse_i64, parse_unsigned};
use crate::text;
use crate::text::{from_chars, to_chars};
use vstd::prelude::*;

verus! {

/// A time, in seconds from 1970-01-01 00:00 UTC, as `YYYY-MM-DD HH:MM`.
pub open spec fn time_text(secs: int) -> Seq<char> {
    let (y, m, d) = calendar::date_of(secs / 86400);
    let s = secs % 86400;
    number::padded_decimal(y, 4) + seq!['-'] + number::padded_decimal(m, 2) + seq!['-']
        + number::padded_decimal(d, 2) + seq![' '] + number::padded_decimal(s / 3600, 2) + seq![':']
        + number::padded_decimal((s / 60) % 60, 2)
}

/// Writes a time as `YYYY-MM-DD HH:MM` in UTC.
pub fn format_mtime(secs: i64) -> (r: String)
    ensures
        r@ == time_text(secs as int),
{
    let mut days: i64 = secs / 86400;
    let mut of_day: i64 = secs % 86400;
    if of_day < 0 {
        days = days - 1;
        of_day = of_day + 86400;
    }
    assert(days == secs as int / 86400 && of_day == secs as int % 86400);
    let (y, m, d) = date_from_days(days);
    let mut out = padded_chars(y, 4);
    out.push('-');
    let mut part = padded_chars(m as i64, 2);
    out.append(&mut part);
    out.push('-');
    let mut part = padded_chars(d as i64, 2);
    out.append(&mut part);
    out.push(' ');
    let mut part = padded_chars(of_day / 3600, 2);
    out.append(&mut part);
    out.push(':');
    let mut part = padded_chars((of_day / 60) % 60, 2);
    out.append(&mut part);
    assert(out@ =~= time_text(secs as int));
    from_chars(&out)
}

/// The pattern of a date `yyyy-mm-dd[ hh:mm[:ss]]`.
pub open spec fn date_pattern() -> Seq<char> {
    r"^(\d{4})-(\d{2})-(\d{2})(?:[T ](\d{2}):(\d{2})(?::(\d{2}))?)?"@
}

/// The groups that a pattern captures in its first match in a text, the whole
/// match being the first.
pub uninterp spec fn regex_captures(pattern: Seq<char>, text: Seq<char>) -> Option<
    Seq<Option<Seq<char>>>,
>;

pub open spec fn captures_view(r: Option<Vec<Option<String>>>) -> Option<Seq<Option<Seq<char>>>> {
    match r {
        Some(g) => Some(text::opt_views(g@)),
        None => None,
    }
}

/// A group of `n` characters, none of them a sign.
pub open spec fn digit_group(g: Option<Seq<char>>, n: int) -> bool {
    match g {
        Some(s) => s.len() == n && !s.contains('+') && !s.contains('-'),
        None => false,
    }
}

/// The groups of a date: year, month and day, and perhaps hour, minute and
/// second.
pub open spec fn date_shaped(g: Seq<Option<Seq<char>>>) -> bool {
    &&& g.len() == 7
    &&& digit_group(g[1], 4)
    &&& digit_group(g[2], 2)
    &&& digit_group(g[3], 2)
    &&& g[4] is Some ==> digit_group(g[4], 2)
    &&& g[5] is Some ==> digit_group(g[5], 2)
    &&& g[6] is Some ==> digit_group(g[6], 2)
}

/// Whether `s` holds two ASCII digits at position `i`.
pub open spec fn two_digits(s: Seq<char>, i: int) -> bool {
    i + 2 <= s.len() && number::is_digit(s[i], 10) && number::is_digit(s[i + 1], 10)
}

/// The groups of the date at the start of a text that begins in ASCII.
pub open spec fn ascii_date(s: Seq<char>) -> Option<Seq<Option<Seq<char>>>> {
    let date = two_digits(s, 0) && two_digits(s, 2) && two_digits(s, 5) && two_digits(s, 8) && s[4]
        == '-' && s[7] == '-';
    let time = two_digits(s, 11) && two_digits(s, 14) && (s[10] == 'T' || s[10] == ' ') && s[13]
        == ':';
    let second = two_digits(s, 17) && s[16] == ':';
    if !date {
        None
    } else if !time {
        Some(
            seq![
                Some(s.take(10)),
                Some(s.take(4)),
                Some(s.subrange(5, 7)),
                Some(s.subrange(8, 10)),
                None,
                None,
                None,
            ],
        )
    } else {
        Some(
            seq![
                Some(s.take(if second { 19 } else { 16 })),
                Some(s.take(4)),
                Some(s.subrange(5, 7)),
                Some(s.subrange(8, 10)),
                Some(s.subrange(11, 13)),
                Some(s.subrange(14, 16)),
                if second {
                    Some(s.subrange(17, 19))
                } else {
                    None
                },
            ],
        )
    }
}

/// Whether the first `n` characters of a text are ASCII.
pub open spec fn ascii_start(s: Seq<char>, n: int) -> bool {
    forall|i: int| 0 <= i < n && i < s.len() ==> (#[trigger] s[i] as u32) < 0x80
}

/// `regex::Regex::new` and `Regex::captures`: the groups of the first match.
/// Of the date pattern a match has a group of four and two to five groups of
/// two decimal digits, no other group has text, and in a text whose first
/// nineteen characters are ASCII those are the groups of [`ascii_date`]. Which
/// characters beyond ASCII count as digits is left unsaid.
#[verifier::external_body]
fn captures(pattern: &str, text: &str) -> (r: Option<Vec<Option<String>>>)
    ensures
        captures_view(r) == regex_captures(pattern@, text@),
        pattern@ == date_pattern() && r is Some ==> date_shaped(text::opt_views(r->0@)),
        pattern@ == date_pattern() && ascii_start(text@, 19) ==> captures_view(r) == ascii_date(
            text@,
        ),
{
    let re = regex::Regex::new(pattern).ok()?;
    let caps = re.captures(text)?;
    Some(caps.iter().map(|m| m.map(|m| m.as_str().to_string())).collect())
}

/// The number in a group, if it is one.
pub open spec fn group_number(g: Option<Seq<char>>) -> Option<int> {
    match g {
        Some(s) => number::unsigned(s, 10, 9999),
        None => None,
    }
}

/// The part of a time of day in a group: zero where there is no group, and
/// nothing where it is no number below the limit.
pub open spec fn clock_part(g: Option<Seq<char>>, limit: int) -> Option<int> {
    match (g, group_number(g)) {
        (None, _) => Some(0),
        (Some(_), Some(n)) => if n < limit {
            Some(n)
        } else {
            None
        },
        (Some(_), None) => None,
    }
}

/// The seconds of a day at the hour, the minute and the second in groups, if
/// there is such a time of day.
pub open spec fn clock_time(
    hour: Option<Seq<char>>,
    minute: Option<Seq<char>>,
    second: Option<Seq<char>>,
) -> Option<int> {
    match (clock_part(hour, 24), clock_part(minute, 60), clock_part(second, 60)) {
        (Some(h), Some(m), Some(s)) => Some(h * 3600 + m * 60 + s),
        _ => None,
    }
}

/// The time that the groups of a date stand for, if the calendar has such a day
/// and the day such a time.
pub open spec fn groups_time(g: Seq<Option<Seq<char>>>) -> Option<int> {
    match (group_number(g[1]), group_number(g[2]), group_number(g[3])) {
        (Some(y), Some(m), Some(d)) => match clock_time(g[4], g[5], g[6]) {
            Some(t) => if calendar::is_date(y, m, d) {
                Some(calendar::date_days(y, m, d) * 86400 + t)
            } else {
                None
            },
            None => None,
        },
        _ => None,
    }
}

#[verifier::rlimit(60)]
#[verifier::spinoff_prover]
proof fn lemma_short_digits(s: Seq<char>)
    requires
        number::all_digits(s, 10),
    ensures
        s.len() <= 2 ==> 0 <= number::digits_value(s, 10) <= 99,
        s.len() <= 4 ==> 0 <= number::digits_value(s, 10) <= 9999,
{
    reveal_with_fuel(number::digits_value, 5);
    assert(forall|i: int| 0 <= i < s.len() ==> number::is_digit(#[trigger] s[i], 10));
    if 1 <= s.len() <= 4 {
        assert(number::is_digit(s[0], 10));
        assert(number::is_digit(s[s.len() - 1], 10));
        if s.len() >= 2 {
            assert(number::is_digit(s[1], 10));
        }
        if s.len() >= 3 {
            assert(number::is_digit(s[2], 10));
        }
    }
}

fn number_in(g: &Option<String>, Ghost(n): Ghost<int>) -> (r: Option<i64>)
    requires
        *g is Some ==> digit_group(text::opt_view(*g), n),
        0 <= n <= 4,
    ensures
        r is Some <==> group_number(text::opt_view(*g)) is Some,
        r matches Some(v) ==> group_number(text::opt_view(*g)) == Some(v as int),
        r matches Some(v) ==> 0 <= v <= 9999 && (n <= 2 ==> v <= 99),
{
    match g {
        Some(s) => {
            let chars = to_chars(s.as_str());
            proof {
                assert(chars@.len() > 0 ==> chars@.contains(chars@[0]));
                if number::all_digits(chars@, 10) {
                    lemma_short_digits(chars@);
                }
            }
            match parse_unsigned(&chars, 10, 9999) {
                Some(v) => Some(v as i64),
                None => None,
            }
        },
        None => None,
    }
}

fn read_part(g: &Option<String>, limit: i64) -> (r: Option<i64>)
    requires
        *g is Some ==> digit_group(text::opt_view(*g), 2),
        0 < limit <= 60,
    ensures
        r is Some <==> clock_part(text::opt_view(*g), limit as int) is Some,
        r matches Some(v) ==> clock_part(text::opt_view(*g), limit as int) == Some(v as int),
        r matches Some(v) ==> 0 <= v < limit,
{
    if g.is_none() {
        return Some(0);
    }
    match number_in(g, Ghost(2)) {
        Some(n) => if n < limit {
            Some(n)
        } else {
            None
        },
        None => None,
    }
}

/// The time that the captured groups of a date stand for, if they are a date.
#[verifier::rlimit(60)]
#[verifier::spinoff_prover]
pub fn mtime_from_groups(groups: &[Option<String>]) -> (r: Option<i64>)
    requires
        date_shaped(text::opt_views(groups@)),
    ensures
        r is Some <==> groups_time(text::opt_views(groups@)) is Some,
        r matches Some(t) ==> groups_time(text::opt_views(groups@)) == Some(t as int),
{
    let ghost g = text::opt_views(groups@);
    assert(forall|i: int| 0 <= i < 7 ==> g[i] == text::opt_view(groups@[i]));
    let (y, m, d) = match (
        number_in(&groups[1], Ghost(4)),
        number_in(&groups[2], Ghost(2)),
        number_in(&groups[3], Ghost(2)),
    ) {
        (Some(y), Some(m), Some(d)) => (y, m, d),
        _ => {
            return None;
        },
    };
    let (h, mi, sec) = match (
        read_part(&groups[4], 24),
        read_part(&groups[5], 60),
        read_part(&groups[6], 60),
    ) {
        (Some(h), Some(mi), Some(sec)) => (h, mi, sec),
        _ => {
            return None;
        },
    };
    if !is_calendar_date(y, m, d) {
        return None;
    }
    let days: i64 = days_of_date(y, m, d);
    Some(days * 86400 + (h * 3600 + mi * 60 + sec))
}

/// The groups of the date at the start of a text.
pub open spec fn date_groups(s: Seq<char>) -> Option<Seq<Option<Seq<char>>>> {
    if ascii_start(s, 19) {
        ascii_date(s)
    } else {
        regex_captures(date_pattern(), s)
    }
}

/// What a modification time argument stands for: seconds behind `@`, else a
/// date with or without a time of day.
pub open spec fn mtime_argument(s: Seq<char>) -> Option<int> {
    if s.len() > 0 && s[0] == '@' {
        number::signed(s.drop_first(), i64::MIN as int, i64::MAX as int)
    } else {
        match date_groups(s) {
            Some(g) => groups_time(g),
            None => None,
        }
    }
}

/// Reads the argument of `--mtime`: `@` and seconds, or a date like
/// `2023-04-01 12:00:00`. `None` where the value cannot be interpreted.
pub fn parse_mtime_arg(val: &str) -> (r: Option<i64>)
    ensures
        r is Some <==> mtime_argument(val@) is Some,
        r matches Some(t) ==> mtime_argument(val@) == Some(t as int),
{
    let chars = to_chars(val);
    if chars.len() > 0 && chars[0] == '@' {
        let rest = vstd::slice::slice_subrange(chars.as_slice(), 1, chars.len());
        assert(rest@ =~= val@.drop_first());
        return parse_i64(rest);
    }
    match captures(r"^(\d{4})-(\d{2})-(\d{2})(?:[T ](\d{2}):(\d{2})(?::(\d{2}))?)?", val) {
        Some(groups) => mtime_from_groups(&groups),
        None => None,
    }
}

/// A small number padded to two or four digits is read back from them.
proof fn lemma_padded(n: int, width: int)
    requires
        width == 2 && 0 <= n <= 99 || width == 4 && 0 <= n <= 9999,
    ensures
        number::padded_decimal(n, width).len() == width,
        number::all_digits(number::padded_decimal(n, width), 10),
        group_number(Some(number::padded_decimal(n, width))) == Some(n),
{
    let s = number::padded_decimal(n, width);
    number::lemma_decimal(n);
    number::lemma_zero_padded(number::decimal(n), width);
    assert(number::decimal(n).len() <= width) by {
        reveal_with_fuel(number::decimal, 5);
    }
    assert(number::is_digit(s[0], 10));
}

/// A time with a year of four digits is read back, but for its seconds, from
/// the text that it is written as.
#[verifier::rlimit(60)]
#[verifier::spinoff_prover]
pub proof fn law_mtime_round_trip(secs: int)
    requires
        0 <= calendar::date_of(secs / 86400).0 <= 9999,
    ensures
        mtime_argument(time_text(secs)) == Some(secs - secs % 60),
{
    let days = secs / 86400;
    let s = secs % 86400;
    let (y, m, d) = calendar::date_of(days);
    calendar::law_every_day_has_a_date(days);
    let (yy, mm, dd, hh, mi) = (
        number::padded_decimal(y, 4),
        number::padded_decimal(m, 2),
        number::padded_decimal(d, 2),
        number::padded_decimal(s / 3600, 2),
        number::padded_decimal((s / 60) % 60, 2),
    );
    lemma_padded(y, 4);
    lemma_padded(m, 2);
    lemma_padded(d, 2);
    lemma_padded(s / 3600, 2);
    lemma_padded((s / 60) % 60, 2);
    let t = time_text(secs);
    assert(t.len() == 16);
    assert(t.take(4) =~= yy);
    assert(t.subrange(5, 7) =~= mm);
    assert(t.subrange(8, 10) =~= dd);
    assert(t.subrange(11, 13) =~= hh);
    assert(t.subrange(14, 16) =~= mi);
    assert(t[0] == yy[0] && t[1] == yy[1] && t[2] == yy[2] && t[3] == yy[3]);
    assert(t[5] == mm[0] && t[6] == mm[1]);
    assert(t[8] == dd[0] && t[9] == dd[1]);
    assert(t[11] == hh[0] && t[12] == hh[1]);
    assert(t[14] == mi[0] && t[15] == mi[1]);
    assert forall|i: int| 0 <= i < 19 && i < t.len() implies (#[trigger] t[i] as u32) < 0x80 by {
        if i < 4 {
            assert(number::is_digit(yy[i], 10));
        } else if 5 <= i < 7 {
            assert(number::is_digit(mm[i - 5], 10));
        } else if 8 <= i < 10 {
            assert(number::is_digit(dd[i - 8], 10));
        } else if 11 <= i < 13 {
            assert(number::is_digit(hh[i - 11], 10));
        } else if 14 <= i < 16 {
            assert(number::is_digit(mi[i - 14], 10));
        }
    }
    assert(ascii_start(t, 19));
    assert(number::is_digit(t[0], 10));
}

/// A time with a year of four digits takes sixteen characters.
pub proof fn lemma_time_length(secs: int)
    requires
        0 <= calendar::date_of(secs / 86400).0 <= 9999,
    ensures
        time_text(secs).len() == 16,
{
    let (y, m, d) = calendar::date_of(secs / 86400);
    let s = secs % 86400;
    calendar::law_every_day_has_a_date(secs / 86400);
    lemma_padded(y, 4);
    lemma_padded(m, 2);
    lemma_padded(d, 2);
    lemma_padded(s / 3600, 2);
    lemma_padded((s / 60) % 60, 2);
}

/// Seconds behind `@` are read back as they were written, before the epoch with
/// a dash in front of them.
pub proof fn law_mtime_seconds(secs: i64)
    ensures
        secs >= 0 ==> mtime_argument(seq!['@'] + number::decimal(secs as int)) == Some(secs as int),
        secs <= 0 ==> mtime_argument(seq!['@', '-'] + number::decimal(-secs)) == Some(secs as int),
{
    let n = if secs >= 0 {
        secs as int
    } else {
        -secs
    };
    let s = number::decimal(n);
    number::lemma_decimal(n);
    assert((seq!['@'] + s).drop_first() =~= s);
    assert((seq!['@', '-'] + s).drop_first() =~= seq!['-'] + s);
    assert((seq!['-'] + s).drop_first() =~= s);
    assert(number::is_digit(s[0], 10));
}

/// A time is its minute: day, hour and minute of the hour follow from it.
proof fn lemma_minute(secs: int)
    ensures
        secs / 86400 == (secs / 60) / 1440,
        (secs % 86400) / 3600 == ((secs / 60) % 1440) / 60,
        ((secs % 86400) / 60) % 60 == ((secs / 60) % 1440) % 60,
{
}

/// The parts of two texts of digits in their order.
proof fn lemma_padded_order(m: int, n: int, width: int)
    requires
        width == 2 && 0 <= m <= 99 && 0 <= n <= 99 || width == 4 && 0 <= m <= 9999 && 0 <= n
            <= 9999,
    ensures
        m < n ==> text::before(
            number::padded_decimal(m, width),
            number::padded_decimal(n, width),
        ),
        number::padded_decimal(m, width).len() == width,
        number::padded_decimal(n, width).len() == width,
{
    let s = number::padded_decimal(m, width);
    let t = number::padded_decimal(n, width);
    lemma_padded(m, width);
    lemma_padded(n, width);
    number::lemma_decimal(m);
    number::lemma_decimal(n);
    number::lemma_zero_padded(number::decimal(m), width);
    number::lemma_zero_padded(number::decimal(n), width);
    number::lemma_digits_order(s, t);
}

/// The times of the years of four digits are written in sixteen characters,
/// and their texts are ordered as the minutes are.
#[verifier::rlimit(60)]
#[verifier::spinoff_prover]
pub proof fn law_times_in_order(a: int, b: int)
    requires
        -62167219200 <= a <= b < 253402300800,
    ensures
        time_text(a).len() == 16,
        time_text(b).len() == 16,
        time_text(a) == time_text(b) <==> a / 60 == b / 60,
        a / 60 < b / 60 ==> text::before(time_text(a), time_text(b)),
{
    lemma_minute(a);
    lemma_minute(b);
    let (y1, m1, d1) = calendar::date_of(a / 86400);
    let (y2, m2, d2) = calendar::date_of(b / 86400);
    let (s1, s2) = (a % 86400, b % 86400);
    let (h1, h2) = (s1 / 3600, s2 / 3600);
    let (n1, n2) = ((s1 / 60) % 60, (s2 / 60) % 60);
    calendar::lemma_four_digit_years(a / 86400);
    calendar::lemma_four_digit_years(b / 86400);
    calendar::law_every_day_has_a_date(a / 86400);
    calendar::law_every_day_has_a_date(b / 86400);
    lemma_padded_order(y1, y2, 4);
    lemma_padded_order(m1, m2, 2);
    lemma_padded_order(d1, d2, 2);
    lemma_padded_order(h1, h2, 2);
    lemma_padded_order(n1, n2, 2);
    if a / 60 < b / 60 {
        if a / 86400 < b / 86400 {
            calendar::law_dates_in_order(a / 86400, b / 86400);
        }
        lemma_order_of_parts(a, b);
        lemma_before_differs(time_text(a), time_text(b));
    }
}

proof fn lemma_before_differs(s: Seq<char>, t: Seq<char>)
    requires
        text::before(s, t),
    ensures
        s != t,
{
    if s == t {
        let i = choose|i: int| text::differs_below(s, t, i);
        assert(s[i] == t[i]);
    }
}

/// Times whose first part that differs is the lower one come first.
#[verifier::rlimit(60)]
#[verifier::spinoff_prover]
proof fn lemma_order_of_parts(a: int, b: int)
    requires
        ({
            let (y1, m1, d1) = calendar::date_of(a / 86400);
            let (y2, m2, d2) = calendar::date_of(b / 86400);
            let (s1, s2) = (a % 86400, b % 86400);
            let (h1, h2) = (s1 / 3600, s2 / 3600);
            let (n1, n2) = ((s1 / 60) % 60, (s2 / 60) % 60);
            &&& 0 <= y1 <= 9999 && 0 <= y2 <= 9999
            &&& 0 <= m1 <= 99 && 0 <= m2 <= 99
            &&& 0 <= d1 <= 99 && 0 <= d2 <= 99
            &&& 0 <= h1 <= 99 && 0 <= h2 <= 99
            &&& 0 <= n1 <= 99 && 0 <= n2 <= 99
            &&& {
                ||| y1 < y2
                ||| y1 == y2 && m1 < m2
                ||| y1 == y2 && m1 == m2 && d1 < d2
                ||| y1 == y2 && m1 == m2 && d1 == d2 && h1 < h2
                ||| y1 == y2 && m1 == m2 && d1 == d2 && h1 == h2 && n1 < n2
            }
        }),
    ensures
        text::before(time_text(a), time_text(b)),
{
    let (y1, m1, d1) = calendar::date_of(a / 86400);
    let (y2, m2, d2) = calendar::date_of(b / 86400);
    let (s1, s2) = (a % 86400, b % 86400);
    let (h1, h2) = (s1 / 3600, s2 / 3600);
    let (n1, n2) = ((s1 / 60) % 60, (s2 / 60) % 60);
    let (ta, tb) = (time_text(a), time_text(b));
    lemma_padded_order(y1, y2, 4);
    lemma_padded_order(m1, m2, 2);
    lemma_padded_order(d1, d2, 2);
    lemma_padded_order(h1, h2, 2);
    lemma_padded_order(n1, n2, 2);
    let (p, q, from, to) = if y1 < y2 {
        (number::padded_decimal(y1, 4), number::padded_decimal(y2, 4), 0int, 4int)
    } else if m1 < m2 {
        (number::padded_decimal(m1, 2), number::padded_decimal(m2, 2), 5int, 7int)
    } else if d1 < d2 {
        (number::padded_decimal(d1, 2), number::padded_decimal(d2, 2), 8int, 10int)
    } else if h1 < h2 {
        (number::padded_decimal(h1, 2), number::padded_decimal(h2, 2), 11int, 13int)
    } else {
        (number::padded_decimal(n1, 2), number::padded_decimal(n2, 2), 14int, 16int)
    };
    assert(ta.subrange(from, to) =~= p);
    assert(tb.subrange(from, to) =~= q);
    assert(ta.take(from) =~= tb.take(from));
    assert(ta =~= ta.take(from) + p + ta.skip(to));
    assert(tb =~= ta.take(from) + q + tb.skip(to));
    text::lemma_before_within(ta.take(from), p, q, ta.skip(to), tb.skip(to));
}

/// A date and a time of day are interpreted only where the calendar has such a
/// day and the day such a time.
pub proof fn law_dates_interpreted(g: Seq<Option<Seq<char>>>)
    ensures
        groups_time(g) is Some <==> {
            &&& group_number(g[1]) is Some
            &&& group_number(g[2]) is Some
            &&& group_number(g[3]) is Some
            &&& calendar::is_date(
                group_number(g[1])->0,
                group_number(g[2])->0,
                group_number(g[3])->0,
            )
            &&& clock_part(g[4], 24) is Some
            &&& clock_part(g[5], 60) is Some
            &&& clock_part(g[6], 60) is Some
        },
{
}

/// A date is read as its day, and with a time of day behind a space or a `T` as
/// that second of it; what is no day of the calendar is not interpreted.
#[verifier::rlimit(60)]
#[verifier::spinoff_prover]
pub proof fn law_dates_read(y: int, m: int, d: int, h: int, mi: int, s: int, sep: char)
    requires
        0 <= y <= 9999,
        0 <= m <= 99,
        0 <= d <= 99,
        0 <= h <= 99,
        0 <= mi <= 99,
        0 <= s <= 99,
        sep == ' ' || sep == 'T',
    ensures
        ({
            let date = number::padded_decimal(y, 4) + seq!['-'] + number::padded_decimal(m, 2)
                + seq!['-'] + number::padded_decimal(d, 2);
            let minute = date.push(sep) + number::padded_decimal(h, 2) + seq![':']
                + number::padded_decimal(mi, 2);
            let second = minute.push(':') + number::padded_decimal(s, 2);
            let day = calendar::date_days(y, m, d) * 86400;
            &&& mtime_argument(date) == (if calendar::is_date(y, m, d) {
                Some(day)
            } else {
                None
            })
            &&& mtime_argument(minute) == (if calendar::is_date(y, m, d) && h < 24 && mi < 60 {
                Some(day + h * 3600 + mi * 60)
            } else {
                None
            })
            &&& mtime_argument(second) == (if calendar::is_date(y, m, d) && h < 24 && mi < 60 && s
                < 60 {
                Some(day + h * 3600 + mi * 60 + s)
            } else {
                None
            })
        }),
{
    let (yy, mm, dd, hh, mn, ss) = (
        number::padded_decimal(y, 4),
        number::padded_decimal(m, 2),
        number::padded_decimal(d, 2),
        number::padded_decimal(h, 2),
        number::padded_decimal(mi, 2),
        number::padded_decimal(s, 2),
    );
    lemma_padded(y, 4);
    lemma_padded(m, 2);
    lemma_padded(d, 2);
    lemma_padded(h, 2);
    lemma_padded(mi, 2);
    lemma_padded(s, 2);
    let date = yy + seq!['-'] + mm + seq!['-'] + dd;
    let minute = date.push(sep) + hh + seq![':'] + mn;
    let second = minute.push(':') + ss;
    lemma_date_text(yy, mm, dd, hh, mn, ss, sep);
    assert(ascii_date(date) == date_groups(date));
    assert(ascii_date(minute) == date_groups(minute));
    assert(ascii_date(second) == date_groups(second));
    assert(date[0] == yy[0] && minute[0] == yy[0] && second[0] == yy[0]);
    assert(number::is_digit(yy[0], 10));
    let g = date_groups(date)->0;
    assert(g[1] == Some(yy) && g[2] == Some(mm) && g[3] == Some(dd));
    let g = date_groups(minute)->0;
    assert(g[1] == Some(yy) && g[2] == Some(mm) && g[3] == Some(dd));
    assert(g[4] == Some(hh) && g[5] == Some(mn) && g[6] is None);
    let g = date_groups(second)->0;
    assert(g[1] == Some(yy) && g[2] == Some(mm) && g[3] == Some(dd));
    assert(g[4] == Some(hh) && g[5] == Some(mn) && g[6] == Some(ss));
}

#[verifier::rlimit(60)]
#[verifier::spinoff_prover]
proof fn lemma_date_text(
    yy: Seq<char>,
    mm: Seq<char>,
    dd: Seq<char>,
    hh: Seq<char>,
    mn: Seq<char>,
    ss: Seq<char>,
    sep: char,
)
    requires
        yy.len() == 4 && number::all_digits(yy, 10),
        mm.len() == 2 && number::all_digits(mm, 10),
        dd.len() == 2 && number::all_digits(dd, 10),
        hh.len() == 2 && number::all_digits(hh, 10),
        mn.len() == 2 && number::all_digits(mn, 10),
        ss.len() == 2 && number::all_digits(ss, 10),
        sep == ' ' || sep == 'T',
    ensures
        ({
            let date = yy + seq!['-'] + mm + seq!['-'] + dd;
            let minute = date.push(sep) + hh + seq![':'] + mn;
            let second = minute.push(':') + ss;
            &&& ascii_start(date, 19) && ascii_start(minute, 19) && ascii_start(second, 19)
            &&& ascii_date(date) == Some(
                seq![Some(date), Some(yy), Some(mm), Some(dd), None, None, None],
            )
            &&& ascii_date(minute) == Some(
                seq![Some(minute), Some(yy), Some(mm), Some(dd), Some(hh), Some(mn), None],
            )
            &&& ascii_date(second) == Some(
                seq![Some(second), Some(yy), Some(mm), Some(dd), Some(hh), Some(mn), Some(ss)],
            )
        }),
{
    let date = yy + seq!['-'] + mm + seq!['-'] + dd;
    let minute = date.push(sep) + hh + seq![':'] + mn;
    let second = minute.push(':') + ss;
    assert(number::is_digit(yy[0], 10) && number::is_digit(yy[1], 10));
    assert(number::is_digit(yy[2], 10) && number::is_digit(yy[3], 10));
    assert(number::is_digit(mm[0], 10) && number::is_digit(mm[1], 10));
    assert(number::is_digit(dd[0], 10) && number::is_digit(dd[1], 10));
    assert(number::is_digit(hh[0], 10) && number::is_digit(hh[1], 10));
    assert(number::is_digit(mn[0], 10) && number::is_digit(mn[1], 10));
    assert(number::is_digit(ss[0], 10) && number::is_digit(ss[1], 10));
    assert forall|i: int| 0 <= i < 19 implies (#[trigger] second[i] as u32) < 0x80 by {
        if i < 4 {
            assert(second[i] == yy[i] && number::is_digit(yy[i], 10));
        } else if 5 <= i < 7 {
            assert(second[i] == mm[i - 5] && number::is_digit(mm[i - 5], 10));
        } else if 8 <= i < 10 {
            assert(second[i] == dd[i - 8] && number::is_digit(dd[i - 8], 10));
        } else if 11 <= i < 13 {
            assert(second[i] == hh[i - 11] && number::is_digit(hh[i - 11], 10));
        } else if 14 <= i < 16 {
            assert(second[i] == mn[i - 14] && number::is_digit(mn[i - 14], 10));
        } else if 17 <= i {
            assert(second[i] == ss[i - 17] && number::is_digit(ss[i - 17], 10));
        }
    }
    assert forall|i: int| 0 <= i < 16 implies #[trigger] minute[i] == second[i] by {}
    assert forall|i: int| 0 <= i < 10 implies #[trigger] date[i] == second[i] by {}
    assert(date.take(10) =~= date);
    assert(date.take(4) =~= yy && minute.take(4) =~= yy && second.take(4) =~= yy);
    assert(date.subrange(5, 7) =~= mm && minute.subrange(5, 7) =~= mm && second.subrange(5, 7)
        =~= mm);
    assert(date.subrange(8, 10) =~= dd && minute.subrange(8, 10) =~= dd && second.subrange(8, 10)
        =~= dd);
    assert(minute.subrange(11, 13) =~= hh && second.subrange(11, 13) =~= hh);
    assert(minute.subrange(14, 16) =~= mn && second.subrange(14, 16) =~= mn);
    assert(second.subrange(17, 19) =~= ss);
    assert(minute.take(16) =~= minute);
    assert(second.take(19) =~= second);
}

/// What follows an `@` is a signed number of seconds, or nothing.
pub proof fn law_seconds_read(t: Seq<char>)
    ensures
        mtime_argument(seq!['@'] + t) == number::signed(t, i64::MIN as int, i64::MAX as int),
{
    assert((seq!['@'] + t).drop_first() =~= t);
}

/// A time is written as its date, with the year in four digits where these are
/// enough, and the hour and minute of its day in two digits each.
pub proof fn law_time_written(secs: int)
    ensures
        ({
            let t = time_text(secs);
            let (y, m, d) = calendar::date_of(secs / 86400);
            let n = t.len();
            &&& calendar::is_date(y, m, d)
            &&& calendar::date_days(y, m, d) == secs / 86400
            &&& n >= 16
            &&& t[n - 3] == ':' && t[n - 6] == ' ' && t[n - 9] == '-' && t[n - 12] == '-'
            &&& number::unsigned(t.subrange(n - 2, n as int), 10, 59) == Some(secs % 3600 / 60)
            &&& number::unsigned(t.subrange(n - 5, n - 3), 10, 23) == Some(secs % 86400 / 3600)
            &&& number::unsigned(t.subrange(n - 8, n - 6), 10, 31) == Some(d)
            &&& number::unsigned(t.subrange(n - 11, n - 9), 10, 12) == Some(m)
            &&& t.take(n - 12) == number::padded_decimal(y, 4)
        }),
{
    let (y, m, d) = calendar::date_of(secs / 86400);
    let s = secs % 86400;
    calendar::law_every_day_has_a_date(secs / 86400);
    lemma_two(m, 12);
    lemma_two(d, 31);
    lemma_two(s / 3600, 23);
    lemma_two((s / 60) % 60, 59);
    assert((s / 60) % 60 == secs % 3600 / 60);
    number::law_padded(y, 4);
    number::law_padded(-y, 3);
    let yy = number::padded_decimal(y, 4);
    assert(yy.len() >= 4);
    let t = time_text(secs);
    let n = t.len() as int;
    assert(n == yy.len() + 12);
    assert(t.take(n - 12) =~= yy);
    assert(t.subrange(n - 11, n - 9) =~= number::padded_decimal(m, 2));
    assert(t.subrange(n - 8, n - 6) =~= number::padded_decimal(d, 2));
    assert(t.subrange(n - 5, n - 3) =~= number::padded_decimal(s / 3600, 2));
    assert(t.subrange(n - 2, n) =~= number::padded_decimal((s / 60) % 60, 2));
}

proof fn lemma_two(n: int, max: int)
    requires
        0 <= n <= max <= 99,
    ensures
        number::padded_decimal(n, 2).len() == 2,
        number::unsigned(number::padded_decimal(n, 2), 10, max) == Some(n),
{
    lemma_padded(n, 2);
    let s = number::padded_decimal(n, 2);
    assert(number::is_digit(s[0], 10));
    number::lemma_decimal(n);
    number::lemma_zero_padded(number::decimal(n), 2);
}

} // verus!
