//! Character sequences: the small string operations that the rest of the
//! library is built from.

use vstd::prelude::*;
use vstd::slice::{slice_subrange, slice_to_vec};

verus! {

/// `String::push` appends one character.
pub assume_specification[ String::push ](s: &mut String, c: char)
    ensures
        final(s)@ == old(s)@.push(c),
;

/// The characters of a string.
pub fn to_chars(s: &str) -> (r: Vec<char>)
    ensures
        r@ == s@,
{
    let mut v: Vec<char> = Vec::new();
    for c in it: s.chars()
        invariant
            it.seq() == s@,
            v@ == s@.take(it.index()),
    {
        v.push(c);
        assert(v@ =~= s@.take(it.index() + 1));
    }
    assert(v@ =~= s@);
    v
}

/// The string made of a run of characters.
pub fn from_chars(chars: &[char]) -> (r: String)
    ensures
        r@ == chars@,
{
    let mut s = String::new();
    for i in 0..chars.len()
        invariant
            s@ == chars@.take(i as int),
    {
        s.push(chars[i]);
        assert(s@ =~= chars@.take(i + 1));
    }
    assert(s@ =~= chars@);
    s
}

/// A copy of a string slice.
pub fn owned(s: &str) -> (r: String)
    ensures
        r@ == s@,
{
    String::from_str(s)
}

/// Whether two runs of characters are equal.
pub fn same_chars(x: &[char], y: &[char]) -> (r: bool)
    ensures
        r == (x@ == y@),
{
    if x.len() != y.len() {
        return false;
    }
    for i in 0..x.len()
        invariant
            x.len() == y.len(),
            x@.take(i as int) == y@.take(i as int),
    {
        if x[i] != y[i] {
            assert(x@[i as int] != y@[i as int]);
            return false;
        }
        assert(x@.take(i + 1) =~= y@.take(i + 1));
    }
    assert(x@ =~= x@.take(x@.len() as int));
    assert(y@ =~= y@.take(x@.len() as int));
    true
}

/// Whether two strings hold the same characters.
pub fn same(a: &str, b: &str) -> (r: bool)
    ensures
        r == (a@ == b@),
{
    let x = to_chars(a);
    let y = to_chars(b);
    same_chars(&x, &y)
}

/// Whether `s` begins with `prefix`.
pub fn starts_with(s: &[char], prefix: &[char]) -> (r: bool)
    ensures
        r == prefix@.is_prefix_of(s@),
{
    if prefix.len() > s.len() {
        return false;
    }
    same_chars(slice_subrange(s, 0, prefix.len()), prefix)
}

/// Whether `s` ends with `suffix`.
pub fn ends_with(s: &[char], suffix: &[char]) -> (r: bool)
    ensures
        r == suffix@.is_suffix_of(s@),
{
    if suffix.len() > s.len() {
        return false;
    }
    same_chars(slice_subrange(s, s.len() - suffix.len(), s.len()), suffix)
}

/// What follows `prefix` in `s`, if `s` begins with it.
pub fn strip_prefix(s: &str, prefix: &str) -> (r: Option<String>)
    ensures
        r is Some <==> prefix@.is_prefix_of(s@),
        r matches Some(rest) ==> rest@ == s@.skip(prefix@.len() as int),
{
    let x = to_chars(s);
    let p = to_chars(prefix);
    if starts_with(&x, &p) {
        assert(x@.subrange(p@.len() as int, x@.len() as int) =~= s@.skip(prefix@.len() as int));
        Some(from_chars(slice_subrange(x.as_slice(), p.len(), x.len())))
    } else {
        None
    }
}

/// Whether `c` occurs in `s`.
pub fn contains_char(s: &[char], c: char) -> (r: bool)
    ensures
        r == s@.contains(c),
{
    for i in 0..s.len()
        invariant
            forall|j: int| 0 <= j < i ==> s@[j] != c,
    {
        if s[i] == c {
            assert(s@[i as int] == c);
            return true;
        }
    }
    false
}

/// `s` without the run of `c` at its end.
pub open spec fn trim_end_of(s: Seq<char>, c: char) -> Seq<char>
    decreases s.len(),
{
    if s.len() > 0 && s.last() == c {
        trim_end_of(s.drop_last(), c)
    } else {
        s
    }
}

/// `s` without the run of `c` at its start.
pub open spec fn trim_start_of(s: Seq<char>, c: char) -> Seq<char>
    decreases s.len(),
{
    if s.len() > 0 && s[0] == c {
        trim_start_of(s.drop_first(), c)
    } else {
        s
    }
}

/// Trimming keeps what stands before a character that it does not take away.
pub proof fn lemma_trim_end_keeps(s: Seq<char>, c: char, k: int)
    requires
        0 <= k < s.len(),
        s[k] != c,
    ensures
        k < trim_end_of(s, c).len(),
        trim_end_of(s, c).is_prefix_of(s),
    decreases s.len(),
{
    if s.last() == c {
        let t = s.drop_last();
        lemma_trim_end_keeps(t, c, k);
        let r = trim_end_of(s, c);
        assert(r =~= s.subrange(0, r.len() as int)) by {
            assert forall|i: int| 0 <= i < r.len() implies r[i] == s[i] by {
                assert(r[i] == t.subrange(0, r.len() as int)[i]);
            }
        }
    } else {
        assert(s =~= s.subrange(0, s.len() as int));
    }
}

pub fn trim_end_char(s: &[char], c: char) -> (r: &[char])
    ensures
        r@ == trim_end_of(s@, c),
{
    let mut n: usize = s.len();
    assert(s@.take(n as int) =~= s@);
    while n > 0 && s[n - 1] == c
        invariant
            n <= s.len(),
            trim_end_of(s@.take(n as int), c) == trim_end_of(s@, c),
        decreases n,
    {
        assert(s@.take(n as int).drop_last() =~= s@.take(n - 1));
        n = n - 1;
    }
    slice_subrange(s, 0, n)
}

pub fn trim_start_char(s: &[char], c: char) -> (r: &[char])
    ensures
        r@ == trim_start_of(s@, c),
{
    let mut n: usize = 0;
    assert(s@.skip(0) =~= s@);
    while n < s.len() && s[n] == c
        invariant
            n <= s.len(),
            trim_start_of(s@.skip(n as int), c) == trim_start_of(s@, c),
        decreases s.len() - n,
    {
        assert(s@.skip(n as int).drop_first() =~= s@.skip(n + 1));
        n = n + 1;
    }
    assert(s@.subrange(n as int, s@.len() as int) =~= s@.skip(n as int));
    slice_subrange(s, n, s.len())
}

/// Whether a text comes before another in the order of strings: it is a
/// beginning of the other, or the first character that differs is the lower
/// one.
pub open spec fn before(s: Seq<char>, t: Seq<char>) -> bool {
    ||| s.len() < t.len() && s.is_prefix_of(t)
    ||| exists|i: int| differs_below(s, t, i)
}

/// Whether two texts first differ at a position, and the first has the lower
/// character there.
pub open spec fn differs_below(s: Seq<char>, t: Seq<char>, i: int) -> bool {
    0 <= i < s.len() && i < t.len() && s.take(i) == t.take(i) && (s[i] as u32) < (t[i] as u32)
}

/// The order of two texts of one length is that of two longer ones that they
/// stand in, at the same place behind the same text.
pub proof fn lemma_before_within(
    head: Seq<char>,
    s: Seq<char>,
    t: Seq<char>,
    s_tail: Seq<char>,
    t_tail: Seq<char>,
)
    requires
        s.len() == t.len(),
        before(s, t),
    ensures
        before(head + s + s_tail, head + t + t_tail),
{
    let i = choose|i: int| differs_below(s, t, i);
    let k = head.len() + i;
    let a = head + s + s_tail;
    let b = head + t + t_tail;
    assert(a.take(k) =~= head + s.take(i));
    assert(b.take(k) =~= head + t.take(i));
    assert(differs_below(a, b, k));
}

/// The characters with the Unicode property `White_Space`.
pub open spec fn is_white(c: char) -> bool {
    ||| 0x9 <= c as u32 <= 0xd
    ||| c as u32 == 0x20
    ||| c as u32 == 0x85
    ||| c as u32 == 0xa0
    ||| c as u32 == 0x1680
    ||| 0x2000 <= c as u32 <= 0x200a
    ||| c as u32 == 0x2028
    ||| c as u32 == 0x2029
    ||| c as u32 == 0x202f
    ||| c as u32 == 0x205f
    ||| c as u32 == 0x3000
}

pub fn is_whitespace(c: char) -> (r: bool)
    ensures
        r == is_white(c),
{
    let n: u32 = c as u32;
    (0x9 <= n && n <= 0xd) || n == 0x20 || n == 0x85 || n == 0xa0 || n == 0x1680 || (0x2000 <= n
        && n <= 0x200a) || n == 0x2028 || n == 0x2029 || n == 0x202f || n == 0x205f || n == 0x3000
}

pub open spec fn skip_white(s: Seq<char>) -> Seq<char>
    decreases s.len(),
{
    if s.len() > 0 && is_white(s[0]) {
        skip_white(s.drop_first())
    } else {
        s
    }
}

pub open spec fn drop_white(s: Seq<char>) -> Seq<char>
    decreases s.len(),
{
    if s.len() > 0 && is_white(s.last()) {
        drop_white(s.drop_last())
    } else {
        s
    }
}

/// `s` without the white space at both ends.
pub open spec fn trimmed(s: Seq<char>) -> Seq<char> {
    drop_white(skip_white(s))
}

pub fn trim(s: &[char]) -> (r: &[char])
    ensures
        r@ == trimmed(s@),
{
    let mut i: usize = 0;
    assert(s@.skip(0) =~= s@);
    while i < s.len() && is_whitespace(s[i])
        invariant
            i <= s.len(),
            skip_white(s@.skip(i as int)) == skip_white(s@),
        decreases s.len() - i,
    {
        assert(s@.skip(i as int).drop_first() =~= s@.skip(i + 1));
        i = i + 1;
    }
    let ghost front = s@.skip(i as int);
    assert(front == skip_white(s@));
    let mut n: usize = s.len();
    assert(s@.subrange(i as int, n as int) =~= front);
    while n > i && is_whitespace(s[n - 1])
        invariant
            i <= n <= s.len(),
            drop_white(s@.subrange(i as int, n as int)) == drop_white(front),
        decreases n,
    {
        assert(s@.subrange(i as int, n as int).drop_last() =~= s@.subrange(i as int, n - 1));
        n = n - 1;
    }
    slice_subrange(s, i, n)
}

/// Where `c` first occurs in `s`; the length of `s` where it does not.
pub open spec fn first_index<T>(s: Seq<T>, c: T) -> int
    decreases s.len(),
{
    if s.len() == 0 || s[0] == c {
        0
    } else {
        1 + first_index(s.drop_first(), c)
    }
}

pub proof fn lemma_first_index<T>(s: Seq<T>, c: T)
    ensures
        0 <= first_index(s, c) <= s.len(),
        forall|i: int| 0 <= i < first_index(s, c) ==> s[i] != c,
        first_index(s, c) < s.len() ==> s[first_index(s, c)] == c,
    decreases s.len(),
{
    if s.len() > 0 && s[0] != c {
        let t = s.drop_first();
        lemma_first_index(t, c);
        assert forall|i: int| 0 <= i < first_index(s, c) implies s[i] != c by {
            if i > 0 {
                assert(t[i - 1] == s[i]);
            }
        }
    }
}

pub proof fn lemma_first_index_is<T>(s: Seq<T>, c: T, k: int)
    requires
        0 <= k <= s.len(),
        forall|i: int| 0 <= i < k ==> s[i] != c,
        k < s.len() ==> s[k] == c,
    ensures
        first_index(s, c) == k,
{
    lemma_first_index(s, c);
    let f = first_index(s, c);
    if f < k {
        assert(s[f] != c);
    }
    if k < f {
        assert(s[k] != c);
    }
}

/// Where `c` first occurs at or after position `from`; the length of `s`
/// where it does not.
pub fn find_char(s: &[char], from: usize, c: char) -> (r: usize)
    requires
        from <= s.len(),
    ensures
        from <= r <= s.len(),
        r - from == first_index(s@.skip(from as int), c),
{
    let mut i: usize = from;
    let ghost t = s@.skip(from as int);
    while i < s.len() && s[i] != c
        invariant
            from <= i <= s.len(),
            t == s@.skip(from as int),
            forall|j: int| 0 <= j < i - from ==> t[j] != c,
        decreases s.len() - i,
    {
        assert(t[i - from] == s@[i as int]);
        i = i + 1;
    }
    proof {
        lemma_first_index_is(t, c, i - from);
    }
    i
}

/// The pieces of `s` between the occurrences of `c`.
pub open spec fn split<T>(s: Seq<T>, c: T) -> Seq<Seq<T>>
    decreases s.len(),
{
    let i = first_index(s, c);
    if i >= s.len() {
        seq![s]
    } else {
        proof {
            lemma_first_index(s, c);
        }
        seq![s.take(i)] + split(s.skip(i + 1), c)
    }
}

/// The pieces of two texts joined by the separator are the pieces of the one
/// and then those of the other.
pub proof fn lemma_split_concat<T>(a: Seq<T>, b: Seq<T>, c: T)
    ensures
        split(a + seq![c] + b, c) == split(a, c) + split(b, c),
    decreases a.len(),
{
    let s = a + seq![c] + b;
    let i = first_index(a, c);
    lemma_first_index(a, c);
    lemma_first_index_is(s, c, i);
    if i == a.len() {
        assert(s.take(i) =~= a);
        assert(s.skip(i + 1) =~= b);
    } else {
        let rest = a.skip(i + 1);
        assert(s.take(i) =~= a.take(i));
        assert(s.skip(i + 1) =~= rest + seq![c] + b);
        lemma_split_concat(rest, b, c);
        assert(seq![a.take(i)] + (split(rest, c) + split(b, c)) =~= split(a, c) + split(b, c));
    }
}

/// An optional string as an optional character sequence.
pub open spec fn opt_view(s: Option<String>) -> Option<Seq<char>> {
    match s {
        Some(s) => Some(s@),
        None => None,
    }
}

/// The optional strings of a list, as optional character sequences.
pub open spec fn opt_views(v: Seq<Option<String>>) -> Seq<Option<Seq<char>>> {
    v.map_values(|s: Option<String>| opt_view(s))
}

/// A copy of an optional string.
pub fn copied(s: &Option<String>) -> (r: Option<String>)
    ensures
        opt_view(r) == opt_view(*s),
{
    match s {
        Some(s) => Some(s.clone()),
        None => None,
    }
}

/// The strings of a list, as character sequences.
pub open spec fn views(v: Seq<String>) -> Seq<Seq<char>> {
    v.map_values(|s: String| s@)
}

pub open spec fn char_views(v: Seq<Vec<char>>) -> Seq<Seq<char>> {
    v.map_values(|s: Vec<char>| s@)
}

pub fn split_chars(s: &[char], c: char) -> (r: Vec<Vec<char>>)
    ensures
        char_views(r@) == split(s@, c),
        r@.len() >= 1,
{
    let mut out: Vec<Vec<char>> = Vec::new();
    let mut from: usize = 0;
    assert(s@.skip(0) =~= s@);
    assert(char_views(out@) =~= Seq::empty());
    loop
        invariant
            from <= s.len(),
            char_views(out@) + split(s@.skip(from as int), c) == split(s@, c),
        decreases s.len() - from,
    {
        let i = find_char(s, from, c);
        let ghost rest = s@.skip(from as int);
        let ghost before = char_views(out@);
        proof {
            lemma_first_index(rest, c);
        }
        let piece = slice_to_vec(slice_subrange(s, from, i));
        assert(piece@ =~= rest.take(i - from));
        out.push(piece);
        assert(char_views(out@) =~= before.push(piece@));
        if i == s.len() {
            assert(rest.take(i - from) =~= rest);
            assert(char_views(out@) =~= before + split(rest, c));
            return out;
        }
        assert(s@.skip(i + 1) =~= rest.skip(i - from + 1));
        assert(char_views(out@) + split(s@.skip(i + 1), c) =~= before + split(rest, c));
        from = i + 1;
    }
}

/// The pieces of `parts` with `sep` between each two.
pub open spec fn joined(parts: Seq<Seq<char>>, sep: char) -> Seq<char>
    decreases parts.len(),
{
    if parts.len() == 0 {
        seq![]
    } else if parts.len() == 1 {
        parts[0]
    } else {
        parts[0] + seq![sep] + joined(parts.drop_first(), sep)
    }
}

/// The pieces from the `from`-th on, joined.
pub fn join_from(parts: &Vec<Vec<char>>, from: usize, sep: char) -> (r: String)
    requires
        from < parts@.len(),
    ensures
        r@ == joined(char_views(parts@).skip(from as int), sep),
{
    let ghost all = char_views(parts@);
    let mut out: Vec<char> = Vec::new();
    let mut i: usize = from;
    let ghost whole = joined(all.skip(from as int), sep);
    assert(out@ + whole =~= whole);
    while i + 1 < parts.len()
        invariant
            all == char_views(parts@),
            from <= i < parts.len(),
            out@ + joined(all.skip(i as int), sep) == whole,
        decreases parts.len() - i,
    {
        let ghost before = out@;
        let ghost rest = all.skip(i as int);
        assert(rest[0] == parts@[i as int]@);
        assert(rest.drop_first() =~= all.skip(i + 1));
        let mut piece = slice_to_vec(parts[i].as_slice());
        out.append(&mut piece);
        out.push(sep);
        assert(out@ + joined(all.skip(i + 1), sep) =~= before + (rest[0] + seq![sep] + joined(
            rest.drop_first(),
            sep,
        )));
        i = i + 1;
    }
    let ghost rest = all.skip(i as int);
    assert(rest[0] == parts@[i as int]@);
    let mut piece = slice_to_vec(parts[i].as_slice());
    out.append(&mut piece);
    from_chars(&out)
}

/// The pieces of a text, joined, are the text.
pub proof fn lemma_split_join(s: Seq<char>, c: char)
    ensures
        split(s, c).len() >= 1,
        joined(split(s, c), c) == s,
    decreases s.len(),
{
    let i = first_index(s, c);
    lemma_first_index(s, c);
    if i < s.len() {
        let rest = s.skip(i + 1);
        lemma_split_join(rest, c);
        let parts = split(s, c);
        assert(parts.drop_first() =~= split(rest, c));
        assert(s =~= s.take(i) + seq![c] + rest);
    }
}

/// The length of the longest prefix of `s` without white space.
pub open spec fn word_run(s: Seq<char>) -> int
    decreases s.len(),
{
    if s.len() > 0 && !is_white(s[0]) {
        1 + word_run(s.drop_first())
    } else {
        0
    }
}

proof fn lemma_word_run(s: Seq<char>, k: int)
    requires
        0 <= k <= s.len(),
        forall|i: int| 0 <= i < k ==> !is_white(s[i]),
        k < s.len() ==> is_white(s[k]),
    ensures
        word_run(s) == k,
    decreases k,
{
    if k > 0 {
        let t = s.drop_first();
        assert(forall|i: int| 0 <= i < k - 1 ==> t[i] == s[i + 1]);
        lemma_word_run(t, k - 1);
    }
}

pub proof fn lemma_words_shrink(s: Seq<char>)
    ensures
        skip_white(s).len() <= s.len(),
        skip_white(s).len() > 0 ==> 0 < word_run(skip_white(s)) <= skip_white(s).len(),
        0 <= word_run(s) <= s.len(),
    decreases s.len(),
{
    if s.len() > 0 {
        lemma_words_shrink(s.drop_first());
    }
}

/// The words of a text: its runs without white space.
pub open spec fn words(s: Seq<char>) -> Seq<Seq<char>>
    decreases s.len(),
{
    let t = skip_white(s);
    if t.len() == 0 {
        seq![]
    } else {
        proof {
            lemma_words_shrink(s);
        }
        let n = word_run(t);
        seq![t.take(n)] + words(t.skip(n))
    }
}

pub fn split_words(text: &str) -> (r: Vec<String>)
    ensures
        views(r@) == words(text@),
{
    let s = to_chars(text);
    let mut out: Vec<String> = Vec::new();
    let mut i: usize = 0;
    assert(s@.skip(0) =~= s@);
    assert(views(out@) =~= Seq::empty());
    loop
        invariant
            i <= s.len(),
            s@ == text@,
            views(out@) + words(s@.skip(i as int)) == words(text@),
        decreases s.len() - i,
    {
        let ghost from = s@.skip(i as int);
        while i < s.len() && is_whitespace(s[i])
            invariant
                i <= s.len(),
                skip_white(s@.skip(i as int)) == skip_white(from),
                s@.skip(i as int).len() <= from.len(),
            decreases s.len() - i,
        {
            assert(s@.skip(i as int).drop_first() =~= s@.skip(i + 1));
            i = i + 1;
        }
        let ghost rest = s@.skip(i as int);
        assert(rest == skip_white(from));
        if i == s.len() {
            assert(words(from) =~= seq![]);
            assert(views(out@) + words(from) =~= views(out@));
            return out;
        }
        let mut n: usize = i;
        while n < s.len() && !is_whitespace(s[n])
            invariant
                i <= n <= s.len(),
                rest == s@.skip(i as int),
                forall|j: int| 0 <= j < n - i ==> !is_white(rest[j]),
            decreases s.len() - n,
        {
            assert(rest[n - i] == s@[n as int]);
            n = n + 1;
        }
        proof {
            if n < s@.len() {
                assert(rest[n - i] == s@[n as int]);
            }
            lemma_word_run(rest, n - i);
            assert(rest[0] == s@[i as int]);
        }
        let word = from_chars(slice_subrange(s.as_slice(), i, n));
        let ghost before = views(out@);
        assert(word@ =~= rest.take(n - i));
        out.push(word);
        assert(views(out@) =~= before.push(rest.take(n - i)));
        assert(s@.skip(n as int) =~= rest.skip(n - i));
        assert(views(out@) + words(s@.skip(n as int)) =~= before + words(from));
        i = n;
    }
}

/// A line without the carriage return before its end.
pub open spec fn without_return(line: Seq<char>) -> Seq<char> {
    if line.len() > 0 && line.last() == '\r' {
        line.drop_last()
    } else {
        line
    }
}

/// The lines of a text, each ended by a line feed or by a carriage return and
/// a line feed; the end of the last one may be missing.
pub open spec fn lines(s: Seq<char>) -> Seq<Seq<char>>
    decreases s.len(),
{
    let i = first_index(s, '\n');
    if s.len() == 0 {
        seq![]
    } else if i >= s.len() {
        seq![s]
    } else {
        proof {
            lemma_first_index(s, '\n');
        }
        seq![without_return(s.take(i))] + lines(s.skip(i + 1))
    }
}

pub fn split_lines(text: &str) -> (r: Vec<Vec<char>>)
    ensures
        char_views(r@) == lines(text@),
{
    let s = to_chars(text);
    let mut out: Vec<Vec<char>> = Vec::new();
    let mut from: usize = 0;
    assert(s@.skip(0) =~= s@);
    assert(char_views(out@) =~= Seq::empty());
    while from < s.len()
        invariant
            from <= s.len(),
            s@ == text@,
            char_views(out@) + lines(s@.skip(from as int)) == lines(text@),
        decreases s.len() - from,
    {
        let i = find_char(&s, from, '\n');
        let ghost rest = s@.skip(from as int);
        let ghost before = char_views(out@);
        proof {
            lemma_first_index(rest, '\n');
        }
        if i == s.len() {
            let line = slice_to_vec(slice_subrange(s.as_slice(), from, i));
            assert(line@ =~= rest);
            out.push(line);
            assert(char_views(out@) =~= before + lines(rest));
            return out;
        }
        let end: usize = if i > from && s[i - 1] == '\r' {
            i - 1
        } else {
            i
        };
        let line = slice_to_vec(slice_subrange(s.as_slice(), from, end));
        assert(line@ =~= without_return(rest.take(i - from))) by {
            let head = rest.take(i - from);
            if i > from {
                assert(head.last() == s@[i - 1]);
            }
        }
        out.push(line);
        assert(char_views(out@) =~= before.push(line@));
        assert(s@.skip(i + 1) =~= rest.skip(i - from + 1));
        assert(char_views(out@) + lines(s@.skip(i + 1)) =~= before + lines(rest));
        from = i + 1;
    }
    assert(lines(s@.skip(from as int)) =~= seq![]);
    assert(char_views(out@) =~= lines(text@));
    out
}

/// A string followed by another.
pub fn concat(a: &str, b: &str) -> (r: String)
    ensures
        r@ == a@ + b@,
{
    let mut s = String::from_str(a);
    s.append(b);
    s
}

/// Trimming the end takes away a run of the character, and all of it.
pub proof fn law_trim_end(s: Seq<char>, c: char)
    ensures
        trim_end_of(s, c).len() <= s.len(),
        s.take(trim_end_of(s, c).len() as int) == trim_end_of(s, c),
        forall|i: int| trim_end_of(s, c).len() <= i < s.len() ==> s[i] == c,
        trim_end_of(s, c).len() > 0 ==> trim_end_of(s, c).last() != c,
    decreases s.len(),
{
    if s.len() > 0 && s.last() == c {
        let t = s.drop_last();
        law_trim_end(t, c);
        let n = trim_end_of(s, c).len() as int;
        assert(s.take(n) =~= t.take(n));
        assert forall|i: int| n <= i < s.len() implies s[i] == c by {
            if i < t.len() {
                assert(t[i] == s[i]);
            }
        }
    } else {
        assert(s.take(s.len() as int) =~= s);
    }
}

/// Trimming the start takes away a run of the character, and all of it.
pub proof fn law_trim_start(s: Seq<char>, c: char)
    ensures
        trim_start_of(s, c).len() <= s.len(),
        s.skip(s.len() - trim_start_of(s, c).len()) == trim_start_of(s, c),
        forall|i: int| 0 <= i < s.len() - trim_start_of(s, c).len() ==> s[i] == c,
        trim_start_of(s, c).len() > 0 ==> trim_start_of(s, c)[0] != c,
    decreases s.len(),
{
    if s.len() > 0 && s[0] == c {
        let t = s.drop_first();
        law_trim_start(t, c);
        let r = trim_start_of(s, c);
        assert(s.skip(s.len() - r.len()) =~= t.skip(t.len() - r.len()));
        assert forall|i: int| 0 <= i < s.len() - r.len() implies s[i] == c by {
            if i > 0 {
                assert(t[i - 1] == s[i]);
            }
        }
    } else {
        assert(s.skip(0) =~= s);
    }
}

/// Whether a text is made of white space.
pub open spec fn all_white(s: Seq<char>) -> bool {
    forall|i: int| 0 <= i < s.len() ==> is_white(#[trigger] s[i])
}

proof fn lemma_skip_white(s: Seq<char>)
    ensures
        skip_white(s).len() <= s.len(),
        s.skip(s.len() - skip_white(s).len()) == skip_white(s),
        all_white(s.take(s.len() - skip_white(s).len())),
        skip_white(s).len() > 0 ==> !is_white(skip_white(s)[0]),
    decreases s.len(),
{
    if s.len() > 0 && is_white(s[0]) {
        let t = s.drop_first();
        lemma_skip_white(t);
        let n = s.len() - skip_white(s).len();
        assert(s.skip(n) =~= t.skip(n - 1));
        assert forall|i: int| 0 <= i < n implies is_white(#[trigger] s.take(n)[i]) by {
            if i > 0 {
                assert(t.take(n - 1)[i - 1] == s[i]);
            }
        }
    } else {
        assert(s.skip(0) =~= s);
    }
}

proof fn lemma_drop_white(s: Seq<char>)
    ensures
        drop_white(s).len() <= s.len(),
        s.take(drop_white(s).len() as int) == drop_white(s),
        all_white(s.skip(drop_white(s).len() as int)),
        drop_white(s).len() > 0 ==> !is_white(drop_white(s).last()),
    decreases s.len(),
{
    let n = drop_white(s).len() as int;
    if s.len() > 0 && is_white(s.last()) {
        let t = s.drop_last();
        lemma_drop_white(t);
        assert(s.take(n) =~= t.take(n));
        assert forall|i: int| 0 <= i < s.len() - n implies is_white(#[trigger] s.skip(n)[i]) by {
            if n + i < t.len() {
                assert(t.skip(n)[i] == s[n + i]);
            }
        }
    } else {
        assert(s.take(s.len() as int) =~= s);
    }
}

/// Trimming white space takes it away at both ends, and nothing else: the text
/// is white space, what is left, and white space.
pub proof fn law_trimmed(s: Seq<char>)
    ensures
        exists|a: Seq<char>, b: Seq<char>|
            #![trigger all_white(a), all_white(b)]
            all_white(a) && all_white(b) && s == a + trimmed(s) + b,
        trimmed(s).len() > 0 ==> !is_white(trimmed(s)[0]) && !is_white(trimmed(s).last()),
{
    let t = skip_white(s);
    let r = trimmed(s);
    lemma_skip_white(s);
    lemma_drop_white(t);
    let a = s.take(s.len() - t.len());
    let b = t.skip(r.len() as int);
    assert(s =~= a + r + b);
    assert(all_white(a) && all_white(b));
    if r.len() > 0 {
        assert(r[0] == t[0]);
    }
}

/// The pieces of a text do not hold the separator, and joined by it they are the
/// text.
pub proof fn law_split(s: Seq<char>, c: char)
    ensures
        split(s, c).len() >= 1,
        joined(split(s, c), c) == s,
        forall|i: int| 0 <= i < split(s, c).len() ==> !(#[trigger] split(s, c)[i]).contains(c),
    decreases s.len(),
{
    lemma_split_join(s, c);
    let i = first_index(s, c);
    lemma_first_index(s, c);
    if i < s.len() {
        let rest = split(s.skip(i + 1), c);
        law_split(s.skip(i + 1), c);
        assert forall|k: int| 0 <= k < split(s, c).len() implies !(#[trigger] split(
            s,
            c,
        )[k]).contains(c) by {
            if k > 0 {
                assert(split(s, c)[k] == rest[k - 1]);
            }
        }
    }
}

/// Joining puts the separator between each two pieces.
pub proof fn law_joined(first: Seq<char>, rest: Seq<Seq<char>>, c: char)
    ensures
        joined(seq![], c) == Seq::<char>::empty(),
        joined(seq![first], c) == first,
        rest.len() > 0 ==> joined(seq![first] + rest, c) == first.push(c) + joined(rest, c),
{
    let all = seq![first] + rest;
    assert(all.drop_first() =~= rest);
    assert(rest.len() > 0
        ==> first.push(c) + joined(rest, c) =~= first + seq![c] + joined(rest, c));
}

/// A line ends at the first line feed, and a carriage return before that is not
/// part of it; what follows are the other lines.
pub proof fn law_lines(line: Seq<char>, rest: Seq<char>)
    requires
        !line.contains('\n'),
    ensures
        lines(seq![]) == Seq::<Seq<char>>::empty(),
        line.len() > 0 ==> lines(line) == seq![line],
        line.len() == 0 || line.last() != '\r' ==> lines(line.push('\n') + rest) == seq![line]
            + lines(rest),
        lines(line.push('\r').push('\n') + rest) == seq![line] + lines(rest),
{
    lemma_first_index_is(line, '\n', line.len() as int);
    let a = line.push('\n') + rest;
    lemma_first_index_is(a, '\n', line.len() as int);
    assert(a.take(line.len() as int) =~= line);
    assert(a.skip(line.len() as int + 1) =~= rest);
    let b = line.push('\r').push('\n') + rest;
    lemma_first_index_is(b, '\n', line.len() as int + 1);
    assert(b.take(line.len() as int + 1) =~= line.push('\r'));
    assert(line.push('\r').drop_last() =~= line);
    assert(b.skip(line.len() as int + 2) =~= rest);
}

/// The words of a text are what stands between its white space.
pub proof fn law_words(word: Seq<char>, c: char, rest: Seq<char>)
    requires
        word.len() > 0,
        forall|i: int| 0 <= i < word.len() ==> !is_white(#[trigger] word[i]),
        is_white(c),
    ensures
        words(seq![]) == Seq::<Seq<char>>::empty(),
        words(word) == seq![word],
        words(seq![c] + rest) == words(rest),
        words(word.push(c) + rest) == seq![word] + words(rest),
{
    let n = word.len() as int;
    let all = word.push(c) + rest;
    assert(all[0] == word[0]);
    assert forall|i: int| 0 <= i < n implies !is_white(all[i]) by {
        assert(all[i] == word[i]);
    }
    lemma_word_run(word, n);
    lemma_word_run(all, n);
    assert(word.take(n) =~= word);
    assert(word.skip(n) =~= seq![]);
    assert(seq![word] + Seq::<Seq<char>>::empty() =~= seq![word]);
    assert(all.take(n) =~= word);
    assert(all.skip(n) =~= seq![c] + rest);
    assert((seq![c] + rest).drop_first() =~= rest);
    assert(skip_white(seq![c] + rest) == skip_white(rest));
}

/// Trimming takes white space away from around a text.
pub proof fn lemma_white_around(a: Seq<char>, s: Seq<char>, b: Seq<char>)
    requires
        all_white(a),
        all_white(b),
        s.len() > 0,
        !is_white(s[0]),
        !is_white(s.last()),
    ensures
        trimmed(a + s + b) == s,
{
    lemma_white_front(a, s + b);
    assert(a + s + b =~= a + (s + b));
    assert((s + b)[0] == s[0]);
    lemma_white_back(s, b);
}

proof fn lemma_white_front(a: Seq<char>, t: Seq<char>)
    requires
        all_white(a),
    ensures
        skip_white(a + t) == skip_white(t),
    decreases a.len(),
{
    if a.len() == 0 {
        assert(a + t =~= t);
    } else {
        let rest = a.drop_first();
        assert forall|i: int| 0 <= i < rest.len() implies is_white(#[trigger] rest[i]) by {
            assert(is_white(a[i + 1]));
        }
        assert(is_white(a[0]));
        assert((a + t).drop_first() =~= rest + t);
        lemma_white_front(rest, t);
    }
}

proof fn lemma_white_back(s: Seq<char>, b: Seq<char>)
    requires
        all_white(b),
        s.len() > 0,
        !is_white(s.last()),
    ensures
        drop_white(s + b) == s,
    decreases b.len(),
{
    if b.len() == 0 {
        assert(s + b =~= s);
    } else {
        let rest = b.drop_last();
        assert forall|i: int| 0 <= i < rest.len() implies is_white(#[trigger] rest[i]) by {
            assert(is_white(b[i]));
        }
        assert(is_white(b[b.len() - 1]));
        assert((s + b).drop_last() =~= s + rest);
        lemma_white_back(s, rest);
    }
}

} // verus!
