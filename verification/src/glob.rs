//! Glob patterns and case-insensitive comparison of names.
//!
//! In a pattern `*` stands for any run of characters and `?` for any one
//! character; every other character stands for itself.

use crate::text::{same, starts_with, to_chars};
use vstd::prelude::*;
use vstd::utf8::{encode_utf8, is_char_boundary};

verus! {

/// Whether pattern `p` matches the whole of text `t`. A `*` runs across `/`
/// only where `match_slash` allows it.
pub open spec fn glob(p: Seq<char>, t: Seq<char>, match_slash: bool) -> bool
    decreases p.len(), t.len(),
{
    if p.len() == 0 {
        t.len() == 0
    } else if p[0] == '*' {
        ||| glob(p.drop_first(), t, match_slash)
        ||| {
            &&& t.len() > 0
            &&& match_slash || t[0] != '/'
            &&& glob(p, t.drop_first(), match_slash)
        }
    } else {
        &&& t.len() > 0
        &&& p[0] == '?' || p[0] == t[0]
        &&& glob(p.drop_first(), t.drop_first(), match_slash)
    }
}

/// Decides [`glob`] for every suffix of the text at once, one pattern
/// character after the other, from the last to the first.
pub fn glob_match_inner(pattern: &[char], text: &[char], match_slash: bool) -> (r: bool)
    ensures
        r == glob(pattern@, text@, match_slash),
{
    let n: usize = text.len();
    let mut row: Vec<bool> = Vec::new();
    for j in 0..n
        invariant
            row.len() == j,
            forall|k: int| 0 <= k < j ==> !row@[k],
    {
        row.push(false);
    }
    row.push(true);
    let mut i: usize = pattern.len();
    assert forall|k: int| 0 <= k <= n implies row@[k] == glob(
        pattern@.skip(i as int),
        #[trigger] text@.skip(k),
        match_slash,
    ) by {}
    while i > 0
        invariant
            i <= pattern.len(),
            n == text.len(),
            row.len() == n + 1,
            forall|k: int|
                0 <= k <= n ==> row@[k] == glob(
                    pattern@.skip(i as int),
                    #[trigger] text@.skip(k),
                    match_slash,
                ),
        decreases i,
    {
        let c: char = pattern[i - 1];
        let ghost rest = pattern@.skip(i as int);
        let ghost here = pattern@.skip(i - 1);
        let ghost below = row@;
        assert(here.drop_first() =~= rest);
        assert(here[0] == c);
        if c == '*' {
            let mut j: usize = n;
            assert(text@.skip(n as int).len() == 0);
            while j > 0
                invariant
                    j <= n,
                    n == text.len(),
                    row.len() == n + 1,
                    here.len() > 0,
                    here[0] == '*',
                    here.drop_first() == rest,
                    forall|k: int|
                        0 <= k < j ==> row@[k] == glob(
                            rest,
                            #[trigger] text@.skip(k),
                            match_slash,
                        ),
                    forall|k: int|
                        j <= k <= n ==> row@[k] == glob(
                            here,
                            #[trigger] text@.skip(k),
                            match_slash,
                        ),
                decreases j,
            {
                assert(text@.skip(j - 1).drop_first() =~= text@.skip(j as int));
                if row[j] && (match_slash || text[j - 1] != '/') {
                    row.set(j - 1, true);
                }
                j = j - 1;
            }
        } else {
            let mut j: usize = 0;
            while j < n
                invariant
                    j <= n,
                    n == text.len(),
                    row.len() == n + 1,
                    here.len() > 0,
                    here[0] == c,
                    c != '*',
                    here.drop_first() == rest,
                    forall|k: int|
                        0 <= k < j ==> row@[k] == glob(
                            here,
                            #[trigger] text@.skip(k),
                            match_slash,
                        ),
                    forall|k: int|
                        j <= k <= n ==> row@[k] == glob(
                            rest,
                            #[trigger] text@.skip(k),
                            match_slash,
                        ),
                decreases n - j,
            {
                assert(text@.skip(j as int).drop_first() =~= text@.skip(j + 1));
                let b = (c == '?' || c == text[j]) && row[j + 1];
                row.set(j, b);
                j = j + 1;
            }
            assert(text@.skip(n as int).len() == 0);
            row.set(n, false);
        }
        i = i - 1;
    }
    assert(pattern@.skip(0) =~= pattern@);
    assert(text@.skip(0) =~= text@);
    row[0]
}

/// The ASCII lower case of a character; any other character is kept.
pub open spec fn ascii_lower(c: char) -> char {
    if 'A' <= c <= 'Z' {
        (c as u32 + 32) as char
    } else {
        c
    }
}

fn to_ascii_lower(c: char) -> (r: char)
    ensures
        r == ascii_lower(c),
{
    if 'A' <= c && c <= 'Z' {
        ((c as u8) + 32) as char
    } else {
        c
    }
}

/// The Unicode lower case of a character beyond ASCII, which may be several
/// characters.
pub uninterp spec fn lower_case(c: char) -> Seq<char>;

/// The lower case of a character.
pub open spec fn lowered(c: char) -> Seq<char> {
    if (c as u32) < 0x80 {
        seq![ascii_lower(c)]
    } else {
        lower_case(c)
    }
}

/// `char::to_lowercase`. Of an ASCII character it gives the ASCII lower case.
#[verifier::external_body]
fn lowercase(c: char) -> (r: Vec<char>)
    ensures
        (c as u32) < 0x80 ==> r@ == seq![ascii_lower(c)],
        (c as u32) >= 0x80 ==> r@ == lower_case(c),
{
    c.to_lowercase().collect()
}

/// A text with every character in Unicode lower case.
pub open spec fn folded(s: Seq<char>) -> Seq<char>
    decreases s.len(),
{
    if s.len() == 0 {
        seq![]
    } else {
        folded(s.drop_last()) + lowered(s.last())
    }
}

/// What a comparison sees of a text.
pub open spec fn case_view(s: Seq<char>, ignore_case: bool) -> Seq<char> {
    if ignore_case {
        folded(s)
    } else {
        s
    }
}

fn case_chars(s: &str, ignore_case: bool) -> (r: Vec<char>)
    ensures
        r@ == case_view(s@, ignore_case),
{
    let chars = to_chars(s);
    if !ignore_case {
        return chars;
    }
    let mut out: Vec<char> = Vec::new();
    assert(chars@.take(0) =~= seq![]);
    for i in 0..chars.len()
        invariant
            out@ == folded(chars@.take(i as int)),
    {
        let mut low = lowercase(chars[i]);
        assert(chars@.take(i + 1).drop_last() =~= chars@.take(i as int));
        out.append(&mut low);
    }
    assert(chars@.take(chars@.len() as int) =~= chars@);
    out
}

/// Whether `pattern` matches the whole of `text`, in Unicode lower case where
/// case is ignored.
pub fn glob_match(pattern: &str, text: &str, match_slash: bool, ignore_case: bool) -> (r: bool)
    ensures
        r == glob(case_view(pattern@, ignore_case), case_view(text@, ignore_case), match_slash),
{
    let p = case_chars(pattern, ignore_case);
    let t = case_chars(text, ignore_case);
    glob_match_inner(&p, &t, match_slash)
}

/// [`glob_match`] with its arguments the other way round.
pub fn matches_exclude(path: &str, pattern: &str, match_slash: bool, ignore_case: bool) -> (r: bool)
    ensures
        r == glob(case_view(pattern@, ignore_case), case_view(path@, ignore_case), match_slash),
{
    glob_match(pattern, path, match_slash, ignore_case)
}

/// Whether two texts are equal but for the case of ASCII letters.
pub open spec fn same_but_case(a: Seq<char>, b: Seq<char>) -> bool {
    &&& a.len() == b.len()
    &&& forall|i: int| 0 <= i < a.len() ==> ascii_lower(#[trigger] a[i]) == ascii_lower(b[i])
}

/// Equality of names, where `ignore_case` says so up to ASCII case.
pub open spec fn names_equal(a: Seq<char>, b: Seq<char>, ignore_case: bool) -> bool {
    if ignore_case {
        same_but_case(a, b)
    } else {
        a == b
    }
}

/// Whether `a` begins with `b`, where `ignore_case` says so up to ASCII case.
pub open spec fn name_begins(a: Seq<char>, b: Seq<char>, ignore_case: bool) -> bool {
    b.len() <= a.len() && names_equal(a.take(b.len() as int), b, ignore_case)
}

/// Whether a prefix of `a` as long in UTF-8 as `b` ends between two
/// characters, or `a` is shorter than `b`.
pub open spec fn prefix_comparable(a: Seq<char>, b: Seq<char>) -> bool {
    encode_utf8(a).len() >= encode_utf8(b).len() ==> is_char_boundary(
        encode_utf8(a),
        encode_utf8(b).len() as int,
    )
}

fn same_but_case_chars(a: &[char], b: &[char], n: usize) -> (r: bool)
    requires
        n <= a.len(),
        n <= b.len(),
    ensures
        r == same_but_case(a@.take(n as int), b@.take(n as int)),
{
    for i in 0..n
        invariant
            n <= a.len(),
            n <= b.len(),
            forall|j: int| 0 <= j < i ==> ascii_lower(#[trigger] a@[j]) == ascii_lower(b@[j]),
    {
        if to_ascii_lower(a[i]) != to_ascii_lower(b[i]) {
            assert(a@.take(n as int)[i as int] == a@[i as int]);
            return false;
        }
    }
    true
}

pub fn eq_opt_ci(a: &str, b: &str, ignore_case: bool) -> (r: bool)
    ensures
        r == names_equal(a@, b@, ignore_case),
{
    if ignore_case {
        let x = to_chars(a);
        let y = to_chars(b);
        if x.len() != y.len() {
            return false;
        }
        assert(x@.take(x@.len() as int) =~= x@);
        assert(y@.take(x@.len() as int) =~= y@);
        same_but_case_chars(&x, &y, x.len())
    } else {
        same(a, b)
    }
}

/// Whether name `a` begins with `b`.
pub fn eq_opt_ci_prefix(a: &str, b: &str, ignore_case: bool) -> (r: bool)
    requires
        ignore_case ==> prefix_comparable(a@, b@),
    ensures
        r == name_begins(a@, b@, ignore_case),
{
    let x = to_chars(a);
    let y = to_chars(b);
    if ignore_case {
        if y.len() > x.len() {
            return false;
        }
        assert(y@.take(y@.len() as int) =~= y@);
        same_but_case_chars(&x, &y, y.len())
    } else {
        starts_with(&x, &y)
    }
}

proof fn lemma_encode_concat(a: Seq<char>, b: Seq<char>)
    ensures
        encode_utf8(a + b) == encode_utf8(a) + encode_utf8(b),
    decreases a.len(),
{
    if a.len() == 0 {
        assert(a + b =~= b);
        assert(encode_utf8(a) + encode_utf8(b) =~= encode_utf8(b));
    } else {
        assert((a + b).drop_first() =~= a.drop_first() + b);
        lemma_encode_concat(a.drop_first(), b);
        let head = vstd::utf8::encode_scalar(a[0] as u32);
        assert(head + (encode_utf8(a.drop_first()) + encode_utf8(b)) =~= head + encode_utf8(
            a.drop_first(),
        ) + encode_utf8(b));
    }
}

/// A text can be compared with its own beginnings.
pub proof fn lemma_beginning_comparable(a: Seq<char>, b: Seq<char>)
    ensures
        prefix_comparable(a + b, a),
{
    let whole = encode_utf8(a + b);
    let rest = encode_utf8(b);
    let n = encode_utf8(a).len() as int;
    lemma_encode_concat(a, b);
    vstd::utf8::encode_utf8_valid_utf8(a + b);
    vstd::utf8::encode_utf8_valid_utf8(b);
    if rest.len() == 0 {
        vstd::utf8::is_char_boundary_start_end_of_seq(whole);
    } else {
        assert(whole[n] == rest[0]);
        assert(is_char_boundary(rest, 0));
        vstd::utf8::is_char_boundary_iff_not_is_continuation_byte(rest, 0);
        vstd::utf8::is_char_boundary_iff_not_is_continuation_byte(whole, n);
    }
}

/// A longer text can always be compared with: no prefix is as long.
pub proof fn lemma_longer_comparable(a: Seq<char>, b: Seq<char>)
    requires
        b.len() > 0,
    ensures
        prefix_comparable(a, a + b),
{
    lemma_encode_concat(a, b);
    assert(encode_utf8(b).len() > 0);
}

/// A pattern without wildcards matches itself and nothing else.
pub proof fn law_glob_literal(p: Seq<char>, t: Seq<char>, match_slash: bool)
    requires
        !p.contains('*'),
        !p.contains('?'),
    ensures
        glob(p, t, match_slash) <==> p == t,
    decreases p.len(),
{
    if p.len() > 0 {
        assert(p.contains(p[0]));
        let q = p.drop_first();
        assert forall|c: char| q.contains(c) implies p.contains(c) by {
            let i = q.index_of(c);
            assert(q[i] == c);
            assert(p[i + 1] == c);
        }
        if t.len() > 0 {
            law_glob_literal(q, t.drop_first(), match_slash);
            if q == t.drop_first() && p[0] == t[0] {
                assert(p =~= seq![p[0]] + q);
                assert(t =~= seq![p[0]] + q);
            }
        }
    } else {
        assert(t.len() == 0 ==> p =~= t);
    }
}

/// Whether a leading `*` of `p` can stand for the first `k` characters of `t`.
pub open spec fn star_takes(p: Seq<char>, t: Seq<char>, match_slash: bool, k: int) -> bool {
    &&& 0 <= k <= t.len()
    &&& match_slash || !t.take(k).contains('/')
    &&& glob(p.drop_first(), t.skip(k), match_slash)
}

/// A leading `*` stands for some prefix of the text, and for one without `/`
/// unless it may cross slashes.
pub proof fn law_glob_star(p: Seq<char>, t: Seq<char>, match_slash: bool)
    requires
        p.len() > 0,
        p[0] == '*',
    ensures
        glob(p, t, match_slash) <==> exists|k: int| star_takes(p, t, match_slash, k),
    decreases t.len(),
{
    let q = p.drop_first();
    if glob(q, t, match_slash) {
        assert(t.skip(0) =~= t);
        assert(t.take(0) =~= Seq::<char>::empty());
        assert(star_takes(p, t, match_slash, 0));
    }
    if t.len() > 0 {
        let u = t.drop_first();
        law_glob_star(p, u, match_slash);
        if glob(p, t, match_slash) && !glob(q, t, match_slash) {
            let k = choose|k: int| star_takes(p, u, match_slash, k);
            let head = t.take(k + 1);
            assert(t.skip(k + 1) =~= u.skip(k));
            if head.contains('/') && !match_slash {
                let i = head.index_of('/');
                assert(head[i] == '/');
                assert(u.take(k)[i - 1] == '/');
            }
            assert(star_takes(p, t, match_slash, k + 1));
        }
        if exists|k: int| star_takes(p, t, match_slash, k) {
            let k = choose|k: int| star_takes(p, t, match_slash, k);
            if k == 0 {
                assert(t.skip(0) =~= t);
            } else {
                assert(t.take(k)[0] == t[0]);
                assert(u.skip(k - 1) =~= t.skip(k));
                if u.take(k - 1).contains('/') {
                    let i = u.take(k - 1).index_of('/');
                    assert(u.take(k - 1)[i] == '/');
                    assert(t.take(k)[i + 1] == '/');
                }
                assert(star_takes(p, u, match_slash, k - 1));
            }
        }
    } else if exists|k: int| star_takes(p, t, match_slash, k) {
        assert(t.skip(0) =~= t);
    }
}

/// The pattern `*` matches every text, or every text without `/` where it may
/// not cross slashes.
pub proof fn law_glob_star_alone(t: Seq<char>, match_slash: bool)
    ensures
        glob(seq!['*'], t, match_slash) <==> match_slash || !t.contains('/'),
    decreases t.len(),
{
    reveal_with_fuel(glob, 2);
    let p = seq!['*'];
    assert(p.drop_first().len() == 0);
    if t.len() > 0 {
        let u = t.drop_first();
        law_glob_star_alone(u, match_slash);
        if t[0] != '/' && t.contains('/') {
            let i = t.index_of('/');
            assert(t[i] == '/');
            assert(u[i - 1] == '/');
        }
        if u.contains('/') {
            let i = u.index_of('/');
            assert(t[i + 1] == '/');
        }
        assert(t.contains(t[0]));
    }
}

/// What matches with `*` stopped at slashes also matches without that limit.
pub proof fn law_glob_slash_monotone(p: Seq<char>, t: Seq<char>)
    requires
        glob(p, t, false),
    ensures
        glob(p, t, true),
    decreases p.len(), t.len(),
{
    if p.len() > 0 {
        if p[0] == '*' {
            if glob(p.drop_first(), t, false) {
                law_glob_slash_monotone(p.drop_first(), t);
            } else {
                law_glob_slash_monotone(p, t.drop_first());
            }
        } else {
            law_glob_slash_monotone(p.drop_first(), t.drop_first());
        }
    }
}

/// Of a text without slashes a pattern matches the same whether `*` stops at
/// slashes or not.
pub proof fn law_glob_without_slash(p: Seq<char>, t: Seq<char>)
    requires
        !t.contains('/'),
    ensures
        glob(p, t, false) == glob(p, t, true),
    decreases p.len(), t.len(),
{
    if p.len() > 0 {
        if t.len() > 0 {
            let u = t.drop_first();
            assert(t.contains(t[0]));
            assert(!u.contains('/')) by {
                if u.contains('/') {
                    let i = u.index_of('/');
                    assert(t[i + 1] == '/');
                }
            }
            law_glob_without_slash(p, u);
            law_glob_without_slash(p.drop_first(), u);
        }
        law_glob_without_slash(p.drop_first(), t);
    }
}

/// Equal names are equal up to case, and a name begins with itself.
pub proof fn law_names_equal_reflexive(a: Seq<char>, ignore_case: bool)
    ensures
        names_equal(a, a, ignore_case),
        name_begins(a, a, ignore_case),
{
    assert(a.take(a.len() as int) =~= a);
}

/// What each piece of a pattern stands for: an empty pattern for the empty text,
/// `?` for any one character, and every other character but `*` for itself.
pub proof fn law_glob_pieces(c: char, t: Seq<char>, match_slash: bool)
    ensures
        glob(seq![], t, match_slash) <==> t.len() == 0,
        glob(seq!['?'], t, match_slash) <==> t.len() == 1,
        c != '*' && c != '?' ==> (glob(seq![c], t, match_slash) <==> t == seq![c]),
{
    reveal_with_fuel(glob, 2);
    assert(seq!['?'].drop_first() =~= seq![]);
    assert(seq![c].drop_first() =~= seq![]);
    if t.len() == 1 {
        assert(t.drop_first().len() == 0);
        assert(t[0] == c ==> t =~= seq![c]);
    }
}

/// Whether two patterns match the two parts of a text that a position makes.
pub open spec fn matches_parts(
    p: Seq<char>,
    q: Seq<char>,
    t: Seq<char>,
    match_slash: bool,
    k: int,
) -> bool {
    0 <= k <= t.len() && glob(p, t.take(k), match_slash) && glob(q, t.skip(k), match_slash)
}

/// Two patterns one behind the other match a text exactly where it is made of a
/// part that the first matches and a part that the second matches.
pub proof fn law_glob_concat(p: Seq<char>, q: Seq<char>, t: Seq<char>, match_slash: bool)
    ensures
        glob(p + q, t, match_slash) <==> exists|k: int| matches_parts(p, q, t, match_slash, k),
    decreases p.len(), t.len(),
{
    let all = p + q;
    if p.len() == 0 {
        assert(all =~= q);
        assert(t.skip(0) =~= t);
        assert(t.take(0).len() == 0);
        if glob(q, t, match_slash) {
            assert(matches_parts(p, q, t, match_slash, 0));
        }
        if exists|k: int| matches_parts(p, q, t, match_slash, k) {
            let k = choose|k: int| matches_parts(p, q, t, match_slash, k);
            assert(k == 0);
        }
    } else {
        let rest = p.drop_first();
        let u = t.drop_first();
        assert(all.drop_first() =~= rest + q);
        assert(all[0] == p[0]);
        if p[0] == '*' {
            law_glob_concat(rest, q, t, match_slash);
            if t.len() > 0 {
                law_glob_concat(p, q, u, match_slash);
            }
            if glob(rest + q, t, match_slash) {
                let k = choose|k: int| matches_parts(rest, q, t, match_slash, k);
                assert(matches_parts(p, q, t, match_slash, k));
            } else if glob(all, t, match_slash) {
                let k = choose|k: int| matches_parts(p, q, u, match_slash, k);
                assert(t.take(k + 1).drop_first() =~= u.take(k));
                assert(t.skip(k + 1) =~= u.skip(k));
                assert(matches_parts(p, q, t, match_slash, k + 1));
            }
            if exists|k: int| matches_parts(p, q, t, match_slash, k) {
                let k = choose|k: int| matches_parts(p, q, t, match_slash, k);
                if glob(rest, t.take(k), match_slash) {
                    assert(matches_parts(rest, q, t, match_slash, k));
                } else {
                    assert(t.take(k).drop_first() =~= u.take(k - 1));
                    assert(t.skip(k) =~= u.skip(k - 1));
                    assert(matches_parts(p, q, u, match_slash, k - 1));
                }
            }
        } else {
            if t.len() > 0 {
                law_glob_concat(rest, q, u, match_slash);
            }
            if glob(all, t, match_slash) {
                let k = choose|k: int| matches_parts(rest, q, u, match_slash, k);
                assert(t.take(k + 1).drop_first() =~= u.take(k));
                assert(t.skip(k + 1) =~= u.skip(k));
                assert(matches_parts(p, q, t, match_slash, k + 1));
            }
            if exists|k: int| matches_parts(p, q, t, match_slash, k) {
                let k = choose|k: int| matches_parts(p, q, t, match_slash, k);
                assert(k > 0);
                assert(t.take(k).drop_first() =~= u.take(k - 1));
                assert(t.skip(k) =~= u.skip(k - 1));
                assert(matches_parts(rest, q, u, match_slash, k - 1));
            }
        }
    }
}

/// Where case is ignored in patterns each character is seen in its lower case,
/// and where it is not, as it is: the capitals `A` to `Z` as `a` to `z`, other
/// ASCII characters as they are, and one beyond ASCII by itself.
pub proof fn law_case_view(a: Seq<char>, b: Seq<char>, c: char)
    ensures
        case_view(a, false) == a,
        case_view(a + b, true) == case_view(a, true) + case_view(b, true),
        case_view(seq![], true) == Seq::<char>::empty(),
        'A' <= c <= 'Z' ==> case_view(seq![c], true) == seq![(c as u32 + 32) as char],
        (c as u32) < 0x80 && !('A' <= c <= 'Z') ==> case_view(seq![c], true) == seq![c],
        (c as u32) >= 0x80 ==> case_view(seq![c], true) == lower_case(c),
    decreases b.len(),
{
    assert(seq![c].drop_last() =~= seq![]);
    reveal_with_fuel(folded, 2);
    assert(folded(seq![c]) =~= lowered(c));
    if b.len() == 0 {
        assert(a + b =~= a);
        assert(folded(a) + folded(b) =~= folded(a));
    } else {
        assert((a + b).drop_last() =~= a + b.drop_last());
        law_case_view(a, b.drop_last(), c);
        assert(folded(a) + folded(b.drop_last()) + lowered(b.last()) =~= folded(a) + (folded(
            b.drop_last(),
        ) + lowered(b.last())));
    }
}

/// Names are compared character by character, and where case is ignored `A` to
/// `Z` count as `a` to `z`; one begins with another where its first characters
/// are those of the other.
pub proof fn law_names_compared(a: Seq<char>, b: Seq<char>)
    ensures
        names_equal(a, b, false) <==> a == b,
        names_equal(a, b, true) <==> a.len() == b.len() && forall|i: int|
            0 <= i < a.len() ==> (#[trigger] a[i] == b[i] || 'A' <= a[i] <= 'Z' && b[i] as u32
                == a[i] as u32 + 32 || 'A' <= b[i] <= 'Z' && a[i] as u32 == b[i] as u32 + 32),
        name_begins(a, b, false) <==> b.is_prefix_of(a),
        name_begins(a, b, true) <==> b.len() <= a.len() && names_equal(
            a.take(b.len() as int),
            b,
            true,
        ),
{
    assert forall|x: char, y: char|
        (#[trigger] ascii_lower(x) == #[trigger] ascii_lower(y)) == (x == y || 'A' <= x <= 'Z'
            && y as u32 == x as u32 + 32 || 'A' <= y <= 'Z' && x as u32 == y as u32 + 32) by {
        lemma_same_lower(x, y);
    }
    if names_equal(a, b, true) {
        assert forall|i: int| 0 <= i < a.len() implies (#[trigger] a[i] == b[i] || 'A' <= a[i]
            <= 'Z' && b[i] as u32 == a[i] as u32 + 32 || 'A' <= b[i] <= 'Z' && a[i] as u32
            == b[i] as u32 + 32) by {
            assert(ascii_lower(a[i]) == ascii_lower(b[i]));
        }
    }
    if b.len() <= a.len() {
        assert(a.take(b.len() as int) =~= a.subrange(0, b.len() as int));
    }
}

proof fn lemma_same_lower(x: char, y: char)
    ensures
        (ascii_lower(x) == ascii_lower(y)) == (x == y || 'A' <= x <= 'Z' && y as u32 == x as u32
            + 32 || 'A' <= y <= 'Z' && x as u32 == y as u32 + 32),
{
    vstd::utf8::char_u32_cast(x, x as u32);
    vstd::utf8::char_u32_cast(y, y as u32);
}

/// A pattern matches itself where `*` runs across slashes.
pub proof fn law_glob_matches_itself(p: Seq<char>)
    ensures
        glob(p, p, true),
    decreases p.len(),
{
    if p.len() > 0 {
        let rest = p.drop_first();
        law_glob_matches_itself(rest);
        if p[0] == '*' {
            assert(glob(p, rest, true)) by {
                reveal_with_fuel(glob, 2);
            }
        }
    }
}

} // verus!
