//! Path rewriting, as in `s/old/new/g`.

use crate::text;
use crate::text::{
    concat, contains_char, find_char, from_chars, owned, starts_with, to_chars,
};
use vstd::prelude::*;
use vstd::slice::slice_subrange;
use vstd::utf8::encode_utf8;

verus! {

/// A rewriting rule: what to look for, what to put in its place, and whether
/// to do so everywhere or once.
#[derive(Debug)]
pub struct Transform {
    pub pattern: String,
    pub replacement: String,
    pub global: bool,
}

/// A rule as character sequences.
pub struct Rule {
    pub pattern: Seq<char>,
    pub replacement: Seq<char>,
    pub global: bool,
}

impl View for Transform {
    type V = Rule;

    open spec fn view(&self) -> Rule {
        Rule {
            pattern: self.pattern@,
            replacement: self.replacement@,
            global: self.global,
        }
    }
}

/// Whether an expression has the form of a rule: an `s`, and at least four
/// bytes in all.
pub open spec fn is_substitution(expr: Seq<char>) -> bool {
    expr.len() > 0 && expr[0] == 's' && encode_utf8(expr).len() >= 4
}

/// The rule that an expression gives: behind the `s` a separator, the
/// pattern, the separator, the replacement, and perhaps the separator and
/// flags, among which `g` means everywhere. `None` without a second
/// separator.
pub open spec fn rule_of(expr: Seq<char>) -> Option<Rule> {
    let sep = expr[1];
    let rest = expr.skip(2);
    let i = text::first_index(rest, sep);
    let tail = rest.skip(i + 1);
    let j = text::first_index(tail, sep);
    if i >= rest.len() {
        None
    } else if j >= tail.len() {
        Some(Rule { pattern: rest.take(i), replacement: tail, global: false })
    } else {
        Some(
            Rule {
                pattern: rest.take(i),
                replacement: tail.take(j),
                global: tail.skip(j + 1).contains('g'),
            },
        )
    }
}

/// Whether an expression can be read: its separator is ASCII.
pub open spec fn separator_readable(expr: Seq<char>) -> bool {
    is_substitution(expr) ==> expr.len() >= 2 && (expr[1] as u32) < 0x80
}

/// Reads a rule `s/PATTERN/REPLACEMENT/[g]`, whose separator may be any ASCII
/// character.
pub fn parse_transform(expr: &str) -> (r: Result<Transform, String>)
    requires
        separator_readable(expr@),
    ensures
        r is Ok <==> is_substitution(expr@) && rule_of(expr@) is Some,
        r matches Ok(t) ==> rule_of(expr@) == Some(t@),
        r matches Err(e) ==> e@ == (if is_substitution(expr@) {
            "bad transform expression: "@ + expr@
        } else {
            "unsupported transform expression: "@ + expr@
        }),
{
    let chars = to_chars(expr);
    if chars.len() == 0 || chars[0] != 's' || expr.as_bytes().len() < 4 {
        return Err(concat("unsupported transform expression: ", expr));
    }
    let sep: char = chars[1];
    let ghost rest = expr@.skip(2);
    let i = find_char(&chars, 2, sep);
    proof {
        text::lemma_first_index(rest, sep);
    }
    if i == chars.len() {
        return Err(concat("bad transform expression: ", expr));
    }
    let ghost tail = rest.skip(i - 2 + 1);
    assert(chars@.skip(i + 1) =~= tail);
    let j = find_char(&chars, i + 1, sep);
    proof {
        text::lemma_first_index(tail, sep);
    }
    assert(chars@.subrange(2, i as int) =~= rest.take(i - 2));
    assert(chars@.subrange(i + 1, j as int) =~= tail.take(j - i - 1));
    let pattern = from_chars(slice_subrange(chars.as_slice(), 2, i));
    let replacement = from_chars(slice_subrange(chars.as_slice(), i + 1, j));
    let global = if j < chars.len() {
        assert(chars@.subrange(j + 1, chars@.len() as int) =~= tail.skip(j - i - 1 + 1));
        contains_char(slice_subrange(chars.as_slice(), j + 1, chars.len()), 'g')
    } else {
        assert(tail.take(j - i - 1) =~= tail);
        false
    };
    Ok(Transform { pattern, replacement, global })
}

/// `s` with the first occurrence of `p` replaced by `r`.
pub open spec fn replaced_once(s: Seq<char>, p: Seq<char>, r: Seq<char>) -> Seq<char>
    decreases s.len(),
{
    if p.is_prefix_of(s) {
        r + s.skip(p.len() as int)
    } else if s.len() == 0 {
        s
    } else {
        seq![s[0]] + replaced_once(s.drop_first(), p, r)
    }
}

/// `s` with every occurrence of `p`, from left to right and without overlap,
/// replaced by `r`. The empty pattern occurs before every character and at
/// the end.
pub open spec fn replaced_all(s: Seq<char>, p: Seq<char>, r: Seq<char>) -> Seq<char>
    decreases s.len(),
{
    if p.len() == 0 {
        if s.len() == 0 {
            r
        } else {
            r + seq![s[0]] + replaced_all(s.drop_first(), p, r)
        }
    } else if p.is_prefix_of(s) {
        r + replaced_all(s.skip(p.len() as int), p, r)
    } else if s.len() == 0 {
        s
    } else {
        seq![s[0]] + replaced_all(s.drop_first(), p, r)
    }
}

pub open spec fn rule_applied(s: Seq<char>, t: Rule) -> Seq<char> {
    if t.global {
        replaced_all(s, t.pattern, t.replacement)
    } else {
        replaced_once(s, t.pattern, t.replacement)
    }
}

pub open spec fn rules_of(v: Seq<Transform>) -> Seq<Rule> {
    v.map_values(|t: Transform| t@)
}

/// A path with the rules applied one after the other.
pub open spec fn rules_applied(s: Seq<char>, rules: Seq<Rule>) -> Seq<char>
    decreases rules.len(),
{
    if rules.len() == 0 {
        s
    } else {
        rule_applied(rules_applied(s, rules.drop_last()), rules.last())
    }
}

fn push_all(out: &mut Vec<char>, more: &[char])
    ensures
        final(out)@ == old(out)@ + more@,
{
    for i in 0..more.len()
        invariant
            out@ == old(out)@ + more@.take(i as int),
    {
        out.push(more[i]);
        assert(more@.take(i + 1) =~= more@.take(i as int).push(more@[i as int]));
    }
    assert(more@.take(more@.len() as int) =~= more@);
}

fn replace(s: &[char], p: &[char], r: &[char], global: bool) -> (out: Vec<char>)
    ensures
        out@ == (if global {
            replaced_all(s@, p@, r@)
        } else {
            replaced_once(s@, p@, r@)
        }),
{
    let mut out: Vec<char> = Vec::new();
    let mut i: usize = 0;
    let ghost whole = if global {
        replaced_all(s@, p@, r@)
    } else {
        replaced_once(s@, p@, r@)
    };
    assert(s@.skip(0) =~= s@);
    assert(out@ + whole =~= whole);
    while i < s.len()
        invariant
            i <= s.len(),
            global ==> out@ + replaced_all(s@.skip(i as int), p@, r@) == whole,
            !global ==> out@ + replaced_once(s@.skip(i as int), p@, r@) == whole,
            whole == (if global {
                replaced_all(s@, p@, r@)
            } else {
                replaced_once(s@, p@, r@)
            }),
        decreases s.len() - i,
    {
        let tail = slice_subrange(s, i, s.len());
        let ghost before = out@;
        assert(tail@ =~= s@.skip(i as int));
        assert(tail@.drop_first() =~= s@.skip(i + 1));
        if starts_with(tail, p) {
            push_all(&mut out, r);
            if !global {
                let rest = slice_subrange(s, i + p.len(), s.len());
                assert(rest@ =~= tail@.skip(p@.len() as int));
                push_all(&mut out, rest);
                assert(out@ =~= before + (r@ + tail@.skip(p@.len() as int)));
                return out;
            }
            if p.len() == 0 {
                out.push(s[i]);
                assert(out@ + replaced_all(s@.skip(i + 1), p@, r@) =~= before + (r@
                    + seq![tail@[0]] + replaced_all(tail@.drop_first(), p@, r@)));
                i = i + 1;
            } else {
                assert(s@.skip(i + p@.len()) =~= tail@.skip(p@.len() as int));
                assert(out@ + replaced_all(s@.skip(i + p@.len()), p@, r@) =~= before + (r@
                    + replaced_all(tail@.skip(p@.len() as int), p@, r@)));
                i = i + p.len();
            }
        } else {
            out.push(s[i]);
            proof {
                if global {
                    assert(out@ + replaced_all(s@.skip(i + 1), p@, r@) =~= before + (seq![tail@[0]]
                        + replaced_all(tail@.drop_first(), p@, r@)));
                } else {
                    assert(out@ + replaced_once(s@.skip(i + 1), p@, r@) =~= before + (
                    seq![tail@[0]] + replaced_once(tail@.drop_first(), p@, r@)));
                }
            }
            i = i + 1;
        }
    }
    let ghost end = s@.skip(i as int);
    assert(end =~= seq![]);
    if p.len() == 0 {
        let ghost before = out@;
        push_all(&mut out, r);
        assert(p@.is_prefix_of(end));
        assert(before + (r@ + end.skip(0)) =~= out@);
    } else {
        assert(!p@.is_prefix_of(end));
        assert(out@ + end =~= out@);
    }
    out
}

/// A path with the rules applied one after the other.
pub fn apply_transforms(path: &str, transforms: &[Transform]) -> (r: String)
    ensures
        r@ == rules_applied(path@, rules_of(transforms@)),
{
    let ghost rules = rules_of(transforms@);
    let mut result = to_chars(path);
    for i in 0..transforms.len()
        invariant
            rules == rules_of(transforms@),
            result@ == rules_applied(path@, rules.take(i as int)),
    {
        let t = &transforms[i];
        let p = to_chars(t.pattern.as_str());
        let r = to_chars(t.replacement.as_str());
        assert(rules.take(i + 1).drop_last() =~= rules.take(i as int));
        assert(rules[i as int] == t@);
        result = replace(&result, &p, &r, t.global);
    }
    assert(rules.take(rules.len() as int) =~= rules);
    from_chars(&result)
}

/// A path rewritten by the rules if there are any.
pub fn transformed(path: &str, transforms: &[Transform]) -> (r: String)
    ensures
        r@ == rules_applied(path@, rules_of(transforms@)),
{
    if transforms.len() > 0 {
        apply_transforms(path, transforms)
    } else {
        owned(path)
    }
}

/// Whether `p` occurs in `s` at position `i`.
pub open spec fn occurs_at(s: Seq<char>, p: Seq<char>, i: int) -> bool {
    0 <= i <= s.len() && p.is_prefix_of(s.skip(i))
}

/// A rule whose pattern does not occur leaves the path as it is.
pub proof fn law_transform_without_match(s: Seq<char>, t: Rule)
    requires
        forall|i: int| !occurs_at(s, t.pattern, i),
    ensures
        rule_applied(s, t) == s,
    decreases s.len(),
{
    let p = t.pattern;
    assert(s.skip(0) =~= s);
    assert(!occurs_at(s, p, 0));
    if s.len() > 0 {
        let u = s.drop_first();
        assert forall|i: int| !occurs_at(u, p, i) by {
            if 0 <= i <= u.len() {
                assert(u.skip(i) =~= s.skip(i + 1));
                assert(!occurs_at(s, p, i + 1));
            }
        }
        law_transform_without_match(u, t);
        assert(seq![s[0]] + u =~= s);
    }
}

/// Two lists of rules apply one after the other.
pub proof fn law_transforms_compose(s: Seq<char>, first: Seq<Rule>, second: Seq<Rule>)
    ensures
        rules_applied(s, first + second) == rules_applied(rules_applied(s, first), second),
    decreases second.len(),
{
    if second.len() == 0 {
        assert(first + second =~= first);
    } else {
        assert((first + second).drop_last() =~= first + second.drop_last());
        law_transforms_compose(s, first, second.drop_last());
    }
}

/// A rule is read from an `s`, a separator, the pattern, the separator, the
/// replacement, and perhaps the separator and flags; it is applied everywhere
/// where the flags hold a `g`.
pub proof fn law_rule_read(
    sep: char,
    pattern: Seq<char>,
    replacement: Seq<char>,
    flags: Seq<char>,
)
    requires
        !pattern.contains(sep),
        !replacement.contains(sep),
    ensures
        ({
            let start = seq!['s', sep] + pattern;
            let short = start.push(sep) + replacement;
            let whole = short.push(sep) + flags;
            &&& rule_of(start) is None
            &&& rule_of(short) == Some(Rule { pattern, replacement, global: false })
            &&& rule_of(whole) == Some(
                Rule { pattern, replacement, global: flags.contains('g') },
            )
        }),
{
    let start = seq!['s', sep] + pattern;
    let short = start.push(sep) + replacement;
    let whole = short.push(sep) + flags;
    let n = pattern.len() as int;
    let m = replacement.len() as int;
    assert(start.skip(2) =~= pattern);
    text::lemma_first_index_is(pattern, sep, n);
    let a = short.skip(2);
    assert(a =~= pattern.push(sep) + replacement);
    text::lemma_first_index_is(a, sep, n);
    assert(a.take(n) =~= pattern);
    assert(a.skip(n + 1) =~= replacement);
    text::lemma_first_index_is(replacement, sep, m);
    let b = whole.skip(2);
    assert(b =~= pattern.push(sep) + (replacement.push(sep) + flags));
    text::lemma_first_index_is(b, sep, n);
    assert(b.take(n) =~= pattern);
    let t = replacement.push(sep) + flags;
    assert(b.skip(n + 1) =~= t);
    text::lemma_first_index_is(t, sep, m);
    assert(t.take(m) =~= replacement);
    assert(t.skip(m + 1) =~= flags);
}

/// A rule puts the replacement in the place of the first occurrence of its
/// pattern; one that applies everywhere does the same with what follows, and one
/// that does not leaves it as it is.
pub proof fn law_replacement(s: Seq<char>, t: Rule, i: int)
    requires
        t.pattern.len() > 0,
        occurs_at(s, t.pattern, i),
        forall|k: int| 0 <= k < i ==> !occurs_at(s, t.pattern, k),
    ensures
        !t.global ==> rule_applied(s, t) == s.take(i) + t.replacement + s.skip(
            i + t.pattern.len(),
        ),
        t.global ==> rule_applied(s, t) == s.take(i) + t.replacement + rule_applied(
            s.skip(i + t.pattern.len()),
            t,
        ),
    decreases s.len(),
{
    let p = t.pattern;
    let r = t.replacement;
    assert(s.skip(0) =~= s);
    if i == 0 {
        assert(s.take(0) + r =~= r);
        assert(s.skip(i + p.len()) == s.skip(p.len() as int));
    } else {
        let u = s.drop_first();
        assert(!occurs_at(s, p, 0));
        assert(u.skip(i - 1) =~= s.skip(i));
        assert forall|k: int| 0 <= k < i - 1 implies !occurs_at(u, p, k) by {
            assert(u.skip(k) =~= s.skip(k + 1));
            assert(!occurs_at(s, p, k + 1));
        }
        law_replacement(u, t, i - 1);
        let tail = s.skip(i + p.len());
        assert(u.skip(i - 1 + p.len()) =~= tail);
        assert(seq![s[0]] + u.take(i - 1) =~= s.take(i));
        if t.global {
            assert(seq![s[0]] + (u.take(i - 1) + r + replaced_all(tail, p, r)) =~= s.take(i) + r
                + replaced_all(tail, p, r));
        } else {
            assert(seq![s[0]] + (u.take(i - 1) + r + tail) =~= s.take(i) + r + tail);
        }
    }
}

/// An empty pattern occurs once before every character and once at the end.
pub proof fn law_empty_pattern(s: Seq<char>, t: Rule)
    requires
        t.pattern.len() == 0,
    ensures
        !t.global ==> rule_applied(s, t) == t.replacement + s,
        t.global && s.len() == 0 ==> rule_applied(s, t) == t.replacement,
        t.global && s.len() > 0 ==> rule_applied(s, t) == t.replacement.push(s[0]) + rule_applied(
            s.drop_first(),
            t,
        ),
{
    let r = t.replacement;
    assert(t.pattern =~= s.subrange(0, 0));
    assert(t.pattern.is_prefix_of(s));
    assert(s.skip(0) =~= s);
    if s.len() > 0 {
        assert(r + seq![s[0]] + replaced_all(s.drop_first(), t.pattern, r) =~= r.push(s[0])
            + replaced_all(s.drop_first(), t.pattern, r));
    }
}

/// Rules are applied one after the other, each to what the one before it made.
pub proof fn law_rules_in_order(s: Seq<char>, first: Rule, rest: Seq<Rule>)
    ensures
        rules_applied(s, seq![]) == s,
        rules_applied(s, seq![first] + rest) == rules_applied(rule_applied(s, first), rest),
{
    law_transforms_compose(s, seq![first], rest);
    assert(seq![first].drop_last() =~= seq![]);
    reveal_with_fuel(rules_applied, 2);
}

proof fn lemma_encoded_length(s: Seq<char>)
    ensures
        encode_utf8(s).len() >= s.len(),
        vstd::utf8::is_ascii_chars(s) ==> encode_utf8(s).len() == s.len(),
    decreases s.len(),
{
    if s.len() > 0 {
        lemma_encoded_length(s.drop_first());
    }
    if vstd::utf8::is_ascii_chars(s) {
        vstd::utf8::is_ascii_chars_encode_utf8(s);
    }
}

/// An expression is a rule only where it begins with an `s`; four characters are
/// enough for one, and fewer characters of ASCII are not.
pub proof fn law_rule_length(expr: Seq<char>)
    ensures
        is_substitution(expr) ==> expr[0] == 's',
        expr.len() >= 4 && expr[0] == 's' ==> is_substitution(expr),
        expr.len() < 4 && vstd::utf8::is_ascii_chars(expr) ==> !is_substitution(expr),
{
    lemma_encoded_length(expr);
}

} // verus!
