//! Symbolic permission changes, as in `u+w,go-x`.

use crate::text::{split_chars, to_chars, trim};
use vstd::prelude::*;

verus! {

/// One clause of a permission change: for whom, how, and which permissions.
#[derive(Debug, Clone, Copy, PartialEq, Eq, Structural)]
pub struct ModeClause {
    pub user: bool,
    pub group: bool,
    pub other: bool,
    pub op: char,
    pub read: bool,
    pub write: bool,
    pub execute: bool,
}

pub open spec fn is_who(c: char) -> bool {
    c == 'u' || c == 'g' || c == 'o' || c == 'a'
}

pub open spec fn is_op(c: char) -> bool {
    c == '+' || c == '-' || c == '='
}

/// The permission letters that a clause may hold; `s`, `t` and `X` are
/// accepted without effect.
pub open spec fn is_perm(c: char) -> bool {
    c == 'r' || c == 'w' || c == 'x' || c == 's' || c == 't' || c == 'X'
}

/// The length of the longest prefix of `s` made of class letters.
pub open spec fn who_run(s: Seq<char>) -> int
    decreases s.len(),
{
    if s.len() > 0 && is_who(s[0]) {
        1 + who_run(s.drop_first())
    } else {
        0
    }
}

/// The length of the longest prefix of `s` made of permission letters.
pub open spec fn perm_run(s: Seq<char>) -> int
    decreases s.len(),
{
    if s.len() > 0 && is_perm(s[0]) {
        1 + perm_run(s.drop_first())
    } else {
        0
    }
}

/// Reads a clause `[ugoa]*[-+=][rwxstX]*`. No class letter means all classes.
/// What follows the permission letters is ignored; without an operator there
/// is no clause.
pub open spec fn clause_of(s: Seq<char>) -> Option<ModeClause> {
    let k = who_run(s);
    let who = s.take(k);
    if k < s.len() && is_op(s[k]) {
        let perms = s.skip(k + 1).take(perm_run(s.skip(k + 1)));
        let all = k == 0 || who.contains('a');
        Some(
            ModeClause {
                user: all || who.contains('u'),
                group: all || who.contains('g'),
                other: all || who.contains('o'),
                op: s[k],
                read: perms.contains('r'),
                write: perms.contains('w'),
                execute: perms.contains('x'),
            },
        )
    } else {
        None
    }
}

/// The `rwx` bits of a clause, for one class.
pub open spec fn clause_bits(c: ModeClause) -> u32 {
    (if c.read { 4u32 } else { 0 }) | (if c.write { 2u32 } else { 0 }) | (if c.execute {
        1u32
    } else {
        0
    })
}

/// The permission bits that a clause speaks of.
pub open spec fn clause_mask(c: ModeClause) -> u32 {
    (if c.user { clause_bits(c) << 6 } else { 0 }) | (if c.group { clause_bits(c) << 3 } else {
        0
    }) | (if c.other { clause_bits(c) } else { 0 })
}

/// All permission bits of the classes that a clause names.
pub open spec fn class_mask(c: ModeClause) -> u32 {
    (if c.user { 0o700u32 } else { 0 }) | (if c.group { 0o070u32 } else { 0 }) | (if c.other {
        0o007u32
    } else {
        0
    })
}

/// `+` grants, `-` revokes, and `=` grants exactly the permissions of a
/// clause to the classes that it names.
pub open spec fn clause_applied(mode: u32, c: ModeClause) -> u32 {
    if c.op == '+' {
        mode | clause_mask(c)
    } else if c.op == '-' {
        mode & !clause_mask(c)
    } else {
        (mode & !class_mask(c)) | clause_mask(c)
    }
}

/// The mode after one comma-separated part; a part that is no clause changes
/// nothing.
pub open spec fn part_applied(mode: u32, part: Seq<char>) -> u32 {
    match clause_of(crate::text::trimmed(part)) {
        Some(c) => clause_applied(mode, c),
        None => mode,
    }
}

pub open spec fn parts_applied(mode: u32, parts: Seq<Seq<char>>) -> u32
    decreases parts.len(),
{
    if parts.len() == 0 {
        mode
    } else {
        part_applied(parts_applied(mode, parts.drop_last()), parts.last())
    }
}

/// The mode after a comma-separated list of clauses, from left to right.
pub open spec fn changed_mode(mode: u32, changes: Seq<char>) -> u32 {
    parts_applied(mode, crate::text::split(changes, ','))
}

proof fn lemma_who_run(s: Seq<char>, k: int)
    requires
        0 <= k <= s.len(),
        forall|i: int| 0 <= i < k ==> is_who(s[i]),
        k < s.len() ==> !is_who(s[k]),
    ensures
        who_run(s) == k,
    decreases k,
{
    if k > 0 {
        let t = s.drop_first();
        assert(forall|i: int| 0 <= i < k - 1 ==> t[i] == s[i + 1]);
        lemma_who_run(t, k - 1);
    }
}

proof fn lemma_perm_run(s: Seq<char>, k: int)
    requires
        0 <= k <= s.len(),
        forall|i: int| 0 <= i < k ==> is_perm(s[i]),
        k < s.len() ==> !is_perm(s[k]),
    ensures
        perm_run(s) == k,
    decreases k,
{
    if k > 0 {
        let t = s.drop_first();
        assert(forall|i: int| 0 <= i < k - 1 ==> t[i] == s[i + 1]);
        lemma_perm_run(t, k - 1);
    }
}

proof fn lemma_contains_push(s: Seq<char>, k: int, c: char)
    requires
        0 <= k < s.len(),
    ensures
        s.take(k + 1).contains(c) <==> s.take(k).contains(c) || s[k] == c,
{
    if s.take(k).contains(c) {
        let i = s.take(k).index_of(c);
        assert(s.take(k)[i] == c);
        assert(s.take(k + 1)[i] == c);
    }
    if s[k] == c {
        assert(s.take(k + 1)[k] == c);
    }
    if s.take(k + 1).contains(c) && s[k] != c {
        let i = s.take(k + 1).index_of(c);
        assert(s.take(k + 1)[i] == c);
        assert(s.take(k)[i] == c);
    }
}

fn parse_clause(s: &[char]) -> (r: Option<ModeClause>)
    ensures
        r == clause_of(s@),
{
    let mut user = false;
    let mut group = false;
    let mut other = false;
    let mut k: usize = 0;
    while k < s.len() && (s[k] == 'u' || s[k] == 'g' || s[k] == 'o' || s[k] == 'a')
        invariant
            k <= s.len(),
            forall|i: int| 0 <= i < k ==> is_who(s@[i]),
            user == (s@.take(k as int).contains('a') || s@.take(k as int).contains('u')),
            group == (s@.take(k as int).contains('a') || s@.take(k as int).contains('g')),
            other == (s@.take(k as int).contains('a') || s@.take(k as int).contains('o')),
            k > 0 ==> user || group || other,
        decreases s.len() - k,
    {
        proof {
            lemma_contains_push(s@, k as int, 'a');
            lemma_contains_push(s@, k as int, 'u');
            lemma_contains_push(s@, k as int, 'g');
            lemma_contains_push(s@, k as int, 'o');
        }
        let c: char = s[k];
        if c == 'u' || c == 'a' {
            user = true;
        }
        if c == 'g' || c == 'a' {
            group = true;
        }
        if c == 'o' || c == 'a' {
            other = true;
        }
        k = k + 1;
    }
    proof {
        lemma_who_run(s@, k as int);
    }
    if !user && !group && !other {
        user = true;
        group = true;
        other = true;
    }
    if k == s.len() {
        return None;
    }
    let op: char = s[k];
    if op != '+' && op != '-' && op != '=' {
        return None;
    }
    let mut read = false;
    let mut write = false;
    let mut execute = false;
    let mut n: usize = k + 1;
    let ghost tail = s@.skip(k + 1);
    while n < s.len() && (s[n] == 'r' || s[n] == 'w' || s[n] == 'x' || s[n] == 's' || s[n] == 't'
        || s[n] == 'X')
        invariant
            k + 1 <= n <= s.len(),
            tail == s@.skip(k + 1),
            forall|i: int| 0 <= i < n - k - 1 ==> is_perm(tail[i]),
            read == tail.take(n - k - 1).contains('r'),
            write == tail.take(n - k - 1).contains('w'),
            execute == tail.take(n - k - 1).contains('x'),
        decreases s.len() - n,
    {
        let c: char = s[n];
        assert(tail[n - k - 1] == c);
        proof {
            lemma_contains_push(tail, n - k - 1, 'r');
            lemma_contains_push(tail, n - k - 1, 'w');
            lemma_contains_push(tail, n - k - 1, 'x');
        }
        if c == 'r' {
            read = true;
        }
        if c == 'w' {
            write = true;
        }
        if c == 'x' {
            execute = true;
        }
        n = n + 1;
    }
    proof {
        if n < s@.len() {
            assert(tail[n - k - 1] == s@[n as int]);
        }
        lemma_perm_run(tail, n - k - 1);
    }
    Some(ModeClause { user, group, other, op, read, write, execute })
}

fn apply_clause(mode: u32, c: ModeClause) -> (r: u32)
    ensures
        r == clause_applied(mode, c),
{
    let bits: u32 = (if c.read { 4u32 } else { 0 }) | (if c.write { 2u32 } else { 0 }) | (
    if c.execute {
        1u32
    } else {
        0
    });
    let mask: u32 = (if c.user { bits << 6 } else { 0 }) | (if c.group { bits << 3 } else { 0 }) | (
    if c.other {
        bits
    } else {
        0
    });
    if c.op == '+' {
        mode | mask
    } else if c.op == '-' {
        mode & !mask
    } else {
        let clear: u32 = (if c.user { 0o700u32 } else { 0 }) | (if c.group { 0o070u32 } else { 0 })
            | (if c.other { 0o007u32 } else { 0 });
        (mode & !clear) | mask
    }
}

/// Applies a symbolic permission change to a mode. Supports `+rwx`, `-rwx`,
/// `=rwx` and combinations such as `u+w,go-x`.
pub fn apply_mode_change(current: u32, changes: &str) -> (r: u32)
    ensures
        r == changed_mode(current, changes@),
{
    let chars = to_chars(changes);
    let parts = split_chars(&chars, ',');
    let ghost all = crate::text::char_views(parts@);
    let mut mode: u32 = current;
    for i in 0..parts.len()
        invariant
            all == crate::text::char_views(parts@),
            mode == parts_applied(current, all.take(i as int)),
    {
        assert(all.take(i + 1).drop_last() =~= all.take(i as int));
        assert(all[i as int] == parts@[i as int]@);
        match parse_clause(trim(&parts[i])) {
            Some(c) => {
                mode = apply_clause(mode, c);
            },
            None => {},
        }
    }
    assert(all.take(all.len() as int) =~= all);
    mode
}

/// The new mode of a file whose mode is `current`, if the changes make one.
pub open spec fn updated_mode(current: u32, changes: Seq<char>) -> Option<u32> {
    if changed_mode(current, changes) == current {
        None
    } else {
        Some(changed_mode(current, changes))
    }
}

/// The new mode of a file whose mode is `current`, if the changes make one.
pub fn mode_update(current: u32, changes: &str) -> (r: Option<u32>)
    ensures
        r == updated_mode(current, changes@),
{
    let new_mode = apply_mode_change(current, changes);
    if new_mode != current {
        Some(new_mode)
    } else {
        None
    }
}

/// The permissions of an extracted file: those of the archive where they are
/// preserved, else without the write permission of group and others.
pub open spec fn extracted_mode(mode: u32, preserve: bool) -> u32 {
    if preserve {
        mode
    } else {
        mode & !0o022u32
    }
}

pub fn effective_mode(mode: u32, preserve: bool) -> (r: u32)
    ensures
        r == extracted_mode(mode, preserve),
{
    if preserve {
        mode
    } else {
        mode & !0o022u32
    }
}

/// The permissions of a directory while its members are being extracted: its
/// owner can always write to it.
pub open spec fn working_mode(effective: u32) -> u32 {
    effective | 0o700u32
}

/// The permissions of a directory while its members are being extracted.
pub fn working_directory_mode(effective: u32) -> (r: u32)
    ensures
        r == working_mode(effective),
{
    effective | 0o700u32
}

/// The bits that one part keeps and the bits that it sets.
spec fn part_masks(part: Seq<char>) -> (u32, u32) {
    match clause_of(crate::text::trimmed(part)) {
        Some(c) => if c.op == '+' {
            (0xffff_ffffu32, clause_mask(c))
        } else if c.op == '-' {
            (!clause_mask(c), 0u32)
        } else {
            (!class_mask(c), clause_mask(c))
        },
        None => (0xffff_ffffu32, 0u32),
    }
}

spec fn parts_masks(parts: Seq<Seq<char>>) -> (u32, u32)
    decreases parts.len(),
{
    if parts.len() == 0 {
        (0xffff_ffffu32, 0u32)
    } else {
        let (a, b) = parts_masks(parts.drop_last());
        let (k, s) = part_masks(parts.last());
        (a & k, (b & k) | s)
    }
}

proof fn lemma_clause_mask_small(c: ModeClause)
    ensures
        clause_mask(c) & !0o777u32 == 0,
        class_mask(c) & !0o777u32 == 0,
{
    let bits = clause_bits(c);
    let (r, w, x) = (c.read, c.write, c.execute);
    assert(((if r { 4u32 } else { 0 }) | (if w { 2u32 } else { 0 }) | (if x { 1u32 } else { 0 }))
        <= 7) by (bit_vector);
    let (u, g, o) = (c.user, c.group, c.other);
    assert(((if u { bits << 6 } else { 0 }) | (if g { bits << 3 } else { 0 }) | (if o {
        bits
    } else {
        0
    })) & !0o777u32 == 0) by (bit_vector)
        requires
            bits <= 7,
    ;
    assert(((if u { 0o700u32 } else { 0 }) | (if g { 0o070u32 } else { 0 }) | (if o {
        0o007u32
    } else {
        0
    })) & !0o777u32 == 0) by (bit_vector);
}

proof fn lemma_parts_masks(mode: u32, parts: Seq<Seq<char>>)
    ensures
        parts_applied(mode, parts) == (mode & parts_masks(parts).0) | parts_masks(parts).1,
        !parts_masks(parts).0 & !0o777u32 == 0,
        parts_masks(parts).1 & !0o777u32 == 0,
    decreases parts.len(),
{
    if parts.len() == 0 {
        assert((mode & 0xffff_ffffu32) | 0u32 == mode) by (bit_vector);
        assert(!0xffff_ffffu32 & !0o777u32 == 0 && 0u32 & !0o777u32 == 0) by (bit_vector);
    } else {
        lemma_parts_masks(mode, parts.drop_last());
        let (a, b) = parts_masks(parts.drop_last());
        let (k, s) = part_masks(parts.last());
        let m = (mode & a) | b;
        match clause_of(crate::text::trimmed(parts.last())) {
            Some(c) => {
                lemma_clause_mask_small(c);
                let q = clause_mask(c);
                let cl = class_mask(c);
                assert(m | q == (m & 0xffff_ffffu32) | q) by (bit_vector);
                assert(m & !q == (m & !q) | 0u32) by (bit_vector);
                assert(!0xffff_ffffu32 & !0o777u32 == 0 && 0u32 & !0o777u32 == 0) by (bit_vector);
                assert(!!q & !0o777u32 == q & !0o777u32) by (bit_vector);
                assert(!!cl & !0o777u32 == cl & !0o777u32) by (bit_vector);
            },
            None => {
                assert(m == (m & 0xffff_ffffu32) | 0u32) by (bit_vector);
                assert(!0xffff_ffffu32 & !0o777u32 == 0 && 0u32 & !0o777u32 == 0) by (bit_vector);
            },
        }
        assert((m & k) | s == (mode & (a & k)) | ((b & k) | s)) by (bit_vector)
            requires
                m == (mode & a) | b,
        ;
        assert(!(a & k) & !0o777u32 == 0 && ((b & k) | s) & !0o777u32 == 0) by (bit_vector)
            requires
                !a & !0o777u32 == 0,
                !k & !0o777u32 == 0,
                b & !0o777u32 == 0,
                s & !0o777u32 == 0,
        ;
    }
}

/// A permission change touches the nine permission bits alone.
pub proof fn law_mode_keeps_other_bits(mode: u32, changes: Seq<char>)
    ensures
        changed_mode(mode, changes) & !0o777u32 == mode & !0o777u32,
{
    let parts = crate::text::split(changes, ',');
    lemma_parts_masks(mode, parts);
    let (a, b) = parts_masks(parts);
    assert(((mode & a) | b) & !0o777u32 == mode & !0o777u32) by (bit_vector)
        requires
            !a & !0o777u32 == 0,
            b & !0o777u32 == 0,
    ;
}

/// Applying a permission change a second time changes nothing more.
pub proof fn law_mode_idempotent(mode: u32, changes: Seq<char>)
    ensures
        changed_mode(changed_mode(mode, changes), changes) == changed_mode(mode, changes),
{
    let parts = crate::text::split(changes, ',');
    lemma_parts_masks(mode, parts);
    lemma_parts_masks(changed_mode(mode, changes), parts);
    let (a, b) = parts_masks(parts);
    assert((((mode & a) | b) & a) | b == (mode & a) | b) by (bit_vector);
}

proof fn lemma_parts_concat(mode: u32, first: Seq<Seq<char>>, second: Seq<Seq<char>>)
    ensures
        parts_applied(mode, first + second) == parts_applied(parts_applied(mode, first), second),
    decreases second.len(),
{
    if second.len() == 0 {
        assert(first + second =~= first);
    } else {
        assert((first + second).drop_last() =~= first + second.drop_last());
        lemma_parts_concat(mode, first, second.drop_last());
    }
}

/// Changes joined by a comma apply one after the other.
pub proof fn law_mode_changes_compose(mode: u32, first: Seq<char>, second: Seq<char>)
    ensures
        changed_mode(mode, first + seq![','] + second) == changed_mode(
            changed_mode(mode, first),
            second,
        ),
{
    crate::text::lemma_split_concat(first, second, ',');
    lemma_parts_concat(mode, crate::text::split(first, ','), crate::text::split(second, ','));
}

/// Without preserved permissions nothing is extracted writable for group or
/// others; every other permission bit is kept.
pub proof fn law_extracted_mode(mode: u32)
    ensures
        extracted_mode(mode, false) & 0o022u32 == 0,
        extracted_mode(mode, false) & !0o022u32 == mode & !0o022u32,
        extracted_mode(mode, true) == mode,
{
    assert((mode & !0o022u32) & 0o022u32 == 0) by (bit_vector);
    assert((mode & !0o022u32) & !0o022u32 == mode & !0o022u32) by (bit_vector);
}

/// While its members are extracted the owner of a directory can enter it and
/// write to it, and nothing is taken from its permissions.
pub proof fn law_working_directory(effective: u32)
    ensures
        (effective | 0o700u32) & 0o700u32 == 0o700u32,
        (effective | 0o700u32) & effective == effective,
        working_mode(effective) & 0o700u32 == 0o700u32,
        working_mode(effective) & effective == effective,
        working_mode(effective) & !0o700u32 == effective & !0o700u32,
{
    assert((effective | 0o700u32) & !0o700u32 == effective & !0o700u32) by (bit_vector);
    assert((effective | 0o700u32) & 0o700u32 == 0o700u32) by (bit_vector);
    assert((effective | 0o700u32) & effective == effective) by (bit_vector);
}

/// What a clause makes of one permission: `+` grants it, `-` revokes it and `=`
/// sets it, where it is among those given, to those whom the clause names.
pub open spec fn permitted(before: bool, named: bool, given: bool, op: char) -> bool {
    if !named {
        before
    } else if op == '+' {
        before || given
    } else if op == '-' {
        before && !given
    } else {
        given
    }
}

/// A change `[ugoa]*[-+=][rwxstX]*` says of each of the nine permissions whether
/// it is granted: those of the owner, of the group and of others that it names,
/// which are all where it names none. The letters `s`, `t` and `X` say nothing.
pub proof fn law_mode_clause(mode: u32, who: Seq<char>, op: char, perms: Seq<char>)
    requires
        forall|i: int|
            0 <= i < who.len() ==> (#[trigger] who[i] == 'u' || who[i] == 'g' || who[i] == 'o'
                || who[i] == 'a'),
        op == '+' || op == '-' || op == '=',
        forall|i: int|
            0 <= i < perms.len() ==> (#[trigger] perms[i] == 'r' || perms[i] == 'w' || perms[i]
                == 'x' || perms[i] == 's' || perms[i] == 't' || perms[i] == 'X'),
    ensures
        ({
            let r = changed_mode(mode, who.push(op) + perms);
            let all = who.len() == 0 || who.contains('a');
            let u = all || who.contains('u');
            let g = all || who.contains('g');
            let o = all || who.contains('o');
            let (x, y, z) = (perms.contains('r'), perms.contains('w'), perms.contains('x'));
            &&& (r & 0o400 != 0) == permitted(mode & 0o400 != 0, u, x, op)
            &&& (r & 0o200 != 0) == permitted(mode & 0o200 != 0, u, y, op)
            &&& (r & 0o100 != 0) == permitted(mode & 0o100 != 0, u, z, op)
            &&& (r & 0o040 != 0) == permitted(mode & 0o040 != 0, g, x, op)
            &&& (r & 0o020 != 0) == permitted(mode & 0o020 != 0, g, y, op)
            &&& (r & 0o010 != 0) == permitted(mode & 0o010 != 0, g, z, op)
            &&& (r & 0o004 != 0) == permitted(mode & 0o004 != 0, o, x, op)
            &&& (r & 0o002 != 0) == permitted(mode & 0o002 != 0, o, y, op)
            &&& (r & 0o001 != 0) == permitted(mode & 0o001 != 0, o, z, op)
        }),
{
    let s = who.push(op) + perms;
    let k = who.len() as int;
    assert forall|i: int| 0 <= i < s.len() implies s[i] != ',' && !crate::text::is_white(s[i]) by {
        if i < k {
            assert(s[i] == who[i]);
        } else if i > k {
            assert(s[i] == perms[i - k - 1]);
        }
    }
    crate::text::lemma_first_index_is(s, ',', s.len() as int);
    assert(crate::text::split(s, ',') =~= seq![s]);
    assert(crate::text::trimmed(s) == s) by {
        assert(s[0] == s[0]);
    }
    assert forall|i: int| 0 <= i < k implies is_who(s[i]) by {
        assert(s[i] == who[i]);
    }
    lemma_who_run(s, k);
    assert(s.take(k) =~= who);
    assert(s.skip(k + 1) =~= perms);
    assert forall|i: int| 0 <= i < perms.len() implies is_perm(perms[i]) by {
        assert(perms[i] == 'r' || perms[i] == 'w' || perms[i] == 'x' || perms[i] == 's' || perms[i]
            == 't' || perms[i] == 'X');
    }
    lemma_perm_run(perms, perms.len() as int);
    assert(perms.take(perms.len() as int) =~= perms);
    let c = clause_of(s)->0;
    assert(clause_of(s) == Some(c));
    assert(changed_mode(mode, s) == clause_applied(mode, c)) by {
        reveal_with_fuel(parts_applied, 2);
        assert(seq![s].drop_last() =~= seq![]);
    }
    lemma_clause_bits(mode, c);
}

proof fn lemma_clause_bits(mode: u32, c: ModeClause)
    requires
        c.op == '+' || c.op == '-' || c.op == '=',
    ensures
        ({
            let r = clause_applied(mode, c);
            let (u, g, o, x, y, z, op) = (
                c.user,
                c.group,
                c.other,
                c.read,
                c.write,
                c.execute,
                c.op,
            );
            &&& (r & 0o400 != 0) == permitted(mode & 0o400 != 0, u, x, op)
            &&& (r & 0o200 != 0) == permitted(mode & 0o200 != 0, u, y, op)
            &&& (r & 0o100 != 0) == permitted(mode & 0o100 != 0, u, z, op)
            &&& (r & 0o040 != 0) == permitted(mode & 0o040 != 0, g, x, op)
            &&& (r & 0o020 != 0) == permitted(mode & 0o020 != 0, g, y, op)
            &&& (r & 0o010 != 0) == permitted(mode & 0o010 != 0, g, z, op)
            &&& (r & 0o004 != 0) == permitted(mode & 0o004 != 0, o, x, op)
            &&& (r & 0o002 != 0) == permitted(mode & 0o002 != 0, o, y, op)
            &&& (r & 0o001 != 0) == permitted(mode & 0o001 != 0, o, z, op)
        }),
{
    let (u, g, o, x, y, z) = (c.user, c.group, c.other, c.read, c.write, c.execute);
    let bits = clause_bits(c);
    let mask = clause_mask(c);
    let class = class_mask(c);
    assert((bits & 4 != 0) == x && (bits & 2 != 0) == y && (bits & 1 != 0) == z && bits <= 7)
        by (bit_vector)
        requires
            bits == (if x { 4u32 } else { 0 }) | (if y { 2u32 } else { 0 }) | (if z {
                1u32
            } else {
                0
            }),
    ;
    assert({
        &&& (mask & 0o400 != 0) == (u && bits & 4 != 0)
        &&& (mask & 0o200 != 0) == (u && bits & 2 != 0)
        &&& (mask & 0o100 != 0) == (u && bits & 1 != 0)
        &&& (mask & 0o040 != 0) == (g && bits & 4 != 0)
        &&& (mask & 0o020 != 0) == (g && bits & 2 != 0)
        &&& (mask & 0o010 != 0) == (g && bits & 1 != 0)
        &&& (mask & 0o004 != 0) == (o && bits & 4 != 0)
        &&& (mask & 0o002 != 0) == (o && bits & 2 != 0)
        &&& (mask & 0o001 != 0) == (o && bits & 1 != 0)
    }) by (bit_vector)
        requires
            bits <= 7,
            mask == (if u { bits << 6 } else { 0 }) | (if g { bits << 3 } else { 0 }) | (if o {
                bits
            } else {
                0
            }),
    ;
    assert({
        &&& (class & 0o400 != 0) == u
        &&& (class & 0o200 != 0) == u
        &&& (class & 0o100 != 0) == u
        &&& (class & 0o040 != 0) == g
        &&& (class & 0o020 != 0) == g
        &&& (class & 0o010 != 0) == g
        &&& (class & 0o004 != 0) == o
        &&& (class & 0o002 != 0) == o
        &&& (class & 0o001 != 0) == o
    }) by (bit_vector)
        requires
            class == (if u { 0o700u32 } else { 0 }) | (if g { 0o070u32 } else { 0 }) | (if o {
                0o007u32
            } else {
                0
            }),
    ;
    assert forall|b: u32|
        b == 0o400 || b == 0o200 || b == 0o100 || b == 0o040 || b == 0o020 || b == 0o010 || b
            == 0o004 || b == 0o002 || b == 0o001 implies {
        &&& (#[trigger] ((mode | mask) & b) != 0) == (mode & b != 0 || mask & b != 0)
        &&& ((mode & !mask) & b != 0) == (mode & b != 0 && mask & b == 0)
        &&& (((mode & !class) | mask) & b != 0) == (mode & b != 0 && class & b == 0 || mask & b
            != 0)
    } by {
        assert({
            &&& ((mode | mask) & b != 0) == (mode & b != 0 || mask & b != 0)
            &&& ((mode & !mask) & b != 0) == (mode & b != 0 && mask & b == 0)
            &&& (((mode & !class) | mask) & b != 0) == (mode & b != 0 && class & b == 0 || mask & b
                != 0)
        }) by (bit_vector)
            requires
                b == 0o400 || b == 0o200 || b == 0o100 || b == 0o040 || b == 0o020 || b == 0o010
                    || b == 0o004 || b == 0o002 || b == 0o001,
        ;
    }
    let m = mode | mask;
    assert((mode | mask) & 0o400 == m & 0o400 && (mode | mask) & 0o200 == m & 0o200 && (mode | mask)
        & 0o100 == m & 0o100 && (mode | mask) & 0o040 == m & 0o040 && (mode | mask) & 0o020 == m
        & 0o020 && (mode | mask) & 0o010 == m & 0o010 && (mode | mask) & 0o004 == m & 0o004 && (mode
        | mask) & 0o002 == m & 0o002 && (mode | mask) & 0o001 == m & 0o001);
}

/// A change that holds no operator, and an empty one, changes nothing.
pub proof fn law_mode_without_operator(mode: u32, part: Seq<char>)
    requires
        !part.contains('+'),
        !part.contains('-'),
        !part.contains('='),
    ensures
        changed_mode(mode, part) == mode,
{
    let parts = crate::text::split(part, ',');
    crate::text::law_split(part, ',');
    assert forall|i: int| 0 <= i < parts.len() implies clause_of(
        crate::text::trimmed(#[trigger] parts[i]),
    ) is None by {
        lemma_piece_within(part, ',', i);
        let p = parts[i];
        let t = crate::text::trimmed(p);
        crate::text::law_trimmed(p);
        let (a, b) = choose|a: Seq<char>, b: Seq<char>|
            #![trigger crate::text::all_white(a), crate::text::all_white(b)]
            crate::text::all_white(a) && crate::text::all_white(b) && p == a + t + b;
        let k = who_run(t);
        lemma_who_run_range(t);
        if clause_of(t) is Some {
            assert(p[a.len() + k] == t[k]);
            assert(p.contains(t[k]));
            assert(part.contains(t[k]));
        }
    }
    lemma_no_clauses(mode, parts);
}

proof fn lemma_who_run_range(s: Seq<char>)
    ensures
        0 <= who_run(s) <= s.len(),
    decreases s.len(),
{
    if s.len() > 0 {
        lemma_who_run_range(s.drop_first());
    }
}

proof fn lemma_no_clauses(mode: u32, parts: Seq<Seq<char>>)
    requires
        forall|i: int|
            0 <= i < parts.len() ==> clause_of(crate::text::trimmed(#[trigger] parts[i])) is None,
    ensures
        parts_applied(mode, parts) == mode,
    decreases parts.len(),
{
    if parts.len() > 0 {
        let front = parts.drop_last();
        assert forall|i: int| 0 <= i < front.len() implies clause_of(
            crate::text::trimmed(#[trigger] front[i]),
        ) is None by {
            assert(front[i] == parts[i]);
        }
        lemma_no_clauses(mode, front);
        assert(parts.last() == parts[parts.len() - 1]);
    }
}

proof fn lemma_piece_within(s: Seq<char>, c: char, i: int)
    requires
        0 <= i < crate::text::split(s, c).len(),
    ensures
        forall|x: char| crate::text::split(s, c)[i].contains(x) ==> s.contains(x),
    decreases s.len(),
{
    let k = crate::text::first_index(s, c);
    crate::text::lemma_first_index(s, c);
    if k < s.len() {
        let rest = s.skip(k + 1);
        if i > 0 {
            lemma_piece_within(rest, c, i - 1);
            assert(crate::text::split(s, c)[i] == crate::text::split(rest, c)[i - 1]);
            assert forall|x: char| rest.contains(x) implies s.contains(x) by {
                let j = rest.index_of(x);
                assert(s[k + 1 + j] == x);
            }
        } else {
            let head = s.take(k);
            assert forall|x: char| head.contains(x) implies s.contains(x) by {
                let j = head.index_of(x);
                assert(s[j] == x);
            }
        }
    }
}

/// White space around a change does not count.
pub proof fn law_mode_white_space(mode: u32, a: Seq<char>, part: Seq<char>, b: Seq<char>)
    requires
        crate::text::all_white(a),
        crate::text::all_white(b),
        !part.contains(','),
        part.len() > 0,
        !crate::text::is_white(part[0]),
        !crate::text::is_white(part.last()),
    ensures
        changed_mode(mode, a + part + b) == changed_mode(mode, part),
{
    let s = a + part + b;
    assert forall|i: int| 0 <= i < s.len() implies s[i] != ',' by {
        if i < a.len() {
            assert(crate::text::is_white(a[i]));
        } else if i < a.len() + part.len() {
            assert(part.contains(part[i - a.len()]));
        } else {
            assert(crate::text::is_white(b[i - a.len() - part.len()]));
        }
    }
    assert forall|i: int| 0 <= i < part.len() implies part[i] != ',' by {
        assert(part.contains(part[i]));
    }
    crate::text::lemma_first_index_is(s, ',', s.len() as int);
    crate::text::lemma_first_index_is(part, ',', part.len() as int);
    crate::text::lemma_white_around(a, part, b);
    assert(crate::text::trimmed(part) == part);
    reveal_with_fuel(parts_applied, 2);
    assert(seq![s].drop_last() =~= seq![part].drop_last());
}

/// A file gets a new mode exactly where the changes make another of its own.
pub proof fn law_mode_update(current: u32, changes: Seq<char>)
    ensures
        updated_mode(current, changes) is None <==> changed_mode(current, changes) == current,
        updated_mode(current, changes) matches Some(m) ==> m == changed_mode(current, changes),
{
}

/// What follows the permissions of a change is ignored.
pub proof fn law_mode_rest_ignored(
    mode: u32,
    start: Seq<char>,
    k: int,
    c: char,
    rest: Seq<char>,
)
    requires
        0 <= k < start.len(),
        start[k] == '+' || start[k] == '-' || start[k] == '=',
        forall|i: int| 0 <= i < k ==> is_who(#[trigger] start[i]),
        forall|i: int| k < i < start.len() ==> is_perm(#[trigger] start[i]),
        !is_perm(c),
        c != ',',
        !rest.contains(','),
        !crate::text::is_white(start.push(c).last()),
        rest.len() > 0 ==> !crate::text::is_white(rest.last()),
    ensures
        changed_mode(mode, start.push(c) + rest) == changed_mode(mode, start),
{
    let s = start.push(c) + rest;
    assert forall|i: int| 0 <= i < s.len() implies s[i] != ',' by {
        if i < k {
            assert(is_who(start[i]));
        } else if k < i < start.len() {
            assert(is_perm(start[i]));
        } else if i > start.len() {
            assert(rest.contains(rest[i - start.len() - 1]));
        }
    }
    lemma_single_part(mode, s);
    assert forall|i: int| 0 <= i < start.len() implies start[i] != ',' by {
        assert(s[i] == start[i]);
    }
    assert(!crate::text::is_white(start[0]) && !crate::text::is_white(start.last())) by {
        if k > 0 {
            assert(is_who(start[0]));
        }
        if k < start.len() - 1 {
            assert(is_perm(start[start.len() - 1]));
        }
    }
    lemma_single_part(mode, start);
    assert(s[0] == start[0]);
    assert(s.last() == (if rest.len() > 0 { rest.last() } else { c }));
    lemma_who_run(start, k);
    assert forall|i: int| 0 <= i < k implies is_who(s[i]) by {
        assert(s[i] == start[i] && is_who(start[i]));
    }
    assert(s[k] == start[k]);
    lemma_who_run(s, k);
    assert(s.take(k) =~= start.take(k));
    let n = start.len() - k - 1;
    let (p, q) = (start.skip(k + 1), s.skip(k + 1));
    assert forall|i: int| 0 <= i < n implies is_perm(p[i]) && q[i] == p[i] by {
        assert(is_perm(start[k + 1 + i]));
    }
    lemma_perm_run(p, n);
    assert(q[n] == c);
    lemma_perm_run(q, n);
    assert(q.take(n) =~= p.take(n));
}

proof fn lemma_single_part(mode: u32, s: Seq<char>)
    requires
        forall|i: int| 0 <= i < s.len() ==> s[i] != ',',
    ensures
        changed_mode(mode, s) == part_applied(mode, s),
{
    crate::text::lemma_first_index_is(s, ',', s.len() as int);
    assert(crate::text::split(s, ',') =~= seq![s]);
    reveal_with_fuel(parts_applied, 2);
    assert(seq![s].drop_last() =~= seq![]);
}

} // verus!
