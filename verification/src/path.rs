//! Paths: their components, their last names and their order, and which of them
//! stay below a directory.

use crate::text;
use crate::text::{from_chars, split_chars, to_chars};
use vstd::prelude::*;
use vstd::slice::{slice_subrange, slice_to_vec};

verus! {

/// The last name among the parts of a path, past empty parts and parts of one
/// dot; a part of two dots is no name.
pub open spec fn last_name<T>(parts: Seq<Seq<T>>, dot: T) -> Option<Seq<T>>
    decreases parts.len(),
{
    if parts.len() == 0 {
        None
    } else {
        let p = parts.last();
        if p.len() == 0 || p == seq![dot] {
            last_name(parts.drop_last(), dot)
        } else if p == seq![dot, dot] {
            None
        } else {
            Some(p)
        }
    }
}

/// The last name of a path, if it has one.
pub open spec fn base_name(path: Seq<char>) -> Option<Seq<char>> {
    last_name(text::split(path, '/'), '.')
}

pub fn file_name(path: &str) -> (r: Option<String>)
    ensures
        text::opt_view(r) == base_name(path@),
{
    let chars = to_chars(path);
    let parts = split_chars(&chars, '/');
    let ghost all = text::char_views(parts@);
    let mut n: usize = parts.len();
    assert(all.take(n as int) =~= all);
    while n > 0
        invariant
            n <= parts.len(),
            all == text::char_views(parts@),
            all == text::split(path@, '/'),
            last_name(all.take(n as int), '.') == base_name(path@),
        decreases n,
    {
        let part = &parts[n - 1];
        let ghost p = part@;
        assert(all.take(n as int).last() == p);
        assert(all.take(n as int).drop_last() =~= all.take(n - 1));
        if part.len() == 2 && part[0] == '.' && part[1] == '.' {
            assert(p =~= seq!['.', '.']);
            return None;
        }
        if part.len() != 0 && !(part.len() == 1 && part[0] == '.') {
            assert(p != seq!['.', '.']) by {
                if p == seq!['.', '.'] {
                    assert(p[0] == '.' && p[1] == '.');
                }
            }
            assert(p != seq!['.']) by {
                if p == seq!['.'] {
                    assert(p[0] == '.');
                }
            }
            return Some(from_chars(part));
        }
        assert(p.len() == 1 ==> p =~= seq!['.']);
        n = n - 1;
    }
    None
}

pub open spec fn byte_views(v: Seq<Vec<u8>>) -> Seq<Seq<u8>> {
    v.map_values(|s: Vec<u8>| s@)
}

fn find_byte(s: &[u8], from: usize, c: u8) -> (r: usize)
    requires
        from <= s.len(),
    ensures
        from <= r <= s.len(),
        r - from == text::first_index(s@.skip(from as int), c),
{
    let mut i: usize = from;
    let ghost t = s@.skip(from as int);
    while i < s.len() && s[i] != c
        invariant
            from <= i <= s.len(),
            t == s@.skip(from as int),
            forall|j: int| 0 <= j < i - from ==> t[j] != c,
        decreases s.len() - i,
    {
        assert(t[i - from] == s@[i as int]);
        i = i + 1;
    }
    proof {
        text::lemma_first_index_is(t, c, i - from);
    }
    i
}

fn split_bytes(s: &[u8], c: u8) -> (r: Vec<Vec<u8>>)
    ensures
        byte_views(r@) == text::split(s@, c),
{
    let mut out: Vec<Vec<u8>> = Vec::new();
    let mut from: usize = 0;
    assert(s@.skip(0) =~= s@);
    assert(byte_views(out@) =~= Seq::empty());
    loop
        invariant
            from <= s.len(),
            byte_views(out@) + text::split(s@.skip(from as int), c) == text::split(s@, c),
        decreases s.len() - from,
    {
        let i = find_byte(s, from, c);
        let ghost rest = s@.skip(from as int);
        let ghost before = byte_views(out@);
        proof {
            text::lemma_first_index(rest, c);
        }
        let piece = slice_to_vec(slice_subrange(s, from, i));
        assert(piece@ =~= rest.take(i - from));
        out.push(piece);
        assert(byte_views(out@) =~= before.push(piece@));
        if i == s.len() {
            assert(rest.take(i - from) =~= rest);
            assert(byte_views(out@) =~= before + text::split(rest, c));
            return out;
        }
        assert(s@.skip(i + 1) =~= rest.skip(i - from + 1));
        assert(byte_views(out@) + text::split(s@.skip(i + 1), c) =~= before + text::split(rest, c));
        from = i + 1;
    }
}

/// Whether the part at position `i` of a path is a component: it is not empty,
/// and it is one dot only at the start.
pub open spec fn is_component(part: Seq<u8>, i: int) -> bool {
    part.len() > 0 && (part != seq![46u8] || i == 0)
}

/// The components among the first `n` parts of a path.
pub open spec fn components_before(parts: Seq<Seq<u8>>, n: int) -> Seq<Seq<u8>>
    decreases n,
{
    if n <= 0 {
        seq![]
    } else if is_component(parts[n - 1], n - 1) {
        components_before(parts, n - 1).push(parts[n - 1])
    } else {
        components_before(parts, n - 1)
    }
}

/// The components of a path of bytes: a slash where it is absolute, and its
/// names, past repeated slashes and parts of one dot.
pub open spec fn components(path: Seq<u8>) -> Seq<Seq<u8>> {
    let parts = text::split(path, 47u8);
    let names = components_before(parts, parts.len() as int);
    if path.len() > 0 && path[0] == 47 {
        seq![seq![47u8]] + names
    } else {
        names
    }
}

fn path_components(path: &[u8]) -> (r: Vec<Vec<u8>>)
    ensures
        byte_views(r@) == components(path@),
{
    let parts = split_bytes(path, 47);
    let ghost all = byte_views(parts@);
    let mut out: Vec<Vec<u8>> = Vec::new();
    let ghost mut root: Seq<Seq<u8>> = seq![];
    if path.len() > 0 && path[0] == 47 {
        let mut slash: Vec<u8> = Vec::new();
        slash.push(47);
        assert(slash@ =~= seq![47u8]);
        out.push(slash);
        proof {
            root = seq![seq![47u8]];
        }
    }
    assert(byte_views(out@) =~= root);
    for i in 0..parts.len()
        invariant
            all == byte_views(parts@),
            byte_views(out@) == root + components_before(all, i as int),
    {
        let part = &parts[i];
        let ghost before = byte_views(out@);
        assert(all[i as int] == part@);
        let one_dot = part.len() == 1 && part[0] == 46;
        assert(one_dot == (part@ == seq![46u8])) by {
            if one_dot {
                assert(part@ =~= seq![46u8]);
            }
            if part@ == seq![46u8] {
                assert(part@[0] == 46);
            }
        }
        if part.len() > 0 && (!one_dot || i == 0) {
            let copy = slice_to_vec(part.as_slice());
            out.push(copy);
            assert(byte_views(out@) =~= before.push(part@));
        }
    }
    assert(byte_views(out@) =~= components(path@));
    out
}

pub fn same_bytes(x: &[u8], y: &[u8]) -> (r: bool)
    ensures
        r == (x@ == y@),
{
    if x.len() != y.len() {
        return false;
    }
    for i in 0..x.len()
        invariant
            x.len() == y.len(),
            x@.take(i as int) == y@.take(i as int),
    {
        if x[i] != y[i] {
            assert(x@[i as int] != y@[i as int]);
            return false;
        }
        assert(x@.take(i + 1) =~= y@.take(i + 1));
    }
    assert(x@ =~= x@.take(x@.len() as int));
    assert(y@ =~= y@.take(x@.len() as int));
    true
}

/// Whether a path is `dir` or lies below it.
pub open spec fn within(path: Seq<u8>, dir: Seq<u8>) -> bool {
    components(dir).is_prefix_of(components(path))
}

/// Whether two paths have the same components.
pub open spec fn same_path(a: Seq<u8>, b: Seq<u8>) -> bool {
    components(a) == components(b)
}

/// How a path stands to a directory.
#[derive(Debug, Clone, Copy, PartialEq, Eq, Structural)]
pub enum Place {
    Same,
    Below,
    Outside,
}

pub open spec fn place(path: Seq<u8>, dir: Seq<u8>) -> Place {
    if same_path(path, dir) {
        Place::Same
    } else if within(path, dir) {
        Place::Below
    } else {
        Place::Outside
    }
}

pub fn place_of(path: &[u8], dir: &[u8]) -> (r: Place)
    ensures
        r == place(path@, dir@),
{
    let p = path_components(path);
    let d = path_components(dir);
    let ghost cp = byte_views(p@);
    let ghost cd = byte_views(d@);
    if d.len() > p.len() {
        assert(cp.len() != cd.len());
        return Place::Outside;
    }
    for i in 0..d.len()
        invariant
            d.len() <= p.len(),
            cp == byte_views(p@),
            cd == byte_views(d@),
            cp == components(path@),
            cd == components(dir@),
            forall|j: int| 0 <= j < i ==> cp[j] == cd[j],
    {
        if !same_bytes(&p[i], &d[i]) {
            assert(cp[i as int] != cd[i as int]);
            assert(!cd.is_prefix_of(cp)) by {
                if cd.is_prefix_of(cp) {
                    assert(cp.subrange(0, cd.len() as int)[i as int] == cp[i as int]);
                }
            }
            return Place::Outside;
        }
        assert(cp[i as int] == p@[i as int]@ && cd[i as int] == d@[i as int]@);
    }
    if d.len() == p.len() {
        assert(cp =~= cd);
        Place::Same
    } else {
        assert(cd =~= cp.subrange(0, cd.len() as int));
        Place::Below
    }
}

/// A path of bytes below a directory: one that is absolute stays as it is.
pub open spec fn join_bytes(dir: Seq<u8>, path: Seq<u8>) -> Seq<u8> {
    if path.len() > 0 && path[0] == 47 || dir.len() == 0 {
        path
    } else if dir.last() == 47 {
        dir + path
    } else {
        dir.push(47) + path
    }
}

pub fn joined_bytes(dir: &[u8], path: &[u8]) -> (r: Vec<u8>)
    ensures
        r@ == join_bytes(dir@, path@),
{
    let mut r: Vec<u8> = Vec::new();
    if !((path.len() > 0 && path[0] == 47) || dir.len() == 0) {
        r = slice_to_vec(dir);
        if dir[dir.len() - 1] != 47 {
            r.push(47);
        }
    }
    let mut tail = slice_to_vec(path);
    r.append(&mut tail);
    assert(r@ =~= join_bytes(dir@, path@));
    r
}

/// A path without the slashes at its start.
pub open spec fn rootless<T>(path: Seq<T>, slash: T) -> Seq<T>
    decreases path.len(),
{
    if path.len() > 0 && path[0] == slash {
        rootless(path.drop_first(), slash)
    } else {
        path
    }
}

/// Whether a path has a part of two dots.
pub open spec fn leads_up<T>(path: Seq<T>, slash: T, dot: T) -> bool {
    text::split(path, slash).contains(seq![dot, dot])
}

/// A path as it may be used below a directory: without slashes at its start;
/// `None` where a part of it leads up, or it is made of slashes alone.
pub open spec fn confined<T>(path: Seq<T>, slash: T, dot: T) -> Option<Seq<T>> {
    let rest = rootless(path, slash);
    if path.len() > 0 && rest.len() == 0 || leads_up(rest, slash, dot) {
        None
    } else {
        Some(rest)
    }
}

/// Confines a path to the directory that it is used below.
pub fn confine(path: &str) -> (r: Option<String>)
    ensures
        text::opt_view(r) == confined(path@, '/', '.'),
{
    let chars = to_chars(path);
    let mut n: usize = 0;
    assert(chars@.skip(0) =~= chars@);
    while n < chars.len() && chars[n] == '/'
        invariant
            n <= chars.len(),
            rootless(chars@.skip(n as int), '/') == rootless(chars@, '/'),
        decreases chars.len() - n,
    {
        assert(chars@.skip(n as int).drop_first() =~= chars@.skip(n + 1));
        n = n + 1;
    }
    let rest = slice_subrange(chars.as_slice(), n, chars.len());
    assert(rest@ =~= chars@.skip(n as int));
    if n > 0 && rest.len() == 0 {
        return None;
    }
    let parts = split_chars(rest, '/');
    let ghost all = text::char_views(parts@);
    for i in 0..parts.len()
        invariant
            all == text::char_views(parts@),
            all == text::split(rest@, '/'),
            rest@ == rootless(path@, '/'),
            forall|j: int| 0 <= j < i ==> #[trigger] all[j] != seq!['.', '.'],
    {
        let part = &parts[i];
        assert(all[i as int] == part@);
        if part.len() == 2 && part[0] == '.' && part[1] == '.' {
            assert(part@ =~= seq!['.', '.']);
            assert(all.contains(seq!['.', '.']));
            return None;
        }
        assert(part@ != seq!['.', '.']) by {
            if part@ == seq!['.', '.'] {
                assert(part@[0] == '.' && part@[1] == '.');
            }
        }
    }
    Some(from_chars(rest))
}

/// Confines a path of bytes to the directory that it is used below.
pub fn confine_bytes(path: &[u8]) -> (r: Option<Vec<u8>>)
    ensures
        r is Some <==> confined(path@, 47u8, 46u8) is Some,
        r matches Some(p) ==> confined(path@, 47u8, 46u8) == Some(p@),
{
    let mut n: usize = 0;
    assert(path@.skip(0) =~= path@);
    while n < path.len() && path[n] == 47
        invariant
            n <= path.len(),
            rootless(path@.skip(n as int), 47u8) == rootless(path@, 47u8),
        decreases path.len() - n,
    {
        assert(path@.skip(n as int).drop_first() =~= path@.skip(n + 1));
        n = n + 1;
    }
    let rest = slice_subrange(path, n, path.len());
    assert(rest@ =~= path@.skip(n as int));
    if n > 0 && rest.len() == 0 {
        return None;
    }
    let parts = split_bytes(rest, 47);
    let ghost all = byte_views(parts@);
    for i in 0..parts.len()
        invariant
            all == byte_views(parts@),
            all == text::split(rest@, 47u8),
            rest@ == rootless(path@, 47u8),
            forall|j: int| 0 <= j < i ==> #[trigger] all[j] != seq![46u8, 46u8],
    {
        let part = &parts[i];
        assert(all[i as int] == part@);
        if part.len() == 2 && part[0] == 46 && part[1] == 46 {
            assert(part@ =~= seq![46u8, 46u8]);
            assert(all.contains(seq![46u8, 46u8]));
            return None;
        }
        assert(part@ != seq![46u8, 46u8]) by {
            if part@ == seq![46u8, 46u8] {
                assert(part@[0] == 46 && part@[1] == 46);
            }
        }
    }
    Some(slice_to_vec(rest))
}

/// Whether a part of a path names something: it is not empty, and not one dot.
pub open spec fn names_something(part: Seq<char>) -> bool {
    part.len() > 0 && part != seq!['.']
}

/// The parts of a path that name something.
pub open spec fn named_parts(path: Seq<char>) -> Seq<Seq<char>> {
    text::split(path, '/').filter(|part: Seq<char>| names_something(part))
}

pub open spec fn is_absolute(path: Seq<char>) -> bool {
    path.len() > 0 && path[0] == '/'
}

/// Whether a path leads to a directory and from there never up: its parts are
/// those of the directory and then others, none of two dots.
pub open spec fn stays_in(path: Seq<char>, dir: Seq<char>) -> bool {
    let p = named_parts(path);
    let d = named_parts(dir);
    &&& is_absolute(path) == is_absolute(dir)
    &&& d.is_prefix_of(p)
    &&& !p.skip(d.len() as int).contains(seq!['.', '.'])
}

proof fn lemma_rootless<T>(path: Seq<T>, slash: T)
    ensures
        rootless(path, slash).len() > 0 ==> rootless(path, slash)[0] != slash,
        path.len() == 0 || path[0] != slash ==> rootless(path, slash) == path,
    decreases path.len(),
{
    if path.len() > 0 && path[0] == slash {
        lemma_rootless(path.drop_first(), slash);
    }
}

/// A confined path is relative and leads nowhere up, and a path that is so is
/// kept.
pub proof fn law_confined(path: Seq<char>)
    ensures
        confined(path, '/', '.') matches Some(rest) ==> {
            &&& !is_absolute(rest)
            &&& !text::split(rest, '/').contains(seq!['.', '.'])
        },
        !is_absolute(path) && !leads_up(path, '/', '.') ==> confined(path, '/', '.') == Some(path),
{
    lemma_rootless(path, '/');
}

proof fn lemma_filter_from<A>(s: Seq<A>, keep: spec_fn(A) -> bool, x: A)
    requires
        !s.contains(x),
    ensures
        !s.filter(keep).contains(x),
    decreases s.len(),
{
    reveal(Seq::filter);
    if s.len() > 0 {
        let front = s.drop_last();
        assert(!front.contains(x)) by {
            if front.contains(x) {
                assert(s[front.index_of(x)] == x);
            }
        }
        lemma_filter_from(front, keep, x);
        assert(s[s.len() - 1] != x);
        let f = front.filter(keep);
        if f.push(s.last()).contains(x) {
            let i = f.push(s.last()).index_of(x);
            if i < f.len() {
                assert(f[i] == x);
            }
        }
    }
}

/// What follows a directory without leading up stays in it.
pub proof fn lemma_stays_in(dir: Seq<char>, path: Seq<char>)
    requires
        !is_absolute(path),
        !text::split(path, '/').contains(seq!['.', '.']),
    ensures
        stays_in(path, seq![]),
        dir.len() > 0 ==> stays_in(dir.push('/') + path, dir),
        dir.len() > 0 && dir.last() == '/' ==> stays_in(dir + path, dir),
{
    let up = seq!['.', '.'];
    let keep = |part: Seq<char>| names_something(part);
    let parts = text::split(path, '/');
    let p = named_parts(path);
    lemma_filter_from(parts, keep, up);
    assert(named_parts(seq![]) =~= seq![]) by {
        reveal(Seq::filter);
        reveal_with_fuel(Seq::filter, 2);
        assert(text::split(Seq::<char>::empty(), '/') =~= seq![Seq::<char>::empty()]);
    }
    assert(p.skip(0) =~= p);
    assert(p.subrange(0, 0) =~= seq![]);
    if dir.len() > 0 {
        let whole = dir.push('/') + path;
        assert(whole =~= dir + seq!['/'] + path);
        text::lemma_split_concat(dir, path, '/');
        Seq::filter_distributes_over_add(text::split(dir, '/'), parts, keep);
        let d = named_parts(dir);
        assert(named_parts(whole) == d + p);
        assert((d + p).skip(d.len() as int) =~= p);
        assert(d =~= (d + p).subrange(0, d.len() as int));
        assert(whole[0] == dir[0]);
        if dir.last() == '/' {
            let top = dir.drop_last();
            let joined = dir + path;
            assert(joined =~= top + seq!['/'] + path);
            assert(dir =~= top + seq!['/'] + seq![]);
            text::lemma_split_concat(top, path, '/');
            text::lemma_split_concat(top, seq![], '/');
            Seq::filter_distributes_over_add(text::split(top, '/'), parts, keep);
            Seq::filter_distributes_over_add(
                text::split(top, '/'),
                text::split(Seq::<char>::empty(), '/'),
                keep,
            );
            let t = named_parts(top);
            assert(d =~= t);
            assert(named_parts(joined) == t + p);
            assert((t + p).skip(t.len() as int) =~= p);
            assert(t =~= (t + p).subrange(0, t.len() as int));
            assert(joined[0] == dir[0]);
        }
    }
}

/// Whether a run of bytes comes before another: it is a beginning of the other,
/// or the first byte that differs is the lower one.
pub open spec fn bytes_before(a: Seq<u8>, b: Seq<u8>) -> bool
    decreases a.len(),
{
    b.len() > 0 && (a.len() == 0 || a[0] < b[0] || a[0] == b[0] && bytes_before(
        a.drop_first(),
        b.drop_first(),
    ))
}

/// The root comes first among components, then one dot, then two dots, and then
/// the names.
pub open spec fn component_rank(c: Seq<u8>) -> int {
    if c == seq![47u8] {
        0
    } else if c == seq![46u8] {
        1
    } else if c == seq![46u8, 46u8] {
        2
    } else {
        3
    }
}

/// Whether a component of a path comes before another.
pub open spec fn component_before(a: Seq<u8>, b: Seq<u8>) -> bool {
    component_rank(a) < component_rank(b) || component_rank(a) == component_rank(b)
        && bytes_before(a, b)
}

/// Whether a run of components comes before another.
pub open spec fn components_ordered(a: Seq<Seq<u8>>, b: Seq<Seq<u8>>) -> bool
    decreases a.len(),
{
    b.len() > 0 && (a.len() == 0 || component_before(a[0], b[0]) || a[0] == b[0]
        && components_ordered(a.drop_first(), b.drop_first()))
}

/// Whether a path comes before another: by the first component that differs.
pub open spec fn path_before(a: Seq<u8>, b: Seq<u8>) -> bool {
    components_ordered(components(a), components(b))
}

/// Whether no path of a list comes before one that stands in front of it.
pub open spec fn in_path_order(paths: Seq<Seq<u8>>) -> bool {
    forall|i: int, j: int|
        0 <= i < j < paths.len() ==> !path_before(#[trigger] paths[j], #[trigger] paths[i])
}

proof fn lemma_bytes_order(a: Seq<u8>, b: Seq<u8>, c: Seq<u8>)
    ensures
        !(bytes_before(a, b) && bytes_before(b, a)),
        bytes_before(a, b) || bytes_before(b, a) || a == b,
        bytes_before(a, c) ==> bytes_before(a, b) || bytes_before(b, c),
    decreases a.len(),
{
    if a.len() > 0 && b.len() > 0 {
        lemma_bytes_order(a.drop_first(), b.drop_first(), c.drop_first());
        assert(a[0] == b[0] && a.drop_first() == b.drop_first() ==> a =~= b) by {
            assert(a =~= seq![a[0]] + a.drop_first());
            assert(b =~= seq![b[0]] + b.drop_first());
        }
    } else {
        assert(a.len() == 0 && b.len() == 0 ==> a =~= b);
    }
}

proof fn lemma_component_order(a: Seq<u8>, b: Seq<u8>, c: Seq<u8>)
    ensures
        !(component_before(a, b) && component_before(b, a)),
        component_before(a, b) || component_before(b, a) || a == b,
        component_before(a, c) ==> component_before(a, b) || component_before(b, c),
{
    lemma_bytes_order(a, b, c);
}

proof fn lemma_components_order(a: Seq<Seq<u8>>, b: Seq<Seq<u8>>, c: Seq<Seq<u8>>)
    ensures
        !(components_ordered(a, b) && components_ordered(b, a)),
        components_ordered(a, b) || components_ordered(b, a) || a == b,
        components_ordered(a, c) ==> components_ordered(a, b) || components_ordered(b, c),
    decreases a.len(),
{
    if a.len() > 0 && b.len() > 0 {
        lemma_components_order(a.drop_first(), b.drop_first(), c.drop_first());
        lemma_component_order(a[0], b[0], c[0]);
        lemma_component_order(b[0], a[0], c[0]);
        assert(a[0] == b[0] && a.drop_first() == b.drop_first() ==> a =~= b) by {
            assert(a =~= seq![a[0]] + a.drop_first());
            assert(b =~= seq![b[0]] + b.drop_first());
        }
    } else {
        assert(a.len() == 0 && b.len() == 0 ==> a =~= b);
    }
}

/// The order of paths: of two paths at most one comes before the other, and one
/// does unless they have the same components; and what comes before a third
/// path comes before any path in between, or that comes before the third.
pub proof fn law_path_order(a: Seq<u8>, b: Seq<u8>, c: Seq<u8>)
    ensures
        !(path_before(a, b) && path_before(b, a)),
        path_before(a, b) || path_before(b, a) <==> !same_path(a, b),
        path_before(a, c) ==> path_before(a, b) || path_before(b, c),
{
    lemma_components_order(components(a), components(b), components(c));
    lemma_components_order(components(a), components(a), components(a));
}

fn is_bytes_before(a: &[u8], b: &[u8]) -> (r: bool)
    ensures
        r == bytes_before(a@, b@),
{
    let mut i: usize = 0;
    assert(a@.skip(0) =~= a@);
    assert(b@.skip(0) =~= b@);
    while i < a.len() && i < b.len() && a[i] == b[i]
        invariant
            i <= a.len(),
            i <= b.len(),
            bytes_before(a@.skip(i as int), b@.skip(i as int)) == bytes_before(a@, b@),
        decreases a.len() - i,
    {
        assert(a@.skip(i as int).drop_first() =~= a@.skip(i + 1));
        assert(b@.skip(i as int).drop_first() =~= b@.skip(i + 1));
        i = i + 1;
    }
    i < b.len() && (i == a.len() || a[i] < b[i])
}

fn rank_of(c: &[u8]) -> (r: u8)
    ensures
        r == component_rank(c@),
{
    let root: [u8; 1] = [47];
    let dot: [u8; 1] = [46];
    let dots: [u8; 2] = [46, 46];
    assert(root@ =~= seq![47u8]);
    assert(dot@ =~= seq![46u8]);
    assert(dots@ =~= seq![46u8, 46u8]);
    if same_bytes(c, root.as_slice()) {
        0
    } else if same_bytes(c, dot.as_slice()) {
        1
    } else if same_bytes(c, dots.as_slice()) {
        2
    } else {
        3
    }
}

fn is_path_before(a: &[u8], b: &[u8]) -> (r: bool)
    ensures
        r == path_before(a@, b@),
{
    let x = path_components(a);
    let y = path_components(b);
    let ghost cx = byte_views(x@);
    let ghost cy = byte_views(y@);
    let mut i: usize = 0;
    assert(cx.skip(0) =~= cx);
    assert(cy.skip(0) =~= cy);
    while i < x.len() && i < y.len()
        invariant
            i <= x.len(),
            i <= y.len(),
            cx == byte_views(x@),
            cy == byte_views(y@),
            components_ordered(cx.skip(i as int), cy.skip(i as int)) == path_before(a@, b@),
        decreases x.len() - i,
    {
        assert(cx.skip(i as int)[0] == x@[i as int]@);
        assert(cy.skip(i as int)[0] == y@[i as int]@);
        assert(cx.skip(i as int).drop_first() =~= cx.skip(i + 1));
        assert(cy.skip(i as int).drop_first() =~= cy.skip(i + 1));
        if !same_bytes(&x[i], &y[i]) {
            let p: u8 = rank_of(&x[i]);
            let q: u8 = rank_of(&y[i]);
            return p < q || (p == q && is_bytes_before(&x[i], &y[i]));
        }
        proof {
            lemma_component_order(x@[i as int]@, x@[i as int]@, x@[i as int]@);
        }
        i = i + 1;
    }
    i < y.len()
}

/// Where a path belongs in a list of paths in their order: behind those that it
/// does not come before.
fn place_in_order(sorted: &Vec<Vec<u8>>, path: &[u8]) -> (r: usize)
    requires
        in_path_order(byte_views(sorted@)),
    ensures
        r <= sorted@.len(),
        forall|j: int| 0 <= j < r ==> !path_before(path@, #[trigger] byte_views(sorted@)[j]),
        forall|j: int|
            r <= j < sorted@.len() ==> path_before(path@, #[trigger] byte_views(sorted@)[j]),
{
    let ghost all = byte_views(sorted@);
    let mut low: usize = 0;
    let mut high: usize = sorted.len();
    while low < high
        invariant
            low <= high <= sorted@.len(),
            all == byte_views(sorted@),
            in_path_order(all),
            forall|j: int| 0 <= j < low ==> !path_before(path@, #[trigger] all[j]),
            forall|j: int| high <= j < all.len() ==> path_before(path@, #[trigger] all[j]),
        decreases high - low,
    {
        let mid: usize = low + (high - low) / 2;
        let ghost here = all[mid as int];
        assert(here == sorted@[mid as int]@);
        if is_path_before(path, &sorted[mid]) {
            assert forall|j: int| mid <= j < all.len() implies path_before(
                path@,
                #[trigger] all[j],
            ) by {
                law_path_order(path@, all[j], here);
            }
            high = mid;
        } else {
            assert forall|j: int| 0 <= j < mid + 1 implies !path_before(
                path@,
                #[trigger] all[j],
            ) by {
                law_path_order(path@, here, all[j]);
            }
            low = mid + 1;
        }
    }
    low
}

/// The paths of a list that have the components of a path.
pub open spec fn alike(paths: Seq<Seq<u8>>, path: Seq<u8>) -> Seq<Seq<u8>> {
    paths.filter(|p: Seq<u8>| same_path(p, path))
}

proof fn lemma_none_alike(paths: Seq<Seq<u8>>, path: Seq<u8>)
    requires
        forall|i: int| 0 <= i < paths.len() ==> !same_path(#[trigger] paths[i], path),
    ensures
        alike(paths, path) == Seq::<Seq<u8>>::empty(),
    decreases paths.len(),
{
    reveal(Seq::filter);
    if paths.len() > 0 {
        let front = paths.drop_last();
        assert forall|i: int| 0 <= i < front.len() implies !same_path(
            #[trigger] front[i],
            path,
        ) by {
            assert(front[i] == paths[i]);
        }
        lemma_none_alike(front, path);
        assert(!same_path(paths[paths.len() - 1], path));
    }
}

proof fn lemma_inserted_alike(a: Seq<Seq<u8>>, x: Seq<u8>, b: Seq<Seq<u8>>, path: Seq<u8>)
    requires
        forall|i: int| 0 <= i < b.len() ==> path_before(x, #[trigger] b[i]),
    ensures
        alike(a + seq![x] + b, path) == alike((a + b).push(x), path),
{
    let keep = |p: Seq<u8>| same_path(p, path);
    Seq::filter_distributes_over_add(a + seq![x], b, keep);
    Seq::filter_distributes_over_add(a, seq![x], keep);
    assert((a + b).push(x) =~= a + b + seq![x]);
    Seq::filter_distributes_over_add(a + b, seq![x], keep);
    Seq::filter_distributes_over_add(a, b, keep);
    if same_path(x, path) {
        assert forall|i: int| 0 <= i < b.len() implies !same_path(#[trigger] b[i], path) by {
            law_path_order(x, b[i], x);
        }
        lemma_none_alike(b, path);
    } else {
        lemma_none_alike(seq![x], path);
    }
    assert(alike(a + seq![x] + b, path) =~= alike((a + b).push(x), path));
}

/// Whether a list holds the paths of another, each as often, in their order;
/// those with the same components as they stood.
pub open spec fn is_sorting(sorted: Seq<Seq<u8>>, paths: Seq<Seq<u8>>) -> bool {
    &&& sorted.to_multiset() == paths.to_multiset()
    &&& in_path_order(sorted)
    &&& forall|p: Seq<u8>| #[trigger] alike(sorted, p) == alike(paths, p)
}

/// Puts paths in order, as `--sort=name` asks. Paths with the same components
/// keep the order in which they were.
pub fn sorted_paths(paths: Vec<Vec<u8>>) -> (r: Vec<Vec<u8>>)
    ensures
        is_sorting(byte_views(r@), byte_views(paths@)),
{
    let ghost all = byte_views(paths@);
    let mut sorted: Vec<Vec<u8>> = Vec::new();
    assert(byte_views(sorted@) =~= all.take(0));
    for i in 0..paths.len()
        invariant
            all == byte_views(paths@),
            byte_views(sorted@).to_multiset() == all.take(i as int).to_multiset(),
            in_path_order(byte_views(sorted@)),
            forall|p: Seq<u8>| #[trigger]
                alike(byte_views(sorted@), p) == alike(all.take(i as int), p),
    {
        let x = slice_to_vec(paths[i].as_slice());
        let ghost before = byte_views(sorted@);
        assert(all[i as int] == x@);
        let k = place_in_order(&sorted, &x);
        let ghost a = before.take(k as int);
        let ghost b = before.skip(k as int);
        sorted.insert(k, x);
        let ghost after = byte_views(sorted@);
        proof {
            assert(after =~= a + seq![x@] + b);
            assert(before =~= a + b);
            assert(all.take(i + 1) =~= all.take(i as int).push(x@));
            broadcast use vstd::seq_lib::group_to_multiset_ensures;
            assert(after =~= before.insert(k as int, x@));
            assert(before.insert(k as int, x@).to_multiset() == before.to_multiset().insert(x@));
            assert forall|m: int, n: int| 0 <= m < n < after.len() implies !path_before(
                #[trigger] after[n],
                #[trigger] after[m],
            ) by {
                if m < k && n > k {
                    assert(after[m] == before[m] && after[n] == before[n - 1]);
                } else if n < k {
                    assert(after[m] == before[m] && after[n] == before[n]);
                } else if m > k {
                    assert(after[m] == before[m - 1] && after[n] == before[n - 1]);
                } else if n == k {
                    assert(after[m] == before[m]);
                } else {
                    assert(after[n] == before[n - 1]);
                    law_path_order(x@, before[n - 1], x@);
                }
            }
            assert forall|p: Seq<u8>| #[trigger] alike(after, p) == alike(all.take(i + 1), p) by {
                assert forall|j: int| 0 <= j < b.len() implies path_before(
                    x@,
                    #[trigger] b[j],
                ) by {
                    assert(b[j] == before[k + j]);
                }
                lemma_inserted_alike(a, x@, b, p);
                let keep = |q: Seq<u8>| same_path(q, p);
                assert(before.push(x@) =~= before + seq![x@]);
                assert(all.take(i as int).push(x@) =~= all.take(i as int) + seq![x@]);
                Seq::filter_distributes_over_add(before, seq![x@], keep);
                Seq::filter_distributes_over_add(all.take(i as int), seq![x@], keep);
                assert(alike(before, p) == alike(all.take(i as int), p));
            }
        }
    }
    assert(all.take(all.len() as int) =~= all);
    sorted
}

/// Whether no two paths of a list have the same components.
pub open spec fn all_distinct(paths: Seq<Seq<u8>>) -> bool {
    forall|i: int, j: int|
        0 <= i < j < paths.len() ==> !same_path(#[trigger] paths[i], #[trigger] paths[j])
}

/// Whether every path of a list comes before those behind it.
pub open spec fn ascending(paths: Seq<Seq<u8>>) -> bool {
    forall|i: int, j: int|
        0 <= i < j < paths.len() ==> path_before(#[trigger] paths[i], #[trigger] paths[j])
}

/// What is kept of a list is what the list holds and is to be kept.
pub proof fn lemma_kept<A>(s: Seq<A>, keep: spec_fn(A) -> bool, x: A)
    ensures
        s.filter(keep).contains(x) <==> s.contains(x) && keep(x),
{
    if s.filter(keep).contains(x) {
        let i = s.filter(keep).index_of(x);
        s.lemma_filter_pred(keep, i);
        if !s.contains(x) {
            lemma_filter_from(s, keep, x);
        }
    }
    if s.contains(x) && keep(x) {
        s.lemma_filter_contains(keep, s.index_of(x));
    }
}

proof fn lemma_alike_count(paths: Seq<Seq<u8>>, path: Seq<u8>, i: int, j: int)
    requires
        0 <= i < j < paths.len(),
        same_path(paths[i], path),
        same_path(paths[j], path),
    ensures
        alike(paths, path).len() >= 2,
{
    let keep = |p: Seq<u8>| same_path(p, path);
    let (a, b) = (paths.take(j), paths.skip(j));
    assert(paths =~= a + b);
    Seq::filter_distributes_over_add(a, b, keep);
    assert(a[i] == paths[i] && b[0] == paths[j]);
    a.lemma_filter_contains(keep, i);
    b.lemma_filter_contains(keep, 0);
    assert(a.filter(keep).len() > 0 && b.filter(keep).len() > 0);
}

proof fn lemma_alike_distinct(paths: Seq<Seq<u8>>, path: Seq<u8>)
    requires
        all_distinct(paths),
    ensures
        alike(paths, path).len() <= 1,
    decreases paths.len(),
{
    reveal(Seq::filter);
    if paths.len() > 0 {
        let front = paths.drop_last();
        assert forall|i: int, j: int| 0 <= i < j < front.len() implies !same_path(
            #[trigger] front[i],
            #[trigger] front[j],
        ) by {
            assert(!same_path(paths[i], paths[j]));
        }
        lemma_alike_distinct(front, path);
        if same_path(paths.last(), path) {
            assert forall|i: int| 0 <= i < front.len() implies !same_path(
                #[trigger] front[i],
                path,
            ) by {
                assert(!same_path(paths[i], paths[paths.len() - 1]));
            }
            lemma_none_alike(front, path);
        }
    }
}

proof fn lemma_ascending_kept(paths: Seq<Seq<u8>>, keep: spec_fn(Seq<u8>) -> bool)
    requires
        ascending(paths),
    ensures
        ascending(paths.filter(keep)),
    decreases paths.len(),
{
    reveal(Seq::filter);
    if paths.len() > 0 {
        let front = paths.drop_last();
        let last = paths.last();
        assert forall|i: int, j: int| 0 <= i < j < front.len() implies path_before(
            #[trigger] front[i],
            #[trigger] front[j],
        ) by {
            assert(path_before(paths[i], paths[j]));
        }
        lemma_ascending_kept(front, keep);
        let kept = front.filter(keep);
        assert forall|i: int| 0 <= i < kept.len() implies path_before(#[trigger] kept[i], last) by {
            lemma_kept(front, keep, kept[i]);
            assert(kept.contains(kept[i]));
            let k = front.index_of(kept[i]);
            assert(paths[k] == kept[i]);
            assert(path_before(paths[k], paths[paths.len() - 1]));
        }
    }
}

/// Sorting changes only the order of paths: what is to be kept of them is the
/// same before and after; and of paths that are distinct it ascends strictly.
pub proof fn law_sorting(
    sorted: Seq<Seq<u8>>,
    paths: Seq<Seq<u8>>,
    keep: spec_fn(Seq<u8>) -> bool,
)
    requires
        is_sorting(sorted, paths),
    ensures
        sorted.len() == paths.len(),
        sorted.filter(keep).to_set() == paths.filter(keep).to_set(),
        all_distinct(paths) ==> ascending(sorted) && ascending(sorted.filter(keep)),
{
    broadcast use vstd::seq_lib::group_to_multiset_ensures;
    assert forall|p: Seq<u8>| sorted.filter(keep).contains(p) <==> paths.filter(keep).contains(
        p,
    ) by {
        lemma_kept(sorted, keep, p);
        lemma_kept(paths, keep, p);
        assert(sorted.contains(p) <==> sorted.to_multiset().count(p) > 0);
        assert(paths.contains(p) <==> paths.to_multiset().count(p) > 0);
    }
    assert(sorted.to_multiset().len() == paths.to_multiset().len());
    assert(sorted.filter(keep).to_set() =~= paths.filter(keep).to_set());
    if all_distinct(paths) {
        assert forall|i: int, j: int| 0 <= i < j < sorted.len() implies path_before(
            #[trigger] sorted[i],
            #[trigger] sorted[j],
        ) by {
            law_path_order(sorted[i], sorted[j], sorted[i]);
            if same_path(sorted[i], sorted[j]) {
                lemma_alike_count(sorted, sorted[j], i, j);
                lemma_alike_distinct(paths, sorted[j]);
                assert(alike(sorted, sorted[j]) == alike(paths, sorted[j]));
            }
            assert(!path_before(sorted[j], sorted[i]));
        }
        lemma_ascending_kept(sorted, keep);
    }
}

/// A path lies within itself, and within what a directory that it lies within
/// lies within.
pub proof fn law_within(path: Seq<u8>, dir: Seq<u8>, top: Seq<u8>)
    ensures
        within(path, path),
        within(path, dir) && within(dir, top) ==> within(path, top),
{
    let p = components(path);
    let d = components(dir);
    let t = components(top);
    assert(p =~= p.subrange(0, p.len() as int));
    if d.is_prefix_of(p) && t.is_prefix_of(d) {
        assert(t =~= p.subrange(0, t.len() as int));
    }
}

/// The last name of a path is what stands behind its last slash; slashes and
/// parts of one dot at its end do not count, and behind two dots there is none.
pub proof fn law_last_name(dir: Seq<char>, name: Seq<char>)
    requires
        !name.contains('/'),
        name.len() > 0,
        name != seq!['.'],
        name != seq!['.', '.'],
    ensures
        base_name(name) == Some(name),
        base_name(dir.push('/') + name) == Some(name),
        base_name(dir.push('/')) == base_name(dir),
        base_name(dir + seq!['/', '.']) == base_name(dir),
        base_name(dir + seq!['/', '.', '.']) is None,
        base_name(seq![]) is None,
        base_name(seq!['.']) is None,
        base_name(seq!['.', '.']) is None,
{
    let d = text::split(dir, '/');
    lemma_one_part(name);
    lemma_one_part(seq![]);
    lemma_one_part(seq!['.']);
    lemma_one_part(seq!['.', '.']);
    assert(dir.push('/') + name =~= dir + seq!['/'] + name);
    text::lemma_split_concat(dir, name, '/');
    assert(dir.push('/') =~= dir + seq!['/'] + seq![]);
    text::lemma_split_concat(dir, seq![], '/');
    assert(dir + seq!['/', '.'] =~= dir + seq!['/'] + seq!['.']);
    text::lemma_split_concat(dir, seq!['.'], '/');
    assert(dir + seq!['/', '.', '.'] =~= dir + seq!['/'] + seq!['.', '.']);
    text::lemma_split_concat(dir, seq!['.', '.'], '/');
    assert((d + seq![Seq::<char>::empty()]).drop_last() =~= d);
    assert((d + seq![seq!['.']]).drop_last() =~= d);
    assert(seq![Seq::<char>::empty()].drop_last() =~= seq![]);
    assert(seq![seq!['.']].drop_last() =~= seq![]);
    assert(seq!['.', '.'] != seq!['.']) by {
        assert(seq!['.', '.'].len() == 2);
    }
    reveal_with_fuel(last_name, 2);
}

proof fn lemma_one_part(name: Seq<char>)
    requires
        !name.contains('/'),
    ensures
        text::split(name, '/') == seq![name],
{
    text::lemma_first_index(name, '/');
    let i = text::first_index(name, '/');
    if i < name.len() {
        assert(name.contains(name[i]));
    }
}

/// Slashes at the start do not hide a part of two dots.
pub proof fn lemma_rootless_leads_up(path: Seq<char>)
    ensures
        leads_up(path, '/', '.') <==> leads_up(rootless(path, '/'), '/', '.'),
    decreases path.len(),
{
    if path.len() > 0 && path[0] == '/' {
        let rest = path.drop_first();
        lemma_rootless_leads_up(rest);
        text::lemma_first_index_is(path, '/', 0);
        assert(path.skip(1) =~= rest);
        let parts = text::split(rest, '/');
        let all = text::split(path, '/');
        assert(all =~= seq![path.take(0)] + parts);
        let up = seq!['.', '.'];
        if parts.contains(up) {
            let i = parts.index_of(up);
            assert(all[i + 1] == up);
        }
        if all.contains(up) {
            let i = all.index_of(up);
            assert(all[i] == up);
            assert(all[0].len() == 0);
            assert(up.len() == 2);
            assert(parts[i - 1] == up);
        }
    }
}

/// Confining a path takes the slashes at its start away, and refuses a path that
/// leads up or is made of slashes alone.
pub proof fn law_confined_from_root(path: Seq<char>)
    ensures
        path.len() > 0 ==> confined(seq!['/'] + path, '/', '.') == confined(path, '/', '.'),
        confined(seq!['/'], '/', '.') is None,
        leads_up(path, '/', '.') <==> text::split(path, '/').contains(seq!['.', '.']),
        leads_up(path, '/', '.') ==> confined(path, '/', '.') is None,
        path.len() > 0 && path[0] != '/' && !leads_up(path, '/', '.') ==> confined(path, '/', '.')
            == Some(path),
{
    assert((seq!['/'] + path).drop_first() =~= path);
    assert(seq!['/'].drop_first() =~= seq![]);
    reveal_with_fuel(rootless, 2);
    lemma_rootless_leads_up(path);
}

/// Confining a path of bytes does the same.
pub proof fn law_bytes_confined(path: Seq<u8>)
    ensures
        path.len() > 0 ==> confined(seq![47u8] + path, 47u8, 46u8) == confined(path, 47u8, 46u8),
        confined(seq![47u8], 47u8, 46u8) is None,
        path.len() > 0 && path[0] != 47 && leads_up(path, 47u8, 46u8) ==> confined(
            path,
            47u8,
            46u8,
        ) is None,
        path.len() > 0 && path[0] != 47 && !leads_up(path, 47u8, 46u8) ==> confined(
            path,
            47u8,
            46u8,
        ) == Some(path),
{
    assert((seq![47u8] + path).drop_first() =~= path);
    assert(seq![47u8].drop_first() =~= seq![]);
    reveal_with_fuel(rootless, 2);
}

proof fn lemma_components_split(parts: Seq<Seq<u8>>, more: Seq<Seq<u8>>, n: int)
    requires
        0 <= n <= more.len(),
        parts.len() > 0,
    ensures
        components_before(parts + more, parts.len() + n) == components_before(
            parts,
            parts.len() as int,
        ) + later_components(more, n),
    decreases n,
{
    let all = parts + more;
    let k = parts.len() as int;
    if n == 0 {
        lemma_components_same(parts, all, k);
        assert(components_before(parts, k) + later_components(more, 0) =~= components_before(
            parts,
            k,
        ));
    } else {
        lemma_components_split(parts, more, n - 1);
        assert(all[k + n - 1] == more[n - 1]);
        assert(components_before(all, k + n) =~= components_before(parts, k) + later_components(
            more,
            n,
        ));
    }
}

/// The components among the first `n` parts behind others.
spec fn later_components(parts: Seq<Seq<u8>>, n: int) -> Seq<Seq<u8>>
    decreases n,
{
    if n <= 0 {
        seq![]
    } else if parts[n - 1].len() > 0 && parts[n - 1] != seq![46u8] {
        later_components(parts, n - 1).push(parts[n - 1])
    } else {
        later_components(parts, n - 1)
    }
}

proof fn lemma_components_same(a: Seq<Seq<u8>>, b: Seq<Seq<u8>>, n: int)
    requires
        0 <= n <= a.len(),
        n <= b.len(),
        forall|i: int| 0 <= i < n ==> a[i] == b[i],
    ensures
        components_before(a, n) == components_before(b, n),
    decreases n,
{
    if n > 0 {
        lemma_components_same(a, b, n - 1);
    }
}

/// The components of a path are its root and its names: a name behind a slash is
/// one more, and slashes and parts of one dot behind a path add nothing.
pub proof fn law_components(dir: Seq<u8>, name: Seq<u8>)
    requires
        dir.len() > 0,
        !name.contains(47),
        name.len() > 0,
        name != seq![46u8],
    ensures
        components(dir.push(47) + name) == components(dir).push(name),
        components(dir.push(47)) == components(dir),
        components(dir + seq![47u8, 46]) == components(dir),
        components(name) == seq![name],
        components(seq![]) == Seq::<Seq<u8>>::empty(),
        components(seq![46u8]) == seq![seq![46u8]],
        components(seq![47u8]) == seq![seq![47u8]],
{
    let d = text::split(dir, 47u8);
    let empty = Seq::<u8>::empty();
    let dot = seq![46u8];
    lemma_one_byte_part(name);
    lemma_one_byte_part(empty);
    lemma_one_byte_part(dot);
    let a = dir.push(47) + name;
    let b = dir.push(47);
    let c = dir + seq![47u8, 46];
    assert(a =~= dir + seq![47u8] + name);
    assert(b =~= dir + seq![47u8] + empty);
    assert(c =~= dir + seq![47u8] + dot);
    text::lemma_split_concat(dir, name, 47u8);
    text::lemma_split_concat(dir, empty, 47u8);
    text::lemma_split_concat(dir, dot, 47u8);
    assert(d.len() > 0) by {
        text::lemma_first_index(dir, 47u8);
    }
    lemma_components_split(d, seq![name], 1);
    lemma_components_split(d, seq![empty], 1);
    lemma_components_split(d, seq![dot], 1);
    reveal_with_fuel(later_components, 2);
    reveal_with_fuel(components_before, 2);
    let all = components_before(d, d.len() as int);
    assert(later_components(seq![name], 1) =~= seq![name]);
    assert(later_components(seq![empty], 1) =~= seq![]);
    assert(later_components(seq![dot], 1) =~= seq![]);
    assert(all + seq![name] =~= all.push(name));
    assert(all + Seq::<Seq<u8>>::empty() =~= all);
    assert(a[0] == dir[0] && b[0] == dir[0] && c[0] == dir[0]);
    assert(components(a) =~= components(dir).push(name));
    assert(name[0] != 47) by {
        assert(name.contains(name[0]));
    }
    assert(components(name) =~= seq![name]);
    assert(components(dot) =~= seq![dot]);
    assert(components(empty) =~= seq![]);
    let root = seq![47u8];
    assert(root =~= empty + seq![47u8] + empty);
    text::lemma_split_concat(empty, empty, 47u8);
    assert(text::split(root, 47u8) =~= seq![empty, empty]);
    reveal_with_fuel(components_before, 3);
    assert(components(root) =~= seq![root]);
}

proof fn lemma_one_byte_part(name: Seq<u8>)
    requires
        !name.contains(47),
    ensures
        text::split(name, 47u8) == seq![name],
{
    text::lemma_first_index(name, 47u8);
    let i = text::first_index(name, 47u8);
    if i < name.len() {
        assert(name.contains(name[i]));
    }
}

/// A directory comes before what is in it, and of two names in one directory that
/// comes first whose first differing byte is lower, or which the other begins
/// with.
pub proof fn law_order_in_directory(dir: Seq<u8>, a: Seq<u8>, b: Seq<u8>, i: int)
    requires
        dir.len() > 0,
        !a.contains(47) && !b.contains(47),
        a.len() > 0 && a[0] != 46,
        b.len() > 0 && b[0] != 46,
    ensures
        path_before(dir, dir.push(47) + a),
        0 <= i < a.len() && i < b.len() && a.take(i) == b.take(i) && a[i] < b[i] ==> path_before(
            dir.push(47) + a,
            dir.push(47) + b,
        ),
        a.len() < b.len() && a == b.take(a.len() as int) ==> path_before(
            dir.push(47) + a,
            dir.push(47) + b,
        ),
{
    law_components(dir, a);
    law_components(dir, b);
    let d = components(dir);
    lemma_order_behind(d, seq![], seq![a]);
    assert(d + seq![] =~= d);
    assert(d + seq![a] =~= d.push(a));
    assert(d + seq![b] =~= d.push(b));
    lemma_order_behind(d, seq![a], seq![b]);
    assert(a != seq![47u8] && b != seq![47u8]) by {
        assert(seq![47u8].contains(seq![47u8][0]));
    }
    assert(component_rank(a) == 3 && component_rank(b) == 3) by {
        assert(seq![46u8][0] == 46 && seq![46u8, 46][0] == 46);
    }
    lemma_bytes_before(a, b, i);
    assert(a.take(a.len() as int) =~= a);
    lemma_bytes_before(a, b, a.len() as int);
    reveal_with_fuel(components_ordered, 2);
}

proof fn lemma_order_behind(d: Seq<Seq<u8>>, x: Seq<Seq<u8>>, y: Seq<Seq<u8>>)
    ensures
        components_ordered(x, y) ==> components_ordered(d + x, d + y),
    decreases d.len(),
{
    if d.len() == 0 {
        assert(d + x =~= x);
        assert(d + y =~= y);
    } else {
        lemma_order_behind(d.drop_first(), x, y);
        assert((d + x).drop_first() =~= d.drop_first() + x);
        assert((d + y).drop_first() =~= d.drop_first() + y);
    }
}

proof fn lemma_bytes_before(a: Seq<u8>, b: Seq<u8>, i: int)
    ensures
        0 <= i <= a.len() && i < b.len() && a.take(i) == b.take(i) && (i == a.len() || a[i] < b[i])
            ==> bytes_before(a, b),
    decreases a.len(),
{
    if 0 <= i <= a.len() && i < b.len() && a.take(i) == b.take(i) && (i == a.len() || a[i] < b[i]) {
        if i > 0 {
            assert(a.take(i)[0] == b.take(i)[0]);
            let (c, d) = (a.drop_first(), b.drop_first());
            assert(c.take(i - 1) =~= a.take(i).drop_first());
            assert(d.take(i - 1) =~= b.take(i).drop_first());
            lemma_bytes_before(c, d, i - 1);
        }
    }
}

/// What is in a directory lies below it, however deep; a directory lies in nothing
/// that is in it; and two names in one directory are the same path only where
/// they are equal, and neither lies below the other.
pub proof fn law_places(dir: Seq<u8>, a: Seq<u8>, b: Seq<u8>)
    requires
        dir.len() > 0,
        !a.contains(47) && !b.contains(47),
        a.len() > 0 && a != seq![46u8],
        b.len() > 0 && b != seq![46u8],
    ensures
        place(dir, dir) == Place::Same,
        place(dir.push(47), dir) == Place::Same,
        place(dir.push(47) + a, dir) == Place::Below,
        place(dir.push(47) + a + seq![47u8] + b, dir) == Place::Below,
        place(dir, dir.push(47) + a) == Place::Outside,
        a != b ==> place(dir.push(47) + a, dir.push(47) + b) == Place::Outside,
        a == b ==> place(dir.push(47) + a, dir.push(47) + b) == Place::Same,
{
    law_components(dir, a);
    law_components(dir, b);
    let inner = dir.push(47) + a;
    law_components(inner, b);
    assert(inner + seq![47u8] + b =~= inner.push(47) + b);
    let d = components(dir);
    let (da, db, dab) = (d.push(a), d.push(b), d.push(a).push(b));
    assert(d =~= da.subrange(0, d.len() as int));
    assert(d =~= dab.subrange(0, d.len() as int));
    assert(d.len() != da.len() && d.len() != dab.len());
    if a != b {
        assert(da[d.len() as int] == a && db[d.len() as int] == b);
        if db.is_prefix_of(da) {
            assert(da.subrange(0, db.len() as int)[d.len() as int] == db[d.len() as int]);
        }
    }
}

} // verus!
