//! Paths with `/` between their components, as text.
use crate::text::{chars_of, copy_chars, find_char, lemma_find_char, position_of, string_of};
use vstd::prelude::*;
use vstd::slice::slice_subrange;

verus! {

/// The path begins at the root.
pub open spec fn rooted(p: Seq<char>) -> bool {
    p.len() > 0 && p[0] == '/'
}

/// The first component of the path is `.`.
pub open spec fn from_here(p: Seq<char>) -> bool {
    p.len() > 0 && p[0] == '.' && (p.len() == 1 || p[1] == '/')
}

/// The length of the root or of the leading `.`, which stay when components are taken off the end.
pub open spec fn lead(p: Seq<char>) -> nat {
    if rooted(p) || from_here(p) {
        1
    } else {
        0
    }
}

/// The place where the last component begins: behind the last `/`, and not before `start`.
pub open spec fn last_start(p: Seq<char>, start: nat) -> nat
    decreases p.len(),
{
    if p.len() <= start {
        start
    } else if p.last() == '/' {
        p.len()
    } else {
        last_start(p.drop_last(), start)
    }
}

/// The last component begins behind the last `/`.
pub proof fn lemma_last_start(p: Seq<char>, start: nat)
    requires
        start <= p.len(),
    ensures
        start <= last_start(p, start) <= p.len(),
        last_start(p, start) > start ==> p[last_start(p, start) - 1] == '/',
        forall|j: int| last_start(p, start) <= j < p.len() ==> p[j] != '/',
    decreases p.len(),
{
    if p.len() > start && p.last() != '/' {
        lemma_last_start(p.drop_last(), start);
        let at = last_start(p, start);
        assert(at > start ==> p.drop_last()[at - 1] == '/');
        assert forall|j: int| at <= j < p.len() implies p[j] != '/' by {
            if j < p.len() - 1 {
                assert(p.drop_last()[j] == p[j]);
            }
        }
    }
}

/// A component that adds nothing to a path.
pub open spec fn is_idle(component: Seq<char>) -> bool {
    component.len() == 0 || component == seq!['.']
}

/// What is left of a path when its last component, which begins at `at`, is taken off.
pub open spec fn cut(p: Seq<char>, start: nat, at: nat) -> Seq<char> {
    p.take(
        if at > start {
            at - 1
        } else {
            start as int
        },
    )
}

/// The path without idle components at its end.
pub open spec fn settled(p: Seq<char>, start: nat) -> Seq<char>
    decreases p.len(),
{
    if p.len() <= start {
        p
    } else {
        proof {
            lemma_last_start(p, start);
        }
        let at = last_start(p, start);
        if is_idle(p.skip(at as int)) {
            settled(cut(p, start, at), start)
        } else {
            p
        }
    }
}

/// The last component of a path that names something.
pub open spec fn file_name(p: Seq<char>) -> Option<Seq<char>> {
    let q = settled(p, lead(p));
    let name = q.skip(last_start(q, lead(p)) as int);
    if q.len() <= lead(p) || name == seq!['.', '.'] {
        None
    } else {
        Some(name)
    }
}

/// The path without its last component.
pub open spec fn parent(p: Seq<char>) -> Seq<char> {
    let q = settled(p, lead(p));
    settled(cut(q, lead(p), last_start(q, lead(p))), lead(p))
}

/// The place of the last `.` in a name; nothing where there is none.
pub open spec fn last_dot(name: Seq<char>) -> Option<int>
    decreases name.len(),
{
    if name.len() == 0 {
        None
    } else if name.last() == '.' {
        Some(name.len() - 1)
    } else {
        last_dot(name.drop_last())
    }
}

/// A name without its extension: what stands before the last `.`, the whole name where nothing
/// does.
pub open spec fn stem(name: Seq<char>) -> Seq<char> {
    match last_dot(name) {
        Some(d) => if d > 0 {
            name.take(d)
        } else {
            name
        },
        None => name,
    }
}

/// The extension of a name: what stands behind the last `.`, if something stands before it.
pub open spec fn suffix(name: Seq<char>) -> Option<Seq<char>> {
    match last_dot(name) {
        Some(d) => if d > 0 {
            Some(name.skip(d + 1))
        } else {
            None
        },
        None => None,
    }
}

/// The file name of a path without its extension.
pub open spec fn file_stem(p: Seq<char>) -> Option<Seq<char>> {
    match file_name(p) {
        Some(name) => Some(stem(name)),
        None => None,
    }
}

/// The extension of the file name of a path.
pub open spec fn extension(p: Seq<char>) -> Option<Seq<char>> {
    match file_name(p) {
        Some(name) => suffix(name),
        None => None,
    }
}

/// A path seen from another one.
pub open spec fn joined(base: Seq<char>, path: Seq<char>) -> Seq<char> {
    if rooted(path) {
        path
    } else if base.len() == 0 || base.last() == '/' {
        base + path
    } else {
        base.push('/') + path
    }
}

/// The path with another file name.
pub open spec fn with_file_name(p: Seq<char>, name: Seq<char>) -> Seq<char> {
    if file_name(p) is Some {
        joined(parent(p), name)
    } else {
        joined(p, name)
    }
}

/// The path with another extension, or with none; a path without a file name stays as it is.
pub open spec fn with_extension(p: Seq<char>, ext: Seq<char>) -> Seq<char> {
    let q = settled(p, lead(p));
    let at = last_start(q, lead(p));
    match file_stem(p) {
        Some(s) => if ext.len() == 0 {
            q.take((at + s.len()) as int)
        } else {
            q.take((at + s.len()) as int).push('.') + ext
        },
        None => p,
    }
}

/// Whether a component adds nothing to a path.
fn idle(component: &[char]) -> (r: bool)
    ensures
        r == is_idle(component@),
{
    if component.len() == 0 {
        return true;
    }
    if component.len() == 1 && component[0] == '.' {
        assert(component@ =~= seq!['.']);
        return true;
    }
    false
}

fn lead_len(p: &[char]) -> (r: usize)
    ensures
        r == lead(p@),
        r <= p@.len(),
{
    if p.len() == 0 {
        0
    } else if p[0] == '/' {
        1
    } else if p[0] == '.' && (p.len() == 1 || p[1] == '/') {
        1
    } else {
        0
    }
}

fn find_last_start(p: &[char], start: usize) -> (r: usize)
    requires
        start <= p@.len(),
    ensures
        r == last_start(p@, start as nat),
        start <= r <= p@.len(),
{
    let mut at: usize = p.len();
    assert(p@.take(at as int) =~= p@);
    while at > start && p[at - 1] != '/'
        invariant
            start <= at <= p@.len(),
            last_start(p@, start as nat) == last_start(p@.take(at as int), start as nat),
        decreases at,
    {
        assert(p@.take(at as int).drop_last() =~= p@.take(at - 1));
        at -= 1;
    }
    at
}

fn settle(p: &[char], start: usize) -> (r: usize)
    requires
        start <= p@.len(),
    ensures
        start <= r <= p@.len(),
        p@.take(r as int) == settled(p@, start as nat),
{
    let mut end: usize = p.len();
    assert(p@.take(end as int) =~= p@);
    while end > start
        invariant
            start <= end <= p@.len(),
            settled(p@, start as nat) == settled(p@.take(end as int), start as nat),
        decreases end,
    {
        let q = slice_subrange(p, 0, end);
        assert(q@ =~= p@.take(end as int));
        let at = find_last_start(q, start);
        let last = slice_subrange(q, at, end);
        assert(last@ =~= q@.skip(at as int));
        if !idle(last) {
            return end;
        }
        let next: usize = if at > start {
            at - 1
        } else {
            start
        };
        assert(cut(q@, start as nat, at as nat) =~= p@.take(next as int));
        end = next;
    }
    end
}

/// The place and the end of the file name of a path.
fn find_name(p: &[char]) -> (r: Option<(usize, usize)>)
    ensures
        match r {
            Some((at, end)) => {
                &&& at <= end <= p@.len()
                &&& p@.take(end as int) == settled(p@, lead(p@))
                &&& at == last_start(settled(p@, lead(p@)), lead(p@))
                &&& file_name(p@) == Some(p@.subrange(at as int, end as int))
            },
            None => file_name(p@) is None,
        },
{
    let start = lead_len(p);
    let end = settle(p, start);
    if end <= start {
        return None;
    }
    let q = slice_subrange(p, 0, end);
    assert(q@ =~= p@.take(end as int));
    let at = find_last_start(q, start);
    assert(q@.skip(at as int) =~= p@.subrange(at as int, end as int));
    if end - at == 2 && p[at] == '.' && p[at + 1] == '.' {
        assert(p@.subrange(at as int, end as int) =~= seq!['.', '.']);
        return None;
    }
    Some((at, end))
}

fn find_dot(name: &[char]) -> (r: Option<usize>)
    ensures
        match r {
            Some(d) => d < name@.len() && last_dot(name@) == Some(d as int),
            None => last_dot(name@) is None,
        },
{
    let mut end: usize = name.len();
    assert(name@.take(end as int) =~= name@);
    while end > 0
        invariant
            end <= name@.len(),
            last_dot(name@) == last_dot(name@.take(end as int)),
        decreases end,
    {
        if name[end - 1] == '.' {
            return Some(end - 1);
        }
        assert(name@.take(end as int).drop_last() =~= name@.take(end - 1));
        end -= 1;
    }
    None
}

/// The length of a name without its extension.
fn stem_len(name: &[char]) -> (r: usize)
    ensures
        r <= name@.len(),
        name@.take(r as int) == stem(name@),
{
    assert(name@.take(name@.len() as int) =~= name@);
    match find_dot(name) {
        Some(d) => if d > 0 {
            d
        } else {
            name.len()
        },
        None => name.len(),
    }
}

/// The last component of a path that names something.
pub fn file_name_of(path: &str) -> (r: Option<String>)
    ensures
        match r {
            Some(name) => file_name(path@) == Some(name@),
            None => file_name(path@) is None,
        },
{
    let p = chars_of(path);
    match find_name(&p) {
        Some((at, end)) => Some(string_of(slice_subrange(&p, at, end))),
        None => None,
    }
}

/// The file name of a path without its extension.
pub fn file_stem_of(path: &str) -> (r: Option<String>)
    ensures
        match r {
            Some(s) => file_stem(path@) == Some(s@),
            None => file_stem(path@) is None,
        },
{
    let p = chars_of(path);
    match find_name(&p) {
        Some((at, end)) => {
            let name = slice_subrange(&p, at, end);
            let len = stem_len(name);
            assert(name@.take(len as int) =~= name@.subrange(0, len as int));
            Some(string_of(slice_subrange(name, 0, len)))
        },
        None => None,
    }
}

/// The extension of the file name of a path.
pub fn extension_of(path: &str) -> (r: Option<String>)
    ensures
        match r {
            Some(s) => extension(path@) == Some(s@),
            None => extension(path@) is None,
        },
{
    let p = chars_of(path);
    match find_name(&p) {
        Some((at, end)) => {
            let name = slice_subrange(&p, at, end);
            match find_dot(name) {
                Some(d) => if d > 0 {
                    assert(name@.skip(d + 1) =~= name@.subrange(d + 1, name@.len() as int));
                    Some(string_of(slice_subrange(name, d + 1, name.len())))
                } else {
                    None
                },
                None => None,
            }
        },
        None => None,
    }
}

/// Joins two runs of characters as paths.
fn join_chars(base: &[char], path: &[char]) -> (r: Vec<char>)
    ensures
        r@ == joined(base@, path@),
{
    if path.len() > 0 && path[0] == '/' {
        return copy_chars(path);
    }
    let mut out = copy_chars(base);
    if base.len() > 0 && base[base.len() - 1] != '/' {
        out.push('/');
    }
    let ghost front = out@;
    for i in 0..path.len()
        invariant
            out@ == front + path@.take(i as int),
    {
        out.push(path[i]);
        assert(out@ =~= front + path@.take(i + 1));
    }
    assert(path@.take(path@.len() as int) =~= path@);
    out
}

/// A path seen from another one.
pub fn join(base: &str, path: &str) -> (r: String)
    ensures
        r@ == joined(base@, path@),
{
    string_of(&join_chars(&chars_of(base), &chars_of(path)))
}

/// Gives a path another file name.
pub fn rename(path: &str, name: &str) -> (r: String)
    ensures
        r@ == with_file_name(path@, name@),
{
    let p = chars_of(path);
    let n = chars_of(name);
    match find_name(&p) {
        Some((at, end)) => {
            let start = lead_len(&p);
            let q = slice_subrange(&p, 0, end);
            assert(q@ =~= settled(p@, lead(p@)));
            proof {
                lemma_settled_keeps_lead(p@, lead(p@));
            }
            let next: usize = if at > start {
                at - 1
            } else {
                start
            };
            let front = slice_subrange(&p, 0, next);
            assert(front@ =~= cut(q@, start as nat, at as nat));
            let len = settle(front, start);
            let kept = slice_subrange(front, 0, len);
            assert(kept@ =~= front@.take(len as int));
            string_of(&join_chars(kept, &n))
        },
        None => string_of(&join_chars(&p, &n)),
    }
}

/// Gives a path another extension.
pub fn change_extension(path: &str, ext: &str) -> (r: String)
    requires
        !ext@.contains('/'),
    ensures
        r@ == with_extension(path@, ext@),
{
    let p = chars_of(path);
    match find_name(&p) {
        Some((at, end)) => {
            let name = slice_subrange(&p, at, end);
            let len = stem_len(name);
            assert(stem(name@).len() == len);
            assert(settled(p@, lead(p@)).take(at + len) =~= p@.subrange(0, at + len));
            let mut out = string_of(slice_subrange(&p, 0, at + len));
            let e = chars_of(ext);
            if e.len() > 0 {
                out.push('.');
                out.append(ext);
            }
            out
        },
        None => string_of(&p),
    }
}

/// A settled path is a beginning of the path that is no shorter than its lead.
proof fn lemma_settled_keeps_lead(p: Seq<char>, start: nat)
    requires
        start <= p.len(),
    ensures
        start <= settled(p, start).len() <= p.len(),
        settled(p, start) == p.take(settled(p, start).len() as int),
        settled(p, start).len() > start ==> !is_idle(
            settled(p, start).skip(last_start(settled(p, start), start) as int),
        ),
    decreases p.len(),
{
    if p.len() > start {
        lemma_last_start(p, start);
        let at = last_start(p, start);
        if is_idle(p.skip(at as int)) {
            let rest = cut(p, start, at);
            lemma_settled_keeps_lead(rest, start);
            let n = settled(p, start).len() as int;
            assert(rest.take(n) =~= p.take(n));
        }
    }
    assert(p.take(p.len() as int) =~= p);
}

/// The first component of a path without a lead.
pub open spec fn head(p: Seq<char>) -> Seq<char> {
    p.take(find_char(p, '/'))
}

/// What follows the first component of a path without a lead.
pub open spec fn tail(p: Seq<char>) -> Seq<char> {
    if find_char(p, '/') < p.len() {
        p.skip(find_char(p, '/') + 1)
    } else {
        Seq::empty()
    }
}

/// The path without idle components at its beginning.
pub open spec fn opened(p: Seq<char>) -> Seq<char>
    decreases p.len(),
{
    if p.len() > 0 && is_idle(head(p)) {
        proof {
            lemma_find_char(p, '/');
        }
        opened(tail(p))
    } else {
        p
    }
}

/// A path without idle components at its beginning is no longer than the path.
pub proof fn lemma_opened(p: Seq<char>)
    ensures
        opened(p).len() <= p.len(),
        opened(p).len() > 0 ==> !is_idle(head(opened(p))),
    decreases p.len(),
{
    if p.len() > 0 && is_idle(head(p)) {
        lemma_find_char(p, '/');
        lemma_opened(tail(p));
    }
}

/// What follows the components of `base` in `p`; nothing where `p` does not begin with them.
pub open spec fn remainder(p: Seq<char>, base: Seq<char>) -> Option<Seq<char>>
    decreases base.len(),
{
    let b = opened(base);
    let q = opened(p);
    if b.len() == 0 {
        Some(settled(q, 0))
    } else if q.len() == 0 || head(q) != head(b) {
        None
    } else {
        proof {
            lemma_opened(base);
            lemma_find_char(b, '/');
        }
        remainder(tail(q), tail(b))
    }
}

/// The path seen from `base`; nothing where it does not begin with the components of `base`.
pub open spec fn below(p: Seq<char>, base: Seq<char>) -> Option<Seq<char>> {
    if rooted(base) {
        if rooted(p) {
            remainder(p.skip(1), base.skip(1))
        } else {
            None
        }
    } else if from_here(base) {
        if from_here(p) {
            remainder(p.skip(1), base.skip(1))
        } else {
            None
        }
    } else if base.len() == 0 {
        Some(settled(p, lead(p)))
    } else if rooted(p) || from_here(p) {
        None
    } else {
        remainder(p, base)
    }
}

fn same_chars(a: &[char], b: &[char]) -> (r: bool)
    ensures
        r == (a@ == b@),
{
    if a.len() != b.len() {
        return false;
    }
    for i in 0..a.len()
        invariant
            a@.len() == b@.len(),
            a@.take(i as int) =~= b@.take(i as int),
    {
        if a[i] != b[i] {
            return false;
        }
        assert(a@.take(i + 1) =~= a@.take(i as int).push(a@[i as int]));
        assert(b@.take(i + 1) =~= b@.take(i as int).push(b@[i as int]));
    }
    assert(a@.take(a@.len() as int) =~= a@);
    assert(b@.take(b@.len() as int) =~= b@);
    true
}

fn open_path(p: &[char]) -> (r: Vec<char>)
    ensures
        r@ == opened(p@),
{
    let mut rest = copy_chars(p);
    while rest.len() > 0
        invariant
            opened(rest@) == opened(p@),
        decreases rest@.len(),
    {
        proof {
            lemma_find_char(rest@, '/');
        }
        let at = position_of(&rest, '/');
        let first = slice_subrange(&rest, 0, at);
        assert(first@ =~= head(rest@));
        if !idle(first) {
            return rest;
        }
        rest = tail_of(&rest, at);
    }
    rest
}

fn tail_of(p: &[char], at: usize) -> (r: Vec<char>)
    requires
        at == find_char(p@, '/'),
        at <= p@.len(),
    ensures
        r@ == tail(p@),
{
    if at < p.len() {
        assert(p@.skip(at + 1) =~= p@.subrange(at + 1, p@.len() as int));
        copy_chars(slice_subrange(p, at + 1, p.len()))
    } else {
        Vec::new()
    }
}

fn find_remainder(p: &[char], base: &[char]) -> (r: Option<Vec<char>>)
    ensures
        match r {
            Some(rest) => remainder(p@, base@) == Some(rest@),
            None => remainder(p@, base@) is None,
        },
{
    let mut rest = copy_chars(p);
    let mut below = copy_chars(base);
    loop
        invariant
            remainder(rest@, below@) == remainder(p@, base@),
        decreases below@.len(),
    {
        let q = open_path(&rest);
        let b = open_path(&below);
        proof {
            lemma_opened(below@);
        }
        if b.len() == 0 {
            let end = settle(&q, 0);
            assert(q@.take(end as int) =~= q@.subrange(0, end as int));
            return Some(copy_chars(slice_subrange(&q, 0, end)));
        }
        if q.len() == 0 {
            return None;
        }
        let at_q = position_of(&q, '/');
        let at_b = position_of(&b, '/');
        let head_q = slice_subrange(&q, 0, at_q);
        let head_b = slice_subrange(&b, 0, at_b);
        assert(head_q@ =~= head(q@));
        assert(head_b@ =~= head(b@));
        if !same_chars(head_q, head_b) {
            return None;
        }
        rest = tail_of(&q, at_q);
        below = tail_of(&b, at_b);
    }
}

fn skip_one(p: &[char]) -> (r: Vec<char>)
    requires
        p@.len() > 0,
    ensures
        r@ == p@.skip(1),
{
    assert(p@.skip(1) =~= p@.subrange(1, p@.len() as int));
    copy_chars(slice_subrange(p, 1, p.len()))
}

fn below_chars(p: &[char], base: &[char]) -> (r: Option<Vec<char>>)
    ensures
        match r {
            Some(rest) => below(p@, base@) == Some(rest@),
            None => below(p@, base@) is None,
        },
{
    if base.len() > 0 && base[0] == '/' {
        if p.len() > 0 && p[0] == '/' {
            find_remainder(&skip_one(p), &skip_one(base))
        } else {
            None
        }
    } else if lead_len(base) == 1 {
        if lead_len(p) == 1 && p[0] == '.' {
            find_remainder(&skip_one(p), &skip_one(base))
        } else {
            None
        }
    } else if base.len() == 0 {
        let start = lead_len(p);
        let end = settle(p, start);
        assert(p@.take(end as int) =~= p@.subrange(0, end as int));
        Some(copy_chars(slice_subrange(p, 0, end)))
    } else if lead_len(p) == 1 {
        None
    } else {
        find_remainder(p, base)
    }
}

/// The path seen from `base`.
pub fn strip_base(path: &str, base: &str) -> (r: Option<String>)
    ensures
        match r {
            Some(rest) => below(path@, base@) == Some(rest@),
            None => below(path@, base@) is None,
        },
{
    match below_chars(&chars_of(path), &chars_of(base)) {
        Some(rest) => Some(string_of(&rest)),
        None => None,
    }
}

/// No component of the path is idle.
pub open spec fn is_tidy(p: Seq<char>) -> bool
    decreases p.len(),
{
    proof {
        lemma_find_char(p, '/');
    }
    p.len() > 0 && !is_idle(head(p)) && (find_char(p, '/') < p.len() ==> is_tidy(tail(p)))
}

/// A directory as the root followed by components that are not idle.
pub open spec fn is_directory(p: Seq<char>) -> bool {
    rooted(p) && (p.len() == 1 || is_tidy(p.skip(1)))
}

proof fn lemma_find_char_in_joined(p: Seq<char>, rest: Seq<char>)
    ensures
        find_char(p + rest, '/') == (if find_char(p, '/') < p.len() {
            find_char(p, '/')
        } else {
            p.len() + find_char(rest, '/')
        }),
    decreases p.len(),
{
    if p.len() == 0 {
        assert(p + rest =~= rest);
    } else if p[0] != '/' {
        assert((p + rest).skip(1) =~= p.skip(1) + rest);
        lemma_find_char_in_joined(p.skip(1), rest);
        lemma_find_char(p.skip(1), '/');
    }
}

/// The last component of a tidy path is not idle.
proof fn lemma_tidy_is_settled(p: Seq<char>)
    requires
        is_tidy(p),
    ensures
        settled(p, 0) == p,
    decreases p.len(),
{
    let at = find_char(p, '/');
    lemma_find_char(p, '/');
    lemma_last_start(p, 0);
    let l = last_start(p, 0);
    if at < p.len() {
        let t = tail(p);
        assert(is_tidy(t));
        lemma_tidy_is_settled(t);
        lemma_last_start(t, 0);
        let lt = last_start(t, 0);
        assert(l >= at + 1) by {
            if l <= at {
                assert(p[at] != '/');
            }
        }
        assert(l == at + 1 + lt) by {
            if l > at + 1 + lt {
                assert(p[l - 1] == t[l - 1 - at - 1]);
            }
            if l < at + 1 + lt {
                assert(t[lt - 1] == '/');
                assert(t[lt - 1] == p[at + 1 + lt - 1]);
            }
        }
        assert(p.skip(l as int) =~= t.skip(lt as int));
        assert(t.len() > 0);
        if is_idle(t.skip(lt as int)) {
            lemma_settled_keeps_lead(cut(t, 0, lt), 0);
            assert(settled(t, 0).len() < t.len());
        }
    } else {
        assert(l == 0) by {
            if l > 0 {
                assert(p[l - 1] == '/');
            }
        }
        assert(p.skip(0) =~= p);
        assert(head(p) =~= p);
    }
}

proof fn lemma_remainder_of_joined(base: Seq<char>, path: Seq<char>)
    requires
        is_tidy(base),
        is_tidy(path),
    ensures
        remainder(base.push('/') + path, base) == Some(path),
    decreases base.len(),
{
    let whole = base.push('/') + path;
    assert(whole =~= base + (seq!['/'] + path));
    lemma_find_char_in_joined(base, seq!['/'] + path);
    lemma_find_char(base, '/');
    let at = find_char(base, '/');
    assert(find_char(seq!['/'] + path, '/') == 0);
    assert(head(whole) =~= head(base));
    if at < base.len() {
        assert(tail(whole) =~= tail(base).push('/') + path);
        lemma_remainder_of_joined(tail(base), path);
    } else {
        assert(tail(whole) =~= path);
        lemma_tidy_is_settled(path);
        assert(opened(Seq::<char>::empty()) =~= Seq::<char>::empty());
        assert(remainder(path, Seq::empty()) == Some(path));
    }
}

/// What is joined to a directory comes back when the directory is taken off again.
pub proof fn joined_path_is_below(base: Seq<char>, path: Seq<char>)
    requires
        is_directory(base),
        is_tidy(path),
    ensures
        below(joined(base, path), base) == Some(path),
{
    lemma_find_char(path, '/');
    assert(path[0] != '/') by {
        if path[0] == '/' {
            assert(head(path).len() == 0);
        }
    }
    if base.len() == 1 {
        assert(base.last() == '/');
        assert(joined(base, path).skip(1) =~= path);
        lemma_tidy_is_settled(path);
        assert(opened(base.skip(1)).len() == 0);
    } else {
        let b = base.skip(1);
        assert(b.last() == base.last());
        if b.last() == '/' {
            lemma_tidy_ends_in_a_name(b);
        }
        assert(joined(base, path).skip(1) =~= b.push('/') + path);
        lemma_remainder_of_joined(b, path);
    }
}

proof fn lemma_tidy_ends_in_a_name(p: Seq<char>)
    requires
        is_tidy(p),
    ensures
        p.last() != '/',
{
    lemma_tidy_is_settled(p);
    if p.last() == '/' {
        assert(last_start(p, 0) == p.len());
        assert(is_idle(p.skip(p.len() as int)));
        lemma_settled_keeps_lead(cut(p, 0, p.len()), 0);
    }
}

/// The last `.` of a name is a `.`, and none follows it.
proof fn lemma_last_dot(name: Seq<char>)
    ensures
        match last_dot(name) {
            Some(d) => {
                &&& 0 <= d < name.len()
                &&& name[d] == '.'
                &&& forall|j: int| d < j < name.len() ==> #[trigger] name[j] != '.'
            },
            None => true,
        },
    decreases name.len(),
{
    if name.len() > 0 && name.last() != '.' {
        let front = name.drop_last();
        lemma_last_dot(front);
        assert forall|j: int| 0 <= j < front.len() implies #[trigger] name[j] == front[j] by {}
    }
}

proof fn lemma_last_dot_of_extended(front: Seq<char>, ext: Seq<char>)
    requires
        !ext.contains('.'),
    ensures
        last_dot(front.push('.') + ext) == Some(front.len() as int),
    decreases ext.len(),
{
    let whole = front.push('.') + ext;
    if ext.len() == 0 {
        assert(whole =~= front.push('.'));
    } else {
        assert(whole.last() == ext.last());
        assert(ext.contains(ext.last()));
        assert(whole.drop_last() =~= front.push('.') + ext.drop_last());
        assert forall|c: char| ext.drop_last().contains(c) implies ext.contains(c) by {
            let i = choose|i: int| 0 <= i < ext.drop_last().len() && ext.drop_last()[i] == c;
            assert(ext[i] == c);
        }
        lemma_last_dot_of_extended(front, ext.drop_last());
    }
}

/// The last component of a path that ends in a name without `/` begins where the name begins.
proof fn lemma_last_start_of_name(front: Seq<char>, name: Seq<char>, start: nat)
    requires
        start <= front.len(),
        front.len() > start ==> front.last() == '/',
        forall|j: int| 0 <= j < name.len() ==> name[j] != '/',
    ensures
        last_start(front + name, start) == front.len(),
    decreases name.len(),
{
    let whole = front + name;
    if name.len() == 0 {
        assert(whole =~= front);
    } else {
        assert(whole.last() == name.last());
        assert(whole.drop_last() =~= front + name.drop_last());
        lemma_last_start_of_name(front, name.drop_last(), start);
    }
}

/// The lead of a path stays when its file name changes.
proof fn lemma_lead_stays(p: Seq<char>, q: Seq<char>, at: int, name: Seq<char>)
    requires
        q == p.take(q.len() as int),
        q.len() <= p.len(),
        lead(p) <= at < q.len(),
        at > lead(p) ==> q[at - 1] == '/',
        name.len() >= 3,
        name[0] != '/',
        name[1] != '/',
        lead(p) == 1 && from_here(p) ==> at > 1,
    ensures
        lead(q.take(at) + name) == lead(p),
{
    let r = q.take(at) + name;
    assert forall|j: int| 0 <= j < at implies r[j] == p[j] by {
        assert(q[j] == p[j]);
    }
    if at == 0 {
        assert(r[0] == name[0] && r[1] == name[1]);
    } else if at == 1 {
        assert(r[1] == name[0]);
    }
}

/// A name behind a path that ends in `/`, or in its lead, is the file name.
proof fn lemma_named(front: Seq<char>, name: Seq<char>)
    requires
        lead(front + name) <= front.len(),
        front.len() > lead(front + name) ==> front.last() == '/',
        forall|j: int| 0 <= j < name.len() ==> name[j] != '/',
        name.len() >= 3,
    ensures
        file_name(front + name) == Some(name),
{
    let r = front + name;
    let start = lead(r);
    lemma_last_start_of_name(front, name, start);
    assert(r.skip(front.len() as int) =~= name);
    assert(!is_idle(name));
    assert(settled(r, start) == r);
    assert(name != seq!['.', '.']);
}

/// A path with another extension has that extension, and keeps the rest of its file name.
#[verifier::spinoff_prover]
#[verifier::rlimit(50)]
pub proof fn changed_extension_is_found(p: Seq<char>, ext: Seq<char>)
    requires
        file_name(p) is Some,
        ext.len() > 0,
        !ext.contains('/'),
        !ext.contains('.'),
    ensures
        extension(with_extension(p, ext)) == Some(ext),
        file_stem(with_extension(p, ext)) == file_stem(p),
{
    let start = lead(p);
    let q = settled(p, start);
    let at = last_start(q, start);
    let name = file_name(p)->0;
    let s = stem(name);
    let r = with_extension(p, ext);
    lemma_settled_keeps_lead(p, start);
    lemma_last_start(q, start);
    lemma_last_dot(name);
    let new_name = s.push('.') + ext;
    assert(s.len() > 0);
    assert(q.take((at + s.len()) as int) =~= q.take(at as int) + s);
    assert(r =~= q.take(at as int) + new_name);
    assert forall|j: int| 0 <= j < new_name.len() implies new_name[j] != '/' by {
        if j < s.len() {
            assert(q[at + j] == name[j]);
        } else if j > s.len() {
            assert(ext[j - s.len() - 1] == new_name[j]);
            assert(ext.contains(ext[j - s.len() - 1]));
        }
    }
    assert(from_here(p) ==> at > 1) by {
        if from_here(p) {
            assert(q[1] == p[1]);
        }
    }
    lemma_lead_stays(p, q, at as int, new_name);
    lemma_named(q.take(at as int), new_name);
    lemma_last_dot_of_extended(s, ext);
    assert(new_name.take(s.len() as int) =~= s);
    assert(new_name.skip((s.len() + 1) as int) =~= ext);
}

/// A name that is joined to a path is the file name of what comes out, and so is a name that is given
/// to a path.
pub proof fn joined_name_is_the_file_name(base: Seq<char>, name: Seq<char>)
    requires
        name.len() >= 3,
        !name.contains('/'),
    ensures
        file_name(joined(base, name)) == Some(name),
        file_name(with_file_name(base, name)) == Some(name),
{
    lemma_joined_name(base, name);
    lemma_joined_name(parent(base), name);
}

proof fn lemma_joined_name(base: Seq<char>, name: Seq<char>)
    requires
        name.len() >= 3,
        !name.contains('/'),
    ensures
        file_name(joined(base, name)) == Some(name),
{
    assert forall|j: int| 0 <= j < name.len() implies name[j] != '/' by {
        assert(name.contains(name[j]));
    }
    let front = if base.len() == 0 || base.last() == '/' {
        base
    } else {
        base.push('/')
    };
    assert(joined(base, name) == front + name);
    if front.len() == 0 {
        assert(front + name =~= name);
    }
    lemma_named(front, name);
}

/// A name with an extension falls apart into what stands in front of the last `.` and the
/// extension.
pub proof fn extended_name_falls_apart(front: Seq<char>, ext: Seq<char>)
    requires
        front.len() > 0,
        !ext.contains('.'),
    ensures
        stem(front.push('.') + ext) == front,
        suffix(front.push('.') + ext) == Some(ext),
{
    let name = front.push('.') + ext;
    lemma_last_dot_of_extended(front, ext);
    assert(name.take(front.len() as int) =~= front);
    assert(name.skip((front.len() + 1) as int) =~= ext);
}

/// The stem of a file name is no shorter than one character and holds no `/`.
pub proof fn stems_are_names(p: Seq<char>)
    ensures
        file_stem(p) matches Some(s) ==> s.len() > 0 && !s.contains('/'),
        extension(p) matches Some(e) ==> !e.contains('/') && !e.contains('.'),
{
    if file_name(p) is Some {
        let q = settled(p, lead(p));
        let at = last_start(q, lead(p));
        let name = file_name(p)->0;
        lemma_settled_keeps_lead(p, lead(p));
        lemma_last_start(q, lead(p));
        lemma_last_dot(name);
        assert(name.len() > 0);
        assert forall|j: int| 0 <= j < name.len() implies name[j] != '/' by {
            assert(name[j] == q[at + j]);
        }
        let s = stem(name);
        if s.contains('/') {
            let j = choose|j: int| 0 <= j < s.len() && s[j] == '/';
            assert(name[j] == '/');
        }
        if let Some(d) = last_dot(name) {
            let e = name.skip(d + 1);
            if e.contains('/') {
                let j = choose|j: int| 0 <= j < e.len() && e[j] == '/';
                assert(name[d + 1 + j] == '/');
            }
            if e.contains('.') {
                let j = choose|j: int| 0 <= j < e.len() && e[j] == '.';
                assert(name[d + 1 + j] == '.');
            }
        }
    }
}

/// Nothing is left of a path that is seen from itself.
pub proof fn path_is_below_itself(p: Seq<char>)
    ensures
        below(p, p) == Some(Seq::<char>::empty()),
{
    lemma_remainder_of_itself(p);
    if p.len() > 0 {
        lemma_remainder_of_itself(p.skip(1));
    } else {
        assert(settled(p, lead(p)) =~= Seq::<char>::empty());
    }
}

proof fn lemma_remainder_of_itself(p: Seq<char>)
    ensures
        remainder(p, p) == Some(Seq::<char>::empty()),
    decreases p.len(),
{
    let q = opened(p);
    lemma_opened(p);
    if q.len() == 0 {
        assert(settled(q, 0) =~= Seq::<char>::empty());
    } else {
        lemma_find_char(q, '/');
        lemma_remainder_of_itself(tail(q));
    }
}

}
