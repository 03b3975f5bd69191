//! Text handling on the characters of a string.
use vstd::prelude::*;
use vstd::slice::slice_subrange;

verus! {

/// `String::push` appends the given character to the end of the string.
pub assume_specification[ String::push ](s: &mut String, c: char)
    ensures
        final(s)@ == old(s)@.push(c),
;

/// `str`'s `==` compares two strings byte by byte, which for UTF-8 is character by character.
pub assume_specification[ <str as PartialEq>::eq ](a: &str, b: &str) -> (r: bool)
    ensures
        r == (a@ == b@),
;

/// Whether two texts hold the same characters.
pub fn same(a: &str, b: &str) -> (r: bool)
    ensures
        r == (a@ == b@),
{
    str::eq(a, b)
}

/// The characters of a text.
pub fn chars_of(s: &str) -> (r: Vec<char>)
    ensures
        r@ == s@,
{
    let mut out: Vec<char> = Vec::new();
    for c in it: s.chars()
        invariant
            out@ == it.seq().take(it.index() as int),
            it.seq() == s@,
    {
        out.push(c);
    }
    out
}

/// The text made of the given characters.
pub fn string_of(chars: &[char]) -> (r: String)
    ensures
        r@ == chars@,
{
    let mut out = String::new();
    for i in 0..chars.len()
        invariant
            out@ == chars@.take(i as int),
    {
        out.push(chars[i]);
    }
    out
}

/// The characters with the Unicode property `White_Space`.
pub open spec fn is_whitespace(c: char) -> bool {
    let n = c as u32;
    ||| 0x9 <= n <= 0xd
    ||| n == 0x20
    ||| n == 0x85
    ||| n == 0xa0
    ||| n == 0x1680
    ||| 0x2000 <= n <= 0x200a
    ||| n == 0x2028
    ||| n == 0x2029
    ||| n == 0x202f
    ||| n == 0x205f
    ||| n == 0x3000
}

/// Tests a character for the Unicode property `White_Space`.
pub fn whitespace(c: char) -> (r: bool)
    ensures
        r == is_whitespace(c),
{
    let n: u32 = c as u32;
    (0x9 <= n && n <= 0xd) || n == 0x20 || n == 0x85 || n == 0xa0 || n == 0x1680 || (0x2000 <= n && n
        <= 0x200a) || n == 0x2028 || n == 0x2029 || n == 0x202f || n == 0x205f || n == 0x3000
}

/// `s` without its leading characters that satisfy `p`.
pub open spec fn trimmed_start(s: Seq<char>, p: spec_fn(char) -> bool) -> Seq<char>
    decreases s.len(),
{
    if s.len() > 0 && p(s[0]) {
        trimmed_start(s.skip(1), p)
    } else {
        s
    }
}

/// `s` without its trailing characters that satisfy `p`.
pub open spec fn trimmed_end(s: Seq<char>, p: spec_fn(char) -> bool) -> Seq<char>
    decreases s.len(),
{
    if s.len() > 0 && p(s.last()) {
        trimmed_end(s.drop_last(), p)
    } else {
        s
    }
}

/// Trailing characters that satisfy `p` are dropped, up to the last one that does not.
pub proof fn trimming_stops_at_the_rest(s: Seq<char>, tail: Seq<char>, p: spec_fn(char) -> bool)
    requires
        s.len() == 0 || !p(s.last()),
        forall|k: int| 0 <= k < tail.len() ==> p(#[trigger] tail[k]),
    ensures
        trimmed_end(s + tail, p) == s,
    decreases tail.len(),
{
    if tail.len() > 0 {
        assert((s + tail).last() == tail[tail.len() - 1]);
        assert((s + tail).drop_last() =~= s + tail.drop_last());
        trimming_stops_at_the_rest(s, tail.drop_last(), p);
    } else {
        assert(s + tail =~= s);
    }
}

/// The predicate of [`is_whitespace`] as a function value.
pub open spec fn ws() -> spec_fn(char) -> bool {
    |c: char| is_whitespace(c)
}

/// Membership in a set of characters as a function value.
pub open spec fn one_of(set: Seq<char>) -> spec_fn(char) -> bool {
    |c: char| set.contains(c)
}

/// `s` without leading and trailing white space.
pub open spec fn trimmed(s: Seq<char>) -> Seq<char> {
    trimmed_end(trimmed_start(s, ws()), ws())
}

fn in_set(set: &[char], c: char) -> (r: bool)
    ensures
        r == set@.contains(c),
{
    for i in 0..set.len()
        invariant
            forall|j: int| 0 <= j < i ==> set@[j] != c,
    {
        if set[i] == c {
            return true;
        }
    }
    false
}

/// Removes leading and trailing white space.
pub fn trim(s: &[char]) -> (r: Vec<char>)
    ensures
        r@ == trimmed(s@),
{
    let mut start: usize = 0;
    assert(s@.skip(0) =~= s@);
    while start < s.len() && whitespace(s[start])
        invariant
            start <= s.len(),
            trimmed_start(s@, ws()) == trimmed_start(s@.skip(start as int), ws()),
        decreases s.len() - start,
    {
        assert(s@.skip(start as int).skip(1) =~= s@.skip(start + 1));
        start += 1;
    }
    let ghost body = s@.skip(start as int);
    assert(trimmed_start(s@, ws()) == body);
    let mut end: usize = s.len();
    assert(s@.subrange(start as int, end as int) =~= body);
    while start < end && whitespace(s[end - 1])
        invariant
            start <= end <= s.len(),
            trimmed_end(body, ws()) == trimmed_end(
                s@.subrange(start as int, end as int),
                ws(),
            ),
        decreases end - start,
    {
        assert(s@.subrange(start as int, end as int).drop_last() =~= s@.subrange(
            start as int,
            end - 1,
        ));
        end -= 1;
    }
    copy_chars(slice_subrange(s, start, end))
}

/// Removes trailing characters that belong to `set`.
pub fn trim_end_matches(s: &[char], set: &[char]) -> (r: Vec<char>)
    ensures
        r@ == trimmed_end(s@, one_of(set@)),
{
    let mut end: usize = s.len();
    assert(s@.take(end as int) =~= s@);
    while 0 < end && in_set(set, s[end - 1])
        invariant
            end <= s.len(),
            trimmed_end(s@, one_of(set@)) == trimmed_end(s@.take(end as int), one_of(set@)),
        decreases end,
    {
        assert(s@.take(end as int).drop_last() =~= s@.take(end - 1));
        end -= 1;
    }
    copy_chars(slice_subrange(s, 0, end))
}

/// Removes leading characters that belong to `set`.
pub fn trim_start_matches(s: &[char], set: &[char]) -> (r: Vec<char>)
    ensures
        r@ == trimmed_start(s@, one_of(set@)),
{
    let mut start: usize = 0;
    assert(s@.skip(0) =~= s@);
    while start < s.len() && in_set(set, s[start])
        invariant
            start <= s.len(),
            trimmed_start(s@, one_of(set@)) == trimmed_start(s@.skip(start as int), one_of(set@)),
        decreases s.len() - start,
    {
        assert(s@.skip(start as int).skip(1) =~= s@.skip(start + 1));
        start += 1;
    }
    assert(s@.skip(start as int) =~= s@.subrange(start as int, s@.len() as int));
    copy_chars(slice_subrange(s, start, s.len()))
}

/// A copy of a run of characters.
pub fn copy_chars(s: &[char]) -> (r: Vec<char>)
    ensures
        r@ == s@,
{
    let mut out: Vec<char> = Vec::new();
    for i in 0..s.len()
        invariant
            out@ == s@.take(i as int),
    {
        out.push(s[i]);
    }
    out
}

/// A copy of a run of bytes.
pub fn copy_bytes(s: &[u8]) -> (r: Vec<u8>)
    ensures
        r@ == s@,
{
    let mut out: Vec<u8> = Vec::new();
    for i in 0..s.len()
        invariant
            out@ == s@.take(i as int),
    {
        out.push(s[i]);
    }
    out
}

/// `s` with every character of `set` replaced by a space.
pub open spec fn spaced(s: Seq<char>, set: Seq<char>) -> Seq<char> {
    s.map_values(|c: char| if set.contains(c) { ' ' } else { c })
}

/// Replaces every character of `set` by a space.
pub fn replace_with_spaces(s: &[char], set: &[char]) -> (r: Vec<char>)
    ensures
        r@ == spaced(s@, set@),
{
    let mut out: Vec<char> = Vec::new();
    for i in 0..s.len()
        invariant
            out@ == spaced(s@, set@).take(i as int),
    {
        if in_set(set, s[i]) {
            out.push(' ');
        } else {
            out.push(s[i]);
        }
    }
    assert(spaced(s@, set@).take(s@.len() as int) =~= spaced(s@, set@));
    out
}

/// The words of `s`, that is its maximal runs without white space, joined by single spaces.
pub open spec fn squeezed(s: Seq<char>) -> Seq<char>
    decreases s.len(),
{
    if s.len() == 0 {
        Seq::empty()
    } else {
        let before = squeezed(s.drop_last());
        let c = s.last();
        if is_whitespace(c) {
            before
        } else if before.len() > 0 && is_whitespace(s.drop_last().last()) {
            before.push(' ').push(c)
        } else {
            before.push(c)
        }
    }
}

/// Splits `s` at white space and joins the words by single spaces.
pub fn squeeze(s: &[char]) -> (r: Vec<char>)
    ensures
        r@ == squeezed(s@),
{
    let mut out: Vec<char> = Vec::new();
    for i in 0..s.len()
        invariant
            out@ == squeezed(s@.take(i as int)),
    {
        assert(s@.take(i + 1).drop_last() =~= s@.take(i as int));
        if !whitespace(s[i]) {
            if out.len() > 0 && whitespace(s[i - 1]) {
                out.push(' ');
            }
            out.push(s[i]);
        }
    }
    assert(s@.take(s@.len() as int) =~= s@);
    out
}

/// `needle` stands in `s` from position `at` on.
pub open spec fn occurs_at(s: Seq<char>, needle: Seq<char>, at: int) -> bool {
    0 <= at <= s.len() - needle.len() && s.subrange(at, at + needle.len()) == needle
}

/// `needle` stands somewhere in `s`.
pub open spec fn has_text(s: Seq<char>, needle: Seq<char>) -> bool {
    exists|at: int| occurs_at(s, needle, at)
}

/// Whether the characters of `needle` stand in `s` from position `at` on.
fn matches_at(s: &[char], needle: &[char], at: usize) -> (r: bool)
    requires
        at + needle@.len() <= s@.len(),
    ensures
        r == occurs_at(s@, needle@, at as int),
{
    let len: usize = s.len();
    for i in 0..needle.len()
        invariant
            len == s@.len(),
            at + needle@.len() <= len,
            forall|j: int| 0 <= j < i ==> s@[at + j] == needle@[j],
    {
        if s[at + i] != needle[i] {
            assert(s@.subrange(at as int, at + needle@.len())[i as int] != needle@[i as int]);
            return false;
        }
    }
    assert(s@.subrange(at as int, at + needle@.len()) =~= needle@);
    true
}

/// Whether `needle` stands somewhere in `s`.
pub fn contains(s: &str, needle: &str) -> (r: bool)
    ensures
        r == has_text(s@, needle@),
{
    let hay = chars_of(s);
    let pat = chars_of(needle);
    if hay.len() < pat.len() {
        return false;
    }
    let last: usize = hay.len() - pat.len();
    let mut at: usize = 0;
    while at <= last
        invariant
            hay@ == s@,
            pat@ == needle@,
            last == hay@.len() - pat@.len(),
            at <= last + 1,
            forall|k: int| 0 <= k < at ==> !occurs_at(s@, needle@, k),
        decreases last + 1 - at,
    {
        if matches_at(&hay, &pat, at) {
            return true;
        }
        if at == last {
            return false;
        }
        at += 1;
    }
    false
}

/// `s` begins with `prefix`.
pub open spec fn starts_with(s: Seq<char>, prefix: Seq<char>) -> bool {
    occurs_at(s, prefix, 0)
}

/// What follows `prefix` in `s`, or nothing where `s` does not begin with it.
pub fn strip_prefix(s: &[char], prefix: &[char]) -> (r: Option<Vec<char>>)
    ensures
        r is Some <==> starts_with(s@, prefix@),
        r matches Some(rest) ==> rest@ == s@.skip(prefix@.len() as int),
{
    if prefix.len() <= s.len() && matches_at(s, prefix, 0) {
        assert(s@.skip(prefix@.len() as int) =~= s@.subrange(
            prefix@.len() as int,
            s@.len() as int,
        ));
        Some(copy_chars(slice_subrange(s, prefix.len(), s.len())))
    } else {
        None
    }
}

/// The position of the first `c` in `s`, or the length of `s` where there is none.
pub open spec fn find_char(s: Seq<char>, c: char) -> int
    decreases s.len(),
{
    if s.len() == 0 || s[0] == c {
        0
    } else {
        1 + find_char(s.skip(1), c)
    }
}

/// [`find_char`] stays inside the text and stops at the first occurrence.
pub proof fn lemma_find_char(s: Seq<char>, c: char)
    ensures
        0 <= find_char(s, c) <= s.len(),
        forall|j: int| 0 <= j < find_char(s, c) ==> s[j] != c,
        find_char(s, c) < s.len() ==> s[find_char(s, c)] == c,
    decreases s.len(),
{
    if s.len() == 0 || s[0] == c {
    } else {
        lemma_find_char(s.skip(1), c);
        assert forall|j: int| 0 <= j < find_char(s, c) implies s[j] != c by {
            if j > 0 {
                assert(s[j] == s.skip(1)[j - 1]);
            }
        }
    }
}

/// Finds the first `c` in `s`.
pub fn position_of(s: &[char], c: char) -> (r: usize)
    ensures
        r == find_char(s@, c),
        r <= s@.len(),
{
    let mut at: usize = 0;
    assert(s@.skip(0) =~= s@);
    while at < s.len() && s[at] != c
        invariant
            at <= s@.len(),
            find_char(s@, c) == at + find_char(s@.skip(at as int), c),
        decreases s@.len() - at,
    {
        assert(s@.skip(at as int).skip(1) =~= s@.skip(at + 1));
        at += 1;
    }
    proof {
        lemma_find_char(s@.skip(at as int), c);
    }
    at
}

/// The part of `s` before its first `c`, all of `s` where there is none.
pub open spec fn before_first(s: Seq<char>, c: char) -> Seq<char> {
    s.take(find_char(s, c))
}

/// The part of `s` after its last `c`, all of `s` where there is none.
pub open spec fn after_last(s: Seq<char>, c: char) -> Seq<char>
    decreases s.len(),
{
    if s.len() == 0 || s.last() == c {
        Seq::empty()
    } else {
        after_last(s.drop_last(), c).push(s.last())
    }
}

/// Returns the part of `s` after its last `c`.
pub fn tail_after(s: &[char], c: char) -> (r: Vec<char>)
    ensures
        r@ == after_last(s@, c),
{
    let mut start: usize = s.len();
    assert(s@.take(s@.len() as int) =~= s@);
    while 0 < start && s[start - 1] != c
        invariant
            start <= s@.len(),
            after_last(s@, c) =~= after_last(s@.take(start as int), c) + s@.subrange(
                start as int,
                s@.len() as int,
            ),
        decreases start,
    {
        assert(s@.take(start as int).drop_last() =~= s@.take(start - 1));
        start -= 1;
    }
    copy_chars(slice_subrange(s, start, s.len()))
}

/// The pieces of `s` between its separators `c`; a text without `c` is one piece.
pub open spec fn pieces(s: Seq<char>, c: char) -> Seq<Seq<char>>
    decreases s.len(),
{
    if s.len() == 0 {
        seq![Seq::empty()]
    } else {
        let before = pieces(s.drop_last(), c);
        if s.last() == c {
            before.push(Seq::empty())
        } else {
            before.drop_last().push(before.last().push(s.last()))
        }
    }
}

/// There is always at least one piece.
pub proof fn lemma_pieces_nonempty(s: Seq<char>, c: char)
    ensures
        pieces(s, c).len() > 0,
    decreases s.len(),
{
    if s.len() > 0 {
        lemma_pieces_nonempty(s.drop_last(), c);
    }
}

/// The views of a list of texts.
pub open spec fn texts(v: Seq<String>) -> Seq<Seq<char>> {
    v.map_values(|s: String| s@)
}

/// The view of a text that may be missing.
pub open spec fn text_of(s: Option<String>) -> Option<Seq<char>> {
    match s {
        Some(text) => Some(text@),
        None => None,
    }
}

/// A copy of a text that may be missing.
pub fn copy_option(s: &Option<String>) -> (r: Option<String>)
    ensures
        text_of(r) == text_of(*s),
{
    match s {
        Some(text) => Some(text.as_str().to_owned()),
        None => None,
    }
}

/// Whether a text is there and holds the same characters as another one.
pub fn is_text(s: &Option<String>, other: &str) -> (r: bool)
    ensures
        r == (text_of(*s) == Some(other@)),
{
    match s {
        Some(text) => same(text, other),
        None => false,
    }
}

/// Appends a text to a list of texts.
pub fn push_text(list: &mut Vec<String>, text: &str)
    ensures
        texts(final(list)@) == texts(old(list)@).push(text@),
{
    list.push(text.to_owned());
    assert(texts(list@) =~= texts(old(list)@).push(text@));
}

/// Splits a text at every `c`.
pub fn split(s: &str, c: char) -> (r: Vec<String>)
    ensures
        texts(r@) == pieces(s@, c),
{
    let chars = chars_of(s);
    let mut out: Vec<String> = Vec::new();
    let mut piece = String::new();
    for i in 0..chars.len()
        invariant
            chars@ == s@,
            texts(out@).push(piece@) =~= pieces(s@.take(i as int), c),
    {
        assert(s@.take(i + 1).drop_last() =~= s@.take(i as int));
        let ghost before = pieces(s@.take(i as int), c);
        assert(before.drop_last() =~= texts(out@));
        assert(before.last() == piece@);
        if chars[i] == c {
            let ghost done = out@;
            out.push(piece);
            assert(texts(out@) =~= texts(done).push(piece@));
            piece = String::new();
        } else {
            piece.push(chars[i]);
        }
    }
    assert(s@.take(s@.len() as int) =~= s@);
    let ghost done = out@;
    out.push(piece);
    assert(texts(out@) =~= texts(done).push(piece@));
    out
}

/// The first line of `s`, without its line ending; nothing where `s` is empty.
pub open spec fn first_line(s: Seq<char>) -> Option<Seq<char>> {
    if s.len() == 0 {
        None
    } else {
        let line = before_first(s, '\n');
        if line.len() < s.len() && line.len() > 0 && line.last() == '\r' {
            Some(line.drop_last())
        } else {
            Some(line)
        }
    }
}

/// Returns the first line of `s`.
pub fn head_line(s: &[char]) -> (r: Option<Vec<char>>)
    ensures
        r is Some <==> first_line(s@) is Some,
        r matches Some(line) ==> first_line(s@) == Some(line@),
{
    if s.len() == 0 {
        return None;
    }
    let at = position_of(s, '\n');
    if at < s.len() && at > 0 && s[at - 1] == '\r' {
        assert(before_first(s@, '\n').drop_last() =~= s@.subrange(0, at - 1));
        Some(copy_chars(slice_subrange(s, 0, at - 1)))
    } else {
        assert(before_first(s@, '\n') =~= s@.subrange(0, at as int));
        Some(copy_chars(slice_subrange(s, 0, at)))
    }
}

/// `c` with an ASCII capital letter made small.
pub open spec fn lower(c: char) -> char {
    if 'A' <= c <= 'Z' {
        ((c as u32 + 32) as u32) as char
    } else {
        c
    }
}

/// Two texts agree but for the case of ASCII letters.
pub open spec fn equal_ignoring_case(a: Seq<char>, b: Seq<char>) -> bool {
    a.map_values(|c: char| lower(c)) == b.map_values(|c: char| lower(c))
}

fn to_lower(c: char) -> (r: char)
    ensures
        r == lower(c),
{
    if 'A' <= c && c <= 'Z' {
        ((c as u8) + 32) as char
    } else {
        c
    }
}

/// Compares two texts without regard to the case of ASCII letters.
pub fn eq_ignore_ascii_case(a: &str, b: &str) -> (r: bool)
    ensures
        r == equal_ignoring_case(a@, b@),
{
    let x = chars_of(a);
    let y = chars_of(b);
    let ghost la = a@.map_values(|c: char| lower(c));
    let ghost lb = b@.map_values(|c: char| lower(c));
    if x.len() != y.len() {
        assert(la.len() != lb.len());
        return false;
    }
    for i in 0..x.len()
        invariant
            x@ == a@,
            y@ == b@,
            x@.len() == y@.len(),
            la == a@.map_values(|c: char| lower(c)),
            lb == b@.map_values(|c: char| lower(c)),
            forall|j: int| 0 <= j < i ==> lower(a@[j]) == lower(b@[j]),
    {
        if to_lower(x[i]) != to_lower(y[i]) {
            assert(la[i as int] != lb[i as int]);
            return false;
        }
    }
    assert(la =~= lb);
    true
}

/// A text between two others can be told from the whole.
pub proof fn middle_is_told(front: Seq<char>, a: Seq<char>, b: Seq<char>, rest: Seq<char>)
    requires
        front + a + rest == front + b + rest,
    ensures
        a == b,
{
    let x = front + a + rest;
    let y = front + b + rest;
    assert(x.len() == y.len());
    assert(a =~= x.subrange(front.len() as int, (front.len() + a.len()) as int));
    assert(b =~= y.subrange(front.len() as int, (front.len() + b.len()) as int));
}

/// Texts that agree but for the case of letters do so in both directions and have one length. A
/// capital letter agrees with its small one.
pub proof fn case_does_not_matter(a: Seq<char>, b: Seq<char>, k: int)
    ensures
        equal_ignoring_case(a, a),
        equal_ignoring_case(a, b) ==> equal_ignoring_case(b, a) && a.len() == b.len(),
        0 <= k < a.len() && 'a' <= a[k] <= 'z' ==> equal_ignoring_case(
            a.update(k, ((a[k] as u32 - 32) as u32) as char),
            a,
        ),
        equal_ignoring_case(a, b) && 0 <= k < a.len() && a[k] != b[k] ==> {
            ||| a[k] as u32 + 32 == b[k] as u32 && 'A' <= a[k] <= 'Z'
            ||| b[k] as u32 + 32 == a[k] as u32 && 'A' <= b[k] <= 'Z'
        },
{
    let f = |c: char| lower(c);
    if equal_ignoring_case(a, b) {
        assert(a.map_values(f).len() == b.map_values(f).len());
        if 0 <= k < a.len() {
            assert(a.map_values(f)[k] == lower(a[k]));
            assert(b.map_values(f)[k] == lower(b[k]));
        }
    }
    if 0 <= k < a.len() && 'a' <= a[k] <= 'z' {
        let big = a.update(k, ((a[k] as u32 - 32) as u32) as char);
        assert(big.map_values(f) =~= a.map_values(f));
    }
}

/// The first line is what stands in front of the first line feed, without a carriage return at its
/// end, and all of a text that has none.
pub proof fn first_line_ends_at_the_line_feed(line: Seq<char>, rest: Seq<char>)
    requires
        line.len() > 0,
        !line.contains('\n'),
        line.last() != '\r',
    ensures
        first_line(line + seq!['\n'] + rest) == Some(line),
        first_line(line.push('\r') + seq!['\n'] + rest) == Some(line),
        first_line(line) == Some(line),
{
    lemma_first_line(line, rest);
    let longer = line.push('\r');
    if longer.contains('\n') {
        let k = choose|k: int| 0 <= k < longer.len() && longer[k] == '\n';
        assert(line[k] == '\n');
    }
    lemma_first_line(longer, rest);
    assert(longer.drop_last() =~= line);
    lemma_find_char(line, '\n');
    if find_char(line, '\n') < line.len() {
        assert(line.contains(line[find_char(line, '\n')]));
    }
    assert(line.take(line.len() as int) =~= line);
}

proof fn lemma_first_line(line: Seq<char>, rest: Seq<char>)
    requires
        line.len() > 0,
        !line.contains('\n'),
    ensures
        first_line(line + seq!['\n'] + rest) == Some(
            if line.last() == '\r' {
                line.drop_last()
            } else {
                line
            },
        ),
{
    let text = line + seq!['\n'] + rest;
    lemma_find_char(text, '\n');
    let f = find_char(text, '\n');
    assert(text[line.len() as int] == '\n');
    if f < line.len() {
        assert(text[f] == line[f]);
        assert(line.contains(line[f]));
    }
    assert(text.take(f) =~= line);
}

/// Words stay as they are, and it does not matter how much white space, and of what kind, stands
/// between them.
pub proof fn white_space_between_words_is_alike(a: Seq<char>, gap: Seq<char>, b: Seq<char>)
    requires
        gap.len() > 0,
        forall|k: int| 0 <= k < gap.len() ==> is_whitespace(#[trigger] gap[k]),
    ensures
        squeezed(a + gap + b) == squeezed(a + seq![' '] + b),
    decreases b.len(),
{
    let x = a + gap + b;
    let y = a + seq![' '] + b;
    if b.len() > 0 {
        let front = b.drop_last();
        white_space_between_words_is_alike(a, gap, front);
        assert(x.drop_last() =~= a + gap + front);
        assert(y.drop_last() =~= a + seq![' '] + front);
        if front.len() > 0 {
            assert(x.drop_last().last() == y.drop_last().last());
        } else {
            assert(x.drop_last().last() == gap[gap.len() - 1]);
        }
    } else {
        lemma_trailing_space(a, gap);
        lemma_trailing_space(a, seq![' ']);
        assert(x =~= a + gap);
        assert(y =~= a + seq![' ']);
    }
}

proof fn lemma_trailing_space(a: Seq<char>, gap: Seq<char>)
    requires
        forall|k: int| 0 <= k < gap.len() ==> is_whitespace(#[trigger] gap[k]),
    ensures
        squeezed(a + gap) == squeezed(a),
    decreases gap.len(),
{
    if gap.len() > 0 {
        lemma_trailing_space(a, gap.drop_last());
        assert((a + gap).drop_last() =~= a + gap.drop_last());
        assert((a + gap).last() == gap[gap.len() - 1]);
    } else {
        assert(a + gap =~= a);
    }
}

/// A single word stays as it is.
pub proof fn words_stay(word: Seq<char>)
    requires
        forall|k: int| 0 <= k < word.len() ==> !is_whitespace(#[trigger] word[k]),
    ensures
        squeezed(word) == word,
    decreases word.len(),
{
    if word.len() > 0 {
        words_stay(word.drop_last());
        assert(word.drop_last().push(word.last()) =~= word);
        if word.len() > 1 {
            assert(!is_whitespace(word[word.len() - 2]));
        }
    }
}

/// The pieces of two texts with the separator between them are the pieces of the first and then those
/// of the second.
pub proof fn pieces_follow_each_other(a: Seq<char>, b: Seq<char>, c: char)
    ensures
        pieces(a.push(c) + b, c) == pieces(a, c) + pieces(b, c),
    decreases b.len(),
{
    let all = a.push(c) + b;
    if b.len() == 0 {
        assert(all =~= a.push(c));
        assert(a.push(c).drop_last() =~= a);
        assert(pieces(a, c).push(Seq::empty()) =~= pieces(a, c) + pieces(b, c));
    } else {
        let front = b.drop_last();
        pieces_follow_each_other(a, front, c);
        lemma_pieces_nonempty(front, c);
        assert(all.drop_last() =~= a.push(c) + front);
        assert(all.last() == b.last());
        let before = pieces(a, c) + pieces(front, c);
        assert(before.last() == pieces(front, c).last());
        assert(pieces(all, c) =~= pieces(a, c) + pieces(b, c));
    }
}

/// A text without the separator is one piece.
pub proof fn text_without_separator_is_one_piece(s: Seq<char>, c: char)
    requires
        !s.contains(c),
    ensures
        pieces(s, c) == seq![s],
    decreases s.len(),
{
    if s.len() > 0 {
        let front = s.drop_last();
        if front.contains(c) {
            let k = choose|k: int| 0 <= k < front.len() && front[k] == c;
            assert(s[k] == c);
        }
        text_without_separator_is_one_piece(front, c);
        assert(s.contains(s[s.len() - 1]));
        assert(front.push(s.last()) =~= s);
        assert(pieces(s, c) =~= seq![s]);
    } else {
        assert(s =~= Seq::<char>::empty());
    }
}

}
