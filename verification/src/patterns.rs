//! Regular expressions and what they find.
use crate::numbers::{all_digits, is_digit};
use crate::text::{chars_of, string_of, trimmed_end};
use vstd::prelude::*;
use vstd::slice::slice_subrange;

verus! {

/// The season and the episode in a file name, such as `S03E12`.
pub const EPISODE: &'static str = "[Ss](\\d{1,2})[Ee](\\d{1,2})";

/// A title that ends in a year in brackets.
pub const TITLE_WITH_YEAR: &'static str = "^(.+?)\\s*\\((\\d{4})\\)\\s*$";

/// The number of bytes that a character takes in UTF-8.
pub open spec fn char_bytes(c: char) -> nat {
    if (c as u32) < 0x80 {
        1
    } else if (c as u32) < 0x800 {
        2
    } else if (c as u32) < 0x1_0000 {
        3
    } else {
        4
    }
}

/// The number of bytes that a text takes in UTF-8.
pub open spec fn byte_len(s: Seq<char>) -> nat
    decreases s.len(),
{
    if s.len() == 0 {
        0
    } else {
        byte_len(s.drop_last()) + char_bytes(s.last())
    }
}

/// A longer beginning of a text takes more bytes.
proof fn lemma_byte_len_grows(s: Seq<char>, j: int, k: int)
    requires
        0 <= j < k <= s.len(),
    ensures
        byte_len(s.take(j)) < byte_len(s.take(k)),
    decreases k,
{
    assert(s.take(k).drop_last() =~= s.take(k - 1));
    if j < k - 1 {
        lemma_byte_len_grows(s, j, k - 1);
    }
}

/// The part of a text that a group of a regular expression matched: where it begins and where it
/// ends, in bytes.
#[derive(Debug, Clone, Copy, PartialEq, Eq, Structural)]
pub struct Span {
    pub start: usize,
    pub end: usize,
}

/// What a regular expression with two groups matched.
#[derive(Debug, Clone, Copy, PartialEq, Eq, Structural)]
pub struct Groups {
    pub whole: Option<Span>,
    pub first: Option<Span>,
    pub second: Option<Span>,
}

/// The group matched the characters of `text` from `from` up to `to`.
pub open spec fn is_span(span: Option<Span>, text: Seq<char>, from: int, to: int) -> bool {
    &&& span matches Some(s)
    &&& s.start == byte_len(text.take(from))
    &&& s.end == byte_len(text.take(to))
}

/// The number of digits from position `i` on, two at most.
pub open spec fn digits_at(text: Seq<char>, i: int) -> int {
    if 0 <= i < text.len() && is_digit(text[i]) {
        if i + 1 < text.len() && is_digit(text[i + 1]) {
            2
        } else {
            1
        }
    } else {
        0
    }
}

/// Where the letter before the episode stands in a mark that begins at `i`.
pub open spec fn episode_letter(text: Seq<char>, i: int) -> int {
    i + 1 + digits_at(text, i + 1)
}

/// Where a mark that begins at `i` ends.
pub open spec fn mark_end(text: Seq<char>, i: int) -> int {
    episode_letter(text, i) + 1 + digits_at(text, episode_letter(text, i) + 1)
}

/// A season and an episode are written from position `i` on.
pub open spec fn is_mark(text: Seq<char>, i: int) -> bool {
    let e = episode_letter(text, i);
    &&& 0 <= i < text.len()
    &&& (text[i] == 'S' || text[i] == 's')
    &&& digits_at(text, i + 1) > 0
    &&& e < text.len()
    &&& (text[e] == 'E' || text[e] == 'e')
    &&& digits_at(text, e + 1) > 0
}

/// The first place from `i` on where a season and an episode are written.
pub open spec fn first_mark(text: Seq<char>, i: int) -> Option<int>
    decreases text.len() - i,
{
    if i >= text.len() {
        None
    } else if is_mark(text, i) {
        Some(i)
    } else {
        first_mark(text, i + 1)
    }
}

/// The first mark is a mark, and there is none before it; without one there is none at all.
pub proof fn first_mark_is_the_first(text: Seq<char>, i: int, j: int)
    requires
        0 <= i <= j,
    ensures
        match first_mark(text, i) {
            Some(m) => i <= m && is_mark(text, m) && (j < m ==> !is_mark(text, j)),
            None => !is_mark(text, j),
        },
    decreases text.len() - i,
{
    if i < text.len() && !is_mark(text, i) {
        if i < j {
            first_mark_is_the_first(text, i + 1, j);
        } else {
            first_mark_is_the_first(text, i + 1, i + 1);
        }
    }
}

/// A mark stays one where a text stands in front of it.
pub proof fn marks_move_with_the_text(front: Seq<char>, text: Seq<char>, i: int)
    requires
        0 <= i,
    ensures
        is_mark(front + text, front.len() + i) == is_mark(text, i),
        episode_letter(front + text, front.len() + i) == front.len() + episode_letter(text, i),
        mark_end(front + text, front.len() + i) == front.len() + mark_end(text, i),
{
    let whole = front + text;
    assert forall|j: int| 0 <= j implies #[trigger] digits_at(whole, front.len() + j) == digits_at(
        text,
        j,
    ) by {
        if j < text.len() {
            assert(whole[front.len() + j] == text[j]);
        }
        if j + 1 < text.len() {
            assert(whole[front.len() + j + 1] == text[j + 1]);
        }
    }
    assert(digits_at(whole, front.len() + (i + 1)) == digits_at(text, i + 1));
    let e = episode_letter(text, i);
    assert(digits_at(whole, front.len() + (e + 1)) == digits_at(text, e + 1));
    if i < text.len() {
        assert(whole[front.len() + i] == text[i]);
    }
    if e < text.len() {
        assert(whole[front.len() + e] == text[e]);
    }
}

/// Text behind a mark that neither goes on with a digit nor with the letter of the episode makes no
/// mark of what stands in front.
pub proof fn marks_end_in_front(front: Seq<char>, text: Seq<char>, i: int)
    requires
        0 <= i < front.len(),
        text.len() > 0,
        !is_digit(text[0]),
        text[0] != 'E' && text[0] != 'e',
    ensures
        is_mark(front + text, i) == is_mark(front, i),
{
    let whole = front + text;
    assert forall|j: int| 0 <= j <= front.len() implies #[trigger] digits_at(whole, j) == digits_at(
        front,
        j,
    ) by {
        assert(whole[front.len() as int] == text[0]);
        if j < front.len() {
            assert(whole[j] == front[j]);
        }
        if j + 1 < front.len() {
            assert(whole[j + 1] == front[j + 1]);
        }
    }
    assert(digits_at(whole, i + 1) == digits_at(front, i + 1));
    let e = episode_letter(front, i);
    assert(whole[i] == front[i]);
    assert(whole[front.len() as int] == text[0]);
    if e < front.len() {
        assert(whole[e] == front[e]);
        assert(digits_at(whole, e + 1) == digits_at(front, e + 1));
    }
}

/// The groups of a mark that begins at `i`: the digits of the season and those of the episode.
pub open spec fn are_mark_groups(groups: Groups, text: Seq<char>, i: int) -> bool {
    &&& is_span(groups.whole, text, i, mark_end(text, i))
    &&& is_span(groups.first, text, i + 1, episode_letter(text, i))
    &&& is_span(groups.second, text, episode_letter(text, i) + 1, mark_end(text, i))
}

/// ASCII white space.
pub open spec fn is_space(c: char) -> bool {
    c == ' ' || 0x9 <= c as u32 <= 0xd
}

/// The predicate of [`is_space`] as a function value.
pub open spec fn spaces() -> spec_fn(char) -> bool {
    |c: char| is_space(c)
}

/// Where the bracket before the year stands.
pub open spec fn year_bracket(text: Seq<char>) -> int {
    trimmed_end(text, spaces()).len() - 6
}

/// Where a title before a year ends: behind its last character that is not white space, and not
/// before its first character.
pub open spec fn title_end(text: Seq<char>) -> int {
    let title = trimmed_end(text.take(year_bracket(text)), spaces());
    if title.len() > 0 {
        title.len() as int
    } else {
        1
    }
}

/// The text is a title on one line, then white space, then four digits in brackets, then white
/// space.
pub open spec fn has_year(text: Seq<char>) -> bool {
    let b = year_bracket(text);
    &&& b > 0
    &&& text[b] == '('
    &&& all_digits(text.subrange(b + 1, b + 5))
    &&& text[b + 5] == ')'
    &&& !text.take(title_end(text)).contains('\n')
}

/// The groups of a title with a year: the title and the digits of the year.
pub open spec fn are_title_groups(groups: Groups, text: Seq<char>) -> bool {
    &&& is_span(groups.whole, text, 0, text.len() as int)
    &&& is_span(groups.first, text, 0, title_end(text))
    &&& is_span(groups.second, text, year_bracket(text) + 1, year_bracket(text) + 5)
}

/// An error of `regex_lite`.
#[verifier::external_type_specification]
#[verifier::external_body]
pub struct ExRegexError(regex_lite::Error);

/// `regex_lite::Regex::new` compiles a pattern, and `Regex::captures` gives the leftmost match and
/// its groups, as offsets in bytes. In `regex_lite` the classes `\d` and `\s` hold ASCII characters
/// only, `.` does not match a line feed, `^` and `$` match at the two ends of the text, `{1,2}` and
/// `*` take as much as they can and `+?` as little as it can. So the first pattern finds the first
/// mark of an episode, with up to two digits in each group, and the second one finds a title and
/// its year. Both patterns compile.
#[verifier::external_body]
fn captures(pattern: &str, text: &str) -> (r: Result<Option<Groups>, regex_lite::Error>)
    requires
        pattern@ == EPISODE@ || pattern@ == TITLE_WITH_YEAR@,
    ensures
        r is Ok,
        pattern@ == EPISODE@ ==> match r->Ok_0 {
            Some(groups) => first_mark(text@, 0) matches Some(i) && are_mark_groups(
                groups,
                text@,
                i,
            ),
            None => first_mark(text@, 0) is None,
        },
        pattern@ == TITLE_WITH_YEAR@ ==> match r->Ok_0 {
            Some(groups) => has_year(text@) && are_title_groups(groups, text@),
            None => !has_year(text@),
        },
{
    let regex = regex_lite::Regex::new(pattern)?;
    Ok(regex.captures(text).map(|found| Groups {
        whole: found.get(0).map(|m| Span { start: m.start(), end: m.end() }),
        first: found.get(1).map(|m| Span { start: m.start(), end: m.end() }),
        second: found.get(2).map(|m| Span { start: m.start(), end: m.end() }),
    }))
}

/// Finds the first season and episode in a text.
pub fn find_episode(text: &str) -> (r: Option<Groups>)
    ensures
        match r {
            Some(groups) => first_mark(text@, 0) matches Some(i) && are_mark_groups(
                groups,
                text@,
                i,
            ),
            None => first_mark(text@, 0) is None,
        },
{
    match captures(EPISODE, text) {
        Ok(found) => found,
        Err(_) => None,
    }
}

/// Finds the title and the year in a text.
pub fn find_title_with_year(text: &str) -> (r: Option<Groups>)
    ensures
        match r {
            Some(groups) => has_year(text@) && are_title_groups(groups, text@),
            None => !has_year(text@),
        },
{
    match captures(TITLE_WITH_YEAR, text) {
        Ok(found) => found,
        Err(_) => None,
    }
}

fn bytes_of(c: char) -> (r: usize)
    ensures
        r == char_bytes(c),
{
    let n: u32 = c as u32;
    if n < 0x80 {
        1
    } else if n < 0x800 {
        2
    } else if n < 0x1_0000 {
        3
    } else {
        4
    }
}

/// The number of characters in the first `bytes` bytes of a text; nothing where that is no
/// boundary between two characters.
pub fn characters_in(text: &[char], bytes: usize) -> (r: Option<usize>)
    ensures
        match r {
            Some(k) => k <= text@.len() && byte_len(text@.take(k as int)) == bytes,
            None => forall|k: int|
                0 <= k <= text@.len() ==> byte_len(#[trigger] text@.take(k)) != bytes,
        },
{
    let mut total: usize = 0;
    let mut k: usize = 0;
    while k < text.len() && total < bytes
        invariant
            k <= text@.len(),
            total <= bytes,
            total == byte_len(text@.take(k as int)),
        decreases text@.len() - k,
    {
        assert(text@.take(k + 1).drop_last() =~= text@.take(k as int));
        let step = bytes_of(text[k]);
        if step > bytes - total {
            proof {
                assert forall|j: int| 0 <= j <= text@.len() implies byte_len(
                    #[trigger] text@.take(j),
                ) != bytes by {
                    if j < k {
                        lemma_byte_len_grows(text@, j, k as int);
                    } else if j > k + 1 {
                        lemma_byte_len_grows(text@, k + 1, j);
                    }
                }
            }
            return None;
        }
        total = total + step;
        k = k + 1;
    }
    if total == bytes {
        Some(k)
    } else {
        proof {
            assert forall|j: int| 0 <= j <= text@.len() implies byte_len(
                #[trigger] text@.take(j),
            ) != bytes by {
                if j < k {
                    lemma_byte_len_grows(text@, j, k as int);
                }
            }
        }
        None
    }
}

/// A number of bytes stands for one number of characters only.
proof fn lemma_same_boundary(text: Seq<char>, j: int, k: int)
    requires
        0 <= j <= text.len(),
        0 <= k <= text.len(),
        byte_len(text.take(j)) == byte_len(text.take(k)),
    ensures
        j == k,
{
    if j < k {
        lemma_byte_len_grows(text, j, k);
    } else if k < j {
        lemma_byte_len_grows(text, k, j);
    }
}

/// The characters of a text that a span covers.
pub open spec fn covered(span: Option<Span>, text: Seq<char>) -> Option<Seq<char>> {
    if exists|from: int, to: int|
        0 <= from <= to <= text.len() && #[trigger] is_span(span, text, from, to) {
        let (from, to) = choose|from: int, to: int|
            0 <= from <= to <= text.len() && #[trigger] is_span(span, text, from, to);
        Some(text.subrange(from, to))
    } else {
        None
    }
}

/// A span covers the characters that it was made of.
pub proof fn span_covers(span: Option<Span>, text: Seq<char>, from: int, to: int)
    requires
        0 <= from <= to <= text.len(),
        is_span(span, text, from, to),
    ensures
        covered(span, text) == Some(text.subrange(from, to)),
{
    let (f, t) = choose|f: int, t: int|
        0 <= f <= t <= text.len() && #[trigger] is_span(span, text, f, t);
    lemma_same_boundary(text, f, from);
    lemma_same_boundary(text, t, to);
}

/// The part of a text that a span covers.
pub fn part_of(text: &str, span: Option<Span>) -> (r: Option<String>)
    ensures
        match r {
            Some(part) => covered(span, text@) == Some(part@),
            None => covered(span, text@) is None,
        },
{
    let s = match span {
        Some(s) => s,
        None => {
            return None;
        },
    };
    let chars = chars_of(text);
    let from = match characters_in(&chars, s.start) {
        Some(k) => k,
        None => {
            return None;
        },
    };
    let to = match characters_in(&chars, s.end) {
        Some(k) => k,
        None => {
            return None;
        },
    };
    if from <= to {
        proof {
            span_covers(span, text@, from as int, to as int);
        }
        Some(string_of(slice_subrange(&chars, from, to)))
    } else {
        proof {
            assert forall|f: int, t: int| 0 <= f <= t <= text@.len() implies !(
            #[trigger] is_span(span, text@, f, t)) by {
                if is_span(span, text@, f, t) {
                    lemma_same_boundary(text@, f, from as int);
                    lemma_same_boundary(text@, t, to as int);
                }
            }
        }
        None
    }
}

}
