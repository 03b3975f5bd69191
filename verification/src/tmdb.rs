//! The search for titles in the movie database TMDB.
use crate::numbers::{
    decimal, decimal_text, decimals_are_digits, i32_value, int_value, parse_i32,
    written_numbers_read_back,
};
use crate::patterns::{
    find_title_with_year, has_year, is_space, part_of, spaces, span_covers, title_end, year_bracket,
};
use crate::text::{
    before_first, chars_of, is_whitespace, position_of, same, string_of, text_of, trim, trimmed,
    trimming_stops_at_the_rest,
};
use vstd::prelude::*;
use vstd::slice::slice_subrange;

verus! {

/// What the search found.
#[derive(Debug, Clone)]
pub struct TmdbResult {
    pub id: i32,
    pub media_type: String,
    pub title: String,
    pub year: Option<i32>,
}

/// A title and the year that was written behind it.
#[derive(Debug, Clone, PartialEq, Eq, Hash)]
pub struct ParsedTitle {
    pub clean_title: String,
    pub year: Option<i32>,
}

/// The title without the year behind it and without white space around it.
pub open spec fn clean_title(claimed: Seq<char>) -> Seq<char> {
    if has_year(claimed) {
        trimmed(claimed.take(title_end(claimed)))
    } else {
        trimmed(claimed)
    }
}

/// The year that is written in brackets behind the title.
pub open spec fn claimed_year(claimed: Seq<char>) -> Option<i32> {
    if has_year(claimed) {
        i32_value(claimed.subrange(year_bracket(claimed) + 1, year_bracket(claimed) + 5))
    } else {
        None
    }
}

/// A year has four digits.
pub proof fn year_is_read(claimed: Seq<char>)
    ensures
        claimed_year(claimed) is Some <==> has_year(claimed),
        claimed_year(claimed) matches Some(year) ==> 0 <= year <= 9999,
{
    if has_year(claimed) {
        lemma_bracket_inside(claimed);
        let s = claimed.subrange(year_bracket(claimed) + 1, year_bracket(claimed) + 5);
        lemma_four_digits(s);
    }
}

proof fn lemma_four_digits(s: Seq<char>)
    requires
        s.len() == 4,
        crate::numbers::all_digits(s),
    ensures
        i32_value(s) matches Some(year) && 0 <= year <= 9999,
{
    reveal_with_fuel(crate::numbers::digits_value, 5);
    assert(crate::numbers::is_digit(s[0]));
    assert(crate::numbers::is_digit(s[1]));
    assert(crate::numbers::is_digit(s[2]));
    assert(crate::numbers::is_digit(s[3]));
}

proof fn lemma_trimmed_end_is_shorter(s: Seq<char>, p: spec_fn(char) -> bool)
    ensures
        crate::text::trimmed_end(s, p).len() <= s.len(),
    decreases s.len(),
{
    if s.len() > 0 && p(s.last()) {
        lemma_trimmed_end_is_shorter(s.drop_last(), p);
    }
}

proof fn lemma_bracket_inside(claimed: Seq<char>)
    requires
        year_bracket(claimed) > 0,
    ensures
        year_bracket(claimed) + 6 <= claimed.len(),
        0 < title_end(claimed) <= year_bracket(claimed),
{
    let p = crate::patterns::spaces();
    lemma_trimmed_end_is_shorter(claimed, p);
    lemma_trimmed_end_is_shorter(claimed.take(year_bracket(claimed)), p);
}

/// Takes the year off a claimed title.
pub fn parse_title(claimed_title: &str) -> (r: ParsedTitle)
    ensures
        r.clean_title@ == clean_title(claimed_title@),
        r.year == claimed_year(claimed_title@),
{
    let ghost text = claimed_title@;
    if let Some(groups) = find_title_with_year(claimed_title) {
        proof {
            lemma_bracket_inside(text);
            span_covers(groups.first, text, 0, title_end(text));
            span_covers(groups.second, text, year_bracket(text) + 1, year_bracket(text) + 5);
            assert(text.subrange(0, title_end(text)) =~= text.take(title_end(text)));
        }
        let first = part_of(claimed_title, groups.first);
        let second = part_of(claimed_title, groups.second);
        if let Some(title) = first {
            if let Some(digits) = second {
                return ParsedTitle {
                    clean_title: string_of(&trim(&chars_of(&title))),
                    year: parse_i32(&digits),
                };
            }
        }
    }
    ParsedTitle { clean_title: string_of(&trim(&chars_of(claimed_title))), year: None }
}

/// The answer to a search.
#[derive(Debug, Clone)]
pub struct SearchResponse {
    pub results: Vec<SearchResult>,
}

/// One hit of a search.
#[derive(Debug, Clone)]
pub struct SearchResult {
    pub id: i32,
    pub media_type: Option<String>,
    /// TV shows use "name", movies use "title".
    pub name: Option<String>,
    pub title: Option<String>,
    pub first_air_date: Option<String>,
    pub release_date: Option<String>,
}

impl SearchResult {
    /// The name or, without one, the title; empty without both.
    pub open spec fn shown_title(self) -> Seq<char> {
        match self.name {
            Some(name) => name@,
            None => match self.title {
                Some(title) => title@,
                None => Seq::empty(),
            },
        }
    }

    /// The date of the first broadcast or, without one, of the release.
    pub open spec fn date(self) -> Option<Seq<char>> {
        match self.first_air_date {
            Some(date) => Some(date@),
            None => text_of(self.release_date),
        }
    }

    /// The number in front of the first hyphen of the date.
    pub open spec fn year_of(self) -> Option<i32> {
        match self.date() {
            Some(date) => i32_value(before_first(date, '-')),
            None => None,
        }
    }

    /// The hit is a TV show.
    pub open spec fn is_tv(self) -> bool {
        text_of(self.media_type) == Some("tv"@)
    }

    /// The hit is a TV show or a movie.
    pub open spec fn is_relevant(self) -> bool {
        self.is_tv() || text_of(self.media_type) == Some("movie"@)
    }

    /// The name or, without one, the title.
    pub fn display_title(&self) -> (r: String)
        ensures
            r@ == self.shown_title(),
    {
        match &self.name {
            Some(name) => name.as_str().to_owned(),
            None => match &self.title {
                Some(title) => title.as_str().to_owned(),
                None => String::new(),
            },
        }
    }

    /// The year of the first broadcast or of the release.
    pub fn year(&self) -> (r: Option<i32>)
        ensures
            r == self.year_of(),
    {
        let date = match &self.first_air_date {
            Some(date) => date,
            None => match &self.release_date {
                Some(date) => date,
                None => {
                    return None;
                },
            },
        };
        let chars = chars_of(date);
        let at = position_of(&chars, '-');
        assert(before_first(chars@, '-') =~= chars@.subrange(0, at as int));
        parse_i32(&string_of(slice_subrange(&chars, 0, at)))
    }

    /// The kind of the hit.
    pub fn resolved_media_type(&self) -> (r: Option<&str>)
        ensures
            match r {
                Some(kind) => text_of(self.media_type) == Some(kind@),
                None => self.media_type is None,
            },
    {
        match &self.media_type {
            Some(kind) => Some(kind.as_str()),
            None => None,
        }
    }

    fn tv(&self) -> (r: bool)
        ensures
            r == self.is_tv(),
    {
        match self.resolved_media_type() {
            Some(kind) => same(kind, "tv"),
            None => false,
        }
    }

    fn relevant(&self) -> (r: bool)
        ensures
            r == self.is_relevant(),
    {
        match self.resolved_media_type() {
            Some(kind) => same(kind, "tv") || same(kind, "movie"),
            None => false,
        }
    }
}

/// The first of the first `n` hits that is a TV show or a movie.
pub open spec fn first_relevant(results: Seq<SearchResult>, n: int) -> Option<int>
    decreases n,
{
    if n <= 0 {
        None
    } else {
        match first_relevant(results, n - 1) {
            Some(i) => Some(i),
            None => if results[n - 1].is_relevant() {
                Some(n - 1)
            } else {
                None
            },
        }
    }
}

/// The first of the first `n` hits that is a TV show.
pub open spec fn first_tv(results: Seq<SearchResult>, n: int) -> Option<int>
    decreases n,
{
    if n <= 0 {
        None
    } else {
        match first_tv(results, n - 1) {
            Some(i) => Some(i),
            None => if results[n - 1].is_tv() {
                Some(n - 1)
            } else {
                None
            },
        }
    }
}

/// The hit that is taken: the first TV show where one is preferred and there is one, else the first
/// TV show or movie.
pub open spec fn best_hit(results: Seq<SearchResult>, prefer_tv: bool) -> Option<int> {
    let n = results.len() as int;
    if prefer_tv && first_tv(results, n) is Some {
        first_tv(results, n)
    } else {
        first_relevant(results, n)
    }
}

/// `result` tells of the hit `hit`.
pub open spec fn tells_of(result: TmdbResult, hit: SearchResult) -> bool {
    &&& result.id == hit.id
    &&& text_of(hit.media_type) == Some(result.media_type@)
    &&& result.title@ == hit.shown_title()
    &&& result.year == hit.year_of()
}

/// A TV show or a movie among the hits is found, and the one that is taken is one.
pub proof fn best_hit_is_relevant(results: Seq<SearchResult>, prefer_tv: bool, j: int)
    requires
        0 <= j < results.len(),
        results[j].is_relevant(),
    ensures
        best_hit(results, prefer_tv) matches Some(i) && {
            &&& 0 <= i < results.len()
            &&& results[i].is_relevant()
            &&& prefer_tv && results[j].is_tv() ==> results[i].is_tv() && i <= j
            &&& !prefer_tv ==> i <= j
        },
{
    lemma_first_relevant(results, results.len() as int, j);
    lemma_first_tv(results, results.len() as int, j);
}

/// Without a TV show or a movie nothing is taken.
pub proof fn nothing_relevant_nothing_taken(results: Seq<SearchResult>, prefer_tv: bool)
    requires
        forall|j: int| 0 <= j < results.len() ==> !(#[trigger] results[j]).is_relevant(),
    ensures
        best_hit(results, prefer_tv) is None,
{
    if results.len() > 0 {
        lemma_first_relevant(results, results.len() as int, 0);
        lemma_first_tv(results, results.len() as int, 0);
    }
}

proof fn lemma_first_relevant(results: Seq<SearchResult>, n: int, j: int)
    requires
        0 <= j < n <= results.len(),
    ensures
        match first_relevant(results, n) {
            Some(i) => 0 <= i < n && results[i].is_relevant() && (results[j].is_relevant() ==> i
                <= j),
            None => !results[j].is_relevant(),
        },
    decreases n,
{
    if j < n - 1 {
        lemma_first_relevant(results, n - 1, j);
    } else if n > 1 {
        lemma_first_relevant(results, n - 1, 0);
    }
}

proof fn lemma_first_tv(results: Seq<SearchResult>, n: int, j: int)
    requires
        0 <= j < n <= results.len(),
    ensures
        match first_tv(results, n) {
            Some(i) => 0 <= i < n && results[i].is_tv() && (results[j].is_tv() ==> i <= j),
            None => !results[j].is_tv(),
        },
    decreases n,
{
    if j < n - 1 {
        lemma_first_tv(results, n - 1, j);
    } else if n > 1 {
        lemma_first_tv(results, n - 1, 0);
    }
}

/// Takes the best of the hits: TV shows and movies only, and a TV show first where one is
/// preferred.
pub fn pick_best_result(results: &[SearchResult], prefer_tv: bool) -> (r: Option<TmdbResult>)
    ensures
        match best_hit(results@, prefer_tv) {
            Some(i) => r matches Some(result) && tells_of(result, results@[i]),
            None => r is None,
        },
{
    let mut relevant: Option<usize> = None;
    let mut show: Option<usize> = None;
    for i in 0..results.len()
        invariant
            match relevant {
                Some(k) => k < i && first_relevant(results@, i as int) == Some(k as int)
                    && results@[k as int].is_relevant(),
                None => first_relevant(results@, i as int) is None,
            },
            match show {
                Some(k) => k < i && first_tv(results@, i as int) == Some(k as int)
                    && results@[k as int].is_relevant(),
                None => first_tv(results@, i as int) is None,
            },
    {
        if relevant.is_none() && results[i].relevant() {
            relevant = Some(i);
        }
        if show.is_none() && results[i].tv() {
            show = Some(i);
        }
    }
    let chosen = if prefer_tv && show.is_some() {
        show
    } else {
        relevant
    };
    match chosen {
        Some(i) => {
            let media_type = match results[i].resolved_media_type() {
                Some(kind) => kind.to_owned(),
                None => "movie".to_owned(),
            };
            Some(
                TmdbResult {
                    id: results[i].id,
                    media_type,
                    title: results[i].display_title(),
                    year: results[i].year(),
                },
            )
        },
        None => None,
    }
}

/// The time from `earlier` to `now`, none where `earlier` lies in the future.
pub open spec fn elapsed(now: u64, earlier: u64) -> int {
    if earlier <= now {
        now - earlier
    } else {
        0
    }
}

/// The first `n` points in time that lie less than `window` before `now`.
pub open spec fn recent(times: Seq<u64>, now: u64, window: u64, n: int) -> Seq<u64>
    decreases n,
{
    if n <= 0 {
        Seq::empty()
    } else {
        let before = recent(times, now, window, n - 1);
        if elapsed(now, times[n - 1]) < window {
            before.push(times[n - 1])
        } else {
            before
        }
    }
}

/// Admits a limited number of requests in every window of time. Points in time and lengths of time
/// are in nanoseconds of a clock that does not go back.
#[derive(Debug, Clone)]
pub struct RateLimiter {
    pub timestamps: Vec<u64>,
    pub max_requests: usize,
    pub window: u64,
}

impl RateLimiter {
    /// The requests that are still in the window at `now`.
    pub open spec fn in_window(self, now: u64) -> Seq<u64> {
        recent(self.timestamps@, now, self.window, self.timestamps@.len() as int)
    }

    /// A limiter that has admitted nothing yet.
    pub fn new(max_requests: usize, window: u64) -> (r: Self)
        ensures
            r.timestamps@ == Seq::<u64>::empty(),
            r.max_requests == max_requests,
            r.window == window,
    {
        RateLimiter { timestamps: Vec::new(), max_requests, window }
    }

    /// Forgets the requests that have left the window.
    fn forget(&mut self, now: u64)
        ensures
            final(self).timestamps@ == old(self).in_window(now),
            final(self).max_requests == old(self).max_requests,
            final(self).window == old(self).window,
    {
        let mut kept: Vec<u64> = Vec::new();
        for i in 0..self.timestamps.len()
            invariant
                *self == *old(self),
                kept@ == recent(self.timestamps@, now, self.window, i as int),
        {
            let t: u64 = self.timestamps[i];
            let passed: u64 = if t <= now {
                now - t
            } else {
                0
            };
            if passed < self.window {
                kept.push(t);
            }
        }
        self.timestamps = kept;
    }

    /// Asks for a request at `now`. Where the window is full, gives the time to wait until its
    /// oldest request leaves it.
    pub fn acquire(&mut self, now: u64) -> (wait: Option<u64>)
        requires
            old(self).max_requests > 0,
        ensures
            final(self).timestamps@ == old(self).in_window(now),
            final(self).max_requests == old(self).max_requests,
            final(self).window == old(self).window,
            match wait {
                Some(w) => {
                    &&& final(self).timestamps@.len() >= final(self).max_requests
                    &&& w == final(self).window - elapsed(now, final(self).timestamps@[0])
                    &&& w > 0
                    &&& final(self).timestamps@[0] <= now ==> now + w == final(self).timestamps@[0]
                        + final(self).window
                },
                None => final(self).timestamps@.len() < final(self).max_requests,
            },
    {
        proof {
            lemma_recent_is_recent(
                self.timestamps@,
                now,
                self.window,
                self.timestamps@.len() as int,
            );
        }
        self.forget(now);
        if self.timestamps.len() >= self.max_requests {
            let oldest: u64 = self.timestamps[0];
            let passed: u64 = if oldest <= now {
                now - oldest
            } else {
                0
            };
            Some(self.window - passed)
        } else {
            None
        }
    }

    /// Goes on after the wait, at `now`.
    pub fn resume(&mut self, now: u64)
        ensures
            final(self).timestamps@ == old(self).in_window(now),
            final(self).max_requests == old(self).max_requests,
            final(self).window == old(self).window,
    {
        self.forget(now);
    }

    /// Notes that a request is made at `now`.
    pub fn record(&mut self, now: u64)
        ensures
            final(self).timestamps@ == old(self).timestamps@.push(now),
            final(self).max_requests == old(self).max_requests,
            final(self).window == old(self).window,
    {
        self.timestamps.push(now);
    }
}

proof fn lemma_recent_is_recent(times: Seq<u64>, now: u64, window: u64, n: int)
    requires
        0 <= n <= times.len(),
    ensures
        recent(times, now, window, n).len() <= n,
        forall|i: int|
            0 <= i < recent(times, now, window, n).len() ==> elapsed(
                now,
                #[trigger] recent(times, now, window, n)[i],
            ) < window,
    decreases n,
{
    if n > 0 {
        lemma_recent_is_recent(times, now, window, n - 1);
    }
}

/// A request that was let through: when it was asked for, when the wait was over, and when it was
/// noted. Without a wait the first two are the same.
pub struct Admission {
    pub asked: u64,
    pub woke: u64,
    pub noted: u64,
}

/// The requests in the window when a request has been asked for and, where it had to wait, has
/// waited.
pub open spec fn window_at(times: Seq<u64>, max_requests: int, window: u64, a: Admission) -> Seq<
    u64,
> {
    let first = recent(times, a.asked, window, times.len() as int);
    if first.len() >= max_requests {
        recent(first, a.woke, window, first.len() as int)
    } else {
        first
    }
}

/// The points in time that a new limiter holds after `n` requests.
pub open spec fn times_after(
    admissions: Seq<Admission>,
    max_requests: int,
    window: u64,
    n: int,
) -> Seq<u64>
    decreases n,
{
    if n <= 0 {
        Seq::empty()
    } else {
        let before = times_after(admissions, max_requests, window, n - 1);
        window_at(before, max_requests, window, admissions[n - 1]).push(admissions[n - 1].noted)
    }
}

/// The clock does not go back, and nobody wakes before the wait is over.
pub open spec fn are_orderly(
    admissions: Seq<Admission>,
    max_requests: int,
    window: u64,
) -> bool {
    &&& forall|i: int|
        0 <= i < admissions.len() ==> (#[trigger] admissions[i]).asked <= admissions[i].woke
            <= admissions[i].noted
    &&& forall|i: int, j: int|
        0 <= i < j < admissions.len() ==> (#[trigger] admissions[i]).noted <= (
        #[trigger] admissions[j]).asked
    &&& forall|i: int|
        0 <= i < admissions.len() ==> waits_long_enough(admissions, max_requests, window, i)
}

/// Request `i` wakes no earlier than the limiter told it to.
pub open spec fn waits_long_enough(
    admissions: Seq<Admission>,
    max_requests: int,
    window: u64,
    i: int,
) -> bool {
    let a = admissions[i];
    let times = times_after(admissions, max_requests, window, i);
    let first = recent(times, a.asked, window, times.len() as int);
    first.len() >= max_requests ==> a.woke >= a.asked + (window - elapsed(a.asked, first[0]))
}

/// What a limiter holds after `n` requests is the end of the list of all requests, and the others
/// have left the window.
pub open spec fn holds_the_end(
    times: Seq<u64>,
    admissions: Seq<Admission>,
    window: u64,
    n: int,
    now: u64,
) -> bool {
    &&& times.len() <= n
    &&& forall|k: int|
        0 <= k < times.len() ==> (#[trigger] times[k]) == admissions[n - times.len() + k].noted
    &&& forall|i: int|
        0 <= i < n - times.len() ==> now - (#[trigger] admissions[i]).noted >= window
}

/// Forgetting what has left the window leaves the end of the list.
proof fn lemma_recent_holds_the_end(
    times: Seq<u64>,
    admissions: Seq<Admission>,
    window: u64,
    n: int,
    before: u64,
    now: u64,
    m: int,
)
    requires
        0 <= n <= admissions.len(),
        0 <= m <= times.len(),
        holds_the_end(times, admissions, window, n, before),
        before <= now,
        forall|i: int| 0 <= i < n ==> (#[trigger] admissions[i]).noted <= now,
        forall|i: int, j: int|
            0 <= i < j < n ==> (#[trigger] admissions[i]).noted <= (
            #[trigger] admissions[j]).noted,
    ensures
        recent(times, now, window, m).len() <= m,
        holds_the_end(
            recent(times, now, window, m),
            admissions,
            window,
            n - times.len() + m,
            now,
        ),
    decreases m,
{
    if m > 0 {
        lemma_recent_holds_the_end(times, admissions, window, n, before, now, m - 1);
        let inner = recent(times, now, window, m - 1);
        let whole = recent(times, now, window, m);
        let end = n - times.len() + m;
        assert(times[m - 1] == admissions[end - 1].noted);
        if elapsed(now, times[m - 1]) < window {
            assert(end - whole.len() == (end - 1) - inner.len());
        } else {
            assert(inner.len() == 0) by {
                if inner.len() > 0 {
                    let k = 0int;
                    assert(0 <= k < inner.len());
                    let at = end - 1 - inner.len() + k;
                    assert(inner[k] == admissions[at].noted);
                    lemma_recent_is_recent(times, now, window, m - 1);
                    assert(elapsed(now, inner[k]) < window);
                    assert(admissions[at].noted <= admissions[end - 1].noted);
                }
            }
        }
    }
}

proof fn lemma_limiter(admissions: Seq<Admission>, max_requests: int, window: u64, n: int)
    requires
        max_requests > 0,
        are_orderly(admissions, max_requests, window),
        0 <= n <= admissions.len(),
    ensures
        n > 0 ==> {
            let before = times_after(admissions, max_requests, window, n - 1);
            let held = window_at(before, max_requests, window, admissions[n - 1]);
            &&& held.len() < max_requests
            &&& holds_the_end(held, admissions, window, n - 1, admissions[n - 1].woke)
        },
        times_after(admissions, max_requests, window, n).len() <= max_requests,
        n > 0 ==> holds_the_end(
            times_after(admissions, max_requests, window, n),
            admissions,
            window,
            n,
            admissions[n - 1].noted,
        ),
    decreases n,
{
    if n > 0 {
        lemma_limiter(admissions, max_requests, window, n - 1);
        let a = admissions[n - 1];
        let times = times_after(admissions, max_requests, window, n - 1);
        let first = recent(times, a.asked, window, times.len() as int);
        let earlier: u64 = if n > 1 {
            admissions[n - 2].noted
        } else {
            0
        };
        assert forall|i: int, j: int| 0 <= i < j < n - 1 implies (
        #[trigger] admissions[i]).noted <= (#[trigger] admissions[j]).noted by {}
        assert forall|i: int| 0 <= i < n - 1 implies (#[trigger] admissions[i]).noted
            <= a.asked by {}
        assert(holds_the_end(times, admissions, window, n - 1, earlier));
        lemma_recent_holds_the_end(
            times,
            admissions,
            window,
            n - 1,
            earlier,
            a.asked,
            times.len() as int,
        );
        let held = window_at(times, max_requests, window, a);
        if first.len() >= max_requests {
            lemma_recent_holds_the_end(
                first,
                admissions,
                window,
                n - 1,
                a.asked,
                a.woke,
                first.len() as int,
            );
            assert(waits_long_enough(admissions, max_requests, window, n - 1));
            lemma_recent_is_recent(times, a.asked, window, times.len() as int);
            assert(first[0] == admissions[n - 1 - first.len()].noted);
            lemma_recent_is_recent(first, a.woke, window, first.len() as int);
            assert(held.len() < first.len()) by {
                if held.len() == first.len() {
                    assert(held[0] == admissions[n - 1 - held.len()].noted);
                    assert(elapsed(a.woke, held[0]) < window);
                }
            }
        } else {
            assert forall|i: int| 0 <= i < n - 1 - held.len() implies a.woke - (
            #[trigger] admissions[i]).noted >= window by {}
        }
        let after = held.push(a.noted);
        assert(times_after(admissions, max_requests, window, n) == after);
        assert forall|k: int| 0 <= k < after.len() implies (#[trigger] after[k])
            == admissions[n - after.len() + k].noted by {
            if k < held.len() {
                assert(held[k] == admissions[n - 1 - held.len() + k].noted);
            }
        }
        assert forall|i: int| 0 <= i < n - after.len() implies a.noted - (
        #[trigger] admissions[i]).noted >= window by {}
    }
}

/// No window of time sees more requests than the limiter admits: between a request and the one that
/// many requests before it lies at least the length of the window.
pub proof fn rate_is_limited(
    admissions: Seq<Admission>,
    max_requests: int,
    window: u64,
    k: int,
)
    requires
        max_requests > 0,
        are_orderly(admissions, max_requests, window),
        max_requests <= k < admissions.len(),
    ensures
        admissions[k].noted - admissions[k - max_requests].noted >= window,
{
    lemma_limiter(admissions, max_requests, window, k + 1);
    let before = times_after(admissions, max_requests, window, k);
    let held = window_at(before, max_requests, window, admissions[k]);
    assert(k - max_requests < k - held.len());
    assert(admissions[k].woke - admissions[k - max_requests].noted >= window);
}

/// An answer that was given before.
#[derive(Debug, Clone)]
pub struct CacheEntry {
    pub title: String,
    pub year: Option<i32>,
    pub has_season: bool,
    pub result: Option<TmdbResult>,
}

/// What an answer is kept under.
pub type CacheKey = (Seq<char>, Option<i32>, bool);

/// A result as its id, its kind, its title and its year.
pub open spec fn result_view(r: TmdbResult) -> (i32, Seq<char>, Seq<char>, Option<i32>) {
    (r.id, r.media_type@, r.title@, r.year)
}

/// An answer as its parts.
pub open spec fn answer_view(r: Option<TmdbResult>) -> Option<
    (i32, Seq<char>, Seq<char>, Option<i32>),
> {
    match r {
        Some(result) => Some(result_view(result)),
        None => None,
    }
}

/// What an entry is kept under.
pub open spec fn key_of(entry: CacheEntry) -> CacheKey {
    (entry.title@, entry.year, entry.has_season)
}

/// The answers that are kept.
pub open spec fn kept(entries: Seq<CacheEntry>) -> Map<
    CacheKey,
    Option<(i32, Seq<char>, Seq<char>, Option<i32>)>,
>
    decreases entries.len(),
{
    if entries.len() == 0 {
        Map::empty()
    } else {
        kept(entries.drop_last()).insert(key_of(entries.last()), answer_view(entries.last().result))
    }
}

/// An answer that is kept is found again under what it was asked for, and answers to other
/// questions stay as they are.
pub proof fn answers_are_remembered(entries: Seq<CacheEntry>, entry: CacheEntry, other: CacheKey)
    ensures
        kept(entries.push(entry)).contains_key(key_of(entry)),
        kept(entries.push(entry))[key_of(entry)] == answer_view(entry.result),
        other != key_of(entry) ==> {
            &&& kept(entries.push(entry)).contains_key(other) <==> kept(entries).contains_key(other)
            &&& kept(entries).contains_key(other) ==> kept(entries.push(entry))[other]
                == kept(entries)[other]
        },
{
    assert(entries.push(entry).drop_last() =~= entries);
}

/// A request to the database.
#[derive(Debug, Clone)]
pub struct SearchRequest {
    pub url: String,
    pub query: Vec<(String, String)>,
    pub bearer: String,
}

/// The names and values of a query.
pub open spec fn query_view(query: Seq<(String, String)>) -> Seq<(Seq<char>, Seq<char>)> {
    query.map_values(|q: (String, String)| (q.0@, q.1@))
}

/// The query of a search.
pub open spec fn search_query(title: Seq<char>, year: Option<i32>) -> Seq<
    (Seq<char>, Seq<char>),
> {
    match year {
        Some(y) => seq![("query"@, title), ("year"@, decimal(y as int))],
        None => seq![("query"@, title)],
    }
}

/// What a search does next.
#[derive(Debug, Clone)]
pub enum SearchStep {
    /// The answer is known.
    Answer(Option<TmdbResult>),
    /// The limiter has to be asked, and then the request is to be sent.
    Ask(SearchRequest),
}

/// What came back of a request.
#[derive(Debug, Clone)]
pub enum Reply {
    /// The request could not be sent.
    Failed,
    /// The database refused the request.
    Refused { status: String, body: String },
    /// The answer could not be read.
    Unreadable,
    /// The hits of the search.
    Found(SearchResponse),
}

/// A client of the database: its key, the answers that it was given, and its limiter.
#[derive(Debug, Clone)]
pub struct TmdbClient {
    pub api_key: String,
    pub cache: Vec<CacheEntry>,
    pub limiter: RateLimiter,
}

impl TmdbClient {
    /// A client that has asked nothing yet. It makes at most 35 requests in 10 seconds.
    pub fn new(api_key: String) -> (r: Result<Self, String>)
        ensures
            match r {
                Ok(client) => {
                    &&& api_key@.len() > 0
                    &&& client.api_key == api_key
                    &&& client.cache@ == Seq::<CacheEntry>::empty()
                    &&& client.limiter.timestamps@ == Seq::<u64>::empty()
                    &&& client.limiter.max_requests == 35
                    &&& client.limiter.window == 10_000_000_000
                },
                Err(message) => api_key@.len() == 0 && message@ == "TMDB API key is empty"@,
            },
    {
        if chars_of(&api_key).len() == 0 {
            return Err("TMDB API key is empty".to_owned());
        }
        Ok(
            TmdbClient {
                api_key,
                cache: Vec::new(),
                limiter: RateLimiter::new(35, 10_000_000_000),
            },
        )
    }

    /// Begins a search: with the answer where it is known, else with the request to send.
    pub fn search(&self, clean_title: &str, year: Option<i32>, has_season: bool) -> (r: SearchStep)
        ensures
            match r {
                SearchStep::Answer(result) => {
                    let key = (clean_title@, year, has_season);
                    kept(self.cache@).contains_key(key) && kept(self.cache@)[key] == answer_view(
                        result,
                    )
                },
                SearchStep::Ask(request) => {
                    &&& !kept(self.cache@).contains_key((clean_title@, year, has_season))
                    &&& request.url@ == "https://api.themoviedb.org/3/search/multi"@
                    &&& query_view(request.query@) == search_query(clean_title@, year)
                    &&& request.bearer@ == self.api_key@
                },
            },
    {
        let ghost key = (clean_title@, year, has_season);
        let mut n: usize = self.cache.len();
        assert(self.cache@.take(n as int) =~= self.cache@);
        while n > 0
            invariant
                n <= self.cache@.len(),
                key == (clean_title@, year, has_season),
                kept(self.cache@).contains_key(key) <==> kept(
                    self.cache@.take(n as int),
                ).contains_key(key),
                kept(self.cache@).contains_key(key) ==> kept(self.cache@)[key] == kept(
                    self.cache@.take(n as int),
                )[key],
            decreases n,
        {
            assert(self.cache@.take(n as int).drop_last() =~= self.cache@.take(n - 1));
            let entry = &self.cache[n - 1];
            let same_year: bool = match (entry.year, year) {
                (Some(a), Some(b)) => a == b,
                (None, None) => true,
                _ => false,
            };
            if same(&entry.title, clean_title) && same_year && entry.has_season == has_season {
                return SearchStep::Answer(copy_result(&entry.result));
            }
            n -= 1;
        }
        let mut query: Vec<(String, String)> = Vec::new();
        query.push(("query".to_owned(), clean_title.to_owned()));
        if let Some(y) = year {
            query.push(("year".to_owned(), decimal_text(y as i64)));
        }
        assert(query_view(query@) =~= search_query(clean_title@, year));
        SearchStep::Ask(
            SearchRequest {
                url: "https://api.themoviedb.org/3/search/multi".to_owned(),
                query,
                bearer: self.api_key.as_str().to_owned(),
            },
        )
    }

    /// Ends a search with what came back of its request. An answer is kept; an error is not.
    pub fn receive(
        &mut self,
        clean_title: &str,
        year: Option<i32>,
        has_season: bool,
        reply: &Reply,
    ) -> (r: Result<Option<TmdbResult>, String>)
        ensures
            final(self).api_key == old(self).api_key,
            final(self).limiter == old(self).limiter,
            match *reply {
                Reply::Failed => {
                    &&& r matches Err(message)
                    &&& message@ == "TMDB API request failed"@
                    &&& final(self).cache@ == old(self).cache@
                },
                Reply::Refused { status, body } => {
                    &&& r matches Err(message)
                    &&& message@ == "TMDB API returned "@ + status@ + ": "@ + body@
                    &&& final(self).cache@ == old(self).cache@
                },
                Reply::Unreadable => {
                    &&& r matches Err(message)
                    &&& message@ == "Failed to parse TMDB response"@
                    &&& final(self).cache@ == old(self).cache@
                },
                Reply::Found(response) => {
                    &&& r matches Ok(result)
                    &&& match best_hit(response.results@, has_season) {
                        Some(i) => result is Some && tells_of(result->0, response.results@[i]),
                        None => result is None,
                    }
                    &&& kept(final(self).cache@) == kept(old(self).cache@).insert(
                        (clean_title@, year, has_season),
                        answer_view(result),
                    )
                },
            },
    {
        match reply {
            Reply::Failed => Err("TMDB API request failed".to_owned()),
            Reply::Refused { status, body } => {
                let mut message = "TMDB API returned ".to_owned();
                message.append(status);
                message.append(": ");
                message.append(body);
                Err(message)
            },
            Reply::Unreadable => Err("Failed to parse TMDB response".to_owned()),
            Reply::Found(response) => {
                let result = pick_best_result(&response.results, has_season);
                let entry = CacheEntry {
                    title: clean_title.to_owned(),
                    year,
                    has_season,
                    result: copy_result(&result),
                };
                self.cache.push(entry);
                assert(self.cache@.drop_last() =~= old(self).cache@);
                Ok(result)
            },
        }
    }
}

fn copy_result(r: &Option<TmdbResult>) -> (c: Option<TmdbResult>)
    ensures
        answer_view(c) == answer_view(*r),
{
    match r {
        Some(result) => Some(
            TmdbResult {
                id: result.id,
                media_type: result.media_type.as_str().to_owned(),
                title: result.title.as_str().to_owned(),
                year: result.year,
            },
        ),
        None => None,
    }
}

/// A year in brackets behind a title is taken off: the title and the year read back, whatever white
/// space stands between them and behind them.
pub proof fn bracketed_year_is_taken_off(
    t: Seq<char>,
    before: Seq<char>,
    digits: Seq<char>,
    behind: Seq<char>,
)
    requires
        t.len() > 0,
        !is_whitespace(t[0]),
        !is_whitespace(t.last()),
        !t.contains('\n'),
        forall|k: int| 0 <= k < before.len() ==> is_space(#[trigger] before[k]),
        forall|k: int| 0 <= k < behind.len() ==> is_space(#[trigger] behind[k]),
        digits.len() == 4,
        crate::numbers::all_digits(digits),
    ensures
        ({
            let claimed = t + before + seq!['('] + digits + seq![')'] + behind;
            &&& clean_title(claimed) == t
            &&& claimed_year(claimed) matches Some(year) && int_value(digits) == Some(year as int)
        }),
{
    let front = t + before;
    let text = front + seq!['('] + digits + seq![')'];
    let claimed = t + before + seq!['('] + digits + seq![')'] + behind;
    assert(claimed =~= text + behind);
    assert(text.last() == ')');
    trimming_stops_at_the_rest(text, behind, spaces());
    let b = year_bracket(claimed);
    assert(b == front.len());
    assert(claimed.take(b) =~= front);
    trimming_stops_at_the_rest(t, before, spaces());
    assert(title_end(claimed) == t.len());
    assert(claimed.take(t.len() as int) =~= t);
    assert(claimed.subrange(b + 1, b + 5) =~= digits);
    assert(claimed[b] == '(' && claimed[b + 5] == ')');
    assert(has_year(claimed));
    let none = Seq::<char>::empty();
    trimming_stops_at_the_rest(t, none, crate::text::ws());
    assert(t + none =~= t);
    lemma_four_digits(digits);
}

/// A title that does not end in a bracket stays as it is, but for white space around it, and has no
/// year.
pub proof fn title_without_year_stays(t: Seq<char>)
    requires
        t.len() > 0,
        !is_whitespace(t[0]),
        !is_whitespace(t.last()),
        t.last() != ')',
    ensures
        clean_title(t) == t,
        claimed_year(t) is None,
{
    let none = Seq::<char>::empty();
    assert(t + none =~= t);
    trimming_stops_at_the_rest(t, none, spaces());
    trimming_stops_at_the_rest(t, none, crate::text::ws());
}

/// The year of a hit is the number in front of the first hyphen of its date, that of the first
/// broadcast where there is one.
pub proof fn year_stands_in_front_of_the_date(hit: SearchResult, year: i32, rest: Seq<char>)
    requires
        year >= 0,
    ensures
        text_of(hit.first_air_date) == Some(decimal(year as int) + seq!['-'] + rest)
            ==> hit.year_of() == Some(year),
        hit.first_air_date is None && text_of(hit.release_date) == Some(
            decimal(year as int) + seq!['-'] + rest,
        ) ==> hit.year_of() == Some(year),
        hit.first_air_date is None && hit.release_date is None ==> hit.year_of() is None,
{
    let digits = decimal(year as int);
    let date = digits + seq!['-'] + rest;
    written_numbers_read_back(year as int);
    assert(!digits.contains('-')) by {
        decimals_are_digits(year as nat);
        if digits.contains('-') {
            let k = choose|k: int| 0 <= k < digits.len() && digits[k] == '-';
            assert(crate::numbers::is_digit(digits[k]));
        }
    }
    let f = crate::text::find_char(date, '-');
    crate::text::lemma_find_char(date, '-');
    assert(date[digits.len() as int] == '-');
    assert(f == digits.len()) by {
        if f < digits.len() {
            assert(date[f] == digits[f]);
            assert(digits.contains('-'));
        }
    }
    assert(date.take(f) =~= digits);
}

/// What is searched for is asked for: different titles and years make different queries.
pub proof fn queries_tell_title_and_year(
    a: Seq<char>,
    b: Seq<char>,
    year_a: Option<i32>,
    year_b: Option<i32>,
)
    requires
        search_query(a, year_a) == search_query(b, year_b),
    ensures
        a == b,
        year_a == year_b,
{
    let p = search_query(a, year_a);
    let q = search_query(b, year_b);
    assert(p[0].1 == a && q[0].1 == b);
    assert(p.len() == 2 <==> year_a is Some);
    assert(q.len() == 2 <==> year_b is Some);
    if year_a is Some {
        assert(p[1].1 == decimal(year_a->0 as int));
        assert(q[1].1 == decimal(year_b->0 as int));
        written_numbers_read_back(year_a->0 as int);
    }
}

/// The hit that is taken is a TV show or a movie, and it is a TV show where one is preferred and there
/// is one among the hits.
pub proof fn taken_hit_is_a_show_or_a_movie(results: Seq<SearchResult>, prefer_tv: bool, j: int)
    requires
        0 <= j < results.len(),
        text_of(results[j].media_type) == Some("tv"@) || text_of(results[j].media_type) == Some(
            "movie"@,
        ),
    ensures
        best_hit(results, prefer_tv) matches Some(i) && {
            &&& 0 <= i < results.len()
            &&& text_of(results[i].media_type) == Some("tv"@) || text_of(results[i].media_type)
                == Some("movie"@)
            &&& prefer_tv && text_of(results[j].media_type) == Some("tv"@) ==> text_of(
                results[i].media_type,
            ) == Some("tv"@) && i <= j
            &&& !prefer_tv ==> i <= j
        },
{
    best_hit_is_relevant(results, prefer_tv, j);
}

/// The limiter remembers a request if and only if it was made less than the length of the window
/// ago, and keeps what it remembers in order.
pub proof fn requests_leave_the_window(times: Seq<u64>, now: u64, window: u64, n: int, t: u64)
    requires
        0 <= n <= times.len(),
        t <= now,
    ensures
        recent(times, now, window, n).contains(t) <==> times.take(n).contains(t) && now - t < window,
    decreases n,
{
    let held = recent(times, now, window, n);
    let all = times.take(n);
    if n > 0 {
        requests_leave_the_window(times, now, window, n - 1, t);
        let before = recent(times, now, window, n - 1);
        let front = times.take(n - 1);
        assert(all =~= front.push(times[n - 1]));
        if before.contains(t) {
            let k = choose|k: int| 0 <= k < before.len() && before[k] == t;
            assert(held[k] == t);
        }
        if front.contains(t) {
            let k = choose|k: int| 0 <= k < front.len() && front[k] == t;
            assert(all[k] == t);
        }
        assert(all[n - 1] == times[n - 1]);
        if elapsed(now, times[n - 1]) < window {
            assert(held[before.len() as int] == times[n - 1]);
        }
        if held.contains(t) {
            let k = choose|k: int| 0 <= k < held.len() && held[k] == t;
            if k < before.len() {
                assert(before[k] == t);
            }
        }
        if all.contains(t) {
            let k = choose|k: int| 0 <= k < all.len() && all[k] == t;
            if k < n - 1 {
                assert(front[k] == t);
            }
        }
    }
}

/// A hit is shown by its name, by its title only where it has none, and a result tells the same title
/// and year as its hit, and its id and its kind.
pub proof fn results_tell_of_their_hit(a: TmdbResult, b: TmdbResult, hit: SearchResult)
    requires
        tells_of(a, hit),
        tells_of(b, hit),
    ensures
        a.id == hit.id,
        text_of(hit.media_type) == Some(a.media_type@),
        hit.name is Some ==> a.title@ == hit.name->0@,
        hit.name is None && hit.title is Some ==> a.title@ == hit.title->0@,
        hit.name is None && hit.title is None ==> a.title@.len() == 0,
        result_view(a) == result_view(b),
        answer_view(Some(a)) is Some && answer_view(None) is None,
{
}

}
