//! What a probe and a file name tell about a recording.
use crate::numbers::{filled_numbers_read_back, i32_value, is_digit, parse_i32, two_places};
use crate::paths::{
    extended_name_falls_apart, file_stem, file_stem_of, joined, joined_name_is_the_file_name,
};
use crate::patterns::{
    covered, episode_letter, find_episode, first_mark, first_mark_is_the_first, is_mark, mark_end,
    marks_end_in_front, marks_move_with_the_text, part_of, span_covers, Span,
};
use crate::text::{
    chars_of, copy_option, is_text, is_whitespace, one_of, push_text, replace_with_spaces, spaced,
    squeeze, squeezed, string_of, text_of, texts, trim, trim_end_matches, trimmed, trimmed_end,
    trimmed_start, trimming_stops_at_the_rest, white_space_between_words_is_alike, words_stay, ws,
};
use vstd::prelude::*;

verus! {

/// What is known of the streams of a recording.
#[derive(Debug, Clone)]
pub struct MediaMetadata {
    pub duration_ms: Option<i32>,
    pub video_codec: Option<String>,
    pub audio_codec: Option<String>,
    pub width: Option<i32>,
    pub height: Option<i32>,
    pub bitrate: Option<i32>,
}

/// The output of a probe.
#[derive(Debug, Clone)]
pub struct FfprobeOutput {
    pub format: Option<FfprobeFormat>,
    pub streams: Option<Vec<FfprobeStream>>,
}

/// The container of a probed file.
#[derive(Debug, Clone)]
pub struct FfprobeFormat {
    pub duration: Option<String>,
    pub bit_rate: Option<String>,
}

/// A stream of a probed file.
#[derive(Debug, Clone)]
pub struct FfprobeStream {
    pub codec_type: Option<String>,
    pub codec_name: Option<String>,
    pub width: Option<i32>,
    pub height: Option<i32>,
}

/// The stream of the given type that counts among the first `n`: the first one with a codec; where
/// none has a codec, the last one.
pub open spec fn stream_of(streams: Seq<FfprobeStream>, codec_type: Seq<char>, n: int) -> Option<
    int,
>
    decreases n,
{
    if n <= 0 {
        None
    } else {
        let before = stream_of(streams, codec_type, n - 1);
        let open = match before {
            Some(i) => streams[i].codec_name is None,
            None => true,
        };
        if text_of(streams[n - 1].codec_type) == Some(codec_type) && open {
            Some(n - 1)
        } else {
            before
        }
    }
}

/// The streams of a probed file; none where the probe gives no list.
pub open spec fn streams_of(probe: FfprobeOutput) -> Seq<FfprobeStream> {
    match probe.streams {
        Some(streams) => streams@,
        None => Seq::empty(),
    }
}

/// The stream of the given type that counts.
pub open spec fn chosen_stream(probe: FfprobeOutput, codec_type: Seq<char>) -> Option<
    FfprobeStream,
> {
    let streams = streams_of(probe);
    match stream_of(streams, codec_type, streams.len() as int) {
        Some(i) => Some(streams[i]),
        None => None,
    }
}

/// The name of the codec of a stream that may be missing.
pub open spec fn codec_of(stream: Option<FfprobeStream>) -> Option<Seq<char>> {
    match stream {
        Some(s) => text_of(s.codec_name),
        None => None,
    }
}

/// The stream that counts has the given type; where a stream of the type has a codec, so has it,
/// and no stream of the type before it has one.
pub proof fn counting_stream_comes_first(
    streams: Seq<FfprobeStream>,
    codec_type: Seq<char>,
    n: int,
    j: int,
)
    requires
        0 <= j < n <= streams.len(),
        text_of(streams[j].codec_type) == Some(codec_type),
    ensures
        stream_of(streams, codec_type, n) matches Some(i) && {
            &&& 0 <= i < n
            &&& text_of(streams[i].codec_type) == Some(codec_type)
            &&& streams[j].codec_name is Some ==> streams[i].codec_name is Some && i <= j
        },
    decreases n,
{
    let before = stream_of(streams, codec_type, n - 1);
    if j < n - 1 {
        counting_stream_comes_first(streams, codec_type, n - 1, j);
    } else if before is Some {
        lemma_stream_of(streams, codec_type, n - 1);
    }
}

proof fn lemma_stream_of(streams: Seq<FfprobeStream>, codec_type: Seq<char>, n: int)
    requires
        0 <= n <= streams.len(),
    ensures
        stream_of(streams, codec_type, n) matches Some(i) ==> 0 <= i < n && text_of(
            streams[i].codec_type,
        ) == Some(codec_type),
    decreases n,
{
    if n > 0 {
        lemma_stream_of(streams, codec_type, n - 1);
    }
}

impl MediaMetadata {
    /// The arguments of the probe of a file.
    pub fn probe_args(path: &str) -> (r: Vec<String>)
        ensures
            texts(r@) == seq![
                "-v"@,
                "quiet"@,
                "-print_format"@,
                "json"@,
                "-show_format"@,
                "-show_streams"@,
                path@,
            ],
    {
        let mut args: Vec<String> = Vec::new();
        push_text(&mut args, "-v");
        push_text(&mut args, "quiet");
        push_text(&mut args, "-print_format");
        push_text(&mut args, "json");
        push_text(&mut args, "-show_format");
        push_text(&mut args, "-show_streams");
        push_text(&mut args, path);
        args
    }

    /// What a probe tells about a recording, given the duration that its text stands for.
    pub fn from_probe(probe: &FfprobeOutput, duration_ms: Option<i32>) -> (r: Self)
        ensures
            r.duration_ms == (if probe.format is Some && probe.format->0.duration is Some {
                duration_ms
            } else {
                None
            }),
            r.bitrate == (if probe.format is Some && probe.format->0.bit_rate is Some {
                i32_value(probe.format->0.bit_rate->0@)
            } else {
                None
            }),
            text_of(r.video_codec) == codec_of(chosen_stream(*probe, "video"@)),
            r.width == (match chosen_stream(*probe, "video"@) {
                Some(s) => s.width,
                None => None,
            }),
            r.height == (match chosen_stream(*probe, "video"@) {
                Some(s) => s.height,
                None => None,
            }),
            text_of(r.audio_codec) == codec_of(chosen_stream(*probe, "audio"@)),
    {
        let mut metadata = MediaMetadata {
            duration_ms: None,
            video_codec: None,
            audio_codec: None,
            width: None,
            height: None,
            bitrate: None,
        };
        if let Some(format) = &probe.format {
            if format.duration.is_some() {
                metadata.duration_ms = duration_ms;
            }
            if let Some(bit_rate) = &format.bit_rate {
                metadata.bitrate = parse_i32(bit_rate);
            }
        }
        let ghost start = metadata;
        if let Some(streams) = &probe.streams {
            let mut video: Option<usize> = None;
            let mut audio: Option<usize> = None;
            proof {
                reveal_strlit("video");
                reveal_strlit("audio");
                assert("video"@[0] != "audio"@[0]);
            }
            for i in 0..streams.len()
                invariant
                    "video"@ != "audio"@,
                    match video {
                        Some(v) => v < i && stream_of(streams@, "video"@, i as int) == Some(
                            v as int,
                        ),
                        None => stream_of(streams@, "video"@, i as int) is None,
                    },
                    match audio {
                        Some(a) => a < i && stream_of(streams@, "audio"@, i as int) == Some(
                            a as int,
                        ),
                        None => stream_of(streams@, "audio"@, i as int) is None,
                    },
            {
                if is_text(&streams[i].codec_type, "video") {
                    let open: bool = match video {
                        Some(v) => streams[v].codec_name.is_none(),
                        None => true,
                    };
                    if open {
                        video = Some(i);
                    }
                } else if is_text(&streams[i].codec_type, "audio") {
                    let open: bool = match audio {
                        Some(a) => streams[a].codec_name.is_none(),
                        None => true,
                    };
                    if open {
                        audio = Some(i);
                    }
                }
            }
            if let Some(v) = video {
                metadata.video_codec = copy_option(&streams[v].codec_name);
                metadata.width = streams[v].width;
                metadata.height = streams[v].height;
            }
            if let Some(a) = audio {
                metadata.audio_codec = copy_option(&streams[a].codec_name);
            }
        }
        metadata
    }
}

/// What a file name tells about a recording.
#[derive(Debug, Clone)]
pub struct ParsedFilename {
    pub title: Option<String>,
    pub season: Option<i32>,
    pub episode: Option<i32>,
}

impl Default for ParsedFilename {
    fn default() -> (r: Self)
        ensures
            r.title is None,
            r.season is None,
            r.episode is None,
    {
        ParsedFilename { title: None, season: None, episode: None }
    }
}

/// The name that a file name is read from: without its extension where it has one.
pub open spec fn name_of(filename: Seq<char>) -> Seq<char> {
    match file_stem(filename) {
        Some(stem) => stem,
        None => filename,
    }
}

/// The title before a mark of the episode: without the separators at its end, and with spaces in
/// place of the others.
pub open spec fn title_before(front: Seq<char>) -> Option<Seq<char>> {
    let title = trimmed_end(trimmed(front), one_of(seq!['-', '_', '.']));
    if title.len() > 0 {
        Some(trimmed(spaced(title, seq!['.', '_'])))
    } else {
        None
    }
}

/// A whole name as a title: its words with single spaces between them.
pub open spec fn title_of(name: Seq<char>) -> Option<Seq<char>> {
    let cleaned = squeezed(spaced(name, seq!['.', '_']));
    if cleaned.len() > 0 {
        Some(cleaned)
    } else {
        None
    }
}

/// The title in a file name: what stands before the mark of the episode, the whole name where there
/// is no mark or nothing before it.
pub open spec fn title_in(name: Seq<char>) -> Option<Seq<char>> {
    match first_mark(name, 0) {
        Some(i) => match title_before(name.take(i)) {
            Some(title) => Some(title),
            None => title_of(name),
        },
        None => title_of(name),
    }
}

/// The season in a file name.
pub open spec fn season_in(name: Seq<char>) -> Option<i32> {
    match first_mark(name, 0) {
        Some(i) => i32_value(name.subrange(i + 1, episode_letter(name, i))),
        None => None,
    }
}

/// The episode in a file name.
pub open spec fn episode_in(name: Seq<char>) -> Option<i32> {
    match first_mark(name, 0) {
        Some(i) => i32_value(name.subrange(episode_letter(name, i) + 1, mark_end(name, i))),
        None => None,
    }
}

fn number_in(text: &str, span: Option<Span>) -> (r: Option<i32>)
    ensures
        r == (match covered(span, text@) {
            Some(part) => i32_value(part),
            None => None,
        }),
{
    match part_of(text, span) {
        Some(part) => parse_i32(&part),
        None => None,
    }
}

fn read_title_before(front: &str) -> (r: Option<String>)
    ensures
        text_of(r) == title_before(front@),
{
    let separators: [char; 3] = ['-', '_', '.'];
    let blanks: [char; 2] = ['.', '_'];
    assert(separators@ =~= seq!['-', '_', '.']);
    assert(blanks@ =~= seq!['.', '_']);
    let title = trim_end_matches(&trim(&chars_of(front)), &separators);
    if title.len() > 0 {
        Some(string_of(&trim(&replace_with_spaces(&title, &blanks))))
    } else {
        None
    }
}

fn read_title_of(name: &str) -> (r: Option<String>)
    ensures
        text_of(r) == title_of(name@),
{
    let blanks: [char; 2] = ['.', '_'];
    assert(blanks@ =~= seq!['.', '_']);
    let cleaned = squeeze(&replace_with_spaces(&chars_of(name), &blanks));
    if cleaned.len() > 0 {
        Some(string_of(&cleaned))
    } else {
        None
    }
}

/// Reads the title, the season and the episode out of a file name.
pub fn parse_filename(filename: &str) -> (r: ParsedFilename)
    ensures
        text_of(r.title) == title_in(name_of(filename@)),
        r.season == season_in(name_of(filename@)),
        r.episode == episode_in(name_of(filename@)),
{
    let name = match file_stem_of(filename) {
        Some(stem) => stem,
        None => filename.to_owned(),
    };
    let mut parsed = ParsedFilename::default();
    let ghost text = name@;
    if let Some(groups) = find_episode(&name) {
        let ghost i = first_mark(text, 0)->0;
        proof {
            first_mark_is_the_first(text, 0, 0);
            span_covers(groups.first, text, i + 1, episode_letter(text, i));
            span_covers(groups.second, text, episode_letter(text, i) + 1, mark_end(text, i));
        }
        parsed.season = number_in(&name, groups.first);
        parsed.episode = number_in(&name, groups.second);
        if let Some(whole) = groups.whole {
            let before = Some(Span { start: 0, end: whole.start });
            proof {
                span_covers(before, text, 0, i);
                assert(text.subrange(0, i) =~= text.take(i));
            }
            if let Some(front) = part_of(&name, before) {
                parsed.title = read_title_before(&front);
            }
        }
    }
    if parsed.title.is_none() {
        parsed.title = read_title_of(&name);
    }
    parsed
}

/// A season or an episode that is read out of a file name has one or two digits.
pub proof fn season_and_episode_are_read(name: Seq<char>, i: int)
    requires
        first_mark(name, 0) == Some(i),
    ensures
        season_in(name) matches Some(season) && 0 <= season <= 99,
        episode_in(name) matches Some(episode) && 0 <= episode <= 99,
{
    first_mark_is_the_first(name, 0, 0);
    lemma_short_number(name, i + 1, episode_letter(name, i));
    lemma_short_number(name, episode_letter(name, i) + 1, mark_end(name, i));
}

proof fn lemma_short_number(name: Seq<char>, from: int, to: int)
    requires
        0 <= from < to <= name.len(),
        to <= from + 2,
        forall|k: int| from <= k < to ==> is_digit(#[trigger] name[k]),
    ensures
        i32_value(name.subrange(from, to)) matches Some(n) && 0 <= n <= 99,
{
    let s = name.subrange(from, to);
    assert forall|k: int| 0 <= k < s.len() implies is_digit(s[k]) by {
        assert(s[k] == name[from + k]);
    }
    reveal_with_fuel(crate::numbers::digits_value, 4);
    assert(is_digit(s[0]));
    assert(s.skip(0) =~= s);
}

/// A title begins and ends with something other than white space and the separators `-`, `_`
/// and `.`.
pub open spec fn is_bare_title(t: Seq<char>) -> bool {
    &&& t.len() > 0
    &&& !is_whitespace(t[0]) && t[0] != '-' && t[0] != '_' && t[0] != '.'
    &&& !is_whitespace(t.last()) && t.last() != '-' && t.last() != '_' && t.last() != '.'
}

/// All characters of `s` are white space.
pub open spec fn is_blank(s: Seq<char>) -> bool {
    forall|k: int| 0 <= k < s.len() ==> is_whitespace(#[trigger] s[k])
}

/// All characters of `s` are one of `-`, `_` and `.`.
pub open spec fn is_separator(s: Seq<char>) -> bool {
    forall|k: int|
        0 <= k < s.len() ==> #[trigger] s[k] == '-' || s[k] == '_' || s[k] == '.'
}

/// `r` is `t` with a space in place of every `.` and every `_`.
pub open spec fn is_spaced_out(r: Seq<char>, t: Seq<char>) -> bool {
    &&& r.len() == t.len()
    &&& forall|k: int|
        0 <= k < t.len() ==> #[trigger] r[k] == (if t[k] == '.' || t[k] == '_' {
            ' '
        } else {
            t[k]
        })
}

proof fn lemma_trimmed_keeps(t: Seq<char>, tail: Seq<char>)
    requires
        t.len() > 0,
        !is_whitespace(t[0]),
        !is_whitespace(t.last()),
        is_blank(tail),
    ensures
        trimmed(t + tail) == t,
{
    assert((t + tail)[0] == t[0]);
    trimming_stops_at_the_rest(t, tail, ws());
}

/// White space and any run of the separators `-`, `_` and `.` between a title and the mark of the
/// episode belong to neither: whatever they are, the title is the same. Inside the title the
/// separators `.` and `_` become spaces, and everything else stays.
pub proof fn separators_before_the_mark_do_not_count(
    t: Seq<char>,
    before: Seq<char>,
    separators: Seq<char>,
    behind: Seq<char>,
)
    requires
        is_bare_title(t),
        is_blank(before),
        is_separator(separators),
        is_blank(behind),
    ensures
        title_before(t + before + separators + behind) matches Some(r) && is_spaced_out(r, t),
        (forall|k: int| 0 <= k < t.len() ==> #[trigger] t[k] != '.' && t[k] != '_')
            ==> title_before(t + before + separators + behind) == Some(t),
{
    let set = seq!['-', '_', '.'];
    let front = t + before + separators + behind;
    let blanks = seq!['.', '_'];
    assert(set[0] == '-' && set[1] == '_' && set[2] == '.');
    assert(set.contains('-') && set.contains('_') && set.contains('.'));
    assert(blanks[0] == '.' && blanks[1] == '_');
    assert(blanks.contains('.') && blanks.contains('_'));
    let r = spaced(t, blanks);
    assert(is_spaced_out(r, t));
    let kept = if separators.len() > 0 {
        lemma_trimmed_keeps_with_separators(t, before, separators, behind);
        assert(t + before + separators =~= (t + before) + separators);
        if before.len() > 0 {
            assert((t + before).last() == before[before.len() - 1]);
            assert(is_whitespace(before[before.len() - 1]));
        } else {
            assert((t + before).last() == t.last());
        }
        trimming_stops_at_the_rest(t + before, separators, one_of(set));
        t + before
    } else {
        let tail = before + separators + behind;
        assert(front =~= t + tail);
        assert forall|k: int| 0 <= k < tail.len() implies is_whitespace(#[trigger] tail[k]) by {
            if k < before.len() {
                assert(tail[k] == before[k]);
            } else {
                assert(tail[k] == behind[k - before.len()]);
            }
        }
        lemma_trimmed_keeps(t, tail);
        t
    };
    let gap = spaced(kept, blanks).skip(t.len() as int);
    assert(spaced(kept, blanks) =~= r + gap);
    assert forall|k: int| 0 <= k < gap.len() implies is_whitespace(#[trigger] gap[k]) by {
        assert(is_whitespace(before[k]));
    }
    assert(r[0] == t[0]);
    assert(r.last() == t.last());
    lemma_trimmed_keeps(r, gap);
    assert(title_before(front) == Some(r));
    if forall|k: int| 0 <= k < t.len() ==> #[trigger] t[k] != '.' && t[k] != '_' {
        assert(r =~= t);
    }
}

proof fn lemma_trimmed_keeps_with_separators(
    t: Seq<char>,
    before: Seq<char>,
    separators: Seq<char>,
    behind: Seq<char>,
)
    requires
        is_bare_title(t),
        separators.len() > 0,
        is_separator(separators),
        is_blank(behind),
    ensures
        trimmed(t + before + separators + behind) == t + before + separators,
{
    let head = t + before + separators;
    assert(head[0] == t[0]);
    assert(head.last() == separators[separators.len() - 1]);
    lemma_trimmed_keeps(head, behind);
}

/// A name that is made up as usual reads back: a title, white space and separators in any number,
/// and the season and the episode with two digits each behind the letters `S` and `E`, small or
/// capital. What stands behind that does not matter.
pub proof fn usual_names_read_back(
    t: Seq<char>,
    before: Seq<char>,
    separators: Seq<char>,
    behind: Seq<char>,
    s: char,
    season: int,
    e: char,
    episode: int,
    rest: Seq<char>,
)
    requires
        is_bare_title(t),
        forall|k: int| 0 <= k < t.len() ==> !#[trigger] is_mark(t, k),
        is_blank(before),
        is_separator(separators),
        is_blank(behind),
        s == 'S' || s == 's',
        e == 'E' || e == 'e',
        0 <= season <= 99,
        0 <= episode <= 99,
    ensures
        ({
            let name = t + before + separators + behind + (seq![s] + two_places(season) + seq![e]
                + two_places(episode) + rest);
            &&& title_in(name) matches Some(r) && is_spaced_out(r, t)
            &&& season_in(name) == Some(season as i32)
            &&& episode_in(name) == Some(episode as i32)
        }),
{
    let front = t + before + separators + behind;
    let mark = seq![s] + two_places(season) + seq![e] + two_places(episode) + rest;
    let name = front + mark;
    let i = front.len() as int;
    lemma_two_digits(season);
    lemma_two_digits(episode);
    assert(mark.subrange(1, 3) =~= two_places(season));
    assert(mark.subrange(4, 6) =~= two_places(episode));
    assert(mark[1] == two_places(season)[0] && mark[2] == two_places(season)[1]);
    assert(mark[4] == two_places(episode)[0] && mark[5] == two_places(episode)[1]);
    assert(mark[0] == s && mark[3] == e);
    assert(episode_letter(mark, 0) == 3);
    assert(mark_end(mark, 0) == 6);
    assert(is_mark(mark, 0));
    marks_move_with_the_text(front, mark, 0);
    let gap = before + separators + behind;
    let tail = gap + mark;
    assert(name =~= t + tail);
    assert forall|j: int| 0 <= j < gap.len() implies is_whitespace(#[trigger] gap[j]) || gap[j]
        == '-' || gap[j] == '_' || gap[j] == '.' by {
        if j < before.len() {
            assert(gap[j] == before[j]);
        } else if j < before.len() + separators.len() {
            assert(gap[j] == separators[j - before.len()]);
        } else {
            assert(gap[j] == behind[j - before.len() - separators.len()]);
        }
    }
    assert forall|j: int| 0 <= j < i implies !is_mark(name, j) by {
        if j < t.len() {
            if gap.len() > 0 {
                assert(tail[0] == gap[0]);
            } else {
                assert(tail[0] == mark[0]);
            }
            marks_end_in_front(t, tail, j);
        } else {
            assert(name[j] == gap[j - t.len()]);
        }
    }
    first_mark_is_the_first(name, 0, i);
    let m = first_mark(name, 0)->0;
    first_mark_is_the_first(name, 0, m);
    assert(first_mark(name, 0) == Some(i)) by {
        if m < i {
            assert(!is_mark(name, m));
        } else if i < m {
            first_mark_is_the_first(name, 0, i);
        }
    }
    assert(name.take(i) =~= front);
    separators_before_the_mark_do_not_count(t, before, separators, behind);
    assert(name.subrange(i + 1, i + 3) =~= mark.subrange(1, 3));
    assert(name.subrange(i + 4, i + 6) =~= mark.subrange(4, 6));
}

proof fn lemma_two_digits(n: int)
    requires
        0 <= n <= 99,
    ensures
        two_places(n).len() == 2,
        is_digit(two_places(n)[0]),
        is_digit(two_places(n)[1]),
        i32_value(two_places(n)) == Some(n as i32),
{
    filled_numbers_read_back(n);
    reveal_with_fuel(crate::numbers::decimal_nat, 3);
}

/// A title holds no `.` and no `_`.
pub proof fn titles_hold_no_separators(name: Seq<char>, t: Seq<char>, k: int)
    requires
        title_in(name) == Some(t),
        0 <= k < t.len(),
    ensures
        t[k] != '.' && t[k] != '_',
{
    let blanks = seq!['.', '_'];
    assert(blanks[0] == '.' && blanks[1] == '_');
    let from_front = match first_mark(name, 0) {
        Some(i) => title_before(name.take(i)) is Some,
        None => false,
    };
    if from_front {
        let front = name.take(first_mark(name, 0)->0);
        let title = trimmed_end(trimmed(front), one_of(seq!['-', '_', '.']));
        let s = spaced(title, blanks);
        lemma_trimming_adds_nothing(s, t[k]);
        assert(t.contains(t[k]));
        let j = choose|j: int| 0 <= j < s.len() && s[j] == t[k];
    } else {
        let s = spaced(name, blanks);
        lemma_squeezing_adds_spaces(s, t[k]);
        assert(t.contains(t[k]));
        if s.contains(t[k]) {
            let j = choose|j: int| 0 <= j < s.len() && s[j] == t[k];
        }
    }
}

proof fn lemma_trimming_adds_nothing(s: Seq<char>, c: char)
    ensures
        trimmed(s).contains(c) ==> s.contains(c),
{
    lemma_trimmed_start_adds_nothing(s, c);
    lemma_trimmed_end_adds_nothing(trimmed_start(s, ws()), c);
}

proof fn lemma_trimmed_start_adds_nothing(s: Seq<char>, c: char)
    ensures
        trimmed_start(s, ws()).contains(c) ==> s.contains(c),
    decreases s.len(),
{
    if s.len() > 0 && is_whitespace(s[0]) {
        lemma_trimmed_start_adds_nothing(s.skip(1), c);
        if s.skip(1).contains(c) {
            let rest = s.skip(1);
            let j = choose|j: int| 0 <= j < rest.len() && rest[j] == c;
            assert(s[j + 1] == c);
        }
    }
}

proof fn lemma_trimmed_end_adds_nothing(s: Seq<char>, c: char)
    ensures
        trimmed_end(s, ws()).contains(c) ==> s.contains(c),
    decreases s.len(),
{
    if s.len() > 0 && is_whitespace(s.last()) {
        lemma_trimmed_end_adds_nothing(s.drop_last(), c);
        if s.drop_last().contains(c) {
            let rest = s.drop_last();
            let j = choose|j: int| 0 <= j < rest.len() && rest[j] == c;
            assert(s[j] == c);
        }
    }
}

proof fn lemma_squeezing_adds_spaces(s: Seq<char>, c: char)
    ensures
        squeezed(s).contains(c) ==> c == ' ' || s.contains(c),
    decreases s.len(),
{
    if s.len() > 0 {
        let rest = s.drop_last();
        lemma_squeezing_adds_spaces(rest, c);
        let now = squeezed(s);
        let before = squeezed(rest);
        if now.contains(c) && c != ' ' {
            let k = choose|k: int| 0 <= k < now.len() && now[k] == c;
            if k < before.len() {
                assert(before[k] == c);
                let j = choose|j: int| 0 <= j < rest.len() && rest[j] == c;
                assert(s[j] == c);
            } else {
                assert(s[s.len() - 1] == c);
            }
        }
    }
}

/// A stream of another type changes nothing. Where no stream of a type has a codec, the last of them
/// counts.
pub proof fn other_streams_do_not_count(
    streams: Seq<FfprobeStream>,
    other: FfprobeStream,
    codec_type: Seq<char>,
    j: int,
)
    requires
        text_of(other.codec_type) != Some(codec_type),
        0 <= j < streams.len(),
    ensures
        stream_of(streams.push(other), codec_type, (streams.len() + 1) as int) == stream_of(
            streams,
            codec_type,
            streams.len() as int,
        ),
        (forall|k: int|
            0 <= k < streams.len() && text_of((#[trigger] streams[k]).codec_type) == Some(
                codec_type,
            ) ==> streams[k].codec_name is None) && text_of(streams[j].codec_type) == Some(
            codec_type,
        ) ==> stream_of(streams, codec_type, streams.len() as int)->0 >= j,
{
    lemma_stream_of_front(streams, streams.push(other), codec_type, streams.len() as int);
    lemma_last_without_codec(streams, codec_type, streams.len() as int, j);
}

proof fn lemma_stream_of_front(
    a: Seq<FfprobeStream>,
    b: Seq<FfprobeStream>,
    codec_type: Seq<char>,
    n: int,
)
    requires
        n <= a.len() <= b.len(),
        forall|k: int| 0 <= k < a.len() ==> a[k] == #[trigger] b[k],
    ensures
        stream_of(a, codec_type, n) == stream_of(b, codec_type, n),
    decreases n,
{
    if n > 0 {
        lemma_stream_of_front(a, b, codec_type, n - 1);
        lemma_stream_of(a, codec_type, n - 1);
        assert(a[n - 1] == b[n - 1]);
        if let Some(i) = stream_of(a, codec_type, n - 1) {
            assert(a[i] == b[i]);
        }
    }
}

proof fn lemma_last_without_codec(
    streams: Seq<FfprobeStream>,
    codec_type: Seq<char>,
    n: int,
    j: int,
)
    requires
        0 <= n <= streams.len(),
    ensures
        (forall|k: int|
            0 <= k < streams.len() && text_of((#[trigger] streams[k]).codec_type) == Some(
                codec_type,
            ) ==> streams[k].codec_name is None) && 0 <= j < n && text_of(streams[j].codec_type)
            == Some(codec_type) ==> stream_of(streams, codec_type, n)->0 >= j,
    decreases n,
{
    if n > 0 {
        lemma_last_without_codec(streams, codec_type, n - 1, j);
        lemma_stream_of(streams, codec_type, n - 1);
        if 0 <= j < n - 1 && text_of(streams[j].codec_type) == Some(codec_type) {
            counting_stream_comes_first(streams, codec_type, n - 1, j);
        }
    }
}

/// A whole name as a title: the same whatever separators, and however many, stand between two parts
/// of it.
pub proof fn separators_between_words_are_alike(a: Seq<char>, gap: Seq<char>, b: Seq<char>)
    requires
        gap.len() > 0,
        forall|k: int|
            0 <= k < gap.len() ==> is_whitespace(#[trigger] gap[k]) || gap[k] == '.' || gap[k]
                == '_',
    ensures
        title_of(a + gap + b) == title_of(a + seq![' '] + b),
{
    let blanks = seq!['.', '_'];
    assert(blanks[0] == '.' && blanks[1] == '_');
    assert(blanks.contains('.') && blanks.contains('_'));
    let x = spaced(a, blanks);
    let y = spaced(b, blanks);
    let g = spaced(gap, blanks);
    assert(spaced(a + gap + b, blanks) =~= x + g + y);
    assert(spaced(a + seq![' '] + b, blanks) =~= x + seq![' '] + y);
    assert forall|k: int| 0 <= k < g.len() implies is_whitespace(#[trigger] g[k]) by {
        assert(is_whitespace(gap[k]) || gap[k] == '.' || gap[k] == '_');
    }
    white_space_between_words_is_alike(x, g, y);
}

/// A single word is its own title.
pub proof fn words_are_their_own_title(word: Seq<char>)
    requires
        word.len() > 0,
        forall|k: int|
            0 <= k < word.len() ==> !is_whitespace(#[trigger] word[k]) && word[k] != '.' && word[k]
                != '_',
    ensures
        title_of(word) == Some(word),
{
    let blanks = seq!['.', '_'];
    assert(blanks[0] == '.' && blanks[1] == '_');
    assert(spaced(word, blanks) =~= word);
    words_stay(word);
}

/// A name is read without its extension and without the directory that it stands in.
pub proof fn names_are_read_without_extension(dir: Seq<char>, name: Seq<char>, ext: Seq<char>)
    requires
        name.len() > 0,
        name.len() + ext.len() >= 2,
        !name.contains('/'),
        !ext.contains('/'),
        !ext.contains('.'),
    ensures
        name_of(joined(dir, name.push('.') + ext)) == name,
{
    let whole = name.push('.') + ext;
    assert(!whole.contains('/')) by {
        if whole.contains('/') {
            let k = choose|k: int| 0 <= k < whole.len() && whole[k] == '/';
            if k < name.len() {
                assert(name.contains(name[k]));
            } else if k > name.len() {
                assert(ext.contains(ext[k - name.len() - 1]));
            }
        }
    }
    joined_name_is_the_file_name(dir, whole);
    extended_name_falls_apart(name, ext);
}

}
