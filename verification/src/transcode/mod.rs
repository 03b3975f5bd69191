//! Transcoding of recordings.
pub mod finalize;

use crate::cluster::{frame_distance, FrameDistance};
use crate::json::{
    are_probed, document, has_streams, lists_streams, probed_streams, ProbeError, ProbedStream,
};
use crate::numbers::{
    count_text, decimal, decimal_text, seconds, seconds_text, written_numbers_read_back,
    written_seconds_differ,
};
use crate::paths::{
    change_extension, changed_extension_is_found, extended_name_falls_apart, extension, file_stem, file_stem_of, join, joined,
    joined_name_is_the_file_name, rename, stems_are_names, with_extension, with_file_name,
};
use crate::scanner::fingerprint::{countable, Fingerprinter};
use crate::score::{Score, NINETY_FIVE_PERCENT};
use crate::text::{
    chars_of, contains, first_line, first_line_ends_at_the_line_feed, has_text, head_line,
    occurs_at, position_of, push_text, same, string_of, text_of, texts, trim, trimmed,
};
use finalize::FinalizeJob;
use vstd::prelude::*;
use vstd::slice::slice_subrange;

verus! {

/// A stream of a kind that is not known.
#[derive(Debug, Clone)]
pub struct UnknownStream {
    pub index: usize,
    pub codec: String,
}

/// The kind of a stream is unknown or missing.
pub open spec fn is_unknown(stream: ProbedStream) -> bool {
    match text_of(stream.codec_type) {
        Some(kind) => kind == "unknown"@ || kind == ""@,
        None => true,
    }
}

/// `u` tells of the stream `stream`.
pub open spec fn tells_of(u: UnknownStream, stream: ProbedStream) -> bool {
    &&& u.index == (match stream.index {
        Some(index) => index as usize,
        None => 0,
    })
    &&& u.codec@ == (match text_of(stream.codec_name) {
        Some(name) => name,
        None => "none"@,
    })
}

/// The positions of the unknown ones among the first `n` streams.
pub open spec fn unknown_positions(streams: Seq<ProbedStream>, n: int) -> Seq<int>
    decreases n,
{
    if n <= 0 {
        Seq::empty()
    } else if is_unknown(streams[n - 1]) {
        unknown_positions(streams, n - 1).push(n - 1)
    } else {
        unknown_positions(streams, n - 1)
    }
}

/// `list` tells of the unknown ones among the streams, in order.
pub open spec fn tell_of_unknown(list: Seq<UnknownStream>, streams: Seq<ProbedStream>) -> bool {
    let at = unknown_positions(streams, streams.len() as int);
    list.len() == at.len() && forall|k: int|
        0 <= k < list.len() ==> tells_of(#[trigger] list[k], streams[at[k]])
}

/// Takes the unknown ones out of a list of streams.
pub fn unknown_streams(streams: &Vec<ProbedStream>) -> (r: Vec<UnknownStream>)
    ensures
        tell_of_unknown(r@, streams@),
{
    let mut out: Vec<UnknownStream> = Vec::new();
    for i in 0..streams.len()
        invariant
            out@.len() == unknown_positions(streams@, i as int).len(),
            forall|k: int|
                0 <= k < out@.len() ==> tells_of(
                    #[trigger] out@[k],
                    streams@[unknown_positions(streams@, i as int)[k]],
                ),
    {
        let unknown: bool = match &streams[i].codec_type {
            Some(kind) => same(kind, "unknown") || same(kind, ""),
            None => true,
        };
        if unknown {
            let index: usize = match streams[i].index {
                Some(index) => index as usize,
                None => 0,
            };
            let codec = match &streams[i].codec_name {
                Some(name) => name.as_str().to_owned(),
                None => "none".to_owned(),
            };
            out.push(UnknownStream { index, codec });
        }
    }
    out
}

/// The arguments of the probe for unknown streams.
pub fn unknown_streams_args(path: &str) -> (r: Vec<String>)
    ensures
        texts(r@) == seq![
            "-v"@,
            "quiet"@,
            "-show_entries"@,
            "stream=index,codec_name,codec_type"@,
            "-of"@,
            "json"@,
            path@,
        ],
{
    let mut args: Vec<String> = Vec::new();
    push_text(&mut args, "-v");
    push_text(&mut args, "quiet");
    push_text(&mut args, "-show_entries");
    push_text(&mut args, "stream=index,codec_name,codec_type");
    push_text(&mut args, "-of");
    push_text(&mut args, "json");
    push_text(&mut args, path);
    args
}

/// Finds the unknown streams in the output of a probe.
pub fn probe_unknown_streams(output: &[u8]) -> (r: Result<Vec<UnknownStream>, ProbeError>)
    ensures
        match r {
            Ok(list) => document(output@) is Some && exists|streams: Seq<ProbedStream>| #[trigger]
                are_probed(streams, document(output@)->0) && tell_of_unknown(list@, streams),
            Err(e) => document(output@) is None && e == ProbeError::Unreadable,
        },
{
    match probed_streams(output) {
        Ok(streams) => Ok(unknown_streams(&streams)),
        Err(e) => Err(e),
    }
}

/// How recordings are transcoded.
#[derive(Debug, Clone)]
pub struct TranscodeConfig {
    pub crf: u8,
    pub preset: String,
    pub use_hardware: bool,
    pub audio_codec: String,
    pub container: String,
}

impl Default for TranscodeConfig {
    fn default() -> (r: Self)
        ensures
            r.crf == 23,
            r.preset@ == "medium"@,
            !r.use_hardware,
            r.audio_codec@ == "aac"@,
            r.container@ == "ts"@,
    {
        TranscodeConfig {
            crf: 23,
            preset: "medium".to_owned(),
            use_hardware: false,
            audio_codec: "aac".to_owned(),
            container: "ts".to_owned(),
        }
    }
}

/// Transcodes recordings to HEVC.
#[derive(Debug, Clone)]
pub struct Transcoder {
    pub config: TranscodeConfig,
    pub fingerprinter: Fingerprinter,
}

/// The arguments that skip the front of a recording.
pub open spec fn seek_args(start_ms: Option<i32>) -> Seq<Seq<char>> {
    match start_ms {
        Some(start) => seq!["-ss"@, seconds(start as int)],
        None => Seq::empty(),
    }
}

/// The length of the part of a recording that is kept, where it has an end.
pub open spec fn kept_ms(start_ms: Option<i32>, end_ms: Option<i32>) -> Option<int> {
    match (start_ms, end_ms) {
        (Some(start), Some(end)) => Some(end - start),
        (None, Some(end)) => Some(end as int),
        (_, None) => None,
    }
}

/// The arguments that limit the length of a recording.
pub open spec fn length_args(start_ms: Option<i32>, end_ms: Option<i32>) -> Seq<Seq<char>> {
    match kept_ms(start_ms, end_ms) {
        Some(ms) => seq!["-t"@, seconds(ms)],
        None => Seq::empty(),
    }
}

/// The format of a container.
pub open spec fn format_of(container: Seq<char>) -> Seq<char> {
    if container == "ts"@ {
        "mpegts"@
    } else if container == "mkv"@ {
        "matroska"@
    } else {
        container
    }
}

impl TranscodeConfig {
    /// The arguments that choose the encoder of the picture.
    pub open spec fn video_args(self) -> Seq<Seq<char>> {
        if self.use_hardware {
            seq!["-c:v"@, "hevc_nvenc"@, "-preset"@, "p4"@, "-cq"@, decimal(self.crf as int)]
        } else {
            seq!["-c:v"@, "libx265"@, "-preset"@, self.preset@, "-crf"@, decimal(self.crf as int)]
        }
    }

    /// The arguments of a transcoding.
    pub open spec fn all_args(
        self,
        input: Seq<char>,
        start_ms: Option<i32>,
        end_ms: Option<i32>,
        output: Seq<char>,
    ) -> Seq<Seq<char>> {
        seq!["-y"@] + seek_args(start_ms) + seq!["-i"@, input] + length_args(start_ms, end_ms)
            + seq![
            "-map"@,
            "0"@,
            "-ignore_unknown"@,
            "-map_metadata"@,
            "0"@,
            "-map_chapters"@,
            "0"@,
        ] + self.video_args() + seq![
            "-c:a"@,
            self.audio_codec@,
            "-b:a"@,
            "128k"@,
            "-c:s"@,
            "copy"@,
            "-c:d"@,
            "copy"@,
            "-f"@,
            format_of(self.container@),
            output,
        ]
    }
}

/// Where a recording is transcoded to: next to it, or in the given directory.
pub open spec fn working_path(original: Seq<char>, temp_dir: Option<Seq<char>>) -> Seq<char> {
    let stem = match file_stem(original) {
        Some(stem) => stem,
        None => Seq::empty(),
    };
    let name = stem + ".transcoding"@;
    match temp_dir {
        Some(dir) => joined(dir, name),
        None => with_file_name(original, name),
    }
}

/// The view of a text that may be missing.
pub open spec fn dir_of(dir: Option<&str>) -> Option<Seq<char>> {
    match dir {
        Some(d) => Some(d@),
        None => None,
    }
}

/// A transcoding that is to be run.
#[derive(Debug, Clone)]
pub struct TranscodeJob {
    pub args: Vec<String>,
    pub transcoding_path: String,
    pub final_path: String,
}

/// The transcoded frames and the original ones, or the reason why they cannot be compared.
#[derive(Debug, Clone)]
pub enum FrameComparison {
    /// There are not as many of the ones as of the others.
    Uneven(VerifyResult),
    /// The distances of the frames, pair by pair.
    Distances(Vec<FrameDistance>),
}

/// The frames that are compared.
pub open spec fn frame_numbers(total_frames: int) -> Seq<u64> {
    let start = total_frames / 10;
    let interval = (total_frames - 2 * start) / 6;
    Seq::new(5, |i: int| (start + interval * (i + 1)) as u64)
}

impl Transcoder {
    /// A transcoder with the given settings.
    pub fn new(config: TranscodeConfig) -> (r: Self)
        ensures
            r.config == config,
            r.fingerprinter.hash_width == 8,
            r.fingerprinter.hash_height == 8,
    {
        Transcoder { config, fingerprinter: Fingerprinter::new() }
    }

    /// Where a recording is transcoded to.
    pub fn transcoding_path(original: &str, temp_dir: Option<&str>) -> (r: String)
        ensures
            r@ == working_path(original@, dir_of(temp_dir)),
    {
        let mut name = match file_stem_of(original) {
            Some(stem) => stem,
            None => String::new(),
        };
        name.append(".transcoding");
        match temp_dir {
            Some(dir) => join(dir, &name),
            None => rename(original, &name),
        }
    }

    /// Where a transcoded recording ends up.
    pub fn final_path(original: &str, container: &str) -> (r: String)
        requires
            !container@.contains('/'),
        ensures
            r@ == with_extension(original@, container@),
    {
        change_extension(original, container)
    }

    /// The transcoding of a recording, from one point in time to another.
    pub fn transcode(
        &self,
        input: &str,
        content_start_ms: Option<i32>,
        content_end_ms: Option<i32>,
        temp_dir: Option<&str>,
    ) -> (r: TranscodeJob)
        requires
            !self.config.container@.contains('/'),
            content_start_ms is Some && content_end_ms is Some ==> i32::MIN <= content_end_ms->0
                - content_start_ms->0 <= i32::MAX,
        ensures
            r.transcoding_path@ == working_path(input@, dir_of(temp_dir)),
            r.final_path@ == with_extension(input@, self.config.container@),
            texts(r.args@) == self.config.all_args(
                input@,
                content_start_ms,
                content_end_ms,
                r.transcoding_path@,
            ),
    {
        let transcoding_path = Self::transcoding_path(input, temp_dir);
        let final_path = Self::final_path(input, &self.config.container);
        let mut args: Vec<String> = Vec::new();
        push_text(&mut args, "-y");
        if let Some(start) = content_start_ms {
            push_text(&mut args, "-ss");
            push_text(&mut args, &seconds_text(start));
        }
        assert(texts(args@) =~= seq!["-y"@] + seek_args(content_start_ms));
        push_text(&mut args, "-i");
        push_text(&mut args, input);
        let ghost front = seq!["-y"@] + seek_args(content_start_ms) + seq!["-i"@, input@];
        assert(texts(args@) =~= front);
        let length: Option<i32> = match (content_start_ms, content_end_ms) {
            (Some(start), Some(end)) => Some(end - start),
            (None, Some(end)) => Some(end),
            (_, None) => None,
        };
        if let Some(ms) = length {
            push_text(&mut args, "-t");
            push_text(&mut args, &seconds_text(ms));
        }
        let ghost front = front + length_args(content_start_ms, content_end_ms);
        assert(texts(args@) =~= front);
        push_text(&mut args, "-map");
        push_text(&mut args, "0");
        push_text(&mut args, "-ignore_unknown");
        push_text(&mut args, "-map_metadata");
        push_text(&mut args, "0");
        push_text(&mut args, "-map_chapters");
        push_text(&mut args, "0");
        let ghost front = front + seq![
            "-map"@,
            "0"@,
            "-ignore_unknown"@,
            "-map_metadata"@,
            "0"@,
            "-map_chapters"@,
            "0"@,
        ];
        assert(texts(args@) =~= front);
        self.push_video_args(&mut args);
        let ghost front = front + self.config.video_args();
        push_text(&mut args, "-c:a");
        push_text(&mut args, &self.config.audio_codec);
        push_text(&mut args, "-b:a");
        push_text(&mut args, "128k");
        push_text(&mut args, "-c:s");
        push_text(&mut args, "copy");
        push_text(&mut args, "-c:d");
        push_text(&mut args, "copy");
        push_text(&mut args, "-f");
        push_text(&mut args, Self::format(&self.config.container));
        push_text(&mut args, &transcoding_path);
        assert(texts(args@) =~= front + seq![
            "-c:a"@,
            self.config.audio_codec@,
            "-b:a"@,
            "128k"@,
            "-c:s"@,
            "copy"@,
            "-c:d"@,
            "copy"@,
            "-f"@,
            format_of(self.config.container@),
            transcoding_path@,
        ]);
        TranscodeJob { args, transcoding_path, final_path }
    }

    fn push_video_args(&self, args: &mut Vec<String>)
        ensures
            texts(final(args)@) == texts(old(args)@) + self.config.video_args(),
    {
        push_text(args, "-c:v");
        if self.config.use_hardware {
            push_text(args, "hevc_nvenc");
            push_text(args, "-preset");
            push_text(args, "p4");
            push_text(args, "-cq");
        } else {
            push_text(args, "libx265");
            push_text(args, "-preset");
            push_text(args, &self.config.preset);
            push_text(args, "-crf");
        }
        push_text(args, &decimal_text(self.config.crf as i64));
        assert(texts(args@) =~= texts(old(args)@) + self.config.video_args());
    }

    fn format(container: &str) -> (r: &str)
        ensures
            r@ == format_of(container@),
    {
        if same(container, "ts") {
            "mpegts"
        } else if same(container, "mkv") {
            "matroska"
        } else {
            container
        }
    }

    /// Whether the encoder has done its work, given what it printed.
    pub fn check(success: bool, stderr: &str) -> (r: Result<(), String>)
        ensures
            match r {
                Ok(()) => success,
                Err(message) => !success && message@ == "ffmpeg failed: "@ + stderr@,
            },
    {
        if success {
            Ok(())
        } else {
            let mut message = "ffmpeg failed: ".to_owned();
            message.append(stderr);
            Err(message)
        }
    }

    /// The frames that are compared: five, spread over the middle of the recording.
    pub fn sample_frames(total_frames: u64) -> (r: Vec<u64>)
        ensures
            r@ == frame_numbers(total_frames as int),
    {
        let start: u64 = total_frames / 10;
        let end: u64 = total_frames - total_frames / 10;
        let interval: u64 = (end - start) / 6;
        let mut out: Vec<u64> = Vec::new();
        for i in 0u64..5u64
            invariant
                start == total_frames / 10,
                interval == (total_frames - 2 * start) / 6,
                out@ == frame_numbers(total_frames as int).take(i as int),
        {
            assert(interval * (i + 1) <= interval * 5) by (nonlinear_arith)
                requires
                    i < 5,
            ;
            out.push(start + interval * (i + 1));
            assert(out@ =~= frame_numbers(total_frames as int).take(i + 1));
        }
        assert(out@ =~= frame_numbers(total_frames as int));
        out
    }

    /// Compares the frames of the original with those of the transcoded recording, pair by pair.
    pub fn verify(
        &self,
        original_hashes: &Vec<(u64, Vec<u8>)>,
        transcoded_hashes: &Vec<(u64, Vec<u8>)>,
    ) -> (r: FrameComparison)
        requires
            forall|i: int|
                0 <= i < original_hashes@.len() && i < transcoded_hashes@.len() ==> countable(
                    (#[trigger] original_hashes@[i]).1@,
                    transcoded_hashes@[i].1@,
                ),
        ensures
            match r {
                FrameComparison::Uneven(result) => {
                    &&& original_hashes@.len() != transcoded_hashes@.len()
                    &&& !result.passed
                    &&& result.similarity == (Score { bits: 0 })
                    &&& result.message@ == "Different number of frames extracted: "@ + decimal(
                        original_hashes@.len() as int,
                    ) + " vs "@ + decimal(transcoded_hashes@.len() as int)
                },
                FrameComparison::Distances(distances) => {
                    &&& original_hashes@.len() == transcoded_hashes@.len()
                    &&& distances@.len() == original_hashes@.len()
                    &&& forall|i: int|
                        0 <= i < distances@.len() ==> (#[trigger] distances@[i])
                            == frame_distance(original_hashes@[i].1@, transcoded_hashes@[i].1@)
                },
            },
    {
        if original_hashes.len() != transcoded_hashes.len() {
            let mut message = "Different number of frames extracted: ".to_owned();
            message.append(&count_text(original_hashes.len()));
            message.append(" vs ");
            message.append(&count_text(transcoded_hashes.len()));
            return FrameComparison::Uneven(
                VerifyResult { passed: false, similarity: Score::zero(), message },
            );
        }
        let mut distances: Vec<FrameDistance> = Vec::new();
        for i in 0..original_hashes.len()
            invariant
                original_hashes@.len() == transcoded_hashes@.len(),
                forall|i: int|
                    0 <= i < original_hashes@.len() && i < transcoded_hashes@.len() ==> countable(
                        (#[trigger] original_hashes@[i]).1@,
                        transcoded_hashes@[i].1@,
                    ),
                distances@.len() == i,
                forall|j: int|
                    0 <= j < i ==> (#[trigger] distances@[j]) == frame_distance(
                        original_hashes@[j].1@,
                        transcoded_hashes@[j].1@,
                    ),
        {
            let a = &original_hashes[i].1;
            let b = &transcoded_hashes[i].1;
            assert(countable(original_hashes@[i as int].1@, transcoded_hashes@[i as int].1@));
            let distance: u32 = Fingerprinter::hamming_distance(a, b);
            distances.push(FrameDistance { distance, bytes: a.len() });
        }
        FrameComparison::Distances(distances)
    }

    /// The verdict on a transcoded recording, given the mean similarity of its frames, once as a
    /// number and once in percent and in words.
    pub fn verdict(similarity: Score, percent: &str) -> (r: VerifyResult)
        ensures
            r.passed == similarity.at_least(Score { bits: NINETY_FIVE_PERCENT }),
            r.similarity == similarity,
            r.message@ == (if r.passed {
                "Verification passed with "@ + percent@ + "% similarity"@
            } else {
                "Verification failed: "@ + percent@ + "% similarity (need 95%)"@
            }),
    {
        let passed: bool = similarity.ge(Score::from_bits(NINETY_FIVE_PERCENT));
        let message = if passed {
            let mut m = "Verification passed with ".to_owned();
            m.append(percent);
            m.append("% similarity");
            m
        } else {
            let mut m = "Verification failed: ".to_owned();
            m.append(percent);
            m.append("% similarity (need 95%)");
            m
        };
        VerifyResult { passed, similarity, message }
    }

    /// The way in which a transcoded recording takes the place of the original.
    pub fn finalize(
        &self,
        result: &TranscodeResult,
        original: &str,
        preserve_original: bool,
    ) -> (r: FinalizeJob)
        ensures
            r.transcoding_path@ == result.transcoding_path@,
            r.final_path@ == result.final_path@,
            r.original@ == original@,
            r.preserve_original == preserve_original,
    {
        FinalizeJob {
            transcoding_path: result.transcoding_path.as_str().to_owned(),
            final_path: result.final_path.as_str().to_owned(),
            original: original.to_owned(),
            preserve_original,
        }
    }

    /// The arguments of the probe for the frame rate.
    pub fn fps_args(path: &str) -> (r: Vec<String>)
        ensures
            texts(r@) == seq![
                "-v"@,
                "quiet"@,
                "-select_streams"@,
                "v:0"@,
                "-show_entries"@,
                "stream=r_frame_rate"@,
                "-of"@,
                "csv=p=0"@,
                path@,
            ],
    {
        let mut args: Vec<String> = Vec::new();
        push_text(&mut args, "-v");
        push_text(&mut args, "quiet");
        push_text(&mut args, "-select_streams");
        push_text(&mut args, "v:0");
        push_text(&mut args, "-show_entries");
        push_text(&mut args, "stream=r_frame_rate");
        push_text(&mut args, "-of");
        push_text(&mut args, "csv=p=0");
        push_text(&mut args, path);
        args
    }

    /// Reads the frame rate out of the output of a probe: a fraction or a plain number.
    pub fn get_fps(output: &str) -> (r: FrameRate)
        ensures
            is_frame_rate(r, rate_text(output@)),
    {
        let line = match head_line(&chars_of(output)) {
            Some(line) => line,
            None => chars_of("30"),
        };
        let text = trim(&line);
        assert(text@ == rate_text(output@));
        let at = position_of(&text, '/');
        if at < text.len() {
            assert(text@.take(at as int) =~= text@.subrange(0, at as int));
            assert(text@.skip(at + 1) =~= text@.subrange(at + 1, text@.len() as int));
            FrameRate::Fraction {
                numerator: string_of(slice_subrange(&text, 0, at)),
                denominator: string_of(slice_subrange(&text, at + 1, text.len())),
            }
        } else {
            FrameRate::Plain(string_of(&text))
        }
    }
}

/// A frame rate as it is written.
#[derive(Debug, Clone)]
pub enum FrameRate {
    Fraction { numerator: String, denominator: String },
    Plain(String),
}

/// The text that a frame rate is read from: the first line of the output, `30` where there is none.
pub open spec fn rate_text(output: Seq<char>) -> Seq<char> {
    trimmed(
        match first_line(output) {
            Some(line) => line,
            None => "30"@,
        },
    )
}

/// `rate` is `text` taken apart at its first `/`.
pub open spec fn is_frame_rate(rate: FrameRate, text: Seq<char>) -> bool {
    let at = crate::text::find_char(text, '/');
    match rate {
        FrameRate::Fraction { numerator, denominator } => at < text.len() && numerator@
            == text.take(at) && denominator@ == text.skip(at + 1),
        FrameRate::Plain(number) => at >= text.len() && number@ == text,
    }
}

/// A transcoded recording.
#[derive(Debug, Clone)]
pub struct TranscodeResult {
    pub transcoding_path: String,
    pub final_path: String,
    pub original_size: i64,
    pub transcoded_size: i64,
}

impl TranscodeResult {
    /// How many bytes the transcoding saves.
    pub fn savings_bytes(&self) -> (r: i64)
        requires
            i64::MIN <= self.original_size - self.transcoded_size <= i64::MAX,
        ensures
            r == self.original_size - self.transcoded_size,
    {
        self.original_size - self.transcoded_size
    }
}

/// The outcome of the comparison of a transcoded recording with the original.
#[derive(Debug, Clone)]
pub struct VerifyResult {
    pub passed: bool,
    pub similarity: Score,
    pub message: String,
}

/// What is known so far in the extraction of subtitles.
#[derive(Debug, Clone)]
pub struct SubtitleFacts {
    /// Whether there is a file with subtitles next to the video.
    pub exists: bool,
    /// The output of the probe for subtitles, once it has run.
    pub probe: Option<Vec<u8>>,
    /// Whether the subtitles were extracted and are there, once it has been tried.
    pub extracted: Option<bool>,
}

/// What the extraction of subtitles does next.
#[derive(Debug, Clone)]
pub enum SubtitleStep {
    /// Probe the video for subtitles.
    Probe(Vec<String>),
    /// Extract the subtitles.
    Extract(Vec<String>),
    /// The subtitles are in the given file, or there are none.
    Done(Option<String>),
}

/// The arguments of the probe for subtitles.
pub open spec fn subtitle_probe_args(video: Seq<char>) -> Seq<Seq<char>> {
    seq![
        "-v"@,
        "quiet"@,
        "-select_streams"@,
        "s"@,
        "-show_entries"@,
        "stream=index,codec_name"@,
        "-of"@,
        "json"@,
        video,
    ]
}

/// The arguments of the extraction of subtitles.
pub open spec fn subtitle_args(video: Seq<char>, subtitles: Seq<char>) -> Seq<Seq<char>> {
    seq!["-y"@, "-i"@, video, "-map"@, "0:s:0"@, "-c:s"@, "srt"@, subtitles]
}

/// Where the subtitles of a video are kept.
pub open spec fn subtitle_path(video: Seq<char>) -> Seq<char> {
    with_extension(video, "srt"@)
}

/// The next step in the extraction of the subtitles of a video: nothing is done where they are
/// there already, or where the video has none.
pub fn extract_subtitles(video_path: &str, facts: &SubtitleFacts) -> (r: SubtitleStep)
    ensures
        match r {
            SubtitleStep::Probe(args) => !facts.exists && facts.probe is None && texts(args@)
                == subtitle_probe_args(video_path@),
            SubtitleStep::Extract(args) => {
                &&& !facts.exists
                &&& facts.probe matches Some(output) && lists_streams(output@)
                &&& facts.extracted is None
                &&& texts(args@) == subtitle_args(video_path@, subtitle_path(video_path@))
            },
            SubtitleStep::Done(Some(path)) => {
                &&& path@ == subtitle_path(video_path@)
                &&& facts.exists || (facts.probe matches Some(output) && lists_streams(output@)
                    && facts.extracted == Some(true))
            },
            SubtitleStep::Done(None) => {
                &&& !facts.exists
                &&& facts.probe matches Some(output) && (!lists_streams(output@)
                    || facts.extracted == Some(false))
            },
        },
{
    proof {
        reveal_strlit("srt");
        assert(!"srt"@.contains('/'));
    }
    let path = change_extension(video_path, "srt");
    if facts.exists {
        return SubtitleStep::Done(Some(path));
    }
    match &facts.probe {
        None => {
            let mut args: Vec<String> = Vec::new();
            push_text(&mut args, "-v");
            push_text(&mut args, "quiet");
            push_text(&mut args, "-select_streams");
            push_text(&mut args, "s");
            push_text(&mut args, "-show_entries");
            push_text(&mut args, "stream=index,codec_name");
            push_text(&mut args, "-of");
            push_text(&mut args, "json");
            push_text(&mut args, video_path);
            SubtitleStep::Probe(args)
        },
        Some(output) => if !has_streams(output) {
            SubtitleStep::Done(None)
        } else {
            match facts.extracted {
                None => {
                    let mut args: Vec<String> = Vec::new();
                    push_text(&mut args, "-y");
                    push_text(&mut args, "-i");
                    push_text(&mut args, video_path);
                    push_text(&mut args, "-map");
                    push_text(&mut args, "0:s:0");
                    push_text(&mut args, "-c:s");
                    push_text(&mut args, "srt");
                    push_text(&mut args, &path);
                    SubtitleStep::Extract(args)
                },
                Some(true) => SubtitleStep::Done(Some(path)),
                Some(false) => SubtitleStep::Done(None),
            }
        },
    }
}

/// The first of the known hardware encoders in the list of encoders.
pub open spec fn hardware_encoder(encoders: Seq<char>) -> Option<Seq<char>> {
    if has_text(encoders, "hevc_nvenc"@) {
        Some("nvenc"@)
    } else if has_text(encoders, "hevc_vaapi"@) {
        Some("vaapi"@)
    } else if has_text(encoders, "hevc_qsv"@) {
        Some("qsv"@)
    } else {
        None
    }
}

/// Finds a hardware encoder in the list of encoders.
pub fn detect_hardware_encoder(encoders: &str) -> (r: Option<&'static str>)
    ensures
        match r {
            Some(name) => hardware_encoder(encoders@) == Some(name@),
            None => hardware_encoder(encoders@) is None,
        },
{
    if contains(encoders, "hevc_nvenc") {
        Some("nvenc")
    } else if contains(encoders, "hevc_vaapi") {
        Some("vaapi")
    } else if contains(encoders, "hevc_qsv") {
        Some("qsv")
    } else {
        None
    }
}

/// The frames that are compared lie in the middle four fifths of the recording, in order.
pub proof fn frames_lie_in_the_middle(total_frames: u64, i: int, j: int)
    requires
        0 <= i < j < 5,
    ensures
        total_frames / 10 <= frame_numbers(total_frames as int)[i],
        frame_numbers(total_frames as int)[i] <= frame_numbers(total_frames as int)[j],
        frame_numbers(total_frames as int)[j] <= total_frames - total_frames / 10,
{
    let t = total_frames as int;
    let interval = (t - 2 * (t / 10)) / 6;
    assert(0 <= interval * (i + 1) <= interval * (j + 1) <= interval * 5) by (nonlinear_arith)
        requires
            0 <= i < j < 5,
            0 <= interval,
    ;
}

/// The option `name` stands among the arguments and is followed by `value`.
pub open spec fn option_is(args: Seq<Seq<char>>, name: Seq<char>, value: Seq<char>) -> bool {
    exists|k: int| 0 <= k < args.len() - 1 && #[trigger] args[k] == name && args[k + 1] == value
}

/// Where the arguments behind the kept part of a recording begin.
spec fn rest_at(start_ms: Option<i32>, end_ms: Option<i32>) -> int {
    (seek_args(start_ms).len() + 3 + length_args(start_ms, end_ms).len()) as int
}

proof fn lemma_args_by_position(
    config: TranscodeConfig,
    input: Seq<char>,
    start_ms: Option<i32>,
    end_ms: Option<i32>,
    output: Seq<char>,
)
    ensures
        ({
            let args = config.all_args(input, start_ms, end_ms, output);
            let s = seek_args(start_ms).len() as int;
            let r = rest_at(start_ms, end_ms);
            &&& args.len() == r + 24
            &&& start_ms matches Some(start) ==> s == 2 && args[1] == "-ss"@ && args[2] == seconds(
                start as int,
            )
            &&& start_ms is None ==> s == 0
            &&& args[s + 1] == "-i"@
            &&& args[s + 2] == input
            &&& end_ms matches Some(end) ==> r == s + 5 && args[s + 3] == "-t"@ && args[s + 4]
                == seconds(
                end - (match start_ms {
                    Some(start) => start as int,
                    None => 0,
                }),
            )
            &&& end_ms is None ==> r == s + 3
            &&& args[r] == "-map"@
            &&& args[r + 7] == "-c:v"@
            &&& args[r + 8] == (if config.use_hardware {
                "hevc_nvenc"@
            } else {
                "libx265"@
            })
            &&& args[r + 9] == "-preset"@
            &&& !config.use_hardware ==> args[r + 10] == config.preset@ && args[r + 11] == "-crf"@
            &&& config.use_hardware ==> args[r + 11] == "-cq"@
            &&& args[r + 12] == decimal(config.crf as int)
            &&& args[r + 13] == "-c:a"@
            &&& args[r + 14] == config.audio_codec@
            &&& args[r + 21] == "-f"@
            &&& args[r + 22] == format_of(config.container@)
            &&& args[r + 23] == output
        }),
{
}

/// In software encoding the argument that follows `-preset` is the preset of the configuration. With
/// either encoder the quality and the audio codec of the configuration follow their options, the
/// input follows `-i`, and the output comes last. The point in time that a recording is kept from
/// follows `-ss`, and the time from there to its end follows `-t`.
pub proof fn settings_follow_their_options(
    config: TranscodeConfig,
    input: Seq<char>,
    start_ms: Option<i32>,
    end_ms: Option<i32>,
    output: Seq<char>,
)
    ensures
        ({
            let args = config.all_args(input, start_ms, end_ms, output);
            &&& !config.use_hardware ==> option_is(args, "-preset"@, config.preset@)
            &&& !config.use_hardware ==> option_is(args, "-crf"@, decimal(config.crf as int))
            &&& config.use_hardware ==> option_is(args, "-cq"@, decimal(config.crf as int))
            &&& option_is(args, "-c:a"@, config.audio_codec@)
            &&& option_is(args, "-i"@, input)
            &&& args.last() == output
            &&& start_ms matches Some(start) ==> option_is(args, "-ss"@, seconds(start as int))
            &&& end_ms matches Some(end) ==> option_is(
                args,
                "-t"@,
                seconds(
                    end - (match start_ms {
                        Some(start) => start as int,
                        None => 0,
                    }),
                ),
            )
        }),
{
    let args = config.all_args(input, start_ms, end_ms, output);
    let s = seek_args(start_ms).len() as int;
    let r = rest_at(start_ms, end_ms);
    lemma_args_by_position(config, input, start_ms, end_ms, output);
    assert(args[r + 9] == "-preset"@ && args[r + 9 + 1] == args[r + 10]);
    assert(args[r + 11 + 1] == args[r + 12]);
    assert(args[r + 13 + 1] == args[r + 14]);
    assert(args[s + 1 + 1] == input);
    if start_ms is Some {
        let k = 1int;
        assert(args[k] == "-ss"@ && args[k + 1] == args[2]);
    }
    if end_ms is Some {
        assert(args[s + 3] == "-t"@ && args[s + 3 + 1] == args[s + 4]);
    }
}

/// Nothing that a transcoding is asked for is lost: where two transcodings have the same arguments,
/// they have the same input and output, begin at the same point in time and keep as much, use the
/// same encoder with the same quality, the same audio codec and the same format, and in software the
/// same preset.
pub proof fn different_settings_give_different_arguments(
    a: TranscodeConfig,
    b: TranscodeConfig,
    input_a: Seq<char>,
    input_b: Seq<char>,
    start_a: Option<i32>,
    start_b: Option<i32>,
    end_a: Option<i32>,
    end_b: Option<i32>,
    output_a: Seq<char>,
    output_b: Seq<char>,
)
    requires
        a.all_args(input_a, start_a, end_a, output_a) == b.all_args(
            input_b,
            start_b,
            end_b,
            output_b,
        ),
    ensures
        input_a == input_b,
        output_a == output_b,
        start_a == start_b,
        end_a == end_b,
        a.use_hardware == b.use_hardware,
        a.crf == b.crf,
        !a.use_hardware ==> a.preset@ == b.preset@,
        a.audio_codec@ == b.audio_codec@,
        format_of(a.container@) == format_of(b.container@),
{
    lemma_args_by_position(a, input_a, start_a, end_a, output_a);
    lemma_args_by_position(b, input_b, start_b, end_b, output_b);
    reveal_strlit("-ss");
    reveal_strlit("-i");
    reveal_strlit("-t");
    reveal_strlit("-map");
    reveal_strlit("hevc_nvenc");
    reveal_strlit("libx265");
    assert("-ss"@.len() != "-i"@.len());
    assert("-t"@.len() != "-map"@.len());
    assert("hevc_nvenc"@.len() != "libx265"@.len());
    assert(start_a is Some <==> start_b is Some);
    if start_a is Some {
        written_seconds_differ(start_a->0 as int, start_b->0 as int);
    }
    assert(end_a is Some <==> end_b is Some);
    if end_a is Some {
        let from = match start_a {
            Some(start) => start as int,
            None => 0,
        };
        written_seconds_differ(end_a->0 - from, end_b->0 - from);
    }
    written_numbers_read_back(a.crf as int);
    assert(decimal(b.crf as int) == decimal(a.crf as int));
}

/// A container that is no transport stream and no Matroska file is its own format.
pub proof fn other_containers_are_their_own_format(container: Seq<char>)
    requires
        container != "ts"@,
        container != "mkv"@,
    ensures
        format_of(container) == container,
{
}

/// The compared frames are spread evenly: each is as far from the one before it as the first is from
/// the tenth part of the recording that is left out in front, and as much room is left behind the
/// last of them.
pub proof fn frames_are_spread_evenly(total_frames: u64, i: int)
    requires
        0 <= i < 4,
    ensures
        frame_numbers(total_frames as int).len() == 5,
        frame_numbers(total_frames as int)[i + 1] - frame_numbers(total_frames as int)[i]
            == frame_numbers(total_frames as int)[0] - total_frames / 10,
        0 <= total_frames - total_frames / 10 - frame_numbers(total_frames as int)[4] - (
        frame_numbers(total_frames as int)[0] - total_frames / 10) < 6,
{
    let t = total_frames as int;
    let start = t / 10;
    let step = (t - 2 * start) / 6;
    assert(0 <= step && 6 * step <= t - 2 * start < 6 * step + 6);
    assert(step * (i + 1) == step * i + step && step * (i + 2) == step * i + 2 * step && step * (4
        + 1) == 5 * step && step * (0 + 1) == step) by (nonlinear_arith);
    assert(0 <= step * i <= 3 * step) by (nonlinear_arith)
        requires
            0 <= i < 4,
            0 <= step,
    ;
}

/// While a recording is transcoded, what comes out has the name of the recording with another
/// extension, so that recordings of different names do not get in each other's way.
pub proof fn working_name_keeps_the_stem(
    original: Seq<char>,
    other: Seq<char>,
    temp_dir: Option<Seq<char>>,
)
    requires
        file_stem(original) is Some,
        file_stem(other) is Some,
    ensures
        file_stem(working_path(original, temp_dir)) == file_stem(original),
        extension(working_path(original, temp_dir)) == Some("transcoding"@),
        working_path(original, temp_dir) == working_path(other, temp_dir) ==> file_stem(original)
            == file_stem(other),
{
    lemma_working_name(original, temp_dir);
    lemma_working_name(other, temp_dir);
}

proof fn lemma_working_name(original: Seq<char>, temp_dir: Option<Seq<char>>)
    requires
        file_stem(original) is Some,
    ensures
        file_stem(working_path(original, temp_dir)) == file_stem(original),
        extension(working_path(original, temp_dir)) == Some("transcoding"@),
{
    let s = file_stem(original)->0;
    let name = s + ".transcoding"@;
    stems_are_names(original);
    reveal_strlit(".transcoding");
    reveal_strlit("transcoding");
    assert(name =~= s.push('.') + "transcoding"@);
    assert(!name.contains('/')) by {
        if name.contains('/') {
            let k = choose|k: int| 0 <= k < name.len() && name[k] == '/';
            if k < s.len() {
                assert(s.contains(s[k]));
            }
        }
    }
    extended_name_falls_apart(s, "transcoding"@);
    joined_name_is_the_file_name(original, name);
    if let Some(dir) = temp_dir {
        joined_name_is_the_file_name(dir, name);
    }
}

/// A stream is told of if and only if its kind is missing, empty or unknown, and those that are told
/// of come in order.
pub proof fn only_unknown_streams_are_told_of(streams: Seq<ProbedStream>, n: int, i: int)
    requires
        0 <= n <= streams.len(),
    ensures
        unknown_positions(streams, n).contains(i) <==> 0 <= i < n && (streams[i].codec_type is None
            || streams[i].codec_type->0@.len() == 0 || streams[i].codec_type->0@ == "unknown"@),
        forall|k: int, l: int|
            0 <= k < l < unknown_positions(streams, n).len() ==> #[trigger] unknown_positions(
                streams,
                n,
            )[k] < #[trigger] unknown_positions(streams, n)[l],
    decreases n,
{
    let now = unknown_positions(streams, n);
    reveal_strlit("");
    if n > 0 {
        only_unknown_streams_are_told_of(streams, n - 1, i);
        let before = unknown_positions(streams, n - 1);
        let last = streams[n - 1];
        if last.codec_type is Some && last.codec_type->0@.len() == 0 {
            assert(last.codec_type->0@ =~= ""@);
        }
        if before.contains(i) {
            let k = choose|k: int| 0 <= k < before.len() && before[k] == i;
            assert(now[k] == i);
        }
        if is_unknown(last) {
            assert(now[before.len() as int] == n - 1);
        }
        if now.contains(i) {
            let k = choose|k: int| 0 <= k < now.len() && now[k] == i;
            if k < before.len() {
                assert(before[k] == i);
            }
        }
        assert forall|k: int, l: int| 0 <= k < l < now.len() implies #[trigger] now[k]
            < #[trigger] now[l] by {
            if l < before.len() {
                assert(before[k] < before[l]);
            } else {
                only_unknown_streams_are_told_of(streams, n - 1, before[k]);
                assert(before.contains(before[k]));
            }
        }
    }
}

/// What is told of a stream is its number and its codec; different ones are told differently, and a
/// stream without them has the number zero and no codec.
pub proof fn number_and_codec_are_told(u: UnknownStream, stream: ProbedStream)
    requires
        tells_of(u, stream),
    ensures
        stream.index matches Some(index) ==> index <= usize::MAX ==> u.index == index,
        stream.index is None ==> u.index == 0,
        stream.codec_name matches Some(name) ==> u.codec@ == name@,
        stream.codec_name is None ==> u.codec@ == "none"@,
{
}

/// The parts of a frame rate make up its text again: a fraction with the slash between them, of which
/// there is none in the numerator, and a plain number without one.
pub proof fn frame_rate_is_taken_apart(rate: FrameRate, text: Seq<char>)
    requires
        is_frame_rate(rate, text),
    ensures
        match rate {
            FrameRate::Fraction { numerator, denominator } => text == numerator@ + seq!['/']
                + denominator@ && !numerator@.contains('/'),
            FrameRate::Plain(number) => text == number@ && !number@.contains('/'),
        },
{
    let at = crate::text::find_char(text, '/');
    crate::text::lemma_find_char(text, '/');
    match rate {
        FrameRate::Fraction { numerator, denominator } => {
            assert(text =~= numerator@ + seq!['/'] + denominator@);
            if numerator@.contains('/') {
                let k = choose|k: int| 0 <= k < numerator@.len() && numerator@[k] == '/';
                assert(text[k] == '/');
            }
        },
        FrameRate::Plain(number) => {
            if number@.contains('/') {
                let k = choose|k: int| 0 <= k < text.len() && text[k] == '/';
            }
        },
    }
}

/// The frame rate is read from the first line of the output, without white space around it; what
/// follows that line does not matter.
pub proof fn frame_rate_stands_on_the_first_line(line: Seq<char>, rest: Seq<char>)
    requires
        line.len() > 0,
        !line.contains('\n'),
        line.last() != '\r',
    ensures
        rate_text(line + seq!['\n'] + rest) == trimmed(line),
        rate_text(line) == trimmed(line),
        rate_text(Seq::empty()) == trimmed("30"@),
{
    first_line_ends_at_the_line_feed(line, rest);
}

/// An encoder is found wherever in the list its name stands, the first of the known ones where there
/// are several, and none is made up.
pub proof fn known_encoder_is_found(front: Seq<char>, rest: Seq<char>, encoders: Seq<char>)
    ensures
        hardware_encoder(front + "hevc_nvenc"@ + rest) == Some("nvenc"@),
        hardware_encoder(front + "hevc_vaapi"@ + rest) is Some,
        hardware_encoder(front + "hevc_qsv"@ + rest) is Some,
        hardware_encoder(encoders) == Some("vaapi"@) ==> has_text(encoders, "hevc_vaapi"@)
            && !has_text(encoders, "hevc_nvenc"@),
        hardware_encoder(encoders) == Some("qsv"@) ==> has_text(encoders, "hevc_qsv"@) && !has_text(
            encoders,
            "hevc_nvenc"@,
        ) && !has_text(encoders, "hevc_vaapi"@),
        hardware_encoder(encoders) is Some ==> has_text(encoders, "hevc_nvenc"@) || has_text(
            encoders,
            "hevc_vaapi"@,
        ) || has_text(encoders, "hevc_qsv"@),
{
    lemma_text_inside(front, "hevc_nvenc"@, rest);
    lemma_text_inside(front, "hevc_vaapi"@, rest);
    lemma_text_inside(front, "hevc_qsv"@, rest);
    reveal_strlit("nvenc");
    reveal_strlit("vaapi");
    reveal_strlit("qsv");
    assert("nvenc"@[0] != "vaapi"@[0]);
    assert("qsv"@.len() != "vaapi"@.len());
    assert("qsv"@.len() != "nvenc"@.len());
}

proof fn lemma_text_inside(front: Seq<char>, text: Seq<char>, rest: Seq<char>)
    ensures
        has_text(front + text + rest, text),
{
    let all = front + text + rest;
    assert(all.subrange(front.len() as int, (front.len() + text.len()) as int) =~= text);
    assert(occurs_at(all, text, front.len() as int));
}

/// The subtitles of a video lie next to it under its name, with the extension `srt`, and are taken
/// from it.
pub proof fn subtitles_have_the_name_of_the_video(video: Seq<char>, subtitles: Seq<char>)
    requires
        file_stem(video) is Some,
    ensures
        file_stem(subtitle_path(video)) == file_stem(video),
        extension(subtitle_path(video)) == Some("srt"@),
        option_is(subtitle_args(video, subtitles), "-i"@, video),
        subtitle_args(video, subtitles).last() == subtitles,
        subtitle_probe_args(video).last() == video,
{
    reveal_strlit("srt");
    assert(!"srt"@.contains('/'));
    assert(!"srt"@.contains('.'));
    changed_extension_is_found(video, "srt"@);
    let args = subtitle_args(video, subtitles);
    let k = 1int;
    assert(args[k] == "-i"@ && args[k + 1] == video);
}

}
