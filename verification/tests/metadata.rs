use dvrreview::scanner::metadata::{
    parse_filename, FfprobeFormat, FfprobeOutput, FfprobeStream, MediaMetadata,
};

fn stream(kind: &str, codec: Option<&str>, width: Option<i32>) -> FfprobeStream {
    FfprobeStream {
        codec_type: Some(kind.to_string()),
        codec_name: codec.map(|c| c.to_string()),
        width,
        height: width.map(|w| w / 2),
    }
}

fn text(s: &str) -> Option<String> {
    Some(s.to_string())
}

#[test]
fn test_parse_filename_with_season_episode() {
    let parsed = parse_filename("SpongeBob SquarePants S03E12 - Chocolate With Nuts.mkv");
    assert_eq!(parsed.title, Some("SpongeBob SquarePants".to_string()));
    assert_eq!(parsed.season, Some(3));
    assert_eq!(parsed.episode, Some(12));
}

#[test]
fn test_parse_filename_no_episode() {
    let parsed = parse_filename("Some Movie (2024).mkv");
    assert_eq!(parsed.title, Some("Some Movie (2024)".to_string()));
    assert_eq!(parsed.season, None);
    assert_eq!(parsed.episode, None);
}

#[test]
fn separators_in_titles_become_spaces() {
    let parsed = parse_filename("The.Big_Show.s1e2.ts");
    assert_eq!(parsed.title, text("The Big Show"));
    assert_eq!((parsed.season, parsed.episode), (Some(1), Some(2)));
    let parsed = parse_filename("Some__Movie...2024.ts");
    assert_eq!(parsed.title, text("Some Movie 2024"));
}

#[test]
fn the_first_mark_counts_and_has_two_digits_at_most() {
    let parsed = parse_filename("A S1x S22e345 S01E02.ts");
    assert_eq!((parsed.season, parsed.episode), (Some(22), Some(34)));
    assert_eq!(parsed.title, text("A S1x"));
    let parsed = parse_filename("A S123E4.ts");
    assert_eq!((parsed.season, parsed.episode), (None, None));
    assert_eq!(parsed.title, text("A S123E4"));
}

#[test]
fn without_a_title_before_the_mark_the_whole_name_is_the_title() {
    let parsed = parse_filename("S01E02 - Pilot.ts");
    assert_eq!(parsed.title, text("S01E02 - Pilot"));
    assert_eq!((parsed.season, parsed.episode), (Some(1), Some(2)));
    assert_eq!(parse_filename("- _.S01E02.ts").title, text("-"));
}

#[test]
fn titles_beyond_ascii_are_kept() {
    let parsed = parse_filename("Zw\u{f6}lf \u{2014} S05E06.ts");
    assert_eq!(parsed.title, text("Zw\u{f6}lf \u{2014}"));
    assert_eq!((parsed.season, parsed.episode), (Some(5), Some(6)));
    assert_eq!(parse_filename("S\u{0661}E\u{0662}.ts").season, None);
}

#[test]
fn nothing_is_read_out_of_nothing() {
    let parsed = parse_filename("");
    assert_eq!((parsed.title, parsed.season, parsed.episode), (None, None, None));
    assert_eq!(parse_filename("..").title, None);
    assert_eq!(parse_filename("._.ts").title, None);
}

#[test]
fn probe_arguments() {
    assert_eq!(
        MediaMetadata::probe_args("/a b.ts"),
        vec!["-v", "quiet", "-print_format", "json", "-show_format", "-show_streams", "/a b.ts"]
    );
}

#[test]
fn first_streams_count() {
    let probe = FfprobeOutput {
        format: Some(FfprobeFormat { duration: text("60.5"), bit_rate: text("4000000") }),
        streams: Some(vec![
            stream("data", Some("bin"), None),
            stream("video", Some("mpeg2video"), Some(1920)),
            stream("audio", Some("ac3"), None),
            stream("video", Some("h264"), Some(640)),
            stream("audio", Some("aac"), None),
        ]),
    };
    let meta = MediaMetadata::from_probe(&probe, Some(60_500));
    assert_eq!(meta.duration_ms, Some(60_500));
    assert_eq!(meta.bitrate, Some(4_000_000));
    assert_eq!(meta.video_codec, text("mpeg2video"));
    assert_eq!((meta.width, meta.height), (Some(1920), Some(960)));
    assert_eq!(meta.audio_codec, text("ac3"));
}

#[test]
fn a_stream_without_a_codec_gives_way() {
    let probe = FfprobeOutput {
        format: None,
        streams: Some(vec![
            stream("video", None, Some(100)),
            stream("video", Some("h264"), Some(200)),
            stream("video", None, Some(300)),
        ]),
    };
    let meta = MediaMetadata::from_probe(&probe, Some(1));
    assert_eq!(meta.video_codec, text("h264"));
    assert_eq!(meta.width, Some(200));
    assert_eq!(meta.duration_ms, None);
    let probe = FfprobeOutput {
        format: Some(FfprobeFormat { duration: None, bit_rate: text("fast") }),
        streams: Some(vec![stream("video", None, Some(100)), stream("video", None, Some(300))]),
    };
    let meta = MediaMetadata::from_probe(&probe, Some(1));
    assert_eq!((meta.video_codec, meta.width), (None, Some(300)));
    assert_eq!((meta.duration_ms, meta.bitrate), (None, None));
}

#[test]
fn an_empty_probe_tells_nothing() {
    let meta = MediaMetadata::from_probe(&FfprobeOutput { format: None, streams: None }, None);
    assert_eq!((meta.duration_ms, meta.width, meta.height, meta.bitrate), (None, None, None, None));
    assert_eq!((meta.video_codec, meta.audio_codec), (None, None));
}
