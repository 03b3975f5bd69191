use dvrreview::score::Score;
use dvrreview::transcode::finalize::{
    FinalizeAction, FinalizeError, FinalizeEvent, FinalizeJob, FinalizeState, Target,
};
use dvrreview::transcode::{
    detect_hardware_encoder, extract_subtitles, probe_unknown_streams, unknown_streams_args,
    FrameComparison, FrameRate, SubtitleFacts, SubtitleStep, TranscodeConfig, TranscodeResult,
    Transcoder,
};

fn config(container: &str) -> TranscodeConfig {
    TranscodeConfig { container: container.to_string(), ..TranscodeConfig::default() }
}

fn job(final_path: &str, original: &str, preserve_original: bool) -> FinalizeJob {
    let result = TranscodeResult {
        transcoding_path: "/tmp/a.transcoding".to_string(),
        final_path: final_path.to_string(),
        original_size: 1000,
        transcoded_size: 400,
    };
    Transcoder::new(config("mkv")).finalize(&result, original, preserve_original)
}

/// Runs a job against events and gives the actions that were taken.
fn run(job: &FinalizeJob, events: &[FinalizeEvent]) -> (Vec<String>, FinalizeState) {
    let mut state = job.begin();
    let mut done: Vec<String> = Vec::new();
    for event in events {
        let shown = match FinalizeJob::action(state) {
            FinalizeAction::Rename { from, to } => format!("rename {} {}", job.path(from), job.path(to)),
            FinalizeAction::Hash(target) => format!("hash {}", job.path(target)),
            FinalizeAction::Copy { from, to } => format!("copy {} {}", job.path(from), job.path(to)),
            FinalizeAction::Remove(target) => format!("remove {}", job.path(target)),
            FinalizeAction::Finish => "finish".to_string(),
            FinalizeAction::Fail(e) => format!("fail {}", e.message()),
        };
        done.push(shown);
        state = job.advance(state, *event);
    }
    (done, state)
}

#[test]
fn defaults_of_the_configuration() {
    let c = TranscodeConfig::default();
    assert_eq!((c.crf, c.preset.as_str(), c.use_hardware), (23, "medium", false));
    assert_eq!((c.audio_codec.as_str(), c.container.as_str()), ("aac", "ts"));
}

#[test]
fn working_files_lie_next_to_the_original_or_in_the_given_directory() {
    assert_eq!(Transcoder::transcoding_path("/dvr/a.b.ts", None), "/dvr/a.b.transcoding");
    assert_eq!(Transcoder::transcoding_path("/dvr/a.b.ts", Some("/tmp")), "/tmp/a.b.transcoding");
    assert_eq!(Transcoder::transcoding_path("a.ts", None), "a.transcoding");
    assert_eq!(Transcoder::transcoding_path("/", None), "/.transcoding");
    assert_eq!(Transcoder::final_path("/dvr/a.b.ts", "mkv"), "/dvr/a.b.mkv");
    assert_eq!(Transcoder::final_path("/dvr/a.ts", "ts"), "/dvr/a.ts");
}

#[test]
fn software_encoding_of_a_part() {
    let job = Transcoder::new(config("mkv")).transcode("/dvr/a.ts", Some(1500), Some(61_500), None);
    assert_eq!(job.transcoding_path, "/dvr/a.transcoding");
    assert_eq!(job.final_path, "/dvr/a.mkv");
    assert_eq!(
        job.args,
        vec![
            "-y", "-ss", "1.500", "-i", "/dvr/a.ts", "-t", "60.000", "-map", "0", "-ignore_unknown",
            "-map_metadata", "0", "-map_chapters", "0", "-c:v", "libx265", "-preset", "medium", "-crf",
            "23", "-c:a", "aac", "-b:a", "128k", "-c:s", "copy", "-c:d", "copy", "-f", "matroska",
            "/dvr/a.transcoding"
        ]
    );
}

#[test]
fn hardware_encoding_up_to_a_point() {
    let mut c = config("ts");
    c.use_hardware = true;
    c.crf = 30;
    let job = Transcoder::new(c).transcode("/dvr/a.ts", None, Some(2000), Some("/tmp/x"));
    assert_eq!(
        job.args,
        vec![
            "-y", "-i", "/dvr/a.ts", "-t", "2.000", "-map", "0", "-ignore_unknown", "-map_metadata", "0",
            "-map_chapters", "0", "-c:v", "hevc_nvenc", "-preset", "p4", "-cq", "30", "-c:a", "aac",
            "-b:a", "128k", "-c:s", "copy", "-c:d", "copy", "-f", "mpegts", "/tmp/x/a.transcoding"
        ]
    );
}

#[test]
fn formats_of_containers() {
    for (container, format) in [("ts", "mpegts"), ("mkv", "matroska"), ("mp4", "mp4"), ("webm", "webm"), ("nut", "nut")] {
        let job = Transcoder::new(config(container)).transcode("a.ts", Some(-5), None, None);
        assert_eq!(job.args[job.args.len() - 2], format);
        assert_eq!(job.args[2], "-0.005");
        assert!(!job.args.contains(&"-t".to_string()));
    }
}

#[test]
fn a_failed_encoder_is_quoted() {
    assert!(Transcoder::check(true, "noise").is_ok());
    assert_eq!(Transcoder::check(false, "no codec").unwrap_err(), "ffmpeg failed: no codec");
}

#[test]
fn sampled_frames_lie_in_the_middle() {
    assert_eq!(Transcoder::sample_frames(6000), vec![1400, 2200, 3000, 3800, 4600]);
    assert_eq!(Transcoder::sample_frames(0), vec![0, 0, 0, 0, 0]);
    for t in [1u64, 7, 59, 12345, u64::MAX] {
        let frames = Transcoder::sample_frames(t);
        assert!(frames[0] >= t / 10 && frames[4] <= t - t / 10);
        for k in 1..5 {
            assert!(frames[k - 1] <= frames[k]);
        }
    }
}

#[test]
fn frames_are_compared_pair_by_pair() {
    let transcoder = Transcoder::new(config("mkv"));
    let original = vec![(10, vec![0x0f]), (20, vec![0xff, 0x00])];
    let transcoded = vec![(10, vec![0x0e]), (20, vec![0xff])];
    match transcoder.verify(&original, &transcoded) {
        FrameComparison::Distances(d) => {
            assert_eq!((d[0].distance, d[0].bytes), (1, 1));
            assert_eq!((d[1].distance, d[1].bytes), (u32::MAX, 2));
        }
        FrameComparison::Uneven(_) => panic!("there are two of each"),
    }
    match transcoder.verify(&original, &vec![]) {
        FrameComparison::Uneven(r) => {
            assert!(!r.passed);
            assert_eq!(r.similarity, Score::zero());
            assert_eq!(r.message, "Different number of frames extracted: 2 vs 0");
        }
        FrameComparison::Distances(_) => panic!("there are two and none"),
    }
}

#[test]
fn ninety_five_percent_pass() {
    let score = |x: f32| Score::from_bits(x.to_bits());
    let r = Transcoder::verdict(score(0.95), "95.0");
    assert!(r.passed);
    assert_eq!(r.message, "Verification passed with 95.0% similarity");
    let r = Transcoder::verdict(score(0.9499), "95.0");
    assert!(!r.passed);
    assert_eq!(r.message, "Verification failed: 95.0% similarity (need 95%)");
    assert!(!Transcoder::verdict(score(f32::NAN), "NaN").passed);
}

#[test]
fn frame_rates_are_taken_apart() {
    match Transcoder::get_fps("30000/1001\n30/1\n") {
        FrameRate::Fraction { numerator, denominator } => {
            assert_eq!((numerator.as_str(), denominator.as_str()), ("30000", "1001"))
        }
        FrameRate::Plain(_) => panic!("a fraction"),
    }
    assert!(matches!(Transcoder::get_fps(" 25 \r\n"), FrameRate::Plain(n) if n == "25"));
    assert!(matches!(Transcoder::get_fps(""), FrameRate::Plain(n) if n == "30"));
    assert!(matches!(Transcoder::get_fps("\n"), FrameRate::Plain(n) if n.is_empty()));
    match Transcoder::get_fps("1/2/3") {
        FrameRate::Fraction { numerator, denominator } => {
            assert_eq!((numerator.as_str(), denominator.as_str()), ("1", "2/3"))
        }
        FrameRate::Plain(_) => panic!("a fraction"),
    }
    assert_eq!(
        Transcoder::fps_args("a.ts"),
        vec!["-v", "quiet", "-select_streams", "v:0", "-show_entries", "stream=r_frame_rate", "-of", "csv=p=0", "a.ts"]
    );
}

#[test]
fn savings_can_be_negative() {
    let mut r = TranscodeResult {
        transcoding_path: String::new(),
        final_path: String::new(),
        original_size: 1000,
        transcoded_size: 400,
    };
    assert_eq!(r.savings_bytes(), 600);
    r.transcoded_size = 1500;
    assert_eq!(r.savings_bytes(), -500);
}

#[test]
fn a_moved_file_replaces_the_original() {
    let job = job("/dvr/a.mkv", "/dvr/a.ts", false);
    let (done, state) = run(&job, &[FinalizeEvent::Done, FinalizeEvent::Done]);
    assert_eq!(done, vec!["rename /tmp/a.transcoding /dvr/a.mkv", "remove /dvr/a.ts"]);
    assert!(matches!(state, FinalizeState::Finished));
}

#[test]
fn an_original_at_the_same_place_is_not_removed() {
    let (done, state) = run(&job("/dvr//a.ts", "/dvr/a.ts", false), &[FinalizeEvent::Done]);
    assert_eq!(done, vec!["rename /tmp/a.transcoding /dvr//a.ts"]);
    assert!(matches!(state, FinalizeState::Finished));
}

#[test]
fn a_preserved_original_gets_another_name() {
    let kept = job("/dvr/a.ts", "/dvr/a.ts", true);
    let (done, state) = run(&kept, &[FinalizeEvent::Done, FinalizeEvent::Done]);
    assert_eq!(
        done,
        vec!["rename /dvr/a.ts /dvr/a.original.ts", "rename /tmp/a.transcoding /dvr/a.ts"]
    );
    assert!(matches!(state, FinalizeState::Finished));
    let (done, state) = run(&job("/dvr/a.mkv", "/dvr/a.ts", true), &[FinalizeEvent::Done]);
    assert_eq!(done, vec!["rename /tmp/a.transcoding /dvr/a.mkv"]);
    assert!(matches!(state, FinalizeState::Finished));
    let (_, state) = run(&kept, &[FinalizeEvent::Error]);
    assert!(matches!(state, FinalizeState::Failed(FinalizeError::Preserve)));
    assert_eq!(job("x", "/dvr/b", true).path(Target::Preserved), "/dvr/b.original.");
}

#[test]
fn a_copy_is_checked_before_anything_is_removed() {
    let job = job("/dvr/a.mkv", "/dvr/a.ts", false);
    let hash = [7u8; 32];
    let events = [
        FinalizeEvent::Error,
        FinalizeEvent::Hashed(hash),
        FinalizeEvent::Done,
        FinalizeEvent::Hashed(hash),
        FinalizeEvent::Done,
        FinalizeEvent::Done,
    ];
    let (done, state) = run(&job, &events);
    assert_eq!(
        done,
        vec![
            "rename /tmp/a.transcoding /dvr/a.mkv",
            "hash /tmp/a.transcoding",
            "copy /tmp/a.transcoding /dvr/a.mkv",
            "hash /dvr/a.mkv",
            "remove /tmp/a.transcoding",
            "remove /dvr/a.ts"
        ]
    );
    assert!(matches!(state, FinalizeState::Finished));
}

#[test]
fn a_copy_that_differs_is_removed_again() {
    let job = job("/dvr/a.mkv", "/dvr/a.ts", false);
    let mut other = [0u8; 32];
    other[31] = 0xab;
    let events = [
        FinalizeEvent::Error,
        FinalizeEvent::Hashed([0u8; 32]),
        FinalizeEvent::Done,
        FinalizeEvent::Hashed(other),
        FinalizeEvent::Error,
    ];
    let (done, state) = run(&job, &events);
    assert_eq!(done[4], "remove /dvr/a.mkv");
    match state {
        FinalizeState::Failed(e) => {
            assert_eq!(
                e.message(),
                format!(
                    "Copy integrity check failed: {} != {}",
                    blake3::Hash::from_bytes([0u8; 32]).to_hex(),
                    blake3::Hash::from_bytes(other).to_hex()
                )
            );
            assert!(e.message().ends_with("00ab"));
        }
        _ => panic!("the copy differs"),
    }
}

#[test]
fn every_step_can_fail() {
    let job = job("/dvr/a.mkv", "/dvr/a.ts", false);
    let hash = FinalizeEvent::Hashed([1u8; 32]);
    let fail = FinalizeEvent::Error;
    let done = FinalizeEvent::Done;
    let message = |events: &[FinalizeEvent]| match run(&job, events).1 {
        FinalizeState::Failed(e) => e.message(),
        _ => "no failure".to_string(),
    };
    assert_eq!(message(&[done, fail]), "Failed to delete original file");
    assert_eq!(message(&[fail, fail]), "Failed to hash temp file before copy");
    assert_eq!(message(&[fail, hash, fail]), "Failed to copy transcoded file to final location");
    assert_eq!(message(&[fail, hash, done, fail]), "Failed to hash copied file");
    assert_eq!(
        message(&[fail, hash, done, hash, fail]),
        "Failed to remove temporary transcoded file"
    );
    assert_eq!(FinalizeError::Preserve.message(), "Failed to preserve original");
}

#[test]
fn unknown_streams_are_found() {
    let output = br#"{"streams": [
        {"index": 0, "codec_name": "h264", "codec_type": "video"},
        {"index": 1, "codec_type": "unknown"},
        {"index": 2, "codec_name": "bin_data", "codec_type": ""},
        {"codec_name": "x"}
    ]}"#;
    let found = probe_unknown_streams(output).unwrap();
    let shown: Vec<(usize, String)> = found.into_iter().map(|s| (s.index, s.codec)).collect();
    assert_eq!(
        shown,
        vec![(1, "none".to_string()), (2, "bin_data".to_string()), (0, "x".to_string())]
    );
    assert!(probe_unknown_streams(b"{}").unwrap().is_empty());
    assert!(probe_unknown_streams(b"").is_err());
    assert_eq!(
        unknown_streams_args("a.ts"),
        vec!["-v", "quiet", "-show_entries", "stream=index,codec_name,codec_type", "-of", "json", "a.ts"]
    );
}

#[test]
fn subtitles_are_extracted_once() {
    let video = "/dvr/a.ts";
    let mut facts = SubtitleFacts { exists: true, probe: None, extracted: None };
    assert!(matches!(extract_subtitles(video, &facts), SubtitleStep::Done(Some(p)) if p == "/dvr/a.srt"));
    facts.exists = false;
    match extract_subtitles(video, &facts) {
        SubtitleStep::Probe(args) => assert_eq!(
            args,
            vec!["-v", "quiet", "-select_streams", "s", "-show_entries", "stream=index,codec_name", "-of", "json", "/dvr/a.ts"]
        ),
        _ => panic!("a probe is next"),
    }
    facts.probe = Some(br#"{"streams": []}"#.to_vec());
    assert!(matches!(extract_subtitles(video, &facts), SubtitleStep::Done(None)));
    facts.probe = Some(b"nonsense".to_vec());
    assert!(matches!(extract_subtitles(video, &facts), SubtitleStep::Done(None)));
    facts.probe = Some(br#"{"streams": [{"index": 3}]}"#.to_vec());
    match extract_subtitles(video, &facts) {
        SubtitleStep::Extract(args) => {
            assert_eq!(args, vec!["-y", "-i", "/dvr/a.ts", "-map", "0:s:0", "-c:s", "srt", "/dvr/a.srt"])
        }
        _ => panic!("the extraction is next"),
    }
    facts.extracted = Some(true);
    assert!(matches!(extract_subtitles(video, &facts), SubtitleStep::Done(Some(_))));
    facts.extracted = Some(false);
    assert!(matches!(extract_subtitles(video, &facts), SubtitleStep::Done(None)));
}

#[test]
fn hardware_encoders_in_their_order() {
    assert_eq!(detect_hardware_encoder(" V..... hevc_qsv  x\n V..... hevc_vaapi\n"), Some("vaapi"));
    assert_eq!(detect_hardware_encoder("hevc_vaapi hevc_nvenc"), Some("nvenc"));
    assert_eq!(detect_hardware_encoder("hevc_qsv"), Some("qsv"));
    assert_eq!(detect_hardware_encoder("libx265"), None);
}
