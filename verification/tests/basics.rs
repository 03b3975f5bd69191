use dvrreview::groups::group_by_key;
use dvrreview::json::{duration_text, has_streams, probed_streams, ProbeError};
use dvrreview::numbers::{
    count_text, decimal_text, divide, parse_i32, push_two_places, seconds_text,
};
use dvrreview::order::{stable_order, SortKey};
use dvrreview::patterns::{characters_in, find_episode, find_title_with_year, part_of, Span};
use dvrreview::score::{
    Score, EIGHTY_FIVE_PERCENT, EIGHT_TENTHS, HALF, NINETY_FIVE_PERCENT, NINE_TENTHS, SEVEN_TENTHS,
    SIX_TENTHS,
};
use dvrreview::text::{
    contains, copy_option, eq_ignore_ascii_case, head_line, is_text, split, squeeze, strip_prefix,
    tail_after, trim, trim_end_matches, trim_start_matches, whitespace,
};

fn chars(s: &str) -> Vec<char> {
    s.chars().collect()
}

fn text(c: Vec<char>) -> String {
    c.into_iter().collect()
}

#[test]
fn score_constants_are_those_numbers() {
    assert_eq!(HALF, 0.5f32.to_bits());
    assert_eq!(SIX_TENTHS, 0.6f32.to_bits());
    assert_eq!(SEVEN_TENTHS, 0.7f32.to_bits());
    assert_eq!(EIGHT_TENTHS, 0.8f32.to_bits());
    assert_eq!(EIGHTY_FIVE_PERCENT, 0.85f32.to_bits());
    assert_eq!(NINE_TENTHS, 0.9f32.to_bits());
    assert_eq!(NINETY_FIVE_PERCENT, 0.95f32.to_bits());
}

#[test]
fn scores_compare_like_numbers() {
    let numbers: [f32; 14] = [
        0.0,
        -0.0,
        1.0,
        -1.0,
        0.5,
        0.85,
        -0.85,
        f32::MIN_POSITIVE,
        1e-45,
        -1e-45,
        f32::MAX,
        f32::INFINITY,
        f32::NEG_INFINITY,
        f32::NAN,
    ];
    for x in numbers {
        for y in numbers {
            let a = Score::from_bits(x.to_bits());
            let b = Score::from_bits(y.to_bits());
            assert_eq!(a.ge(b), x >= y, "{} >= {}", x, y);
            assert_eq!(a.gt(b), x > y, "{} > {}", x, y);
            assert_eq!(a.lt(b), x < y, "{} < {}", x, y);
        }
    }
    assert_eq!(Score::zero(), Score::from_bits(0.0f32.to_bits()));
}

#[test]
fn numbers_are_written_like_std_writes_them() {
    for n in [0i64, 7, 10, -1, -10, 1234567890123, i64::MAX, i64::MIN] {
        assert_eq!(decimal_text(n), format!("{}", n));
    }
    assert_eq!(count_text(usize::MAX), format!("{}", usize::MAX));
    for n in [0i64, 5, 9, 10, 59, 123, -5, -59] {
        let mut s = String::new();
        push_two_places(&mut s, n);
        assert_eq!(s, format!("{:02}", n));
    }
    for n in [-7i64, 7, -1000, 999, 1000, i64::MIN, i64::MAX] {
        assert_eq!(divide(n, 1000), n / 1000);
    }
}

#[test]
fn seconds_are_written_like_std_writes_them() {
    for ms in [0, 1, 999, 1000, 12500, 3_600_001, -1, -999, -1000, -12345, i32::MAX, i32::MIN] {
        assert_eq!(seconds_text(ms), format!("{:.3}", ms as f64 / 1000.0));
    }
    let mut ms: i64 = i32::MIN as i64;
    while ms <= i32::MAX as i64 {
        assert_eq!(seconds_text(ms as i32), format!("{:.3}", ms as i32 as f64 / 1000.0));
        ms += 1_234_567;
    }
}

#[test]
fn numbers_are_read_like_std_reads_them() {
    for s in [
        "", "0", "7", "+7", "-7", "007", "-", "+", "--1", "1 ", " 1", "2147483647", "2147483648",
        "-2147483648", "-2147483649", "99999999999999999999", "1.5", "\u{0661}", "12a",
    ] {
        assert_eq!(parse_i32(s), s.parse::<i32>().ok(), "{:?}", s);
    }
}

#[test]
fn white_space_is_that_of_std() {
    for n in 0..=0x10ffffu32 {
        if let Some(c) = char::from_u32(n) {
            assert_eq!(whitespace(c), c.is_whitespace());
        }
    }
}

#[test]
fn text_functions_are_those_of_std() {
    for s in ["", " ", " a b ", "\u{a0}x\t", "a  b\n c", "--a-_.", "a,b,,c", "ABC", "\r\na"] {
        assert_eq!(text(trim(&chars(s))), s.trim());
        assert_eq!(text(trim_end_matches(&chars(s), &['-', '_', '.'])), s.trim_end_matches(['-', '_', '.']));
        assert_eq!(text(trim_start_matches(&chars(s), &['-'])), s.trim_start_matches('-'));
        assert_eq!(text(squeeze(&chars(s))), s.split_whitespace().collect::<Vec<_>>().join(" "));
        assert_eq!(split(s, ','), s.split(',').map(|p| p.to_string()).collect::<Vec<_>>());
        assert_eq!(contains(s, "b"), s.contains("b"));
        assert_eq!(contains(s, ""), s.contains(""));
        assert_eq!(eq_ignore_ascii_case(s, "abc"), s.eq_ignore_ascii_case("abc"));
        assert_eq!(head_line(&chars(s)).map(text), s.lines().next().map(|l| l.to_string()));
        assert_eq!(text(tail_after(&chars(s), ',')), s.rsplit(',').next().unwrap());
        assert_eq!(strip_prefix(&chars(s), &chars("a")).map(text), s.strip_prefix("a").map(|r| r.to_string()));
    }
    assert_eq!(head_line(&chars("a\r\nb")).map(text), Some("a".to_string()));
    assert_eq!(head_line(&chars("a\r")).map(text), Some("a\r".to_string()));
    let some = Some("x".to_string());
    assert!(is_text(&some, "x") && !is_text(&some, "y") && !is_text(&None, "x"));
    assert_eq!(copy_option(&some), some);
}

#[test]
fn order_is_stable() {
    let key = |a, b, c| SortKey { first: a, second: b, third: c };
    let keys = vec![key(2, 0, 0), key(1, 5, 0), key(1, 0, 9), key(2, 0, 0), key(1, 0, -1), key(1, 5, 0)];
    assert_eq!(stable_order(&keys), vec![4, 2, 1, 5, 0, 3]);
    assert!(stable_order(&vec![]).is_empty());
}

#[test]
fn groups_come_in_the_order_of_their_keys() {
    let key = |s: &str| Some(s.to_string());
    let groups = group_by_key(&vec![key("b"), None, key("a"), key("b"), key(""), key("a"), key("b")]);
    let shown: Vec<(String, Vec<usize>)> = groups.into_iter().map(|g| (g.key, g.members)).collect();
    assert_eq!(
        shown,
        vec![
            ("b".to_string(), vec![0, 3, 6]),
            ("a".to_string(), vec![2, 5]),
            ("".to_string(), vec![4])
        ]
    );
}

#[test]
fn marks_of_episodes_are_found_by_bytes() {
    let groups = find_episode("\u{f6}\u{2014} s7E08x").unwrap();
    assert_eq!(groups.whole, Some(Span { start: 6, end: 11 }));
    assert_eq!(groups.first, Some(Span { start: 7, end: 8 }));
    assert_eq!(groups.second, Some(Span { start: 9, end: 11 }));
    assert!(find_episode("S1 E2").is_none());
    assert!(find_episode("").is_none());
}

#[test]
fn titles_with_years_are_found_by_bytes() {
    let groups = find_title_with_year("\u{e9}  (1999) ").unwrap();
    assert_eq!(groups.whole, Some(Span { start: 0, end: 11 }));
    assert_eq!(groups.first, Some(Span { start: 0, end: 2 }));
    assert_eq!(groups.second, Some(Span { start: 5, end: 9 }));
    assert!(find_title_with_year("1999").is_none());
}

#[test]
fn spans_cover_characters() {
    let s = "a\u{e9}\u{20ac}\u{1f600}z";
    let c = chars(s);
    assert_eq!(characters_in(&c, 0), Some(0));
    assert_eq!(characters_in(&c, 1), Some(1));
    assert_eq!(characters_in(&c, 2), None);
    assert_eq!(characters_in(&c, 3), Some(2));
    assert_eq!(characters_in(&c, 6), Some(3));
    assert_eq!(characters_in(&c, 8), None);
    assert_eq!(characters_in(&c, 10), Some(4));
    assert_eq!(characters_in(&c, 11), Some(5));
    assert_eq!(characters_in(&c, 12), None);
    assert_eq!(part_of(s, Some(Span { start: 1, end: 6 })), Some("\u{e9}\u{20ac}".to_string()));
    assert_eq!(part_of(s, Some(Span { start: 6, end: 1 })), None);
    assert_eq!(part_of(s, Some(Span { start: 2, end: 6 })), None);
    assert_eq!(part_of(s, None), None);
}

#[test]
fn durations_are_read_out_of_probes() {
    let output = br#"{"format": {"duration": "61.250", "size": "7"}}"#;
    assert_eq!(duration_text(output).unwrap(), "61.250");
    assert_eq!(duration_text(b"{}").unwrap_err(), ProbeError::NoDuration);
    assert_eq!(duration_text(br#"{"format": {"duration": 61}}"#).unwrap_err(), ProbeError::NoDuration);
    assert_eq!(duration_text(b"nonsense").unwrap_err(), ProbeError::Unreadable);
    assert_eq!(ProbeError::Unreadable.message(), "Failed to parse ffprobe output");
    assert_eq!(ProbeError::NoDuration.message(), "No duration in ffprobe output");
}

#[test]
fn streams_are_read_out_of_probes() {
    let output = br#"{"streams": [{"index": 0, "codec_name": "h264", "codec_type": "video"}, {"index": -1}, 5]}"#;
    let streams = probed_streams(output).unwrap();
    assert_eq!(streams.len(), 3);
    assert_eq!(streams[0].index, Some(0));
    assert_eq!(streams[0].codec_type.as_deref(), Some("video"));
    assert_eq!(streams[0].codec_name.as_deref(), Some("h264"));
    assert_eq!((streams[1].index, streams[1].codec_name.is_none()), (None, true));
    assert!(streams[2].codec_type.is_none());
    assert!(probed_streams(br#"{"streams": {}}"#).unwrap().is_empty());
    assert_eq!(probed_streams(b"").unwrap_err(), ProbeError::Unreadable);
    assert!(has_streams(output));
    assert!(!has_streams(br#"{"streams": []}"#));
    assert!(!has_streams(b"{}"));
    assert!(!has_streams(b"?"));
}
