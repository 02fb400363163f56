use subshift::cli::{parse_arguments, parse_offset, CliError};
use subshift::clock::ClockTime;
use subshift::cue::{capture_id, capture_ranges, parse_clock_time};
use subshift::parser::{parse_subtitles, CaptureMode, Parser, Subtitle};
use subshift::render::{render_range, render_subtitle, render_time, shift_and_render, shift_subtitle};

fn lines(v: &[&str]) -> Vec<String> {
    v.iter().map(|s| s.to_string()).collect()
}

fn t(hour: u32, minute: u32, second: u32, millisecond: u32) -> ClockTime {
    ClockTime { hour, minute, second, millisecond }
}

#[test]
fn scenario_shift_back_one_second() {
    let subs = parse_subtitles(&lines(&["1", "00:00:01,000 --> 00:00:04,000", "Hello world", ""]));
    assert_eq!(subs.len(), 1);
    let moved = shift_subtitle(&subs[0], -1);
    assert_eq!(moved.id, 1);
    assert_eq!(moved.start, t(0, 0, 0, 0));
    assert_eq!(moved.end, t(0, 0, 3, 0));
    assert_eq!(moved.texts, vec!["Hello world".to_string()]);
    let out = shift_and_render(&subs, -1);
    assert_eq!(out, lines(&["1", "0:0:0,000 --> 0:0:3,000", "Hello world", ""]));
}

#[test]
fn scenario_late_cue_wraps_at_end_of_file() {
    let subs = parse_subtitles(&lines(&["2", "23:59:59,000 --> 23:59:59,500", "Late cue"]));
    assert_eq!(subs.len(), 1);
    let moved = shift_subtitle(&subs[0], 2);
    assert_eq!(moved.id, 2);
    assert_eq!(moved.start, t(0, 0, 1, 0));
    assert_eq!(moved.end, t(0, 0, 1, 500));
    assert_eq!(moved.texts, vec!["Late cue".to_string()]);
    let out = shift_and_render(&subs, 2);
    assert_eq!(out, lines(&["2", "0:0:1,000 --> 0:0:1,500", "Late cue", ""]));
}

#[test]
fn shift_wraps_past_midnight() {
    assert_eq!(t(23, 59, 59, 500).shift(2), t(0, 0, 1, 500));
    assert_eq!(t(0, 0, 1, 500).shift(-2), t(23, 59, 59, 500));
}

#[test]
fn shift_by_more_than_a_day() {
    assert_eq!(t(23, 59, 59, 500).shift(86_400 * 3 + 2), t(0, 0, 1, 500));
    assert_eq!(t(0, 0, 0, 0).shift(-86_400 * 5 - 1), t(23, 59, 59, 0));
    assert_eq!(t(12, 0, 0, 7).shift(i64::MAX), t(12, 0, 0, 7).shift(i64::MAX % 86_400));
    let r = t(1, 2, 3, 4).shift(i64::MIN);
    assert!(r.hour < 24 && r.minute < 60 && r.second < 60 && r.millisecond < 1000);
}

#[test]
fn shift_moves_every_field() {
    assert_eq!(t(0, 0, 0, 0).shift(1), t(0, 0, 1, 0));
    assert_eq!(t(10, 20, 30, 40).shift(3_600 + 60 + 1), t(11, 21, 31, 40));
    assert_eq!(t(10, 20, 30, 40).shift(0), t(10, 20, 30, 40));
}

#[test]
fn shift_there_and_back() {
    for &s in &[0i64, 1, -1, 59, 3_601, -86_399, 86_400, 1_000_000, -7_777_777, i64::MAX, i64::MIN + 1] {
        for &c in &[t(0, 0, 0, 0), t(23, 59, 59, 999), t(12, 34, 56, 789)] {
            assert_eq!(c.shift(s).shift(-s), c);
        }
    }
}

#[test]
fn parse_render_round_trip_at_zero() {
    let block = lines(&["42", "1:2:3,004 --> 23:59:59,999", "first", "second", ""]);
    let subs = parse_subtitles(&block);
    assert_eq!(subs.len(), 1);
    assert_eq!(subs[0].id, 42);
    assert_eq!(subs[0].start, t(1, 2, 3, 4));
    assert_eq!(subs[0].end, t(23, 59, 59, 999));
    assert_eq!(shift_and_render(&subs, 0), block);
}

#[test]
fn padded_input_renders_without_padding() {
    let subs = parse_subtitles(&lines(&["7", "01:02:03,040 --> 01:02:05,000", "x"]));
    assert_eq!(shift_and_render(&subs, 0), lines(&["7", "1:2:3,040 --> 1:2:5,000", "x", ""]));
}

#[test]
fn leading_junk_is_ignored() {
    let subs = parse_subtitles(&lines(&["", "junk", "  ", "3", "00:00:01,000 --> 00:00:02,000", "Hi", ""]));
    assert_eq!(subs.len(), 1);
    assert_eq!(subs[0].id, 3);
    assert_eq!(subs[0].texts, vec!["Hi".to_string()]);
}

#[test]
fn no_blocks_gives_nothing() {
    assert!(parse_subtitles(&lines(&[])).is_empty());
    assert!(parse_subtitles(&lines(&["hello", "", "world"])).is_empty());
    assert!(parse_subtitles(&lines(&["1", "not a range", "2"])).is_empty());
    assert!(shift_and_render(&parse_subtitles(&lines(&["", ""])), 5).is_empty());
    assert!(parse_subtitles(&lines(&["", "7", "junk"])).is_empty());
    assert!(parse_subtitles(&lines(&["00:00:01,000 --> 00:00:02,000", "text", "", "4"])).is_empty());
}

#[test]
fn unfinished_cue_at_end_is_dropped() {
    let subs = parse_subtitles(&lines(&["1", "00:00:01,000 --> 00:00:02,000", "a", "", "2"]));
    assert_eq!(subs.len(), 1);
    let subs = parse_subtitles(&lines(&["1", "00:00:01,000 --> 00:00:02,000", "a", "", "2", "bad"]));
    assert_eq!(subs.len(), 1);
}

#[test]
fn cue_without_text_is_kept() {
    let subs = parse_subtitles(&lines(&["5", "00:00:01,000 --> 00:00:02,000", ""]));
    assert_eq!(subs.len(), 1);
    assert!(subs[0].texts.is_empty());
    assert_eq!(render_subtitle(&subs[0]), lines(&["5", "0:0:1,000 --> 0:0:2,000", ""]));
}

#[test]
fn several_cues_keep_their_order() {
    let subs = parse_subtitles(&lines(&[
        "1", "00:00:01,000 --> 00:00:02,000", "one", "",
        "", "2", "00:00:03,000 --> 00:00:04,000", "two", "more", "",
        "3", "00:00:05,000 --> 00:00:06,000", "three",
    ]));
    assert_eq!(subs.len(), 3);
    assert_eq!(subs.iter().map(|s| s.id).collect::<Vec<_>>(), vec![1, 2, 3]);
    assert_eq!(subs[1].texts, lines(&["two", "more"]));
    let out = shift_and_render(&subs, 10);
    assert_eq!(out, lines(&[
        "1", "0:0:11,000 --> 0:0:12,000", "one", "",
        "2", "0:0:13,000 --> 0:0:14,000", "two", "more", "",
        "3", "0:0:15,000 --> 0:0:16,000", "three", "",
    ]));
}

#[test]
fn parser_skips_and_keeps_its_state() {
    let mut p = Parser::new();
    assert_eq!(p.mode(), CaptureMode::Id);
    p.feed("no id".to_string());
    assert_eq!(p.mode(), CaptureMode::Id);
    p.feed("9".to_string());
    assert_eq!(p.mode(), CaptureMode::Range);
    p.feed("10".to_string());
    assert_eq!(p.mode(), CaptureMode::Range);
    p.feed("00:00:01,000 --> 00:00:02,000".to_string());
    assert_eq!(p.mode(), CaptureMode::Texts);
    p.feed("text".to_string());
    assert_eq!(p.mode(), CaptureMode::Texts);
    assert_eq!(p.completed(), 0);
    p.feed(String::new());
    assert_eq!(p.mode(), CaptureMode::Id);
    assert_eq!(p.completed(), 1);
    let subs = p.finish();
    assert_eq!(subs.len(), 1);
    assert_eq!(subs[0].id, 9);
}

#[test]
fn id_lines() {
    assert_eq!(capture_id("12"), Some(12));
    assert_eq!(capture_id("0"), Some(0));
    assert_eq!(capture_id("+7"), Some(7));
    assert_eq!(capture_id("007"), Some(7));
    assert_eq!(capture_id("18446744073709551615"), Some(u64::MAX));
    assert_eq!(capture_id("18446744073709551616"), None);
    assert_eq!(capture_id("-1"), None);
    assert_eq!(capture_id(""), None);
    assert_eq!(capture_id("+"), None);
    assert_eq!(capture_id("1 "), None);
    assert_eq!(capture_id("abc"), None);
}

#[test]
fn clock_time_pattern() {
    assert_eq!(parse_clock_time("1:2:3,004"), Some(t(1, 2, 3, 4)));
    assert_eq!(parse_clock_time("23:59:59,999"), Some(t(23, 59, 59, 999)));
    assert_eq!(parse_clock_time("01:02:03,4"), None);
    assert_eq!(parse_clock_time("01:02:03,4000"), None);
    assert_eq!(parse_clock_time("24:00:00,000"), None);
    assert_eq!(parse_clock_time("00:60:00,000"), None);
    assert_eq!(parse_clock_time("00:00:60,000"), None);
    assert_eq!(parse_clock_time("000:00:00,000"), None);
    assert_eq!(parse_clock_time("00:00:00.000"), None);
    assert_eq!(parse_clock_time(" 0:00:00,000"), None);
    assert_eq!(parse_clock_time(""), None);
}

#[test]
fn range_lines() {
    assert_eq!(
        capture_ranges("00:00:01,000 --> 00:00:04,000"),
        Some((t(0, 0, 1, 0), t(0, 0, 4, 0)))
    );
    assert_eq!(capture_ranges("00:00:01,000 --> 00:00:04,000 --> junk"), None);
    assert_eq!(capture_ranges("00:00:01,000 --> 00:00:02,000 --> 00:00:03,000"), None);
    assert_eq!(capture_ranges("00:00:01,000 -> 00:00:04,000"), None);
    assert_eq!(capture_ranges("00:00:01,000 --> 00:00:04,000 "), None);
    assert_eq!(capture_ranges("00:00:01,000 --> 25:00:04,000"), None);
    assert_eq!(capture_ranges("00:00:01,000"), None);
    assert_eq!(capture_ranges(""), None);
}

#[test]
fn times_render_plain_with_three_digit_milliseconds() {
    assert_eq!(render_time(&t(0, 0, 0, 0)), "0:0:0,000");
    assert_eq!(render_time(&t(23, 5, 59, 7)), "23:5:59,007");
    assert_eq!(render_time(&t(10, 10, 10, 120)), "10:10:10,120");
    assert_eq!(render_range(&t(1, 2, 3, 4), &t(5, 6, 7, 8)), "1:2:3,004 --> 5:6:7,008");
}

#[test]
fn shift_keeps_id_and_text() {
    let sub = Subtitle {
        id: 18446744073709551615,
        start: t(0, 0, 0, 1),
        end: t(0, 0, 0, 2),
        texts: lines(&["a", "b"]),
    };
    let moved = shift_subtitle(&sub, -1);
    assert_eq!(moved.id, u64::MAX);
    assert_eq!(moved.start, t(23, 59, 59, 1));
    assert_eq!(moved.end, t(23, 59, 59, 2));
    assert_eq!(moved.texts, lines(&["a", "b"]));
    assert_eq!(
        render_subtitle(&moved),
        lines(&["18446744073709551615", "23:59:59,001 --> 23:59:59,002", "a", "b", ""])
    );
}

#[test]
fn clock_time_fields_checked() {
    assert_eq!(ClockTime::from_hms_milli(23, 59, 59, 999), Some(t(23, 59, 59, 999)));
    assert_eq!(ClockTime::from_hms_milli(24, 0, 0, 0), None);
    assert_eq!(ClockTime::from_hms_milli(0, 0, 0, 1000), None);
    assert_eq!(ClockTime::midnight(), t(0, 0, 0, 0));
}

#[test]
fn offsets() {
    assert_eq!(parse_offset("-20"), Some(-20));
    assert_eq!(parse_offset("20"), Some(20));
    assert_eq!(parse_offset("+5"), Some(5));
    assert_eq!(parse_offset("-0"), Some(0));
    assert_eq!(parse_offset("9223372036854775807"), Some(i64::MAX));
    assert_eq!(parse_offset("9223372036854775808"), None);
    assert_eq!(parse_offset("-9223372036854775808"), Some(i64::MIN));
    assert_eq!(parse_offset("-9223372036854775809"), None);
    assert_eq!(parse_offset("-+5"), None);
    assert_eq!(parse_offset("-"), None);
    assert_eq!(parse_offset(""), None);
    assert_eq!(parse_offset("1.5"), None);
}

#[test]
fn argument_errors() {
    assert_eq!(parse_arguments(&lines(&["a.srt"])), Err(CliError::InvalidArgumentCount));
    assert_eq!(parse_arguments(&lines(&["a.srt", "1", "2"])), Err(CliError::InvalidArgumentCount));
    assert_eq!(parse_arguments(&lines(&["a.srt", "ten"])), Err(CliError::InvalidOffsetFormat));
    assert_eq!(parse_arguments(&lines(&["a.srt", "-20"])), Ok(("a.srt".to_string(), -20)));
}

#[test]
fn range_line_with_two_separators_is_skipped() {
    let subs = parse_subtitles(&lines(&[
        "1",
        "00:00:01,000 --> 00:00:02,000 --> 00:00:03,000",
        "00:00:04,000 --> 00:00:05,000",
        "text",
    ]));
    assert_eq!(subs.len(), 1);
    assert_eq!(subs[0].start, t(0, 0, 4, 0));
    assert_eq!(subs[0].end, t(0, 0, 5, 0));
    assert_eq!(subs[0].texts, vec!["text".to_string()]);
}
