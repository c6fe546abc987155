use adconverter::subtitle::{
    format_timestamp, parse_vtt, process_vtt, render_vtt, split_long_subtitle, split_words,
    timestamp_to_millis, Subtitle,
};

fn cue(start: u64, end: u64, text: &str) -> Subtitle {
    Subtitle { start, end, text: text.to_string() }
}

#[test]
fn timestamps_format() {
    assert_eq!(format_timestamp(0), "00:00:00.000");
    assert_eq!(format_timestamp(3_723_004), "01:02:03.004");
    assert_eq!(format_timestamp(360_000_000), "100:00:00.000");
}

#[test]
fn timestamps_parse() {
    assert_eq!(timestamp_to_millis("00:01:02.500"), 62_500);
    assert_eq!(timestamp_to_millis("01:02.500"), 62_500);
    assert_eq!(timestamp_to_millis(" 01:00:00.001 "), 3_600_001);
    assert_eq!(timestamp_to_millis("garbage"), 0);
    assert_eq!(timestamp_to_millis("1:2:3"), 0);
    assert_eq!(timestamp_to_millis("00:xx:01.000"), 1000);
}

#[test]
fn subtitle_new_trims_text() {
    let s = Subtitle::new("00:00:01.000", "00:00:02.500", "  hello  ");
    assert_eq!(s, cue(1000, 2500, "hello"));
}

#[test]
fn short_cues_merge() {
    let out = process_vtt(vec![cue(0, 2000, "Hello"), cue(2000, 4000, "world.")], 10_000);
    assert_eq!(out, vec![cue(0, 4000, "Hello world.")]);
}

#[test]
fn sentence_end_stops_merge() {
    let out = process_vtt(vec![cue(0, 2000, "Hello."), cue(2000, 4000, "World.")], 10_000);
    assert_eq!(out, vec![cue(0, 2000, "Hello."), cue(2000, 4000, "World.")]);
}

#[test]
fn repeated_cue_kept_once() {
    let out = process_vtt(vec![cue(0, 1000, "Yes"), cue(1000, 2000, "Yes")], 10_000);
    assert_eq!(out, vec![cue(0, 2000, "Yes")]);
    let out = process_vtt(vec![cue(0, 1000, "Yes,"), cue(1000, 2000, "Yes,")], 10_000);
    assert_eq!(out, vec![cue(0, 2000, "Yes, Yes,")]);
}

#[test]
fn long_merge_is_refused() {
    let a = "a".repeat(60);
    let b = "b".repeat(61);
    let out = process_vtt(vec![cue(0, 1000, &a), cue(1000, 2000, &b)], 10_000);
    assert_eq!(out.len(), 2);
}

#[test]
fn final_cue_clamped_to_duration() {
    let out = process_vtt(vec![cue(5000, 12_000, "End.")], 10_000);
    assert_eq!(out, vec![cue(5000, 9700, "End.")]);
    let out = process_vtt(vec![cue(9900, 12_000, "End.")], 10_000);
    assert_eq!(out, vec![cue(9900, 10_400, "End.")]);
    let out = process_vtt(vec![cue(0, 500, "End.")], 200);
    assert_eq!(out, vec![cue(0, 500, "End.")]);
    let out = process_vtt(vec![cue(5000, 8000, "End.")], 10_000);
    assert_eq!(out, vec![cue(5000, 8000, "End.")]);
}

#[test]
fn empty_input_gives_nothing() {
    assert!(process_vtt(vec![], 1000).is_empty());
}

#[test]
fn words_split_on_white_space() {
    assert_eq!(split_words("  a  bc\td\n"), vec!["a", "bc", "d"]);
    assert!(split_words("   ").is_empty());
}

#[test]
fn long_cue_split_by_length() {
    let text = vec!["abcd"; 50].join(" ");
    let out = split_long_subtitle(&cue(0, 2480, &text));
    assert_eq!(out.len(), 2);
    assert_eq!(out[0], cue(0, 1990, &vec!["abcd"; 40].join(" ")));
    assert_eq!(out[1], cue(1990, 2480, &vec!["abcd"; 10].join(" ")));
}

#[test]
fn long_cue_split_after_punctuation() {
    let first = format!("{},", vec!["abcd"; 30].join(" "));
    let rest = vec!["abcd"; 20].join(" ");
    let text = format!("{first} {rest}");
    let out = split_long_subtitle(&cue(1000, 2000, &text));
    assert_eq!(out.len(), 2);
    assert_eq!(out[0].text, first);
    assert_eq!(out[1].text, rest);
    assert_eq!(out[0].start, 1000);
    assert_eq!(out[0].end, out[1].start);
    assert_eq!(out[1].end, 2000);
    for c in &out {
        assert!(c.text.chars().count() <= 200);
    }
}

#[test]
fn split_durations_add_up() {
    let text = vec!["word"; 120].join(" ");
    let out = split_long_subtitle(&cue(1000, 7777, &text));
    let total: u64 = out.iter().map(|c| c.end - c.start).sum();
    assert_eq!(total, 6777);
    assert_eq!(out.first().unwrap().start, 1000);
    assert_eq!(out.last().unwrap().end, 7777);
}

#[test]
fn long_cue_is_split_while_processing() {
    let text = vec!["abcd"; 50].join(" ");
    let out = process_vtt(vec![cue(0, 2480, &text)], 100_000);
    assert_eq!(out.len(), 2);
    assert_eq!(out[1].end, 2480);
}

#[test]
fn caption_file_round_trip() {
    let lines: Vec<String> = [
        "WEBVTT",
        "",
        "00:00:00.000 --> 00:00:02.000",
        "Hello",
        "",
        "00:00:02.000 --> 00:00:04.000",
        " world. ",
    ]
    .iter()
    .map(|x| x.to_string())
    .collect();
    let cues = parse_vtt(&lines);
    assert_eq!(cues, vec![cue(0, 2000, "Hello"), cue(2000, 4000, "world.")]);
    assert_eq!(
        render_vtt(&cues),
        "WEBVTT\n\n00:00:00.000 --> 00:00:02.000\nHello\n\n00:00:02.000 --> 00:00:04.000\nworld.\n"
    );
}

#[test]
fn remainder_after_punctuation_break_is_split_again() {
    let a = "a".repeat(190);
    let b = "b".repeat(10);
    let c = "c".repeat(10);
    let text = format!("x, {a} {b} {c}");
    let out = split_long_subtitle(&cue(0, 2130, &text));
    let texts: Vec<String> = out.iter().map(|s| s.text.clone()).collect();
    assert_eq!(texts, vec!["x,".to_string(), a.clone(), format!("{b} {c}")]);
    for piece in &out {
        assert!(piece.text.chars().count() <= 200);
    }
    assert_eq!(out[2].end, 2130);
}

#[test]
fn single_long_word_stays_whole() {
    let word = "w".repeat(250);
    let out = split_long_subtitle(&cue(0, 1000, &format!("hi {word}")));
    assert_eq!(out.last().unwrap().text, word);
}

#[test]
fn huge_timestamp_saturates() {
    assert_eq!(timestamp_to_millis("99999999999999:00:00.000"), u64::MAX);
}
