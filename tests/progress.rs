use adconverter::progress::{
    parse_decimal_milli, parse_integer, parse_unsigned, FFmpegProgress, LineOutcome, LoudnessReport,
    ProgressReader, ReportError,
};

fn snapshot(pairs: &[(&str, &str)]) -> Vec<(String, String)> {
    pairs.iter().map(|(k, v)| (k.to_string(), v.to_string())).collect()
}

#[test]
fn snapshot_gives_elapsed_time_and_share() {
    let map = snapshot(&[("out_time_ms", "5000000"), ("fps", "25")]);
    let p = FFmpegProgress::new(&map, 50_000);
    assert_eq!(p.elapsed_us, 5_000_000);
    assert_eq!(p.elapsed_pct, 10);
    assert_eq!(p.fps_milli, 25_000);
    assert_eq!(p.title, "");
    assert_eq!(p.total_size, 0);
}

#[test]
fn snapshot_reads_every_field() {
    let map = snapshot(&[
        ("title", "ADtv"),
        ("fps", "29.97"),
        ("bitrate", "1200.5kbits/s"),
        ("total_size", "1024"),
        ("out_time_ms", "2500000"),
        ("speed", "1.5x"),
        ("progress", "continue"),
    ]);
    let p = FFmpegProgress::new(&map, 10_000);
    assert_eq!(p.title, "ADtv");
    assert_eq!(p.fps_milli, 29_970);
    assert_eq!(p.bitrate, "1200.5kbits/s");
    assert_eq!(p.total_size, 1024);
    assert_eq!(p.elapsed_pct, 25);
    assert_eq!(p.speed_milli, 1500);
    assert_eq!(p.progress, "continue");
}

#[test]
fn malformed_values_read_as_zero() {
    let map = snapshot(&[("fps", "N/A"), ("out_time_ms", "N/A"), ("speed", "N/A"), ("total_size", "-3")]);
    let p = FFmpegProgress::new(&map, 10_000);
    assert_eq!(p.fps_milli, 0);
    assert_eq!(p.elapsed_us, 0);
    assert_eq!(p.speed_milli, 0);
    assert_eq!(p.total_size, 0);
}

#[test]
fn share_rounds_half_away_from_zero() {
    let p = FFmpegProgress::new(&snapshot(&[("out_time_ms", "125000")]), 1000);
    assert_eq!(p.elapsed_pct, 13);
    let p = FFmpegProgress::new(&snapshot(&[("out_time_ms", "-125000")]), 1000);
    assert_eq!(p.elapsed_pct, -13);
    let p = FFmpegProgress::new(&snapshot(&[("out_time_ms", "125000")]), 0);
    assert_eq!(p.elapsed_pct, i64::MAX);
}

#[test]
fn numbers_parse() {
    assert_eq!(parse_decimal_milli("29.97"), Some(29_970));
    assert_eq!(parse_decimal_milli("-12"), Some(-12_000));
    assert_eq!(parse_decimal_milli(".5"), Some(500));
    assert_eq!(parse_decimal_milli("1.23456"), Some(1234));
    assert_eq!(parse_decimal_milli("abc"), None);
    assert_eq!(parse_decimal_milli(""), None);
    assert_eq!(parse_decimal_milli("."), None);
    assert_eq!(parse_integer("-577000"), Some(-577_000));
    assert_eq!(parse_integer("12a"), None);
    assert_eq!(parse_unsigned("+7"), 7);
    assert_eq!(parse_unsigned("99999999999999999999"), 0);
}

#[test]
fn reader_reports_and_resets() {
    let mut r = ProgressReader::new("ADtv");
    assert_eq!(r.on_line("frame=10", 50_000), LineOutcome::Nothing);
    assert_eq!(r.on_line("fps=25.0", 50_000), LineOutcome::Nothing);
    assert_eq!(r.on_line("out_time_ms = 5000000", 50_000), LineOutcome::Nothing);
    match r.on_line("progress=continue", 50_000) {
        LineOutcome::Progress(p) => {
            assert_eq!(p.title, "ADtv");
            assert_eq!(p.fps_milli, 25_000);
            assert_eq!(p.elapsed_pct, 10);
            assert_eq!(p.progress, "continue");
        },
        other => panic!("unexpected {other:?}"),
    }
    assert_eq!(r.values, snapshot(&[("title", "ADtv")]));
    assert_eq!(r.on_line("progress=end", 50_000), LineOutcome::Finished);
}

#[test]
fn loudness_block_is_framed() {
    let mut report = LoudnessReport::new();
    for line in ["[Parsed_loudnorm_0 @ 0x1] ", "{", "\"input_i\":\"-23.00\"", "}", "done"] {
        report.on_line(line);
    }
    let text = report.finish().unwrap();
    assert_eq!(text, "{\"input_i\":\"-23.00\"}");
    let value: serde_json::Value = serde_json::from_str(&text).unwrap();
    let input_i = value.get("input_i").and_then(|v| v.as_str()).unwrap();
    assert_eq!(parse_decimal_milli(input_i), Some(-23_000));
}

#[test]
fn loudness_block_errors() {
    let mut open = LoudnessReport::new();
    open.on_line("{");
    open.on_line("\"input_i\" : \"-23.00\",");
    assert_eq!(open.finish(), Err(ReportError::Unterminated));
    let none = LoudnessReport::new();
    assert_eq!(none.finish(), Err(ReportError::Missing));
}
