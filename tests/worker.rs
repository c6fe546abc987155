use adconverter::filter::{FilterType, Filters};
use adconverter::logging::{encoder_line_level, log_command, LogLevel};
use adconverter::media::{MediaProbe, OptionValue, Preset, Task};
use adconverter::subtitle::Subtitle;
use adconverter::worker::{
    analysis_args, command_from_words, global_args, has_work, main_duration_ms, output_file_name, prepare_path,
    preset_args, publish_source, push_metadata, replace_all, sources_from, task_inputs, to_vec, transcript_command,
    transcript_language, transcript_wanted, ProcessError, Sources,
};
use adconverter::worker::{next_preset, output_place, publish_wanted, OutputPlace, PresetStep};
use adconverter::media::Publish;

fn strings(v: &[&str]) -> Vec<String> {
    v.iter().map(|x| x.to_string()).collect()
}

fn text(k: &str, v: &str) -> (String, OptionValue) {
    (k.to_string(), OptionValue::Text(v.to_string()))
}

fn task(in_ms: i64, out_ms: i64) -> Task {
    Task {
        path: "/media/clip.mp4".to_string(),
        in_ms,
        out_ms,
        fade: false,
        lufs: false,
        transcript: None,
        probe: MediaProbe { video: vec![], audio_streams: 0, duration_ms: None },
        presets: vec![],
        template: None,
        target: None,
        target_subfolder: false,
        publish: None,
        active: false,
        finished: false,
    }
}

fn preset(container_video: Option<&str>, container_audio: Option<&str>) -> Preset {
    Preset {
        name: "adtv".to_string(),
        title: "ADtv".to_string(),
        tooltip: String::new(),
        filter_video: vec![],
        filter_audio: vec![],
        video: vec![text("-c:v", "libx264"), ("-crf".to_string(), OptionValue::Other("22".to_string()))],
        audio: vec![text("-c:a", "aac")],
        container_video: container_video.map(|s| s.to_string()),
        container_audio: container_audio.map(|s| s.to_string()),
        output_path: None,
        finished: false,
    }
}

#[test]
fn inputs_are_trimmed_alike() {
    let sources = Some(Sources {
        audio: Some("/media/clip.wav".to_string()),
        video: Some("/media/clip.mp4".to_string()),
        template: None,
    });
    let inputs = task_inputs(&task(1500, 11_500), &sources);
    let mut expected = global_args();
    expected.extend(strings(&["-ss", "1.5", "-i", "/media/clip.mp4", "-t", "10"]));
    expected.extend(strings(&["-ss", "1.5", "-i", "/media/clip.wav", "-t", "10"]));
    assert_eq!(inputs.args, expected);
    assert_eq!(inputs.audio_pos, 1);
    assert!(inputs.has_audio);
    assert_eq!(inputs.audio_path, "/media/clip.wav");
    let none = task_inputs(&task(0, 0), &None);
    assert_eq!(none.args, global_args());
    assert_eq!(none.audio_pos, -1);
    assert!(!none.has_audio);
}

#[test]
fn global_flags_are_fixed() {
    assert_eq!(
        global_args(),
        strings(&["-hide_banner", "-progress", "pipe:1", "-stats_period", "1", "-nostats", "-v", "level+info", "-y"])
    );
}

#[test]
fn measurement_pass_arguments() {
    let args = analysis_args(&task(0, 0), "/media/clip.wav", "loudnorm=I=-17:TP=-1:LRA=9:print_format=json");
    let mut expected = global_args();
    expected.extend(strings(&[
        "-i",
        "/media/clip.wav",
        "-vn",
        "-af",
        "loudnorm=I=-17:TP=-1:LRA=9:print_format=json",
        "-f",
        "null",
        "-",
    ]));
    assert_eq!(args, expected);
}

#[test]
fn options_become_arguments() {
    assert_eq!(to_vec(&preset(None, None).video), strings(&["-c:v", "libx264", "-crf", "22"]));
}

#[test]
fn one_output_with_fast_start() {
    let mut f = Filters::new();
    f.video_position = 0;
    f.audio_position = 0;
    f.add_filter("null", 0, FilterType::Video);
    let args = preset_args(&strings(&["-y"]), &mut f, &preset(Some("MP4"), None), true, true, "/tmp/v.mp4", "/tmp/v.wav");
    assert_eq!(
        args,
        strings(&[
            "-y",
            "-filter_complex",
            "[0:v:0]null[vout0]",
            "-map",
            "[vout0]",
            "-c:v",
            "libx264",
            "-crf",
            "22",
            "-movflags",
            "+faststart",
            "-map",
            "0:a:0",
            "-c:a",
            "aac",
            "/tmp/v.mp4"
        ])
    );
}

#[test]
fn separate_audio_output() {
    let mut f = Filters::new();
    f.audio_position = 0;
    let args = preset_args(&vec![], &mut f, &preset(Some("mov"), Some("wav")), true, true, "/tmp/v.mov", "/tmp/v.wav");
    assert_eq!(
        args,
        strings(&["-map", "0:v", "-c:v", "libx264", "-crf", "22", "/tmp/v.mov", "-map", "0:a:0", "-c:a", "aac", "/tmp/v.wav"])
    );
}

#[test]
fn output_names() {
    assert_eq!(output_file_name("clip", &preset(Some("mp4"), None)), "clip # ADtv.mp4");
    assert_eq!(output_file_name("clip", &preset(None, Some("wav"))), "clip # ADtv.wav");
    assert_eq!(output_file_name("clip", &preset(None, None)), "clip # ADtv.");
}

#[test]
fn caption_command_is_filled_and_split() {
    let r = transcript_command(
        "whisper --mount %mount% --language %lang% %file% -o %output%",
        Some("\"/media\"".to_string()),
        "de",
        "\"/media/a b.wav\"",
        Some("\"/tmp\"".to_string()),
    );
    assert_eq!(
        r,
        Ok(("whisper".to_string(), strings(&["--mount", "/media", "--language", "de", "/media/a b.wav", "-o", "/tmp"])))
    );
}

#[test]
fn caption_command_errors() {
    assert!(matches!(transcript_command("whisper \"open", None, "de", "f", None), Err(ProcessError::Custom(_))));
    assert!(matches!(transcript_command("   ", None, "de", "f", None), Err(ProcessError::Custom(_))));
    assert!(matches!(command_from_words(None), Err(ProcessError::Custom(_))));
    assert_eq!(command_from_words(Some(strings(&["a", "b"]))), Ok(("a".to_string(), strings(&["b"]))));
}

#[test]
fn replacing_text() {
    assert_eq!(replace_all("%a%-%a%", "%a%", "x"), "x-x");
    assert_eq!(replace_all("aaa", "aa", "b"), "ba");
    assert_eq!(replace_all("abc", "", "x"), "abc");
}

#[test]
fn windows_paths_for_filters() {
    assert_eq!(prepare_path("C:\\media\\a.png".to_string(), true), "C\\\\:/media/a.png");
    assert_eq!(prepare_path("/media/a.png".to_string(), false), "/media/a.png");
}

#[test]
fn task_decisions() {
    let mut t = task(0, 0);
    assert!(!has_work(&t));
    assert_eq!(transcript_language(&t), "auto");
    t.transcript = Some("none".to_string());
    assert!(!has_work(&t));
    assert!(!transcript_wanted(&t));
    t.transcript = Some("None".to_string());
    assert!(has_work(&t));
    assert!(!transcript_wanted(&t));
    t.transcript = Some("de".to_string());
    assert!(has_work(&t));
    assert!(transcript_wanted(&t));
    assert_eq!(transcript_language(&t), "de");
}

#[test]
fn command_log_layout() {
    let lines = log_command(
        "Preset: ADtv",
        Some("ffmpeg".to_string()),
        strings(&["-y", "-i", "/m/in.mp4", "-filter_complex", "[0:v:0]null[v];[0:a:0]anull[a]", "-map", "[v]", "/m/out.mp4"]),
    );
    let view: Vec<(bool, String)> = lines.into_iter().map(|l| (l.debug, l.text)).collect();
    let expected: Vec<(bool, String)> = vec![
        (true, "-------------------------------------------------------------------".to_string()),
        (true, "Preset: ADtv".to_string()),
        (true, "ffmpeg -y -i \"/m/in.mp4\" -filter_complex \\".to_string()),
        (false, "\"[0:v:0]null[v]; \\".to_string()),
        (false, "[0:a:0]anull[a]\" \\".to_string()),
        (false, "-map \"[v]\" \"/m/out.mp4\"".to_string()),
    ];
    assert_eq!(view, expected);
}

#[test]
fn sibling_files_become_sources() {
    let siblings = vec![
        ("/m/clip.wav".to_string(), "wav".to_string()),
        ("/m/clip.mov".to_string(), "mov".to_string()),
        ("/m/clip.json".to_string(), "json".to_string()),
        ("/m/clip.txt".to_string(), "txt".to_string()),
    ];
    let s = sources_from("/m/clip.mp4", "mp4", siblings.clone());
    assert_eq!(
        s,
        Sources {
            audio: Some("/m/clip.wav".to_string()),
            video: Some("/m/clip.mp4".to_string()),
            template: Some("/m/clip.json".to_string()),
        }
    );
    let t = sources_from("/m/clip.wav", "wav", siblings);
    assert_eq!(t.video, Some("/m/clip.mov".to_string()));
}

#[test]
fn published_file_is_the_chosen_output() {
    let mut t = task(0, 0);
    let mut a = preset(Some("mp4"), None);
    a.output_path = Some("/out/a.mp4".to_string());
    let mut b = preset(Some("mp4"), None);
    b.name = "web".to_string();
    b.output_path = Some("/out/b.mp4".to_string());
    t.presets = vec![a, b];
    assert_eq!(publish_source(&t, &Some("web".to_string())), "/out/b.mp4");
    assert_eq!(publish_source(&t, &Some("other".to_string())), "/media/clip.mp4");
    assert_eq!(publish_source(&t, &None), "/media/clip.mp4");
}

#[test]
fn used_duration() {
    let mut t = task(2000, 12_000);
    assert_eq!(main_duration_ms(&t), 10_000);
    t.in_ms = 0;
    t.out_ms = 0;
    assert_eq!(main_duration_ms(&t), 0);
    t.probe.duration_ms = Some(42_000);
    assert_eq!(main_duration_ms(&t), 42_000);
}

#[test]
fn metadata_flags() {
    let mut args = vec![];
    push_metadata(&mut args, 2025, "");
    assert_eq!(args, strings(&["-map_chapters", "-1", "-map_metadata", "-1", "-metadata", "year=2025"]));
    let mut args = vec![];
    push_metadata(&mut args, 2025, "ACME");
    assert_eq!(args.len(), 8);
    assert_eq!(args[7], "copyright=ACME");
}

#[test]
fn cue_text_form() {
    let c = Subtitle { start: 1500, end: 62_000, text: "Hi".to_string() };
    assert_eq!(c.to_string(), "00:00:01.500 --> 00:01:02.000\nHi");
}

#[test]
fn encoder_levels_carry_over() {
    assert_eq!(encoder_line_level("[aac @ 0x1] [warning] queue", LogLevel::Info), LogLevel::Warn);
    assert_eq!(encoder_line_level("  continued", LogLevel::Warn), LogLevel::Warn);
    assert_eq!(encoder_line_level("[Error] boom", LogLevel::Info), LogLevel::Error);
    assert_eq!(encoder_line_level("[FATAL] boom", LogLevel::Info), LogLevel::Error);
    assert_eq!(encoder_line_level("[INFO] hi", LogLevel::Error), LogLevel::Info);
}

#[test]
fn preset_steps() {
    let p = preset(Some("mp4"), None);
    assert_eq!(next_preset(false, true, &p, false), PresetStep::Stop);
    assert_eq!(next_preset(true, true, &p, false), PresetStep::Encode { has_video: true });
    assert_eq!(next_preset(true, false, &p, false), PresetStep::Encode { has_video: false });
    let mut q = preset(Some("mp4"), None);
    q.video = vec![];
    assert_eq!(next_preset(true, true, &q, false), PresetStep::Encode { has_video: false });
    assert_eq!(next_preset(true, true, &q, true), PresetStep::Encode { has_video: true });
}

#[test]
fn output_places() {
    let mut t = task(0, 0);
    assert_eq!(output_place(&t, Some("media".to_string())), OutputPlace::BesideSource);
    t.target = Some("/out".to_string());
    assert_eq!(output_place(&t, Some("media".to_string())), OutputPlace::Target("/out".to_string()));
    t.target_subfolder = true;
    assert_eq!(
        output_place(&t, Some("media".to_string())),
        OutputPlace::TargetSubfolder("/out".to_string(), "media".to_string())
    );
    assert!(!publish_wanted(&t, true));
    t.publish = Some(Publish { name: "n".to_string(), thumbnail: String::new(), description: String::new(), tags: String::new() });
    assert!(publish_wanted(&t, true));
    assert!(!publish_wanted(&t, false));
}
