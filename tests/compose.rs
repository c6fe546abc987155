use adconverter::compose::{
    filter_chain, has_codec_copy, intro_outro, is_image, lower_third, map_filter, pad, time_to_millis, Asset,
    TargetSpec,
};
use adconverter::filter::FilterType;
use adconverter::media::{
    LowerThird, MediaProbe, OptionValue, Options, Preset, Ratio, Task, Template, VideoStream,
};

fn text(k: &str, v: &str) -> (String, OptionValue) {
    (k.to_string(), OptionValue::Text(v.to_string()))
}

fn probe(w: i64, h: i64, audio: usize) -> MediaProbe {
    MediaProbe {
        video: vec![VideoStream { width: Some(w), height: Some(h), duration_ms: Some(10_000) }],
        audio_streams: audio,
        duration_ms: Some(10_000),
    }
}

fn preset(filter_video: Options, video: Options) -> Preset {
    Preset {
        name: "adtv".to_string(),
        title: "ADtv".to_string(),
        tooltip: String::new(),
        filter_video,
        filter_audio: vec![],
        video,
        audio: vec![text("-c:a", "aac")],
        container_video: Some("mp4".to_string()),
        container_audio: None,
        output_path: None,
        finished: false,
    }
}

fn task(p: MediaProbe, template: Option<Template>) -> Task {
    Task {
        path: "/media/clip.mp4".to_string(),
        in_ms: 0,
        out_ms: 0,
        fade: true,
        lufs: false,
        transcript: None,
        probe: p,
        presets: vec![],
        template,
        target: None,
        target_subfolder: false,
        publish: None,
        active: false,
        finished: false,
    }
}

fn strings(v: &[&str]) -> Vec<String> {
    v.iter().map(|x| x.to_string()).collect()
}

#[test]
fn target_from_scale() {
    let p = preset(vec![text("scale", "1920:1080")], vec![]);
    let t = TargetSpec::new(&probe(1280, 720, 1), &p).unwrap();
    assert_eq!(t.width, 1920);
    assert_eq!(t.height, 1080);
    assert_eq!(t.aspect, Ratio { num: 1920, den: 1080 });
}

#[test]
fn target_aspect_overrides() {
    let p = preset(vec![text("scale", "1024x576"), text("setdar", "dar=1.778")], vec![]);
    let t = TargetSpec::new(&probe(1280, 720, 1), &p).unwrap();
    assert_eq!((t.width, t.height), (1024, 576));
    assert_eq!(t.aspect, Ratio { num: 1778, den: 1000 });
    let q = preset(vec![], vec![text("-s", "640:480"), text("-aspect", "16:9")]);
    let u = TargetSpec::new(&probe(1280, 720, 1), &q).unwrap();
    assert_eq!((u.width, u.height), (640, 480));
    assert_eq!(u.aspect, Ratio { num: 16, den: 9 });
}

#[test]
fn target_from_probe_or_none() {
    let p = preset(vec![], vec![]);
    let t = TargetSpec::new(&probe(1280, 720, 1), &p).unwrap();
    assert_eq!((t.width, t.height, t.aspect), (1280, 720, Ratio { num: 1280, den: 720 }));
    let empty = MediaProbe { video: vec![], audio_streams: 1, duration_ms: None };
    assert_eq!(TargetSpec::new(&empty, &p), None);
}

#[test]
fn codec_copy_in_any_spelling() {
    assert!(has_codec_copy(&vec![text("-c:v", "copy")], FilterType::Video));
    assert!(has_codec_copy(&vec![text("-vcodec", "copy")], FilterType::Video));
    assert!(has_codec_copy(&vec![text("-codec:a", "copy")], FilterType::Audio));
    assert!(has_codec_copy(&vec![text("-c", "copy")], FilterType::Audio));
    assert!(!has_codec_copy(&vec![text("-c:v", "libx265")], FilterType::Video));
    assert!(!has_codec_copy(&vec![text("-c:a", "copy")], FilterType::Video));
    assert!(!has_codec_copy(&vec![("-c:v".to_string(), OptionValue::Other("copy".to_string()))], FilterType::Video));
}

#[test]
fn preset_filters_with_aspect() {
    let t = TargetSpec { width: 1920, height: 1080, aspect: Ratio { num: 16, den: 9 } };
    let opts = vec![text("scale", "1920:1080"), ("fps".to_string(), OptionValue::Other("25".to_string()))];
    assert_eq!(map_filter(&opts, Some(t)), "scale=1920:1080,setdar=dar=1.778,setsar=sar=1/1,fps=25");
    assert_eq!(map_filter(&opts, None), "scale=1920:1080,fps=25");
    assert_eq!(map_filter(&vec![], None), "");
}

#[test]
fn pad_to_wider_target() {
    let t = TargetSpec { width: 1920, height: 1080, aspect: Ratio { num: 16, den: 9 } };
    assert_eq!(pad(&probe(1440, 1080, 1), &t), "pad=max(iw\\,ih*1.778):(ow/1.778):((ow-iw)/2):((oh-ih)/2)");
    assert_eq!(pad(&probe(1920, 1080, 1), &t), "");
    assert_eq!(
        pad(&probe(3840, 1600, 1), &t),
        "scale=1920:-1,pad=max(iw\\,ih*1.778):(ow/1.778):((ow-iw)/2):((oh-ih)/2)"
    );
}

#[test]
fn overlay_helpers() {
    assert!(is_image("/a/b/Lower_Third.PNG"));
    assert!(!is_image("/a/b/lower.mov"));
    assert!(!is_image("/a.b/png"));
    assert!(!is_image("/a/.png"));
    assert_eq!(time_to_millis("00:00:01:880"), 1880);
    assert_eq!(time_to_millis("00:00:17.300"), 17_300);
    assert_eq!(time_to_millis("01:xx:02"), 3_720_000);
}

#[test]
fn lower_thirds_chain_overlays() {
    let lts = vec![
        LowerThird { path: "/m/lt.png".to_string(), duration_ms: 5000, position: strings(&["00:00:01:880", "00:00:08:880"]) },
        LowerThird { path: "/m/lt.mov".to_string(), duration_ms: 0, position: strings(&["00:00:17.300"]) },
    ];
    let p = preset(vec![text("scale", "1920:1080")], vec![]);
    let (f, base) = lower_third(&lts, &probe(1920, 1080, 1), &p, Some(Ratio { num: 16, den: 9 }), "[main_v]");
    let still = "movie=/m/lt.png:loop=0,setpts=N/(FRAME_RATE*TB),trim=duration=5,fade=in:d=0.5:alpha=1,fade=out:st=4.5:d=0.5:alpha=1,scale=1920:1080,setdar=dar=1.778";
    let clip = "movie=/m/lt.mov,scale=1920:1080,setdar=dar=1.778";
    let expected = format!(
        ";{still},setpts=PTS+1.88/TB[layer_0];[main_v][layer_0]overlay=repeatlast=0[base_0];{still},setpts=PTS+8.88/TB[layer_1];[base_0][layer_1]overlay=repeatlast=0[base_1];{clip},setpts=PTS+17.3/TB[layer_2];[base_1][layer_2]overlay=repeatlast=0[base_2]"
    );
    assert_eq!(f, expected);
    assert_eq!(base, "[base_2]");
}

#[test]
fn intro_gets_silence_when_it_has_no_audio() {
    let p = preset(vec![text("scale", "1920:1080")], vec![]);
    let t = TargetSpec { width: 1920, height: 1080, aspect: Ratio { num: 1920, den: 1080 } };
    let intro = Some(Asset { path: "/m/intro.mp4".to_string(), probe: Some(probe(1920, 1080, 0)) });
    let outro = Some(Asset { path: "/m/outro.mp4".to_string(), probe: Some(probe(1920, 1080, 2)) });
    let (i, o) = intro_outro(&intro, &outro, 0, 3000, &probe(1920, 1080, 1), &p, Some(t));
    assert_eq!(
        i,
        "movie=/m/intro.mp4[intro_v];aevalsrc=0:channel_layout=stereo:duration=10:sample_rate=48000[intro_aout];[intro_v]scale=1920:1080,setsar=sar=1/1[intro_vout]"
    );
    assert_eq!(
        o,
        "movie=/m/outro.mp4:loop=0,setpts=N/(FRAME_RATE*TB),trim=duration=3,fade=in:d=0.5,fade=out:st=2.5:d=0.5:s=dv+da[outro_v][outro_aout];[outro_v]scale=1920:1080,setsar=sar=1/1[outro_vout]"
    );
    let (none_i, none_o) = intro_outro(&None, &None, 0, 0, &probe(1920, 1080, 1), &p, Some(t));
    assert_eq!((none_i, none_o), (String::new(), String::new()));
}

#[test]
fn no_template() {
    let p = preset(vec![text("scale", "1920:1080")], vec![text("-c:v", "libx265")]);
    let t = task(probe(1920, 1080, 1), None);
    let mut filter = filter_chain(&t, &p, "", true, true, 0, &None, &None);
    assert_eq!(
        filter.cmd(),
        strings(&[
            "-filter_complex",
            "[0:v:0]scale=1920:1080,setdar=dar=1.778,setsar=sar=1/1,fade=in:d=0.5,fade=out:st=9:d=1.0[vout0];[0:a:0]afade=in:d=0.5,afade=out:st=9:d=1.0[aout0]"
        ])
    );
    assert_eq!(filter.map_video(), strings(&["-map", "[vout0]"]));
    assert_eq!(filter.map_audio(), strings(&["-map", "[aout0]"]));
}

#[test]
fn concat() {
    let template = Template {
        intro: Some("/m/intro.mp4".to_string()),
        intro_duration_ms: 0,
        outro: Some("/m/outro.mp4".to_string()),
        outro_duration_ms: 0,
        lower_thirds: vec![],
    };
    let p = preset(vec![text("scale", "1920:1080")], vec![text("-c:v", "libx265")]);
    let mut t = task(probe(1920, 1080, 1), Some(template));
    t.fade = false;
    let intro = Some(Asset { path: "/m/intro.mp4".to_string(), probe: Some(probe(1920, 1080, 2)) });
    let outro = Some(Asset { path: "/m/outro.mp4".to_string(), probe: Some(probe(1920, 1080, 2)) });
    let mut filter = filter_chain(&t, &p, "", true, true, 0, &intro, &outro);
    let cmd = filter.cmd();
    assert_eq!(cmd.len(), 2);
    assert!(cmd[1].starts_with("[0:v:0]scale=1920:1080,setdar=dar=1.778,setsar=sar=1/1[main_vout];"));
    assert!(cmd[1].ends_with(
        ";[intro_vout][intro_aout][main_vout][main_aout][outro_vout][outro_aout]concat=n=3:v=1:a=1[vout0][aout0]"
    ));
    assert!(cmd[1].contains("[0:a:0]anull[main_aout]"));
    assert_eq!(filter.map_video(), strings(&["-map", "[vout0]"]));
}

#[test]
fn copied_streams_get_no_filters() {
    let p = preset(vec![text("scale", "1920:1080")], vec![text("-c:v", "copy")]);
    let t = task(probe(1920, 1080, 1), None);
    let filter = filter_chain(&t, &p, "", true, true, 0, &None, &None);
    assert_eq!(filter.video_chain, "");
    assert_eq!(filter.map_video(), strings(&["-map", "0:v"]));
    let mut q = preset(vec![], vec![]);
    q.audio = vec![text("-c", "copy")];
    let g = filter_chain(&t, &q, "", true, false, 0, &None, &None);
    assert_eq!(g.audio_chain, "");
    assert_eq!(g.map_audio(), strings(&["-map"]));
}

#[test]
fn loudness_filter_used_when_asked() {
    let p = preset(vec![], vec![]);
    let mut t = task(probe(1920, 1080, 1), None);
    t.fade = false;
    t.lufs = true;
    let f = filter_chain(&t, &p, "loudnorm=I=-17", true, false, 1, &None, &None);
    assert_eq!(f.audio_chain, "[1:a:0]loudnorm=I=-17");
}

#[test]
fn aspect_keeps_all_decimals() {
    let p = preset(vec![text("scale", "1920:1080"), text("setdar", "dar=1.7777")], vec![]);
    let t = TargetSpec::new(&probe(1280, 720, 1), &p).unwrap();
    assert_eq!(t.aspect, Ratio { num: 17_777, den: 10_000 });
    assert_eq!(map_filter(&vec![text("scale", "1920:1080")], Some(t)), "scale=1920:1080,setdar=dar=1.778,setsar=sar=1/1");
    let q = preset(vec![], vec![text("-aspect", "1.85:1")]);
    let u = TargetSpec::new(&probe(1280, 720, 1), &q).unwrap();
    assert_eq!(u.aspect, Ratio { num: 185, den: 100 });
    let r = preset(vec![text("setdar", "dar=-1.5")], vec![text("-aspect", "4:3")]);
    let v = TargetSpec::new(&probe(1280, 720, 1), &r).unwrap();
    assert_eq!(v.aspect, Ratio { num: 4, den: 3 });
}

#[test]
fn copied_audio_with_template_gets_no_audio_stage() {
    let template = Template {
        intro: Some("/m/intro.mp4".to_string()),
        intro_duration_ms: 0,
        outro: None,
        outro_duration_ms: 0,
        lower_thirds: vec![],
    };
    let mut p = preset(vec![text("scale", "1920:1080")], vec![text("-c:v", "libx265")]);
    p.audio = vec![text("-c:a", "copy")];
    let mut t = task(probe(1920, 1080, 1), Some(template));
    t.fade = false;
    let intro = Some(Asset { path: "/m/intro.mp4".to_string(), probe: Some(probe(1920, 1080, 2)) });
    let mut filter = filter_chain(&t, &p, "", true, true, 0, &intro, &None);
    assert_eq!(filter.audio_chain, "");
    assert!(filter.audio_map.is_empty());
    let cmd = filter.cmd();
    assert!(cmd[1].ends_with(";[intro_vout][main_vout]concat=n=2:v=1:a=0[vout0]"));
    assert!(!cmd[1].contains("[main_aout]"));
}
