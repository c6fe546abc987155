//! The command lines of one task: shared input arguments, the arguments of
//! each preset's encode, the loudness measurement pass, and the caption
//! generator's command.
use vstd::prelude::*;
use crate::compose::ascii_lower;
use crate::filter::{
    audio_map_args, cmd_output, copy_texts, extend_texts, lemma_texts_push, same_graph, texts, video_map_args,
    Filters,
};
use crate::media::{push_secs, secs_text, value_text, Options, OptionValue, Preset, Task};
use crate::text::{has_prefix, push_char, same_text};

verus! {

/// Why a task could not be carried out.
#[derive(Clone, Debug, PartialEq, Eq)]
pub enum ProcessError {
    Custom(String),
    Tauri(String),
    IO(String),
    Ffprobe(String),
    Regex(String),
    Thread(String),
}

/// Files that belong to a source: a sibling audio file, the video, and a
/// template description.
#[derive(Clone, Debug, Default, PartialEq, Eq)]
pub struct Sources {
    pub audio: Option<String>,
    pub video: Option<String>,
    pub template: Option<String>,
}

/// Command-line arguments of the program.
#[derive(Clone, Debug, Default, PartialEq, Eq)]
pub struct Args {
    /// Directory of the presets.
    pub presets: Option<String>,
}

/// Appends a string.
fn push_arg(v: &mut Vec<String>, s: &str)
    ensures
        texts(final(v)@) == texts(old(v)@).push(s@),
{
    let a = String::from_str(s);
    proof {
        lemma_texts_push(v@, a);
    }
    v.push(a);
}

/// The flags every encoder run starts with.
pub open spec fn global_flags() -> Seq<Seq<char>> {
    seq!["-hide_banner"@, "-progress"@, "pipe:1"@, "-stats_period"@, "1"@, "-nostats"@, "-v"@, "level+info"@, "-y"@]
}

/// The flags every encoder run starts with: progress on standard output
/// once a second, informative log levels, overwriting outputs.
pub fn global_args() -> (r: Vec<String>)
    ensures
        texts(r@) == global_flags(),
{
    let mut v: Vec<String> = Vec::new();
    push_arg(&mut v, "-hide_banner");
    push_arg(&mut v, "-progress");
    push_arg(&mut v, "pipe:1");
    push_arg(&mut v, "-stats_period");
    push_arg(&mut v, "1");
    push_arg(&mut v, "-nostats");
    push_arg(&mut v, "-v");
    push_arg(&mut v, "level+info");
    push_arg(&mut v, "-y");
    assert(texts(v@) =~= global_flags());
    v
}

/// The seek flags of a task: where the used part starts.
pub open spec fn seek_flags(task: Task) -> Seq<Seq<char>> {
    if task.in_ms > 0 { seq!["-ss"@, secs_text(task.in_ms as int)] } else { Seq::empty() }
}

/// The length flags of a task: how long the used part is.
pub open spec fn length_flags(task: Task) -> Seq<Seq<char>> {
    if task.out_ms > 0 { seq!["-t"@, secs_text(task.out_ms - task.in_ms)] } else { Seq::empty() }
}

/// The flags that read one input, trimmed like every other input.
pub open spec fn input_flags(task: Task, path: Seq<char>) -> Seq<Seq<char>> {
    seek_flags(task) + seq!["-i"@, path] + length_flags(task)
}

/// Appends the flags that read `path` as a trimmed input.
pub fn push_input(args: &mut Vec<String>, task: &Task, path: &str)
    ensures
        texts(final(args)@) == texts(old(args)@) + input_flags(*task, path@),
{
    let ghost start = texts(args@);
    if task.in_ms > 0 {
        push_arg(args, "-ss");
        let mut t = String::new();
        push_secs(&mut t, task.in_ms as i128);
        push_arg(args, t.as_str());
    }
    push_arg(args, "-i");
    push_arg(args, path);
    if task.out_ms > 0 {
        push_arg(args, "-t");
        let mut t = String::new();
        push_secs(&mut t, task.out_ms as i128 - task.in_ms as i128);
        push_arg(args, t.as_str());
    }
    assert(texts(args@) =~= start + input_flags(*task, path@));
}

/// The inputs of a task and what they give.
pub struct Inputs {
    /// Global flags and the trimmed inputs, video first.
    pub args: Vec<String>,
    /// Input index of the audio source; `-1` when there is no input.
    pub audio_pos: i32,
    /// Whether there is audio to encode.
    pub has_audio: bool,
    /// The file the audio is read from (for measurement and captions).
    pub audio_path: String,
}

/// The inputs of a task: its video, then its sibling audio file.
pub open spec fn inputs_spec(task: Task, sources: Option<Sources>) -> (Seq<Seq<char>>, int, bool, Seq<char>) {
    match sources {
        Some(s) => {
            let v = match s.video {
                Some(p) => input_flags(task, p@),
                None => Seq::empty(),
            };
            let a = match s.audio {
                Some(p) => input_flags(task, p@),
                None => Seq::empty(),
            };
            let pos = -1 + (if s.video is Some { 1int } else { 0int }) + (if s.audio is Some { 1int } else { 0int });
            let path = match s.audio {
                Some(p) => p@,
                None => match s.video {
                    Some(p) => p@,
                    None => Seq::empty(),
                },
            };
            (global_flags() + v + a, pos, task.probe.audio_streams > 0 || s.audio is Some, path)
        },
        None => (global_flags(), -1, task.probe.audio_streams > 0, Seq::empty()),
    }
}

/// Collects the inputs of a task from the files found beside its source.
pub fn task_inputs(task: &Task, sources: &Option<Sources>) -> (r: Inputs)
    ensures
        (texts(r.args@), r.audio_pos as int, r.has_audio, r.audio_path@) == inputs_spec(*task, *sources),
{
    let mut args = global_args();
    let mut audio_pos: i32 = -1;
    let mut has_audio = task.probe.audio_streams > 0;
    let mut audio_path = String::new();
    match sources {
        Some(src) => {
            let ghost start = texts(args@);
            match &src.video {
                Some(video) => {
                    audio_path = String::from_str(video.as_str());
                    audio_pos = audio_pos + 1;
                    push_input(&mut args, task, video.as_str());
                },
                None => {},
            }
            let ghost mid = texts(args@);
            match &src.audio {
                Some(audio) => {
                    audio_path = String::from_str(audio.as_str());
                    audio_pos = audio_pos + 1;
                    has_audio = true;
                    push_input(&mut args, task, audio.as_str());
                },
                None => {},
            }
            assert(texts(args@) =~= inputs_spec(*task, *sources).0);
        },
        None => {},
    }
    Inputs { args, audio_pos, has_audio, audio_path }
}

/// Flags that drop the source's chapters and metadata and set the year and
/// copyright.
pub open spec fn metadata_flags(year: int, copyright: Seq<char>) -> Seq<Seq<char>> {
    seq!["-map_chapters"@, "-1"@, "-map_metadata"@, "-1"@, "-metadata"@, "year="@ + crate::text::int_text(year)]
        + if copyright.len() > 0 { seq!["-metadata"@, "copyright="@ + copyright] } else { Seq::empty() }
}

/// Appends the metadata flags.
pub fn push_metadata(args: &mut Vec<String>, year: i64, copyright: &str)
    ensures
        texts(final(args)@) == texts(old(args)@) + metadata_flags(year as int, copyright@),
{
    let ghost start = texts(args@);
    push_arg(args, "-map_chapters");
    push_arg(args, "-1");
    push_arg(args, "-map_metadata");
    push_arg(args, "-1");
    push_arg(args, "-metadata");
    let mut y = String::from_str("year=");
    crate::text::push_int(&mut y, year);
    push_arg(args, y.as_str());
    if copyright.unicode_len() > 0 {
        push_arg(args, "-metadata");
        let mut c = String::from_str("copyright=");
        c.append(copyright);
        push_arg(args, c.as_str());
    }
    assert(texts(args@) =~= start + metadata_flags(year as int, copyright@));
}

/// The arguments of a loudness measurement of `audio_path`: the audio
/// alone, through the measuring filter, into the null muxer.
pub open spec fn analysis_flags(task: Task, audio_path: Seq<char>, measure: Seq<char>) -> Seq<Seq<char>> {
    global_flags() + input_flags(task, audio_path) + seq!["-vn"@, "-af"@, measure, "-f"@, "null"@, "-"@]
}

/// The arguments of a loudness measurement pass.
pub fn analysis_args(task: &Task, audio_path: &str, measure: &str) -> (r: Vec<String>)
    ensures
        texts(r@) == analysis_flags(*task, audio_path@, measure@),
{
    let mut args = global_args();
    push_input(&mut args, task, audio_path);
    let ghost mid = texts(args@);
    push_arg(&mut args, "-vn");
    push_arg(&mut args, "-af");
    push_arg(&mut args, measure);
    push_arg(&mut args, "-f");
    push_arg(&mut args, "null");
    push_arg(&mut args, "-");
    assert(texts(args@) =~= analysis_flags(*task, audio_path@, measure@));
    args
}

/// The options of a preset as arguments, each name followed by its value.
pub open spec fn options_flags(opts: Seq<(String, OptionValue)>, n: int) -> Seq<Seq<char>>
    decreases n,
{
    if n <= 0 || n > opts.len() {
        Seq::empty()
    } else {
        options_flags(opts, n - 1) + seq![opts[n - 1].0@, value_text(opts[n - 1].1)]
    }
}

/// The options of a preset as arguments, in their order.
pub fn to_vec(value: &Options) -> (r: Vec<String>)
    ensures
        texts(r@) == options_flags(value@, value@.len() as int),
{
    let mut params: Vec<String> = Vec::new();
    let mut i: usize = 0;
    while i < value.len()
        invariant
            i <= value@.len(),
            texts(params@) == options_flags(value@, i as int),
        decreases value@.len() - i,
    {
        let ghost before = texts(params@);
        push_arg(&mut params, value[i].0.as_str());
        match &value[i].1 {
            OptionValue::Text(s) => push_arg(&mut params, s.as_str()),
            OptionValue::Other(s) => push_arg(&mut params, s.as_str()),
        }
        i = i + 1;
        assert(texts(params@) =~= options_flags(value@, i as int));
    }
    params
}

/// Whether the preset has any video options.
pub fn has_video_options(preset: &Preset) -> (r: bool)
    ensures
        r == (preset.video@.len() > 0),
{
    preset.video.len() > 0
}

/// The arguments of one preset's encode, after the shared `prefix`: the
/// graph, then per stream type its `-map` and codec options and output.
/// Video and audio go to separate outputs when the preset names an audio
/// container; an MP4 output is made to start playing before it is loaded.
pub open spec fn preset_flags(
    prefix: Seq<Seq<char>>,
    f: Filters,
    preset: Preset,
    has_audio: bool,
    has_video: bool,
    video_out: Seq<char>,
    audio_out: Seq<char>,
) -> Seq<Seq<char>> {
    let vpart = match preset.container_video {
        Some(ext) => (if has_video {
            video_map_args(f) + options_flags(preset.video@, preset.video@.len() as int)
        } else {
            Seq::empty()
        }) + (if ascii_lower(ext@) == "mp4"@ { seq!["-movflags"@, "+faststart"@] } else { Seq::empty() }),
        None => Seq::empty(),
    };
    let apart = if has_audio {
        audio_map_args(f) + options_flags(preset.audio@, preset.audio@.len() as int)
    } else {
        Seq::empty()
    };
    let outs = match preset.container_audio {
        Some(_) => (if has_video { seq![video_out] } else { Seq::empty() }) + apart + seq![audio_out],
        None => apart + (if has_video { seq![video_out] } else { Seq::empty() }),
    };
    prefix + cmd_output(f) + vpart + outs
}

fn is_mp4(ext: &str) -> (r: bool)
    ensures
        r == (ascii_lower(ext@) == "mp4"@),
{
    let s = crate::concat::chars_of(ext);
    proof {
        reveal_strlit("mp4");
    }
    if s.len() != 3 {
        assert(ascii_lower(ext@).len() != "mp4"@.len());
        return false;
    }
    let a = s[0] == 'm' || s[0] == 'M';
    let b = s[1] == 'p' || s[1] == 'P';
    let c = s[2] == '4';
    proof {
        let l = ascii_lower(ext@);
        if a && b && c {
            assert(l =~= "mp4"@);
        }
        if l == "mp4"@ {
            assert(l[0] == 'm' && l[1] == 'p' && l[2] == '4');
        }
    }
    a && b && c
}

/// Builds the arguments of one preset's encode. `video_out` and
/// `audio_out` are the temporary files the encode writes.
pub fn preset_args(
    prefix: &Vec<String>,
    filter: &mut Filters,
    preset: &Preset,
    has_audio: bool,
    has_video: bool,
    video_out: &str,
    audio_out: &str,
) -> (r: Vec<String>)
    ensures
        texts(r@) == preset_flags(texts(prefix@), *old(filter), *preset, has_audio, has_video, video_out@, audio_out@),
        same_graph(*old(filter), *final(filter)),
        texts(final(filter).output_chain@) == cmd_output(*old(filter)),
{
    let mut args = copy_texts(prefix);
    let graph = filter.cmd();
    extend_texts(&mut args, &graph);
    let ghost after_graph = texts(args@);
    assert(video_map_args(*filter) == video_map_args(*old(filter)));
    assert(audio_map_args(*filter) == audio_map_args(*old(filter)));
    match &preset.container_video {
        Some(ext) => {
            if has_video {
                extend_texts(&mut args, &filter.map_video());
                extend_texts(&mut args, &to_vec(&preset.video));
            }
            if is_mp4(ext.as_str()) {
                push_arg(&mut args, "-movflags");
                push_arg(&mut args, "+faststart");
            }
        },
        None => {},
    }
    let ghost after_video = texts(args@);
    match &preset.container_audio {
        Some(_) => {
            if has_video {
                push_arg(&mut args, video_out);
            }
            if has_audio {
                extend_texts(&mut args, &filter.map_audio());
                extend_texts(&mut args, &to_vec(&preset.audio));
            }
            push_arg(&mut args, audio_out);
        },
        None => {
            if has_audio {
                extend_texts(&mut args, &filter.map_audio());
                extend_texts(&mut args, &to_vec(&preset.audio));
            }
            if has_video {
                push_arg(&mut args, video_out);
            }
        },
    }
    assert(texts(args@) =~= preset_flags(texts(prefix@), *old(filter), *preset, has_audio, has_video, video_out@, audio_out@));
    args
}

/// The name of a preset's output: `<stem> # <title>.<extension>`, the
/// extension being the video container's, else the audio container's.
pub open spec fn output_name(stem: Seq<char>, preset: Preset) -> Seq<char> {
    let ext = match preset.container_video {
        Some(e) => e@,
        None => match preset.container_audio {
            Some(e) => e@,
            None => Seq::empty(),
        },
    };
    stem + " # "@ + preset.title@ + seq!['.'] + ext
}

/// The file name of a preset's output for a source named `stem`.
pub fn output_file_name(stem: &str, preset: &Preset) -> (r: String)
    ensures
        r@ == output_name(stem@, *preset),
{
    let mut r = String::from_str(stem);
    r.append(" # ");
    r.append(preset.title.as_str());
    push_char(&mut r, '.');
    match &preset.container_video {
        Some(e) => r.append(e.as_str()),
        None => match &preset.container_audio {
            Some(e) => r.append(e.as_str()),
            None => {},
        },
    }
    r
}

/// Whether a task asks for captions.
pub open spec fn wants_transcript(task: Task) -> bool {
    match task.transcript {
        Some(l) => ascii_lower(l@) != "none"@,
        None => false,
    }
}

/// Whether a task asks for captions (any language but `none`).
pub fn transcript_wanted(task: &Task) -> (r: bool)
    ensures
        r == wants_transcript(*task),
{
    match &task.transcript {
        Some(l) => {
            let s = crate::concat::chars_of(l.as_str());
            proof {
                reveal_strlit("none");
            }
            if s.len() != 4 {
                assert(ascii_lower(l@).len() != "none"@.len());
                return true;
            }
            let is_none = (s[0] == 'n' || s[0] == 'N') && (s[1] == 'o' || s[1] == 'O') && (s[2] == 'n' || s[2] == 'N')
                && (s[3] == 'e' || s[3] == 'E');
            proof {
                let x = ascii_lower(l@);
                if is_none {
                    assert(x =~= "none"@);
                }
                if x == "none"@ {
                    assert(x[0] == 'n' && x[1] == 'o' && x[2] == 'n' && x[3] == 'e');
                }
            }
            !is_none
        },
        None => false,
    }
}

/// Whether a task has anything to do: presets to encode, or captions.
pub open spec fn has_work_spec(task: Task) -> bool {
    task.presets@.len() > 0 || (match task.transcript {
        Some(l) => l@ != "none"@,
        None => false,
    })
}

/// Whether a task has anything to do.
pub fn has_work(task: &Task) -> (r: bool)
    ensures
        r == has_work_spec(*task),
{
    if task.presets.len() > 0 {
        return true;
    }
    match &task.transcript {
        Some(l) => {
            let s = l.as_str();
            let is_none = s.unicode_len() == 4 && crate::text::starts_with(s, "none");
            proof {
                reveal_strlit("none");
                if is_none {
                    assert(s@.subrange(0, 4) =~= s@);
                }
                if s@ == "none"@ {
                    assert(s@.subrange(0, 4) =~= "none"@);
                }
            }
            !is_none
        },
        None => false,
    }
}

/// The length of the used part of a task's media, in milliseconds: the
/// trimmed span when it is trimmed, else the probed duration (or `0`).
pub open spec fn main_duration(task: Task) -> int {
    if task.in_ms > 0 || task.out_ms > 0 {
        task.out_ms - task.in_ms
    } else {
        match task.probe.duration_ms {
            Some(d) => d as int,
            None => 0,
        }
    }
}

/// The length of the used part of a task's media, in milliseconds.
pub fn main_duration_ms(task: &Task) -> (r: i128)
    ensures
        r == main_duration(*task),
{
    if task.in_ms > 0 || task.out_ms > 0 {
        task.out_ms as i128 - task.in_ms as i128
    } else {
        match task.probe.duration_ms {
            Some(d) => d as i128,
            None => 0,
        }
    }
}

/// Audio file extensions.
pub open spec fn is_audio_ext(e: Seq<char>) -> bool {
    e == "wav"@ || e == "aif"@ || e == "aiff"@ || e == "aac"@ || e == "mp3"@ || e == "flac"@ || e == "mp2"@
        || e == "m4a"@ || e == "opus"@
}


fn audio_ext(e: &str) -> (r: bool)
    ensures
        r == is_audio_ext(e@),
{
    same_text(e, "wav") || same_text(e, "aif") || same_text(e, "aiff") || same_text(e, "aac") || same_text(e, "mp3")
        || same_text(e, "flac") || same_text(e, "mp2") || same_text(e, "m4a") || same_text(e, "opus")
}


/// The views of sources: audio, video and template paths.
pub type SourcesView = (Option<Seq<char>>, Option<Seq<char>>, Option<Seq<char>>);

/// The sources after looking at the first `n` files that share the source's
/// name: the last audio file, the first video file when the source itself
/// is none, and the last template description.
pub open spec fn sources_fold(start: SourcesView, files: Seq<(String, String)>, n: int) -> SourcesView
    decreases n,
{
    if n <= 0 || n > files.len() {
        start
    } else {
        let s = sources_fold(start, files, n - 1);
        let path = files[n - 1].0@;
        let ext = files[n - 1].1@;
        if is_audio_ext(ext) {
            (Some(path), s.1, s.2)
        } else if s.1 is None && crate::logging::is_video_ext(ext) {
            (s.0, Some(path), s.2)
        } else if ext == "json"@ {
            (s.0, s.1, Some(path))
        } else {
            s
        }
    }
}

/// The views of the sources.
pub open spec fn sources_view(s: Sources) -> SourcesView {
    (
        match s.audio { Some(p) => Some(p@), None => None },
        match s.video { Some(p) => Some(p@), None => None },
        match s.template { Some(p) => Some(p@), None => None },
    )
}

/// The files that belong to a source. `source_ext` is the source's own
/// extension and `siblings` the files of its folder that share its name,
/// each with its extension, all extensions in lower case.
pub fn sources_from(source: &str, source_ext: &str, siblings: Vec<(String, String)>) -> (r: Sources)
    ensures
        sources_view(r) == sources_fold(
            (None, if crate::logging::is_video_ext(source_ext@) { Some(source@) } else { None }, None),
            siblings@,
            siblings@.len() as int,
        ),
{
    let mut src = Sources { audio: None, video: None, template: None };
    if crate::logging::video_extension(source_ext) {
        src.video = Some(String::from_str(source));
    }
    let ghost start = sources_view(src);
    let ghost files = siblings@;
    let mut i: usize = 0;
    while i < siblings.len()
        invariant
            i <= files.len(),
            files == siblings@,
            sources_view(src) == sources_fold(start, files, i as int),
        decreases files.len() - i,
    {
        let path = &siblings[i].0;
        let ext = siblings[i].1.as_str();
        if audio_ext(ext) {
            src.audio = Some(String::from_str(path.as_str()));
        } else if src.video.is_none() && crate::logging::video_extension(ext) {
            src.video = Some(String::from_str(path.as_str()));
        } else if same_text(ext, "json") {
            src.template = Some(String::from_str(path.as_str()));
        }
        i = i + 1;
    }
    src
}

/// The file that is published: the output of the preset named
/// `publish_preset` (the last such one with an output), else the source.
pub open spec fn publish_fold(task: Task, publish_preset: Option<Seq<char>>, n: int) -> Seq<char>
    decreases n,
{
    if n <= 0 || n > task.presets@.len() {
        task.path@
    } else {
        let prev = publish_fold(task, publish_preset, n - 1);
        let p = task.presets@[n - 1];
        match (publish_preset, p.output_path) {
            (Some(name), Some(out)) => if p.name@ == name { out@ } else { prev },
            _ => prev,
        }
    }
}

/// The file to publish for a task.
pub fn publish_source(task: &Task, publish_preset: &Option<String>) -> (r: String)
    ensures
        r@ == publish_fold(*task, match publish_preset {
            Some(n) => Some(n@),
            None => None,
        }, task.presets@.len() as int),
{
    let ghost pp = match publish_preset {
        Some(n) => Some(n@),
        None => None::<Seq<char>>,
    };
    let mut source = String::from_str(task.path.as_str());
    let mut i: usize = 0;
    while i < task.presets.len()
        invariant
            i <= task.presets@.len(),
            pp == match publish_preset {
                Some(n) => Some(n@),
                None => None::<Seq<char>>,
            },
            source@ == publish_fold(*task, pp, i as int),
        decreases task.presets@.len() - i,
    {
        let p = &task.presets[i];
        match (publish_preset, &p.output_path) {
            (Some(name), Some(out)) => {
                if same_text(p.name.as_str(), name.as_str()) {
                    source = String::from_str(out.as_str());
                }
            },
            _ => {},
        }
        i = i + 1;
    }
    source
}

/// What to do next in a task's sequence of presets.
#[derive(Clone, Copy, Debug, PartialEq, Eq, Structural)]
pub enum PresetStep {
    /// The run was cancelled: encode no further preset.
    Stop,
    /// Encode the preset, with video when `has_video`.
    Encode { has_video: bool },
}

/// The step at a preset boundary: stop when the run was cancelled; else
/// encode, with video once the task has sources and a preset with video
/// options was met.
pub open spec fn preset_step(running: bool, has_sources: bool, preset: Preset, has_video: bool) -> PresetStep {
    if !running {
        PresetStep::Stop
    } else {
        PresetStep::Encode { has_video: has_video || (has_sources && preset.video@.len() > 0) }
    }
}

/// Decides the next step at a preset boundary.
pub fn next_preset(running: bool, has_sources: bool, preset: &Preset, has_video: bool) -> (r: PresetStep)
    ensures
        r == preset_step(running, has_sources, *preset, has_video),
{
    if !running {
        PresetStep::Stop
    } else {
        PresetStep::Encode { has_video: has_video || (has_sources && has_video_options(preset)) }
    }
}

/// Where a preset's output is written.
#[derive(Clone, Debug, PartialEq, Eq)]
pub enum OutputPlace {
    /// In the source's folder.
    BesideSource,
    /// In the task's target folder.
    Target(String),
    /// In a folder named like the source's folder, inside the target folder;
    /// it is created when missing.
    TargetSubfolder(String, String),
}

/// The place of a task's outputs; `parent_name` is the name of the
/// source's folder.
pub open spec fn output_place_spec(task: Task, parent_name: Option<Seq<char>>) -> (bool, Option<Seq<char>>, Option<Seq<char>>) {
    match task.target {
        Some(t) => if task.target_subfolder && parent_name is Some { (true, Some(t@), parent_name) } else { (true, Some(t@), None) },
        None => (false, None, None),
    }
}

/// The view of an output place: whether it is under the target, the target
/// folder, and the subfolder.
pub open spec fn place_view(p: OutputPlace) -> (bool, Option<Seq<char>>, Option<Seq<char>>) {
    match p {
        OutputPlace::BesideSource => (false, None, None),
        OutputPlace::Target(t) => (true, Some(t@), None),
        OutputPlace::TargetSubfolder(t, sub) => (true, Some(t@), Some(sub@)),
    }
}

/// Where a task's outputs go.
pub fn output_place(task: &Task, parent_name: Option<String>) -> (r: OutputPlace)
    ensures
        place_view(r) == output_place_spec(*task, match parent_name {
            Some(p) => Some(p@),
            None => None,
        }),
{
    match &task.target {
        Some(t) => {
            if task.target_subfolder {
                match parent_name {
                    Some(p) => OutputPlace::TargetSubfolder(String::from_str(t.as_str()), p),
                    None => OutputPlace::Target(String::from_str(t.as_str())),
                }
            } else {
                OutputPlace::Target(String::from_str(t.as_str()))
            }
        },
        None => OutputPlace::BesideSource,
    }
}

/// Whether the outputs are published: the task asks for it and the run was
/// not cancelled.
pub fn publish_wanted(task: &Task, running: bool) -> (r: bool)
    ensures
        r == (task.publish is Some && running),
{
    task.publish.is_some() && running
}

// ---------------------------------------------------------------- captions

/// `s` with every occurrence of `p` (taken from the left, without overlap)
/// replaced by `w`.
pub open spec fn replaced(s: Seq<char>, p: Seq<char>, w: Seq<char>) -> Seq<char>
    decreases s.len(),
{
    if p.len() == 0 || s.len() < p.len() {
        s
    } else if has_prefix(s, p) {
        w + replaced(s.subrange(p.len() as int, s.len() as int), p, w)
    } else {
        seq![s[0]] + replaced(s.drop_first(), p, w)
    }
}

/// Replaces every occurrence of `p` in `s` by `w`.
pub fn replace_all(s: &str, p: &str, w: &str) -> (r: String)
    ensures
        r@ == replaced(s@, p@, w@),
{
    let cs = crate::concat::chars_of(s);
    let n = cs.len();
    let m = p.unicode_len();
    if m == 0 {
        return String::from_str(s);
    }
    let mut out = String::new();
    let mut i: usize = 0;
    assert(cs@.subrange(0, n as int) =~= s@);
    while i < n && n - i >= m
        invariant
            i <= n,
            n == cs@.len(),
            cs@ == s@,
            m == p@.len(),
            m > 0,
            out@ + replaced(cs@.subrange(i as int, n as int), p@, w@) == replaced(s@, p@, w@),
        decreases n - i,
    {
        let ghost rest = cs@.subrange(i as int, n as int);
        if crate::concat::occurs_at_chars(&cs, p, i) {
            assert(rest.subrange(0, m as int) =~= cs@.subrange(i as int, i + m));
            assert(rest.subrange(m as int, rest.len() as int) =~= cs@.subrange(i + m, n as int));
            out.append(w);
            i = i + m;
        } else {
            assert(rest.subrange(0, m as int) =~= cs@.subrange(i as int, i + m));
            assert(rest.drop_first() =~= cs@.subrange(i + 1, n as int));
            push_char(&mut out, cs[i]);
            i = i + 1;
        }
    }
    let ghost rest = cs@.subrange(i as int, n as int);
    assert(replaced(rest, p@, w@) == rest);
    crate::concat::push_range(&mut out, &cs, i, n);
    out
}

/// The caption generator's command line: its template with `%mount%` (the
/// source's folder), `%lang%`, `%file%` and `%output%` filled in.
pub open spec fn transcript_line(
    template: Seq<char>,
    mount: Option<Seq<char>>,
    lang: Seq<char>,
    file: Seq<char>,
    output: Option<Seq<char>>,
) -> Seq<char> {
    let t1 = match mount {
        Some(m) => replaced(template, "%mount%"@, m),
        None => template,
    };
    let t2 = replaced(replaced(t1, "%lang%"@, lang), "%file%"@, file);
    match output {
        Some(o) => replaced(t2, "%output%"@, o),
        None => t2,
    }
}

/// The words of a command line, split as a POSIX shell splits them; `None`
/// when its quoting is unbalanced.
pub uninterp spec fn shell_words(line: Seq<char>) -> Option<Seq<Seq<char>>>;

/// Relies on `shlex::split`: splits a command line into words the way a
/// POSIX shell does, or gives `None` when its quoting is unbalanced.
#[verifier::external_body]
fn split_command(line: &str) -> (r: Option<Vec<String>>)
    ensures
        match r {
            Some(v) => shell_words(line@) == Some(texts(v@)),
            None => shell_words(line@) is None,
        },
{
    shlex::split(line)
}

/// The program and arguments of split words.
pub open spec fn command_of(words: Option<Seq<Seq<char>>>) -> Option<(Seq<char>, Seq<Seq<char>>)> {
    match words {
        Some(w) => if w.len() > 0 { Some((w[0], w.drop_first())) } else { None },
        None => None,
    }
}

/// The program and its arguments from the words of a command line; an
/// error when the line could not be split or holds no word.
pub fn command_from_words(words: Option<Vec<String>>) -> (r: Result<(String, Vec<String>), ProcessError>)
    ensures
        match r {
            Ok((p, a)) => command_of(match words {
                Some(v) => Some(texts(v@)),
                None => None,
            }) == Some((p@, texts(a@))),
            Err(_) => command_of(match words {
                Some(v) => Some(texts(v@)),
                None => None,
            }) is None,
        },
{
    match words {
        Some(mut v) => {
            if v.len() == 0 {
                return Err(ProcessError::Custom(String::from_str("No transcript command to split")));
            }
            let ghost all = texts(v@);
            let program = v.remove(0);
            assert(texts(v@) =~= all.drop_first());
            Ok((program, v))
        },
        None => Err(ProcessError::Custom(String::from_str("No transcript command to split"))),
    }
}

/// The caption generator's program and arguments for a task: the command
/// template filled in, then split into words.
pub fn transcript_command(
    template: &str,
    mount: Option<String>,
    lang: &str,
    file: &str,
    output: Option<String>,
) -> (r: Result<(String, Vec<String>), ProcessError>)
    ensures
        match r {
            Ok((p, a)) => command_of(shell_words(transcript_line(template@, match mount {
                Some(m) => Some(m@),
                None => None,
            }, lang@, file@, match output {
                Some(o) => Some(o@),
                None => None,
            }))) == Some((p@, texts(a@))),
            Err(_) => command_of(shell_words(transcript_line(template@, match mount {
                Some(m) => Some(m@),
                None => None,
            }, lang@, file@, match output {
                Some(o) => Some(o@),
                None => None,
            }))) is None,
        },
{
    let t1 = match &mount {
        Some(m) => replace_all(template, "%mount%", m.as_str()),
        None => String::from_str(template),
    };
    let t2 = replace_all(replace_all(t1.as_str(), "%lang%", lang).as_str(), "%file%", file);
    let line = match &output {
        Some(o) => replace_all(t2.as_str(), "%output%", o.as_str()),
        None => t2,
    };
    command_from_words(split_command(line.as_str()))
}

/// A file path as a `movie` filter names it: on Windows, with forward
/// slashes and its drive colon escaped.
pub open spec fn filter_path(path: Seq<char>, windows: bool) -> Seq<char> {
    if windows { replaced(replaced(path, "\\"@, "/"@), ":"@, "\\\\:"@) } else { path }
}

/// Prepares a file path for use inside a filter graph; `windows` tells
/// whether the paths are Windows paths.
pub fn prepare_path(path: String, windows: bool) -> (r: String)
    ensures
        r@ == filter_path(path@, windows),
{
    if windows {
        let p = replace_all(path.as_str(), "\\", "/");
        replace_all(p.as_str(), ":", "\\\\:")
    } else {
        path
    }
}

/// The language a task's captions are made in: its own, else `auto`.
pub fn transcript_language(task: &Task) -> (r: String)
    ensures
        r@ == match task.transcript {
            Some(l) => l@,
            None => "auto"@,
        },
{
    match &task.transcript {
        Some(l) => String::from_str(l.as_str()),
        None => String::from_str("auto"),
    }
}

} // verus!
