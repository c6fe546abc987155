use adconverter::concat::move_concat;
use adconverter::filter::{FilterType, Filters};

fn strings(v: &[&str]) -> Vec<String> {
    v.iter().map(|x| x.to_string()).collect()
}

#[test]
fn same_track_joins_with_comma() {
    let mut f = Filters::new();
    f.video_position = 0;
    f.add_filter("scale=1920:1080", 0, FilterType::Video);
    f.add_filter("fade=in:d=0.5", 0, FilterType::Video);
    assert_eq!(f.video_chain, "[0:v:0]scale=1920:1080,fade=in:d=0.5");
    assert_eq!(f.video_map, strings(&["[vout0]"]));
}

#[test]
fn new_track_closes_segment() {
    let mut f = Filters::new();
    f.audio_position = 1;
    f.add_filter("anull", 0, FilterType::Audio);
    f.add_filter("volume=2", 1, FilterType::Audio);
    assert_eq!(f.audio_chain, "[1:a:0]anull[aout0];[1:a:1]volume=2");
    assert_eq!(f.audio_map, strings(&["[aout0]", "[aout1]"]));
}

#[test]
fn generator_needs_no_input_pad() {
    let mut f = Filters::new();
    f.add_filter("movie=logo.png", 2, FilterType::Video);
    assert_eq!(f.video_chain, "movie=logo.png");
    f.add_filter("aevalsrc=0", 3, FilterType::Video);
    assert_eq!(f.video_chain, "movie=logo.png[vout2];aevalsrc=0");
}

#[test]
fn raw_continuation_is_appended_verbatim() {
    let mut f = Filters::new();
    f.video_position = 0;
    f.add_filter("null", 0, FilterType::Video);
    f.add_filter("[main_v]", 0, FilterType::Video);
    f.add_filter(";[x]null[y]", 0, FilterType::Video);
    assert_eq!(f.video_chain, "[0:v:0]null[main_v];[x]null[y]");
}

#[test]
fn cmd_closes_and_joins_chains() {
    let mut f = Filters::new();
    f.video_position = 0;
    f.audio_position = 0;
    f.add_filter("null", 0, FilterType::Video);
    f.add_filter("anull", 0, FilterType::Audio);
    assert_eq!(f.cmd(), strings(&["-filter_complex", "[0:v:0]null[vout0];[0:a:0]anull[aout0]"]));
}

#[test]
fn cmd_skips_audio_without_source() {
    let mut f = Filters::new();
    f.video_position = 0;
    f.add_filter("null", 0, FilterType::Video);
    f.add_filter("anull", 0, FilterType::Audio);
    assert_eq!(f.cmd(), strings(&["-filter_complex", "[0:v:0]null[vout0]"]));
}

#[test]
fn cmd_of_empty_graph_is_empty() {
    let mut f = Filters::new();
    assert!(f.cmd().is_empty());
    assert!(f.output_chain.is_empty());
}

#[test]
fn cmd_is_memoized() {
    let mut f = Filters::new();
    f.video_position = 0;
    f.add_filter("null", 0, FilterType::Video);
    let first = f.cmd();
    let second = f.cmd();
    assert_eq!(first, second);
    f.add_filter("hflip", 0, FilterType::Video);
    assert_eq!(f.cmd(), first);
}

#[test]
fn concat_node_moves_to_end() {
    let graph = "[0:v:0]null[main_vout];[main_vout][main_aout]concat=n=1:v=1:a=1[vout0][aout0];[0:a:0]anull[main_aout]";
    let moved = move_concat(graph);
    assert_eq!(
        moved,
        "[0:v:0]null[main_vout];[0:a:0]anull[main_aout];[main_vout][main_aout]concat=n=1:v=1:a=1[vout0][aout0]"
    );
    assert_eq!(move_concat(&moved), moved);
}

#[test]
fn text_without_concat_node_is_kept() {
    assert_eq!(move_concat("[0:v:0]null;concat=oops"), "[0:v:0]null;concat=oops");
    assert_eq!(move_concat(""), "");
}

#[test]
fn cmd_relocates_concat() {
    let mut f = Filters::new();
    f.video_position = 0;
    f.audio_position = 0;
    f.add_filter("null[main_vout]", 0, FilterType::Video);
    f.add_filter(";[main_vout][main_aout]concat=n=1:v=1:a=1[vout0][aout0]", 0, FilterType::Video);
    f.add_filter("anull[main_aout]", 0, FilterType::Audio);
    assert_eq!(
        f.cmd(),
        strings(&[
            "-filter_complex",
            "[0:v:0]null[main_vout];[0:a:0]anull[main_aout];[main_vout][main_aout]concat=n=1:v=1:a=1[vout0][aout0]"
        ])
    );
}

#[test]
fn map_video_defaults_to_first_input() {
    let f = Filters::new();
    assert_eq!(f.map_video(), strings(&["-map", "0:v"]));
    let mut g = Filters::new();
    g.add_filter("null", 0, FilterType::Video);
    assert_eq!(g.map_video(), strings(&["-map", "[vout0]"]));
}

#[test]
fn map_audio_lists_tracks() {
    let mut f = Filters::new();
    f.audio_position = 1;
    f.audio_tracks = 2;
    assert_eq!(f.map_audio(), strings(&["-map", "1:a:0", "-map", "1:a:1"]));
    let g = Filters::new();
    assert_eq!(g.map_audio(), strings(&["-map"]));
    let mut h = Filters::new();
    h.audio_position = 0;
    h.add_filter("anull", 0, FilterType::Audio);
    assert_eq!(h.map_audio(), strings(&["-map", "[aout0]"]));
}

#[test]
fn filter_type_letters() {
    assert_eq!(FilterType::Audio.to_string(), "a");
    assert_eq!(FilterType::Video.to_string(), "v");
}

#[test]
fn concat_counts_in_any_script() {
    assert_eq!(
        move_concat(";[a]concat=n=\u{661}:v=1:a=1[b];x"),
        ";x;[a]concat=n=\u{661}:v=1:a=1[b]"
    );
}
