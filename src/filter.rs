//! Incremental builder of the encoder's filter graph: one chain of labelled
//! segments per stream type, plus the `-map` selectors of their outputs.
use vstd::prelude::*;
use crate::concat::{move_concat, relocate_concat};
use crate::text::{has_prefix, int_text, push_char, push_int, starts_with};

verus! {

/// The stream type a filter applies to.
#[derive(Clone, Copy, Debug, PartialEq, Eq, Structural)]
pub enum FilterType {
    Audio,
    Video,
}

/// The stream specifier letter of a type.
pub open spec fn type_char(t: FilterType) -> char {
    match t {
        FilterType::Audio => 'a',
        FilterType::Video => 'v',
    }
}

impl FilterType {
    /// The stream specifier letter: `a` or `v`.
    pub fn letter(&self) -> (r: char)
        ensures
            r == type_char(*self),
    {
        match self {
            FilterType::Audio => 'a',
            FilterType::Video => 'v',
        }
    }

    /// The stream specifier as text.
    pub fn to_string(&self) -> (r: String)
        ensures
            r@ == seq![type_char(*self)],
    {
        let mut r = String::new();
        push_char(&mut r, self.letter());
        r
    }
}

/// The views of a list of strings.
pub open spec fn texts(v: Seq<String>) -> Seq<Seq<char>> {
    v.map_values(|s: String| s@)
}

/// Output pad label of segment `n` of type `t`: `[aout0]`, `[vout1]`.
pub open spec fn out_label(t: FilterType, n: int) -> Seq<char> {
    seq!['[', type_char(t)] + "out"@ + int_text(n) + seq![']']
}

/// Input pad selector `[position:type:track]`.
pub open spec fn track_selector(pos: int, t: FilterType, track: int) -> Seq<char> {
    seq!['['] + int_text(pos) + seq![':', type_char(t), ':'] + int_text(track) + seq![']']
}

/// Whether a filter expression is itself a source (it needs no input pad).
pub open spec fn is_generator(filter: Seq<char>) -> bool {
    has_prefix(filter, "aevalsrc"@) || has_prefix(filter, "movie"@)
}

/// Whether a filter expression continues the current segment verbatim.
pub open spec fn is_raw_continuation(filter: Seq<char>) -> bool {
    filter.len() > 0 && (filter[0] == ';' || filter[0] == '[')
}

/// A chain after one more filter of type `t` on track `track`, where `last`
/// is the track of its open segment and `pos` the input index of the type.
pub open spec fn chain_after(
    chain: Seq<char>,
    last: int,
    pos: int,
    t: FilterType,
    filter: Seq<char>,
    track: int,
) -> Seq<char> {
    if last != track {
        let closing = if chain.len() > 0 { out_label(t, last) + seq![';'] } else { Seq::empty() };
        let body = if is_generator(filter) { filter } else { track_selector(pos, t, track) + filter };
        chain + closing + body
    } else if is_raw_continuation(filter) {
        chain + filter
    } else {
        chain + seq![','] + filter
    }
}

/// The value of a graph builder.
pub struct GraphView {
    pub audio_chain: Seq<char>,
    pub video_chain: Seq<char>,
    pub output: Seq<Seq<char>>,
    pub audio_map: Seq<Seq<char>>,
    pub video_map: Seq<Seq<char>>,
    pub audio_tracks: int,
    pub audio_position: int,
    pub video_position: int,
    pub audio_last: int,
    pub video_last: int,
}

impl View for Filters {
    type V = GraphView;

    open spec fn view(&self) -> GraphView {
        GraphView {
            audio_chain: self.audio_chain@,
            video_chain: self.video_chain@,
            output: texts(self.output_chain@),
            audio_map: texts(self.audio_map@),
            video_map: texts(self.video_map@),
            audio_tracks: self.audio_tracks as int,
            audio_position: self.audio_position as int,
            video_position: self.video_position as int,
            audio_last: self.audio_last as int,
            video_last: self.video_last as int,
        }
    }
}

impl GraphView {
    /// The graph after `add_filter(filter, track, t)`.
    pub open spec fn added(self, filter: Seq<char>, track: int, t: FilterType) -> GraphView {
        match t {
            FilterType::Audio => GraphView {
                audio_chain: chain_after(self.audio_chain, self.audio_last, self.audio_position, t, filter, track),
                audio_map: if self.audio_last != track { self.audio_map.push(out_label(t, track)) } else { self.audio_map },
                audio_last: track,
                ..self
            },
            FilterType::Video => GraphView {
                video_chain: chain_after(self.video_chain, self.video_last, self.video_position, t, filter, track),
                video_map: if self.video_last != track { self.video_map.push(out_label(t, track)) } else { self.video_map },
                video_last: track,
                ..self
            },
        }
    }
}

/// Accumulator of a filter graph.
#[derive(Clone, Debug)]
pub struct Filters {
    pub audio_chain: String,
    pub video_chain: String,
    /// The finished `-filter_complex` arguments, once `cmd` produced them.
    pub output_chain: Vec<String>,
    pub audio_map: Vec<String>,
    pub video_map: Vec<String>,
    /// Number of audio tracks mapped when no audio filter was added.
    pub audio_tracks: i32,
    /// Input index of the audio source; negative when there is none.
    pub audio_position: i32,
    /// Input index of the video source; negative when there is none.
    pub video_position: i32,
    /// Track of the open audio segment; `-1` before the first one.
    pub audio_last: i32,
    /// Track of the open video segment; `-1` before the first one.
    pub video_last: i32,
}







/// A chain with its open segment given an output label, unless it ends in one.
pub open spec fn closed_chain(chain: Seq<char>, last: int, t: FilterType) -> Seq<char> {
    if last >= 0 && !(chain.len() > 0 && chain.last() == ']') {
        chain + out_label(t, last)
    } else {
        chain
    }
}

/// The complete graph text: video chain, then audio chain when an audio
/// source is set, with the first concat node moved to the end.
pub open spec fn graph_text(f: Filters) -> Seq<char> {
    let v = closed_chain(f.video_chain@, f.video_last as int, FilterType::Video);
    let a = closed_chain(f.audio_chain@, f.audio_last as int, FilterType::Audio);
    let joined = if a.len() > 0 && f.audio_position > -1 {
        if v.len() > 0 { v + seq![';'] + a } else { a }
    } else {
        v
    };
    relocate_concat(joined)
}

/// `-filter_complex <graph>`, or nothing when the graph is empty.
pub open spec fn graph_args(f: Filters) -> Seq<Seq<char>> {
    if graph_text(f).len() > 0 {
        seq!["-filter_complex"@, graph_text(f)]
    } else {
        Seq::empty()
    }
}

/// What `cmd` returns: the stored arguments once there are any.
pub open spec fn cmd_output(f: Filters) -> Seq<Seq<char>> {
    if f.output_chain@.len() > 0 { texts(f.output_chain@) } else { graph_args(f) }
}

/// `f` and `g` agree on everything but the stored arguments.
pub open spec fn same_graph(f: Filters, g: Filters) -> bool {
    &&& f.audio_chain@ == g.audio_chain@
    &&& f.video_chain@ == g.video_chain@
    &&& texts(f.audio_map@) == texts(g.audio_map@)
    &&& texts(f.video_map@) == texts(g.video_map@)
    &&& f.audio_tracks == g.audio_tracks
    &&& f.audio_position == g.audio_position
    &&& f.video_position == g.video_position
    &&& f.audio_last == g.audio_last
    &&& f.video_last == g.video_last
}

/// The audio selector `position:a:track`.
pub open spec fn audio_track_map(pos: int, track: int) -> Seq<char> {
    int_text(pos) + seq![':', 'a', ':'] + int_text(track)
}

/// `args` after mapping audio tracks `i..n` of input `pos`, skipping those
/// already present and separating them with `-map`.
pub open spec fn audio_track_args(args: Seq<Seq<char>>, pos: int, i: int, n: int) -> Seq<Seq<char>>
    decreases n - i,
{
    if i >= n {
        args
    } else {
        let m = audio_track_map(pos, i);
        let next = if args.contains(m) {
            args
        } else if i > 0 {
            args.push("-map"@).push(m)
        } else {
            args.push(m)
        };
        audio_track_args(next, pos, i + 1, n)
    }
}

/// `-map` arguments of the video stream.
pub open spec fn video_map_args(f: Filters) -> Seq<Seq<char>> {
    if f.video_map@.len() == 0 {
        seq!["-map"@, "0:v"@]
    } else {
        seq!["-map"@] + texts(f.video_map@)
    }
}

/// `-map` arguments of the audio streams.
pub open spec fn audio_map_args(f: Filters) -> Seq<Seq<char>> {
    let base = seq!["-map"@] + texts(f.audio_map@);
    if f.audio_last == -1 && f.audio_position > -1 {
        audio_track_args(base, f.audio_position as int, 0, f.audio_tracks as int)
    } else {
        base
    }
}

/// Asking for the graph arguments again returns what the first request
/// returned: `g` is the builder as the first `cmd` call left it.
pub proof fn lemma_cmd_idempotent(f: Filters, g: Filters)
    requires
        same_graph(f, g),
        texts(g.output_chain@) == cmd_output(f),
    ensures
        cmd_output(g) == cmd_output(f),
{
    assert(texts(g.output_chain@).len() == g.output_chain@.len());
    assert(texts(f.output_chain@).len() == f.output_chain@.len());
    assert(graph_text(g) == graph_text(f));
}

/// A second filter on the track of the open segment joins it with `,`; one
/// on another track first closes that segment with its output label and `;`.
pub proof fn lemma_track_joins(
    chain: Seq<char>,
    last: int,
    pos: int,
    t: FilterType,
    first: Seq<char>,
    second: Seq<char>,
    track1: int,
    track2: int,
)
    requires
        !is_raw_continuation(second),
    ensures
        ({
            let c1 = chain_after(chain, last, pos, t, first, track1);
            let c2 = chain_after(c1, track1, pos, t, second, track2);
            &&& track1 == track2 ==> c2 == c1 + seq![','] + second
            &&& track1 != track2 ==> has_prefix(c2, c1 + out_label(t, track1) + seq![';'])
        }),
{
    let c1 = chain_after(chain, last, pos, t, first, track1);
    let c2 = chain_after(c1, track1, pos, t, second, track2);
    if last != track1 {
        let body = if is_generator(first) { first } else { track_selector(pos, t, track1) + first };
        if is_generator(first) {
            reveal_strlit("aevalsrc");
            reveal_strlit("movie");
            assert(first.len() > 0);
        } else {
            assert(track_selector(pos, t, track1).len() > 0);
        }
        assert(body.len() > 0);
        let closing = if chain.len() > 0 { out_label(t, last) + seq![';'] } else { Seq::empty() };
        assert(c1 == chain + closing + body);
        assert(c1.len() > 0);
    } else if is_raw_continuation(first) {
        assert(c1.len() > 0);
    } else {
        assert(c1.len() > 0);
    }
    if track1 != track2 {
        let p = c1 + out_label(t, track1) + seq![';'];
        let body = if is_generator(second) { second } else { track_selector(pos, t, track2) + second };
        assert(c2 == p + body);
        assert(c2.subrange(0, p.len() as int) =~= p);
    }
}

pub proof fn lemma_texts_push(v: Seq<String>, s: String)
    ensures
        texts(v.push(s)) == texts(v).push(s@),
{
    assert(texts(v.push(s)) =~= texts(v).push(s@));
}

fn push_out_label(out: &mut String, t: FilterType, n: i32)
    ensures
        final(out)@ == old(out)@ + out_label(t, n as int),
{
    let ghost start = out@;
    push_char(out, '[');
    push_char(out, t.letter());
    out.append("out");
    push_int(out, n as i64);
    push_char(out, ']');
    assert(out@ =~= start + out_label(t, n as int));
}

/// Appends one filter to the chain of one stream type.
fn extend_chain(
    chain: &mut String,
    map: &mut Vec<String>,
    last: &mut i32,
    position: i32,
    filter: &str,
    track_nr: i32,
    t: FilterType,
)
    ensures
        final(chain)@ == chain_after(old(chain)@, *old(last) as int, position as int, t, filter@, track_nr as int),
        texts(final(map)@) == (if *old(last) != track_nr {
            texts(old(map)@).push(out_label(t, track_nr as int))
        } else {
            texts(old(map)@)
        }),
        *final(last) == track_nr,
{
    let ghost c0 = chain@;
    if *last != track_nr {
        if chain.as_str().unicode_len() > 0 {
            push_out_label(chain, t, *last);
            push_char(chain, ';');
        }
        if starts_with(filter, "aevalsrc") || starts_with(filter, "movie") {
            chain.append(filter);
        } else {
            push_char(chain, '[');
            push_int(chain, position as i64);
            push_char(chain, ':');
            push_char(chain, t.letter());
            push_char(chain, ':');
            push_int(chain, track_nr as i64);
            push_char(chain, ']');
            chain.append(filter);
        }
        assert(chain@ =~= chain_after(c0, *old(last) as int, position as int, t, filter@, track_nr as int));
        let mut m = String::new();
        push_out_label(&mut m, t, track_nr);
        proof {
            lemma_texts_push(map@, m);
        }
        map.push(m);
        *last = track_nr;
    } else {
        let n = filter.unicode_len();
        if n > 0 && (filter.get_char(0) == ';' || filter.get_char(0) == '[') {
            chain.append(filter);
        } else {
            push_char(chain, ',');
            chain.append(filter);
        }
        assert(chain@ =~= chain_after(c0, *old(last) as int, position as int, t, filter@, track_nr as int));
    }
}

/// Copies a list of strings.
pub fn copy_texts(v: &Vec<String>) -> (r: Vec<String>)
    ensures
        texts(r@) == texts(v@),
{
    let mut r: Vec<String> = Vec::new();
    let mut i: usize = 0;
    while i < v.len()
        invariant
            i <= v@.len(),
            texts(r@) == texts(v@.subrange(0, i as int)),
        decreases v@.len() - i,
    {
        let s = String::from_str(v[i].as_str());
        proof {
            lemma_texts_push(r@, s);
            assert(v@.subrange(0, i + 1) =~= v@.subrange(0, i as int).push(v@[i as int]));
            lemma_texts_push(v@.subrange(0, i as int), v@[i as int]);
        }
        r.push(s);
        i = i + 1;
    }
    assert(v@.subrange(0, v@.len() as int) =~= v@);
    r
}

/// Appends the strings of `extra` to `v`.
pub fn extend_texts(v: &mut Vec<String>, extra: &Vec<String>)
    ensures
        texts(final(v)@) == texts(old(v)@) + texts(extra@),
{
    let ghost start = texts(v@);
    let mut i: usize = 0;
    while i < extra.len()
        invariant
            i <= extra@.len(),
            texts(v@) == start + texts(extra@.subrange(0, i as int)),
        decreases extra@.len() - i,
    {
        let s = String::from_str(extra[i].as_str());
        proof {
            lemma_texts_push(v@, s);
            assert(extra@.subrange(0, i + 1) =~= extra@.subrange(0, i as int).push(extra@[i as int]));
            lemma_texts_push(extra@.subrange(0, i as int), extra@[i as int]);
        }
        v.push(s);
        i = i + 1;
        assert(texts(v@) =~= start + texts(extra@.subrange(0, i as int)));
    }
    assert(extra@.subrange(0, extra@.len() as int) =~= extra@);
}

/// Whether the list holds the text `s`.
pub fn contains_text_item(v: &Vec<String>, s: &String) -> (r: bool)
    ensures
        r == texts(v@).contains(s@),
{
    let mut i: usize = 0;
    while i < v.len()
        invariant
            i <= v@.len(),
            forall|k: int| 0 <= k < i ==> v@[k]@ != s@,
        decreases v@.len() - i,
    {
        if v[i] == *s {
            assert(texts(v@)[i as int] == s@);
            return true;
        }
        i = i + 1;
    }
    assert(!texts(v@).contains(s@)) by {
        if texts(v@).contains(s@) {
            let k = choose|k: int| 0 <= k < texts(v@).len() && texts(v@)[k] == s@;
            assert(v@[k]@ == s@);
        }
    }
    false
}

impl Filters {
    /// An empty graph: one audio track, no sources, no segments.
    pub fn new() -> (r: Self)
        ensures
            r.audio_chain@.len() == 0,
            r.video_chain@.len() == 0,
            r.output_chain@.len() == 0,
            r.audio_map@.len() == 0,
            r.video_map@.len() == 0,
            r.audio_tracks == 1,
            r.audio_position == -1,
            r.video_position == -1,
            r.audio_last == -1,
            r.video_last == -1,
    {
        Filters {
            audio_chain: String::new(),
            video_chain: String::new(),
            output_chain: Vec::new(),
            audio_map: Vec::new(),
            video_map: Vec::new(),
            audio_tracks: 1,
            audio_position: -1,
            video_position: -1,
            audio_last: -1,
            video_last: -1,
        }
    }

    /// Adds a filter expression on track `track_nr` of `filter_type`: a new
    /// track opens a new labelled segment, the same track extends the open one.
    pub fn add_filter(&mut self, filter: &str, track_nr: i32, filter_type: FilterType)
        ensures
            final(self)@ == old(self)@.added(filter@, track_nr as int, filter_type),
    {
        match filter_type {
            FilterType::Audio => {
                let pos = self.audio_position;
                extend_chain(&mut self.audio_chain, &mut self.audio_map, &mut self.audio_last, pos, filter, track_nr, filter_type);
            },
            FilterType::Video => {
                let pos = self.video_position;
                extend_chain(&mut self.video_chain, &mut self.video_map, &mut self.video_last, pos, filter, track_nr, filter_type);
            },
        }
    }

    /// The `-filter_complex` arguments. The first call that yields any
    /// stores them, and later calls return the stored ones.
    pub fn cmd(&mut self) -> (r: Vec<String>)
        ensures
            texts(r@) == cmd_output(*old(self)),
            texts(final(self).output_chain@) == cmd_output(*old(self)),
            same_graph(*old(self), *final(self)),
    {
        if self.output_chain.len() > 0 {
            return copy_texts(&self.output_chain);
        }
        let mut v_chain = String::from_str(self.video_chain.as_str());
        let mut a_chain = String::from_str(self.audio_chain.as_str());
        let vn = v_chain.as_str().unicode_len();
        if self.video_last >= 0 && !(vn > 0 && v_chain.as_str().get_char(vn - 1) == ']') {
            push_out_label(&mut v_chain, FilterType::Video, self.video_last);
        }
        let an = a_chain.as_str().unicode_len();
        if self.audio_last >= 0 && !(an > 0 && a_chain.as_str().get_char(an - 1) == ']') {
            push_out_label(&mut a_chain, FilterType::Audio, self.audio_last);
        }
        assert(v_chain@ == closed_chain(self.video_chain@, self.video_last as int, FilterType::Video));
        assert(a_chain@ == closed_chain(self.audio_chain@, self.audio_last as int, FilterType::Audio));
        let mut f_chain = v_chain;
        if a_chain.as_str().unicode_len() > 0 && self.audio_position > -1 {
            if f_chain.as_str().unicode_len() > 0 {
                push_char(&mut f_chain, ';');
            }
            f_chain.append(a_chain.as_str());
        }
        assert(f_chain@ =~= ({
            let v = closed_chain(self.video_chain@, self.video_last as int, FilterType::Video);
            let a = closed_chain(self.audio_chain@, self.audio_last as int, FilterType::Audio);
            if a.len() > 0 && self.audio_position > -1 {
                if v.len() > 0 { v + seq![';'] + a } else { a }
            } else {
                v
            }
        }));
        let graph = move_concat(f_chain.as_str());
        assert(graph@ == graph_text(*old(self)));
        let mut cmd: Vec<String> = Vec::new();
        if graph.as_str().unicode_len() > 0 {
            cmd.push(String::from_str("-filter_complex"));
            cmd.push(graph);
            assert(texts(cmd@) =~= graph_args(*old(self)));
            self.output_chain = copy_texts(&cmd);
        } else {
            assert(texts(cmd@) =~= graph_args(*old(self)));
        }
        cmd
    }

    /// `-map` arguments of the video stream: the registered output pads, or
    /// the first input's video stream when there are none.
    pub fn map_video(&self) -> (r: Vec<String>)
        ensures
            texts(r@) == video_map_args(*self),
    {
        let mut o_map: Vec<String> = Vec::new();
        o_map.push(String::from_str("-map"));
        extend_texts(&mut o_map, &self.video_map);
        if o_map.len() == 1 {
            let v = String::from_str("0:v");
            proof {
                lemma_texts_push(o_map@, v);
            }
            o_map.push(v);
        }
        assert(texts(o_map@) =~= video_map_args(*self));
        o_map
    }

    /// `-map` arguments of the audio streams: the registered output pads,
    /// and, when no audio filter was added, each track of the audio source.
    pub fn map_audio(&self) -> (r: Vec<String>)
        ensures
            texts(r@) == audio_map_args(*self),
    {
        let mut o_map: Vec<String> = Vec::new();
        o_map.push(String::from_str("-map"));
        extend_texts(&mut o_map, &self.audio_map);
        let ghost base = texts(o_map@);
        assert(base =~= seq!["-map"@] + texts(self.audio_map@));
        if self.audio_last == -1 && self.audio_position > -1 {
            let mut i: i32 = 0;
            while i < self.audio_tracks
                invariant
                    0 <= i,
                    i <= self.audio_tracks || self.audio_tracks < 0,
                    self.audio_position > -1,
                    audio_track_args(texts(o_map@), self.audio_position as int, i as int, self.audio_tracks as int)
                        == audio_track_args(base, self.audio_position as int, 0, self.audio_tracks as int),
                decreases self.audio_tracks - i,
            {
                let mut a_map = String::new();
                push_int(&mut a_map, self.audio_position as i64);
                a_map.append(":a:");
                proof {
                    reveal_strlit(":a:");
                }
                push_int(&mut a_map, i as i64);
                assert(a_map@ =~= audio_track_map(self.audio_position as int, i as int));
                if !contains_text_item(&o_map, &a_map) {
                    if i > 0 {
                        let sep = String::from_str("-map");
                        proof {
                            lemma_texts_push(o_map@, sep);
                        }
                        o_map.push(sep);
                    }
                    proof {
                        lemma_texts_push(o_map@, a_map);
                    }
                    o_map.push(a_map);
                }
                i = i + 1;
            }
        }
        o_map
    }
}

} // verus!
