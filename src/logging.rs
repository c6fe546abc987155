//! The layout of a command line in the log: arguments that name inputs,
//! outputs, maps, metadata or the filter graph are quoted, lines are
//! wrapped before 140 characters, and the filter graph gets one line per
//! segment.
use vstd::prelude::*;
use crate::compose::ascii_lower;
use crate::filter::{lemma_texts_push, texts};
use crate::text::{contains_text, occurs_at, push_char, same_text};

verus! {

/// Longest line of a logged command, exclusive.
pub const MAX_LINE: usize = 140;

/// One line of the log.
#[derive(Clone, Debug, PartialEq, Eq)]
pub struct LogLine {
    /// Whether it goes to the debug level; otherwise it is plain text.
    pub debug: bool,
    pub text: String,
}

/// The value of a log line.
pub struct LineView {
    pub debug: bool,
    pub text: Seq<char>,
}

pub open spec fn lines_view(v: Seq<LogLine>) -> Seq<LineView> {
    v.map_values(|l: LogLine| LineView { debug: l.debug, text: l.text@ })
}

/// Video file extensions.
pub open spec fn is_video_ext(e: Seq<char>) -> bool {
    e == "avi"@ || e == "mov"@ || e == "webm"@ || e == "mp4"@ || e == "mpv"@ || e == "m4v"@ || e == "h264"@
        || e == "mkv"@ || e == "vob"@ || e == "wmv"@ || e == "yuv"@ || e == "m2v"@ || e == "mpg"@
        || e == "mpeg"@ || e == "mxf"@
}

/// What follows the last `.` of an argument (all of it when it has none).
pub open spec fn last_segment(a: Seq<char>) -> Seq<char> {
    let d = crate::compose::last_char(a, '.', a.len() as int);
    a.subrange(d + 1, a.len() as int)
}

/// Whether an argument is followed by one that is quoted.
pub open spec fn quotes_next(a: Seq<char>) -> bool {
    a == "-i"@ || a == "-filter_complex"@ || a == "-map"@ || a == "-metadata"@
}

/// The first `n` arguments as logged, and whether the next is quoted.
pub open spec fn quote_fold(args: Seq<Seq<char>>, n: int) -> (Seq<Seq<char>>, bool)
    decreases n,
{
    if n <= 0 || n > args.len() {
        (Seq::empty(), false)
    } else {
        let st = quote_fold(args, n - 1);
        let a = args[n - 1];
        if st.1 || n - 1 == args.len() - 1 || is_video_ext(ascii_lower(last_segment(a))) {
            (st.0.push(seq!['"'] + a + seq!['"']), false)
        } else {
            (st.0.push(a), quotes_next(a))
        }
    }
}

/// The segments of a filter graph, split at `;`.
pub open spec fn graph_pieces(s: Seq<char>, n: int) -> Seq<Seq<char>>
    decreases n,
{
    if n <= 0 || n > s.len() {
        seq![Seq::empty()]
    } else if s[n - 1] == ';' {
        graph_pieces(s, n - 1).push(Seq::empty())
    } else {
        let f = graph_pieces(s, n - 1);
        f.update(f.len() - 1, f.last().push(s[n - 1]))
    }
}

/// The lines of a filter graph: each segment but the last ends in `; \`.
pub open spec fn graph_lines(pieces: Seq<Seq<char>>) -> Seq<LineView> {
    Seq::new(pieces.len(), |i: int| LineView {
        debug: false,
        text: pieces[i] + if i == pieces.len() - 1 { " \\"@ } else { "; \\"@ },
    })
}

/// The state of the line wrapping: lines so far, the open line, whether
/// no line was emitted yet, and the previous argument.
pub type WrapState = (Seq<LineView>, Seq<char>, bool, Seq<char>);

/// The wrapping after the first `n` logged arguments.
pub open spec fn wrap_fold(args: Seq<Seq<char>>, start: WrapState, n: int) -> WrapState
    decreases n,
{
    if n <= 0 || n > args.len() {
        start
    } else {
        let st = wrap_fold(args, start, n - 1);
        let a = args[n - 1];
        let (lines, cur, first, last) = st;
        if last == "-filter_complex"@ {
            let l = LineView { debug: first, text: cur + " \\"@ };
            let pieces = graph_pieces(a, a.len() as int);
            (lines.push(l) + graph_lines(pieces), Seq::empty(), false, a)
        } else if cur.len() + a.len() + 1 < MAX_LINE {
            (lines, if cur.len() > 0 { cur.push(' ') + a } else { a }, first, a)
        } else {
            (lines.push(LineView { debug: first, text: cur + " \\"@ }), a, false, a)
        }
    }
}

/// The log lines of a command: a rule, its title, then the wrapped command.
pub open spec fn command_log(title: Seq<char>, prefix: Option<Seq<char>>, cmd: Seq<Seq<char>>) -> Seq<LineView> {
    let all = match prefix {
        Some(p) => seq![p] + cmd,
        None => cmd,
    };
    let quoted = quote_fold(all, all.len() as int).0;
    let head = seq![
        LineView { debug: true, text: "-------------------------------------------------------------------"@ },
        LineView { debug: true, text: title },
    ];
    let st = wrap_fold(quoted, (head, Seq::empty(), true, Seq::empty()), quoted.len() as int);
    if st.1.len() > 0 { st.0.push(LineView { debug: st.2, text: st.1 }) } else { st.0 }
}


fn video_arg(a: &str) -> (r: bool)
    ensures
        r == is_video_ext(ascii_lower(last_segment(a@))),
{
    let s = crate::concat::chars_of(a);
    let n = s.len();
    let mut k = n;
    while k > 0 && s[k - 1] != '.'
        invariant
            k <= n,
            n == s@.len(),
            crate::compose::last_char(s@, '.', n as int) == crate::compose::last_char(s@, '.', k as int),
        decreases k,
    {
        k = k - 1;
    }
    let mut e = String::new();
    let mut j = k;
    while j < n
        invariant
            k <= j <= n,
            n == s@.len(),
            e@ == ascii_lower(s@.subrange(k as int, j as int)),
        decreases n - j,
    {
        let c = s[j];
        let l = if 'A' <= c && c <= 'Z' { ((c as u8) + 32) as char } else { c };
        push_char(&mut e, l);
        j = j + 1;
        assert(e@ =~= ascii_lower(s@.subrange(k as int, j as int)));
    }
    assert(last_segment(a@) =~= s@.subrange(k as int, n as int));
    video_extension(e.as_str())
}

/// Whether `e` is a video file extension.
pub fn video_extension(e: &str) -> (r: bool)
    ensures
        r == is_video_ext(e@),
{
    same_text(e, "avi") || same_text(e, "mov") || same_text(e, "webm") || same_text(e, "mp4") || same_text(e, "mpv")
        || same_text(e, "m4v") || same_text(e, "h264") || same_text(e, "mkv") || same_text(e, "vob") || same_text(e, "wmv")
        || same_text(e, "yuv") || same_text(e, "m2v") || same_text(e, "mpg") || same_text(e, "mpeg") || same_text(e, "mxf")
}

fn push_line(lines: &mut Vec<LogLine>, debug: bool, text: String)
    ensures
        lines_view(final(lines)@) == lines_view(old(lines)@).push(LineView { debug, text: text@ }),
{
    let ghost t = text@;
    let l = LogLine { debug, text };
    lines.push(l);
    assert(lines_view(lines@) =~= lines_view(old(lines)@).push(LineView { debug, text: t }));
}

fn push_graph_lines(lines: &mut Vec<LogLine>, graph: &str)
    ensures
        lines_view(final(lines)@) == lines_view(old(lines)@) + graph_lines(graph_pieces(graph@, graph@.len() as int)),
{
    let s = crate::concat::chars_of(graph);
    let n = s.len();
    // split at ';'
    let mut pieces: Vec<String> = Vec::new();
    pieces.push(String::new());
    assert(texts(pieces@) =~= graph_pieces(s@, 0));
    let mut k: usize = 0;
    while k < n
        invariant
            k <= n,
            n == s@.len(),
            texts(pieces@) == graph_pieces(s@, k as int),
            pieces@.len() > 0,
        decreases n - k,
    {
        let c = s[k];
        if c == ';' {
            let e = String::new();
            proof {
                lemma_texts_push(pieces@, e);
            }
            pieces.push(e);
        } else {
            let ghost before = pieces@;
            let mut last = pieces.pop().unwrap();
            push_char(&mut last, c);
            proof {
                lemma_texts_push(pieces@, last);
                assert(before =~= pieces@.push(before.last()));
                lemma_texts_push(pieces@, before.last());
            }
            pieces.push(last);
            assert(texts(pieces@) =~= graph_pieces(s@, k + 1));
        }
        k = k + 1;
    }
    let ghost ps = texts(pieces@);
    let ghost start = lines_view(lines@);
    let mut i: usize = 0;
    while i < pieces.len()
        invariant
            i <= pieces@.len(),
            ps == texts(pieces@),
            lines_view(lines@) == start + graph_lines(ps).subrange(0, i as int),
        decreases pieces@.len() - i,
    {
        let mut t = String::from_str(pieces[i].as_str());
        if i == pieces.len() - 1 {
            t.append(" \\");
        } else {
            t.append("; \\");
        }
        push_line(lines, false, t);
        i = i + 1;
        assert(lines_view(lines@) =~= start + graph_lines(ps).subrange(0, i as int));
    }
    assert(graph_lines(ps).subrange(0, i as int) =~= graph_lines(ps));
}

/// The log lines of a command run under `title`: the program `prefix`,
/// when given, comes first. The caller writes each line at its level.
pub fn log_command(title: &str, prefix: Option<String>, cmd: Vec<String>) -> (r: Vec<LogLine>)
    ensures
        lines_view(r@) == command_log(title@, match prefix {
            Some(p) => Some(p@),
            None => None,
        }, texts(cmd@)),
{
    let mut cmd = cmd;
    let ghost given = texts(cmd@);
    let ghost pre = match &prefix {
        Some(p) => Some(p@),
        None => None::<Seq<char>>,
    };
    match prefix {
        Some(pr) => {
            let ghost pv = pr@;
            cmd.insert(0, pr);
            assert(texts(cmd@) =~= seq![pv] + given);
        },
        None => {},
    }
    let ghost all = texts(cmd@);
    assert(all == match pre {
        Some(p) => seq![p] + given,
        None => given,
    });
    // quoting
    let mut formatted: Vec<String> = Vec::new();
    let mut quote_next = false;
    let mut i: usize = 0;
    while i < cmd.len()
        invariant
            i <= cmd@.len(),
            all == texts(cmd@),
            (texts(formatted@), quote_next) == quote_fold(all, i as int),
        decreases cmd@.len() - i,
    {
        let arg = cmd[i].as_str();
        assert(all[i as int] == arg@);
        if quote_next || i == cmd.len() - 1 || video_arg(arg) {
            let mut q = String::new();
            push_char(&mut q, '"');
            q.append(arg);
            push_char(&mut q, '"');
            assert(q@ =~= seq!['"'] + arg@ + seq!['"']);
            proof {
                lemma_texts_push(formatted@, q);
            }
            formatted.push(q);
            quote_next = false;
        } else {
            let a = String::from_str(arg);
            proof {
                lemma_texts_push(formatted@, a);
            }
            formatted.push(a);
            quote_next = same_text(arg, "-i") || same_text(arg, "-filter_complex") || same_text(arg, "-map")
                || same_text(arg, "-metadata");
        }
        i = i + 1;
    }
    let ghost quoted = texts(formatted@);
    // wrapping
    let mut lines: Vec<LogLine> = Vec::new();
    push_line(&mut lines, true, String::from_str("-------------------------------------------------------------------"));
    push_line(&mut lines, true, String::from_str(title));
    let ghost start: WrapState = (lines_view(lines@), Seq::empty(), true, Seq::empty());
    assert(lines_view(lines@) =~= seq![
        LineView { debug: true, text: "-------------------------------------------------------------------"@ },
        LineView { debug: true, text: title@ },
    ]);
    let mut current_line = String::new();
    let mut is_first_line = true;
    let mut last_arg = String::new();
    let mut j: usize = 0;
    while j < formatted.len()
        invariant
            j <= formatted@.len(),
            quoted == texts(formatted@),
            (lines_view(lines@), current_line@, is_first_line, last_arg@) == wrap_fold(quoted, start, j as int),
        decreases formatted@.len() - j,
    {
        let arg = formatted[j].as_str();
        assert(quoted[j as int] == arg@);
        if same_text(last_arg.as_str(), "-filter_complex") {
            let mut l = String::from_str(current_line.as_str());
            l.append(" \\");
            push_line(&mut lines, is_first_line, l);
            is_first_line = false;
            current_line = String::new();
            push_graph_lines(&mut lines, arg);
        } else if current_line.as_str().unicode_len() as u128 + arg.unicode_len() as u128 + 1 < MAX_LINE as u128 {
            let ghost cur0 = current_line@;
            if current_line.as_str().unicode_len() > 0 {
                push_char(&mut current_line, ' ');
            }
            current_line.append(arg);
            assert(current_line@ =~= if cur0.len() > 0 { cur0.push(' ') + arg@ } else { arg@ });
        } else {
            let mut l = String::from_str(current_line.as_str());
            l.append(" \\");
            push_line(&mut lines, is_first_line, l);
            is_first_line = false;
            current_line = String::from_str(arg);
        }
        last_arg = String::from_str(arg);
        j = j + 1;
    }
    if current_line.as_str().unicode_len() > 0 {
        push_line(&mut lines, is_first_line, current_line);
    }
    lines
}

/// The level of a log line.
#[derive(Clone, Copy, Debug, PartialEq, Eq, Structural)]
pub enum LogLevel {
    Debug,
    Info,
    Warn,
    Error,
}

/// The level of a line of the encoder's diagnostics: the level tag it
/// carries (`[info]`, `[warning]`, `[error]` or `[fatal]`, in any case), or
/// the level of the line before when it carries none.
pub open spec fn line_level(line: Seq<char>, last: LogLevel) -> LogLevel {
    let l = ascii_lower(line);
    if contains_text(l, "[info]"@) {
        LogLevel::Info
    } else if contains_text(l, "[warning]"@) {
        LogLevel::Warn
    } else if contains_text(l, "[error]"@) || contains_text(l, "[fatal]"@) {
        LogLevel::Error
    } else {
        last
    }
}

fn lower_ascii(s: &str) -> (r: String)
    ensures
        r@ == ascii_lower(s@),
{
    let cs = crate::concat::chars_of(s);
    let mut e = String::new();
    let mut j: usize = 0;
    while j < cs.len()
        invariant
            j <= cs@.len(),
            e@ == ascii_lower(cs@.subrange(0, j as int)),
        decreases cs@.len() - j,
    {
        let c = cs[j];
        let l = if 'A' <= c && c <= 'Z' { ((c as u8) + 32) as char } else { c };
        push_char(&mut e, l);
        j = j + 1;
        assert(e@ =~= ascii_lower(cs@.subrange(0, j as int)));
    }
    assert(cs@.subrange(0, cs@.len() as int) =~= s@);
    e
}

/// Whether `p` occurs in `s`.
fn holds(s: &str, p: &str) -> (r: bool)
    ensures
        r == contains_text(s@, p@),
{
    let cs = crate::concat::chars_of(s);
    let n = cs.len();
    let mut i: usize = 0;
    while i < n
        invariant
            i <= n,
            n == cs@.len(),
            cs@ == s@,
            forall|j: int| 0 <= j < i ==> !occurs_at(s@, p@, j),
        decreases n - i,
    {
        if crate::concat::occurs_at_chars(&cs, p, i) {
            return true;
        }
        i = i + 1;
    }
    if crate::concat::occurs_at_chars(&cs, p, n) {
        return true;
    }
    assert forall|j: int| !occurs_at(s@, p@, j) by {
        if 0 <= j && j < n {
        } else if j == n {
        }
    }
    false
}

/// The level to log a line of the encoder's diagnostics at, given the level
/// of the line before.
pub fn encoder_line_level(line: &str, last: LogLevel) -> (r: LogLevel)
    ensures
        r == line_level(line@, last),
{
    let l = lower_ascii(line);
    if holds(l.as_str(), "[info]") {
        LogLevel::Info
    } else if holds(l.as_str(), "[warning]") {
        LogLevel::Warn
    } else if holds(l.as_str(), "[error]") || holds(l.as_str(), "[fatal]") {
        LogLevel::Error
    } else {
        last
    }
}

} // verus!
