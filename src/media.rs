//! The records the compositor reads: probes of media files, presets, caption
//! and overlay templates, and tasks. Times are in milliseconds and ratios
//! are exact fractions.
use vstd::prelude::*;
use crate::text::{nat_text, padded_text, push_char, push_nat, push_padded};

verus! {

/// Largest numerator or denominator of a `Ratio`.
pub const RATIO_MAX: u64 = 0x100_0000_0000;

/// A positive fraction `num / den`, both parts at most `RATIO_MAX`.
#[derive(Clone, Copy, Debug, PartialEq, Eq, Structural)]
pub struct Ratio {
    pub num: u64,
    pub den: u64,
}

impl Ratio {
    pub open spec fn wf(&self) -> bool {
        0 < self.num <= RATIO_MAX && 0 < self.den <= RATIO_MAX
    }

    /// `num / den`, when both are positive and small enough.
    pub fn of(num: i64, den: i64) -> (r: Option<Ratio>)
        ensures
            match r {
                Some(x) => x.wf() && x.num == num && x.den == den,
                None => !(0 < num <= RATIO_MAX && 0 < den <= RATIO_MAX),
            },
    {
        if 0 < num && num <= RATIO_MAX as i64 && 0 < den && den <= RATIO_MAX as i64 {
            Some(Ratio { num: num as u64, den: den as u64 })
        } else {
            None
        }
    }
}

/// `a < b` for fractions.
pub open spec fn ratio_lt(a: Ratio, b: Ratio) -> bool {
    a.num * b.den < b.num * a.den
}

/// `|a - b| < tol_num / tol_den`.
pub open spec fn ratio_close(a: Ratio, b: Ratio, tol_num: nat, tol_den: nat) -> bool {
    let x = a.num * b.den;
    let y = b.num * a.den;
    let diff = if x >= y { x - y } else { y - x };
    diff * tol_den < tol_num * (a.den * b.den)
}

/// The fraction rounded to three decimals, in thousandths (halves upwards).
pub open spec fn milli_round(r: Ratio) -> nat {
    ((2000 * r.num + r.den) / (2 * r.den as int)) as nat
}

/// The fraction written with exactly three decimals.
pub open spec fn fixed3_text(r: Ratio) -> Seq<char> {
    let v = milli_round(r);
    nat_text(v / 1000) + seq!['.'] + padded_text(v % 1000, 3)
}

/// The product of two 64-bit numbers.
pub fn mul_wide(x: u64, y: u64) -> (r: u128)
    ensures
        r == x * y,
{
    assert((x as u128) * (y as u128) <= 0xffff_ffff_ffff_fffe_0000_0000_0000_0001) by (nonlinear_arith)
        requires
            x <= u64::MAX,
            y <= u64::MAX;
    (x as u128) * (y as u128)
}

/// Whether `a < b`.
pub fn ratio_less(a: Ratio, b: Ratio) -> (r: bool)
    requires
        a.wf(),
        b.wf(),
    ensures
        r == ratio_lt(a, b),
{
    mul_wide(a.num, b.den) < mul_wide(b.num, a.den)
}

/// Whether `a` and `b` differ by less than `tol_num / tol_den`.
pub fn ratio_near(a: Ratio, b: Ratio, tol_num: u64, tol_den: u64) -> (r: bool)
    requires
        a.wf(),
        b.wf(),
        tol_num <= 100,
        tol_den <= 100,
    ensures
        r == ratio_close(a, b, tol_num as nat, tol_den as nat),
{
    let x = mul_wide(a.num, b.den);
    let y = mul_wide(b.num, a.den);
    let diff = if x >= y { x - y } else { y - x };
    let dd = mul_wide(a.den, b.den);
    assert(x <= 0x1_0000_0000_0000_0000_0000 && y <= 0x1_0000_0000_0000_0000_0000 && dd <= 0x1_0000_0000_0000_0000_0000) by (nonlinear_arith)
        requires
            x == a.num * b.den,
            y == b.num * a.den,
            dd == a.den * b.den,
            a.num <= 0x100_0000_0000,
            b.num <= 0x100_0000_0000,
            a.den <= 0x100_0000_0000,
            b.den <= 0x100_0000_0000;
    assert(diff * (tol_den as u128) <= 0x100_0000_0000_0000_0000_0000 && (tol_num as u128) * dd <= 0x100_0000_0000_0000_0000_0000) by (nonlinear_arith)
        requires
            diff <= 0x1_0000_0000_0000_0000_0000,
            dd <= 0x1_0000_0000_0000_0000_0000,
            tol_num <= 100,
            tol_den <= 100;
    diff * (tol_den as u128) < (tol_num as u128) * dd
}

/// Appends the fraction with three decimals.
pub fn push_fixed3(out: &mut String, r: Ratio)
    requires
        r.wf(),
    ensures
        final(out)@ == old(out)@ + fixed3_text(r),
{
    let v: u128 = (2000 * (r.num as u128) + (r.den as u128)) / (2 * (r.den as u128));
    assert(v <= 2000 * (r.num as u128) + (r.den as u128)) by (nonlinear_arith)
        requires
            v == (2000 * (r.num as u128) + (r.den as u128)) / (2 * (r.den as u128)),
            r.den >= 1;
    let v = v as u64;
    let ghost start = out@;
    push_nat(out, v / 1000);
    push_char(out, '.');
    push_padded(out, v % 1000, 3);
    assert(out@ =~= start + fixed3_text(r));
}

/// Seconds written the way a decimal number prints: `9`, `8.5`, `-0.25`.
pub open spec fn secs_text(ms: int) -> Seq<char> {
    let a = if ms < 0 { -ms } else { ms };
    let sign = if ms < 0 { seq!['-'] } else { Seq::<char>::empty() };
    let whole = nat_text((a / 1000) as nat);
    let f = a % 1000;
    let frac = if f == 0 {
        Seq::<char>::empty()
    } else if f % 100 == 0 {
        seq!['.'] + nat_text((f / 100) as nat)
    } else if f % 10 == 0 {
        seq!['.'] + padded_text((f / 10) as nat, 2)
    } else {
        seq!['.'] + padded_text(f as nat, 3)
    };
    sign + whole + frac
}

/// Appends `ms` milliseconds as seconds.
pub fn push_secs(out: &mut String, ms: i128)
    requires
        -0x40_0000_0000_0000_0000 < ms < 0x40_0000_0000_0000_0000,
    ensures
        final(out)@ == old(out)@ + secs_text(ms as int),
{
    let ghost start = out@;
    let a: u128 = if ms < 0 { (0 - ms) as u128 } else { ms as u128 };
    if ms < 0 {
        push_char(out, '-');
    }
    push_nat(out, (a / 1000) as u64);
    let f = (a % 1000) as u64;
    if f != 0 {
        push_char(out, '.');
        if f % 100 == 0 {
            push_nat(out, f / 100);
        } else if f % 10 == 0 {
            push_padded(out, f / 10, 2);
        } else {
            push_padded(out, f, 3);
        }
    }
    assert(out@ =~= start + secs_text(ms as int));
}

/// One video stream of a probe.
#[derive(Clone, Debug, PartialEq, Eq)]
pub struct VideoStream {
    pub width: Option<i64>,
    pub height: Option<i64>,
    pub duration_ms: Option<u64>,
}

/// What probing a media file found: its video streams, how many audio
/// streams it has, and the container's duration.
#[derive(Clone, Debug, PartialEq, Eq)]
pub struct MediaProbe {
    pub video: Vec<VideoStream>,
    pub audio_streams: usize,
    pub duration_ms: Option<u64>,
}

/// Width and height of the first video stream, when it gives both.
pub open spec fn first_size(p: MediaProbe) -> Option<(i64, i64)> {
    if p.video@.len() > 0 && p.video@[0].width is Some && p.video@[0].height is Some {
        Some((p.video@[0].width->Some_0, p.video@[0].height->Some_0))
    } else {
        None
    }
}

/// The display shape of the first video stream, width over height.
pub open spec fn source_aspect(p: MediaProbe) -> Option<Ratio> {
    match first_size(p) {
        Some((w, h)) => if 0 < w <= RATIO_MAX && 0 < h <= RATIO_MAX {
            Some(Ratio { num: w as u64, den: h as u64 })
        } else {
            None
        },
        None => None,
    }
}

impl MediaProbe {
    /// Width and height of the first video stream.
    pub fn first_size(&self) -> (r: Option<(i64, i64)>)
        ensures
            r == first_size(*self),
    {
        if self.video.len() > 0 {
            match (self.video[0].width, self.video[0].height) {
                (Some(w), Some(h)) => Some((w, h)),
                _ => None,
            }
        } else {
            None
        }
    }

    /// The shape of the first video stream.
    pub fn aspect(&self) -> (r: Option<Ratio>)
        ensures
            r == source_aspect(*self),
            r matches Some(x) ==> x.wf(),
    {
        match self.first_size() {
            Some((w, h)) => Ratio::of(w, h),
            None => None,
        }
    }
}

/// A preset option value: text, or the JSON text of any other value.
#[derive(Clone, Debug, PartialEq, Eq)]
pub enum OptionValue {
    Text(String),
    Other(String),
}

/// The text an option value contributes to a command line.
pub open spec fn value_text(v: OptionValue) -> Seq<char> {
    match v {
        OptionValue::Text(s) => s@,
        OptionValue::Other(s) => s@,
    }
}

/// Options in their configured order: encoder argument order matters.
pub type Options = Vec<(String, OptionValue)>;

/// Encoding settings for one output.
#[derive(Clone, Debug, PartialEq, Eq)]
pub struct Preset {
    pub name: String,
    pub title: String,
    pub tooltip: String,
    pub filter_video: Options,
    pub filter_audio: Options,
    pub video: Options,
    pub audio: Options,
    pub container_video: Option<String>,
    pub container_audio: Option<String>,
    pub output_path: Option<String>,
    pub finished: bool,
}

/// An overlay shown at one or more times.
#[derive(Clone, Debug, PartialEq, Eq)]
pub struct LowerThird {
    /// The overlay file, ready to be named in a filter.
    pub path: String,
    /// How long a still image is shown; `0` for a clip.
    pub duration_ms: u64,
    /// When it is shown, as `HH:MM:SS:mmm` or `HH:MM:SS.mmm`.
    pub position: Vec<String>,
}

/// Intro, outro and overlays added around a task's media.
#[derive(Clone, Debug, PartialEq, Eq)]
pub struct Template {
    pub intro: Option<String>,
    pub intro_duration_ms: u64,
    pub outro: Option<String>,
    pub outro_duration_ms: u64,
    pub lower_thirds: Vec<LowerThird>,
}

/// Where a finished output is published.
#[derive(Clone, Debug, PartialEq, Eq)]
pub struct Publish {
    pub name: String,
    pub thumbnail: String,
    pub description: String,
    pub tags: String,
}

/// One source file and everything to make of it.
#[derive(Clone, Debug, PartialEq, Eq)]
pub struct Task {
    pub path: String,
    /// Start of the used part, in milliseconds; `0` for the beginning.
    pub in_ms: i64,
    /// End of the used part, in milliseconds; `0` for the end.
    pub out_ms: i64,
    pub fade: bool,
    pub lufs: bool,
    pub transcript: Option<String>,
    pub probe: MediaProbe,
    pub presets: Vec<Preset>,
    pub template: Option<Template>,
    pub target: Option<String>,
    pub target_subfolder: bool,
    pub publish: Option<Publish>,
    pub active: bool,
    pub finished: bool,
}

} // verus!
