//! Composition of the filter graph of one encode: the target geometry, the
//! preset's filters, aspect padding, fades, overlays, and intro and outro
//! joined to the main content by a concat node.
use vstd::prelude::*;
use crate::filter::{FilterType, Filters, GraphView};
use crate::media::{
    fixed3_text, first_size, push_fixed3, push_secs, ratio_close, ratio_lt, ratio_less, ratio_near,
    secs_text, source_aspect, value_text, MediaProbe, OptionValue, Options, Preset, Ratio, Task, RATIO_MAX,
};
use crate::progress::{frac_part, int_part, integer_value, is_negative, parse_integer};
use crate::subtitle::{all_digits, digits_value, parse_digits};
use crate::subtitle::first_char;
use crate::text::{int_text, nat_text, push_char, push_int, push_nat_wide, same_text};

verus! {

// ---------------------------------------------------------------- options

/// Index of the first option named `key` at or after `i`, or `-1`.
pub open spec fn option_index(opts: Seq<(String, OptionValue)>, key: Seq<char>, i: int) -> int
    decreases opts.len() - i,
{
    if i < 0 || i >= opts.len() {
        -1
    } else if opts[i].0@ == key {
        i
    } else {
        option_index(opts, key, i + 1)
    }
}

/// The value of option `key`.
pub open spec fn option_get(opts: Seq<(String, OptionValue)>, key: Seq<char>) -> Option<OptionValue> {
    let i = option_index(opts, key, 0);
    if i < 0 { None } else { Some(opts[i].1) }
}

/// The text value of option `key`, when it is text.
pub open spec fn option_text(opts: Seq<(String, OptionValue)>, key: Seq<char>) -> Option<Seq<char>> {
    match option_get(opts, key) {
        Some(OptionValue::Text(s)) => Some(s@),
        _ => None,
    }
}

/// Position of option `key`.
pub fn find_option(opts: &Options, key: &str) -> (r: Option<usize>)
    ensures
        match r {
            Some(i) => option_index(opts@, key@, 0) == i as int && i < opts@.len(),
            None => option_index(opts@, key@, 0) == -1,
        },
{
    let mut i: usize = 0;
    while i < opts.len()
        invariant
            i <= opts@.len(),
            option_index(opts@, key@, 0) == option_index(opts@, key@, i as int),
        decreases opts@.len() - i,
    {
        if same_text(opts[i].0.as_str(), key) {
            return Some(i);
        }
        i = i + 1;
    }
    None
}

/// The text value of option `key`.
pub fn get_text_option(opts: &Options, key: &str) -> (r: Option<String>)
    ensures
        match r {
            Some(s) => option_text(opts@, key@) == Some(s@),
            None => option_text(opts@, key@) is None,
        },
{
    match find_option(opts, key) {
        Some(i) => match &opts[i].1 {
            OptionValue::Text(s) => Some(String::from_str(s.as_str())),
            OptionValue::Other(_) => None,
        },
        None => None,
    }
}

/// Whether option `k` names the codec of stream type `t`, in any spelling.
pub open spec fn is_codec_key(k: Seq<char>, t: FilterType) -> bool {
    let c = crate::filter::type_char(t);
    k == "-codec:"@.push(c) || k == seq!['-', c] + "codec"@ || k == "-c:"@.push(c) || k == "-c"@
}


/// Whether an option value is the text `copy`.
pub open spec fn is_copy_value(v: OptionValue) -> bool {
    match v {
        OptionValue::Text(s) => s@ == "copy"@,
        OptionValue::Other(_) => false,
    }
}

/// Whether the options copy streams of type `t` instead of encoding them.
pub open spec fn copies_stream(opts: Seq<(String, OptionValue)>, t: FilterType) -> bool {
    exists|i: int| 0 <= i < opts.len() && is_codec_key(#[trigger] opts[i].0@, t) && is_copy_value(opts[i].1)
}


/// Whether the options ask to copy streams of type `typ` (`-codec:v`,
/// `-vcodec`, `-c:v` or `-c` set to `copy`): such streams take no filters.
pub fn has_codec_copy(args: &Options, typ: FilterType) -> (r: bool)
    ensures
        r == copies_stream(args@, typ),
{
    let c = typ.letter();
    let mut alias_1 = String::from_str("-codec:");
    push_char(&mut alias_1, c);
    let mut alias_2 = String::from_str("-");
    push_char(&mut alias_2, c);
    alias_2.append("codec");
    let mut alias_3 = String::from_str("-c:");
    push_char(&mut alias_3, c);
    assert(alias_2@ =~= seq!['-', c] + "codec"@) by {
        reveal_strlit("-");
    }
    let mut i: usize = 0;
    while i < args.len()
        invariant
            i <= args@.len(),
            alias_1@ == "-codec:"@.push(c),
            alias_2@ == seq!['-', c] + "codec"@,
            alias_3@ == "-c:"@.push(c),
            c == crate::filter::type_char(typ),
            forall|j: int| 0 <= j < i ==> !(is_codec_key(#[trigger] args@[j].0@, typ) && is_copy_value(args@[j].1)),
        decreases args@.len() - i,
    {
        let k = args[i].0.as_str();
        let named = same_text(k, alias_1.as_str()) || same_text(k, alias_2.as_str()) || same_text(k, alias_3.as_str())
            || same_text(k, "-c");
        let copy = match &args[i].1 {
            OptionValue::Text(v) => same_text(v.as_str(), "copy"),
            OptionValue::Other(_) => false,
        };
        if named && copy {
            return true;
        }
        i = i + 1;
    }
    false
}

/// `items` joined by `sep`.
pub open spec fn join_with(items: Seq<Seq<char>>, sep: char) -> Seq<char>
    decreases items.len(),
{
    if items.len() == 0 {
        Seq::empty()
    } else if items.len() == 1 {
        items[0]
    } else {
        join_with(items.drop_last(), sep).push(sep) + items.last()
    }
}

// ---------------------------------------------------------------- geometry

/// The target geometry of an encode.
#[derive(Clone, Copy, Debug, PartialEq, Eq, Structural)]
pub struct TargetSpec {
    /// Width in pixels; `-1` when unknown.
    pub width: i64,
    /// Height in pixels; `-1` when unknown.
    pub height: i64,
    /// Display aspect ratio.
    pub aspect: Ratio,
}

/// A size written `W:H` or `WxH`, when both parts are positive integers.
pub open spec fn size_of_text(s: Seq<char>) -> Option<(i64, i64)> {
    let c = first_char(s, ':', 0);
    let x = first_char(s, 'x', 0);
    let i = if c >= 0 { c } else { x };
    if i < 0 {
        None
    } else {
        let w = integer_value(s.subrange(0, i));
        let h = integer_value(s.subrange(i + 1, s.len() as int));
        match (w, h) {
            (Some(a), Some(b)) => if a > 0 && b > 0 { Some((a as i64, b as i64)) } else { None },
            _ => None,
        }
    }
}

/// Largest numerator or denominator of each side of an `-aspect` value.
pub const SIDE_MAX: u64 = 0x10_0000;

/// `10^k`.
pub open spec fn pow10(k: nat) -> nat
    decreases k,
{
    if k == 0 { 1 } else { 10 * pow10((k - 1) as nat) }
}

/// A positive decimal with integer digits `ip` and fraction digits `fp` as
/// `num / 10^k`, keeping the most fraction digits with which both parts
/// stay within `limit`.
pub open spec fn decimal_fraction(ip: Seq<char>, fp: Seq<char>, limit: nat) -> Option<(nat, nat)>
    decreases fp.len(),
{
    let den = pow10(fp.len());
    let num = digits_value(ip) * den + digits_value(fp);
    if 0 < num <= limit && den <= limit {
        Some((num, den))
    } else if fp.len() > 0 {
        decimal_fraction(ip, fp.drop_last(), limit)
    } else {
        None
    }
}

/// A positive decimal number (`1.7777`, `16`) as a fraction within `limit`.
pub open spec fn decimal_ratio(s: Seq<char>, limit: nat) -> Option<(nat, nat)> {
    let ip = int_part(s);
    let fp = frac_part(s);
    if !is_negative(s) && all_digits(ip) && all_digits(fp) && ip.len() + fp.len() > 0 {
        decimal_fraction(ip, fp, limit)
    } else {
        None
    }
}

/// The aspect in a `setdar` value such as `dar=1.7777`.
pub open spec fn setdar_aspect(s: Seq<char>) -> Option<Ratio> {
    let i = first_char(s, '=', 0);
    if i < 0 {
        None
    } else {
        match decimal_ratio(s.subrange(i + 1, s.len() as int), RATIO_MAX as nat) {
            Some((n, d)) => Some(Ratio { num: n as u64, den: d as u64 }),
            None => None,
        }
    }
}

/// The aspect in an `-aspect` value such as `16:9` or `1.85:1`.
pub open spec fn colon_aspect(s: Seq<char>) -> Option<Ratio> {
    let i = first_char(s, ':', 0);
    if i < 0 {
        None
    } else {
        let a = decimal_ratio(s.subrange(0, i), SIDE_MAX as nat);
        let b = decimal_ratio(s.subrange(i + 1, s.len() as int), SIDE_MAX as nat);
        match (a, b) {
            (Some((an, ad)), Some((bn, bd))) => Some(Ratio { num: (an * bd) as u64, den: (ad * bn) as u64 }),
            _ => None,
        }
    }
}

proof fn lemma_pow10_mono(a: nat, b: nat)
    requires
        a <= b,
    ensures
        pow10(a) <= pow10(b),
        pow10(a) >= 1,
    decreases b,
{
    if a < b {
        lemma_pow10_mono(a, (b - 1) as nat);
    } else if a > 0 {
        lemma_pow10_mono((a - 1) as nat, (a - 1) as nat);
    }
}

proof fn lemma_digits_below_pow10(x: Seq<char>)
    requires
        all_digits(x),
    ensures
        digits_value(x) < pow10(x.len()),
    decreases x.len(),
{
    if x.len() > 0 {
        assert(all_digits(x.drop_last())) by {
            assert forall|k: int| 0 <= k < x.drop_last().len() implies crate::text::is_digit(#[trigger] x.drop_last()[k]) by {
                assert(x.drop_last()[k] == x[k]);
            }
        }
        lemma_digits_below_pow10(x.drop_last());
        assert(crate::text::is_digit(x[x.len() - 1]));
    }
}

proof fn lemma_big_integer_part(ip: Seq<char>, fp: Seq<char>, limit: nat)
    requires
        digits_value(ip) > limit,
    ensures
        decimal_fraction(ip, fp, limit) is None,
    decreases fp.len(),
{
    lemma_pow10_mono(0, fp.len());
    assert(digits_value(ip) * pow10(fp.len()) >= digits_value(ip)) by (nonlinear_arith)
        requires
            pow10(fp.len()) >= 1;
    if fp.len() > 0 {
        lemma_big_integer_part(ip, fp.drop_last(), limit);
    }
}

fn pow10_exec(k: usize) -> (r: u128)
    requires
        k <= 12,
    ensures
        r == pow10(k as nat),
        r <= 1_000_000_000_000,
{
    let mut r: u128 = 1;
    let mut i: usize = 0;
    while i < k
        invariant
            i <= k <= 12,
            r == pow10(i as nat),
            r <= pow10(i as nat),
        decreases k - i,
    {
        proof {
            lemma_pow10_mono(i as nat, 11);
            reveal_with_fuel(pow10, 12);
        }
        r = r * 10;
        i = i + 1;
        assert(r == pow10(i as nat));
    }
    proof {
        lemma_pow10_mono(k as nat, 12);
        reveal_with_fuel(pow10, 13);
    }
    r
}

fn all_digits_exec(s: &Vec<char>, from: usize, to: usize) -> (r: bool)
    requires
        from <= to <= s@.len(),
    ensures
        r == all_digits(s@.subrange(from as int, to as int)),
{
    let mut k = from;
    while k < to
        invariant
            from <= k <= to <= s@.len(),
            forall|j: int| from <= j < k ==> crate::text::is_digit(#[trigger] s@[j]),
        decreases to - k,
    {
        if !('0' <= s[k] && s[k] <= '9') {
            assert(s@.subrange(from as int, to as int)[k - from] == s@[k as int]);
            return false;
        }
        k = k + 1;
    }
    assert forall|j: int| 0 <= j < to - from implies crate::text::is_digit(#[trigger] s@.subrange(from as int, to as int)[j]) by {
        assert(s@.subrange(from as int, to as int)[j] == s@[from + j]);
    }
    true
}

/// Reads a positive decimal number as a fraction within `limit`.
pub fn parse_decimal_ratio(text: &str, limit: u64) -> (r: Option<(u64, u64)>)
    requires
        0 < limit <= RATIO_MAX,
    ensures
        match r {
            Some((n, d)) => decimal_ratio(text@, limit as nat) == Some((n as nat, d as nat)) && 0 < n <= limit
                && 0 < d <= limit,
            None => decimal_ratio(text@, limit as nat) is None,
        },
{
    let s = crate::concat::chars_of(text);
    let n = s.len();
    let b: usize = if n > 0 && (s[0] == '-' || s[0] == '+') { 1 } else { 0 };
    if n > 0 && s[0] == '-' {
        return None;
    }
    let mut d = b;
    while d < n && s[d] != '.'
        invariant
            b <= d <= n,
            n == s@.len(),
            crate::progress::dot_from(s@, b as int) == crate::progress::dot_from(s@, d as int),
        decreases n - d,
    {
        d = d + 1;
    }
    proof {
        crate::progress::lemma_dot_from(s@, b as int);
        if d == n {
            assert(crate::progress::dot_from(s@, d as int) == -1);
        }
    }
    let fp_start = if d < n { d + 1 } else { n };
    let ghost ip = s@.subrange(b as int, d as int);
    let ghost fp = s@.subrange(fp_start as int, n as int);
    assert(int_part(s@) =~= ip);
    assert(frac_part(s@) =~= fp);
    if d - b + (n - fp_start) == 0 || !all_digits_exec(&s, b, d) || !all_digits_exec(&s, fp_start, n) {
        return None;
    }
    let iv = match parse_digits(&s, b, d) {
        Some(v) => v,
        None => {
            proof {
                lemma_big_integer_part(ip, fp, limit as nat);
            }
            return None;
        },
    };
    let flen = n - fp_start;
    let mut k = flen;
    assert(fp.subrange(0, flen as int) =~= fp);
    loop
        invariant
            k <= flen,
            flen == n - fp_start,
            fp_start <= n,
            n == s@.len(),
            fp == s@.subrange(fp_start as int, n as int),
            all_digits(fp),
            digits_value(ip) == iv,
            0 < limit <= RATIO_MAX,
            decimal_fraction(ip, fp, limit as nat) == decimal_fraction(ip, fp.subrange(0, k as int), limit as nat),
            decimal_ratio(text@, limit as nat) == decimal_fraction(ip, fp, limit as nat),
        decreases k,
    {
        let ghost fk = fp.subrange(0, k as int);
        assert(all_digits(fk)) by {
            assert forall|j: int| 0 <= j < fk.len() implies crate::text::is_digit(#[trigger] fk[j]) by {
                assert(fk[j] == fp[j]);
            }
        }
        if k <= 12 {
            let den = pow10_exec(k);
            assert(s@.subrange(fp_start as int, fp_start + k) =~= fk);
            proof {
                lemma_digits_below_pow10(fk);
            }
            let fv = match parse_digits(&s, fp_start, fp_start + k) {
                Some(v) => v,
                None => {
                    return None;
                },
            };
            assert((iv as u128) * den + (fv as u128) < 0x1_0000_0000_0000_0000_0000_0000_0000) by (nonlinear_arith)
                requires
                    iv <= u64::MAX,
                    den <= 1_000_000_000_000,
                    fv <= u64::MAX;
            let num: u128 = (iv as u128) * den + (fv as u128);
            if 0 < num && num <= limit as u128 && den <= limit as u128 {
                proof {
                    lemma_pow10_mono(0, k as nat);
                }
                return Some((num as u64, den as u64));
            }
        } else {
            proof {
                lemma_pow10_mono(13, k as nat);
                reveal_with_fuel(pow10, 14);
            }
        }
        if k == 0 {
            return None;
        }
        assert(fk.drop_last() =~= fp.subrange(0, k - 1));
        k = k - 1;
    }
}

/// The resolution an encode aims at: the preset's `scale` filter, else its
/// `-s` option, else the source's first video stream, else unknown.
pub open spec fn target_size(probe: MediaProbe, preset: Preset) -> (i64, i64) {
    let from_scale = match option_text(preset.filter_video@, "scale"@) {
        Some(s) => size_of_text(s),
        None => None,
    };
    let from_s = match option_text(preset.video@, "-s"@) {
        Some(s) => size_of_text(s),
        None => None,
    };
    if from_scale is Some {
        from_scale->Some_0
    } else if from_s is Some {
        from_s->Some_0
    } else if first_size(probe) is Some {
        first_size(probe)->Some_0
    } else {
        (-1i64, -1i64)
    }
}

/// The aspect an encode aims at: the preset's `setdar` filter, else its
/// `-aspect` option, else width over height.
pub open spec fn target_aspect(probe: MediaProbe, preset: Preset) -> Option<Ratio> {
    let size = target_size(probe, preset);
    let from_dar = match option_text(preset.filter_video@, "setdar"@) {
        Some(s) => setdar_aspect(s),
        None => None,
    };
    let from_opt = match option_text(preset.video@, "-aspect"@) {
        Some(s) => colon_aspect(s),
        None => None,
    };
    if from_dar is Some {
        from_dar
    } else if from_opt is Some {
        from_opt
    } else if 0 < size.0 <= RATIO_MAX && 0 < size.1 <= RATIO_MAX {
        Some(Ratio { num: size.0 as u64, den: size.1 as u64 })
    } else {
        None
    }
}

/// The target geometry, when its aspect can be told.
pub open spec fn target_of(probe: MediaProbe, preset: Preset) -> Option<TargetSpec> {
    match target_aspect(probe, preset) {
        Some(a) => Some(TargetSpec { width: target_size(probe, preset).0, height: target_size(probe, preset).1, aspect: a }),
        None => None,
    }
}

fn first_index(s: &Vec<char>, c: char) -> (r: Option<usize>)
    ensures
        match r {
            Some(i) => first_char(s@, c, 0) == i as int && i < s@.len(),
            None => first_char(s@, c, 0) == -1,
        },
{
    let mut i: usize = 0;
    while i < s.len()
        invariant
            i <= s@.len(),
            first_char(s@, c, 0) == first_char(s@, c, i as int),
        decreases s@.len() - i,
    {
        if s[i] == c {
            return Some(i);
        }
        i = i + 1;
    }
    None
}

fn range_text(s: &Vec<char>, from: usize, to: usize) -> (r: String)
    requires
        from <= to <= s@.len(),
    ensures
        r@ == s@.subrange(from as int, to as int),
{
    let mut r = String::new();
    crate::concat::push_range(&mut r, s, from, to);
    r
}

fn size_exec(text: &str) -> (r: Option<(i64, i64)>)
    ensures
        r == size_of_text(text@),
{
    let s = crate::concat::chars_of(text);
    let n = s.len();
    let i = match first_index(&s, ':') {
        Some(i) => i,
        None => match first_index(&s, 'x') {
            Some(i) => i,
            None => {
                return None;
            },
        },
    };
    let w = parse_integer(range_text(&s, 0, i).as_str());
    let h = parse_integer(range_text(&s, i + 1, s.len()).as_str());
    match (w, h) {
        (Some(a), Some(b)) => if a > 0 && b > 0 { Some((a, b)) } else { None },
        _ => None,
    }
}

fn setdar_exec(text: &str) -> (r: Option<Ratio>)
    ensures
        r == setdar_aspect(text@),
        r matches Some(x) ==> x.wf(),
{
    let s = crate::concat::chars_of(text);
    let n = s.len();
    match first_index(&s, '=') {
        Some(i) => match parse_decimal_ratio(range_text(&s, i + 1, s.len()).as_str(), RATIO_MAX) {
            Some((n, d)) => Some(Ratio { num: n, den: d }),
            None => None,
        },
        None => None,
    }
}

fn colon_aspect_exec(text: &str) -> (r: Option<Ratio>)
    ensures
        r == colon_aspect(text@),
        r matches Some(x) ==> x.wf(),
{
    let s = crate::concat::chars_of(text);
    match first_index(&s, ':') {
        Some(i) => {
            let a = parse_decimal_ratio(range_text(&s, 0, i).as_str(), SIDE_MAX);
            let b = parse_decimal_ratio(range_text(&s, i + 1, s.len()).as_str(), SIDE_MAX);
            match (a, b) {
                (Some((an, ad)), Some((bn, bd))) => {
                    assert(an * bd <= RATIO_MAX && ad * bn <= RATIO_MAX && an * bd > 0 && ad * bn > 0) by (nonlinear_arith)
                        requires
                            0 < an <= 0x10_0000,
                            0 < ad <= 0x10_0000,
                            0 < bn <= 0x10_0000,
                            0 < bd <= 0x10_0000;
                    Some(Ratio { num: an * bd, den: ad * bn })
                },
                _ => None,
            }
        },
        None => None,
    }
}

impl TargetSpec {
    /// The geometry an encode of `probe` with `preset` aims at; `None` when
    /// no aspect can be told (nothing configured and no usable video stream).
    pub fn new(probe: &MediaProbe, preset: &Preset) -> (r: Option<TargetSpec>)
        ensures
            r == target_of(*probe, *preset),
            r matches Some(t) ==> t.aspect.wf(),
    {
        let from_scale = match get_text_option(&preset.filter_video, "scale") {
            Some(s) => size_exec(s.as_str()),
            None => None,
        };
        let from_s = match get_text_option(&preset.video, "-s") {
            Some(s) => size_exec(s.as_str()),
            None => None,
        };
        let size: (i64, i64) = match from_scale {
            Some(x) => x,
            None => match from_s {
                Some(x) => x,
                None => match probe.first_size() {
                    Some(x) => x,
                    None => (-1, -1),
                },
            },
        };
        let from_dar = match get_text_option(&preset.filter_video, "setdar") {
            Some(s) => setdar_exec(s.as_str()),
            None => None,
        };
        let from_opt = match get_text_option(&preset.video, "-aspect") {
            Some(s) => colon_aspect_exec(s.as_str()),
            None => None,
        };
        let aspect = match from_dar {
            Some(a) => Some(a),
            None => match from_opt {
                Some(a) => Some(a),
                None => Ratio::of(size.0, size.1),
            },
        };
        match aspect {
            Some(a) => Some(TargetSpec { width: size.0, height: size.1, aspect: a }),
            None => None,
        }
    }
}

/// Pads the source to the target aspect (scaling it down first when it is
/// larger than the target), unless their aspects are within 0.03.
pub open spec fn pad_text(probe: MediaProbe, t: TargetSpec) -> Seq<char> {
    match source_aspect(probe) {
        Some(sa) => if ratio_close(sa, t.aspect, 3, 100) {
            Seq::empty()
        } else {
            let w = first_size(probe)->Some_0.0;
            let h = first_size(probe)->Some_0.1;
            let a = fixed3_text(t.aspect);
            let scale = if w > t.width && ratio_lt(t.aspect, sa) {
                "scale="@ + int_text(t.width as int) + ":-1,"@
            } else if h > t.height && ratio_lt(sa, t.aspect) {
                "scale=-1:"@ + int_text(t.height as int) + seq![',']
            } else {
                Seq::empty()
            };
            scale + "pad=max(iw\\,ih*"@ + a + "):(ow/"@ + a + "):((ow-iw)/2):((oh-ih)/2)"@
        },
        None => Seq::empty(),
    }
}

/// The padding filter that fits the source into the target aspect.
pub fn pad(probe: &MediaProbe, target_spec: &TargetSpec) -> (r: String)
    requires
        target_spec.aspect.wf(),
    ensures
        r@ == pad_text(*probe, *target_spec),
{
    let mut pad = String::new();
    match probe.aspect() {
        Some(sa) => {
            if !ratio_near(sa, target_spec.aspect, 3, 100) {
                let (w, h) = match probe.first_size() {
                    Some(x) => x,
                    None => (0, 0),
                };
                if w > target_spec.width && ratio_less(target_spec.aspect, sa) {
                    pad.append("scale=");
                    push_int(&mut pad, target_spec.width);
                    pad.append(":-1,");
                } else if h > target_spec.height && ratio_less(sa, target_spec.aspect) {
                    pad.append("scale=-1:");
                    push_int(&mut pad, target_spec.height);
                    push_char(&mut pad, ',');
                }
                pad.append("pad=max(iw\\,ih*");
                push_fixed3(&mut pad, target_spec.aspect);
                pad.append("):(ow/");
                push_fixed3(&mut pad, target_spec.aspect);
                pad.append("):((ow-iw)/2):((oh-ih)/2)");
            }
        },
        None => {},
    }
    pad
}

// ---------------------------------------------------------------- filters

/// Where a fade-out starts: one second before the end of the used part.
pub open spec fn fade_out_start(task: Task) -> int {
    if task.out_ms > 0 {
        task.out_ms - task.in_ms - 1000
    } else {
        match task.probe.duration_ms {
            Some(d) => d - 1000,
            None => task.out_ms - task.in_ms - 1000,
        }
    }
}

/// Prefix of the fade filters of a type: `a` for audio.
pub open spec fn fade_prefix(t: FilterType) -> Seq<char> {
    match t {
        FilterType::Audio => seq!['a'],
        FilterType::Video => Seq::empty(),
    }
}

/// The graph after the fades of `task` on type `t`.
pub open spec fn faded(g: GraphView, task: Task, t: FilterType) -> GraphView {
    if task.fade {
        g.added(fade_prefix(t) + "fade=in:d=0.5"@, 0, t).added(
            fade_prefix(t) + "fade=out:st="@ + secs_text(fade_out_start(task)) + ":d=1.0"@,
            0,
            t,
        )
    } else {
        g
    }
}

/// Adds a fade-in and a one-second fade-out to type `typ`, when the task
/// asks for fades.
pub fn fade(task: &Task, chain: &mut Filters, typ: FilterType)
    ensures
        final(chain)@ == faded(old(chain)@, *task, typ),
{
    if task.fade {
        let st: i128 = if task.out_ms > 0 {
            task.out_ms as i128 - task.in_ms as i128 - 1000
        } else {
            match task.probe.duration_ms {
                Some(d) => d as i128 - 1000,
                None => task.out_ms as i128 - task.in_ms as i128 - 1000,
            }
        };
        let mut fade_in = String::new();
        let mut fade_out = String::new();
        if typ == FilterType::Audio {
            push_char(&mut fade_in, 'a');
            push_char(&mut fade_out, 'a');
        }
        fade_in.append("fade=in:d=0.5");
        fade_out.append("fade=out:st=");
        push_secs(&mut fade_out, st);
        fade_out.append(":d=1.0");
        assert(fade_in@ =~= fade_prefix(typ) + "fade=in:d=0.5"@);
        assert(fade_out@ =~= fade_prefix(typ) + "fade=out:st="@ + secs_text(fade_out_start(*task)) + ":d=1.0"@);
        chain.add_filter(fade_in.as_str(), 0, typ);
        chain.add_filter(fade_out.as_str(), 0, typ);
    }
}

/// Whether the target's resolution matches its aspect within 0.3.
pub open spec fn size_matches_aspect(t: TargetSpec) -> bool {
    0 < t.width <= RATIO_MAX && 0 < t.height <= RATIO_MAX
        && ratio_close(Ratio { num: t.width as u64, den: t.height as u64 }, t.aspect, 3, 10)
}

fn size_matches_exec(t: &TargetSpec) -> (r: bool)
    requires
        t.aspect.wf(),
    ensures
        r == size_matches_aspect(*t),
{
    match Ratio::of(t.width, t.height) {
        Some(x) => ratio_near(x, t.aspect, 3, 10),
        None => false,
    }
}

/// One filter of a preset: `name=value`, a scale also fixing the display
/// aspect (and square pixels when the size matches it).
pub open spec fn filter_item(key: Seq<char>, v: OptionValue, target: Option<TargetSpec>) -> Seq<char> {
    let base = key + seq!['='] + value_text(v);
    match target {
        Some(t) => if key == "scale"@ {
            base + ",setdar=dar="@ + fixed3_text(t.aspect) + if size_matches_aspect(t) { ",setsar=sar=1/1"@ } else { Seq::empty() }
        } else {
            base
        },
        None => base,
    }
}

/// The filters of a preset's options, in order.
pub open spec fn filter_items(opts: Seq<(String, OptionValue)>, target: Option<TargetSpec>) -> Seq<Seq<char>> {
    Seq::new(opts.len(), |i: int| filter_item(opts[i].0@, opts[i].1, target))
}

/// The filter chain of a preset's options.
pub open spec fn map_filter_text(opts: Seq<(String, OptionValue)>, target: Option<TargetSpec>) -> Seq<char> {
    join_with(filter_items(opts, target), ',')
}

/// The filter chain of a preset's options, joined by `,`; with a target,
/// a `scale` filter also sets the display aspect.
pub fn map_filter(value: &Options, target_spec: Option<TargetSpec>) -> (r: String)
    requires
        target_spec matches Some(t) ==> t.aspect.wf(),
    ensures
        r@ == map_filter_text(value@, target_spec),
{
    let ghost items = filter_items(value@, target_spec);
    let mut r = String::new();
    let mut i: usize = 0;
    while i < value.len()
        invariant
            i <= value@.len(),
            items == filter_items(value@, target_spec),
            target_spec matches Some(t) ==> t.aspect.wf(),
            r@ == join_with(items.subrange(0, i as int), ','),
        decreases value@.len() - i,
    {
        let key = value[i].0.as_str();
        let mut item = String::from_str(key);
        push_char(&mut item, '=');
        match &value[i].1 {
            OptionValue::Text(s) => item.append(s.as_str()),
            OptionValue::Other(s) => item.append(s.as_str()),
        }
        match target_spec {
            Some(t) => {
                if same_text(key, "scale") {
                    item.append(",setdar=dar=");
                    push_fixed3(&mut item, t.aspect);
                    if size_matches_exec(&t) {
                        item.append(",setsar=sar=1/1");
                    }
                }
            },
            None => {},
        }
        assert(item@ =~= items[i as int]);
        if i > 0 {
            push_char(&mut r, ',');
        }
        r.append(item.as_str());
        assert(items.subrange(0, i + 1).drop_last() =~= items.subrange(0, i as int));
        assert(r@ =~= join_with(items.subrange(0, i + 1), ','));
        i = i + 1;
    }
    assert(items.subrange(0, value@.len() as int) =~= items);
    r
}

// ---------------------------------------------------------------- overlays

/// Still-image file extensions.
pub open spec fn is_image_ext(e: Seq<char>) -> bool {
    e == "exr"@ || e == "png"@ || e == "tga"@ || e == "tif"@ || e == "tiff"@ || e == "gif"@
}

/// ASCII letters in lower case.
pub open spec fn ascii_lower(s: Seq<char>) -> Seq<char> {
    Seq::new(s.len(), |i: int| if 'A' <= s[i] <= 'Z' { (((s[i] as u32) + 32) as u8) as char } else { s[i] })
}

/// Index of the last `c` in `s[..n]`, or `-1`.
pub open spec fn last_char(s: Seq<char>, c: char, n: int) -> int
    decreases n,
{
    if n <= 0 || n > s.len() { -1 } else if s[n - 1] == c { n - 1 } else { last_char(s, c, n - 1) }
}

/// The extension of the file a `/`-separated path names: what follows the
/// last `.` of its name, unless the name starts with that `.`.
pub open spec fn extension_of(p: Seq<char>) -> Option<Seq<char>> {
    let slash = last_char(p, '/', p.len() as int);
    let dot = last_char(p, '.', p.len() as int);
    if dot > slash + 1 { Some(p.subrange(dot + 1, p.len() as int)) } else { None }
}

/// Whether a path names a still image.
pub open spec fn is_image_path(p: Seq<char>) -> bool {
    match extension_of(p) {
        Some(e) => is_image_ext(ascii_lower(e)),
        None => false,
    }
}

fn last_index(s: &Vec<char>, c: char) -> (r: Option<usize>)
    ensures
        match r {
            Some(i) => i as int == last_char(s@, c, s@.len() as int) && i < s@.len(),
            None => last_char(s@, c, s@.len() as int) == -1,
        },
{
    let mut k = s.len();
    while k > 0
        invariant
            k <= s@.len(),
            last_char(s@, c, s@.len() as int) == last_char(s@, c, k as int),
        decreases k,
    {
        if s[k - 1] == c {
            return Some(k - 1);
        }
        k = k - 1;
    }
    None
}

/// Whether `path` names a still image (by its extension, in any case).
pub fn is_image(path: &str) -> (r: bool)
    ensures
        r == is_image_path(path@),
{
    let s = crate::concat::chars_of(path);
    let n = s.len();
    let slash = last_index(&s, '/');
    let dot = match last_index(&s, '.') {
        Some(d) => d,
        None => {
            return false;
        },
    };
    let after_slash = match slash {
        Some(sl) => dot > sl + 1,
        None => dot > 0,
    };
    if !after_slash {
        return false;
    }
    let start = (dot + 1) as usize;
    let mut ext = String::new();
    let mut k = start;
    while k < s.len()
        invariant
            start <= k <= s@.len(),
            ext@ == ascii_lower(s@.subrange(start as int, k as int)),
        decreases s@.len() - k,
    {
        let c = s[k];
        let l = if 'A' <= c && c <= 'Z' { ((c as u8) + 32) as char } else { c };
        push_char(&mut ext, l);
        k = k + 1;
        assert(ext@ =~= ascii_lower(s@.subrange(start as int, k as int)));
    }
    let e = ext.as_str();
    same_text(e, "exr") || same_text(e, "png") || same_text(e, "tga") || same_text(e, "tif") || same_text(e, "tiff")
        || same_text(e, "gif")
}

/// The `:`- or `.`-separated fields of `s[..n]`.
pub open spec fn time_fields(s: Seq<char>, n: int) -> Seq<Seq<char>>
    decreases n,
{
    if n <= 0 || n > s.len() {
        seq![Seq::empty()]
    } else if s[n - 1] == ':' || s[n - 1] == '.' {
        time_fields(s, n - 1).push(Seq::empty())
    } else {
        let f = time_fields(s, n - 1);
        f.update(f.len() - 1, f.last().push(s[n - 1]))
    }
}

/// The fields that are numbers of up to 32 bits, in order.
pub open spec fn numbers_of(f: Seq<Seq<char>>, n: int) -> Seq<nat>
    decreases n,
{
    if n <= 0 || n > f.len() {
        Seq::empty()
    } else {
        let rest = numbers_of(f, n - 1);
        match crate::subtitle::digits_num(f[n - 1]) {
            Some(v) => if f[n - 1].len() > 0 && v <= u32::MAX { rest.push(v) } else { rest },
            None => rest,
        }
    }
}

/// The `i`-th number, or `0`.
pub open spec fn nth_or_zero(v: Seq<nat>, i: int) -> nat {
    if 0 <= i < v.len() { v[i] } else { 0 }
}

/// A position `HH:MM:SS:mmm` (or with `.`) in milliseconds; fields that are
/// not numbers are passed over.
pub open spec fn time_ms(s: Seq<char>) -> nat {
    let v = numbers_of(time_fields(s, s.len() as int), time_fields(s, s.len() as int).len() as int);
    nth_or_zero(v, 0) * 3600000 + nth_or_zero(v, 1) * 60000 + nth_or_zero(v, 2) * 1000 + nth_or_zero(v, 3)
}

proof fn lemma_time_fields_len(s: Seq<char>, n: int)
    ensures
        time_fields(s, n).len() >= 1,
    decreases n,
{
    if 0 < n <= s.len() {
        lemma_time_fields_len(s, n - 1);
    }
}

/// Reads an overlay position into milliseconds.
pub fn time_to_millis(time_str: &str) -> (r: u64)
    ensures
        r as nat == time_ms(time_str@),
        r < 0x40_0000_0000_0000,
{
    let s = crate::concat::chars_of(time_str);
    // split into fields
    let mut fields: Vec<String> = Vec::new();
    fields.push(String::new());
    assert(crate::filter::texts(fields@) =~= time_fields(s@, 0));
    let mut k: usize = 0;
    while k < s.len()
        invariant
            k <= s@.len(),
            crate::filter::texts(fields@) == time_fields(s@, k as int),
        decreases s@.len() - k,
    {
        proof {
            lemma_time_fields_len(s@, k as int);
        }
        let c = s[k];
        if c == ':' || c == '.' {
            let e = String::new();
            proof {
                crate::filter::lemma_texts_push(fields@, e);
            }
            fields.push(e);
        } else {
            let ghost before = fields@;
            let mut last = fields.pop().unwrap();
            push_char(&mut last, c);
            proof {
                crate::filter::lemma_texts_push(fields@, last);
                assert(before =~= fields@.push(before.last()));
                crate::filter::lemma_texts_push(fields@, before.last());
            }
            fields.push(last);
            assert(crate::filter::texts(fields@) =~= time_fields(s@, k + 1));
        }
        k = k + 1;
    }
    assert(s@.len() == time_str@.len());
    // the numbers among them
    let ghost fs = crate::filter::texts(fields@);
    let mut nums: Vec<u64> = Vec::new();
    let mut j: usize = 0;
    while j < fields.len()
        invariant
            j <= fields@.len(),
            fs == crate::filter::texts(fields@),
            nums@.map_values(|x: u64| x as nat) == numbers_of(fs, j as int),
            forall|i: int| 0 <= i < nums@.len() ==> nums@[i] <= u32::MAX,
        decreases fields@.len() - j,
    {
        let cs = crate::concat::chars_of(fields[j].as_str());
        let n = cs.len();
        assert(cs@.subrange(0, n as int) =~= cs@);
        assert(fs[j as int] == cs@);
        match crate::subtitle::parse_digits(&cs, 0, n) {
            Some(v) => {
                if n > 0 && v <= 0xffff_ffff {
                    nums.push(v);
                    assert(nums@.map_values(|x: u64| x as nat) =~= numbers_of(fs, j + 1));
                } else {
                    assert(nums@.map_values(|x: u64| x as nat) =~= numbers_of(fs, j + 1));
                }
            },
            None => {
                assert(nums@.map_values(|x: u64| x as nat) =~= numbers_of(fs, j + 1));
            },
        }
        j = j + 1;
    }
    let ghost v = nums@.map_values(|x: u64| x as nat);
    let h: u64 = if nums.len() > 0 { nums[0] } else { 0 };
    let m: u64 = if nums.len() > 1 { nums[1] } else { 0 };
    let sec: u64 = if nums.len() > 2 { nums[2] } else { 0 };
    let ms: u64 = if nums.len() > 3 { nums[3] } else { 0 };
    assert(h == nth_or_zero(v, 0) && m == nth_or_zero(v, 1) && sec == nth_or_zero(v, 2) && ms == nth_or_zero(v, 3));
    assert(h * 3600000 + m * 60000 + sec * 1000 + ms < 0x40_0000_0000_0000) by (nonlinear_arith)
        requires
            h <= 0xffff_ffff,
            m <= 0xffff_ffff,
            sec <= 0xffff_ffff,
            ms <= 0xffff_ffff;
    h * 3600000 + m * 60000 + sec * 1000 + ms
}

/// The `setdar` part of an overlay's scale, when the aspect is known.
pub open spec fn dar_text(aspect: Option<Ratio>) -> Seq<char> {
    match aspect {
        Some(a) => ",setdar=dar="@ + fixed3_text(a),
        None => Seq::empty(),
    }
}

/// The looping and fading of an overlay that is a still image shown for a while.
pub open spec fn still_text(lt: crate::media::LowerThird) -> Seq<char> {
    let d = lt.duration_ms as int;
    if lt.duration_ms > 0 && is_image_path(lt.path@) {
        ":loop=0,setpts=N/(FRAME_RATE*TB),trim=duration="@ + secs_text(d) + ",fade=in:d=0.5:alpha=1,fade=out:st="@
            + secs_text(d - 500) + ":d=0.5:alpha=1"@
    } else {
        Seq::empty()
    }
}

/// The scaling of an overlay to the target size.
pub open spec fn overlay_scale(probe: MediaProbe, preset: Preset, aspect: Option<Ratio>) -> Seq<char> {
    match option_get(preset.filter_video@, "scale"@) {
        Some(OptionValue::Text(s)) => ",scale="@ + s@ + dar_text(aspect),
        Some(OptionValue::Other(_)) => Seq::empty(),
        None => match first_size(probe) {
            Some((w, h)) => ",scale="@ + int_text(w as int) + seq![':'] + int_text(h as int) + dar_text(aspect),
            None => Seq::empty(),
        },
    }
}

/// The source of one overlay: the file, looped and faded when it is a
/// still image shown for a while, and scaled to the target size.
pub open spec fn layer_base(lt: crate::media::LowerThird, probe: MediaProbe, preset: Preset, aspect: Option<Ratio>) -> Seq<char> {
    "movie="@ + lt.path@ + still_text(lt) + overlay_scale(probe, preset, aspect)
}

/// The overlay text so far, the label of the current base layer, and the
/// number of overlays applied.
pub type OverlayState = (Seq<char>, Seq<char>, nat);

/// Overlays the source `base` at each of the first `n` positions.
pub open spec fn overlay_fold(acc: OverlayState, base: Seq<char>, pos: Seq<Seq<char>>, n: int) -> OverlayState
    decreases n,
{
    if n <= 0 || n > pos.len() {
        acc
    } else {
        let a = overlay_fold(acc, base, pos, n - 1);
        let idx = nat_text(a.2);
        let layer = (if n - 1 > 0 { seq![';'] } else { Seq::empty() }) + base + ",setpts=PTS+"@
            + secs_text(time_ms(pos[n - 1]) as int) + "/TB[layer_"@ + idx + "];"@;
        (
            a.0 + layer + a.1 + "[layer_"@ + idx + "]overlay=repeatlast=0[base_"@ + idx + seq![']'],
            "[base_"@ + idx + seq![']'],
            a.2 + 1,
        )
    }
}


/// Applies the first `n` overlays, in template order.
pub open spec fn thirds_fold(
    acc: OverlayState,
    lts: Seq<crate::media::LowerThird>,
    probe: MediaProbe,
    preset: Preset,
    aspect: Option<Ratio>,
    n: int,
) -> OverlayState
    decreases n,
{
    if n <= 0 || n > lts.len() {
        acc
    } else {
        let a = thirds_fold(acc, lts, probe, preset, aspect, n - 1);
        let lt = lts[n - 1];
        overlay_fold((a.0.push(';'), a.1, a.2), layer_base(lt, probe, preset, aspect), crate::filter::texts(lt.position@), lt.position@.len() as int)
    }
}

/// The overlay graph of a template's lower thirds over the layer
/// `selector`, and the label of the resulting layer.
pub open spec fn lower_third_spec(
    lts: Seq<crate::media::LowerThird>,
    probe: MediaProbe,
    preset: Preset,
    aspect: Option<Ratio>,
    selector: Seq<char>,
) -> (Seq<char>, Seq<char>) {
    let r = thirds_fold((Seq::empty(), selector, 0), lts, probe, preset, aspect, lts.len() as int);
    (r.0, r.1)
}

fn still_exec(lt: &crate::media::LowerThird) -> (r: String)
    ensures
        r@ == still_text(*lt),
{
    let mut r = String::new();
    if lt.duration_ms > 0 && is_image(lt.path.as_str()) {
        r.append(":loop=0,setpts=N/(FRAME_RATE*TB),trim=duration=");
        push_secs(&mut r, lt.duration_ms as i128);
        r.append(",fade=in:d=0.5:alpha=1,fade=out:st=");
        push_secs(&mut r, lt.duration_ms as i128 - 500);
        r.append(":d=0.5:alpha=1");
        assert(r@ =~= still_text(*lt));
    }
    r
}

fn dar_exec(aspect: Option<Ratio>) -> (r: String)
    requires
        aspect matches Some(a) ==> a.wf(),
    ensures
        r@ == dar_text(aspect),
{
    let mut dar = String::new();
    match aspect {
        Some(a) => {
            dar.append(",setdar=dar=");
            push_fixed3(&mut dar, a);
        },
        None => {},
    }
    dar
}

fn overlay_scale_exec(probe: &MediaProbe, preset: &Preset, aspect: Option<Ratio>) -> (r: String)
    requires
        aspect matches Some(a) ==> a.wf(),
    ensures
        r@ == overlay_scale(*probe, *preset, aspect),
{
    let mut r = String::new();
    match find_option(&preset.filter_video, "scale") {
        Some(i) => match &preset.filter_video[i].1 {
            OptionValue::Text(s) => {
                r.append(",scale=");
                r.append(s.as_str());
                r.append(dar_exec(aspect).as_str());
            },
            OptionValue::Other(_) => {},
        },
        None => match probe.first_size() {
            Some((w, h)) => {
                r.append(",scale=");
                push_int(&mut r, w);
                push_char(&mut r, ':');
                push_int(&mut r, h);
                r.append(dar_exec(aspect).as_str());
            },
            None => {},
        },
    }
    assert(r@ =~= overlay_scale(*probe, *preset, aspect));
    r
}

fn layer_base_exec(lt: &crate::media::LowerThird, probe: &MediaProbe, preset: &Preset, aspect: Option<Ratio>) -> (r: String)
    requires
        aspect matches Some(a) ==> a.wf(),
    ensures
        r@ == layer_base(*lt, *probe, *preset, aspect),
{
    let mut r = String::from_str("movie=");
    r.append(lt.path.as_str());
    r.append(still_exec(lt).as_str());
    r.append(overlay_scale_exec(probe, preset, aspect).as_str());
    r
}

/// Builds the overlay graph of `lower_thirds` over the layer `selector`:
/// each overlay is laid over the previous result at each of its positions.
/// Returns the graph text and the label of the final layer.
pub fn lower_third(
    lower_thirds: &Vec<crate::media::LowerThird>,
    task_probe: &MediaProbe,
    preset: &Preset,
    aspect: Option<Ratio>,
    selector: &str,
) -> (r: (String, String))
    requires
        aspect matches Some(a) ==> a.wf(),
    ensures
        (r.0@, r.1@) == lower_third_spec(lower_thirds@, *task_probe, *preset, aspect, selector@),
{
    let mut filter = String::new();
    let mut base_layer = String::from_str(selector);
    let mut index: u128 = 0;
    let mut t: usize = 0;
    let ghost lts = lower_thirds@;
    while t < lower_thirds.len()
        invariant
            t <= lts.len(),
            lts == lower_thirds@,
            aspect matches Some(a) ==> a.wf(),
            (filter@, base_layer@, index as nat) == thirds_fold((Seq::empty(), selector@, 0), lts, *task_probe, *preset, aspect, t as int),
            index <= t * 0x1_0000_0000_0000_0000,
            t <= usize::MAX,
        decreases lts.len() - t,
    {
        let lt = &lower_thirds[t];
        let base = layer_base_exec(lt, task_probe, preset, aspect);
        push_char(&mut filter, ';');
        let ghost start: OverlayState = (filter@, base_layer@, index as nat);
        let ghost pos = crate::filter::texts(lt.position@);
        let ghost index0 = index;
        let mut i: usize = 0;
        while i < lt.position.len()
            invariant
                i <= lt.position@.len(),
                pos == crate::filter::texts(lt.position@),
                (filter@, base_layer@, index as nat) == overlay_fold(start, base@, pos, i as int),
                index == index0 + i,
                index0 <= t * 0x1_0000_0000_0000_0000,
                t < lts.len(),
                lts.len() <= usize::MAX,
            decreases lt.position@.len() - i,
        {
            let ms = time_to_millis(lt.position[i].as_str());
            let mut label = String::new();
            push_nat_wide(&mut label, index);
            let mut layer = String::new();
            if i > 0 {
                push_char(&mut layer, ';');
            }
            layer.append(base.as_str());
            layer.append(",setpts=PTS+");
            push_secs(&mut layer, ms as i128);
            layer.append("/TB[layer_");
            layer.append(label.as_str());
            layer.append("];");
            filter.append(layer.as_str());
            filter.append(base_layer.as_str());
            filter.append("[layer_");
            filter.append(label.as_str());
            filter.append("]overlay=repeatlast=0[base_");
            filter.append(label.as_str());
            push_char(&mut filter, ']');
            let mut next = String::from_str("[base_");
            next.append(label.as_str());
            push_char(&mut next, ']');
            base_layer = next;
            assert(index < 0xffff_ffff_ffff_ffff_ffff_ffff_ffff_ffff) by (nonlinear_arith)
                requires
                    index == index0 + i,
                    index0 <= t * 0x1_0000_0000_0000_0000,
                    t < lts.len(),
                    lts.len() <= usize::MAX,
                    i < usize::MAX,
                    usize::MAX <= 0xffff_ffff_ffff_ffff;
            index = index + 1;
            i = i + 1;
            assert((filter@, base_layer@, index as nat) =~= overlay_fold(start, base@, pos, i as int));
        }
        assert(index <= (t + 1) * 0x1_0000_0000_0000_0000) by (nonlinear_arith)
            requires
                index == index0 + i,
                index0 <= t * 0x1_0000_0000_0000_0000,
                i <= usize::MAX,
                usize::MAX <= 0xffff_ffff_ffff_ffff;
        t = t + 1;
    }
    (filter, base_layer)
}


// ---------------------------------------------------------------- intro and outro

/// An intro or outro clip: its file, ready to be named in a filter, and
/// what probing it found, when probing succeeded.
#[derive(Clone, Debug, PartialEq, Eq)]
pub struct Asset {
    pub path: String,
    pub probe: Option<MediaProbe>,
}

/// How long the silent track of a clip without audio lasts: its video's
/// duration, else the configured one.
pub open spec fn silence_ms(p: MediaProbe, dur: u64) -> u64 {
    if p.video@.len() > 0 && p.video@[0].duration_ms is Some && p.video@[0].duration_ms->Some_0 > 0 {
        p.video@[0].duration_ms->Some_0
    } else {
        dur
    }
}

/// The looping and fading of a clip with a configured duration.
pub open spec fn timed_text(dur: u64) -> Seq<char> {
    if dur > 0 {
        ":loop=0,setpts=N/(FRAME_RATE*TB),trim=duration="@ + secs_text(dur as int) + ",fade=in:d=0.5,fade=out:st="@
            + secs_text(dur - 500) + ":d=0.5"@
    } else {
        Seq::empty()
    }
}

/// The stream labels of a probed clip, with silent audio when it has none.
pub open spec fn streams_text(probe: Option<MediaProbe>, dur: u64, v_label: Seq<char>, a_label: Seq<char>) -> Seq<char> {
    match probe {
        Some(p) => if p.audio_streams == 0 {
            v_label + ";aevalsrc=0:channel_layout=stereo:duration="@ + secs_text(silence_ms(p, dur) as int)
                + ":sample_rate=48000"@ + a_label
        } else {
            ":s=dv+da"@ + v_label + a_label
        },
        None => Seq::empty(),
    }
}

/// The source of a clip: looped and faded when a duration is configured,
/// given silent audio when it has none, with video and audio labels.
pub open spec fn asset_text(a: Asset, dur: u64, v_label: Seq<char>, a_label: Seq<char>) -> Seq<char> {
    "movie="@ + a.path@ + timed_text(dur) + streams_text(a.probe, dur, v_label, a_label)
}

/// Square pixels, when the target size matches its aspect.
pub open spec fn sar_text(target: Option<TargetSpec>) -> Seq<char> {
    match target {
        Some(t) => if size_matches_aspect(t) { ",setsar=sar=1/1"@ } else { Seq::empty() },
        None => Seq::empty(),
    }
}

/// The padding of a clip to the target aspect, followed by `,`.
pub open spec fn pad_prefix(p: MediaProbe, target: Option<TargetSpec>) -> Seq<char> {
    match target {
        Some(t) => if pad_text(p, t).len() > 0 { pad_text(p, t).push(',') } else { Seq::empty() },
        None => Seq::empty(),
    }
}

/// The filter that conforms intro and outro to the main content's size,
/// from the first clip that could be probed.
pub open spec fn clip_scale(task_probe: MediaProbe, preset: Preset, target: Option<TargetSpec>, prob: Option<MediaProbe>) -> Seq<char> {
    match option_get(preset.filter_video@, "scale"@) {
        Some(OptionValue::Text(s)) => match prob {
            Some(pr) => pad_prefix(pr, target) + "scale="@ + s@ + sar_text(target),
            None => "null"@,
        },
        Some(OptionValue::Other(_)) => "null"@,
        None => match (first_size(task_probe), prob) {
            (Some((w, h)), Some(pr)) => pad_prefix(pr, target) + "scale="@ + int_text(w as int) + seq![':']
                + int_text(h as int) + sar_text(target),
            _ => "null"@,
        },
    }
}

/// The probe the clips are conformed by: the intro's, else the outro's.
pub open spec fn clip_probe(intro: Option<Asset>, outro: Option<Asset>) -> Option<MediaProbe> {
    let ip = match intro {
        Some(a) => a.probe,
        None => None,
    };
    let op = match outro {
        Some(a) => a.probe,
        None => None,
    };
    if ip is Some { ip } else { op }
}

/// The intro and outro graphs, each ending in its `_vout` label (empty
/// when the template has no such clip).
pub open spec fn intro_outro_spec(
    intro: Option<Asset>,
    outro: Option<Asset>,
    intro_ms: u64,
    outro_ms: u64,
    task_probe: MediaProbe,
    preset: Preset,
    target: Option<TargetSpec>,
) -> (Seq<char>, Seq<char>) {
    let sf = clip_scale(task_probe, preset, target, clip_probe(intro, outro));
    let i = match intro {
        Some(a) => asset_text(a, intro_ms, "[intro_v]"@, "[intro_aout]"@) + ";[intro_v]"@ + sf + "[intro_vout]"@,
        None => Seq::empty(),
    };
    let o = match outro {
        Some(a) => asset_text(a, outro_ms, "[outro_v]"@, "[outro_aout]"@) + ";[outro_v]"@ + sf + "[outro_vout]"@,
        None => Seq::empty(),
    };
    (i, o)
}

fn timed_exec(dur: u64) -> (r: String)
    ensures
        r@ == timed_text(dur),
{
    let mut r = String::new();
    if dur > 0 {
        r.append(":loop=0,setpts=N/(FRAME_RATE*TB),trim=duration=");
        push_secs(&mut r, dur as i128);
        r.append(",fade=in:d=0.5,fade=out:st=");
        push_secs(&mut r, dur as i128 - 500);
        r.append(":d=0.5");
        assert(r@ =~= timed_text(dur));
    }
    r
}

fn streams_exec(probe: &Option<MediaProbe>, dur: u64, v_label: &str, a_label: &str) -> (r: String)
    ensures
        r@ == streams_text(*probe, dur, v_label@, a_label@),
{
    let mut r = String::new();
    match probe {
        Some(p) => {
            if p.audio_streams == 0 {
                let silence: u64 = if p.video.len() > 0 {
                    match p.video[0].duration_ms {
                        Some(d) => if d > 0 { d } else { dur },
                        None => dur,
                    }
                } else {
                    dur
                };
                r.append(v_label);
                r.append(";aevalsrc=0:channel_layout=stereo:duration=");
                push_secs(&mut r, silence as i128);
                r.append(":sample_rate=48000");
                r.append(a_label);
            } else {
                r.append(":s=dv+da");
                r.append(v_label);
                r.append(a_label);
            }
        },
        None => {},
    }
    assert(r@ =~= streams_text(*probe, dur, v_label@, a_label@));
    r
}

fn asset_exec(a: &Asset, dur: u64, v_label: &str, a_label: &str) -> (r: String)
    ensures
        r@ == asset_text(*a, dur, v_label@, a_label@),
{
    let mut r = String::from_str("movie=");
    r.append(a.path.as_str());
    r.append(timed_exec(dur).as_str());
    r.append(streams_exec(&a.probe, dur, v_label, a_label).as_str());
    r
}

fn pad_prefix_exec(p: &MediaProbe, target: Option<TargetSpec>) -> (r: String)
    requires
        target matches Some(t) ==> t.aspect.wf(),
    ensures
        r@ == pad_prefix(*p, target),
{
    match target {
        Some(t) => {
            let mut pad_f = pad(p, &t);
            if pad_f.as_str().unicode_len() > 0 {
                push_char(&mut pad_f, ',');
            }
            pad_f
        },
        None => String::new(),
    }
}

fn sar_exec(target: Option<TargetSpec>) -> (r: String)
    requires
        target matches Some(t) ==> t.aspect.wf(),
    ensures
        r@ == sar_text(target),
{
    match target {
        Some(t) => if size_matches_exec(&t) { String::from_str(",setsar=sar=1/1") } else { String::new() },
        None => String::new(),
    }
}

/// Builds the intro and outro graphs: each clip's source (with silent
/// audio when it has none), then its video conformed to the main content.
pub fn intro_outro(
    intro: &Option<Asset>,
    outro: &Option<Asset>,
    intro_duration_ms: u64,
    outro_duration_ms: u64,
    task_probe: &MediaProbe,
    preset: &Preset,
    target_spec: Option<TargetSpec>,
) -> (r: (String, String))
    requires
        target_spec matches Some(t) ==> t.aspect.wf(),
    ensures
        (r.0@, r.1@) == intro_outro_spec(*intro, *outro, intro_duration_ms, outro_duration_ms, *task_probe, *preset, target_spec),
{
    let prob: Option<&MediaProbe> = match intro {
        Some(a) => match &a.probe {
            Some(p) => Some(p),
            None => match outro {
                Some(b) => match &b.probe {
                    Some(q) => Some(q),
                    None => None,
                },
                None => None,
            },
        },
        None => match outro {
            Some(b) => match &b.probe {
                Some(q) => Some(q),
                None => None,
            },
            None => None,
        },
    };
    assert(match prob { Some(p) => clip_probe(*intro, *outro) == Some(*p), None => clip_probe(*intro, *outro) is None });
    let mut sf = String::from_str("null");
    match find_option(&preset.filter_video, "scale") {
        Some(k) => match &preset.filter_video[k].1 {
            OptionValue::Text(s) => match prob {
                Some(pr) => {
                    let mut t = pad_prefix_exec(pr, target_spec);
                    t.append("scale=");
                    t.append(s.as_str());
                    t.append(sar_exec(target_spec).as_str());
                    sf = t;
                },
                None => {},
            },
            OptionValue::Other(_) => {},
        },
        None => match (task_probe.first_size(), prob) {
            (Some((w, h)), Some(pr)) => {
                let mut t = pad_prefix_exec(pr, target_spec);
                t.append("scale=");
                push_int(&mut t, w);
                push_char(&mut t, ':');
                push_int(&mut t, h);
                t.append(sar_exec(target_spec).as_str());
                sf = t;
            },
            _ => {},
        },
    }
    assert(sf@ =~= clip_scale(*task_probe, *preset, target_spec, clip_probe(*intro, *outro)));
    let i = match intro {
        Some(a) => {
            let mut t = asset_exec(a, intro_duration_ms, "[intro_v]", "[intro_aout]");
            t.append(";[intro_v]");
            t.append(sf.as_str());
            t.append("[intro_vout]");
            t
        },
        None => String::new(),
    };
    let o = match outro {
        Some(a) => {
            let mut t = asset_exec(a, outro_duration_ms, "[outro_v]", "[outro_aout]");
            t.append(";[outro_v]");
            t.append(sf.as_str());
            t.append("[outro_vout]");
            t
        },
        None => String::new(),
    };
    (i, o)
}

// ---------------------------------------------------------------- the whole graph

/// A builder with nothing added yet.
pub open spec fn empty_graph() -> GraphView {
    GraphView {
        audio_chain: Seq::empty(),
        video_chain: Seq::empty(),
        output: Seq::empty(),
        audio_map: Seq::empty(),
        video_map: Seq::empty(),
        audio_tracks: 1,
        audio_position: -1,
        video_position: -1,
        audio_last: -1,
        video_last: -1,
    }
}

/// The audio filters of an encode: the preset's, loudness correction when
/// the task asks for it, and fades; none when audio is copied.
pub open spec fn audio_part(g: GraphView, task: Task, preset: Preset, loudnorm: Seq<char>, has_audio: bool, audio_pos: int) -> GraphView {
    if has_audio && !copies_stream(preset.audio@, FilterType::Audio) {
        let g1 = GraphView { audio_position: audio_pos, ..g };
        let fa = map_filter_text(preset.filter_audio@, None);
        let g2 = if fa.len() > 0 { g1.added(fa, 0, FilterType::Audio) } else { g1 };
        let g3 = if task.lufs { g2.added(loudnorm, 0, FilterType::Audio) } else { g2 };
        faded(g3, task, FilterType::Audio)
    } else {
        g
    }
}

/// The template's part of the graph: overlays on the main video, then the
/// main content joined with the intro and outro by a concat node.
pub open spec fn template_part(
    g: GraphView,
    tp: crate::media::Template,
    task: Task,
    preset: Preset,
    target: Option<TargetSpec>,
    fv: Seq<char>,
    intro: Option<Asset>,
    outro: Option<Asset>,
) -> GraphView {
    let aspect = match target {
        Some(t) => Some(t.aspect),
        None => None,
    };
    let lt = lower_third_spec(tp.lower_thirds@, task.probe, preset, aspect, "[main_v]"@);
    let io = intro_outro_spec(intro, outro, tp.intro_duration_ms, tp.outro_duration_ms, task.probe, preset, target);
    let f = lt.0;
    let i = io.0;
    let o = io.1;
    let g1 = if f.len() > 0 {
        g.added("[main_v]"@, 0, FilterType::Video).added(f, 0, FilterType::Video)
    } else if fv.len() == 0 {
        g.added("null[main_vout]"@, 0, FilterType::Video)
    } else {
        g.added("[main_vout]"@, 0, FilterType::Video)
    };
    let sel = if f.len() > 0 { lt.1 } else { "[main_vout]"@ };
    let copied = copies_stream(preset.audio@, FilterType::Audio);
    let g2 = if copied {
        g1
    } else if g1.audio_chain.len() == 0 {
        g1.added("anull[main_aout]"@, 0, FilterType::Audio)
    } else {
        g1.added("[main_aout]"@, 0, FilterType::Audio)
    };
    let g3 = if i.len() > 0 { g2.added(seq![';'] + i, 0, FilterType::Video) } else { g2 };
    let g4 = if o.len() > 0 { g3.added(seq![';'] + o, 0, FilterType::Video) } else { g3 };
    let count: nat = 1 + (if i.len() > 0 { 1nat } else { 0nat }) + (if o.len() > 0 { 1nat } else { 0nat });
    g4.added(seq![';'] + concat_selectors(i.len() > 0, sel, o.len() > 0, copied) + "concat=n="@
        + crate::text::nat_text(count) + concat_outputs(copied), 0, FilterType::Video)
}

/// The inputs of the concat node: intro, main content and outro, each with
/// its audio pad unless the audio is copied.
pub open spec fn concat_selectors(intro: bool, main: Seq<char>, outro: bool, copied: bool) -> Seq<char> {
    if copied {
        (if intro { "[intro_vout]"@ } else { Seq::empty() }) + main + (if outro { "[outro_vout]"@ } else { Seq::empty() })
    } else {
        (if intro { "[intro_vout][intro_aout]"@ } else { Seq::empty() }) + main + "[main_aout]"@
            + (if outro { "[outro_vout][outro_aout]"@ } else { Seq::empty() })
    }
}

/// The stream counts and outputs of the concat node.
pub open spec fn concat_outputs(copied: bool) -> Seq<char> {
    if copied { ":v=1:a=0[vout0]"@ } else { ":v=1:a=1[vout0][aout0]"@ }
}

/// The video filters of an encode: aspect padding, the preset's filters
/// (`null` when it has none), fades, and the template; none when video is
/// copied.
pub open spec fn video_part(g: GraphView, task: Task, preset: Preset, has_video: bool, intro: Option<Asset>, outro: Option<Asset>) -> GraphView {
    if has_video && !copies_stream(preset.video@, FilterType::Video) {
        let g1 = GraphView { video_position: 0, ..g };
        let target = target_of(task.probe, preset);
        let pad_f = match target {
            Some(t) => pad_text(task.probe, t),
            None => Seq::empty(),
        };
        let g2 = if pad_f.len() > 0 { g1.added(pad_f, 0, FilterType::Video) } else { g1 };
        let fv = map_filter_text(preset.filter_video@, target);
        let g3 = if fv.len() == 0 { g2.added("null"@, 0, FilterType::Video) } else { g2.added(fv, 0, FilterType::Video) };
        let g4 = faded(g3, task, FilterType::Video);
        match task.template {
            Some(tp) => template_part(g4, tp, task, preset, target, fv, intro, outro),
            None => g4,
        }
    } else {
        g
    }
}

/// The graph of one encode.
pub open spec fn filter_chain_spec(
    task: Task,
    preset: Preset,
    loudnorm: Seq<char>,
    has_audio: bool,
    has_video: bool,
    audio_pos: int,
    intro: Option<Asset>,
    outro: Option<Asset>,
) -> GraphView {
    video_part(audio_part(empty_graph(), task, preset, loudnorm, has_audio, audio_pos), task, preset, has_video, intro, outro)
}

fn add_text(chain: &mut Filters, prefix: char, text: &str, t: FilterType)
    ensures
        final(chain)@ == old(chain)@.added(seq![prefix] + text@, 0, t),
{
    let mut s = String::new();
    push_char(&mut s, prefix);
    s.append(text);
    chain.add_filter(s.as_str(), 0, t);
}

/// A preset that copies the video stream gets no video filters, and its
/// video is then mapped straight from the first input (`-map 0:v`). One
/// that copies the audio stream gets no audio filters either, with or
/// without a template.
pub proof fn lemma_copy_means_no_filters(
    f: Filters,
    task: Task,
    preset: Preset,
    loudnorm: Seq<char>,
    has_audio: bool,
    has_video: bool,
    audio_pos: int,
    intro: Option<Asset>,
    outro: Option<Asset>,
)
    requires
        f@ == filter_chain_spec(task, preset, loudnorm, has_audio, has_video, audio_pos, intro, outro),
    ensures
        copies_stream(preset.video@, FilterType::Video) ==> f.video_chain@.len() == 0 && f.video_map@.len() == 0
            && crate::filter::video_map_args(f) == seq!["-map"@, "0:v"@],
        copies_stream(preset.audio@, FilterType::Audio) ==> f.audio_chain@.len() == 0 && f.audio_map@.len() == 0,
{
    let g0 = audio_part(empty_graph(), task, preset, loudnorm, has_audio, audio_pos);
    if copies_stream(preset.video@, FilterType::Video) {
        assert(f@ == g0);
        assert(g0.video_map.len() == 0);
        assert(crate::filter::texts(f.video_map@).len() == f.video_map@.len());
    }
    if copies_stream(preset.audio@, FilterType::Audio) {
        assert(g0 == empty_graph());
        if !has_video || copies_stream(preset.video@, FilterType::Video) {
            assert(f@ == g0);
        } else {
            assert(f@.audio_chain == g0.audio_chain && f@.audio_map == g0.audio_map);
        }
        assert(f@.audio_map.len() == f.audio_map@.len());
    }
}

fn audio_filters(chain: &mut Filters, task: &Task, preset: &Preset, loudnorm: &str, has_audio: bool, audio_pos: i32)
    ensures
        final(chain)@ == audio_part(old(chain)@, *task, *preset, loudnorm@, has_audio, audio_pos as int),
{
    if has_audio && !has_codec_copy(&preset.audio, FilterType::Audio) {
        chain.audio_position = audio_pos;
        let filter_audio = map_filter(&preset.filter_audio, None);
        if filter_audio.as_str().unicode_len() > 0 {
            chain.add_filter(filter_audio.as_str(), 0, FilterType::Audio);
        }
        if task.lufs {
            chain.add_filter(loudnorm, 0, FilterType::Audio);
        }
        fade(task, chain, FilterType::Audio);
    }
}

fn template_filters(
    chain: &mut Filters,
    template: &crate::media::Template,
    task: &Task,
    preset: &Preset,
    target_spec: Option<TargetSpec>,
    fv_empty: bool,
    intro: &Option<Asset>,
    outro: &Option<Asset>,
    fv: Ghost<Seq<char>>,
)
    requires
        target_spec matches Some(t) ==> t.aspect.wf(),
        fv_empty == (fv@.len() == 0),
    ensures
        final(chain)@ == template_part(old(chain)@, *template, *task, *preset, target_spec, fv@, *intro, *outro),
{
    let aspect = match target_spec {
        Some(t) => Some(t.aspect),
        None => None,
    };
    let (f, lt_selector) = lower_third(&template.lower_thirds, &task.probe, preset, aspect, "[main_v]");
    let (i, o) = intro_outro(intro, outro, template.intro_duration_ms, template.outro_duration_ms, &task.probe, preset, target_spec);
    let main_selector: String;
    if f.as_str().unicode_len() > 0 {
        chain.add_filter("[main_v]", 0, FilterType::Video);
        chain.add_filter(f.as_str(), 0, FilterType::Video);
        main_selector = lt_selector;
    } else if fv_empty {
        chain.add_filter("null[main_vout]", 0, FilterType::Video);
        main_selector = String::from_str("[main_vout]");
    } else {
        chain.add_filter("[main_vout]", 0, FilterType::Video);
        main_selector = String::from_str("[main_vout]");
    }
    let copied = has_codec_copy(&preset.audio, FilterType::Audio);
    if !copied {
        if chain.audio_chain.as_str().unicode_len() == 0 {
            chain.add_filter("anull[main_aout]", 0, FilterType::Audio);
        } else {
            chain.add_filter("[main_aout]", 0, FilterType::Audio);
        }
    }
    let has_i = i.as_str().unicode_len() > 0;
    let has_o = o.as_str().unicode_len() > 0;
    let mut c_count: u64 = 1;
    let mut selectors = String::new();
    if has_i {
        c_count = c_count + 1;
        if copied {
            selectors.append("[intro_vout]");
        } else {
            selectors.append("[intro_vout][intro_aout]");
        }
        add_text(chain, ';', i.as_str(), FilterType::Video);
    }
    selectors.append(main_selector.as_str());
    if !copied {
        selectors.append("[main_aout]");
    }
    if has_o {
        c_count = c_count + 1;
        if copied {
            selectors.append("[outro_vout]");
        } else {
            selectors.append("[outro_vout][outro_aout]");
        }
        add_text(chain, ';', o.as_str(), FilterType::Video);
    }
    assert(selectors@ =~= concat_selectors(has_i, main_selector@, has_o, copied));
    let mut concat = String::new();
    push_char(&mut concat, ';');
    concat.append(selectors.as_str());
    concat.append("concat=n=");
    crate::text::push_nat(&mut concat, c_count);
    if copied {
        concat.append(":v=1:a=0[vout0]");
    } else {
        concat.append(":v=1:a=1[vout0][aout0]");
    }
    assert(concat@ =~= seq![';'] + concat_selectors(has_i, main_selector@, has_o, copied) + "concat=n="@
        + crate::text::nat_text(c_count as nat) + concat_outputs(copied));
    chain.add_filter(concat.as_str(), 0, FilterType::Video);
}

fn video_filters(chain: &mut Filters, task: &Task, preset: &Preset, has_video: bool, intro: &Option<Asset>, outro: &Option<Asset>)
    ensures
        final(chain)@ == video_part(old(chain)@, *task, *preset, has_video, *intro, *outro),
{
    if has_video && !has_codec_copy(&preset.video, FilterType::Video) {
        chain.video_position = 0;
        let target_spec = TargetSpec::new(&task.probe, preset);
        let pad_f = match target_spec {
            Some(t) => pad(&task.probe, &t),
            None => String::new(),
        };
        if pad_f.as_str().unicode_len() > 0 {
            chain.add_filter(pad_f.as_str(), 0, FilterType::Video);
        }
        let filter_video = map_filter(&preset.filter_video, target_spec);
        let fv_empty = filter_video.as_str().unicode_len() == 0;
        if fv_empty {
            chain.add_filter("null", 0, FilterType::Video);
        } else {
            chain.add_filter(filter_video.as_str(), 0, FilterType::Video);
        }
        fade(task, chain, FilterType::Video);
        match &task.template {
            Some(template) => {
                template_filters(chain, template, task, preset, target_spec, fv_empty, intro, outro, Ghost(filter_video@));
            },
            None => {},
        }
    }
}

/// Builds the filter graph of one encode of `task` with `preset`.
/// `loudnorm` is the loudness correction filter, used when the task asks
/// for it; `intro` and `outro` are the template's clips.
pub fn filter_chain(
    task: &Task,
    preset: &Preset,
    loudnorm: &str,
    has_audio: bool,
    has_video: bool,
    audio_pos: i32,
    intro: &Option<Asset>,
    outro: &Option<Asset>,
) -> (r: Filters)
    ensures
        r@ == filter_chain_spec(*task, *preset, loudnorm@, has_audio, has_video, audio_pos as int, *intro, *outro),
{
    let mut chain = Filters::new();
    assert(chain@.output =~= Seq::<Seq<char>>::empty());
    assert(chain@.audio_map =~= Seq::<Seq<char>>::empty());
    assert(chain@.video_map =~= Seq::<Seq<char>>::empty());
    assert(chain@.audio_chain =~= Seq::<char>::empty());
    assert(chain@.video_chain =~= Seq::<char>::empty());
    assert(chain@ == empty_graph());
    audio_filters(&mut chain, task, preset, loudnorm, has_audio, audio_pos);
    video_filters(&mut chain, task, preset, has_video, intro, outro);
    chain
}
} // verus!
