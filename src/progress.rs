//! The encoder's progress and loudness reports. Progress arrives as
//! `key=value` lines, a snapshot ending with a `progress=...` line; the
//! loudness measurement ends with a JSON object printed between a lone `{`
//! line and a lone `}` line. Measurements are kept in integer units:
//! thousandths for rates and microseconds for time.
use vstd::prelude::*;
use crate::concat::chars_of;
use crate::subtitle::{all_digits, digits_num, digits_value, field_value, parse_digits, parse_field};
use crate::text::{has_prefix, push_char, starts_with, trim, trimmed};

verus! {

// ---------------------------------------------------------------- numbers

/// Length of a leading sign.
pub open spec fn sign_len(s: Seq<char>) -> int {
    if s.len() > 0 && (s[0] == '-' || s[0] == '+') { 1 } else { 0 }
}

/// Whether the text starts with `-`.
pub open spec fn is_negative(s: Seq<char>) -> bool {
    s.len() > 0 && s[0] == '-'
}

/// Index of the first `.` at or after `i`, or `-1`.
pub open spec fn dot_from(s: Seq<char>, i: int) -> int
    decreases s.len() - i,
{
    if i < 0 || i >= s.len() { -1 } else if s[i] == '.' { i } else { dot_from(s, i + 1) }
}

/// The first three fraction digits as thousandths.
pub open spec fn frac_milli(f: Seq<char>) -> nat {
    if f.len() == 0 {
        0
    } else if f.len() == 1 {
        digits_value(f) * 100
    } else if f.len() == 2 {
        digits_value(f) * 10
    } else {
        digits_value(f.subrange(0, 3))
    }
}

/// The integer digits of a decimal number.
pub open spec fn int_part(s: Seq<char>) -> Seq<char> {
    let b = sign_len(s);
    let d = dot_from(s, b);
    if d < 0 { s.subrange(b, s.len() as int) } else { s.subrange(b, d) }
}

/// The fraction digits of a decimal number.
pub open spec fn frac_part(s: Seq<char>) -> Seq<char> {
    let d = dot_from(s, sign_len(s));
    if d < 0 { Seq::<char>::empty() } else { s.subrange(d + 1, s.len() as int) }
}

/// A number in thousandths from its digits and sign.
pub open spec fn milli_of_parts(ip: Seq<char>, fp: Seq<char>, negative: bool) -> Option<int> {
    match digits_num(ip) {
        Some(iv) => {
            let v = iv * 1000 + frac_milli(fp);
            if all_digits(fp) && ip.len() + fp.len() > 0 && v <= i64::MAX {
                Some(if negative { -v } else { v as int })
            } else {
                None
            }
        },
        None => None,
    }
}

/// A decimal number (`-12`, `29.97`, `.5`) in thousandths, fraction digits
/// past the third dropped; `None` when malformed or beyond 64 bits.
pub open spec fn decimal_milli(s: Seq<char>) -> Option<int> {
    milli_of_parts(int_part(s), frac_part(s), is_negative(s))
}

/// A signed integer (`-577000`, `5000000`); `None` when malformed or
/// beyond 64 bits.
pub open spec fn integer_value(s: Seq<char>) -> Option<int> {
    let body = s.subrange(sign_len(s), s.len() as int);
    match digits_num(body) {
        Some(v) => if body.len() > 0 && v <= i64::MAX { Some(if is_negative(s) { -v } else { v as int }) } else { None },
        None => None,
    }
}

pub proof fn lemma_dot_from(s: Seq<char>, i: int)
    requires
        0 <= i <= s.len(),
    ensures
        dot_from(s, i) == -1 || (i <= dot_from(s, i) < s.len()),
    decreases s.len() - i,
{
    if i < s.len() && s[i] != '.' {
        lemma_dot_from(s, i + 1);
    }
}

/// A run of at most three digits is below the next power of ten.
proof fn lemma_small_digits(s: Seq<char>)
    requires
        all_digits(s),
        s.len() <= 3,
    ensures
        digits_value(s) < if s.len() == 0 { 1int } else if s.len() == 1 { 10int } else if s.len() == 2 { 100int } else { 1000int },
    decreases s.len(),
{
    if s.len() > 0 {
        assert(all_digits(s.drop_last())) by {
            assert forall|k: int| 0 <= k < s.drop_last().len() implies crate::text::is_digit(#[trigger] s.drop_last()[k]) by {
                assert(s.drop_last()[k] == s[k]);
            }
        }
        lemma_small_digits(s.drop_last());
        assert(crate::text::is_digit(s[s.len() - 1]));
    }
}

/// Reads a decimal number in thousandths.
pub fn parse_decimal_milli(text: &str) -> (r: Option<i64>)
    ensures
        match r {
            Some(v) => decimal_milli(text@) == Some(v as int),
            None => decimal_milli(text@) is None,
        },
{
    let s = chars_of(text);
    let n = s.len();
    let b: usize = if n > 0 && (s[0] == '-' || s[0] == '+') { 1 } else { 0 };
    let neg = n > 0 && s[0] == '-';
    let mut d = b;
    while d < n && s[d] != '.'
        invariant
            b <= d <= n,
            n == s@.len(),
            dot_from(s@, b as int) == dot_from(s@, d as int),
        decreases n - d,
    {
        d = d + 1;
    }
    proof {
        lemma_dot_from(s@, b as int);
        if d == n {
            assert(dot_from(s@, d as int) == -1);
        }
    }
    assert(dot_from(s@, b as int) == if d < n { d as int } else { -1 });
    assert(sign_len(s@) == b as int);
    assert(is_negative(s@) == neg);
    let ghost ip = s@.subrange(b as int, d as int);
    assert(int_part(s@) =~= ip);
    let has_dot = d < n;
    let ip_end = d;
    let fp_start = if has_dot { d + 1 } else { n };
    let iv = match parse_digits(&s, b, ip_end) {
        Some(v) => v,
        None => {
            assert(digits_num(ip) is None);
            assert(decimal_milli(s@) is None);
            return None;
        },
    };
    // all fraction characters must be digits
    let mut k = fp_start;
    while k < n
        invariant
            fp_start <= k <= n,
            n == s@.len(),
            fp_start == (if has_dot { d + 1 } else { n as int }),
            has_dot == (d < n),
            d <= n,
            b <= d,
            sign_len(s@) == b as int,
            dot_from(s@, b as int) == (if d < n { d as int } else { -1 }),
            digits_num(int_part(s@)) == Some(iv as nat),
            text@ == s@,
            forall|j: int| fp_start <= j < k ==> crate::text::is_digit(#[trigger] s@[j]),
        decreases n - k,
    {
        if !('0' <= s[k] && s[k] <= '9') {
            assert(!all_digits(s@.subrange(fp_start as int, n as int))) by {
                assert(s@.subrange(fp_start as int, n as int)[k - fp_start] == s@[k as int]);
            }
            assert(has_dot);
            assert(frac_part(s@) =~= s@.subrange(fp_start as int, n as int));
            assert(decimal_milli(s@) is None);
            return None;
        }
        k = k + 1;
    }
    let ghost fp = s@.subrange(fp_start as int, n as int);
    assert(all_digits(fp));
    assert(frac_part(s@) =~= fp);
    let flen = n - fp_start;
    if ip_end - b + flen == 0 {
        return None;
    }
    let take = if flen < 3 { flen } else { 3 };
    proof {
        assert(s@.subrange(fp_start as int, fp_start + take) =~= (if flen < 3 { fp } else { fp.subrange(0, 3) }));
        assert(all_digits(s@.subrange(fp_start as int, fp_start + take)));
        lemma_small_digits(s@.subrange(fp_start as int, fp_start + take));
    }
    let fv = match parse_digits(&s, fp_start, fp_start + take) {
        Some(v) => v,
        None => {
            return None;
        },
    };
    let frac: u64 = if take == 0 { 0 } else if take == 1 { fv * 100 } else if take == 2 { fv * 10 } else { fv };
    if iv > (i64::MAX as u64 - frac) / 1000 {
        proof {
            assert(iv * 1000 + frac > i64::MAX) by (nonlinear_arith)
                requires
                    iv > (i64::MAX - frac) / 1000,
                    frac < 1000;
        }
        return None;
    }
    let v = (iv * 1000 + frac) as i64;
    proof {
        lemma_dot_from(s@, b as int);
    }
    Some(if neg { -v } else { v })
}

/// Reads a signed integer.
pub fn parse_integer(text: &str) -> (r: Option<i64>)
    ensures
        match r {
            Some(v) => integer_value(text@) == Some(v as int),
            None => integer_value(text@) is None,
        },
{
    let s = chars_of(text);
    let n = s.len();
    let b: usize = if n > 0 && (s[0] == '-' || s[0] == '+') { 1 } else { 0 };
    let neg = n > 0 && s[0] == '-';
    if b == n {
        return None;
    }
    match parse_digits(&s, b, n) {
        Some(v) => {
            if v > i64::MAX as u64 {
                None
            } else {
                Some(if neg { -(v as i64) } else { v as i64 })
            }
        },
        None => None,
    }
}

/// Reads an unsigned integer: an optional `+` and digits; `0` otherwise.
pub fn parse_unsigned(text: &str) -> (r: u64)
    ensures
        r as nat == field_value(text@),
{
    let s = chars_of(text);
    let n = s.len();
    assert(s@.subrange(0, n as int) =~= s@);
    parse_field(&s, 0, n)
}

// ---------------------------------------------------------------- snapshots

/// The views of a list of key/value pairs.
pub open spec fn pairs(v: Seq<(String, String)>) -> Seq<(Seq<char>, Seq<char>)> {
    v.map_values(|p: (String, String)| (p.0@, p.1@))
}

/// Index of the first entry with key `k` at or after `i`, or `-1`.
pub open spec fn index_of(m: Seq<(Seq<char>, Seq<char>)>, k: Seq<char>, i: int) -> int
    decreases m.len() - i,
{
    if i < 0 || i >= m.len() { -1 } else if m[i].0 == k { i } else { index_of(m, k, i + 1) }
}

/// The value stored under `k`.
pub open spec fn lookup(m: Seq<(Seq<char>, Seq<char>)>, k: Seq<char>) -> Option<Seq<char>> {
    let i = index_of(m, k, 0);
    if i < 0 { None } else { Some(m[i].1) }
}

/// `m` with `k` set to `v`: an existing entry keeps its place.
pub open spec fn insert_entry(m: Seq<(Seq<char>, Seq<char>)>, k: Seq<char>, v: Seq<char>) -> Seq<(Seq<char>, Seq<char>)> {
    let i = index_of(m, k, 0);
    if i < 0 { m.push((k, v)) } else { m.update(i, (k, v)) }
}

proof fn lemma_index_of(m: Seq<(Seq<char>, Seq<char>)>, k: Seq<char>, i: int)
    requires
        0 <= i <= m.len(),
    ensures
        index_of(m, k, i) == -1 || (i <= index_of(m, k, i) < m.len() && m[index_of(m, k, i)].0 == k),
    decreases m.len() - i,
{
    if i < m.len() && m[i].0 != k {
        lemma_index_of(m, k, i + 1);
    }
}

fn find_key(m: &Vec<(String, String)>, k: &str) -> (r: Option<usize>)
    ensures
        match r {
            Some(i) => index_of(pairs(m@), k@, 0) == i as int && i < m@.len(),
            None => index_of(pairs(m@), k@, 0) == -1,
        },
{
    let mut i: usize = 0;
    while i < m.len()
        invariant
            i <= m@.len(),
            index_of(pairs(m@), k@, 0) == index_of(pairs(m@), k@, i as int),
        decreases m@.len() - i,
    {
        let key = m[i].0.as_str();
        let same = key.unicode_len() == k.unicode_len() && crate::text::starts_with(key, k);
        proof {
            if same {
                assert(key@ =~= k@);
            }
        }
        assert(pairs(m@)[i as int].0 == m@[i as int].0@);
        if same {
            return Some(i);
        }
        proof {
            if key@ == k@ {
                assert(key@.subrange(0, k@.len() as int) =~= k@);
            }
            assert(index_of(pairs(m@), k@, i as int) == index_of(pairs(m@), k@, i + 1));
        }
        i = i + 1;
    }
    None
}

/// The value stored under `k`, or an empty text.
pub open spec fn text_or_empty(v: Option<Seq<char>>) -> Seq<char> {
    match v {
        Some(t) => t,
        None => Seq::empty(),
    }
}

fn lookup_text(m: &Vec<(String, String)>, k: &str) -> (r: String)
    ensures
        r@ == text_or_empty(lookup(pairs(m@), k@)),
{
    match find_key(m, k) {
        Some(i) => {
            assert(pairs(m@)[i as int].1 == m@[i as int].1@);
            String::from_str(m[i].1.as_str())
        },
        None => String::new(),
    }
}

/// Sets `k` to `v`.
pub fn insert_pair(m: &mut Vec<(String, String)>, k: String, v: String)
    ensures
        pairs(final(m)@) == insert_entry(pairs(old(m)@), k@, v@),
{
    match find_key(m, k.as_str()) {
        Some(i) => {
            let ghost kv = (k@, v@);
            m.set(i, (k, v));
            assert(pairs(m@) =~= pairs(old(m)@).update(i as int, kv));
        },
        None => {
            let ghost kv = (k@, v@);
            m.push((k, v));
            assert(pairs(m@) =~= pairs(old(m)@).push(kv));
        },
    }
}

// ---------------------------------------------------------------- progress

/// One progress report of a running encode.
#[derive(Clone, Debug, Default, PartialEq, Eq)]
pub struct FFmpegProgress {
    pub title: String,
    /// Frames per second, in thousandths.
    pub fps_milli: i64,
    pub bitrate: String,
    pub total_size: u64,
    /// Encoded time, in microseconds.
    pub elapsed_us: i64,
    /// Encoded share of the whole duration, in percent.
    pub elapsed_pct: i64,
    /// Encoding speed relative to real time, in thousandths.
    pub speed_milli: i64,
    pub progress: String,
}

/// A decimal in thousandths, `0` when missing or malformed.
pub open spec fn milli_or_zero(v: Option<Seq<char>>) -> int {
    match v {
        Some(t) => match decimal_milli(t) {
            Some(x) => x,
            None => 0,
        },
        None => 0,
    }
}

/// `t` without trailing `x` characters.
pub open spec fn strip_x(t: Seq<char>) -> Seq<char>
    decreases t.len(),
{
    if t.len() > 0 && t.last() == 'x' { strip_x(t.drop_last()) } else { t }
}

/// Percent of `duration_ms` that `us` microseconds are, rounded half away
/// from zero; with no duration, the extreme of the sign (or `0`).
pub open spec fn percent_of(us: int, duration_ms: nat) -> int {
    if duration_ms == 0 {
        if us > 0 { i64::MAX as int } else if us < 0 { i64::MIN as int } else { 0 }
    } else {
        let d: int = 10 * duration_ms as int;
        if us >= 0 { (2 * us + d) / (2 * d) } else { -((2 * (-us) + d) / (2 * d)) }
    }
}

/// `p` is the report that snapshot `m` gives for a run of `duration_ms`.
pub open spec fn describes(p: FFmpegProgress, m: Seq<(Seq<char>, Seq<char>)>, duration_ms: u64) -> bool {
    let us = match lookup(m, "out_time_ms"@) {
        Some(t) => match integer_value(t) {
            Some(x) => x,
            None => 0,
        },
        None => 0,
    };
    &&& p.title@ == text_or_empty(lookup(m, "title"@))
    &&& p.fps_milli == milli_or_zero(lookup(m, "fps"@))
    &&& p.bitrate@ == text_or_empty(lookup(m, "bitrate"@))
    &&& p.total_size == field_value(text_or_empty(lookup(m, "total_size"@)))
    &&& p.elapsed_us == us
    &&& p.elapsed_pct == percent_of(us, duration_ms as nat)
    &&& p.speed_milli == (match lookup(m, "speed"@) {
        Some(t) => milli_or_zero(Some(strip_x(t))),
        None => 0,
    })
    &&& p.progress@ == text_or_empty(lookup(m, "progress"@))
}

fn strip_x_exec(t: &str) -> (r: String)
    ensures
        r@ == strip_x(t@),
{
    let mut k = t.unicode_len();
    assert(t@.subrange(0, k as int) =~= t@);
    while k > 0 && t.get_char(k - 1) == 'x'
        invariant
            k <= t@.len(),
            strip_x(t@) == strip_x(t@.subrange(0, k as int)),
        decreases k,
    {
        assert(t@.subrange(0, k as int).drop_last() =~= t@.subrange(0, k - 1));
        k = k - 1;
    }
    crate::text::slice_text(t, 0, k)
}

fn milli_field(m: &Vec<(String, String)>, k: &str) -> (r: i64)
    ensures
        r == milli_or_zero(lookup(pairs(m@), k@)),
{
    match find_key(m, k) {
        Some(i) => {
            assert(pairs(m@)[i as int].1 == m@[i as int].1@);
            match parse_decimal_milli(m[i].1.as_str()) {
                Some(v) => v,
                None => 0,
            }
        },
        None => 0,
    }
}

fn percent_exec(us: i64, duration_ms: u64) -> (r: i64)
    ensures
        r == percent_of(us as int, duration_ms as nat),
{
    if duration_ms == 0 {
        if us > 0 { i64::MAX } else if us < 0 { i64::MIN } else { 0 }
    } else {
        let d: i128 = 10 * duration_ms as i128;
        let a: i128 = if us >= 0 { us as i128 } else { -(us as i128) };
        let q: i128 = (2 * a + d) / (2 * d);
        proof {
            vstd::arithmetic::div_mod::lemma_fundamental_div_mod(2 * a + d, 2 * d);
            vstd::arithmetic::div_mod::lemma_mod_bound(2 * a + d, 2 * d);
        }
        assert(q <= 0x4000_0000_0000_0000) by (nonlinear_arith)
            requires
                2 * a + d == (2 * d) * q + (2 * a + d) % (2 * d),
                (2 * a + d) % (2 * d) >= 0,
                d >= 10,
                a >= 0,
                a <= 0x8000_0000_0000_0000;
        if us >= 0 { q as i64 } else { -(q as i64) }
    }
}

impl FFmpegProgress {
    /// The report of a snapshot for a run of `duration_ms` milliseconds;
    /// missing or malformed values read as zero or empty.
    pub fn new(map: &Vec<(String, String)>, duration_ms: u64) -> (r: Self)
        ensures
            describes(r, pairs(map@), duration_ms),
    {
        let us: i64 = match find_key(map, "out_time_ms") {
            Some(i) => {
                assert(pairs(map@)[i as int].1 == map@[i as int].1@);
                match parse_integer(map[i].1.as_str()) {
                    Some(v) => v,
                    None => 0,
                }
            },
            None => 0,
        };
        let speed: i64 = match find_key(map, "speed") {
            Some(i) => {
                assert(pairs(map@)[i as int].1 == map@[i as int].1@);
                let t = strip_x_exec(map[i].1.as_str());
                match parse_decimal_milli(t.as_str()) {
                    Some(v) => v,
                    None => 0,
                }
            },
            None => 0,
        };
        let total = lookup_text(map, "total_size");
        FFmpegProgress {
            title: lookup_text(map, "title"),
            fps_milli: milli_field(map, "fps"),
            bitrate: lookup_text(map, "bitrate"),
            total_size: parse_unsigned(total.as_str()),
            elapsed_us: us,
            elapsed_pct: percent_exec(us, duration_ms),
            speed_milli: speed,
            progress: lookup_text(map, "progress"),
        }
    }
}

/// What a progress line calls for.
#[derive(Clone, Debug, PartialEq, Eq)]
pub enum LineOutcome {
    /// The snapshot is not complete yet.
    Nothing,
    /// A snapshot is complete: report it.
    Progress(FFmpegProgress),
    /// The last snapshot of the run: the encode is finished.
    Finished,
}

/// The key and value of a `key=value` line, split at the first `=`.
pub open spec fn key_value(line: Seq<char>) -> Option<(Seq<char>, Seq<char>)> {
    let i = crate::subtitle::first_char(line, '=', 0);
    if i < 0 { None } else { Some((line.subrange(0, i), line.subrange(i + 1, line.len() as int))) }
}

/// Collects the lines of the progress stream into snapshots.
pub struct ProgressReader {
    /// Title given to every report.
    pub title: String,
    /// The snapshot being collected.
    pub values: Vec<(String, String)>,
}

/// The snapshot a reader starts from: the title alone.
pub open spec fn fresh_snapshot(title: Seq<char>) -> Seq<(Seq<char>, Seq<char>)> {
    seq![("title"@, title)]
}

/// The snapshot after one line, before a completed one is reset.
pub open spec fn snapshot_after(m: Seq<(Seq<char>, Seq<char>)>, line: Seq<char>) -> Seq<(Seq<char>, Seq<char>)> {
    match key_value(line) {
        Some((k, v)) => insert_entry(m, trimmed(k), trimmed(v)),
        None => m,
    }
}

/// The trimmed value of a `key=value` line, or an empty text.
pub open spec fn line_value(line: Seq<char>) -> Seq<char> {
    match key_value(line) {
        Some((k, v)) => trimmed(v),
        None => Seq::empty(),
    }
}

fn key_value_exec(line: &str) -> (r: Option<(String, String)>)
    ensures
        match r {
            Some((k, v)) => key_value(line@) == Some((k@, v@)),
            None => key_value(line@) is None,
        },
{
    let n = line.unicode_len();
    let mut i: usize = 0;
    while i < n
        invariant
            n == line@.len(),
            i <= n,
            crate::subtitle::first_char(line@, '=', 0) == crate::subtitle::first_char(line@, '=', i as int),
        decreases n - i,
    {
        if line.get_char(i) == '=' {
            return Some((crate::text::slice_text(line, 0, i), crate::text::slice_text(line, i + 1, n)));
        }
        i = i + 1;
    }
    None
}

impl ProgressReader {
    /// A reader whose reports carry `title`.
    pub fn new(title: &str) -> (r: Self)
        ensures
            r.title@ == title@,
            pairs(r.values@) == fresh_snapshot(title@),
    {
        let mut values: Vec<(String, String)> = Vec::new();
        let ghost kv = ("title"@, title@);
        values.push((String::from_str("title"), String::from_str(title)));
        assert(pairs(values@) =~= fresh_snapshot(title@));
        ProgressReader { title: String::from_str(title), values }
    }

    /// Takes one line of the progress stream. A line that starts with
    /// `progress` completes the snapshot: it is reported (or, when its value
    /// is `end`, the run is finished) and collection starts afresh.
    pub fn on_line(&mut self, line: &str, duration_ms: u64) -> (r: LineOutcome)
        ensures
            final(self).title@ == old(self).title@,
            ({
                let after = snapshot_after(pairs(old(self).values@), line@);
                if has_prefix(line@, "progress"@) {
                    &&& pairs(final(self).values@) == fresh_snapshot(old(self).title@)
                    &&& line_value(line@) == "end"@ ==> r == LineOutcome::Finished
                    &&& line_value(line@) != "end"@ ==> (r matches LineOutcome::Progress(p) && describes(p, after, duration_ms))
                } else {
                    &&& pairs(final(self).values@) == after
                    &&& r == LineOutcome::Nothing
                }
            }),
    {
        let mut value = String::new();
        match key_value_exec(line) {
            Some((k, v)) => {
                value = trim(v.as_str());
                let key = trim(k.as_str());
                insert_pair(&mut self.values, key, String::from_str(value.as_str()));
            },
            None => {},
        }
        if starts_with(line, "progress") {
            let p = FFmpegProgress::new(&self.values, duration_ms);
            let mut fresh: Vec<(String, String)> = Vec::new();
            fresh.push((String::from_str("title"), String::from_str(self.title.as_str())));
            assert(pairs(fresh@) =~= fresh_snapshot(self.title@));
            self.values = fresh;
            let is_end = value.as_str().unicode_len() == 3 && starts_with(value.as_str(), "end");
            proof {
                reveal_strlit("end");
                if is_end {
                    assert(value@ =~= "end"@);
                }
                if value@ == "end"@ {
                    assert(value@.subrange(0, 3) =~= "end"@);
                }
            }
            if is_end {
                LineOutcome::Finished
            } else {
                LineOutcome::Progress(p)
            }
        } else {
            LineOutcome::Nothing
        }
    }
}

// ---------------------------------------------------------------- loudness

/// Why a loudness measurement gave no statistics.
#[derive(Clone, Copy, Debug, PartialEq, Eq, Structural)]
pub enum ReportError {
    /// The stream ended inside the statistics object.
    Unterminated,
    /// The stream held no statistics object.
    Missing,
}

/// Collects the statistics object from the diagnostic lines of a loudness
/// measurement.
pub struct LoudnessReport {
    /// Whether the last lines were inside the object.
    pub inside: bool,
    /// The object's lines collected so far.
    pub text: String,
    /// The text collected when the object last closed.
    pub block: Option<String>,
}

impl LoudnessReport {
    pub fn new() -> (r: Self)
        ensures
            !r.inside,
            r.text@.len() == 0,
            r.block is None,
    {
        LoudnessReport { inside: false, text: String::new(), block: None }
    }

    /// Takes one diagnostic line: a lone `{` opens the object, a lone `}`
    /// closes it, and the lines from one to the other are collected.
    pub fn on_line(&mut self, line: &str)
        ensures
            ({
                let opens = line@ == "{"@;
                let closes = line@ == "}"@;
                let inside = old(self).inside || opens;
                let text = if inside { old(self).text@ + line@ } else { old(self).text@ };
                &&& final(self).text@ == text
                &&& final(self).inside == (inside && !closes)
                &&& closes ==> (final(self).block matches Some(b) && b@ == text)
                &&& !closes ==> match (final(self).block, old(self).block) {
                    (Some(a), Some(b)) => a@ == b@,
                    (None, None) => true,
                    _ => false,
                }
            }),
    {
        let n = line.unicode_len();
        let opens = n == 1 && line.get_char(0) == '{';
        let closes = n == 1 && line.get_char(0) == '}';
        proof {
            reveal_strlit("{");
            reveal_strlit("}");
            if n == 1 {
                assert(line@ =~= seq![line@[0]]);
            }
            assert("{"@ =~= seq!['{']);
            assert("}"@ =~= seq!['}']);
            if line@ == "{"@ {
                assert(line@[0] == '{');
            }
            if line@ == "}"@ {
                assert(line@[0] == '}');
            }
        }
        assert(opens == (line@ == "{"@));
        assert(closes == (line@ == "}"@));
        if opens {
            self.inside = true;
        }
        if self.inside {
            self.text.append(line);
        }
        if closes {
            self.inside = false;
            self.block = Some(String::from_str(self.text.as_str()));
        }
    }

    /// The statistics object, once the stream has ended.
    pub fn finish(&self) -> (r: Result<String, ReportError>)
        ensures
            self.inside ==> r == Err::<String, ReportError>(ReportError::Unterminated),
            !self.inside && self.block is None ==> r == Err::<String, ReportError>(ReportError::Missing),
            !self.inside && self.block is Some ==> (r matches Ok(t) && t@ == (self.block->Some_0)@),
    {
        if self.inside {
            return Err(ReportError::Unterminated);
        }
        match &self.block {
            Some(b) => Ok(String::from_str(b.as_str())),
            None => Err(ReportError::Missing),
        }
    }
}

} // verus!
