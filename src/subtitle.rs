//! Caption cues: timestamps, splitting of long cues, merging of short ones,
//! and the text form of a caption file.
use vstd::prelude::*;
use crate::filter::{texts, lemma_texts_push};
use crate::text::{
    is_space, padded_text, push_char, push_padded, slice_text, trim, trim_end,
    trimmed, trimmed_end, is_space_char,
};

verus! {

/// Longest cue text, in characters, that is kept in one piece.
pub const MAX_LEN: usize = 200;

/// Merged cues must stay below this many characters.
pub const MERGE_LIMIT: usize = 121;

/// One caption entry: start and end in milliseconds, and its text.
#[derive(Clone, Debug, Default, PartialEq, Eq)]
pub struct Subtitle {
    pub start: u64,
    pub end: u64,
    pub text: String,
}

/// The value of a cue.
pub struct Cue {
    pub start: u64,
    pub end: u64,
    pub text: Seq<char>,
}

impl View for Subtitle {
    type V = Cue;

    open spec fn view(&self) -> Cue {
        Cue { start: self.start, end: self.end, text: self.text@ }
    }
}

pub open spec fn cues(v: Seq<Subtitle>) -> Seq<Cue> {
    v.map_values(|s: Subtitle| s@)
}

pub proof fn lemma_cues_push(v: Seq<Subtitle>, s: Subtitle)
    ensures
        cues(v.push(s)) == cues(v).push(s@),
{
    assert(cues(v.push(s)) =~= cues(v).push(s@));
}

/// Index of the first `c` in `s` at or after `i`, or `-1`.
pub open spec fn first_char(s: Seq<char>, c: char, i: int) -> int
    decreases s.len() - i,
{
    if i < 0 || i >= s.len() { -1 } else if s[i] == c { i } else { first_char(s, c, i + 1) }
}

// ---------------------------------------------------------------- timestamps

/// `HH:MM:SS.mmm`, hours with at least two digits.
pub open spec fn timestamp_text(millis: nat) -> Seq<char> {
    let ms = millis % 1000;
    let total_s = millis / 1000;
    let s = total_s % 60;
    let total_m = total_s / 60;
    let m = total_m % 60;
    let h = total_m / 60;
    padded_text(h, 2) + seq![':'] + padded_text(m, 2) + seq![':'] + padded_text(s, 2) + seq!['.']
        + padded_text(ms, 3)
}

/// Formats milliseconds as a caption timestamp, `HH:MM:SS.mmm`.
pub fn format_timestamp(millis: u64) -> (r: String)
    ensures
        r@ == timestamp_text(millis as nat),
{
    let ms = millis % 1000;
    let total_s = millis / 1000;
    let s = total_s % 60;
    let total_m = total_s / 60;
    let m = total_m % 60;
    let h = total_m / 60;
    let mut r = String::new();
    push_padded(&mut r, h, 2);
    push_char(&mut r, ':');
    push_padded(&mut r, m, 2);
    push_char(&mut r, ':');
    push_padded(&mut r, s, 2);
    push_char(&mut r, '.');
    push_padded(&mut r, ms, 3);
    assert(r@ =~= timestamp_text(millis as nat));
    r
}

/// Field separators of a timestamp.
pub open spec fn is_time_sep(c: char) -> bool {
    c == ':' || c == '.'
}

/// Indices of the separators of `s` at or after `i`.
pub open spec fn seps_from(s: Seq<char>, i: int) -> Seq<int>
    decreases s.len() - i,
{
    if i < 0 || i >= s.len() {
        Seq::empty()
    } else if is_time_sep(s[i]) {
        seq![i] + seps_from(s, i + 1)
    } else {
        seps_from(s, i + 1)
    }
}

/// Number of `:` in `s[..n]`.
pub open spec fn colon_count(s: Seq<char>, n: int) -> nat
    decreases n,
{
    if n <= 0 || n > s.len() {
        0
    } else {
        colon_count(s, n - 1) + if s[n - 1] == ':' { 1nat } else { 0nat }
    }
}

/// Value of a run of decimal digits.
pub open spec fn digits_value(s: Seq<char>) -> nat
    decreases s.len(),
{
    if s.len() == 0 {
        0
    } else {
        digits_value(s.drop_last()) * 10 + crate::text::digit_value(s.last())
    }
}

pub open spec fn all_digits(s: Seq<char>) -> bool {
    forall|k: int| 0 <= k < s.len() ==> crate::text::is_digit(#[trigger] s[k])
}

/// An unsigned integer field: an optional `+`, then digits; `0` when it is
/// not one or does not fit in 64 bits.
pub open spec fn field_value(s: Seq<char>) -> nat {
    let d = if s.len() > 0 && s[0] == '+' { s.drop_first() } else { s };
    if d.len() > 0 && all_digits(d) && digits_value(d) <= u64::MAX { digits_value(d) } else { 0 }
}

/// The time a timestamp stands for, in milliseconds: `HH:MM:SS.mmm`, or
/// `MM:SS.mmm`; `0` unless it has exactly four fields, and at most the
/// largest 64-bit value.
pub open spec fn timestamp_value(time: Seq<char>) -> nat {
    let t = trimmed(time);
    let u = if colon_count(t, t.len() as int) == 1 { seq!['0', '0', ':'] + t } else { t };
    let p = seps_from(u, 0);
    if p.len() != 3 {
        0
    } else {
        let h = field_value(u.subrange(0, p[0]));
        let m = field_value(u.subrange(p[0] + 1, p[1]));
        let s = field_value(u.subrange(p[1] + 1, p[2]));
        let ms = field_value(u.subrange(p[2] + 1, u.len() as int));
        let v = (h * 3600 + m * 60 + s) * 1000 + ms;
        if v > u64::MAX { u64::MAX as nat } else { v }
    }
}

pub proof fn lemma_seps_from(s: Seq<char>, i: int)
    requires
        0 <= i <= s.len(),
    ensures
        forall|k: int| 0 <= k < seps_from(s, i).len() ==> i <= #[trigger] seps_from(s, i)[k] < s.len(),
        forall|k: int| 0 <= k < seps_from(s, i).len() ==> is_time_sep(s[#[trigger] seps_from(s, i)[k]]),
        forall|k: int, l: int| 0 <= k < l < seps_from(s, i).len() ==> #[trigger] seps_from(s, i)[k] < #[trigger] seps_from(s, i)[l],
    decreases s.len() - i,
{
    if i < s.len() {
        lemma_seps_from(s, i + 1);
        let r = seps_from(s, i + 1);
        if is_time_sep(s[i]) {
            let q = seq![i] + r;
            assert(seps_from(s, i) == q);
            assert forall|k: int| 0 <= k < q.len() implies i <= #[trigger] q[k] < s.len() && is_time_sep(s[q[k]]) by {
                if k > 0 {
                    assert(q[k] == r[k - 1]);
                }
            }
            assert forall|k: int, l: int| 0 <= k < l < q.len() implies #[trigger] q[k] < #[trigger] q[l] by {
                if k > 0 {
                    assert(q[k] == r[k - 1]);
                }
                assert(q[l] == r[l - 1]);
            }
        }
    }
}

/// The value of a run of digits that fits in 64 bits.
pub open spec fn digits_num(s: Seq<char>) -> Option<nat> {
    if all_digits(s) && digits_value(s) <= u64::MAX { Some(digits_value(s)) } else { None }
}

/// Reads the digits `s[from..to]` (none reads as `0`); `None` when one is
/// not a digit or the value does not fit in 64 bits.
pub fn parse_digits(s: &Vec<char>, from: usize, to: usize) -> (r: Option<u64>)
    requires
        from <= to <= s@.len(),
    ensures
        match r {
            Some(v) => digits_num(s@.subrange(from as int, to as int)) == Some(v as nat),
            None => digits_num(s@.subrange(from as int, to as int)) is None,
        },
{
    let ghost d = s@.subrange(from as int, to as int);
    let mut i = from;
    let mut v: u64 = 0;
    while i < to
        invariant
            from <= i <= to,
            to <= s@.len(),
            d == s@.subrange(from as int, to as int),
            all_digits(s@.subrange(from as int, i as int)),
            v as nat == digits_value(s@.subrange(from as int, i as int)),
        decreases to - i,
    {
        let c = s[i];
        if !('0' <= c && c <= '9') {
            assert(!all_digits(d)) by {
                assert(d[i - from] == c);
            }
            return None;
        }
        let dv = (c as u32 - '0' as u32) as u64;
        let ghost pre = s@.subrange(from as int, i as int);
        assert(s@.subrange(from as int, i + 1).drop_last() =~= pre);
        if v > (u64::MAX - dv) / 10 {
            proof {
                assert(digits_value(s@.subrange(from as int, i + 1)) > u64::MAX) by (nonlinear_arith)
                    requires
                        digits_value(s@.subrange(from as int, i + 1)) == v * 10 + dv,
                        v > (u64::MAX - dv) / 10,
                        dv <= 9;
                lemma_prefix_value_grows(d, (i + 1 - from) as int);
                assert(d.subrange(0, (i + 1 - from) as int) =~= s@.subrange(from as int, i + 1));
            }
            return None;
        }
        v = v * 10 + dv;
        i = i + 1;
        assert(all_digits(s@.subrange(from as int, i as int))) by {
            assert forall|k: int| 0 <= k < i - from implies crate::text::is_digit(#[trigger] s@.subrange(from as int, i as int)[k]) by {
                if k < i - 1 - from {
                    assert(s@.subrange(from as int, i as int)[k] == pre[k]);
                }
            }
        }
    }
    assert(d =~= s@.subrange(from as int, i as int));
    Some(v)
}

/// Parses an unsigned integer field of `s[from..to]`.
pub fn parse_field(s: &Vec<char>, from: usize, to: usize) -> (r: u64)
    requires
        from <= to <= s@.len(),
    ensures
        r as nat == field_value(s@.subrange(from as int, to as int)),
{
    let ghost f = s@.subrange(from as int, to as int);
    let mut i = from;
    if i < to && s[i] == '+' {
        i = i + 1;
    }
    let ghost d = s@.subrange(i as int, to as int);
    assert(d == (if f.len() > 0 && f[0] == '+' { f.drop_first() } else { f })) by {
        if f.len() > 0 && f[0] == '+' {
            assert(d =~= f.drop_first());
        } else {
            assert(d =~= f);
        }
    }
    if i == to {
        return 0;
    }
    match parse_digits(s, i, to) {
        Some(v) => v,
        None => 0,
    }
}

/// A longer run of digits is worth at least as much as its prefix.
proof fn lemma_prefix_value_grows(d: Seq<char>, n: int)
    requires
        0 <= n <= d.len(),
    ensures
        all_digits(d) ==> digits_value(d) >= digits_value(d.subrange(0, n)),
    decreases d.len(),
{
    if d.len() > n && all_digits(d) {
        assert(all_digits(d.drop_last()));
        assert(d.drop_last().subrange(0, n) =~= d.subrange(0, n));
        lemma_prefix_value_grows(d.drop_last(), n);
        assert(digits_value(d) == digits_value(d.drop_last()) * 10 + crate::text::digit_value(d.last()));
    } else if d.len() == n {
        assert(d.subrange(0, n) =~= d);
    }
}

/// Reads a caption timestamp into milliseconds (`0` when it is malformed).
pub fn timestamp_to_millis(time: &str) -> (r: u64)
    ensures
        r as nat == timestamp_value(time@),
{
    let t = trim(time);
    let tn = t.as_str().unicode_len();
    let mut colons: usize = 0;
    let mut k: usize = 0;
    while k < tn
        invariant
            tn == t@.len(),
            k <= tn,
            colons as nat == colon_count(t@, k as int),
            colons <= k,
        decreases tn - k,
    {
        if t.as_str().get_char(k) == ':' {
            colons = colons + 1;
        }
        k = k + 1;
    }
    let mut u = String::new();
    if colons == 1 {
        push_char(&mut u, '0');
        push_char(&mut u, '0');
        push_char(&mut u, ':');
    }
    u.append(t.as_str());
    let ghost uu = if colon_count(t@, t@.len() as int) == 1 { seq!['0', '0', ':'] + t@ } else { t@ };
    assert(u@ =~= uu);
    let cs = crate::concat::chars_of(u.as_str());
    let n = cs.len();
    // the separator positions, collected from the end
    let mut found: Vec<usize> = Vec::new();
    let mut i: usize = n;
    proof {
        lemma_seps_from(cs@, n as int);
    }
    while i > 0
        invariant
            i <= n,
            n == cs@.len(),
            cs@ == uu,
            found@.len() <= 4,
            found@.len() < 4 ==> found@.map_values(|x: usize| x as int) == seps_from(cs@, i as int),
            found@.len() == 4 ==> seps_from(cs@, i as int).len() >= 4,
        decreases i,
    {
        i = i - 1;
        proof {
            lemma_seps_from(cs@, i as int);
        }
        if cs[i] == ':' || cs[i] == '.' {
            if found.len() < 4 {
                let ghost before = found@;
                found.insert(0, i);
                proof {
                    if found@.len() < 4 {
                        assert(found@.map_values(|x: usize| x as int) =~= seq![i as int] + before.map_values(|x: usize| x as int));
                    }
                }
            }
        }
    }
    if found.len() != 3 {
        return 0;
    }
    proof {
        lemma_seps_from(cs@, 0);
        assert(found@.map_values(|x: usize| x as int)[0] == found@[0] as int);
        assert(found@.map_values(|x: usize| x as int)[1] == found@[1] as int);
        assert(found@.map_values(|x: usize| x as int)[2] == found@[2] as int);
    }
    let p0 = found[0];
    let p1 = found[1];
    let p2 = found[2];
    let h = parse_field(&cs, 0, p0) as u128;
    let m = parse_field(&cs, p0 + 1, p1) as u128;
    let s = parse_field(&cs, p1 + 1, p2) as u128;
    let ms = parse_field(&cs, p2 + 1, n) as u128;
    assert(((h * 3600 + m * 60 + s) * 1000 + ms) < 0x1_0000_0000_0000_0000_0000_0000_0000_0000) by (nonlinear_arith)
        requires
            h <= u64::MAX,
            m <= u64::MAX,
            s <= u64::MAX,
            ms <= u64::MAX;
    let v = (h * 3600 + m * 60 + s) * 1000 + ms;
    if v > u64::MAX as u128 { u64::MAX } else { v as u64 }
}

impl Subtitle {
    /// A cue from its two timestamps and its text, which is trimmed.
    pub fn new(s: &str, e: &str, t: &str) -> (r: Self)
        ensures
            r.start as nat == timestamp_value(s@),
            r.end as nat == timestamp_value(e@),
            r.text@ == trimmed(t@),
    {
        Subtitle { start: timestamp_to_millis(s), end: timestamp_to_millis(e), text: trim(t) }
    }
}

// ---------------------------------------------------------------- splitting

/// Characters after which a long cue is preferably broken.
pub open spec fn is_break_char(c: char) -> bool {
    c == ',' || c == '.' || c == '?' || c == '!' || c == ':' || c == ';'
}

/// The white-space separated words of `s[..n]`.
pub open spec fn words_upto(s: Seq<char>, n: int) -> Seq<Seq<char>>
    decreases n,
{
    if n <= 0 || n > s.len() {
        Seq::empty()
    } else if is_space(s[n - 1]) {
        words_upto(s, n - 1)
    } else if n == 1 || is_space(s[n - 2]) {
        words_upto(s, n - 1).push(seq![s[n - 1]])
    } else {
        let w = words_upto(s, n - 1);
        w.update(w.len() - 1, w.last().push(s[n - 1]))
    }
}

/// The white-space separated words of `s`.
pub open spec fn words(s: Seq<char>) -> Seq<Seq<char>> {
    words_upto(s, s.len() as int)
}

/// Total length of the first `k` texts.
pub open spec fn len_sum(v: Seq<Seq<char>>, k: int) -> nat
    decreases k,
{
    if k <= 0 || k > v.len() { 0 } else { len_sum(v, k - 1) + v[k - 1].len() }
}

/// Index of the last break character in `s[..n]`, or `-1`.
pub open spec fn last_break(s: Seq<char>, n: int) -> int
    decreases n,
{
    if n <= 0 || n > s.len() {
        -1
    } else if is_break_char(s[n - 1]) {
        n - 1
    } else {
        last_break(s, n - 1)
    }
}

/// One step of the greedy packing: the finished chunks and the open one,
/// after one more word. When the word does not fit, the open chunk is
/// closed after its last punctuation mark (or whole, when it has none); a
/// remainder that still cannot take the word is closed as well.
pub open spec fn pack(state: (Seq<Seq<char>>, Seq<char>), word: Seq<char>) -> (Seq<Seq<char>>, Seq<char>) {
    let chunks = state.0;
    let cur = state.1;
    let (c2, cur2) = if cur.len() + word.len() + 1 > MAX_LEN {
        let p = last_break(cur, cur.len() as int);
        if p >= 0 {
            let head = trimmed(cur.subrange(0, p + 1));
            let rest = trimmed(cur.subrange(p + 1, cur.len() as int));
            if rest.len() > 0 && rest.len() + word.len() + 1 > MAX_LEN {
                (chunks.push(head).push(rest), Seq::<char>::empty())
            } else {
                (chunks.push(head), rest)
            }
        } else {
            (chunks.push(trimmed(cur)), Seq::<char>::empty())
        }
    } else {
        (chunks, cur)
    };
    (c2, if cur2.len() > 0 { cur2.push(' ') + word } else { word })
}

/// The packing after the first `n` words.
pub open spec fn pack_all(w: Seq<Seq<char>>, n: int) -> (Seq<Seq<char>>, Seq<char>)
    decreases n,
{
    if n <= 0 || n > w.len() {
        (Seq::empty(), Seq::empty())
    } else {
        pack(pack_all(w, n - 1), w[n - 1])
    }
}

/// The texts a long cue is split into.
pub open spec fn chunks_of(text: Seq<char>) -> Seq<Seq<char>> {
    let w = words(text);
    let st = pack_all(w, w.len() as int);
    if st.1.len() > 0 { st.0.push(trimmed(st.1)) } else { st.0 }
}

/// `a * x / t`, rounded to the nearest integer, halves rounded up when `up`
/// and down otherwise.
pub open spec fn share(a: nat, x: nat, t: nat, up: bool) -> nat {
    ((2 * a * x + if up { t } else { (t - 1) as nat }) / (2 * t)) as nat
}

/// The time `x / t` of the way from `start` to `end`, rounded to the nearest
/// millisecond (halves upwards).
pub open spec fn time_at(start: u64, end: u64, x: nat, t: nat) -> u64 {
    if end >= start {
        (start + share((end - start) as nat, x, t, true)) as u64
    } else {
        (start - share((start - end) as nat, x, t, false)) as u64
    }
}

/// The cues a long cue is split into: its chunks, with its duration shared
/// out in proportion to their lengths, each starting where the last ended.
pub open spec fn split_cues(c: Cue) -> Seq<Cue> {
    let ch = chunks_of(c.text);
    let t = len_sum(ch, ch.len() as int);
    Seq::new(ch.len(), |k: int| Cue {
        start: time_at(c.start, c.end, len_sum(ch, k), t),
        end: time_at(c.start, c.end, len_sum(ch, k + 1), t),
        text: ch[k],
    })
}

proof fn lemma_words_upto_nonempty(s: Seq<char>, n: int)
    requires
        1 <= n <= s.len(),
        !is_space(s[n - 1]),
    ensures
        words_upto(s, n).len() > 0,
        words_upto(s, n).len() == words_upto(s, n - 1).len() + if n == 1 || is_space(s[n - 2]) { 1int } else { 0int },
    decreases n,
{
    if n > 1 && !is_space(s[n - 2]) {
        lemma_words_upto_nonempty(s, n - 1);
    }
}

/// The words and the single spaces between them are no longer than the text.
proof fn lemma_words_size(s: Seq<char>, n: int)
    requires
        0 <= n <= s.len(),
    ensures
        len_sum(words_upto(s, n), words_upto(s, n).len() as int) + words_upto(s, n).len()
            <= n + if n > 0 && !is_space(s[n - 1]) { 1int } else { 0int },
    decreases n,
{
    if n > 0 {
        lemma_words_size(s, n - 1);
        let w0 = words_upto(s, n - 1);
        let w = words_upto(s, n);
        if is_space(s[n - 1]) {
        } else if n == 1 || is_space(s[n - 2]) {
            lemma_len_sum_push(w0, seq![s[n - 1]]);
        } else {
            lemma_words_upto_nonempty(s, n - 1);
            let k = w0.len() - 1;
            lemma_len_sum_update_last(w0, w0.last().push(s[n - 1]));
        }
    }
}

proof fn lemma_len_sum_push(v: Seq<Seq<char>>, x: Seq<char>)
    ensures
        len_sum(v.push(x), (v.len() + 1) as int) == len_sum(v, v.len() as int) + x.len(),
{
    lemma_len_sum_prefix(v.push(x), v, v.len() as int);
}

proof fn lemma_len_sum_prefix(v: Seq<Seq<char>>, u: Seq<Seq<char>>, k: int)
    requires
        0 <= k <= v.len(),
        k <= u.len(),
        forall|i: int| 0 <= i < k ==> v[i] == u[i],
    ensures
        len_sum(v, k) == len_sum(u, k),
    decreases k,
{
    if k > 0 {
        lemma_len_sum_prefix(v, u, k - 1);
    }
}

proof fn lemma_len_sum_update_last(v: Seq<Seq<char>>, x: Seq<char>)
    requires
        v.len() > 0,
    ensures
        len_sum(v.update(v.len() - 1, x), v.len() as int) == len_sum(v, v.len() as int) - v.last().len() + x.len(),
{
    lemma_len_sum_prefix(v.update(v.len() - 1, x), v, v.len() - 1);
}

proof fn lemma_trimmed_len(s: Seq<char>)
    ensures
        trimmed(s).len() <= s.len(),
{
    crate::text::lemma_skip_space_bounds(s, 0);
    crate::text::lemma_skip_space_back_bounds(s, s.len() as int);
}

proof fn lemma_last_break(s: Seq<char>, n: int)
    requires
        0 <= n <= s.len(),
    ensures
        -1 <= last_break(s, n) < n,
    decreases n,
{
    if n > 0 {
        lemma_last_break(s, n - 1);
    }
}

/// The packed text is no longer than the words and one space between each two.
proof fn lemma_pack_size(w: Seq<Seq<char>>, n: int)
    requires
        0 <= n <= w.len(),
    ensures
        len_sum(pack_all(w, n).0, pack_all(w, n).0.len() as int) + pack_all(w, n).1.len()
            + (if n > 0 { 1int } else { 0int }) <= len_sum(w, n) + n,
    decreases n,
{
    if n > 0 {
        lemma_pack_size(w, n - 1);
        let st = pack_all(w, n - 1);
        let chunks = st.0;
        let cur = st.1;
        let word = w[n - 1];
        if cur.len() + word.len() + 1 > MAX_LEN {
            let p = last_break(cur, cur.len() as int);
            lemma_last_break(cur, cur.len() as int);
            if p >= 0 {
                let head = trimmed(cur.subrange(0, p + 1));
                let rest = trimmed(cur.subrange(p + 1, cur.len() as int));
                lemma_trimmed_len(cur.subrange(0, p + 1));
                lemma_trimmed_len(cur.subrange(p + 1, cur.len() as int));
                lemma_len_sum_push(chunks, head);
                lemma_len_sum_push(chunks.push(head), rest);
            } else {
                lemma_trimmed_len(cur);
                lemma_len_sum_push(chunks, trimmed(cur));
            }
        }
    }
}

/// The words of `s`.
pub fn split_words(s: &str) -> (r: Vec<String>)
    ensures
        texts(r@) == words(s@),
{
    let n = s.unicode_len();
    let mut r: Vec<String> = Vec::new();
    let mut i: usize = 0;
    let mut prev_space = true;
    while i < n
        invariant
            n == s@.len(),
            i <= n,
            texts(r@) == words_upto(s@, i as int),
            prev_space == (i == 0 || is_space(s@[i - 1])),
        decreases n - i,
    {
        let c = s.get_char(i);
        if is_space_char(c) {
            prev_space = true;
        } else if prev_space {
            let mut w = String::new();
            push_char(&mut w, c);
            proof {
                lemma_texts_push(r@, w);
            }
            r.push(w);
            prev_space = false;
        } else {
            proof {
                lemma_words_upto_nonempty(s@, i as int);
            }
            let ghost before = r@;
            let mut w = r.pop().unwrap();
            push_char(&mut w, c);
            proof {
                lemma_texts_push(r@, w);
                assert(before =~= r@.push(before.last()));
                lemma_texts_push(r@, before.last());
            }
            r.push(w);
            assert(texts(r@) =~= words_upto(s@, i + 1));
            prev_space = false;
        }
        i = i + 1;
    }
    r
}

/// Index of the last break character of `s`.
fn find_last_break(s: &Vec<char>) -> (r: Option<usize>)
    ensures
        match r {
            Some(p) => p as int == last_break(s@, s@.len() as int) && p < s@.len(),
            None => last_break(s@, s@.len() as int) < 0,
        },
{
    let mut k = s.len();
    while k > 0
        invariant
            k <= s@.len(),
            last_break(s@, s@.len() as int) == last_break(s@, k as int),
        decreases k,
    {
        let c = s[k - 1];
        if c == ',' || c == '.' || c == '?' || c == '!' || c == ':' || c == ';' {
            return Some(k - 1);
        }
        k = k - 1;
    }
    None
}

/// Adds one word to the packing.
fn pack_word(chunks: &mut Vec<String>, cur: &mut String, word: &String)
    ensures
        (texts(final(chunks)@), final(cur)@) == pack((texts(old(chunks)@), old(cur)@), word@),
{
    let cl = cur.as_str().unicode_len();
    let wl = word.as_str().unicode_len();
    if cl as u128 + wl as u128 + 1 > MAX_LEN as u128 {
        let cs = crate::concat::chars_of(cur.as_str());
        match find_last_break(&cs) {
            Some(p) => {
                let before = trim(slice_text(cur.as_str(), 0, p + 1).as_str());
                let after = trim(slice_text(cur.as_str(), p + 1, cl).as_str());
                proof {
                    lemma_texts_push(chunks@, before);
                }
                chunks.push(before);
                let al = after.as_str().unicode_len();
                if al > 0 && al as u128 + wl as u128 + 1 > MAX_LEN as u128 {
                    proof {
                        lemma_texts_push(chunks@, after);
                    }
                    chunks.push(after);
                    *cur = String::new();
                } else {
                    *cur = after;
                }
            },
            None => {
                let whole = trim(cur.as_str());
                proof {
                    lemma_texts_push(chunks@, whole);
                }
                chunks.push(whole);
                *cur = String::new();
            },
        }
    }
    if cur.as_str().unicode_len() > 0 {
        push_char(cur, ' ');
    }
    cur.append(word.as_str());
}

/// `floor((2 * a * x + bias) / (2 * t))` with `bias` `t` or `t - 1`.
fn round_share(a: u64, x: u64, t: u64, up: bool) -> (r: u64)
    requires
        0 < t,
        x <= t,
    ensures
        r as nat == share(a as nat, x as nat, t as nat, up),
        r <= a,
{
    let bias: u128 = if up { t as u128 } else { (t - 1) as u128 };
    assert((a as u128) * (x as u128) <= 0xffff_ffff_ffff_fffe_0000_0000_0000_0001) by (nonlinear_arith)
        requires
            a <= u64::MAX,
            x <= u64::MAX;
    let n: u128 = (a as u128) * (x as u128);
    let q: u128 = n / (t as u128);
    let g: u128 = n % (t as u128);
    let two_t: u128 = 2 * (t as u128);
    let c: u128 = if 2 * g + bias >= two_t { 1 } else { 0 };
    let rem: u128 = 2 * g + bias - c * two_t;
    proof {
        let ai = a as int;
        let xi = x as int;
        let ti = t as int;
        let qi = q as int;
        let gi = g as int;
        vstd::arithmetic::div_mod::lemma_fundamental_div_mod(n as int, ti);
        assert(n as int == ti * qi + gi);
        assert(2 * ai * xi + bias as int == (qi + c as int) * (2 * ti) + rem as int) by (nonlinear_arith)
            requires
                n as int == ai * xi,
                n as int == ti * qi + gi,
                rem as int == 2 * gi + bias as int - c as int * (2 * ti);
        vstd::arithmetic::div_mod::lemma_fundamental_div_mod_converse(
            2 * ai * xi + bias as int,
            2 * ti,
            qi + c as int,
            rem as int,
        );
        assert(qi + c as int <= ai) by (nonlinear_arith)
            requires
                2 * ai * xi + bias as int == (qi + c as int) * (2 * ti) + rem as int,
                rem >= 0,
                bias as int <= ti,
                xi <= ti,
                ti > 0,
                ai >= 0;
    }
    (q + c) as u64
}

/// Splits a cue whose text is too long into cues of at most about
/// `MAX_LEN` characters: words are packed greedily, and on overflow the
/// chunk is broken after its last punctuation mark when it has one. The
/// cue's duration is shared out in proportion to the chunks' lengths.
pub fn split_long_subtitle(subtitle: &Subtitle) -> (r: Vec<Subtitle>)
    ensures
        cues(r@) == split_cues(subtitle@),
{
    let ws = split_words(subtitle.text.as_str());
    let mut chunks: Vec<String> = Vec::new();
    let mut cur = String::new();
    let mut i: usize = 0;
    while i < ws.len()
        invariant
            i <= ws@.len(),
            texts(ws@) == words(subtitle.text@),
            (texts(chunks@), cur@) == pack_all(texts(ws@), i as int),
        decreases ws@.len() - i,
    {
        pack_word(&mut chunks, &mut cur, &ws[i]);
        i = i + 1;
    }
    let ghost w = words(subtitle.text@);
    if cur.as_str().unicode_len() > 0 {
        let last = trim(cur.as_str());
        proof {
            lemma_texts_push(chunks@, last);
        }
        chunks.push(last);
    }
    let ghost ch = texts(chunks@);
    assert(ch == chunks_of(subtitle.text@));
    // total length of the chunks
    let text_len = subtitle.text.as_str().unicode_len();
    proof {
        lemma_chunks_size(subtitle.text@);
    }
    let mut total: u64 = 0;
    let mut k: usize = 0;
    while k < chunks.len()
        invariant
            k <= chunks@.len(),
            ch == texts(chunks@),
            total as nat == len_sum(ch, k as int),
            len_sum(ch, ch.len() as int) <= u64::MAX,
        decreases chunks@.len() - k,
    {
        proof {
            lemma_len_sum_mono(ch, k as int + 1, ch.len() as int);
        }
        total = total + chunks[k].as_str().unicode_len() as u64;
        k = k + 1;
    }
    let mut result: Vec<Subtitle> = Vec::new();
    let mut cum: u64 = 0;
    let mut j: usize = 0;
    let up = subtitle.end >= subtitle.start;
    let span: u64 = if up { subtitle.end - subtitle.start } else { subtitle.start - subtitle.end };
    while j < chunks.len()
        invariant
            j <= chunks@.len(),
            ch == texts(chunks@),
            ch == chunks_of(subtitle.text@),
            total as nat == len_sum(ch, ch.len() as int),
            ch.len() > 0 ==> total > 0,
            cum as nat == len_sum(ch, j as int),
            up == (subtitle.end >= subtitle.start),
            span as int == if up { subtitle.end - subtitle.start } else { subtitle.start - subtitle.end },
            cues(result@) == split_cues(subtitle@).subrange(0, j as int),
        decreases chunks@.len() - j,
    {
        proof {
            lemma_len_sum_mono(ch, j as int + 1, ch.len() as int);
            lemma_len_sum_mono(ch, j as int, j as int + 1);
        }
        let len = chunks[j].as_str().unicode_len() as u64;
        let next = cum + len;
        let s_off = round_share(span, cum, total, up);
        let e_off = round_share(span, next, total, up);
        let start = if up { subtitle.start + s_off } else { subtitle.start - s_off };
        let end = if up { subtitle.start + e_off } else { subtitle.start - e_off };
        let text = String::from_str(chunks[j].as_str());
        let cue = Subtitle { start, end, text };
        proof {
            lemma_cues_push(result@, cue);
        }
        result.push(cue);
        cum = next;
        j = j + 1;
        assert(cues(result@) =~= split_cues(subtitle@).subrange(0, j as int));
    }
    assert(split_cues(subtitle@).subrange(0, j as int) =~= split_cues(subtitle@));
    result
}

/// Every word is non-empty and ends in a non-space character.
proof fn lemma_words_shape(s: Seq<char>, n: int)
    requires
        0 <= n <= s.len(),
    ensures
        forall|k: int| 0 <= k < words_upto(s, n).len() ==> (#[trigger] words_upto(s, n)[k]).len() > 0
            && !is_space(words_upto(s, n)[k].last()),
    decreases n,
{
    if n > 0 {
        lemma_words_shape(s, n - 1);
        let w0 = words_upto(s, n - 1);
        let w = words_upto(s, n);
        if is_space(s[n - 1]) {
        } else if n == 1 || is_space(s[n - 2]) {
            assert forall|k: int| 0 <= k < w.len() implies (#[trigger] w[k]).len() > 0 && !is_space(w[k].last()) by {
                if k < w0.len() {
                    assert(w[k] == w0[k]);
                }
            }
        } else {
            lemma_words_upto_nonempty(s, n - 1);
            assert forall|k: int| 0 <= k < w.len() implies (#[trigger] w[k]).len() > 0 && !is_space(w[k].last()) by {
                if k < w0.len() - 1 {
                    assert(w[k] == w0[k]);
                }
            }
        }
    }
}

/// A text that ends in a non-space character keeps something when trimmed.
proof fn lemma_trimmed_nonempty(s: Seq<char>)
    requires
        s.len() > 0,
        !is_space(s.last()),
    ensures
        trimmed(s).len() > 0,
{
    crate::text::lemma_skip_space_bounds(s, 0);
    lemma_skip_space_stops(s, 0, s.len() - 1);
    assert(crate::text::skip_space_back(s, s.len() as int) == s.len());
}

proof fn lemma_skip_space_stops(s: Seq<char>, i: int, j: int)
    requires
        0 <= i <= j < s.len(),
        !is_space(s[j]),
    ensures
        crate::text::skip_space(s, i) <= j,
    decreases j - i,
{
    if i < j && is_space(s[i]) {
        lemma_skip_space_stops(s, i + 1, j);
    }
}

/// The chunks of a text are together at most as long as the text, and
/// together non-empty when there is any chunk.
proof fn lemma_chunks_size(text: Seq<char>)
    ensures
        len_sum(chunks_of(text), chunks_of(text).len() as int) <= text.len(),
        chunks_of(text).len() > 0 ==> len_sum(chunks_of(text), chunks_of(text).len() as int) > 0,
{
    let w = words(text);
    let st = pack_all(w, w.len() as int);
    lemma_words_size(text, text.len() as int);
    lemma_pack_size(w, w.len() as int);
    lemma_trimmed_len(st.1);
    if st.1.len() > 0 {
        lemma_len_sum_push(st.0, trimmed(st.1));
    }
    if w.len() > 0 {
        lemma_words_shape(text, text.len() as int);
        let word = w[w.len() - 1];
        assert(word.len() > 0 && !is_space(word.last()));
        assert(st == pack(pack_all(w, w.len() - 1), word));
        assert(st.1.len() > 0 && st.1.last() == word.last());
        lemma_trimmed_nonempty(st.1);
        lemma_len_sum_push(st.0, trimmed(st.1));
    } else {
        assert(st.0.len() == 0 && st.1.len() == 0);
    }
}

proof fn lemma_len_sum_mono(v: Seq<Seq<char>>, j: int, k: int)
    requires
        0 <= j <= k <= v.len(),
    ensures
        len_sum(v, j) <= len_sum(v, k),
    decreases k - j,
{
    if j < k {
        lemma_len_sum_mono(v, j, k - 1);
    }
}


/// Splitting a cue keeps its span: the first piece starts where the cue
/// started, each piece starts where the one before ended, and the last ends
/// where the cue ended, so the pieces' durations add up to the cue's.
pub proof fn lemma_split_keeps_duration(c: Cue)
    ensures
        ({
            let r = split_cues(c);
            &&& r.len() > 0 ==> r[0].start == c.start && r.last().end == c.end
            &&& forall|k: int| 0 <= k < r.len() - 1 ==> #[trigger] r[k].end == r[k + 1].start
        }),
{
    let ch = chunks_of(c.text);
    let t = len_sum(ch, ch.len() as int);
    let r = split_cues(c);
    lemma_chunks_size(c.text);
    if r.len() > 0 {
        let a: nat = if c.end >= c.start { (c.end - c.start) as nat } else { (c.start - c.end) as nat };
        let ti = t as int;
        assert(ti > 0);
        assert(len_sum(ch, 0) == 0);
        vstd::arithmetic::div_mod::lemma_fundamental_div_mod_converse(ti, 2 * ti, 0, ti);
        vstd::arithmetic::div_mod::lemma_fundamental_div_mod_converse(ti - 1, 2 * ti, 0, ti - 1);
        assert(share(a, 0, t, true) == 0);
        assert(share(a, 0, t, false) == 0);
        assert(2 * a * ti + ti == a * (2 * ti) + ti) by (nonlinear_arith);
        assert(2 * a * ti + (ti - 1) == a * (2 * ti) + (ti - 1)) by (nonlinear_arith);
        vstd::arithmetic::div_mod::lemma_fundamental_div_mod_converse(2 * a * ti + ti, 2 * ti, a as int, ti);
        vstd::arithmetic::div_mod::lemma_fundamental_div_mod_converse(2 * a * ti + (ti - 1), 2 * ti, a as int, ti - 1);
        assert(share(a, t, t, true) == a);
        assert(share(a, t, t, false) == a);
        assert(r[0].start == c.start);
        assert(r.last().end == c.end);
    }
}

/// Whether a text holds no space character.
pub open spec fn no_blank(s: Seq<char>) -> bool {
    forall|j: int| 0 <= j < s.len() ==> s[j] != ' '
}

/// A chunk fits: at most `MAX_LEN` characters, or a single word.
pub open spec fn chunk_fits(s: Seq<char>) -> bool {
    s.len() <= MAX_LEN || no_blank(s)
}

/// No word holds white space.
proof fn lemma_words_solid(s: Seq<char>, n: int)
    requires
        0 <= n <= s.len(),
    ensures
        forall|k: int| 0 <= k < words_upto(s, n).len() ==> no_blank(#[trigger] words_upto(s, n)[k]),
    decreases n,
{
    if n > 0 {
        lemma_words_solid(s, n - 1);
        let w0 = words_upto(s, n - 1);
        let w = words_upto(s, n);
        if is_space(s[n - 1]) {
        } else if n == 1 || is_space(s[n - 2]) {
            assert forall|k: int| 0 <= k < w.len() implies no_blank(#[trigger] w[k]) by {
                if k < w0.len() {
                    assert(w[k] == w0[k]);
                }
            }
        } else {
            lemma_words_upto_nonempty(s, n - 1);
            assert forall|k: int| 0 <= k < w.len() implies no_blank(#[trigger] w[k]) by {
                if k < w0.len() - 1 {
                    assert(w[k] == w0[k]);
                } else {
                    let x = w0.last().push(s[n - 1]);
                    assert(w[k] == x);
                    assert(no_blank(w0[w0.len() - 1]));
                    assert forall|j: int| 0 <= j < x.len() implies x[j] != ' ' by {
                        if j < x.len() - 1 {
                            assert(x[j] == w0.last()[j]);
                        }
                    }
                }
            }
        }
    }
}

/// Trimming keeps a part of the text.
proof fn lemma_trimmed_part(x: Seq<char>)
    ensures
        trimmed(x).len() <= x.len(),
        no_blank(x) ==> no_blank(trimmed(x)),
{
    crate::text::lemma_skip_space_bounds(x, 0);
    crate::text::lemma_skip_space_back_bounds(x, x.len() as int);
    let a = crate::text::skip_space(x, 0);
    let b = crate::text::skip_space_back(x, x.len() as int);
    if a < b && no_blank(x) {
        assert forall|j: int| 0 <= j < trimmed(x).len() implies trimmed(x)[j] != ' ' by {
            assert(trimmed(x)[j] == x[a + j]);
        }
    }
}

proof fn lemma_part_fits(x: Seq<char>, lo: int, hi: int)
    requires
        0 <= lo <= hi <= x.len(),
        chunk_fits(x),
    ensures
        chunk_fits(trimmed(x.subrange(lo, hi))),
{
    let y = x.subrange(lo, hi);
    if no_blank(x) {
        assert forall|j: int| 0 <= j < y.len() implies y[j] != ' ' by {
            assert(y[j] == x[lo + j]);
        }
    }
    lemma_trimmed_part(y);
}

proof fn lemma_pack_fits(w: Seq<Seq<char>>, n: int)
    requires
        0 <= n <= w.len(),
        forall|k: int| 0 <= k < w.len() ==> no_blank(#[trigger] w[k]),
    ensures
        chunk_fits(pack_all(w, n).1),
        forall|k: int| 0 <= k < pack_all(w, n).0.len() ==> chunk_fits(#[trigger] pack_all(w, n).0[k]),
    decreases n,
{
    if n > 0 {
        lemma_pack_fits(w, n - 1);
        let st = pack_all(w, n - 1);
        let cur = st.1;
        let word = w[n - 1];
        assert(no_blank(word));
        let r = pack_all(w, n);
        if cur.len() + word.len() + 1 > MAX_LEN {
            let p = last_break(cur, cur.len() as int);
            lemma_last_break(cur, cur.len() as int);
            if p >= 0 {
                lemma_part_fits(cur, 0, p + 1);
                lemma_part_fits(cur, p + 1, cur.len() as int);
                let head = trimmed(cur.subrange(0, p + 1));
                let rest = trimmed(cur.subrange(p + 1, cur.len() as int));
                if rest.len() > 0 && rest.len() + word.len() + 1 > MAX_LEN {
                    assert(r.1 == word);
                    assert(r.0 == st.0.push(head).push(rest));
                } else {
                    assert(r.0 == st.0.push(head));
                }
                assert forall|k: int| 0 <= k < r.0.len() implies chunk_fits(#[trigger] r.0[k]) by {
                    if k < st.0.len() {
                        assert(r.0[k] == st.0[k]);
                    }
                }
            } else {
                assert(cur.subrange(0, cur.len() as int) =~= cur);
                lemma_part_fits(cur, 0, cur.len() as int);
                assert(r.1 == word);
                assert forall|k: int| 0 <= k < r.0.len() implies chunk_fits(#[trigger] r.0[k]) by {
                    if k < st.0.len() {
                        assert(r.0[k] == st.0[k]);
                    }
                }
            }
        } else {
            assert(r.0 == st.0);
        }
    }
}

/// Every cue a long cue is split into has at most `MAX_LEN` characters,
/// unless it is a single word, which has no place to break.
pub proof fn lemma_split_chunks_fit(c: Cue)
    ensures
        forall|k: int| 0 <= k < split_cues(c).len() ==> chunk_fits(#[trigger] split_cues(c)[k].text),
{
    let w = words(c.text);
    lemma_words_solid(c.text, c.text.len() as int);
    lemma_pack_fits(w, w.len() as int);
    let st = pack_all(w, w.len() as int);
    assert(st.1.subrange(0, st.1.len() as int) =~= st.1);
    lemma_part_fits(st.1, 0, st.1.len() as int);
    let ch = chunks_of(c.text);
    assert forall|k: int| 0 <= k < split_cues(c).len() implies chunk_fits(#[trigger] split_cues(c)[k].text) by {
        assert(split_cues(c)[k].text == ch[k]);
        if k < st.0.len() {
            assert(ch[k] == st.0[k]);
        }
    }
}

proof fn lemma_share_bounds(a: nat, x: nat, t: nat)
    requires
        t > 0,
        x <= t,
    ensures
        share(a, x, t, true) <= a,
        2 * t * share(a, x, t, true) <= 2 * a * x + t,
        2 * a * x + t < 2 * t * share(a, x, t, true) + 2 * t,
{
    let n = (2 * a * x + t) as int;
    let d = (2 * t) as int;
    vstd::arithmetic::div_mod::lemma_fundamental_div_mod(n, d);
    vstd::arithmetic::div_mod::lemma_mod_bound(n, d);
    let q = n / d;
    assert(q >= 0) by (nonlinear_arith)
        requires
            n == d * q + n % d,
            n % d < d,
            n >= 0,
            d > 0;
    assert(q <= a) by (nonlinear_arith)
        requires
            n == d * q + n % d,
            n % d >= 0,
            n == 2 * a * x + t,
            d == 2 * t,
            x <= t,
            t > 0;
}

/// Each piece of a split cue lasts its share of the cue's duration, in
/// proportion to its length, to within a millisecond: with `t` the total
/// length of the pieces, `|duration * t - cue_duration * length| < t`.
pub proof fn lemma_split_shares_duration(c: Cue)
    requires
        c.start <= c.end,
    ensures
        ({
            let ch = chunks_of(c.text);
            let t = len_sum(ch, ch.len() as int);
            let r = split_cues(c);
            forall|k: int| 0 <= k < r.len() ==> {
                let d = #[trigger] r[k].end - r[k].start;
                &&& r[k].start <= r[k].end
                &&& d * t < (c.end - c.start) * ch[k].len() + t
                &&& (c.end - c.start) * ch[k].len() < d * t + t
            }
        }),
{
    let ch = chunks_of(c.text);
    let t = len_sum(ch, ch.len() as int);
    let r = split_cues(c);
    let a = (c.end - c.start) as nat;
    lemma_chunks_size(c.text);
    assert forall|k: int| 0 <= k < r.len() implies {
        let d = #[trigger] r[k].end - r[k].start;
        &&& r[k].start <= r[k].end
        &&& d * t < (c.end - c.start) * ch[k].len() + t
        &&& (c.end - c.start) * ch[k].len() < d * t + t
    } by {
        let x0 = len_sum(ch, k);
        let x1 = len_sum(ch, k + 1);
        lemma_len_sum_mono(ch, k, k + 1);
        lemma_len_sum_mono(ch, k + 1, ch.len() as int);
        assert(x1 == x0 + ch[k].len());
        lemma_share_bounds(a, x0, t);
        lemma_share_bounds(a, x1, t);
        let s0 = share(a, x0, t, true);
        let s1 = share(a, x1, t, true);
        assert(r[k].start == c.start + s0);
        assert(r[k].end == c.start + s1);
        assert(s0 <= s1) by (nonlinear_arith)
            requires
                2 * t * s0 <= 2 * a * x0 + t,
                2 * a * x1 + t < 2 * t * s1 + 2 * t,
                x0 <= x1,
                t > 0;
        let len = ch[k].len();
        assert((s1 - s0) * t < a * len + t && a * len < (s1 - s0) * t + t) by (nonlinear_arith)
            requires
                2 * t * s0 <= 2 * a * x0 + t,
                2 * a * x0 + t < 2 * t * s0 + 2 * t,
                2 * t * s1 <= 2 * a * x1 + t,
                2 * a * x1 + t < 2 * t * s1 + 2 * t,
                x1 == x0 + len,
                s0 <= s1,
                t > 0;
    }
}

// ---------------------------------------------------------------- merging

/// Whether a text ends in sentence punctuation, ignoring trailing space.
pub open spec fn ends_sentence(t: Seq<char>) -> bool {
    let e = trimmed_end(t);
    e.len() > 0 && (e.last() == '.' || e.last() == '?' || e.last() == '!')
}

/// The text of two merged cues: both, joined by a space, unless they repeat
/// each other and the first does not end in a comma.
pub open spec fn merged_text(p: Seq<char>, c: Seq<char>) -> Seq<char> {
    let pt = trimmed(p);
    let ct = trimmed(c);
    if pt == ct && !(pt.len() > 0 && pt.last() == ',') { ct } else { pt + seq![' '] + ct }
}

/// Whether a pending cue absorbs the next one.
pub open spec fn can_merge(p: Cue, c: Cue) -> bool {
    p.text.len() + c.text.len() < MERGE_LIMIT && !ends_sentence(p.text)
}

/// One step of the walk over the cues: the cues already emitted and the
/// pending one, after cue `c`.
pub open spec fn walk_step(st: (Seq<Cue>, Option<Cue>), c: Cue) -> (Seq<Cue>, Option<Cue>) {
    let merge = match st.1 {
        Some(p) => can_merge(p, c),
        None => false,
    };
    if merge {
        let p = st.1->Some_0;
        (st.0, Some(Cue { start: p.start, end: c.end, text: merged_text(p.text, c.text) }))
    } else {
        let out = match st.1 {
            Some(p) => st.0.push(p),
            None => st.0,
        };
        if c.text.len() > MAX_LEN { (out + split_cues(c), None) } else { (out, Some(c)) }
    }
}

/// The walk over the first `n` cues.
pub open spec fn walk(v: Seq<Cue>, n: int) -> (Seq<Cue>, Option<Cue>)
    decreases n,
{
    if n <= 0 || n > v.len() { (Seq::empty(), None) } else { walk_step(walk(v, n - 1), v[n - 1]) }
}

/// The end given to a final cue that outlasts the media:
/// `max(duration - 300, start + 500)`, saturated to 64 bits.
pub open spec fn clamp_end(start: u64, duration: u64) -> u64 {
    let a = duration - 300;
    let b = start + 500;
    let m = if a > b { a } else { b };
    if m > u64::MAX { u64::MAX } else { m as u64 }
}

/// The final cue, clamped when it ends after the media.
pub open spec fn clamped(l: Cue, duration: u64) -> Cue {
    if l.end > duration { Cue { start: l.start, end: clamp_end(l.start, duration), text: l.text } } else { l }
}

/// The resegmented cues of `v` for media of `duration` milliseconds.
pub open spec fn processed(v: Seq<Cue>, duration: u64) -> Seq<Cue> {
    let st = walk(v, v.len() as int);
    match st.1 {
        Some(l) => st.0.push(clamped(l, duration)),
        None => st.0,
    }
}

/// A final pending cue that outlasts the media ends at
/// `max(duration - 300, start + 500)` (saturated to 64 bits); the others
/// keep their times.
pub proof fn lemma_final_cue_clamped(v: Seq<Cue>, duration: u64)
    ensures
        ({
            let st = walk(v, v.len() as int);
            let out = processed(v, duration);
            st.1 is Some ==> {
                let l = st.1->Some_0;
                &&& out.last().start == l.start
                &&& out.last().text == l.text
                &&& l.end > duration ==> out.last().end as int == (if duration - 300 > l.start + 500 {
                    duration - 300
                } else if l.start + 500 <= u64::MAX {
                    l.start + 500
                } else {
                    u64::MAX as int
                })
                &&& l.end <= duration ==> out.last().end == l.end
            }
        }),
{
}

/// Text of a merged cue.
fn merge_text(p: &String, c: &String) -> (r: String)
    ensures
        r@ == merged_text(p@, c@),
{
    let pt = trim(p.as_str());
    let ct = trim(c.as_str());
    let n = pt.as_str().unicode_len();
    let comma = n > 0 && pt.as_str().get_char(n - 1) == ',';
    if pt == ct && !comma {
        ct
    } else {
        let mut r = pt;
        push_char(&mut r, ' ');
        r.append(ct.as_str());
        r
    }
}

/// Whether a text ends in `.`, `?` or `!`, ignoring trailing space.
fn ends_sentence_exec(t: &String) -> (r: bool)
    ensures
        r == ends_sentence(t@),
{
    let e = trim_end(t.as_str());
    let n = e.as_str().unicode_len();
    if n == 0 {
        return false;
    }
    let c = e.as_str().get_char(n - 1);
    c == '.' || c == '?' || c == '!'
}

fn copy_subtitle(s: &Subtitle) -> (r: Subtitle)
    ensures
        r@ == s@,
{
    Subtitle { start: s.start, end: s.end, text: String::from_str(s.text.as_str()) }
}

/// Resegments caption cues for display: short cues that do not end a
/// sentence are merged (one copy kept of a repeated text), cues longer than
/// `MAX_LEN` characters are split, and a final cue that outlasts the media
/// of `duration` milliseconds is shortened.
pub fn process_vtt(subtitles: Vec<Subtitle>, duration: u64) -> (r: Vec<Subtitle>)
    ensures
        cues(r@) == processed(cues(subtitles@), duration),
{
    let ghost v = cues(subtitles@);
    let mut processed_cues: Vec<Subtitle> = Vec::new();
    let mut prev: Option<Subtitle> = None;
    let mut i: usize = 0;
    while i < subtitles.len()
        invariant
            i <= subtitles@.len(),
            v == cues(subtitles@),
            (cues(processed_cues@), match prev { Some(p) => Some(p@), None => None::<Cue> }) == walk(v, i as int),
        decreases subtitles@.len() - i,
    {
        let current = copy_subtitle(&subtitles[i]);
        let ghost st = walk(v, i as int);
        assert(v[i as int] == current@);
        let mut merged = false;
        match prev {
            Some(p) => {
                let pl = p.text.as_str().unicode_len() as u128;
                let cl = current.text.as_str().unicode_len() as u128;
                if pl + cl < MERGE_LIMIT as u128 && !ends_sentence_exec(&p.text) {
                    let text = merge_text(&p.text, &current.text);
                    prev = Some(Subtitle { start: p.start, end: current.end, text });
                    merged = true;
                } else {
                    proof {
                        lemma_cues_push(processed_cues@, p);
                    }
                    processed_cues.push(p);
                    prev = None;
                }
            },
            None => {},
        }
        if !merged {
            if current.text.as_str().unicode_len() > MAX_LEN {
                let parts = split_long_subtitle(&current);
                let ghost before = processed_cues@;
                let mut k: usize = 0;
                while k < parts.len()
                    invariant
                        k <= parts@.len(),
                        cues(processed_cues@) == cues(before) + cues(parts@).subrange(0, k as int),
                    decreases parts@.len() - k,
                {
                    let c = copy_subtitle(&parts[k]);
                    proof {
                        lemma_cues_push(processed_cues@, c);
                    }
                    processed_cues.push(c);
                    k = k + 1;
                    assert(cues(processed_cues@) =~= cues(before) + cues(parts@).subrange(0, k as int));
                }
                assert(cues(parts@).subrange(0, k as int) =~= cues(parts@));
                prev = None;
            } else {
                prev = Some(current);
            }
        }
        i = i + 1;
    }
    match prev {
        Some(last) => {
            let mut last = last;
            if last.end > duration {
                let a: i128 = duration as i128 - 300;
                let b: i128 = last.start as i128 + 500;
                let m: i128 = if a > b { a } else { b };
                last.end = if m > u64::MAX as i128 { u64::MAX } else { m as u64 };
            }
            proof {
                lemma_cues_push(processed_cues@, last);
            }
            processed_cues.push(last);
        },
        None => {},
    }
    processed_cues
}

// ---------------------------------------------------------------- file form

/// Index of the first ` --> ` in `s`, or `-1`.
pub open spec fn arrow_at(s: Seq<char>, i: int) -> int
    decreases s.len() - i,
{
    if i < 0 || i >= s.len() {
        -1
    } else if crate::text::occurs_at(s, " --> "@, i) {
        i
    } else {
        arrow_at(s, i + 1)
    }
}

/// The two timestamps of a timing line.
pub open spec fn timing_of(line: Seq<char>) -> Option<(Seq<char>, Seq<char>)> {
    let i = arrow_at(line, 0);
    if i < 0 { None } else { Some((line.subrange(0, i), line.subrange(i + 5, line.len() as int))) }
}

/// Reading one line: the line after a timing line is the text of a cue.
pub open spec fn read_step(
    st: (Seq<Cue>, Option<(Seq<char>, Seq<char>)>),
    line: Seq<char>,
) -> (Seq<Cue>, Option<(Seq<char>, Seq<char>)>) {
    let out = match st.1 {
        Some(t) => st.0.push(Cue {
            start: timestamp_value(t.0) as u64,
            end: timestamp_value(t.1) as u64,
            text: trimmed(line),
        }),
        None => st.0,
    };
    (out, timing_of(line))
}

pub open spec fn read_lines(lines: Seq<Seq<char>>, n: int) -> (Seq<Cue>, Option<(Seq<char>, Seq<char>)>)
    decreases n,
{
    if n <= 0 || n > lines.len() { (Seq::empty(), None) } else { read_step(read_lines(lines, n - 1), lines[n - 1]) }
}

/// The cues of a caption file, given as its lines.
pub open spec fn parsed_cues(lines: Seq<Seq<char>>) -> Seq<Cue> {
    read_lines(lines, lines.len() as int).0
}

proof fn lemma_arrow_at(s: Seq<char>, i: int)
    requires
        0 <= i <= s.len(),
    ensures
        arrow_at(s, i) == -1 || (i <= arrow_at(s, i) && arrow_at(s, i) + 5 <= s.len()),
    decreases s.len() - i,
{
    reveal_strlit(" --> ");
    if i < s.len() && !crate::text::occurs_at(s, " --> "@, i) {
        lemma_arrow_at(s, i + 1);
    }
}

fn timing_exec(line: &str) -> (r: Option<(String, String)>)
    ensures
        match r {
            Some((a, b)) => timing_of(line@) == Some((a@, b@)),
            None => timing_of(line@) is None,
        },
{
    let n = line.unicode_len();
    let mut i: usize = 0;
    while i < n
        invariant
            n == line@.len(),
            i <= n,
            arrow_at(line@, 0) == arrow_at(line@, i as int),
        decreases n - i,
    {
        if crate::text::occurs_at_exec(line, " --> ", i) {
            proof {
                reveal_strlit(" --> ");
            }
            return Some((slice_text(line, 0, i), slice_text(line, i + 5, n)));
        }
        i = i + 1;
    }
    None
}

/// Reads the cues of a caption file from its lines: each line that follows
/// a `start --> end` timing line is the text of a cue.
pub fn parse_vtt(lines: &Vec<String>) -> (r: Vec<Subtitle>)
    ensures
        cues(r@) == parsed_cues(texts(lines@)),
{
    let ghost ls = texts(lines@);
    let mut out: Vec<Subtitle> = Vec::new();
    let mut pending: Option<(String, String)> = None;
    let mut i: usize = 0;
    while i < lines.len()
        invariant
            i <= lines@.len(),
            ls == texts(lines@),
            (cues(out@), match pending { Some(t) => Some((t.0@, t.1@)), None => None::<(Seq<char>, Seq<char>)> })
                == read_lines(ls, i as int),
        decreases lines@.len() - i,
    {
        let line = lines[i].as_str();
        match pending {
            Some((s, e)) => {
                let cue = Subtitle::new(s.as_str(), e.as_str(), line);
                proof {
                    lemma_cues_push(out@, cue);
                }
                out.push(cue);
            },
            None => {},
        }
        pending = timing_exec(line);
        i = i + 1;
    }
    out
}

/// The text form of one cue: its timing line and its text.
pub open spec fn cue_text(c: Cue) -> Seq<char> {
    timestamp_text(c.start as nat) + " --> "@ + timestamp_text(c.end as nat) + seq!['\n'] + c.text
}

/// The cues from `k` on, each followed by a line break, and separated by
/// an empty line.
pub open spec fn cues_text(v: Seq<Cue>, k: int) -> Seq<char>
    decreases v.len() - k,
{
    if k < 0 || k >= v.len() {
        Seq::empty()
    } else {
        cue_text(v[k]) + seq!['\n'] + (if k + 1 < v.len() { seq!['\n'] } else { Seq::empty() }) + cues_text(v, k + 1)
    }
}

/// A caption file: the `WEBVTT` header, an empty line, then the cues.
pub open spec fn vtt_text(v: Seq<Cue>) -> Seq<char> {
    "WEBVTT\n\n"@ + cues_text(v, 0)
}

impl Subtitle {
    /// The cue as it stands in a caption file: its timing line and its text.
    pub fn to_string(&self) -> (r: String)
        ensures
            r@ == cue_text(self@),
    {
        let mut r = format_timestamp(self.start);
        r.append(" --> ");
        r.append(format_timestamp(self.end).as_str());
        push_char(&mut r, '\n');
        r.append(self.text.as_str());
        r
    }
}

/// Writes cues in the caption file format.
pub fn render_vtt(subtitles: &Vec<Subtitle>) -> (r: String)
    ensures
        r@ == vtt_text(cues(subtitles@)),
{
    let ghost v = cues(subtitles@);
    let mut body = String::new();
    let n = subtitles.len();
    let mut k: usize = n;
    // built from the last cue backwards
    while k > 0
        invariant
            k <= n,
            n == subtitles@.len(),
            v == cues(subtitles@),
            body@ == cues_text(v, k as int),
        decreases k,
    {
        k = k - 1;
        let sub = &subtitles[k];
        let mut piece = sub.to_string();
        push_char(&mut piece, '\n');
        if k + 1 < n {
            push_char(&mut piece, '\n');
        }
        piece.append(body.as_str());
        assert(piece@ =~= cues_text(v, k as int));
        body = piece;
    }
    let mut r = String::from_str("WEBVTT\n\n");
    r.append(body.as_str());
    r
}

} // verus!
