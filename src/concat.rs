//! The concat node of a filter graph: `;` then one or more input pad labels,
//! `concat=n=N:v=V:a=A`, then one or more output pad labels, where a label is
//! `[` followed by lower-case letters, digits or `_` and a closing `]`.
//! A concat node may only name pads that the text declares before it, so the
//! first such node is moved to the end of the graph text.
use vstd::prelude::*;
use crate::text::{contains_text, occurs_at, push_char};

verus! {

/// Whether `c` is a decimal digit of any script (Unicode general category
/// Nd, as of Unicode 16), which is what the graph's numbers may be written in.
pub open spec fn is_decimal_digit(c: char) -> bool {
    ('\u{30}' <= c && c <= '\u{39}')
    || ('\u{660}' <= c && c <= '\u{669}')
    || ('\u{6F0}' <= c && c <= '\u{6F9}')
    || ('\u{7C0}' <= c && c <= '\u{7C9}')
    || ('\u{966}' <= c && c <= '\u{96F}')
    || ('\u{9E6}' <= c && c <= '\u{9EF}')
    || ('\u{A66}' <= c && c <= '\u{A6F}')
    || ('\u{AE6}' <= c && c <= '\u{AEF}')
    || ('\u{B66}' <= c && c <= '\u{B6F}')
    || ('\u{BE6}' <= c && c <= '\u{BEF}')
    || ('\u{C66}' <= c && c <= '\u{C6F}')
    || ('\u{CE6}' <= c && c <= '\u{CEF}')
    || ('\u{D66}' <= c && c <= '\u{D6F}')
    || ('\u{DE6}' <= c && c <= '\u{DEF}')
    || ('\u{E50}' <= c && c <= '\u{E59}')
    || ('\u{ED0}' <= c && c <= '\u{ED9}')
    || ('\u{F20}' <= c && c <= '\u{F29}')
    || ('\u{1040}' <= c && c <= '\u{1049}')
    || ('\u{1090}' <= c && c <= '\u{1099}')
    || ('\u{17E0}' <= c && c <= '\u{17E9}')
    || ('\u{1810}' <= c && c <= '\u{1819}')
    || ('\u{1946}' <= c && c <= '\u{194F}')
    || ('\u{19D0}' <= c && c <= '\u{19D9}')
    || ('\u{1A80}' <= c && c <= '\u{1A89}')
    || ('\u{1A90}' <= c && c <= '\u{1A99}')
    || ('\u{1B50}' <= c && c <= '\u{1B59}')
    || ('\u{1BB0}' <= c && c <= '\u{1BB9}')
    || ('\u{1C40}' <= c && c <= '\u{1C49}')
    || ('\u{1C50}' <= c && c <= '\u{1C59}')
    || ('\u{A620}' <= c && c <= '\u{A629}')
    || ('\u{A8D0}' <= c && c <= '\u{A8D9}')
    || ('\u{A900}' <= c && c <= '\u{A909}')
    || ('\u{A9D0}' <= c && c <= '\u{A9D9}')
    || ('\u{A9F0}' <= c && c <= '\u{A9F9}')
    || ('\u{AA50}' <= c && c <= '\u{AA59}')
    || ('\u{ABF0}' <= c && c <= '\u{ABF9}')
    || ('\u{FF10}' <= c && c <= '\u{FF19}')
    || ('\u{104A0}' <= c && c <= '\u{104A9}')
    || ('\u{10D30}' <= c && c <= '\u{10D39}')
    || ('\u{10D40}' <= c && c <= '\u{10D49}')
    || ('\u{11066}' <= c && c <= '\u{1106F}')
    || ('\u{110F0}' <= c && c <= '\u{110F9}')
    || ('\u{11136}' <= c && c <= '\u{1113F}')
    || ('\u{111D0}' <= c && c <= '\u{111D9}')
    || ('\u{112F0}' <= c && c <= '\u{112F9}')
    || ('\u{11450}' <= c && c <= '\u{11459}')
    || ('\u{114D0}' <= c && c <= '\u{114D9}')
    || ('\u{11650}' <= c && c <= '\u{11659}')
    || ('\u{116C0}' <= c && c <= '\u{116C9}')
    || ('\u{116D0}' <= c && c <= '\u{116E3}')
    || ('\u{11730}' <= c && c <= '\u{11739}')
    || ('\u{118E0}' <= c && c <= '\u{118E9}')
    || ('\u{11950}' <= c && c <= '\u{11959}')
    || ('\u{11BF0}' <= c && c <= '\u{11BF9}')
    || ('\u{11C50}' <= c && c <= '\u{11C59}')
    || ('\u{11D50}' <= c && c <= '\u{11D59}')
    || ('\u{11DA0}' <= c && c <= '\u{11DA9}')
    || ('\u{11F50}' <= c && c <= '\u{11F59}')
    || ('\u{16130}' <= c && c <= '\u{16139}')
    || ('\u{16A60}' <= c && c <= '\u{16A69}')
    || ('\u{16AC0}' <= c && c <= '\u{16AC9}')
    || ('\u{16B50}' <= c && c <= '\u{16B59}')
    || ('\u{16D70}' <= c && c <= '\u{16D79}')
    || ('\u{1CCF0}' <= c && c <= '\u{1CCF9}')
    || ('\u{1D7CE}' <= c && c <= '\u{1D7FF}')
    || ('\u{1E140}' <= c && c <= '\u{1E149}')
    || ('\u{1E2F0}' <= c && c <= '\u{1E2F9}')
    || ('\u{1E4F0}' <= c && c <= '\u{1E4F9}')
    || ('\u{1E5F1}' <= c && c <= '\u{1E5FA}')
    || ('\u{1E950}' <= c && c <= '\u{1E959}')
    || ('\u{1FBF0}' <= c && c <= '\u{1FBF9}')
}

/// Whether `c` is a decimal digit of any script.
pub fn decimal_digit(c: char) -> (r: bool)
    ensures
        r == is_decimal_digit(c),
{
    ('\u{30}' <= c && c <= '\u{39}')
    || ('\u{660}' <= c && c <= '\u{669}')
    || ('\u{6F0}' <= c && c <= '\u{6F9}')
    || ('\u{7C0}' <= c && c <= '\u{7C9}')
    || ('\u{966}' <= c && c <= '\u{96F}')
    || ('\u{9E6}' <= c && c <= '\u{9EF}')
    || ('\u{A66}' <= c && c <= '\u{A6F}')
    || ('\u{AE6}' <= c && c <= '\u{AEF}')
    || ('\u{B66}' <= c && c <= '\u{B6F}')
    || ('\u{BE6}' <= c && c <= '\u{BEF}')
    || ('\u{C66}' <= c && c <= '\u{C6F}')
    || ('\u{CE6}' <= c && c <= '\u{CEF}')
    || ('\u{D66}' <= c && c <= '\u{D6F}')
    || ('\u{DE6}' <= c && c <= '\u{DEF}')
    || ('\u{E50}' <= c && c <= '\u{E59}')
    || ('\u{ED0}' <= c && c <= '\u{ED9}')
    || ('\u{F20}' <= c && c <= '\u{F29}')
    || ('\u{1040}' <= c && c <= '\u{1049}')
    || ('\u{1090}' <= c && c <= '\u{1099}')
    || ('\u{17E0}' <= c && c <= '\u{17E9}')
    || ('\u{1810}' <= c && c <= '\u{1819}')
    || ('\u{1946}' <= c && c <= '\u{194F}')
    || ('\u{19D0}' <= c && c <= '\u{19D9}')
    || ('\u{1A80}' <= c && c <= '\u{1A89}')
    || ('\u{1A90}' <= c && c <= '\u{1A99}')
    || ('\u{1B50}' <= c && c <= '\u{1B59}')
    || ('\u{1BB0}' <= c && c <= '\u{1BB9}')
    || ('\u{1C40}' <= c && c <= '\u{1C49}')
    || ('\u{1C50}' <= c && c <= '\u{1C59}')
    || ('\u{A620}' <= c && c <= '\u{A629}')
    || ('\u{A8D0}' <= c && c <= '\u{A8D9}')
    || ('\u{A900}' <= c && c <= '\u{A909}')
    || ('\u{A9D0}' <= c && c <= '\u{A9D9}')
    || ('\u{A9F0}' <= c && c <= '\u{A9F9}')
    || ('\u{AA50}' <= c && c <= '\u{AA59}')
    || ('\u{ABF0}' <= c && c <= '\u{ABF9}')
    || ('\u{FF10}' <= c && c <= '\u{FF19}')
    || ('\u{104A0}' <= c && c <= '\u{104A9}')
    || ('\u{10D30}' <= c && c <= '\u{10D39}')
    || ('\u{10D40}' <= c && c <= '\u{10D49}')
    || ('\u{11066}' <= c && c <= '\u{1106F}')
    || ('\u{110F0}' <= c && c <= '\u{110F9}')
    || ('\u{11136}' <= c && c <= '\u{1113F}')
    || ('\u{111D0}' <= c && c <= '\u{111D9}')
    || ('\u{112F0}' <= c && c <= '\u{112F9}')
    || ('\u{11450}' <= c && c <= '\u{11459}')
    || ('\u{114D0}' <= c && c <= '\u{114D9}')
    || ('\u{11650}' <= c && c <= '\u{11659}')
    || ('\u{116C0}' <= c && c <= '\u{116C9}')
    || ('\u{116D0}' <= c && c <= '\u{116E3}')
    || ('\u{11730}' <= c && c <= '\u{11739}')
    || ('\u{118E0}' <= c && c <= '\u{118E9}')
    || ('\u{11950}' <= c && c <= '\u{11959}')
    || ('\u{11BF0}' <= c && c <= '\u{11BF9}')
    || ('\u{11C50}' <= c && c <= '\u{11C59}')
    || ('\u{11D50}' <= c && c <= '\u{11D59}')
    || ('\u{11DA0}' <= c && c <= '\u{11DA9}')
    || ('\u{11F50}' <= c && c <= '\u{11F59}')
    || ('\u{16130}' <= c && c <= '\u{16139}')
    || ('\u{16A60}' <= c && c <= '\u{16A69}')
    || ('\u{16AC0}' <= c && c <= '\u{16AC9}')
    || ('\u{16B50}' <= c && c <= '\u{16B59}')
    || ('\u{16D70}' <= c && c <= '\u{16D79}')
    || ('\u{1CCF0}' <= c && c <= '\u{1CCF9}')
    || ('\u{1D7CE}' <= c && c <= '\u{1D7FF}')
    || ('\u{1E140}' <= c && c <= '\u{1E149}')
    || ('\u{1E2F0}' <= c && c <= '\u{1E2F9}')
    || ('\u{1E4F0}' <= c && c <= '\u{1E4F9}')
    || ('\u{1E5F1}' <= c && c <= '\u{1E5FA}')
    || ('\u{1E950}' <= c && c <= '\u{1E959}')
    || ('\u{1FBF0}' <= c && c <= '\u{1FBF9}')
}

/// Characters allowed in a pad label name.
pub open spec fn is_name_char(c: char) -> bool {
    ('a' <= c && c <= 'z') || ('0' <= c && c <= '9') || c == '_'
}

/// End of the run of name characters starting at `i`.
pub open spec fn name_run(s: Seq<char>, i: int) -> int
    decreases s.len() - i,
{
    if i < 0 || i >= s.len() || !is_name_char(s[i]) { i } else { name_run(s, i + 1) }
}

/// End of the run of decimal digits (of any script) starting at `i`.
pub open spec fn digit_run(s: Seq<char>, i: int) -> int
    decreases s.len() - i,
{
    if i < 0 || i >= s.len() || !is_decimal_digit(s[i]) { i } else { digit_run(s, i + 1) }
}

/// End of the pad label starting at `i`, or `-1` when none starts there.
pub open spec fn label_at(s: Seq<char>, i: int) -> int {
    let k = name_run(s, i + 1);
    if 0 <= i < s.len() && s[i] == '[' && k > i + 1 && k < s.len() && s[k] == ']' {
        k + 1
    } else {
        -1
    }
}

/// End of the longest run of pad labels starting at `i`.
pub open spec fn labels_end(s: Seq<char>, i: int) -> int
    decreases s.len() - i,
{
    if 0 <= i && i < label_at(s, i) <= s.len() { labels_end(s, label_at(s, i)) } else { i }
}

/// End of the concat node that starts at `i`, or `-1` when none starts there.
pub open spec fn concat_end(s: Seq<char>, i: int) -> int {
    let a = labels_end(s, i + 1);
    let d1 = digit_run(s, a + 9);
    let d2 = digit_run(s, d1 + 3);
    let d3 = digit_run(s, d2 + 3);
    let e = labels_end(s, d3);
    if 0 <= i < s.len() && s[i] == ';' && a > i + 1 && occurs_at(s, "concat=n="@, a)
        && d1 > a + 9 && occurs_at(s, ":v="@, d1) && d2 > d1 + 3 && occurs_at(s, ":a="@, d2)
        && d3 > d2 + 3 && e > d3 {
        e
    } else {
        -1
    }
}

/// Start of the first concat node at or after `i`, or `-1`.
pub open spec fn first_concat(s: Seq<char>, i: int) -> int
    decreases s.len() - i,
{
    if i < 0 || i >= s.len() {
        -1
    } else if concat_end(s, i) >= 0 {
        i
    } else {
        first_concat(s, i + 1)
    }
}

/// The text with its first concat node moved to the end.
pub open spec fn relocate_concat(s: Seq<char>) -> Seq<char> {
    let a = first_concat(s, 0);
    if a < 0 {
        s
    } else {
        let e = concat_end(s, a);
        s.subrange(0, a) + s.subrange(e, s.len() as int) + s.subrange(a, e)
    }
}

pub proof fn lemma_name_run(s: Seq<char>, i: int)
    requires
        0 <= i <= s.len(),
    ensures
        i <= name_run(s, i) <= s.len(),
        forall|k: int| i <= k < name_run(s, i) ==> is_name_char(#[trigger] s[k]),
        name_run(s, i) < s.len() ==> !is_name_char(s[name_run(s, i)]),
    decreases s.len() - i,
{
    if i < s.len() && is_name_char(s[i]) {
        lemma_name_run(s, i + 1);
    }
}

pub proof fn lemma_digit_run(s: Seq<char>, i: int)
    requires
        0 <= i <= s.len(),
    ensures
        i <= digit_run(s, i) <= s.len(),
        forall|k: int| i <= k < digit_run(s, i) ==> is_decimal_digit(#[trigger] s[k]),
        digit_run(s, i) < s.len() ==> !is_decimal_digit(s[digit_run(s, i)]),
    decreases s.len() - i,
{
    if i < s.len() && is_decimal_digit(s[i]) {
        lemma_digit_run(s, i + 1);
    }
}

pub proof fn lemma_label_at(s: Seq<char>, i: int)
    requires
        0 <= i <= s.len(),
    ensures
        label_at(s, i) >= 0 ==> i + 3 <= label_at(s, i) <= s.len(),
        label_at(s, i) < 0 || label_at(s, i) > i,
{
    if i + 1 <= s.len() {
        lemma_name_run(s, i + 1);
    }
}

pub proof fn lemma_labels_end(s: Seq<char>, i: int)
    requires
        0 <= i <= s.len(),
    ensures
        i <= labels_end(s, i) <= s.len(),
    decreases s.len() - i,
{
    lemma_label_at(s, i);
    if i < label_at(s, i) <= s.len() {
        lemma_labels_end(s, label_at(s, i));
    }
}

/// `t` holds `s[lo..hi]` shifted by `d`.
pub open spec fn agree(s: Seq<char>, t: Seq<char>, d: int, lo: int, hi: int) -> bool {
    &&& 0 <= lo <= hi <= s.len()
    &&& 0 <= lo + d
    &&& hi + d <= t.len()
    &&& forall|k: int| lo <= k < hi ==> #[trigger] t[k + d] == s[k]
}

proof fn lemma_name_run_shift(s: Seq<char>, t: Seq<char>, d: int, lo: int, hi: int, i: int)
    requires
        agree(s, t, d, lo, hi),
        lo <= i <= s.len(),
        name_run(s, i) < hi,
    ensures
        name_run(t, i + d) == name_run(s, i) + d,
    decreases s.len() - i,
{
    lemma_name_run(s, i);
    if i < hi {
        assert(t[i + d] == s[i]);
    }
    if i < s.len() && is_name_char(s[i]) {
        lemma_name_run_shift(s, t, d, lo, hi, i + 1);
    }
}

proof fn lemma_digit_run_shift(s: Seq<char>, t: Seq<char>, d: int, lo: int, hi: int, i: int)
    requires
        agree(s, t, d, lo, hi),
        lo <= i <= s.len(),
        digit_run(s, i) < hi,
    ensures
        digit_run(t, i + d) == digit_run(s, i) + d,
    decreases s.len() - i,
{
    lemma_digit_run(s, i);
    if i < hi {
        assert(t[i + d] == s[i]);
    }
    if i < s.len() && is_decimal_digit(s[i]) {
        lemma_digit_run_shift(s, t, d, lo, hi, i + 1);
    }
}

proof fn lemma_label_shift(s: Seq<char>, t: Seq<char>, d: int, lo: int, hi: int, i: int)
    requires
        agree(s, t, d, lo, hi),
        lo <= i < hi,
        label_at(s, i) >= 0,
        label_at(s, i) <= hi,
    ensures
        label_at(t, i + d) == label_at(s, i) + d,
{
    let k = name_run(s, i + 1);
    lemma_name_run(s, i + 1);
    lemma_name_run_shift(s, t, d, lo, hi, i + 1);
    assert(t[i + d] == s[i]);
    assert(t[k + d] == s[k]);
}

proof fn lemma_labels_end_shift(s: Seq<char>, t: Seq<char>, d: int, lo: int, hi: int, i: int)
    requires
        agree(s, t, d, lo, hi),
        lo <= i <= hi,
        labels_end(s, i) <= hi,
        (labels_end(s, i) < hi && s[labels_end(s, i)] != '[') || (labels_end(s, i) == hi && hi + d == t.len()),
    ensures
        labels_end(t, i + d) == labels_end(s, i) + d,
    decreases s.len() - i,
{
    lemma_label_at(s, i);
    let l = label_at(s, i);
    if i < l <= s.len() {
        lemma_labels_end(s, l);
        lemma_label_shift(s, t, d, lo, hi, i);
        lemma_labels_end_shift(s, t, d, lo, hi, l);
    } else {
        if i < hi {
            assert(t[i + d] == s[i]);
        }
    }
}

/// Pad labels hold no `;`.
proof fn lemma_labels_no_semicolon(s: Seq<char>, i: int, k: int)
    requires
        0 <= i <= k < labels_end(s, i),
        labels_end(s, i) <= s.len(),
    ensures
        s[k] != ';',
    decreases s.len() - i,
{
    lemma_label_at(s, i);
    let l = label_at(s, i);
    if i < l <= s.len() {
        if k < l {
            lemma_name_run(s, i + 1);
        } else {
            lemma_labels_no_semicolon(s, l, k);
        }
    }
}

proof fn lemma_concat_shift(s: Seq<char>, t: Seq<char>, d: int, i: int)
    requires
        concat_end(s, i) >= 0,
        agree(s, t, d, i, concat_end(s, i)),
        concat_end(s, i) + d == t.len(),
    ensures
        concat_end(t, i + d) == concat_end(s, i) + d,
{
    reveal_strlit("concat=n=");
    reveal_strlit(":v=");
    reveal_strlit(":a=");
    let e = concat_end(s, i);
    let a = labels_end(s, i + 1);
    lemma_labels_end(s, i + 1);
    let d1 = digit_run(s, a + 9);
    lemma_digit_run(s, a + 9);
    let d2 = digit_run(s, d1 + 3);
    lemma_digit_run(s, d1 + 3);
    let d3 = digit_run(s, d2 + 3);
    lemma_digit_run(s, d2 + 3);
    lemma_labels_end(s, d3);
    assert(s.subrange(a, a + 9)[0] == 'c');
    lemma_labels_end_shift(s, t, d, i, e, i + 1);
    lemma_digit_run_shift(s, t, d, i, e, a + 9);
    lemma_digit_run_shift(s, t, d, i, e, d1 + 3);
    lemma_digit_run_shift(s, t, d, i, e, d2 + 3);
    lemma_labels_end_shift(s, t, d, i, e, d3);
    assert(t[i + d] == s[i]);
    assert(t.subrange(a + d, a + d + 9) =~= s.subrange(a, a + 9)) by {
        assert forall|k: int| 0 <= k < 9 implies #[trigger] t.subrange(a + d, a + d + 9)[k] == s.subrange(a, a + 9)[k] by {
            assert(t[a + k + d] == s[a + k]);
        }
    }
    assert(t.subrange(d1 + d, d1 + d + 3) =~= s.subrange(d1, d1 + 3)) by {
        assert forall|k: int| 0 <= k < 3 implies #[trigger] t.subrange(d1 + d, d1 + d + 3)[k] == s.subrange(d1, d1 + 3)[k] by {
            assert(t[d1 + k + d] == s[d1 + k]);
        }
    }
    assert(t.subrange(d2 + d, d2 + d + 3) =~= s.subrange(d2, d2 + 3)) by {
        assert forall|k: int| 0 <= k < 3 implies #[trigger] t.subrange(d2 + d, d2 + d + 3)[k] == s.subrange(d2, d2 + 3)[k] by {
            assert(t[d2 + k + d] == s[d2 + k]);
        }
    }
}

proof fn lemma_first_concat_is(t: Seq<char>, x: int, j: int)
    requires
        0 <= j <= x < t.len(),
        concat_end(t, x) >= 0,
        forall|k: int| j <= k < x ==> concat_end(t, k) < 0,
    ensures
        first_concat(t, j) == x,
    decreases x - j,
{
    if j < x {
        lemma_first_concat_is(t, x, j + 1);
    }
}

/// Moving the first concat node to the end a second time changes nothing,
/// provided the rest of the graph holds no other `concat=`.
pub proof fn lemma_relocate_idempotent(s: Seq<char>)
    requires
        first_concat(s, 0) >= 0 ==> !contains_text(
            s.subrange(0, first_concat(s, 0)) + s.subrange(concat_end(s, first_concat(s, 0)), s.len() as int),
            "concat="@,
        ),
    ensures
        relocate_concat(relocate_concat(s)) == relocate_concat(s),
{
    let a = first_concat(s, 0);
    if a >= 0 {
        reveal_strlit("concat=n=");
        reveal_strlit("concat=");
        lemma_first_concat_bounds(s, 0);
        let e = concat_end(s, a);
        lemma_concat_end_bounds(s, a);
        let rest = s.subrange(0, a) + s.subrange(e, s.len() as int);
        let m = s.subrange(a, e);
        let t = rest + m;
        let r = rest.len() as int;
        assert(relocate_concat(s) == t);
        let d = r - a;
        assert(agree(s, t, d, a, e)) by {
            assert forall|k: int| a <= k < e implies #[trigger] t[k + d] == s[k] by {
                assert(t[k + d] == m[k - a]);
            }
        }
        lemma_concat_shift(s, t, d, a);
        assert(concat_end(t, r) == t.len());
        assert(t[r] == ';');
        assert forall|j: int| 0 <= j < r implies concat_end(t, j) < 0 by {
            if concat_end(t, j) >= 0 {
                let x = labels_end(t, j + 1);
                lemma_labels_end(t, j + 1);
                assert(occurs_at(t, "concat=n="@, x));
                if x > r {
                    lemma_labels_no_semicolon(t, j + 1, r);
                }
                assert(x <= r);
                if x + 7 > r {
                    assert(t[r] == t.subrange(x, x + 9)[r - x]);
                    assert(false);
                }
                assert(rest.subrange(x, x + 7) =~= "concat="@) by {
                    assert forall|k: int| 0 <= k < 7 implies #[trigger] rest.subrange(x, x + 7)[k] == "concat="@[k] by {
                        assert(rest[x + k] == t[x + k]);
                        assert(t[x + k] == t.subrange(x, x + 9)[k]);
                    }
                }
                assert(occurs_at(rest, "concat="@, x));
                assert(contains_text(rest, "concat="@));
            }
        }
        lemma_first_concat_is(t, r, 0);
        assert(t.subrange(0, r) + t.subrange(t.len() as int, t.len() as int) + t.subrange(r, t.len() as int) =~= t);
    }
}

proof fn lemma_first_concat_bounds(s: Seq<char>, i: int)
    requires
        0 <= i,
    ensures
        first_concat(s, i) >= 0 ==> i <= first_concat(s, i) < s.len() && concat_end(s, first_concat(s, i)) >= 0,
    decreases s.len() - i,
{
    if i < s.len() && concat_end(s, i) < 0 {
        lemma_first_concat_bounds(s, i + 1);
    }
}

proof fn lemma_concat_end_bounds(s: Seq<char>, i: int)
    requires
        0 <= i < s.len(),
        concat_end(s, i) >= 0,
    ensures
        i < concat_end(s, i) <= s.len(),
{
    let a = labels_end(s, i + 1);
    lemma_labels_end(s, i + 1);
    let d1 = digit_run(s, a + 9);
    lemma_digit_run(s, a + 9);
    let d2 = digit_run(s, d1 + 3);
    lemma_digit_run(s, d1 + 3);
    let d3 = digit_run(s, d2 + 3);
    lemma_digit_run(s, d2 + 3);
    lemma_labels_end(s, d3);
}

/// The characters of `s`, one by one.
pub fn chars_of(s: &str) -> (r: Vec<char>)
    ensures
        r@ == s@,
{
    let n = s.unicode_len();
    let mut r: Vec<char> = Vec::new();
    let mut i: usize = 0;
    while i < n
        invariant
            n == s@.len(),
            i <= n,
            r@ == s@.subrange(0, i as int),
        decreases n - i,
    {
        r.push(s.get_char(i));
        i = i + 1;
        assert(r@ =~= s@.subrange(0, i as int));
    }
    assert(r@ =~= s@);
    r
}

/// Copies `s[from..to]` onto the end of `out`.
pub fn push_range(out: &mut String, s: &Vec<char>, from: usize, to: usize)
    requires
        from <= to <= s@.len(),
    ensures
        final(out)@ == old(out)@ + s@.subrange(from as int, to as int),
{
    let ghost start = out@;
    let mut i: usize = from;
    while i < to
        invariant
            from <= i <= to,
            to <= s@.len(),
            out@ == start + s@.subrange(from as int, i as int),
        decreases to - i,
    {
        push_char(out, s[i]);
        i = i + 1;
        assert(out@ =~= start + s@.subrange(from as int, i as int));
    }
}

fn is_name_char_exec(c: char) -> (r: bool)
    ensures
        r == is_name_char(c),
{
    ('a' <= c && c <= 'z') || ('0' <= c && c <= '9') || c == '_'
}

fn name_run_exec(s: &Vec<char>, i: usize) -> (r: usize)
    requires
        i <= s@.len(),
    ensures
        r as int == name_run(s@, i as int),
{
    let mut k = i;
    while k < s.len() && is_name_char_exec(s[k])
        invariant
            i <= k <= s@.len(),
            name_run(s@, i as int) == name_run(s@, k as int),
        decreases s@.len() - k,
    {
        k = k + 1;
    }
    k
}

fn digit_run_exec(s: &Vec<char>, i: usize) -> (r: usize)
    requires
        i <= s@.len(),
    ensures
        r as int == digit_run(s@, i as int),
{
    let mut k = i;
    while k < s.len() && decimal_digit(s[k])
        invariant
            i <= k <= s@.len(),
            digit_run(s@, i as int) == digit_run(s@, k as int),
        decreases s@.len() - k,
    {
        k = k + 1;
    }
    k
}

fn label_at_exec(s: &Vec<char>, i: usize) -> (r: Option<usize>)
    requires
        i <= s@.len(),
    ensures
        match r {
            Some(e) => e as int == label_at(s@, i as int) && label_at(s@, i as int) >= 0,
            None => label_at(s@, i as int) < 0,
        },
{
    if i < s.len() && s[i] == '[' {
        let k = name_run_exec(s, i + 1);
        if k > i + 1 && k < s.len() && s[k] == ']' {
            return Some(k + 1);
        }
    }
    None
}

fn labels_end_exec(s: &Vec<char>, i: usize) -> (r: usize)
    requires
        i <= s@.len(),
    ensures
        r as int == labels_end(s@, i as int),
{
    let mut k = i;
    loop
        invariant
            i <= k <= s@.len(),
            labels_end(s@, i as int) == labels_end(s@, k as int),
        decreases s@.len() - k,
    {
        proof {
            lemma_label_at(s@, k as int);
        }
        match label_at_exec(s, k) {
            Some(e) => {
                k = e;
            },
            None => {
                return k;
            },
        }
    }
}

/// Whether `p` occurs in `s` at index `i`.
pub fn occurs_at_chars(s: &Vec<char>, p: &str, i: usize) -> (r: bool)
    ensures
        r == occurs_at(s@, p@, i as int),
{
    let m = p.unicode_len();
    if i > s.len() || m > s.len() - i {
        return false;
    }
    let mut k: usize = 0;
    while k < m
        invariant
            i + m <= s@.len(),
            s@.len() <= usize::MAX,
            m == p@.len(),
            k <= m,
            forall|j: int| 0 <= j < k ==> s@[i + j] == p@[j],
        decreases m - k,
    {
        if s[i + k] != p.get_char(k) {
            assert(s@.subrange(i as int, i + m)[k as int] != p@[k as int]);
            return false;
        }
        k = k + 1;
    }
    assert(s@.subrange(i as int, i + m) =~= p@);
    true
}


fn concat_end_exec(s: &Vec<char>, i: usize) -> (r: Option<usize>)
    requires
        i < s@.len(),
    ensures
        match r {
            Some(e) => e as int == concat_end(s@, i as int) && concat_end(s@, i as int) >= 0,
            None => concat_end(s@, i as int) < 0,
        },
{
    proof {
        reveal_strlit("concat=n=");
        reveal_strlit(":v=");
        reveal_strlit(":a=");
    }
    let n = s.len();
    if s[i] != ';' {
        return None;
    }
    let a = labels_end_exec(s, i + 1);
    proof {
        lemma_labels_end(s@, i + 1);
    }
    if a <= i + 1 || !occurs_at_chars(s, "concat=n=", a) {
        return None;
    }
    let d1 = digit_run_exec(s, a + 9);
    proof {
        lemma_digit_run(s@, a + 9);
    }
    if d1 <= a + 9 || !occurs_at_chars(s, ":v=", d1) {
        return None;
    }
    let d2 = digit_run_exec(s, d1 + 3);
    proof {
        lemma_digit_run(s@, d1 + 3);
    }
    if d2 <= d1 + 3 || !occurs_at_chars(s, ":a=", d2) {
        return None;
    }
    let d3 = digit_run_exec(s, d2 + 3);
    proof {
        lemma_digit_run(s@, d2 + 3);
    }
    if d3 <= d2 + 3 {
        return None;
    }
    let e = labels_end_exec(s, d3);
    if e <= d3 {
        return None;
    }
    Some(e)
}

/// The first concat node of `s`, as its start and end.
fn find_concat(s: &Vec<char>) -> (r: Option<(usize, usize)>)
    ensures
        match r {
            Some((a, e)) => a as int == first_concat(s@, 0) && e as int == concat_end(s@, a as int)
                && a >= 0 && concat_end(s@, a as int) >= 0,
            None => first_concat(s@, 0) < 0,
        },
{
    let mut i: usize = 0;
    while i < s.len()
        invariant
            i <= s@.len(),
            first_concat(s@, 0) == first_concat(s@, i as int),
        decreases s@.len() - i,
    {
        match concat_end_exec(s, i) {
            Some(e) => {
                return Some((i, e));
            },
            None => {},
        }
        i = i + 1;
    }
    None
}

/// Moves the first concat node of `input` to its end.
pub fn move_concat(input: &str) -> (r: String)
    ensures
        r@ == relocate_concat(input@),
{
    let s = chars_of(input);
    match find_concat(&s) {
        None => String::from_str(input),
        Some((a, e)) => {
            proof {
                lemma_labels_end(s@, a as int + 1);
                assert(a < e <= s@.len()) by {
                    let x = labels_end(s@, a + 1);
                    let d1 = digit_run(s@, x + 9);
                    lemma_digit_run(s@, x + 9);
                    let d2 = digit_run(s@, d1 + 3);
                    lemma_digit_run(s@, d1 + 3);
                    let d3 = digit_run(s@, d2 + 3);
                    lemma_digit_run(s@, d2 + 3);
                    lemma_labels_end(s@, d3);
                }
            }
            let mut r = String::new();
            push_range(&mut r, &s, 0, a);
            push_range(&mut r, &s, e, s.len());
            push_range(&mut r, &s, a, e);
            assert(r@ =~= relocate_concat(input@));
            r
        },
    }
}

} // verus!
