//! Character-level helpers shared by the graph builder, the caption tools and
//! the report parsers.
use vstd::prelude::*;
use vstd::string::*;

verus! {

/// The decimal digit for `d` (`d < 10`).
pub open spec fn digit_of(d: nat) -> char {
    if d == 0 { '0' }
    else if d == 1 { '1' }
    else if d == 2 { '2' }
    else if d == 3 { '3' }
    else if d == 4 { '4' }
    else if d == 5 { '5' }
    else if d == 6 { '6' }
    else if d == 7 { '7' }
    else if d == 8 { '8' }
    else { '9' }
}

/// Decimal notation of a natural number, without leading zeros.
pub open spec fn nat_text(n: nat) -> Seq<char>
    decreases n,
{
    if n < 10 {
        seq![digit_of(n)]
    } else {
        nat_text(n / 10).push(digit_of(n % 10))
    }
}

/// Decimal notation of an integer, with a leading `-` when negative.
pub open spec fn int_text(i: int) -> Seq<char> {
    if i < 0 {
        seq!['-'] + nat_text((-i) as nat)
    } else {
        nat_text(i as nat)
    }
}

/// `n` written with at least `w` digits, padded with leading zeros.
pub open spec fn padded_text(n: nat, w: nat) -> Seq<char> {
    let t = nat_text(n);
    if t.len() < w {
        Seq::new((w - t.len()) as nat, |i: int| '0') + t
    } else {
        t
    }
}

/// Whether `c` is a decimal digit.
pub open spec fn is_digit(c: char) -> bool {
    '0' <= c && c <= '9'
}

/// The value of a decimal digit.
pub open spec fn digit_value(c: char) -> nat {
    (c as u32 - '0' as u32) as nat
}

/// Whether `p` is a prefix of `s`.
pub open spec fn has_prefix(s: Seq<char>, p: Seq<char>) -> bool {
    p.len() <= s.len() && s.subrange(0, p.len() as int) == p
}


/// Whether `p` occurs in `s` starting at index `i`.
pub open spec fn occurs_at(s: Seq<char>, p: Seq<char>, i: int) -> bool {
    0 <= i && i + p.len() <= s.len() && s.subrange(i, i + p.len()) == p
}

/// Whether `p` occurs anywhere in `s`.
pub open spec fn contains_text(s: Seq<char>, p: Seq<char>) -> bool {
    exists|i: int| occurs_at(s, p, i)
}

/// The characters that Unicode gives the White_Space property.
pub open spec fn is_space(c: char) -> bool {
    c == '\t' || c == '\n' || c == '\u{0B}' || c == '\u{0C}' || c == '\r' || c == ' '
        || c == '\u{85}' || c == '\u{A0}' || c == '\u{1680}'
        || ('\u{2000}' <= c && c <= '\u{200A}')
        || c == '\u{2028}' || c == '\u{2029}' || c == '\u{202F}' || c == '\u{205F}'
        || c == '\u{3000}'
}

/// Index of the first non-space character at or after `i` (or `s.len()`).
pub open spec fn skip_space(s: Seq<char>, i: int) -> int
    decreases s.len() - i,
{
    if i < 0 || i >= s.len() || !is_space(s[i]) {
        i
    } else {
        skip_space(s, i + 1)
    }
}

/// Index just past the last non-space character before `j` (or `0`).
pub open spec fn skip_space_back(s: Seq<char>, j: int) -> int
    decreases j,
{
    if j <= 0 || j > s.len() || !is_space(s[j - 1]) {
        j
    } else {
        skip_space_back(s, j - 1)
    }
}

/// `s` without leading and trailing white space.
pub open spec fn trimmed(s: Seq<char>) -> Seq<char> {
    let a = skip_space(s, 0);
    let b = skip_space_back(s, s.len() as int);
    if a < b { s.subrange(a, b) } else { Seq::empty() }
}

/// `s` without trailing white space.
pub open spec fn trimmed_end(s: Seq<char>) -> Seq<char> {
    s.subrange(0, skip_space_back(s, s.len() as int))
}

pub proof fn lemma_skip_space_bounds(s: Seq<char>, i: int)
    requires
        0 <= i <= s.len(),
    ensures
        i <= skip_space(s, i) <= s.len(),
        forall|k: int| i <= k < skip_space(s, i) ==> is_space(#[trigger] s[k]),
        skip_space(s, i) < s.len() ==> !is_space(s[skip_space(s, i)]),
    decreases s.len() - i,
{
    if i < s.len() && is_space(s[i]) {
        lemma_skip_space_bounds(s, i + 1);
    }
}

pub proof fn lemma_skip_space_back_bounds(s: Seq<char>, j: int)
    requires
        0 <= j <= s.len(),
    ensures
        0 <= skip_space_back(s, j) <= j,
        forall|k: int| skip_space_back(s, j) <= k < j ==> is_space(#[trigger] s[k]),
        skip_space_back(s, j) > 0 ==> !is_space(s[skip_space_back(s, j) - 1]),
    decreases j,
{
    if j > 0 && is_space(s[j - 1]) {
        lemma_skip_space_back_bounds(s, j - 1);
    }
}

/// Relies on `String::push`: appends one character.
#[verifier::external_body]
pub fn push_char(s: &mut String, c: char)
    ensures
        final(s)@ == old(s)@.push(c),
{
    s.push(c)
}

/// The digit character for `d`.
pub fn digit_char(d: u64) -> (c: char)
    requires
        d < 10,
    ensures
        c == digit_of(d as nat),
{
    if d == 0 { '0' }
    else if d == 1 { '1' }
    else if d == 2 { '2' }
    else if d == 3 { '3' }
    else if d == 4 { '4' }
    else if d == 5 { '5' }
    else if d == 6 { '6' }
    else if d == 7 { '7' }
    else if d == 8 { '8' }
    else { '9' }
}

/// Appends the decimal notation of `n` to `out`.
pub fn push_nat(out: &mut String, n: u64)
    ensures
        final(out)@ == old(out)@ + nat_text(n as nat),
    decreases n,
{
    if n < 10 {
        push_char(out, digit_char(n));
        assert(nat_text(n as nat) == seq![digit_of(n as nat)]);
    } else {
        push_nat(out, n / 10);
        push_char(out, digit_char(n % 10));
        assert(nat_text(n as nat) == nat_text((n / 10) as nat).push(digit_of((n % 10) as nat)));
    }
}

/// Appends the decimal notation of a wide `n` to `out`.
pub fn push_nat_wide(out: &mut String, n: u128)
    ensures
        final(out)@ == old(out)@ + nat_text(n as nat),
    decreases n,
{
    if n < 10 {
        push_char(out, digit_char(n as u64));
        assert(nat_text(n as nat) == seq![digit_of(n as nat)]);
    } else {
        push_nat_wide(out, n / 10);
        push_char(out, digit_char((n % 10) as u64));
        assert(nat_text(n as nat) == nat_text((n / 10) as nat).push(digit_of((n % 10) as nat)));
    }
}

/// Appends the decimal notation of `i` to `out`.
pub fn push_int(out: &mut String, i: i64)
    ensures
        final(out)@ == old(out)@ + int_text(i as int),
{
    if i < 0 {
        push_char(out, '-');
        let m: u64 = (0 - (i as i128)) as u64;
        push_nat(out, m);
        assert(final(out)@ =~= old(out)@ + int_text(i as int));
    } else {
        push_nat(out, i as u64);
    }
}

/// Appends `n` with at least `w` digits, zero-padded.
pub fn push_padded(out: &mut String, n: u64, w: usize)
    ensures
        final(out)@ == old(out)@ + padded_text(n as nat, w as nat),
{
    let mut digits = String::new();
    push_nat(&mut digits, n);
    let len = digits.as_str().unicode_len();
    let ghost start = out@;
    if len < w {
        let mut k: usize = 0;
        while k < w - len
            invariant
                k <= w - len,
                len == nat_text(n as nat).len(),
                digits@ == nat_text(n as nat),
                out@ == start + Seq::new(k as nat, |i: int| '0'),
            decreases w - len - k,
        {
            push_char(out, '0');
            k = k + 1;
            assert(out@ =~= start + Seq::new(k as nat, |i: int| '0'));
        }
    }
    out.append(digits.as_str());
    assert(out@ =~= start + padded_text(n as nat, w as nat));
}

/// Whether `s` begins with `p`.
pub fn starts_with(s: &str, p: &str) -> (r: bool)
    ensures
        r == has_prefix(s@, p@),
{
    let n = s.unicode_len();
    let m = p.unicode_len();
    if m > n {
        return false;
    }
    let mut i: usize = 0;
    while i < m
        invariant
            m <= n,
            n == s@.len(),
            m == p@.len(),
            i <= m,
            forall|k: int| 0 <= k < i ==> s@[k] == p@[k],
        decreases m - i,
    {
        if s.get_char(i) != p.get_char(i) {
            assert(s@.subrange(0, m as int)[i as int] != p@[i as int]);
            return false;
        }
        i = i + 1;
    }
    assert(s@.subrange(0, m as int) =~= p@);
    true
}

/// Whether two texts are equal.
pub fn same_text(a: &str, b: &str) -> (r: bool)
    ensures
        r == (a@ == b@),
{
    let same = a.unicode_len() == b.unicode_len() && starts_with(a, b);
    proof {
        if a@ == b@ {
            assert(a@.subrange(0, b@.len() as int) =~= b@);
        }
        if same {
            assert(a@ =~= b@);
        }
    }
    same
}


/// Whether `p` occurs in `s` at index `i`.
pub fn occurs_at_exec(s: &str, p: &str, i: usize) -> (r: bool)
    ensures
        r == occurs_at(s@, p@, i as int),
{
    let n = s.unicode_len();
    let m = p.unicode_len();
    if i > n || m > n - i {
        return false;
    }
    let mut k: usize = 0;
    while k < m
        invariant
            i + m <= n,
            n == s@.len(),
            m == p@.len(),
            k <= m,
            forall|j: int| 0 <= j < k ==> s@[i + j] == p@[j],
        decreases m - k,
    {
        if s.get_char(i + k) != p.get_char(k) {
            assert(s@.subrange(i as int, i + m)[k as int] != p@[k as int]);
            return false;
        }
        k = k + 1;
    }
    assert(s@.subrange(i as int, i + m) =~= p@);
    true
}


/// Whether `c` is white space.
pub fn is_space_char(c: char) -> (r: bool)
    ensures
        r == is_space(c),
{
    c == '\t' || c == '\n' || c == '\u{0B}' || c == '\u{0C}' || c == '\r' || c == ' '
        || c == '\u{85}' || c == '\u{A0}' || c == '\u{1680}'
        || ('\u{2000}' <= c && c <= '\u{200A}')
        || c == '\u{2028}' || c == '\u{2029}' || c == '\u{202F}' || c == '\u{205F}'
        || c == '\u{3000}'
}

/// Copies the characters `from..to` of `s` into a new string.
pub fn slice_text(s: &str, from: usize, to: usize) -> (r: String)
    requires
        from <= to <= s@.len(),
    ensures
        r@ == s@.subrange(from as int, to as int),
{
    String::from_str(s.substring_char(from, to))
}

/// `s` without leading and trailing white space.
pub fn trim(s: &str) -> (r: String)
    ensures
        r@ == trimmed(s@),
{
    let n = s.unicode_len();
    let mut a: usize = 0;
    while a < n && is_space_char(s.get_char(a))
        invariant
            n == s@.len(),
            a <= n,
            skip_space(s@, 0) == skip_space(s@, a as int),
        decreases n - a,
    {
        a = a + 1;
    }
    let mut b: usize = n;
    while b > 0 && is_space_char(s.get_char(b - 1))
        invariant
            n == s@.len(),
            b <= n,
            skip_space_back(s@, n as int) == skip_space_back(s@, b as int),
        decreases b,
    {
        b = b - 1;
    }
    if a < b {
        slice_text(s, a, b)
    } else {
        String::new()
    }
}

/// `s` without trailing white space.
pub fn trim_end(s: &str) -> (r: String)
    ensures
        r@ == trimmed_end(s@),
{
    let n = s.unicode_len();
    let mut b: usize = n;
    while b > 0 && is_space_char(s.get_char(b - 1))
        invariant
            n == s@.len(),
            b <= n,
            skip_space_back(s@, n as int) == skip_space_back(s@, b as int),
        decreases b,
    {
        b = b - 1;
    }
    slice_text(s, 0, b)
}

} // verus!
