//! Reading chapter numbers out of text.
use vstd::prelude::*;
use crate::text::{decimal, decimal_chars, is_white, white};
use crate::types::ChapterNumber;

verus! {

pub open spec fn is_digit(c: char) -> bool {
    '0' <= c && c <= '9'
}

pub open spec fn digit_value(c: char) -> nat {
    (c as u32 - '0' as u32) as nat
}

/// The value of a run of decimal digits.
pub open spec fn digits_value(s: Seq<char>) -> nat
    decreases s.len(),
{
    if s.len() == 0 {
        0
    } else {
        digits_value(s.drop_last()) * 10 + digit_value(s.last())
    }
}

/// The end of the run of digits that starts at `i`.
pub open spec fn digits_end(s: Seq<char>, i: int) -> int
    decreases s.len() - i,
{
    if 0 <= i < s.len() && is_digit(s[i]) {
        digits_end(s, i + 1)
    } else {
        i
    }
}

/// The first three digits of a fraction, as thousandths.
pub open spec fn frac_thousandths(f: Seq<char>) -> nat {
    (if f.len() > 0 { digit_value(f[0]) * 100 } else { 0 }) + (if f.len() > 1 {
        digit_value(f[1]) * 10
    } else {
        0
    }) + (if f.len() > 2 { digit_value(f[2]) } else { 0 })
}

pub open spec fn clamp(x: nat) -> nat {
    if x > u64::MAX { u64::MAX as nat } else { x }
}

/// The number `\d+(\.\d+)?` that starts at `i`, in thousandths (held to the
/// largest `u64`, fractions beyond the third digit dropped), with the index
/// where it ends.
pub open spec fn decimal_at(s: Seq<char>, i: int) -> Option<(nat, int)> {
    if 0 <= i < s.len() && is_digit(s[i]) {
        let e = digits_end(s, i);
        let whole = digits_value(s.subrange(i, e));
        if e + 1 < s.len() && s[e] == '.' && is_digit(s[e + 1]) {
            let e2 = digits_end(s, e + 1);
            Some((clamp(whole * 1000 + frac_thousandths(s.subrange(e + 1, e2))), e2))
        } else {
            Some((clamp(whole * 1000), e))
        }
    } else {
        None
    }
}

proof fn lemma_digits_end(s: Seq<char>, i: int)
    requires
        0 <= i <= s.len(),
    ensures
        i <= digits_end(s, i) <= s.len(),
        forall|k: int| i <= k < digits_end(s, i) ==> is_digit(s[k]),
    decreases s.len() - i,
{
    if i < s.len() && is_digit(s[i]) {
        lemma_digits_end(s, i + 1);
    }
}

/// Reads the run of digits at `i`: its end and its value held to the largest `u64`.
fn scan_digits(s: &Vec<char>, i: usize) -> (r: (usize, u64))
    requires
        i <= s@.len(),
    ensures
        r.0 == digits_end(s@, i as int),
        r.1 == clamp(digits_value(s@.subrange(i as int, r.0 as int))),
{
    let mut e: usize = i;
    let mut v: u64 = 0;
    proof {
        lemma_digits_end(s@, i as int);
        assert(s@.subrange(i as int, i as int).len() == 0);
    }
    while e < s.len() && '0' <= s[e] && s[e] <= '9'
        invariant
            i <= e <= s@.len(),
            digits_end(s@, i as int) == digits_end(s@, e as int),
            v == clamp(digits_value(s@.subrange(i as int, e as int))),
        decreases s@.len() - e,
    {
        let d = (s[e] as u32 - '0' as u32) as u64;
        let ghost exact = digits_value(s@.subrange(i as int, e as int));
        let wide: u128 = (v as u128) * 10 + (d as u128);
        proof {
            assert(s@.subrange(i as int, e as int + 1).drop_last() == s@.subrange(i as int, e as int));
            let nexact = digits_value(s@.subrange(i as int, e as int + 1));
            assert(nexact == exact * 10 + d);
            if exact > u64::MAX {
                assert(nexact >= exact) by (nonlinear_arith)
                    requires nexact == exact * 10 + d;
            }
        }
        if wide > u64::MAX as u128 {
            v = u64::MAX;
        } else {
            v = wide as u64;
        }
        e = e + 1;
    }
    (e, v)
}

/// Reads the number `\d+(\.\d+)?` at `i`, as `decimal_at` describes it.
pub fn read_decimal(s: &Vec<char>, i: usize) -> (r: Option<(u64, usize)>)
    ensures
        match decimal_at(s@, i as int) {
            None => r is None,
            Some((v, e)) => r matches Some((w, f)) && w == v && f == e,
        },
{
    if i >= s.len() || !('0' <= s[i] && s[i] <= '9') {
        return None;
    }
    let (e, whole) = scan_digits(s, i);
    proof {
        lemma_digits_end(s@, i as int);
    }
    let ghost exact = digits_value(s@.subrange(i as int, e as int));
    if e < s.len() && s.len() - e > 1 && s[e] == '.' && '0' <= s[e + 1] && s[e + 1] <= '9' {
        let (e2, _) = scan_digits(s, e + 1);
        proof {
            lemma_digits_end(s@, e as int + 1);
            lemma_digits_end(s@, e as int + 2);
            assert(digits_end(s@, e as int + 1) == digits_end(s@, e as int + 2));
        }
        let f0 = (s[e + 1] as u32 - '0' as u32) as u128;
        let f1 = if e2 - e > 2 { (s[e + 2] as u32 - '0' as u32) as u128 } else { 0 };
        let f2 = if e2 - e > 3 { (s[e + 3] as u32 - '0' as u32) as u128 } else { 0 };
        let frac = f0 * 100 + f1 * 10 + f2;
        proof {
            let fs = s@.subrange(e as int + 1, e2 as int);
            assert(fs.len() == e2 - e - 1);
            assert(fs[0] == s@[e + 1]);
            if fs.len() > 1 {
                assert(fs[1] == s@[e + 2]);
            }
            if fs.len() > 2 {
                assert(fs[2] == s@[e + 3]);
            }
            assert(frac == frac_thousandths(fs));
        }
        let total = (whole as u128) * 1000 + frac;
        proof {
            let fs = s@.subrange(e as int + 1, e2 as int);
            if exact > u64::MAX {
                assert(exact * 1000 + frac_thousandths(fs) > u64::MAX) by (nonlinear_arith)
                    requires exact > u64::MAX;
            }
        }
        let v = if total > u64::MAX as u128 { u64::MAX } else { total as u64 };
        Some((v, e2))
    } else {
        let total = (whole as u128) * 1000;
        proof {
            if exact > u64::MAX {
                assert(exact * 1000 > u64::MAX) by (nonlinear_arith)
                    requires exact > u64::MAX;
            }
        }
        let v = if total > u64::MAX as u128 { u64::MAX } else { total as u64 };
        Some((v, e))
    }
}

/// `c` is the ASCII letter `lower` in either case.
pub open spec fn letter_ci(c: char, lower: char) -> bool {
    c == lower || c as u32 + 32 == lower as u32
}

/// The word `w`, written in lower case, stands at `p` in any case.
pub open spec fn word_at(s: Seq<char>, p: int, w: Seq<char>) -> bool {
    0 <= p && p + w.len() <= s.len() && forall|k: int| 0 <= k < w.len() ==> letter_ci(s[p + k], w[k])
}

/// The first index at or after `q` that is not white space.
pub open spec fn skip_white(s: Seq<char>, q: int) -> int
    decreases s.len() - q,
{
    if 0 <= q < s.len() && is_white(s[q]) {
        skip_white(s, q + 1)
    } else {
        q
    }
}

pub open spec fn chapter_word() -> Seq<char> {
    seq!['c', 'h', 'a', 'p', 't', 'e', 'r']
}

pub open spec fn ch_word() -> Seq<char> {
    seq!['c', 'h']
}

pub open spec fn value_of(d: Option<(nat, int)>) -> Option<nat> {
    match d {
        Some((v, _)) => Some(v),
        None => None,
    }
}

/// The match at `p` of `(?i)(?:chapter|ch\.?)\s*(\d+(?:\.\d+)?)`.
pub open spec fn titled_number_at(s: Seq<char>, p: int) -> Option<nat> {
    let long = if word_at(s, p, chapter_word()) {
        value_of(decimal_at(s, skip_white(s, p + 7)))
    } else {
        None
    };
    if long is Some {
        long
    } else if word_at(s, p, ch_word()) {
        let q = if p + 2 < s.len() && s[p + 2] == '.' { p + 3 } else { p + 2 };
        value_of(decimal_at(s, skip_white(s, q)))
    } else {
        None
    }
}

/// The match at `p` of `(?i)(?:chapter|ch)-?(\d+(?:\.\d+)?)`.
pub open spec fn slug_number_at(s: Seq<char>, p: int) -> Option<nat> {
    let long = if word_at(s, p, chapter_word()) {
        let q = if p + 7 < s.len() && s[p + 7] == '-' { p + 8 } else { p + 7 };
        value_of(decimal_at(s, q))
    } else {
        None
    };
    if long is Some {
        long
    } else if word_at(s, p, ch_word()) {
        let q = if p + 2 < s.len() && s[p + 2] == '-' { p + 3 } else { p + 2 };
        value_of(decimal_at(s, q))
    } else {
        None
    }
}

/// Which pattern a scan looks for.
pub enum NumberPattern {
    /// `chapter` or `ch.`, white space, then a number.
    Titled,
    /// Any number.
    Bare,
    /// `chapter` or `ch`, an optional `-`, then a number.
    Slug,
}

pub open spec fn pattern_at(k: NumberPattern, s: Seq<char>, p: int) -> Option<nat> {
    match k {
        NumberPattern::Titled => titled_number_at(s, p),
        NumberPattern::Bare => value_of(decimal_at(s, p)),
        NumberPattern::Slug => slug_number_at(s, p),
    }
}

/// The number of the leftmost match of the pattern at or after `p`.
pub open spec fn first_match_from(k: NumberPattern, s: Seq<char>, p: int) -> Option<nat>
    decreases s.len() - p,
{
    if p < 0 || p >= s.len() {
        None
    } else if pattern_at(k, s, p) is Some {
        pattern_at(k, s, p)
    } else {
        first_match_from(k, s, p + 1)
    }
}

fn word_at_exec(s: &Vec<char>, p: usize, w: &Vec<char>) -> (r: bool)
    ensures
        r == word_at(s@, p as int, w@),
{
    if p > s.len() || w.len() > s.len() - p {
        return false;
    }
    let mut k: usize = 0;
    while k < w.len()
        invariant
            k <= w@.len(),
            p + w@.len() <= s@.len(),
            s@.len() == s.len(),
            forall|j: int| 0 <= j < k ==> letter_ci(s@[p + j], w@[j]),
        decreases w@.len() - k,
    {
        let c = s[p + k];
        let l = w[k];
        if !(c == l || ((l as u32) >= 32 && (c as u32) == (l as u32) - 32)) {
            return false;
        }
        k = k + 1;
    }
    true
}

fn skip_white_exec(s: &Vec<char>, q: usize) -> (r: usize)
    ensures
        r as int == skip_white(s@, q as int),
        q <= r,
{
    let mut j = q;
    while j < s.len() && white(s[j])
        invariant
            q <= j,
            skip_white(s@, q as int) == skip_white(s@, j as int),
        decreases s@.len() - j,
    {
        j = j + 1;
    }
    j
}

fn value_exec(d: Option<(u64, usize)>) -> (r: Option<u64>)
    ensures
        r == match d {
            Some((v, _)) => Some(v),
            None => None::<u64>,
        },
{
    match d {
        Some((v, _)) => Some(v),
        None => None,
    }
}

fn pattern_at_exec(k: &NumberPattern, s: &Vec<char>, p: usize) -> (r: Option<u64>)
    requires
        p < s@.len(),
    ensures
        match pattern_at(*k, s@, p as int) {
            None => r is None,
            Some(v) => r == Some(v as u64) && v <= u64::MAX,
        },
{
    let chapter: Vec<char> = vec!['c', 'h', 'a', 'p', 't', 'e', 'r'];
    let ch: Vec<char> = vec!['c', 'h'];
    proof {
        assert(chapter@ == chapter_word());
        assert(ch@ == ch_word());
        assert(chapter_word().len() == 7);
        assert(ch_word().len() == 2);
        assert(s@.len() == s.len());
    }
    match k {
        NumberPattern::Bare => value_exec(read_decimal(s, p)),
        NumberPattern::Titled => {
            if word_at_exec(s, p, &chapter) {
                let q = skip_white_exec(s, p + 7);
                let v = value_exec(read_decimal(s, q));
                if v.is_some() {
                    return v;
                }
            }
            if word_at_exec(s, p, &ch) {
                let q = if p + 2 < s.len() && s[p + 2] == '.' { p + 3 } else { p + 2 };
                value_exec(read_decimal(s, skip_white_exec(s, q)))
            } else {
                None
            }
        },
        NumberPattern::Slug => {
            if word_at_exec(s, p, &chapter) {
                let q = if p + 7 < s.len() && s[p + 7] == '-' { p + 8 } else { p + 7 };
                let v = value_exec(read_decimal(s, q));
                if v.is_some() {
                    return v;
                }
            }
            if word_at_exec(s, p, &ch) {
                let q = if p + 2 < s.len() && s[p + 2] == '-' { p + 3 } else { p + 2 };
                value_exec(read_decimal(s, q))
            } else {
                None
            }
        },
    }
}

/// The number of the leftmost match of the pattern in `s`.
pub fn first_match(k: &NumberPattern, s: &Vec<char>) -> (r: Option<u64>)
    ensures
        match first_match_from(*k, s@, 0) {
            None => r is None,
            Some(v) => r == Some(v as u64) && v <= u64::MAX,
        },
{
    let mut p: usize = 0;
    while p < s.len()
        invariant
            first_match_from(*k, s@, 0) == first_match_from(*k, s@, p as int),
        decreases s@.len() - p,
    {
        let v = pattern_at_exec(k, s, p);
        if v.is_some() {
            return v;
        }
        p = p + 1;
    }
    None
}

/// The number of a chapter from its title and its id: the first of the
/// titled pattern in the title, any number in the title, the slug pattern in
/// the id and any number in the id that matches; else the 1-based position.
pub open spec fn chapter_number_spec(title: Seq<char>, id: Seq<char>, index: nat) -> nat {
    let a = first_match_from(NumberPattern::Titled, title, 0);
    let b = first_match_from(NumberPattern::Bare, title, 0);
    let c = first_match_from(NumberPattern::Slug, id, 0);
    let d = first_match_from(NumberPattern::Bare, id, 0);
    if a is Some {
        a->0
    } else if b is Some {
        b->0
    } else if c is Some {
        c->0
    } else if d is Some {
        d->0
    } else {
        clamp((index + 1) * 1000)
    }
}

/// Reads the number of the chapter at 0-based position `index`, as
/// `chapter_number_spec` says.
pub fn chapter_number(title: &Vec<char>, id: &Vec<char>, index: usize) -> (r: ChapterNumber)
    ensures
        r.thousandths == chapter_number_spec(title@, id@, index as nat),
{
    if let Some(v) = first_match(&NumberPattern::Titled, title) {
        return ChapterNumber { thousandths: v };
    }
    if let Some(v) = first_match(&NumberPattern::Bare, title) {
        return ChapterNumber { thousandths: v };
    }
    if let Some(v) = first_match(&NumberPattern::Slug, id) {
        return ChapterNumber { thousandths: v };
    }
    if let Some(v) = first_match(&NumberPattern::Bare, id) {
        return ChapterNumber { thousandths: v };
    }
    let n = (index as u128 + 1) * 1000;
    let t = if n > u64::MAX as u128 { u64::MAX } else { n as u64 };
    ChapterNumber { thousandths: t }
}

pub open spec fn pow10(k: nat) -> nat
    decreases k,
{
    if k == 0 {
        1
    } else {
        10 * pow10((k - 1) as nat)
    }
}

/// The value of the digits `d` with the decimal point after the first `n`
/// of them: digits past the point are dropped, missing ones are zeros.
pub open spec fn shifted_value(d: Seq<char>, n: int) -> nat {
    if n <= 0 {
        0
    } else if n <= d.len() {
        digits_value(d.subrange(0, n))
    } else {
        digits_value(d) * pow10((n - d.len()) as nat)
    }
}

/// The parts of a decimal float text as `f64`'s `FromStr` reads it: whether
/// it is negative, its digits, how many of them stand before the point, and
/// the exponent. `None` for any other text (no digits, `inf`, `nan`, stray
/// characters).
pub open spec fn float_parts(s: Seq<char>) -> Option<(bool, Seq<char>, int, int)> {
    let signed = s.len() > 0 && (s[0] == '+' || s[0] == '-');
    let i: int = if signed { 1 } else { 0 };
    let neg = s.len() > 0 && s[0] == '-';
    let a = digits_end(s, i);
    let has_dot = a < s.len() && s[a] == '.';
    let b = if has_dot { digits_end(s, a + 1) } else { a };
    let mant = s.subrange(i, a) + if has_dot { s.subrange(a + 1, b) } else { seq![] };
    if mant.len() == 0 {
        None
    } else if b == s.len() {
        Some((neg, mant, a - i, 0))
    } else if s[b] == 'e' || s[b] == 'E' {
        let j = b + 1;
        let eneg = j < s.len() && s[j] == '-';
        let j2 = if j < s.len() && (s[j] == '+' || s[j] == '-') { j + 1 } else { j };
        let c = digits_end(s, j2);
        if c > j2 && c == s.len() {
            let ev = digits_value(s.subrange(j2, c)) as int;
            Some((neg, mant, a - i, if eneg { -ev } else { ev }))
        } else {
            None
        }
    } else {
        None
    }
}

/// The chapter number in a field: a decimal float text, in thousandths
/// (digits past the third decimal dropped, held to the largest `u64`); zero
/// for a negative number or any other text.
pub open spec fn plain_number(s: Seq<char>) -> nat {
    match float_parts(s) {
        None => 0,
        Some((neg, d, int_len, e)) => if neg {
            0
        } else {
            clamp(shifted_value(d, int_len + 3 + e))
        },
    }
}

proof fn lemma_digits_end_all(s: Seq<char>, i: int)
    requires
        0 <= i <= s.len(),
        forall|k: int| i <= k < s.len() ==> is_digit(#[trigger] s[k]),
    ensures
        digits_end(s, i) == s.len(),
    decreases s.len() - i,
{
    if i < s.len() {
        lemma_digits_end_all(s, i + 1);
    }
}

proof fn lemma_pow10_grows(j: nat, k: nat)
    requires
        j <= k,
    ensures
        pow10(j) <= pow10(k),
        pow10(j) >= 1,
    decreases k,
{
    if k > j {
        lemma_pow10_grows(j, (k - 1) as nat);
    } else if j > 0 {
        lemma_pow10_grows((j - 1) as nat, (j - 1) as nat);
    }
}

proof fn lemma_pow10_large(k: nat)
    requires
        k >= 20,
    ensures
        pow10(k) > u64::MAX,
{
    reveal_with_fuel(pow10, 21);
    assert(pow10(20) == 100000000000000000000nat);
    lemma_pow10_grows(20, k);
}

/// The digits of `s` between `a` and `b`, as a new vector.
fn digits_between(s: &Vec<char>, a: usize, b: usize) -> (r: Vec<char>)
    requires
        a <= b <= s@.len(),
    ensures
        r@ == s@.subrange(a as int, b as int),
{
    crate::download::slice_of(s, a, b)
}

/// `clamp(shifted_value(d, n))` for digits `d`.
fn shifted_clamped(d: &Vec<char>, n: i128) -> (r: u64)
    requires
        forall|k: int| 0 <= k < d@.len() ==> is_digit(#[trigger] d@[k]),
    ensures
        r == clamp(shifted_value(d@, n as int)),
{
    if n <= 0 {
        return 0;
    }
    if n <= d.len() as i128 {
        let head = digits_between(d, 0, n as usize);
        proof {
            lemma_digits_end_all(head@, 0);
        }
        let (_, v) = scan_digits(&head, 0);
        assert(head@.subrange(0, head@.len() as int) == head@);
        return v;
    }
    proof {
        lemma_digits_end_all(d@, 0);
    }
    let (_, v0) = scan_digits(d, 0);
    assert(d@.subrange(0, d@.len() as int) == d@);
    let ghost dv = digits_value(d@);
    let k: u128 = (n - d.len() as i128) as u128;
    let mut v: u64 = v0;
    let mut j: u128 = 0;
    proof {
        assert(pow10(0) == 1);
        assert(dv * pow10(0) == dv);
    }
    while j < k && v != 0 && v != u64::MAX
        invariant
            j <= k,
            k as int == n - d@.len(),
            dv == digits_value(d@),
            v == clamp(dv * pow10(j as nat)),
        decreases k - j,
    {
        let ghost x = dv * pow10(j as nat);
        proof {
            assert(pow10((j + 1) as nat) == 10 * pow10(j as nat));
            assert(dv * pow10((j + 1) as nat) == x * 10) by (nonlinear_arith)
                requires
                    pow10((j + 1) as nat) == 10 * pow10(j as nat),
                    x == dv * pow10(j as nat),
            ;
        }
        let w: u128 = (v as u128) * 10;
        v = if w > u64::MAX as u128 { u64::MAX } else { w as u64 };
        j = j + 1;
    }
    proof {
        let x = dv * pow10(j as nat);
        lemma_pow10_grows(j as nat, k as nat);
        assert(dv * pow10(j as nat) <= dv * pow10(k as nat)) by (nonlinear_arith)
            requires
                pow10(j as nat) <= pow10(k as nat),
        ;
        if v == 0 && j < k {
            assert(dv == 0) by (nonlinear_arith)
                requires
                    dv * pow10(j as nat) == 0,
                    pow10(j as nat) >= 1,
            ;
            assert(dv * pow10(k as nat) == 0) by (nonlinear_arith)
                requires
                    dv == 0,
            ;
        }
    }
    v
}

/// The largest exponent read exactly; a larger one changes no result.
const EXP_CAP: u128 = 0x10000000000000000000000000;

/// The value of the digits of `s` from `a` to `b`, held to `EXP_CAP`.
fn scan_exponent(s: &Vec<char>, a: usize, b: usize) -> (r: u128)
    requires
        a <= b <= s@.len(),
        forall|k: int| a <= k < b ==> is_digit(#[trigger] s@[k]),
    ensures
        r == if digits_value(s@.subrange(a as int, b as int)) > EXP_CAP {
            EXP_CAP as nat
        } else {
            digits_value(s@.subrange(a as int, b as int))
        },
{
    let mut v: u128 = 0;
    let mut i: usize = a;
    assert(s@.subrange(a as int, a as int).len() == 0);
    while i < b
        invariant
            a <= i <= b <= s@.len(),
            forall|k: int| a <= k < b ==> is_digit(#[trigger] s@[k]),
            v == if digits_value(s@.subrange(a as int, i as int)) > EXP_CAP {
                EXP_CAP as nat
            } else {
                digits_value(s@.subrange(a as int, i as int))
            },
        decreases b - i,
    {
        let ghost exact = digits_value(s@.subrange(a as int, i as int));
        let d = (s[i] as u32 - '0' as u32) as u128;
        proof {
            assert(s@.subrange(a as int, i as int + 1).drop_last() == s@.subrange(a as int, i as int));
            let nexact = digits_value(s@.subrange(a as int, i as int + 1));
            assert(nexact == exact * 10 + d);
            if exact > EXP_CAP {
                assert(nexact >= exact) by (nonlinear_arith)
                    requires nexact == exact * 10 + d;
            }
        }
        let w = v * 10 + d;
        v = if w > EXP_CAP { EXP_CAP } else { w };
        i = i + 1;
    }
    v
}

proof fn lemma_capped_shift(m: Seq<char>, ib: int, e: int, exact: int)
    requires
        0 <= ib <= m.len() <= usize::MAX,
        e == exact || (e == EXP_CAP && exact > EXP_CAP) || (e == -(EXP_CAP as int) && exact
            < -(EXP_CAP as int)),
    ensures
        clamp(shifted_value(m, ib + 3 + e)) == clamp(shifted_value(m, ib + 3 + exact)),
{
    if e != exact && e > 0 {
        assert(ib + 3 + e > m.len() + 20);
        assert(ib + 3 + exact > m.len() + 20);
        let k1 = (ib + 3 + e - m.len()) as nat;
        let k2 = (ib + 3 + exact - m.len()) as nat;
        lemma_pow10_large(k1);
        lemma_pow10_large(k2);
        if digits_value(m) > 0 {
            assert(digits_value(m) * pow10(k1) > u64::MAX) by (nonlinear_arith)
                requires
                    digits_value(m) >= 1,
                    pow10(k1) > u64::MAX,
            ;
            assert(digits_value(m) * pow10(k2) > u64::MAX) by (nonlinear_arith)
                requires
                    digits_value(m) >= 1,
                    pow10(k2) > u64::MAX,
            ;
        } else {
            assert(digits_value(m) * pow10(k1) == 0) by (nonlinear_arith)
                requires
                    digits_value(m) == 0,
            ;
            assert(digits_value(m) * pow10(k2) == 0) by (nonlinear_arith)
                requires
                    digits_value(m) == 0,
            ;
        }
    } else if e != exact {
        assert(ib + 3 + e <= 0);
        assert(ib + 3 + exact <= 0);
    }
}

/// Reads a chapter number field, as `plain_number` says.
#[verifier::rlimit(60)]
pub fn parse_plain_number(s: &Vec<char>) -> (r: ChapterNumber)
    ensures
        r.thousandths == plain_number(s@),
{
    let n = s.len();
    let signed = n > 0 && (s[0] == '+' || s[0] == '-');
    let neg = n > 0 && s[0] == '-';
    let i: usize = if signed { 1 } else { 0 };
    let (a, _) = scan_digits(s, i);
    proof {
        lemma_digits_end(s@, i as int);
    }
    let has_dot = a < n && s[a] == '.';
    let b = if has_dot {
        let (b, _) = scan_digits(s, a + 1);
        proof {
            lemma_digits_end(s@, a as int + 1);
        }
        b
    } else {
        a
    };
    let mut mant = digits_between(s, i, a);
    if has_dot {
        let mut frac = digits_between(s, a + 1, b);
        mant.append(&mut frac);
    }
    let ghost m = mant@;
    assert(m == s@.subrange(i as int, a as int) + if has_dot {
        s@.subrange(a as int + 1, b as int)
    } else {
        seq![]
    });
    assert forall|k: int| 0 <= k < m.len() implies is_digit(#[trigger] m[k]) by {
        if k < a - i {
            assert(m[k] == s@[i + k]);
        } else {
            assert(m[k] == s@[a + 1 + k - (a - i)]);
        }
    }
    if mant.len() == 0 {
        return ChapterNumber { thousandths: 0 };
    }
    let mut e: i128 = 0;
    if b < n {
        if !(s[b] == 'e' || s[b] == 'E') {
            return ChapterNumber { thousandths: 0 };
        }
        let j = b + 1;
        let eneg = j < n && s[j] == '-';
        let j2 = if j < n && (s[j] == '+' || s[j] == '-') { j + 1 } else { j };
        let (c, _) = scan_digits(s, j2);
        proof {
            lemma_digits_end(s@, j2 as int);
        }
        if !(c > j2 && c == n) {
            return ChapterNumber { thousandths: 0 };
        }
        let ev = scan_exponent(s, j2, c);
        e = if eneg { -(ev as i128) } else { ev as i128 };
    }
    if neg {
        return ChapterNumber { thousandths: 0 };
    }
    let shift: i128 = (a - i) as i128 + 3 + e;
    let v = shifted_clamped(&mant, shift);
    proof {
        let parts = float_parts(s@);
        let (_, pd, pil, exact_e) = parts->0;
        assert(pd == m);
        assert(pil == (a - i) as int);
        lemma_capped_shift(m, (a - i) as int, e as int, exact_e);
    }
    ChapterNumber { thousandths: v }
}

/// The digits of the fraction of `t` thousandths, without trailing zeros.
pub open spec fn frac_text(t: nat) -> Seq<char> {
    let f = t % 1000;
    if f == 0 {
        seq![]
    } else if f % 100 == 0 {
        seq!['.'] + decimal(f / 100)
    } else if f % 10 == 0 {
        seq!['.', crate::text::digit_char(f / 100)] + decimal((f / 10) % 10)
    } else {
        seq!['.', crate::text::digit_char(f / 100), crate::text::digit_char((f / 10) % 10)]
            + decimal(f % 10)
    }
}

/// A chapter number as text: `12.5`, `7`, `3.125`.
pub open spec fn number_text(t: nat) -> Seq<char> {
    decimal(t / 1000) + frac_text(t)
}

fn digit(d: u64) -> (r: char)
    requires
        d < 10,
    ensures
        r == crate::text::digit_char(d as nat),
{
    ((d as u8) + 48) as char
}

/// Writes a chapter number as text.
pub fn number_chars(n: ChapterNumber) -> (r: Vec<char>)
    ensures
        r@ == number_text(n.thousandths as nat),
{
    let t = n.thousandths;
    let mut r = decimal_chars(t / 1000);
    let f = t % 1000;
    let ghost w = r@;
    if f == 0 {
        assert(r@ == w + seq![]);
    } else if f % 100 == 0 {
        r.push('.');
        let d = decimal_chars(f / 100);
        let mut i: usize = 0;
        let ghost base = r@;
        while i < d.len()
            invariant
                i <= d@.len(),
                r@ == base + d@.subrange(0, i as int),
            decreases d@.len() - i,
        {
            r.push(d[i]);
            assert(r@ == base + d@.subrange(0, i as int + 1));
            i = i + 1;
        }
        assert(d@.subrange(0, d@.len() as int) == d@);
        assert(r@ == w + (seq!['.'] + d@));
    } else if f % 10 == 0 {
        r.push('.');
        r.push(digit(f / 100));
        let last = (f / 10) % 10;
        r.push(digit(last));
        proof {
            assert(decimal(last as nat) == seq![crate::text::digit_char(last as nat)]);
            assert(r@ == w + (seq!['.', crate::text::digit_char((f / 100) as nat)] + decimal(
                ((f / 10) % 10) as nat,
            )));
        }
    } else {
        r.push('.');
        r.push(digit(f / 100));
        r.push(digit((f / 10) % 10));
        let last = f % 10;
        r.push(digit(last));
        proof {
            assert(decimal(last as nat) == seq![crate::text::digit_char(last as nat)]);
            assert(r@ == w + (seq![
                '.',
                crate::text::digit_char((f / 100) as nat),
                crate::text::digit_char(((f / 10) % 10) as nat),
            ] + decimal((f % 10) as nat)));
        }
    }
    r
}

} // verus!
