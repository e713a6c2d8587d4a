//! URL text: percent encoding and joining paths onto a base.
use vstd::prelude::*;
use vstd::utf8::encode_utf8;

verus! {

/// The bytes that percent encoding leaves as they are: ASCII letters and
/// digits, `-`, `.`, `_` and `~`.
pub open spec fn url_safe(b: u8) -> bool {
    (48 <= b <= 57) || (65 <= b <= 90) || (97 <= b <= 122) || b == 45 || b == 46 || b == 95 || b
        == 126
}

/// An upper-case hexadecimal digit.
pub open spec fn hex_digit(d: u8) -> char {
    if d < 10 {
        (48 + d) as char
    } else {
        (55 + d) as char
    }
}

/// Every byte but the safe ones written as `%XY`.
pub open spec fn percent_encoded(bytes: Seq<u8>) -> Seq<char>
    decreases bytes.len(),
{
    if bytes.len() == 0 {
        seq![]
    } else {
        let b = bytes.last();
        percent_encoded(bytes.drop_last()) + if url_safe(b) {
            seq![b as char]
        } else {
            seq!['%', hex_digit(b / 16), hex_digit(b % 16)]
        }
    }
}

/// Relies on `urlencoding::encode`: it percent-encodes every byte of the
/// UTF-8 text except ASCII letters, digits, `-`, `.`, `_` and `~`, with
/// upper-case hexadecimal digits.
#[verifier::external_body]
pub(crate) fn url_encode(s: &str) -> (r: String)
    ensures
        r@ == percent_encoded(encode_utf8(s@)),
{
    urlencoding::encode(s).into_owned()
}

/// `s` without the `/` characters at its end.
pub open spec fn strip_end_slashes(s: Seq<char>) -> Seq<char>
    decreases s.len(),
{
    if s.len() > 0 && s.last() == '/' {
        strip_end_slashes(s.drop_last())
    } else {
        s
    }
}

/// `s` without the `/` characters at its start.
pub open spec fn strip_start_slashes(s: Seq<char>) -> Seq<char>
    decreases s.len(),
{
    if s.len() > 0 && s[0] == '/' {
        strip_start_slashes(s.drop_first())
    } else {
        s
    }
}

/// `s` without the `/` characters at its end, as `trim_end_matches('/')` gives it.
pub fn trim_end_slashes(s: &str) -> (r: String)
    ensures
        r@ == strip_end_slashes(s@),
{
    let v = crate::text::chars_of(s);
    let mut b: usize = v.len();
    assert(v@.subrange(0, b as int) == v@);
    while b > 0 && v[b - 1] == '/'
        invariant
            b <= v@.len(),
            v@ == s@,
            strip_end_slashes(s@) == strip_end_slashes(v@.subrange(0, b as int)),
        decreases b,
    {
        assert(v@.subrange(0, b as int).drop_last() == v@.subrange(0, b as int - 1));
        b = b - 1;
    }
    let mut r: Vec<char> = Vec::new();
    let mut i: usize = 0;
    while i < b
        invariant
            i <= b <= v@.len(),
            r@ == v@.subrange(0, i as int),
        decreases b - i,
    {
        r.push(v[i]);
        assert(r@ == v@.subrange(0, i as int + 1));
        i = i + 1;
    }
    crate::text::string_of(r.as_slice())
}

/// `s` without the `/` characters at its start, as `trim_start_matches('/')` gives it.
pub fn trim_start_slashes(s: &str) -> (r: String)
    ensures
        r@ == strip_start_slashes(s@),
{
    let v = crate::text::chars_of(s);
    let n = v.len();
    let mut a: usize = 0;
    assert(v@.subrange(0, n as int) == v@);
    while a < n && v[a] == '/'
        invariant
            a <= n == v@.len(),
            v@ == s@,
            strip_start_slashes(s@) == strip_start_slashes(v@.subrange(a as int, n as int)),
        decreases n - a,
    {
        assert(v@.subrange(a as int, n as int).drop_first() == v@.subrange(a as int + 1, n as int));
        a = a + 1;
    }
    let mut r: Vec<char> = Vec::new();
    let mut i: usize = a;
    while i < n
        invariant
            a <= i <= n == v@.len(),
            r@ == v@.subrange(a as int, i as int),
        decreases n - i,
    {
        r.push(v[i]);
        assert(r@ == v@.subrange(a as int, i as int + 1));
        i = i + 1;
    }
    crate::text::string_of(r.as_slice())
}

/// `path` joined onto `base` with exactly one `/` between them.
pub open spec fn joined_url(base: Seq<char>, path: Seq<char>) -> Seq<char> {
    strip_end_slashes(base) + seq!['/'] + strip_start_slashes(path)
}

pub fn join_url(base: &str, path: &str) -> (r: String)
    ensures
        r@ == joined_url(base@, path@),
{
    let b = trim_end_slashes(base);
    let p = trim_start_slashes(path);
    let a = crate::text::join2(b.as_str(), "/");
    proof {
        reveal_strlit("/");
    }
    crate::text::join2(a.as_str(), p.as_str())
}

} // verus!
