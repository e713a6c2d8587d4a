//! File names for downloads: sanitizing names, reading extensions off URLs,
//! and laying out the files of one chapter.
use vstd::prelude::*;
use crate::text::{
    chars_of, decimal, decimal_chars, is_white, lemma_decimal_len, lemma_trim_clean,
    lemma_trim_of_clean, lowercase, lower_ascii, lower_of, string_of, trim, trim_end, trim_start, trimmed,
};
use crate::types::Error;

verus! {

/// The characters that no file name may hold.
pub open spec fn is_forbidden(c: char) -> bool {
    c == '/' || c == '\\' || c == ':' || c == '*' || c == '?' || c == '"' || c == '<' || c
        == '>' || c == '|'
}

pub open spec fn replace_forbidden(s: Seq<char>) -> Seq<char> {
    s.map_values(|c: char| if is_forbidden(c) { '_' } else { c })
}

pub open spec fn untitled() -> Seq<char> {
    seq!['u', 'n', 't', 'i', 't', 'l', 'e', 'd']
}

/// The longest file name that `sanitize_filename` gives, in characters.
pub const MAX_NAME_LEN: usize = 200;

/// Forbidden characters become `_`, the ends are trimmed, the rest is cut to
/// 200 characters and trimmed again, and an empty name becomes `untitled`.
pub open spec fn sanitized(s: Seq<char>) -> Seq<char> {
    let t = trim(replace_forbidden(s));
    let c = if t.len() > MAX_NAME_LEN { t.subrange(0, MAX_NAME_LEN as int) } else { t };
    let u = trim(c);
    if u.len() == 0 {
        untitled()
    } else {
        u
    }
}

pub fn sanitize_filename(name: &str) -> (r: String)
    ensures
        r@ == sanitized(name@),
{
    let src = chars_of(name);
    let mut v: Vec<char> = Vec::new();
    let mut i: usize = 0;
    while i < src.len()
        invariant
            i <= src@.len(),
            v@ == replace_forbidden(src@.subrange(0, i as int)),
        decreases src@.len() - i,
    {
        let c = src[i];
        let bad = c == '/' || c == '\\' || c == ':' || c == '*' || c == '?' || c == '"' || c
            == '<' || c == '>' || c == '|';
        if bad {
            v.push('_');
        } else {
            v.push(c);
        }
        assert(src@.subrange(0, i as int + 1) == src@.subrange(0, i as int).push(c));
        i = i + 1;
    }
    assert(src@.subrange(0, src@.len() as int) == src@);
    let mut c = trimmed(&v);
    if c.len() > MAX_NAME_LEN {
        c.truncate(MAX_NAME_LEN);
    }
    let t = trimmed(&c);
    if t.len() == 0 {
        let r = String::from_str("untitled");
        proof {
            reveal_strlit("untitled");
        }
        r
    } else {
        string_of(t.as_slice())
    }
}

/// Every character of a trimmed sequence comes from the sequence.
proof fn lemma_trim_keeps_clean(s: Seq<char>)
    requires
        forall|i: int| 0 <= i < s.len() ==> !is_forbidden(#[trigger] s[i]),
    ensures
        forall|i: int| 0 <= i < trim(s).len() ==> !is_forbidden(#[trigger] trim(s)[i]),
{
    lemma_trim_start_sub(s);
    let a = trim_start(s);
    lemma_trim_end_prefix(a);
}

proof fn lemma_trim_start_sub(s: Seq<char>)
    ensures
        trim_start(s) == s.subrange(s.len() - trim_start(s).len(), s.len() as int),
        trim_start(s).len() <= s.len(),
    decreases s.len(),
{
    if s.len() > 0 && is_white(s[0]) {
        lemma_trim_start_sub(s.drop_first());
        assert(s.drop_first().subrange(
            s.drop_first().len() - trim_start(s).len(),
            s.drop_first().len() as int,
        ) == s.subrange(s.len() - trim_start(s).len(), s.len() as int));
    } else {
        assert(s.subrange(0, s.len() as int) == s);
    }
}

proof fn lemma_trim_end_prefix(s: Seq<char>)
    ensures
        trim_end(s) == s.subrange(0, trim_end(s).len() as int),
        trim_end(s).len() <= s.len(),
    decreases s.len(),
{
    if s.len() > 0 && is_white(s.last()) {
        lemma_trim_end_prefix(s.drop_last());
        assert(s.drop_last().subrange(0, trim_end(s).len() as int) == s.subrange(
            0,
            trim_end(s).len() as int,
        ));
    } else {
        assert(s.subrange(0, s.len() as int) == s);
    }
}

/// A sanitized name holds no forbidden character, has at most 200 characters
/// and is never empty, and sanitizing it again changes nothing.
pub proof fn sanitize_filename_laws(s: Seq<char>)
    ensures
        forall|i: int| 0 <= i < sanitized(s).len() ==> !is_forbidden(#[trigger] sanitized(s)[i]),
        sanitized(s).len() <= MAX_NAME_LEN,
        sanitized(s).len() > 0,
        sanitized(sanitized(s)) == sanitized(s),
{
    let rs = replace_forbidden(s);
    let t = trim(rs);
    assert forall|i: int| 0 <= i < rs.len() implies !is_forbidden(#[trigger] rs[i]) by {}
    lemma_trim_keeps_clean(rs);
    lemma_trim_clean(rs);
    let c = if t.len() > MAX_NAME_LEN { t.subrange(0, MAX_NAME_LEN as int) } else { t };
    assert forall|i: int| 0 <= i < c.len() implies !is_forbidden(#[trigger] c[i]) by {
        if t.len() > MAX_NAME_LEN {
            assert(c[i] == t[i]);
        }
    }
    lemma_trim_keeps_clean(c);
    lemma_trim_clean(c);
    let v = sanitized(s);
    assert forall|i: int| 0 <= i < v.len() implies !is_forbidden(#[trigger] v[i]) by {}
    assert(replace_forbidden(v) =~= v);
    assert(!is_white(v[0]) && !is_white(v.last()));
    lemma_trim_of_clean(v);
    lemma_trim_of_clean(v);
    assert(v.len() <= MAX_NAME_LEN);
}

/// The index of the first `c` in `s` at or after `i`, or the length of `s`.
pub open spec fn first_from(s: Seq<char>, c: char, i: int) -> int
    decreases s.len() - i,
{
    if i >= s.len() {
        s.len() as int
    } else if s[i] == c {
        i
    } else {
        first_from(s, c, i + 1)
    }
}

/// The index of the last `c` in `s` before `j`, or `-1`.
pub open spec fn last_before(s: Seq<char>, c: char, j: int) -> int
    decreases j,
{
    if j <= 0 {
        -1
    } else if s[j - 1] == c {
        j - 1
    } else {
        last_before(s, c, j - 1)
    }
}

/// `s` up to its first `c`, or all of `s`.
pub open spec fn before_first(s: Seq<char>, c: char) -> Seq<char> {
    s.subrange(0, first_from(s, c, 0))
}

/// `s` after its last `c`, or all of `s`.
pub open spec fn after_last(s: Seq<char>, c: char) -> Seq<char> {
    s.subrange(last_before(s, c, s.len() as int) + 1, s.len() as int)
}

pub proof fn lemma_first_from(s: Seq<char>, c: char, i: int, k: int)
    requires
        0 <= i <= k <= s.len(),
        k == s.len() || s[k] == c,
        forall|j: int| i <= j < k ==> s[j] != c,
    ensures
        first_from(s, c, i) == k,
    decreases k - i,
{
    if i < k {
        lemma_first_from(s, c, i + 1, k);
    }
}

pub proof fn lemma_last_before(s: Seq<char>, c: char, j: int, k: int)
    requires
        -1 <= k < j <= s.len(),
        k == -1 || s[k] == c,
        forall|m: int| k < m < j ==> s[m] != c,
    ensures
        last_before(s, c, j) == k,
    decreases j,
{
    if j - 1 > k {
        lemma_last_before(s, c, j - 1, k);
    }
}

proof fn lemma_first_range(s: Seq<char>, c: char, i: int)
    requires
        0 <= i <= s.len(),
    ensures
        i <= first_from(s, c, i) <= s.len(),
    decreases s.len() - i,
{
    if i < s.len() && s[i] != c {
        lemma_first_range(s, c, i + 1);
    }
}

proof fn lemma_last_range(s: Seq<char>, c: char, j: int)
    requires
        0 <= j <= s.len(),
    ensures
        -1 <= last_before(s, c, j) < j,
        last_before(s, c, j) >= 0 ==> s[last_before(s, c, j)] == c,
    decreases j,
{
    if j > 0 && s[j - 1] != c {
        lemma_last_range(s, c, j - 1);
    }
}

/// The index of the first `c` in `s`, or its length.
pub(crate) fn first_index(s: &Vec<char>, c: char) -> (r: usize)
    ensures
        r == first_from(s@, c, 0),
        r <= s@.len(),
{
    let mut i: usize = 0;
    while i < s.len() && s[i] != c
        invariant
            i <= s@.len(),
            first_from(s@, c, 0) == first_from(s@, c, i as int),
        decreases s@.len() - i,
    {
        i = i + 1;
    }
    i
}

/// One past the index of the last `c` in `s`, or zero.
pub(crate) fn after_last_index(s: &Vec<char>, c: char) -> (r: usize)
    ensures
        r == last_before(s@, c, s@.len() as int) + 1,
        r <= s@.len(),
{
    let mut j: usize = s.len();
    while j > 0 && s[j - 1] != c
        invariant
            j <= s@.len(),
            last_before(s@, c, s@.len() as int) == last_before(s@, c, j as int),
        decreases j,
    {
        j = j - 1;
    }
    j
}

pub(crate) fn slice_of(s: &Vec<char>, a: usize, b: usize) -> (r: Vec<char>)
    requires
        a <= b <= s@.len(),
    ensures
        r@ == s@.subrange(a as int, b as int),
{
    let mut r: Vec<char> = Vec::new();
    let mut i: usize = a;
    while i < b
        invariant
            a <= i <= b <= s@.len(),
            r@ == s@.subrange(a as int, i as int),
        decreases b - i,
    {
        r.push(s[i]);
        assert(r@ == s@.subrange(a as int, i as int + 1));
        i = i + 1;
    }
    r
}

/// The extension of a URL before case folding: the query and fragment are
/// dropped, then the last path segment is read after its last dot; it counts
/// only with 1 to 10 characters.
pub open spec fn raw_extension(url: Seq<char>) -> Option<Seq<char>> {
    let clean = before_first(before_first(url, '?'), '#');
    let seg = after_last(clean, '/');
    let dot = last_before(seg, '.', seg.len() as int);
    if dot < 0 {
        None
    } else {
        let ext = seg.subrange(dot + 1, seg.len() as int);
        if 1 <= ext.len() <= 10 {
            Some(ext)
        } else {
            None
        }
    }
}

pub fn extract_extension(url: &str) -> (r: Option<String>)
    ensures
        match raw_extension(url@) {
            None => r is None,
            Some(e) => r is Some && r->0@ == lower_of(e),
        },
        match raw_extension(url@) {
            None => true,
            Some(e) => lower_ascii(e) ==> r->0@ == e,
        },
{
    let u = chars_of(url);
    let q = first_index(&u, '?');
    let a = slice_of(&u, 0, q);
    let h = first_index(&a, '#');
    let clean = slice_of(&a, 0, h);
    let s = after_last_index(&clean, '/');
    let seg = slice_of(&clean, s, clean.len());
    let d = after_last_index(&seg, '.');
    proof {
        lemma_last_range(seg@, '.', seg@.len() as int);
    }
    if d == 0 {
        return None;
    }
    let ext = slice_of(&seg, d, seg.len());
    if ext.len() >= 1 && ext.len() <= 10 {
        let e = string_of(ext.as_slice());
        Some(lowercase(e.as_str()))
    } else {
        None
    }
}

proof fn lemma_last_before_ge(s: Seq<char>, c: char, j: int, m: int)
    requires
        0 <= m < j <= s.len(),
        s[m] == c,
    ensures
        last_before(s, c, j) >= m,
    decreases j,
{
    if s[j - 1] != c {
        lemma_last_before_ge(s, c, j - 1, m);
    }
}

/// For any non-empty name free of `?` and `#`, the URL
/// `https://x/<name>.jpg?a=b` has the extension `jpg`.
pub proof fn jpg_extension_law(name: Seq<char>)
    requires
        name.len() > 0,
        forall|i: int| 0 <= i < name.len() ==> #[trigger] name[i] != '?' && name[i] != '#',
    ensures
        raw_extension("https://x/"@ + name + ".jpg?a=b"@) == Some(seq!['j', 'p', 'g']),
        lower_ascii(seq!['j', 'p', 'g']),
{
    reveal_strlit("https://x/");
    reveal_strlit(".jpg?a=b");
    let pre = "https://x/"@;
    let url = pre + name + ".jpg?a=b"@;
    let n = name.len() as int;
    let q = 10 + n + 4;
    assert(url[q] == '?');
    assert forall|j: int| 0 <= j < q implies url[j] != '?' by {
        if j >= 10 && j < 10 + n {
            assert(url[j] == name[j - 10]);
        }
    }
    lemma_first_from(url, '?', 0, q);
    let a = before_first(url, '?');
    assert(a.len() == q);
    assert forall|j: int| 0 <= j < q implies a[j] != '#' by {
        if j >= 10 && j < 10 + n {
            assert(a[j] == name[j - 10]);
        }
    }
    lemma_first_from(a, '#', 0, q);
    let clean = before_first(a, '#');
    assert(clean == a);
    assert(clean[9] == '/');
    assert(clean[q - 4] == '.' && clean[q - 3] == 'j' && clean[q - 2] == 'p' && clean[q - 1] == 'g');
    let k = last_before(clean, '/', q);
    lemma_last_range(clean, '/', q);
    lemma_last_before_ge(clean, '/', q, 9);
    assert(k < q - 4);
    let seg = after_last(clean, '/');
    let l = seg.len() as int;
    assert(l == q - k - 1);
    assert(seg[l - 4] == '.' && seg[l - 3] == 'j' && seg[l - 2] == 'p' && seg[l - 1] == 'g');
    lemma_last_before(seg, '.', l, l - 4);
    assert(seg.subrange(l - 3, l) =~= seq!['j', 'p', 'g']);
}

/// The extension a downloaded page is saved under: the text after the last
/// dot of the last path segment, the query dropped, when it has 1 to 4
/// characters; else `jpg`.
pub open spec fn page_extension(url: Seq<char>) -> Seq<char> {
    let a = before_first(url, '?');
    let seg = after_last(a, '/');
    let dot = last_before(seg, '.', seg.len() as int);
    let e = seg.subrange(dot + 1, seg.len() as int);
    if dot >= 0 && 1 <= e.len() <= 4 {
        e
    } else {
        seq!['j', 'p', 'g']
    }
}

fn page_extension_exec(url: &str) -> (r: Vec<char>)
    ensures
        r@ == page_extension(url@),
{
    let u = chars_of(url);
    let q = first_index(&u, '?');
    let a = slice_of(&u, 0, q);
    let sl = after_last_index(&a, '/');
    let seg = slice_of(&a, sl, a.len());
    let d = after_last_index(&seg, '.');
    let e = slice_of(&seg, d, seg.len());
    if d > 0 && e.len() >= 1 && e.len() <= 4 {
        e
    } else {
        let mut j: Vec<char> = Vec::new();
        j.push('j');
        j.push('p');
        j.push('g');
        j
    }
}

/// `d` padded on the left with zeros to at least three characters.
pub open spec fn pad3(d: Seq<char>) -> Seq<char> {
    if d.len() >= 3 {
        d
    } else {
        Seq::new((3 - d.len()) as nat, |i: int| '0') + d
    }
}

/// The file name of the page at 1-based position `n`: `page_NNN.<ext>`.
pub open spec fn page_file_name(n: nat, ext: Seq<char>) -> Seq<char> {
    seq!['p', 'a', 'g', 'e', '_'] + pad3(decimal(n)) + seq!['.'] + ext
}

/// The directory of a chapter: `chapter_` and the sanitized chapter id.
pub open spec fn chapter_dir_name(chapter_id: Seq<char>) -> Seq<char> {
    seq!['c', 'h', 'a', 'p', 't', 'e', 'r', '_'] + sanitized(chapter_id)
}

fn page_name_exec(n: u64, ext: &Vec<char>) -> (r: String)
    ensures
        r@ == page_file_name(n as nat, ext@),
{
    let d = decimal_chars(n);
    proof {
        lemma_decimal_len(n as nat);
    }
    let mut v: Vec<char> = Vec::new();
    v.push('p');
    v.push('a');
    v.push('g');
    v.push('e');
    v.push('_');
    let mut k: usize = d.len();
    while k < 3
        invariant
            d@.len() <= k <= 3 || (k == d@.len() && k >= 3),
            v@ == seq!['p', 'a', 'g', 'e', '_'] + Seq::new(
                (k - d@.len()) as nat,
                |i: int| '0',
            ),
        decreases 3 - k,
    {
        v.push('0');
        assert(v@ == seq!['p', 'a', 'g', 'e', '_'] + Seq::new(
            (k + 1 - d@.len()) as nat,
            |i: int| '0',
        ));
        k = k + 1;
    }
    let mut i: usize = 0;
    let ghost base = v@;
    while i < d.len()
        invariant
            i <= d@.len(),
            v@ == base + d@.subrange(0, i as int),
        decreases d@.len() - i,
    {
        v.push(d[i]);
        assert(v@ == base + d@.subrange(0, i as int + 1));
        i = i + 1;
    }
    assert(d@.subrange(0, d@.len() as int) == d@);
    v.push('.');
    let ghost mid = v@;
    let mut j: usize = 0;
    while j < ext.len()
        invariant
            j <= ext@.len(),
            v@ == mid + ext@.subrange(0, j as int),
        decreases ext@.len() - j,
    {
        v.push(ext[j]);
        assert(v@ == mid + ext@.subrange(0, j as int + 1));
        j = j + 1;
    }
    assert(ext@.subrange(0, ext@.len() as int) == ext@);
    assert(v@ == page_file_name(n as nat, ext@)) by {
        if d@.len() >= 3 {
            assert(Seq::new((k - d@.len()) as nat, |i: int| '0') =~= Seq::<char>::empty());
        }
    }
    string_of(v.as_slice())
}

/// Where each page of a chapter goes: its directory, and one file name per
/// page URL, in the order of the pages.
#[derive(Debug, Clone, PartialEq, Eq)]
pub struct ChapterLayout {
    pub dir_name: String,
    pub file_names: Vec<String>,
}

/// Lays out the download of a chapter whose pages are `pages`. A chapter
/// without pages is an error of its source.
pub fn chapter_layout(source_id: &str, chapter_id: &str, pages: &Vec<String>) -> (r: Result<
    ChapterLayout,
    Error,
>)
    requires
        pages@.len() < u64::MAX,
    ensures
        pages@.len() == 0 <==> r is Err,
        r matches Err(e) ==> e matches Error::Source { src, message } && src@ == source_id@
            && message@ == "No pages found for chapter"@,
        r matches Ok(l) ==> {
            &&& l.dir_name@ == chapter_dir_name(chapter_id@)
            &&& l.file_names@.len() == pages@.len()
            &&& forall|i: int|
                0 <= i < pages@.len() ==> #[trigger] l.file_names@[i]@ == page_file_name(
                    (i + 1) as nat,
                    page_extension(pages@[i]@),
                )
        },
{
    if pages.len() == 0 {
        return Err(Error::source(source_id, "No pages found for chapter"));
    }
    let s = sanitize_filename(chapter_id);
    let dir_name = crate::text::join2("chapter_", s.as_str());
    proof {
        reveal_strlit("chapter_");
        assert(dir_name@ == chapter_dir_name(chapter_id@));
    }
    let mut file_names: Vec<String> = Vec::new();
    let mut i: usize = 0;
    while i < pages.len()
        invariant
            i <= pages@.len() < u64::MAX,
            file_names@.len() == i,
            forall|k: int|
                0 <= k < i ==> #[trigger] file_names@[k]@ == page_file_name(
                    (k + 1) as nat,
                    page_extension(pages@[k]@),
                ),
        decreases pages@.len() - i,
    {
        let ext = page_extension_exec(pages[i].as_str());
        let name = page_name_exec((i + 1) as u64, &ext);
        file_names.push(name);
        i = i + 1;
    }
    Ok(ChapterLayout { dir_name, file_names })
}

} // verus!
