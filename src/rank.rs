//! Scores that rank search results, and the filters and orders built on them.
use vstd::prelude::*;
use vstd::utf8::encode_utf8;
use crate::text::{
    all_ascii, chars_of, contains_chars, has_sub, is_all_ascii, is_white, lower_of, lowercase,
    trim, trimmed, white,
};
use crate::types::Manga;

verus! {

broadcast use vstd::seq_lib::group_to_multiset_ensures, vstd::multiset::group_multiset_axioms;

/// The description is present and holds more than white space.
pub open spec fn has_description(d: Option<String>) -> bool {
    d matches Some(s) && trim(s@).len() > 0
}

/// The metadata quality score of an entry.
pub open spec fn relevance_score(
    title: Seq<char>,
    description: Option<String>,
    n_tags: nat,
    n_authors: nat,
) -> nat {
    (if has_description(description) { 10nat } else { 0 }) + (if n_authors > 0 { 5nat } else { 0 })
        + (if n_tags >= 3 { 5nat } else { 0 }) + (if n_tags >= 5 { 5nat } else { 0 }) + (if encode_utf8(title).len()
        <= 20 { 15nat } else if encode_utf8(title).len() <= 40 { 10nat } else { 5nat }) + (if has_sub(
        title,
        "Official"@,
    ) || has_sub(title, "Colored"@) { 8nat } else { 0 }) + (if all_ascii(title) { 3nat } else { 0 })
}

fn description_present(d: &Option<String>) -> (r: bool)
    ensures
        r == has_description(*d),
{
    match d {
        Some(s) => {
            let v = chars_of(s.as_str());
            let t = trimmed(&v);
            t.len() > 0
        },
        None => false,
    }
}

/// The metadata quality score: a description, authors, tags, a short title,
/// an official or colored edition and an ASCII title each add to it.
pub fn calculate_relevance_score(
    title: &str,
    description: &Option<String>,
    tags: &Vec<String>,
    authors: &Vec<String>,
) -> (r: u32)
    ensures
        r == relevance_score(title@, *description, tags@.len(), authors@.len()),
{
    let mut score: u32 = 0;
    if description_present(description) {
        score = score + 10;
    }
    if authors.len() > 0 {
        score = score + 5;
    }
    if tags.len() >= 3 {
        score = score + 5;
    }
    if tags.len() >= 5 {
        score = score + 5;
    }
    let t = chars_of(title);
    let bytes = title.as_bytes().len();
    if bytes <= 20 {
        score = score + 15;
    } else if bytes <= 40 {
        score = score + 10;
    } else {
        score = score + 5;
    }
    let official = chars_of("Official");
    let colored = chars_of("Colored");
    if contains_chars(&t, &official) || contains_chars(&t, &colored) {
        score = score + 8;
    }
    if is_all_ascii(&t) {
        score = score + 3;
    }
    score
}

/// The popularity score of an entry, used by `filter_popular`.
pub open spec fn popularity_score(m: Manga) -> nat {
    (if has_description(m.description) { 2nat } else { 0 }) + (if m.authors@.len() > 0 {
        1nat
    } else {
        0
    }) + (if m.cover_url is Some { 1nat } else { 0 }) + (if m.tags@.len() >= 3 { 1nat } else { 0 })
        + (if m.tags@.len() >= 5 { 1nat } else { 0 })
}

pub fn popularity(m: &Manga) -> (r: usize)
    ensures
        r == popularity_score(*m),
{
    let mut score: usize = 0;
    if description_present(&m.description) {
        score = score + 2;
    }
    if m.authors.len() > 0 {
        score = score + 1;
    }
    if m.cover_url.is_some() {
        score = score + 1;
    }
    if m.tags.len() >= 3 {
        score = score + 1;
    }
    if m.tags.len() >= 5 {
        score = score + 1;
    }
    score
}

/// The white-space separated words of `s` from position `i` on, `cur` being
/// the part of a word already read.
pub open spec fn words_from(s: Seq<char>, i: int, cur: Seq<char>) -> Seq<Seq<char>>
    decreases s.len() - i,
{
    if i >= s.len() {
        if cur.len() > 0 {
            seq![cur]
        } else {
            seq![]
        }
    } else if is_white(s[i]) {
        (if cur.len() > 0 {
            seq![cur]
        } else {
            seq![]
        }) + words_from(s, i + 1, seq![])
    } else {
        words_from(s, i + 1, cur.push(s[i]))
    }
}

/// The white-space separated words of `s`, as `str::split_whitespace` gives them.
pub open spec fn words(s: Seq<char>) -> Seq<Seq<char>> {
    words_from(s, 0, seq![])
}

pub fn split_words(s: &Vec<char>) -> (r: Vec<Vec<char>>)
    ensures
        r@.map_values(|w: Vec<char>| w@) == words(s@),
{
    let mut r: Vec<Vec<char>> = Vec::new();
    let mut cur: Vec<char> = Vec::new();
    let mut i: usize = 0;
    while i < s.len()
        invariant
            i <= s@.len(),
            r@.map_values(|w: Vec<char>| w@) + words_from(s@, i as int, cur@) == words(s@),
        decreases s@.len() - i,
    {
        let ghost before = r@.map_values(|w: Vec<char>| w@);
        if white(s[i]) {
            if cur.len() > 0 {
                let ghost c = cur@;
                r.push(cur);
                cur = Vec::new();
                assert(r@.map_values(|w: Vec<char>| w@) == before.push(c));
                assert(before + (seq![c] + words_from(s@, i + 1, seq![])) == before.push(c)
                    + words_from(s@, i + 1, seq![]));
            } else {
                assert(cur@ == Seq::<char>::empty());
                assert(seq![] + words_from(s@, i + 1, seq![]) == words_from(s@, i + 1, seq![]));
            }
        } else {
            cur.push(s[i]);
        }
        i = i + 1;
    }
    if cur.len() > 0 {
        let ghost before = r@.map_values(|w: Vec<char>| w@);
        let ghost c = cur@;
        r.push(cur);
        assert(r@.map_values(|w: Vec<char>| w@) == before.push(c));
    } else {
        assert(r@.map_values(|w: Vec<char>| w@) + seq![] == r@.map_values(|w: Vec<char>| w@));
    }
    r
}

/// A query word matches a title word when either holds the other.
pub open spec fn word_matches(q: Seq<char>, ts: Seq<Seq<char>>) -> bool {
    exists|j: int| 0 <= j < ts.len() && (has_sub(ts[j], q) || has_sub(q, ts[j]))
}

/// How many of the query words match some title word.
pub open spec fn matched_words(qs: Seq<Seq<char>>, ts: Seq<Seq<char>>) -> nat
    decreases qs.len(),
{
    if qs.len() == 0 {
        0
    } else {
        matched_words(qs.drop_last(), ts) + if word_matches(qs.last(), ts) {
            1nat
        } else {
            0
        }
    }
}

/// How many of `xs` hold `q`.
pub open spec fn count_holding(xs: Seq<Seq<char>>, q: Seq<char>) -> nat
    decreases xs.len(),
{
    if xs.len() == 0 {
        0
    } else {
        count_holding(xs.drop_last(), q) + if has_sub(xs.last(), q) {
            1nat
        } else {
            0
        }
    }
}

/// The part of the query score that the title gives: an exact match, a
/// match inside the title, or a share of the query words that match.
pub open spec fn title_query_score(title: Seq<char>, q: Seq<char>) -> nat {
    if title == q {
        100
    } else if has_sub(title, q) {
        50
    } else {
        let qs = words(q);
        let ts = words(title);
        if qs.len() == 0 {
            0
        } else {
            (matched_words(qs, ts) * 25) / qs.len()
        }
    }
}

/// The query score over case-folded text: the title's part, 15 for a
/// description that holds the query, 10 for each tag and 20 for each author
/// that holds it, and a third of the quality score `base`.
pub open spec fn folded_query_score(
    title: Seq<char>,
    description: Option<Seq<char>>,
    tags: Seq<Seq<char>>,
    authors: Seq<Seq<char>>,
    q: Seq<char>,
    base: nat,
) -> nat {
    title_query_score(title, q) + (if description matches Some(d) && has_sub(d, q) {
        15nat
    } else {
        0
    }) + 10 * count_holding(tags, q) + 20 * count_holding(authors, q) + base / 3
}

fn word_match_exec(q: &Vec<char>, ts: &Vec<Vec<char>>) -> (r: bool)
    ensures
        r == word_matches(q@, ts@.map_values(|w: Vec<char>| w@)),
{
    let ghost tv = ts@.map_values(|w: Vec<char>| w@);
    let mut j: usize = 0;
    while j < ts.len()
        invariant
            j <= ts@.len(),
            tv == ts@.map_values(|w: Vec<char>| w@),
            forall|k: int| 0 <= k < j ==> !(has_sub(tv[k], q@) || has_sub(q@, tv[k])),
        decreases ts@.len() - j,
    {
        if contains_chars(&ts[j], q) || contains_chars(q, &ts[j]) {
            assert(tv[j as int] == ts@[j as int]@);
            return true;
        }
        j = j + 1;
    }
    false
}

/// The part of the query score that the case-folded title gives.
pub fn title_query_part(title: &Vec<char>, q: &Vec<char>) -> (r: u128)
    ensures
        r == title_query_score(title@, q@),
        r <= 100,
{
    let mut same = title.len() == q.len();
    let mut i: usize = 0;
    while same && i < title.len()
        invariant
            i <= title@.len(),
            same ==> title@.len() == q@.len(),
            same ==> forall|k: int| 0 <= k < i ==> title@[k] == q@[k],
            !same ==> title@ != q@,
        decreases title@.len() - i + (if same { 1int } else { 0int }),
    {
        if title[i] != q[i] {
            same = false;
            assert(title@[i as int] != q@[i as int]);
        } else {
            i = i + 1;
        }
    }
    if same {
        assert(title@ == q@);
    }
    if same {
        return 100;
    }
    if contains_chars(title, q) {
        return 50;
    }
    let qs = split_words(q);
    let ts = split_words(title);
    let ghost qv = qs@.map_values(|w: Vec<char>| w@);
    let ghost tv = ts@.map_values(|w: Vec<char>| w@);
    if qs.len() == 0 {
        return 0;
    }
    let mut matched: u64 = 0;
    let mut i: usize = 0;
    while i < qs.len()
        invariant
            i <= qs@.len(),
            qv == qs@.map_values(|w: Vec<char>| w@),
            tv == ts@.map_values(|w: Vec<char>| w@),
            matched == matched_words(qv.subrange(0, i as int), tv),
            matched <= i,
        decreases qs@.len() - i,
    {
        let m = word_match_exec(&qs[i], &ts);
        assert(qv.subrange(0, i as int + 1).drop_last() == qv.subrange(0, i as int));
        if m {
            matched = matched + 1;
        }
        i = i + 1;
    }
    assert(qv.subrange(0, qs@.len() as int) == qv);
    let n = qs.len() as u128;
    let total = (matched as u128) * 25;
    assert(total / n <= 25) by (nonlinear_arith)
        requires
            total == matched * 25,
            matched <= n,
            n > 0,
    ;
    total / n
}

/// How many of the case-folded texts `xs` hold the case-folded query `q`.
pub fn count_holding_folded(xs: &Vec<String>, q: &Vec<char>) -> (r: u64)
    ensures
        r == count_holding(xs@.map_values(|s: String| s@), q@),
        r <= xs@.len(),
{
    let ghost lv = xs@.map_values(|s: String| s@);
    let mut n: u64 = 0;
    let mut i: usize = 0;
    while i < xs.len()
        invariant
            i <= xs@.len(),
            lv == xs@.map_values(|s: String| s@),
            n == count_holding(lv.subrange(0, i as int), q@),
            n <= i,
        decreases xs@.len() - i,
    {
        let lc = chars_of(xs[i].as_str());
        let h = contains_chars(&lc, q);
        assert(lv.subrange(0, i as int + 1).drop_last() == lv.subrange(0, i as int));
        if h {
            n = n + 1;
        }
        i = i + 1;
    }
    assert(lv.subrange(0, xs@.len() as int) == lv);
    n
}

fn fold_all(xs: &Vec<String>) -> (r: Vec<String>)
    ensures
        r@.map_values(|s: String| s@) == xs@.map_values(|s: String| lower_of(s@)),
{
    let mut r: Vec<String> = Vec::new();
    let mut i: usize = 0;
    while i < xs.len()
        invariant
            i <= xs@.len(),
            r@.map_values(|s: String| s@) == xs@.subrange(0, i as int).map_values(
                |s: String| lower_of(s@),
            ),
        decreases xs@.len() - i,
    {
        let ghost before = r@;
        r.push(lowercase(xs[i].as_str()));
        assert(r@.map_values(|s: String| s@) == before.map_values(|s: String| s@).push(
            lower_of(xs@[i as int]@),
        ));
        assert(xs@.subrange(0, i as int + 1).map_values(|s: String| lower_of(s@))
            == xs@.subrange(0, i as int).map_values(|s: String| lower_of(s@)).push(
            lower_of(xs@[i as int]@),
        ));
        i = i + 1;
    }
    assert(xs@.subrange(0, xs@.len() as int) == xs@);
    r
}

/// The query score of texts that are already case folded, `base` being the
/// quality score of the entry.
pub fn folded_query_relevance_score(
    title: &Vec<char>,
    description: &Option<String>,
    tags: &Vec<String>,
    authors: &Vec<String>,
    query: &Vec<char>,
    base: u32,
) -> (r: u128)
    ensures
        r == folded_query_score(
            title@,
            opt_view(*description),
            tags@.map_values(|s: String| s@),
            authors@.map_values(|s: String| s@),
            query@,
            base as nat,
        ),
{
    let mut score: u128 = title_query_part(title, query);
    match description {
        Some(d) => {
            let dv = chars_of(d.as_str());
            if contains_chars(&dv, query) {
                score = score + 15;
            }
        },
        None => {},
    }
    let nt = count_holding_folded(tags, query);
    let na = count_holding_folded(authors, query);
    score = score + 10 * (nt as u128) + 20 * (na as u128);
    score + (base / 3) as u128
}

/// The score of an entry against a query that is already case folded.
pub open spec fn query_score(m: Manga, q: Seq<char>) -> nat {
    folded_query_score(
        lower_of(m.title@),
        match m.description {
            Some(d) => Some(lower_of(d@)),
            None => None,
        },
        m.tags@.map_values(|s: String| lower_of(s@)),
        m.authors@.map_values(|s: String| lower_of(s@)),
        q,
        relevance_score(m.title@, m.description, m.tags@.len(), m.authors@.len()),
    )
}

/// The score of an entry against `query_lower`, a case-folded query. Title,
/// description, tags and authors are case folded before they are compared.
pub fn calculate_query_relevance_score(
    title: &str,
    description: &Option<String>,
    tags: &Vec<String>,
    authors: &Vec<String>,
    query_lower: &str,
) -> (r: u128)
    ensures
        r == folded_query_score(
            lower_of(title@),
            match *description {
                Some(d) => Some(lower_of(d@)),
                None => None,
            },
            tags@.map_values(|s: String| lower_of(s@)),
            authors@.map_values(|s: String| lower_of(s@)),
            query_lower@,
            relevance_score(title@, *description, tags@.len(), authors@.len()),
        ),
{
    let q = chars_of(query_lower);
    let tl = lowercase(title);
    let t = chars_of(tl.as_str());
    let dl = match description {
        Some(d) => Some(lowercase(d.as_str())),
        None => None,
    };
    let tags_folded = fold_all(tags);
    let authors_folded = fold_all(authors);
    let base = calculate_relevance_score(title, description, tags, authors);
    folded_query_relevance_score(&t, &dl, &tags_folded, &authors_folded, &q, base)
}

/// The characters of an optional string.
pub open spec fn opt_view(q: Option<String>) -> Option<Seq<char>> {
    match q {
        Some(s) => Some(s@),
        None => None,
    }
}

/// The rank of an entry: its quality score, or with a case-folded query its
/// query score.
pub open spec fn rank(m: Manga, q: Option<Seq<char>>) -> nat {
    match q {
        None => relevance_score(m.title@, m.description, m.tags@.len(), m.authors@.len()),
        Some(q) => query_score(m, q),
    }
}

/// The length of a text in UTF-8 bytes, as `str::len` counts it.
pub open spec fn byte_len(s: Seq<char>) -> nat {
    encode_utf8(s).len()
}

/// `a` may stand before `b`: a higher rank, or the same rank and a title
/// that is no longer (counted in UTF-8 bytes).
pub open spec fn precedes(a: Manga, b: Manga, q: Option<Seq<char>>) -> bool {
    rank(a, q) > rank(b, q) || (rank(a, q) == rank(b, q) && byte_len(a.title@) <= byte_len(
        b.title@,
    ))
}

/// Highest rank first, shorter titles first among equal ranks.
pub open spec fn ranked_order(s: Seq<Manga>, q: Option<Seq<char>>) -> bool {
    forall|i: int, j: int| 0 <= i < j < s.len() ==> precedes(#[trigger] s[i], #[trigger] s[j], q)
}

/// `a` goes strictly before `b`: a higher rank, or the same rank and a
/// shorter title.
pub open spec fn goes_before(a: Manga, b: Manga, q: Option<Seq<char>>) -> bool {
    rank(a, q) > rank(b, q) || (rank(a, q) == rank(b, q) && byte_len(a.title@) < byte_len(b.title@))
}

/// The first index from `i` on before whose entry `x` goes, or the length.
pub open spec fn first_outranked(s: Seq<Manga>, x: Manga, q: Option<Seq<char>>, i: int) -> int
    decreases s.len() - i,
{
    if i < 0 || i >= s.len() {
        s.len() as int
    } else if goes_before(x, s[i], q) {
        i
    } else {
        first_outranked(s, x, q, i + 1)
    }
}

/// `s` in ranked order; an entry goes after every entry before it that it
/// does not go strictly before, so equal keys keep their order.
pub open spec fn rank_sorted(s: Seq<Manga>, q: Option<Seq<char>>) -> Seq<Manga>
    decreases s.len(),
{
    if s.len() == 0 {
        s
    } else {
        let p = rank_sorted(s.drop_last(), q);
        p.insert(first_outranked(p, s.last(), q, 0), s.last())
    }
}

fn rank_of(m: &Manga, q: &Option<String>) -> (r: u128)
    ensures
        r == rank(*m, opt_view(*q)),
{
    match q {
        None => calculate_relevance_score(m.title.as_str(), &m.description, &m.tags, &m.authors)
            as u128,
        Some(s) => calculate_query_relevance_score(
            m.title.as_str(),
            &m.description,
            &m.tags,
            &m.authors,
            s.as_str(),
        ),
    }
}

/// Orders `items` by rank, keeping the given order among entries of equal
/// rank and title length.
fn sort_ranked(items: Vec<Manga>, q: &Option<String>) -> (r: Vec<Manga>)
    ensures
        r@ == rank_sorted(items@, opt_view(*q)),
        r@.to_multiset() == items@.to_multiset(),
        ranked_order(
            r@,
            opt_view(*q),
        ),
{
    let ghost qv = opt_view(*q);
    let ghost orig = items@;
    let mut rest = items;
    let mut out: Vec<Manga> = Vec::new();
    let mut keys: Vec<u128> = Vec::new();
    let mut lens: Vec<usize> = Vec::new();
    let ghost mut i: int = 0;
    while rest.len() > 0
        invariant
            0 <= i <= orig.len(),
            rest@ == orig.subrange(i, orig.len() as int),
            out@ == rank_sorted(orig.subrange(0, i), qv),
            out@.to_multiset().add(rest@.to_multiset()) == orig.to_multiset(),
            ranked_order(out@, qv),
            keys@.len() == out@.len(),
            lens@.len() == out@.len(),
            forall|k: int| 0 <= k < out@.len() ==> keys@[k] == rank(#[trigger] out@[k], qv),
            forall|k: int| 0 <= k < out@.len() ==> lens@[k] == byte_len((#[trigger] out@[k]).title@),
            qv == opt_view(*q),
        decreases rest@.len(),
    {
        proof {
            vstd::seq_lib::to_multiset_remove(rest@, 0);
        }
        let ghost rest_before = rest@;
        let x = rest.remove(0);
        let kx = rank_of(&x, q);
        let lx = x.title.as_str().as_bytes().len();
        let mut p: usize = 0;
        while p < out.len() && !(kx > keys[p] || (kx == keys[p] && lx < lens[p]))
            invariant
                p <= out@.len(),
                keys@.len() == out@.len(),
                lens@.len() == out@.len(),
                forall|k: int| 0 <= k < p ==> precedes(#[trigger] out@[k], x, qv),
                forall|k: int| 0 <= k < out@.len() ==> keys@[k] == rank(#[trigger] out@[k], qv),
                forall|k: int|
                    0 <= k < out@.len() ==> lens@[k] == byte_len((#[trigger] out@[k]).title@),
                kx == rank(x, qv),
                lx == byte_len(x.title@),
                first_outranked(out@, x, qv, 0) == first_outranked(out@, x, qv, p as int),
            decreases out@.len() - p,
        {
            p = p + 1;
        }
        proof {
            assert(orig.subrange(0, i + 1).drop_last() == orig.subrange(0, i));
            assert(orig.subrange(0, i + 1).last() == x);
            assert(first_outranked(out@, x, qv, p as int) == p);
            i = i + 1;
        }
        let ghost old_out = out@;
        proof {
            vstd::seq_lib::to_multiset_insert(old_out, p as int, x);
        }
        out.insert(p, x);
        keys.insert(p, kx);
        lens.insert(p, lx);
        proof {
            assert(out@ == old_out.insert(p as int, x));
            assert forall|i: int, j: int| 0 <= i < j < out@.len() implies precedes(
                #[trigger] out@[i],
                #[trigger] out@[j],
                qv,
            ) by {
                if j < p {
                    assert(out@[i] == old_out[i] && out@[j] == old_out[j]);
                } else if j == p {
                    assert(out@[i] == old_out[i]);
                } else if i == p {
                    assert(out@[j] == old_out[j - 1]);
                    assert(precedes(old_out[p as int], old_out[j - 1], qv) || p == j - 1);
                } else if i < p {
                    assert(out@[i] == old_out[i] && out@[j] == old_out[j - 1]);
                } else {
                    assert(out@[i] == old_out[i - 1] && out@[j] == old_out[j - 1]);
                }
            }
            assert forall|k: int| 0 <= k < out@.len() implies keys@[k] == rank(
                #[trigger] out@[k],
                qv,
            ) && lens@[k] == byte_len(out@[k].title@) by {
                if k < p {
                    assert(out@[k] == old_out[k]);
                } else if k > p {
                    assert(out@[k] == old_out[k - 1]);
                }
            }
            assert(out@.to_multiset().add(rest@.to_multiset()) =~= orig.to_multiset());
        }
    }
    assert(orig.subrange(0, orig.len() as int) == orig);
    assert(rest@.to_multiset() =~= vstd::multiset::Multiset::empty());
    assert(out@.to_multiset() =~= out@.to_multiset().add(rest@.to_multiset()));
    out
}

/// The first entry of each case-folded title, in the given order.
pub open spec fn first_title_at(s: Seq<Manga>, i: int) -> bool {
    forall|j: int| 0 <= j < i ==> lower_of(s[j].title@) != lower_of(#[trigger] s[i].title@)
}

/// `s` with every entry dropped whose case-folded title an earlier entry has.
pub open spec fn dedupe_titles(s: Seq<Manga>) -> Seq<Manga>
    decreases s.len(),
{
    if s.len() == 0 {
        seq![]
    } else {
        let p = dedupe_titles(s.drop_last());
        if first_title_at(s, s.len() - 1) {
            p.push(s.last())
        } else {
            p
        }
    }
}

/// Some entry of `s` has the case-folded title `x`.
pub open spec fn has_folded_title(s: Seq<Manga>, x: Seq<char>) -> bool {
    exists|j: int| 0 <= j < s.len() && lower_of(#[trigger] s[j].title@) == x
}

/// Dropping later entries of a title leaves no longer a list, the same set
/// of case-folded titles, no title twice, and only entries of the input, each
/// the first of its title there.
pub proof fn dedupe_by_title_laws(s: Seq<Manga>)
    ensures
        dedupe_titles(s).len() <= s.len(),
        forall|x: Seq<char>| has_folded_title(dedupe_titles(s), x) <==> has_folded_title(s, x),
        forall|i: int, k: int|
            0 <= i < k < dedupe_titles(s).len() ==> lower_of(#[trigger] dedupe_titles(s)[i].title@)
                != lower_of(#[trigger] dedupe_titles(s)[k].title@),
        forall|i: int|
            0 <= i < dedupe_titles(s).len() ==> exists|j: int|
                0 <= j < s.len() && s[j] == #[trigger] dedupe_titles(s)[i] && first_title_at(s, j),
    decreases s.len(),
{
    if s.len() > 0 {
        let a = s.drop_last();
        dedupe_by_title_laws(a);
        let p = dedupe_titles(a);
        let r = dedupe_titles(s);
        let n = s.len() - 1;
        assert forall|j: int| 0 <= j < a.len() implies first_title_at(s, j) == first_title_at(a, j)
            by {
            assert forall|m: int| 0 <= m < j implies s[m] == a[m] by {}
            assert(s[j] == a[j]);
        }
        assert forall|x: Seq<char>| has_folded_title(r, x) <==> has_folded_title(s, x) by {
            if has_folded_title(s, x) {
                let j = choose|j: int| 0 <= j < s.len() && lower_of(#[trigger] s[j].title@) == x;
                if j < n {
                    assert(a[j] == s[j]);
                    assert(has_folded_title(a, x));
                    let k = choose|k: int| 0 <= k < p.len() && lower_of(#[trigger] p[k].title@) == x;
                    assert(r[k] == p[k]);
                } else if first_title_at(s, n) {
                    assert(r[p.len() as int] == s[n]);
                } else {
                    let m = choose|m: int| 0 <= m < n && lower_of(s[m].title@) == lower_of(s[n].title@);
                    assert(a[m] == s[m]);
                    assert(has_folded_title(a, x));
                    let k = choose|k: int| 0 <= k < p.len() && lower_of(#[trigger] p[k].title@) == x;
                    assert(r[k] == p[k]);
                }
            }
            if has_folded_title(r, x) {
                let k = choose|k: int| 0 <= k < r.len() && lower_of(#[trigger] r[k].title@) == x;
                if k < p.len() {
                    assert(r[k] == p[k]);
                    assert(has_folded_title(p, x));
                    let j = choose|j: int| 0 <= j < a.len() && lower_of(#[trigger] a[j].title@) == x;
                    assert(s[j] == a[j]);
                } else {
                    assert(r[k] == s[n]);
                }
            }
        }
        assert forall|i: int|
            0 <= i < r.len() implies exists|j: int|
                0 <= j < s.len() && s[j] == #[trigger] r[i] && first_title_at(s, j) by {
            if i < p.len() {
                assert(r[i] == p[i]);
                let j = choose|j: int| 0 <= j < a.len() && a[j] == p[i] && first_title_at(a, j);
                assert(s[j] == a[j]);
            } else {
                assert(r[i] == s[n]);
            }
        }
        assert forall|i: int, k: int| 0 <= i < k < r.len() implies lower_of(
            #[trigger] r[i].title@,
        ) != lower_of(#[trigger] r[k].title@) by {
            if k < p.len() {
                assert(r[i] == p[i] && r[k] == p[k]);
            } else {
                assert(r[i] == p[i]);
                assert(r[k] == s[n]);
                let j = choose|j: int| 0 <= j < a.len() && a[j] == p[i] && first_title_at(a, j);
                assert(s[j] == p[i]);
            }
        }
    }
}

/// Operations on a list of search results.
pub trait SearchResultExt: Sized {
    /// The entries of the list.
    spec fn entries(&self) -> Seq<Manga>;

    /// Keeps the entries whose popularity score reaches `min_popularity_score`.
    fn filter_popular(self, min_popularity_score: usize) -> (r: Self)
        ensures
            r.entries() == self.entries().filter(
                |m: Manga| popularity_score(m) >= min_popularity_score,
            ),
    ;

    /// Keeps the first entry of each title, compared without regard to case.
    fn dedupe_by_title(self) -> (r: Self)
        ensures
            r.entries() == dedupe_titles(self.entries()),
    ;

    /// Orders the entries by quality score, highest first, shorter titles
    /// (in UTF-8 bytes) first among equal scores, the given order kept among
    /// equal keys.
    fn sort_by_relevance(self) -> (r: Self)
        ensures
            r.entries() == rank_sorted(self.entries(), None),
            r.entries().to_multiset() == self.entries().to_multiset(),
            ranked_order(r.entries(), None),
    ;

    /// Orders the entries by their score against `query`, highest first,
    /// shorter titles first among equal scores, the given order kept among
    /// equal keys.
    fn sort_by_query_relevance(self, query: &str) -> (r: Self)
        ensures
            r.entries() == rank_sorted(self.entries(), Some(lower_of(query@))),
            r.entries().to_multiset() == self.entries().to_multiset(),
            ranked_order(r.entries(), Some(lower_of(query@))),
    ;
}

impl SearchResultExt for Vec<Manga> {
    open spec fn entries(&self) -> Seq<Manga> {
        self@
    }

    fn filter_popular(self, min_popularity_score: usize) -> (r: Self) {
        let ghost orig = self@;
        let ghost keep = |m: Manga| popularity_score(m) >= min_popularity_score;
        let mut rest = self;
        let mut out: Vec<Manga> = Vec::new();
        let ghost mut i: int = 0;
        proof {
            reveal(Seq::filter);
            assert(orig.subrange(0, 0).len() == 0);
        }
        while rest.len() > 0
            invariant
                0 <= i <= orig.len(),
                rest@ == orig.subrange(i, orig.len() as int),
                out@ == orig.subrange(0, i).filter(keep),
                keep == |m: Manga| popularity_score(m) >= min_popularity_score,
            decreases rest@.len(),
        {
            let x = rest.remove(0);
            proof {
                assert(orig.subrange(0, i + 1).drop_last() == orig.subrange(0, i));
                assert(orig.subrange(0, i + 1).last() == x);
                reveal(Seq::filter);
            }
            if popularity(&x) >= min_popularity_score {
                out.push(x);
            }
            proof {
                i = i + 1;
                assert(rest@ == orig.subrange(i, orig.len() as int));
            }
        }
        assert(orig.subrange(0, orig.len() as int) == orig);
        out
    }

    fn dedupe_by_title(self) -> (r: Self) {
        let ghost orig = self@;
        let mut rest = self;
        let mut out: Vec<Manga> = Vec::new();
        let mut seen: Vec<String> = Vec::new();
        let ghost mut i: int = 0;
        while rest.len() > 0
            invariant
                0 <= i <= orig.len(),
                rest@ == orig.subrange(i, orig.len() as int),
                out@ == dedupe_titles(orig.subrange(0, i)),
                seen@.len() == out@.len(),
                forall|k: int| 0 <= k < seen@.len() ==> #[trigger] seen@[k]@ == lower_of(out@[k].title@),
                forall|x: Seq<char>|
                    has_folded_title(out@, x) <==> has_folded_title(orig.subrange(0, i), x),
            decreases rest@.len(),
        {
            let x = rest.remove(0);
            let lx = lowercase(x.title.as_str());
            let mut found = false;
            let mut k: usize = 0;
            while k < seen.len() && !found
                invariant
                    k <= seen@.len(),
                    !found ==> forall|m: int| 0 <= m < k ==> seen@[m]@ != lx@,
                    found ==> exists|m: int| 0 <= m < seen@.len() && seen@[m]@ == lx@,
                decreases seen@.len() - k + (if found { 0int } else { 1int }),
            {
                if seen[k] == lx {
                    found = true;
                } else {
                    k = k + 1;
                }
            }
            let ghost pre = orig.subrange(0, i);
            let ghost nxt = orig.subrange(0, i + 1);
            proof {
                assert(nxt.drop_last() == pre);
                assert(nxt.last() == x);
                assert(forall|j: int| 0 <= j < i ==> nxt[j] == pre[j]);
                if found {
                    let m = choose|m: int| 0 <= m < seen@.len() && seen@[m]@ == lx@;
                    assert(lower_of(out@[m].title@) == lx@);
                    assert(has_folded_title(out@, lx@));
                    let j = choose|j: int| 0 <= j < pre.len() && lower_of(#[trigger] pre[j].title@) == lx@;
                    assert(nxt[j] == pre[j]);
                    assert(!first_title_at(nxt, i));
                } else {
                    assert forall|j: int| 0 <= j < i implies lower_of(nxt[j].title@) != lower_of(
                        #[trigger] nxt[i].title@,
                    ) by {
                        assert(nxt[j] == pre[j]);
                        if lower_of(pre[j].title@) == lx@ {
                            assert(has_folded_title(pre, lx@));
                            assert(has_folded_title(out@, lx@));
                            let m = choose|m: int| 0 <= m < out@.len() && lower_of(#[trigger] out@[m].title@) == lx@;
                            assert(seen@[m]@ == lx@);
                        }
                    }
                    assert(first_title_at(nxt, i));
                }
            }
            let ghost out_before = out@;
            if !found {
                seen.push(lx);
                out.push(x);
            }
            proof {
                assert forall|y: Seq<char>| has_folded_title(out@, y) <==> has_folded_title(nxt, y) by {
                    if has_folded_title(nxt, y) {
                        let j = choose|j: int| 0 <= j < nxt.len() && lower_of(#[trigger] nxt[j].title@) == y;
                        if j < i {
                            assert(pre[j] == nxt[j]);
                            assert(has_folded_title(pre, y));
                            assert(has_folded_title(out_before, y));
                            let m = choose|m: int| 0 <= m < out_before.len() && lower_of(#[trigger] out_before[m].title@) == y;
                            assert(out@[m] == out_before[m]);
                        } else if !found {
                            assert(out@[out_before.len() as int] == x);
                        } else {
                            assert(has_folded_title(out_before, y));
                            let m = choose|m: int| 0 <= m < out_before.len() && lower_of(#[trigger] out_before[m].title@) == y;
                            assert(out@[m] == out_before[m]);
                        }
                    }
                    if has_folded_title(out@, y) {
                        let m = choose|m: int| 0 <= m < out@.len() && lower_of(#[trigger] out@[m].title@) == y;
                        if m < out_before.len() {
                            assert(out@[m] == out_before[m]);
                            assert(has_folded_title(out_before, y));
                            assert(has_folded_title(pre, y));
                            let j = choose|j: int| 0 <= j < pre.len() && lower_of(#[trigger] pre[j].title@) == y;
                            assert(nxt[j] == pre[j]);
                        } else {
                            assert(nxt[i] == x);
                        }
                    }
                }
                i = i + 1;
                assert(rest@ == orig.subrange(i, orig.len() as int));
            }
        }
        assert(orig.subrange(0, orig.len() as int) == orig);
        out
    }

    fn sort_by_relevance(self) -> (r: Self) {
        sort_ranked(self, &None)
    }

    fn sort_by_query_relevance(self, query: &str) -> (r: Self) {
        let q = lowercase(query);
        sort_ranked(self, &Some(q))
    }
}

} // verus!
