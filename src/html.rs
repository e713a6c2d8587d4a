//! Reading HTML documents with CSS selectors.
use vstd::prelude::*;
use crate::text::{chars_of, trim, trimmed, string_of};

verus! {

/// For each element of the document `html` that `selector` matches, in the
/// order the parsed tree holds its nodes (the order of the source text unless
/// the parser moved a node): its text content and the value of its
/// attribute `attr`.
pub uninterp spec fn selected_items(
    html: Seq<char>,
    selector: Seq<char>,
    attr: Seq<char>,
) -> Seq<(Seq<char>, Option<Seq<char>>)>;

/// The characters of an optional string.
pub open spec fn opt_chars(o: Option<String>) -> Option<Seq<char>> {
    match o {
        Some(s) => Some(s@),
        None => None,
    }
}

pub open spec fn item_view(p: (String, Option<String>)) -> (Seq<char>, Option<Seq<char>>) {
    (p.0@, opt_chars(p.1))
}

/// Relies on `scraper`: `Html::parse_document` reads the document,
/// `Selector::parse` the selector (one that does not parse matches nothing),
/// and `Html::select` yields the matching elements in the order the tree's
/// node arena holds them, each
/// with its concatenated text nodes (`ElementRef::text`) and the attribute
/// (`ElementRef::attr`). The result depends on the three texts alone.
#[verifier::external_body]
pub fn select_items(html: &str, selector: &str, attr: &str) -> (r: Vec<(String, Option<String>)>)
    ensures
        r@.map_values(|p: (String, Option<String>)| item_view(p)) == selected_items(
            html@,
            selector@,
            attr@,
        ),
{
    let doc = scraper::Html::parse_document(html);
    match scraper::Selector::parse(selector) {
        Ok(sel) => doc.select(&sel).map(
            |el| (el.text().collect::<String>(), el.value().attr(attr).map(String::from)),
        ).collect(),
        Err(_) => Vec::new(),
    }
}

/// The trimmed texts of the items.
pub open spec fn item_texts(items: Seq<(Seq<char>, Option<Seq<char>>)>) -> Seq<Seq<char>> {
    items.map_values(|p: (Seq<char>, Option<Seq<char>>)| trim(p.0))
}

/// The attribute values of the items that carry one, in order.
pub open spec fn item_attrs(items: Seq<(Seq<char>, Option<Seq<char>>)>) -> Seq<Seq<char>>
    decreases items.len(),
{
    if items.len() == 0 {
        seq![]
    } else {
        let p = item_attrs(items.drop_last());
        match items.last().1 {
            Some(a) => p.push(a),
            None => p,
        }
    }
}

/// The trimmed text of each element that `selector` matches.
pub fn select_all_text(html: &str, selector: &str) -> (r: Vec<String>)
    ensures
        r@.map_values(|s: String| s@) == item_texts(selected_items(html@, selector@, "href"@)),
{
    let items = select_items(html, selector, "href");
    let ghost iv = items@.map_values(|p: (String, Option<String>)| item_view(p));
    let mut r: Vec<String> = Vec::new();
    let mut i: usize = 0;
    while i < items.len()
        invariant
            i <= items@.len(),
            iv == items@.map_values(|p: (String, Option<String>)| item_view(p)),
            r@.map_values(|s: String| s@) == item_texts(iv.subrange(0, i as int)),
        decreases items@.len() - i,
    {
        let ghost before = r@;
        let v = chars_of(items[i].0.as_str());
        let t = trimmed(&v);
        r.push(string_of(t.as_slice()));
        assert(r@.map_values(|s: String| s@) == before.map_values(|s: String| s@).push(trim(iv[i as int].0)));
        assert(item_texts(iv.subrange(0, i as int + 1)) == item_texts(iv.subrange(0, i as int)).push(
            trim(iv[i as int].0),
        ));
        i = i + 1;
    }
    assert(iv.subrange(0, items@.len() as int) == iv);
    r
}

/// The value of `attr` on each element that `selector` matches and that carries it.
pub fn select_all_attr(html: &str, selector: &str, attr: &str) -> (r: Vec<String>)
    ensures
        r@.map_values(|s: String| s@) == item_attrs(selected_items(html@, selector@, attr@)),
{
    let items = select_items(html, selector, attr);
    let ghost iv = items@.map_values(|p: (String, Option<String>)| item_view(p));
    let mut r: Vec<String> = Vec::new();
    let mut i: usize = 0;
    while i < items.len()
        invariant
            i <= items@.len(),
            iv == items@.map_values(|p: (String, Option<String>)| item_view(p)),
            r@.map_values(|s: String| s@) == item_attrs(iv.subrange(0, i as int)),
        decreases items@.len() - i,
    {
        let ghost before = r@;
        assert(iv.subrange(0, i as int + 1).drop_last() == iv.subrange(0, i as int));
        match &items[i].1 {
            Some(a) => {
                r.push(a.clone());
                assert(r@.map_values(|s: String| s@) == before.map_values(|s: String| s@).push(a@));
            },
            None => {},
        }
        i = i + 1;
    }
    assert(iv.subrange(0, items@.len() as int) == iv);
    r
}

/// The trimmed text of the first element that `selector` matches.
pub fn select_text(html: &str, selector: &str) -> (r: Option<String>)
    ensures
        match selected_items(html@, selector@, "href"@) {
            s => if s.len() == 0 {
                r is None
            } else {
                r matches Some(t) && t@ == trim(s[0].0)
            },
        },
{
    let items = select_items(html, selector, "href");
    if items.len() == 0 {
        return None;
    }
    let ghost iv = items@.map_values(|p: (String, Option<String>)| item_view(p));
    assert(iv[0] == item_view(items@[0]));
    let v = chars_of(items[0].0.as_str());
    let t = trimmed(&v);
    Some(string_of(t.as_slice()))
}

/// The value of `attr` on the first element that `selector` matches.
pub fn select_attr(html: &str, selector: &str, attr: &str) -> (r: Option<String>)
    ensures
        match selected_items(html@, selector@, attr@) {
            s => if s.len() == 0 {
                r is None
            } else {
                opt_chars(r) == s[0].1
            },
        },
{
    let items = select_items(html, selector, attr);
    if items.len() == 0 {
        return None;
    }
    let ghost iv = items@.map_values(|p: (String, Option<String>)| item_view(p));
    assert(iv[0] == item_view(items@[0]));
    match &items[0].1 {
        Some(a) => Some(a.clone()),
        None => None,
    }
}

} // verus!
