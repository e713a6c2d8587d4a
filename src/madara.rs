//! The blog-theme HTML catalogs: their URLs, and how their pages become
//! entries, chapters and page URLs.
use vstd::prelude::*;
use vstd::utf8::encode_utf8;
use crate::download::{after_last, after_last_index, slice_of};
use crate::html::{item_attrs, item_texts, select_all_attr, select_all_text, select_items, selected_items};
use crate::mangadex::{number_sorted, numbers_ascending, sort_chapters};
use crate::number::{chapter_number, chapter_number_spec, number_chars, number_text};
use crate::text::{chars_of, contains_str, has_sub, join2, string_of, trim, trimmed};
use crate::search::Identified;
use crate::types::{Chapter, Error, Manga, SearchParams};
use crate::url::{
    joined_url, join_url, percent_encoded, strip_end_slashes, trim_end_slashes, url_encode,
};

verus! {

broadcast use vstd::seq_lib::group_to_multiset_ensures, vstd::multiset::group_multiset_axioms;

/// The CSS selectors of one blog-theme site.
#[derive(Debug, Clone)]
pub struct MadaraSelectors {
    pub manga_item: String,
    pub chapter_links: String,
    pub chapter_titles: String,
    pub chapter_pages: String,
    pub cover_image: String,
}

/// The configuration of one blog-theme site. `manga_path` is the path
/// segment under which the site keeps its manga and chapter slugs.
#[derive(Debug, Clone)]
pub struct MadaraConfig {
    pub id: &'static str,
    pub name: &'static str,
    pub base_url: &'static str,
    pub manga_path: &'static str,
    pub headers: Option<Vec<(String, String)>>,
    pub selectors: MadaraSelectors,
}

/// The attributes an image may carry its address in, in the order they are tried.
#[derive(Debug, Clone, PartialEq, Eq)]
pub struct ImageSources {
    pub src: Option<String>,
    pub data_src: Option<String>,
    pub data_lazy_src: Option<String>,
    pub data_original: Option<String>,
}

pub open spec fn starts_with(s: Seq<char>, p: Seq<char>) -> bool {
    p.len() <= s.len() && s.subrange(0, p.len() as int) == p
}

pub fn starts_with_str(s: &str, p: &str) -> (r: bool)
    ensures
        r == starts_with(s@, p@),
{
    let sv = chars_of(s);
    let pv = chars_of(p);
    if pv.len() > sv.len() {
        return false;
    }
    let mut i: usize = 0;
    while i < pv.len()
        invariant
            i <= pv@.len() <= sv@.len(),
            sv@ == s@,
            pv@ == p@,
            forall|k: int| 0 <= k < i ==> sv@[k] == pv@[k],
        decreases pv@.len() - i,
    {
        if sv[i] != pv[i] {
            assert(sv@.subrange(0, pv@.len() as int)[i as int] != pv@[i as int]);
            return false;
        }
        i = i + 1;
    }
    assert(sv@.subrange(0, pv@.len() as int) =~= pv@);
    true
}

pub open spec fn ends_with(s: Seq<char>, p: Seq<char>) -> bool {
    p.len() <= s.len() && s.subrange(s.len() - p.len(), s.len() as int) == p
}

pub fn ends_with_str(s: &str, p: &str) -> (r: bool)
    ensures
        r == ends_with(s@, p@),
{
    let sv = chars_of(s);
    let pv = chars_of(p);
    if pv.len() > sv.len() {
        return false;
    }
    let off = sv.len() - pv.len();
    let mut i: usize = 0;
    while i < pv.len()
        invariant
            i <= pv@.len() <= sv@.len(),
            off == sv@.len() - pv@.len(),
            sv.len() == sv@.len(),
            sv@ == s@,
            pv@ == p@,
            forall|k: int| 0 <= k < i ==> sv@[off + k] == pv@[k],
        decreases pv@.len() - i,
    {
        if sv[off + i] != pv[i] {
            assert(sv@.subrange(off as int, sv@.len() as int)[i as int] != pv@[i as int]);
            return false;
        }
        i = i + 1;
    }
    assert(sv@.subrange(off as int, sv@.len() as int) =~= pv@);
    true
}

/// The last non-empty segment of a `/`-separated path.
pub open spec fn last_segment(h: Seq<char>) -> Option<Seq<char>> {
    let t = strip_end_slashes(h);
    if t.len() == 0 {
        None
    } else {
        Some(after_last(t, '/'))
    }
}

pub fn last_path_segment(href: &str) -> (r: Option<String>)
    ensures
        match last_segment(href@) {
            None => r is None,
            Some(s) => r matches Some(x) && x@ == s,
        },
{
    let t = trim_end_slashes(href);
    let tv = chars_of(t.as_str());
    if tv.len() == 0 {
        return None;
    }
    let a = after_last_index(&tv, '/');
    let seg = slice_of(&tv, a, tv.len());
    Some(string_of(seg.as_slice()))
}

/// The URL starts with the `http://` or `https://` scheme.
pub open spec fn has_web_scheme(u: Seq<char>) -> bool {
    starts_with(u, "http://"@) || starts_with(u, "https://"@)
}

/// A link as an absolute URL: a protocol-relative one gets `https:`, one
/// with a web scheme stays, and anything else is joined onto `base`.
pub open spec fn absolute_url(base: Seq<char>, u: Seq<char>) -> Seq<char> {
    if starts_with(u, "//"@) {
        "https:"@ + u
    } else if has_web_scheme(u) {
        u
    } else {
        joined_url(base, u)
    }
}

pub fn make_absolute(base: &str, u: &str) -> (r: String)
    ensures
        r@ == absolute_url(base@, u@),
{
    if starts_with_str(u, "//") {
        join2("https:", u)
    } else if starts_with_str(u, "http://") || starts_with_str(u, "https://") {
        String::from_str(u)
    } else {
        join_url(base, u)
    }
}

/// The URL of a manga or chapter id: one with a scheme stays, an absolute
/// path goes onto `base`, and a slug goes under `container`.
pub open spec fn resolved_url(base: Seq<char>, container: Seq<char>, id: Seq<char>) -> Seq<char> {
    if starts_with(id, "http"@) {
        id
    } else if starts_with(id, "/"@) {
        strip_end_slashes(base) + id
    } else {
        joined_url(base, container + "/"@ + id)
    }
}

pub fn resolve_url(base: &str, container: &str, id: &str) -> (r: String)
    ensures
        r@ == resolved_url(base@, container@, id@),
{
    if starts_with_str(id, "http") {
        String::from_str(id)
    } else if starts_with_str(id, "/") {
        let b = trim_end_slashes(base);
        join2(b.as_str(), id)
    } else {
        let c = join2(container, "/");
        let p = join2(c.as_str(), id);
        join_url(base, p.as_str())
    }
}

/// The URL of a search for `query` on the site at `base`.
pub open spec fn search_url_text(base: Seq<char>, query: Seq<char>) -> Seq<char> {
    base + "/?s="@ + percent_encoded(encode_utf8(query)) + "&post_type=wp-manga"@
}

pub fn search_url_for(base: &str, query: &str) -> (r: String)
    ensures
        r@ == search_url_text(base@, query@),
{
    let a = join2(base, "/?s=");
    let e = url_encode(query);
    let b = join2(a.as_str(), e.as_str());
    join2(b.as_str(), "&post_type=wp-manga")
}

/// The texts of the items that carry the attribute, in order.
pub open spec fn linked_texts(items: Seq<(Seq<char>, Option<Seq<char>>)>) -> Seq<Seq<char>>
    decreases items.len(),
{
    if items.len() == 0 {
        seq![]
    } else {
        let p = linked_texts(items.drop_last());
        if items.last().1 is Some {
            p.push(items.last().0)
        } else {
            p
        }
    }
}

/// A link and a title make an entry when both hold more than white space
/// and the link has a path segment.
pub open spec fn kept_link(link: Seq<char>, title: Seq<char>) -> bool {
    trim(title).len() > 0 && trim(link).len() > 0 && last_segment(link) is Some
}

/// The cover of the `i`-th item, if its image address holds more than white space.
pub open spec fn cover_at(covers: Seq<Seq<char>>, i: int, base: Seq<char>) -> Option<Seq<char>> {
    if 0 <= i < covers.len() && trim(covers[i]).len() > 0 {
        Some(absolute_url(base, covers[i]))
    } else {
        None
    }
}

/// Id, title and cover of the entries that the first `n` link and title pairs give.
pub open spec fn search_entries(
    links: Seq<Seq<char>>,
    titles: Seq<Seq<char>>,
    covers: Seq<Seq<char>>,
    base: Seq<char>,
    n: int,
) -> Seq<(Seq<char>, Seq<char>, Option<Seq<char>>)>
    decreases n,
{
    if n <= 0 {
        seq![]
    } else {
        let p = search_entries(links, titles, covers, base, n - 1);
        if kept_link(links[n - 1], titles[n - 1]) {
            p.push((last_segment(links[n - 1])->0, trim(titles[n - 1]), cover_at(covers, n - 1, base)))
        } else {
            p
        }
    }
}

pub open spec fn min(a: int, b: int) -> int {
    if a < b { a } else { b }
}

/// An entry has the id, title and cover of `e`, no other metadata, and the source id.
pub open spec fn entry_matches(m: Manga, e: (Seq<char>, Seq<char>, Option<Seq<char>>), source_id: Seq<char>) -> bool {
    &&& m.id@ == e.0
    &&& m.title@ == e.1
    &&& crate::html::opt_chars(m.cover_url) == e.2
    &&& m.authors@.len() == 0
    &&& m.description is None
    &&& m.tags@.len() == 0
    &&& m.source_id@ == source_id
}

/// The entries of a search result page, from the links and titles of its
/// items and the addresses of its cover images, held to `limit`.
pub fn manga_entries(
    base: &str,
    source_id: &str,
    links: &Vec<String>,
    titles: &Vec<String>,
    covers: &Vec<String>,
    limit: Option<usize>,
) -> (r: Vec<Manga>)
    ensures
        ({
            let e = search_entries(
                links@.map_values(|s: String| s@),
                titles@.map_values(|s: String| s@),
                covers@.map_values(|s: String| s@),
                base@,
                min(links@.len() as int, titles@.len() as int),
            );
            &&& r@.len() == match limit {
                Some(l) => min(l as int, e.len() as int),
                None => e.len() as int,
            }
            &&& forall|k: int| 0 <= k < r@.len() ==> entry_matches(#[trigger] r@[k], e[k], source_id@)
        }),
{
    let ghost lv = links@.map_values(|s: String| s@);
    let ghost tv = titles@.map_values(|s: String| s@);
    let ghost cv = covers@.map_values(|s: String| s@);
    let n = if links.len() < titles.len() { links.len() } else { titles.len() };
    let mut out: Vec<Manga> = Vec::new();
    let mut i: usize = 0;
    while i < n
        invariant
            i <= n,
            n == min(links@.len() as int, titles@.len() as int),
            lv == links@.map_values(|s: String| s@),
            tv == titles@.map_values(|s: String| s@),
            cv == covers@.map_values(|s: String| s@),
            out@.len() == search_entries(lv, tv, cv, base@, i as int).len(),
            forall|k: int|
                0 <= k < out@.len() ==> entry_matches(
                    #[trigger] out@[k],
                    search_entries(lv, tv, cv, base@, i as int)[k],
                    source_id@,
                ),
        decreases n - i,
    {
        let ghost prev = search_entries(lv, tv, cv, base@, i as int);
        let link = &links[i];
        let title = &titles[i];
        let lc = chars_of(link.as_str());
        let tc = chars_of(title.as_str());
        let lt = trimmed(&lc);
        let tt = trimmed(&tc);
        assert(lv[i as int] == link@ && tv[i as int] == title@);
        if lt.len() > 0 && tt.len() > 0 {
            if let Some(id) = last_path_segment(link.as_str()) {
                let cover_url = if i < covers.len() {
                    let cc = chars_of(covers[i].as_str());
                    let ct = trimmed(&cc);
                    if ct.len() > 0 {
                        Some(make_absolute(base, covers[i].as_str()))
                    } else {
                        None
                    }
                } else {
                    None
                };
                proof {
                    if i < covers@.len() {
                        assert(cv[i as int] == covers@[i as int]@);
                    }
                }
                let m = Manga {
                    id,
                    title: string_of(tt.as_slice()),
                    cover_url,
                    authors: Vec::new(),
                    description: None,
                    tags: Vec::new(),
                    source_id: String::from_str(source_id),
                };
                out.push(m);
                proof {
                    let cur = search_entries(lv, tv, cv, base@, i as int + 1);
                    assert(cur == prev.push((last_segment(lv[i as int])->0, trim(tv[i as int]), cover_at(cv, i as int, base@))));
                    assert forall|k: int| 0 <= k < out@.len() implies entry_matches(
                        #[trigger] out@[k],
                        cur[k],
                        source_id@,
                    ) by {
                        if k < prev.len() {
                            assert(cur[k] == prev[k]);
                        }
                    }
                }
            }
        }
        i = i + 1;
    }
    let ghost e = search_entries(lv, tv, cv, base@, n as int);
    let ghost full = out@;
    match limit {
        Some(l) => {
            if l < out.len() {
                out.truncate(l);
                assert(out@ == full.subrange(0, l as int));
            }
        },
        None => {},
    }
    assert forall|k: int| 0 <= k < out@.len() implies entry_matches(#[trigger] out@[k], e[k], source_id@) by {
        assert(out@[k] == full[k]);
    }
    out
}

/// The title a chapter link shows: its text, or `Chapter N` when it has none.
pub open spec fn link_chapter_title(title: Seq<char>, number: nat) -> Seq<char> {
    if trim(title).len() > 0 {
        trim(title)
    } else {
        "Chapter "@ + number_text(number)
    }
}

/// The chapter that the link at position `i` gives.
pub open spec fn chapter_from_link(
    c: Chapter,
    link: Seq<char>,
    title: Seq<char>,
    i: int,
    manga_id: Seq<char>,
    source_id: Seq<char>,
) -> bool {
    &&& trim(link).len() > 0
    &&& last_segment(link) matches Some(id) && c.id@ == id
    &&& c.number.thousandths == chapter_number_spec(trim(title), last_segment(link)->0, i as nat)
    &&& c.title@ == link_chapter_title(title, c.number.thousandths as nat)
    &&& c.pages@.len() == 0
    &&& c.manga_id@ == manga_id
    &&& c.source_id@ == source_id
}

/// The positions, among the first `n`, of the links that give a chapter:
/// those that hold more than white space and have a path segment.
pub open spec fn kept_links(links: Seq<Seq<char>>, titles: Seq<Seq<char>>, n: int) -> Seq<int>
    decreases n,
{
    if n <= 0 {
        seq![]
    } else {
        let p = kept_links(links, titles, n - 1);
        if trim(links[n - 1]).len() > 0 && last_segment(links[n - 1]) is Some {
            p.push(n - 1)
        } else {
            p
        }
    }
}

/// `r` holds one chapter for each link that gives one, in ascending order of
/// number, chapters of equal number in the order of their links.
pub open spec fn link_chapters(
    r: Seq<Chapter>,
    links: Seq<Seq<char>>,
    titles: Seq<Seq<char>>,
    manga_id: Seq<char>,
    source_id: Seq<char>,
) -> bool {
    let kept = kept_links(links, titles, min(links.len() as int, titles.len() as int));
    exists|found: Seq<Chapter>|
        found.len() == kept.len() && (forall|k: int|
            0 <= k < found.len() ==> chapter_from_link(
                #[trigger] found[k],
                links[kept[k]],
                titles[kept[k]],
                kept[k],
                manga_id,
                source_id,
            )) && r == number_sorted(found)
}

/// `c` is the chapter that some link of the list gives.
pub open spec fn listed_chapter(
    c: Chapter,
    links: Seq<Seq<char>>,
    titles: Seq<Seq<char>>,
    manga_id: Seq<char>,
    source_id: Seq<char>,
) -> bool {
    exists|x: int|
        0 <= x < links.len() && x < titles.len() && chapter_from_link(
            c,
            links[x],
            titles[x],
            x,
            manga_id,
            source_id,
        )
}

/// The chapters that a manga page lists, from the links and titles of its
/// chapter list, in ascending order of number.
pub fn chapter_entries(source_id: &str, links: &Vec<String>, titles: &Vec<String>, manga_id: &str) -> (r: Vec<Chapter>)
    ensures
        link_chapters(
            r@,
            links@.map_values(|s: String| s@),
            titles@.map_values(|s: String| s@),
            manga_id@,
            source_id@,
        ),
        numbers_ascending(r@),
        forall|k: int| 0 <= k < r@.len() ==> listed_chapter(
            #[trigger] r@[k],
            links@.map_values(|s: String| s@),
            titles@.map_values(|s: String| s@),
            manga_id@,
            source_id@,
        ),
{
    let n = if links.len() < titles.len() { links.len() } else { titles.len() };
    let ghost lv = links@.map_values(|s: String| s@);
    let ghost tv = titles@.map_values(|s: String| s@);
    let mut found: Vec<Chapter> = Vec::new();
    let ghost mut origin: Seq<int> = seq![];
    let mut i: usize = 0;
    while i < n
        invariant
            i <= n,
            n <= links@.len(),
            n <= titles@.len(),
            n == min(lv.len() as int, tv.len() as int),
            lv == links@.map_values(|s: String| s@),
            tv == titles@.map_values(|s: String| s@),
            origin == kept_links(lv, tv, i as int),
            origin.len() == found@.len(),
            forall|k: int| 0 <= k < found@.len() ==> 0 <= #[trigger] origin[k] < i && chapter_from_link(
                found@[k],
                links@[origin[k]]@,
                titles@[origin[k]]@,
                origin[k],
                manga_id@,
                source_id@,
            ),
        decreases n - i,
    {
        let lc = chars_of(links[i].as_str());
        let lt = trimmed(&lc);
        assert(lv[i as int] == links@[i as int]@ && tv[i as int] == titles@[i as int]@);
        if lt.len() > 0 {
            if let Some(id) = last_path_segment(links[i].as_str()) {
                let tc = chars_of(titles[i].as_str());
                let tt = trimmed(&tc);
                let idc = chars_of(id.as_str());
                let number = chapter_number(&tt, &idc, i);
                let title = if tt.len() > 0 {
                    string_of(tt.as_slice())
                } else {
                    let d = number_chars(number);
                    let ds = string_of(d.as_slice());
                    join2("Chapter ", ds.as_str())
                };
                let c = Chapter {
                    id,
                    number,
                    title,
                    pages: Vec::new(),
                    manga_id: String::from_str(manga_id),
                    source_id: String::from_str(source_id),
                };
                found.push(c);
                proof {
                    origin = origin.push(i as int);
                }
            }
        }
        i = i + 1;
    }
    let ghost unsorted = found@;
    let r = sort_chapters(found);
    proof {
        assert forall|k: int| 0 <= k < unsorted.len() implies chapter_from_link(
            #[trigger] unsorted[k],
            lv[origin[k]],
            tv[origin[k]],
            origin[k],
            manga_id@,
            source_id@,
        ) by {
            assert(lv[origin[k]] == links@[origin[k]]@ && tv[origin[k]] == titles@[origin[k]]@);
        }
        assert(unsorted.len() == kept_links(lv, tv, n as int).len() && (forall|k: int|
            0 <= k < unsorted.len() ==> chapter_from_link(
                #[trigger] unsorted[k],
                lv[kept_links(lv, tv, n as int)[k]],
                tv[kept_links(lv, tv, n as int)[k]],
                kept_links(lv, tv, n as int)[k],
                manga_id@,
                source_id@,
            )) && r@ == number_sorted(unsorted));
        assert forall|k: int| 0 <= k < r@.len() implies listed_chapter(
            #[trigger] r@[k],
            lv,
            tv,
            manga_id@,
            source_id@,
        ) by {
            assert(r@.to_multiset().count(r@[k]) > 0);
            assert(unsorted.contains(r@[k]));
            let j = choose|j: int| 0 <= j < unsorted.len() && unsorted[j] == r@[k];
            let o = origin[j];
            assert(0 <= o < n);
            assert(lv[o] == links@[o]@ && tv[o] == titles@[o]@);
            assert(0 <= o < lv.len() && o < tv.len() && chapter_from_link(
                r@[k],
                lv[o],
                tv[o],
                o,
                manga_id@,
                source_id@,
            ));
        }
    }
    r
}

/// The first address that is present and not empty.
pub open spec fn picked_source(img: ImageSources) -> Option<Seq<char>> {
    if img.src matches Some(s) && s@.len() > 0 {
        Some(img.src->0@)
    } else if img.data_src matches Some(s) && s@.len() > 0 {
        Some(img.data_src->0@)
    } else if img.data_lazy_src matches Some(s) && s@.len() > 0 {
        Some(img.data_lazy_src->0@)
    } else if img.data_original matches Some(s) && s@.len() > 0 {
        Some(img.data_original->0@)
    } else {
        None
    }
}

/// An address worth fetching: no placeholder, at least 10 characters.
pub open spec fn plausible_source(t: Seq<char>) -> bool {
    !has_sub(t, "placeholder"@) && !has_sub(t, "loading"@) && t.len() >= 10
}

/// A page image URL: no advertisement, banner or favicon, not a GIF, and of
/// a picture format.
pub open spec fn page_image_url(u: Seq<char>) -> bool {
    &&& !has_sub(u, "advertisement"@)
    &&& !has_sub(u, "banner"@)
    &&& !has_sub(u, "favicon"@)
    &&& !ends_with(u, ".gif"@)
    &&& (has_sub(u, ".jpg"@) || has_sub(u, ".jpeg"@) || has_sub(u, ".png"@) || has_sub(u, ".webp"@))
}

/// The page URL an image gives, if any.
pub open spec fn page_of_image(img: ImageSources, base: Seq<char>) -> Option<Seq<char>> {
    match picked_source(img) {
        None => None,
        Some(s) => {
            let t = trim(s);
            if plausible_source(t) && page_image_url(absolute_url(base, t)) {
                Some(absolute_url(base, t))
            } else {
                None
            }
        },
    }
}

/// The page URLs of the images, in order.
pub open spec fn pages_of_images(imgs: Seq<ImageSources>, base: Seq<char>) -> Seq<Seq<char>>
    decreases imgs.len(),
{
    if imgs.len() == 0 {
        seq![]
    } else {
        let p = pages_of_images(imgs.drop_last(), base);
        match page_of_image(imgs.last(), base) {
            Some(u) => p.push(u),
            None => p,
        }
    }
}

fn pick_source(img: &ImageSources) -> (r: Option<String>)
    ensures
        match picked_source(*img) {
            None => r is None,
            Some(s) => r matches Some(x) && x@ == s,
        },
{
    if let Some(s) = &img.src {
        if chars_of(s.as_str()).len() > 0 {
            return Some(s.clone());
        }
    }
    if let Some(s) = &img.data_src {
        if chars_of(s.as_str()).len() > 0 {
            return Some(s.clone());
        }
    }
    if let Some(s) = &img.data_lazy_src {
        if chars_of(s.as_str()).len() > 0 {
            return Some(s.clone());
        }
    }
    if let Some(s) = &img.data_original {
        if chars_of(s.as_str()).len() > 0 {
            return Some(s.clone());
        }
    }
    None
}

fn page_of_image_exec(img: &ImageSources, base: &str) -> (r: Option<String>)
    ensures
        match page_of_image(*img, base@) {
            None => r is None,
            Some(u) => r matches Some(x) && x@ == u,
        },
{
    match pick_source(img) {
        None => None,
        Some(s) => {
            let sv = chars_of(s.as_str());
            let tv = trimmed(&sv);
            let t = string_of(tv.as_slice());
            if contains_str(t.as_str(), "placeholder") || contains_str(t.as_str(), "loading")
                || tv.len() < 10 {
                return None;
            }
            let u = make_absolute(base, t.as_str());
            let u_str = u.as_str();
            if contains_str(u_str, "advertisement") || contains_str(u_str, "banner")
                || contains_str(u_str, "favicon") || ends_with_str(u_str, ".gif") {
                return None;
            }
            if contains_str(u_str, ".jpg") || contains_str(u_str, ".jpeg") || contains_str(
                u_str,
                ".png",
            ) || contains_str(u_str, ".webp") {
                Some(u)
            } else {
                None
            }
        },
    }
}

/// The outcome for a chapter page's images: no images, or none left after
/// filtering, is an error; else the page URLs in reading order.
pub open spec fn page_result(imgs: Seq<ImageSources>, base: Seq<char>, r: Result<Vec<String>, Error>) -> bool {
    &&& imgs.len() == 0 ==> (r matches Err(Error::NotFound(m)) && m@ == "No pages found"@)
    &&& imgs.len() > 0 && pages_of_images(imgs, base).len() == 0 ==> (r matches Err(
        Error::NotFound(m),
    ) && m@ == "No valid pages found after filtering"@)
    &&& pages_of_images(imgs, base).len() > 0 ==> (r matches Ok(v) && v@.map_values(
        |s: String| s@,
    ) == pages_of_images(imgs, base))
}

/// The page URLs of a chapter page's images, in reading order. No images,
/// or none left after filtering, is an error.
pub fn page_entries(base: &str, imgs: &Vec<ImageSources>) -> (r: Result<Vec<String>, Error>)
    ensures
        page_result(imgs@, base@, r),
{
    if imgs.len() == 0 {
        return Err(Error::not_found("No pages found"));
    }
    let mut out: Vec<String> = Vec::new();
    let mut i: usize = 0;
    while i < imgs.len()
        invariant
            i <= imgs@.len(),
            out@.map_values(|s: String| s@) == pages_of_images(imgs@.subrange(0, i as int), base@),
        decreases imgs@.len() - i,
    {
        let ghost before = out@;
        assert(imgs@.subrange(0, i as int + 1).drop_last() == imgs@.subrange(0, i as int));
        if let Some(u) = page_of_image_exec(&imgs[i], base) {
            out.push(u);
            assert(out@.map_values(|s: String| s@) == before.map_values(|s: String| s@).push(
                out@.last()@,
            ));
        }
        i = i + 1;
    }
    assert(imgs@.subrange(0, imgs@.len() as int) == imgs@);
    if out.len() == 0 {
        return Err(Error::not_found("No valid pages found after filtering"));
    }
    Ok(out)
}

/// `imgs` holds, element by element, the image attributes of what
/// `selector` matches in `html`.
pub open spec fn images_of_page(imgs: Seq<ImageSources>, html: Seq<char>, selector: Seq<char>) -> bool {
    let a = selected_items(html, selector, "src"@);
    let b = selected_items(html, selector, "data-src"@);
    let c = selected_items(html, selector, "data-lazy-src"@);
    let d = selected_items(html, selector, "data-original"@);
    &&& imgs.len() == min(min(a.len() as int, b.len() as int), min(c.len() as int, d.len() as int))
    &&& forall|k: int| 0 <= k < imgs.len() ==> {
        &&& crate::html::opt_chars((#[trigger] imgs[k]).src) == a[k].1
        &&& crate::html::opt_chars(imgs[k].data_src) == b[k].1
        &&& crate::html::opt_chars(imgs[k].data_lazy_src) == c[k].1
        &&& crate::html::opt_chars(imgs[k].data_original) == d[k].1
    }
}

/// The image sources of every element that `selector` matches in `html`.
pub fn image_sources(html: &str, selector: &str) -> (r: Vec<ImageSources>)
    ensures
        images_of_page(r@, html@, selector@),
{
    let a = select_items(html, selector, "src");
    let b = select_items(html, selector, "data-src");
    let c = select_items(html, selector, "data-lazy-src");
    let d = select_items(html, selector, "data-original");
    let ghost av = a@.map_values(|p: (String, Option<String>)| crate::html::item_view(p));
    let ghost bv = b@.map_values(|p: (String, Option<String>)| crate::html::item_view(p));
    let ghost cv = c@.map_values(|p: (String, Option<String>)| crate::html::item_view(p));
    let ghost dv = d@.map_values(|p: (String, Option<String>)| crate::html::item_view(p));
    let n1 = if a.len() < b.len() { a.len() } else { b.len() };
    let n2 = if c.len() < d.len() { c.len() } else { d.len() };
    let n = if n1 < n2 { n1 } else { n2 };
    let mut r: Vec<ImageSources> = Vec::new();
    let mut i: usize = 0;
    while i < n
        invariant
            i <= n,
            n <= a@.len() && n <= b@.len() && n <= c@.len() && n <= d@.len(),
            r@.len() == i,
            av == a@.map_values(|p: (String, Option<String>)| crate::html::item_view(p)),
            bv == b@.map_values(|p: (String, Option<String>)| crate::html::item_view(p)),
            cv == c@.map_values(|p: (String, Option<String>)| crate::html::item_view(p)),
            dv == d@.map_values(|p: (String, Option<String>)| crate::html::item_view(p)),
            forall|k: int| 0 <= k < i ==> {
                &&& crate::html::opt_chars((#[trigger] r@[k]).src) == av[k].1
                &&& crate::html::opt_chars(r@[k].data_src) == bv[k].1
                &&& crate::html::opt_chars(r@[k].data_lazy_src) == cv[k].1
                &&& crate::html::opt_chars(r@[k].data_original) == dv[k].1
            },
        decreases n - i,
    {
        r.push(
            ImageSources {
                src: a[i].1.clone(),
                data_src: b[i].1.clone(),
                data_lazy_src: c[i].1.clone(),
                data_original: d[i].1.clone(),
            },
        );
        i = i + 1;
    }
    r
}

/// The `href` of each element that `selector` matches and that carries one,
/// with that element's own text.
pub fn linked_items(html: &str, selector: &str) -> (r: (Vec<String>, Vec<String>))
    ensures
        r.0@.map_values(|s: String| s@) == item_attrs(selected_items(html@, selector@, "href"@)),
        r.1@.map_values(|s: String| s@) == linked_texts(selected_items(html@, selector@, "href"@)),
{
    let items = select_items(html, selector, "href");
    let ghost iv = items@.map_values(|p: (String, Option<String>)| crate::html::item_view(p));
    let mut links: Vec<String> = Vec::new();
    let mut titles: Vec<String> = Vec::new();
    let mut i: usize = 0;
    while i < items.len()
        invariant
            i <= items@.len(),
            iv == items@.map_values(|p: (String, Option<String>)| crate::html::item_view(p)),
            links@.map_values(|s: String| s@) == item_attrs(iv.subrange(0, i as int)),
            titles@.map_values(|s: String| s@) == linked_texts(iv.subrange(0, i as int)),
        decreases items@.len() - i,
    {
        let ghost lb = links@;
        let ghost tb = titles@;
        assert(iv.subrange(0, i as int + 1).drop_last() == iv.subrange(0, i as int));
        if let Some(h) = &items[i].1 {
            links.push(h.clone());
            titles.push(items[i].0.clone());
            assert(links@.map_values(|s: String| s@) == lb.map_values(|s: String| s@).push(h@));
            assert(titles@.map_values(|s: String| s@) == tb.map_values(|s: String| s@).push(
                items@[i as int].0@,
            ));
        }
        i = i + 1;
    }
    assert(iv.subrange(0, items@.len() as int) == iv);
    (links, titles)
}

/// The cover address of each image: its first present, non-empty source, or
/// nothing.
pub open spec fn cover_sources(imgs: Seq<ImageSources>) -> Seq<Seq<char>> {
    imgs.map_values(|i: ImageSources| match picked_source(i) {
        Some(c) => c,
        None => seq![],
    })
}

fn cover_list(imgs: &Vec<ImageSources>) -> (r: Vec<String>)
    ensures
        r@.map_values(|s: String| s@) == cover_sources(imgs@),
{
    let mut r: Vec<String> = Vec::new();
    let mut i: usize = 0;
    while i < imgs.len()
        invariant
            i <= imgs@.len(),
            r@.map_values(|s: String| s@) == cover_sources(imgs@.subrange(0, i as int)),
        decreases imgs@.len() - i,
    {
        let ghost before = r@;
        let c = match pick_source(&imgs[i]) {
            Some(c) => c,
            None => String::new(),
        };
        r.push(c);
        assert(r@.map_values(|s: String| s@) == before.map_values(|s: String| s@).push(
            cover_sources(imgs@)[i as int],
        ));
        assert(cover_sources(imgs@.subrange(0, i as int + 1)) =~= cover_sources(
            imgs@.subrange(0, i as int),
        ).push(cover_sources(imgs@)[i as int]));
        i = i + 1;
    }
    assert(imgs@.subrange(0, imgs@.len() as int) == imgs@);
    r
}

/// The entries that the links matched by `selector` give: each link that
/// carries an `href` is an item, its text the title and its last path
/// segment the id; at most `limit` of them.
pub fn parse_manga_items(html: &str, selector: &str, base: &str, source_id: &str, limit: Option<usize>) -> (r: Vec<Manga>)
    ensures
        ({
            let items = selected_items(html@, selector@, "href"@);
            let links = item_attrs(items);
            let titles = linked_texts(items);
            let e = search_entries(links, titles, seq![], base@, min(links.len() as int, titles.len() as int));
            &&& r@.len() == match limit {
                Some(l) => min(l as int, e.len() as int),
                None => e.len() as int,
            }
            &&& forall|k: int| 0 <= k < r@.len() ==> entry_matches(#[trigger] r@[k], e[k], source_id@)
        }),
{
    let (links, titles) = linked_items(html, selector);
    let covers: Vec<String> = Vec::new();
    assert(covers@.map_values(|s: String| s@) =~= Seq::<Seq<char>>::empty());
    manga_entries(base, source_id, &links, &titles, &covers, limit)
}

/// `r` is the entries that the links, their own titles and the covers give,
/// held to `limit`.
pub open spec fn search_page_result(
    r: Seq<Manga>,
    links: Seq<Seq<char>>,
    titles: Seq<Seq<char>>,
    covers: Seq<Seq<char>>,
    base: Seq<char>,
    source_id: Seq<char>,
    limit: Option<usize>,
) -> bool {
    let e = search_entries(links, titles, covers, base, min(links.len() as int, titles.len() as int));
    &&& r.len() == match limit {
        Some(l) => min(l as int, e.len() as int),
        None => e.len() as int,
    }
    &&& forall|k: int| 0 <= k < r.len() ==> entry_matches(#[trigger] r[k], e[k], source_id)
}

/// A blog-theme site described by its configuration.
pub struct ConfigurableMadaraSource {
    config: MadaraConfig,
}

impl ConfigurableMadaraSource {
    pub closed spec fn spec_config(&self) -> MadaraConfig {
        self.config
    }

    pub fn new(config: MadaraConfig) -> (r: ConfigurableMadaraSource)
        ensures
            r.spec_config() == config,
    {
        ConfigurableMadaraSource { config }
    }

    pub fn config(&self) -> (r: &MadaraConfig)
        ensures
            *r == self.spec_config(),
    {
        &self.config
    }

    pub fn id(&self) -> (r: &'static str)
        ensures
            r == self.spec_config().id,
    {
        self.config.id
    }

    pub fn name(&self) -> (r: &'static str)
        ensures
            r == self.spec_config().name,
    {
        self.config.name
    }

    pub fn base_url(&self) -> (r: &'static str)
        ensures
            r == self.spec_config().base_url,
    {
        self.config.base_url
    }

    /// `path` joined onto the base URL with one `/` between them.
    pub fn full_url(&self, path: &str) -> (r: String)
        ensures
            r@ == joined_url(self.spec_config().base_url@, path@),
    {
        join_url(self.config.base_url, path)
    }

    pub fn search_url(&self, params: &SearchParams) -> (r: String)
        ensures
            r@ == search_url_text(self.spec_config().base_url@, params.query@),
    {
        search_url_for(self.config.base_url, params.query.as_str())
    }

    /// The URL of a manga or chapter id on the site.
    pub fn item_url(&self, id: &str) -> (r: String)
        ensures
            r@ == resolved_url(self.spec_config().base_url@, self.spec_config().manga_path@, id@),
    {
        resolve_url(self.config.base_url, self.config.manga_path, id)
    }

    /// The entries of a search result page.
    pub fn search_results(&self, html: &str, params: &SearchParams) -> (r: Vec<Manga>)
        ensures
            exists|imgs: Seq<ImageSources>|
                images_of_page(imgs, html@, self.spec_config().selectors.cover_image@)
                    && search_page_result(
                    r@,
                    item_attrs(selected_items(html@, self.spec_config().selectors.manga_item@, "href"@)),
                    linked_texts(selected_items(html@, self.spec_config().selectors.manga_item@, "href"@)),
                    cover_sources(imgs),
                    self.spec_config().base_url@,
                    self.spec_config().id@,
                    params.limit,
                ),
    {
        let sel = &self.config.selectors;
        let (links, titles) = linked_items(html, sel.manga_item.as_str());
        let imgs = image_sources(html, sel.cover_image.as_str());
        let covers = cover_list(&imgs);
        let r = manga_entries(self.config.base_url, self.config.id, &links, &titles, &covers, params.limit);
        assert(images_of_page(imgs@, html@, self.spec_config().selectors.cover_image@)
            && search_page_result(
            r@,
            item_attrs(selected_items(html@, self.spec_config().selectors.manga_item@, "href"@)),
            linked_texts(selected_items(html@, self.spec_config().selectors.manga_item@, "href"@)),
            cover_sources(imgs@),
            self.spec_config().base_url@,
            self.spec_config().id@,
            params.limit,
        ));
        r
    }

    /// The chapters a manga page lists.
    pub fn chapters(&self, html: &str, manga_id: &str) -> (r: Vec<Chapter>)
        ensures
            numbers_ascending(r@),
            forall|k: int| 0 <= k < r@.len() ==> (#[trigger] r@[k]).manga_id@ == manga_id@
                && r@[k].source_id@ == self.spec_config().id@,
            forall|k: int| 0 <= k < r@.len() ==> listed_chapter(
                #[trigger] r@[k],
                item_attrs(selected_items(html@, self.spec_config().selectors.chapter_links@, "href"@)),
                item_texts(selected_items(html@, self.spec_config().selectors.chapter_titles@, "href"@)),
                manga_id@,
                self.spec_config().id@,
            ),
            link_chapters(
                r@,
                item_attrs(selected_items(html@, self.spec_config().selectors.chapter_links@, "href"@)),
                item_texts(selected_items(html@, self.spec_config().selectors.chapter_titles@, "href"@)),
                manga_id@,
                self.spec_config().id@,
            ),
    {
        let sel = &self.config.selectors;
        let links = select_all_attr(html, sel.chapter_links.as_str(), "href");
        let titles = select_all_text(html, sel.chapter_titles.as_str());
        let r = chapter_entries(self.config.id, &links, &titles, manga_id);
        assert forall|k: int| 0 <= k < r@.len() implies (#[trigger] r@[k]).manga_id@ == manga_id@
            && r@[k].source_id@ == self.spec_config().id@ by {
            let lv = links@.map_values(|s: String| s@);
            let tv = titles@.map_values(|s: String| s@);
            assert(listed_chapter(r@[k], lv, tv, manga_id@, self.config.id@));
            let i = choose|i: int| 0 <= i < lv.len() && i < tv.len() && chapter_from_link(
                r@[k], lv[i], tv[i], i, manga_id@, self.config.id@);
        }
        r
    }

    /// The page URLs of a chapter page.
    pub fn pages(&self, html: &str) -> (r: Result<Vec<String>, Error>)
        ensures
            exists|imgs: Seq<ImageSources>|
                images_of_page(imgs, html@, self.spec_config().selectors.chapter_pages@)
                    && page_result(imgs, self.spec_config().base_url@, r),
    {
        let imgs = image_sources(html, self.config.selectors.chapter_pages.as_str());
        let r = page_entries(self.config.base_url, &imgs);
        assert(images_of_page(imgs@, html@, self.spec_config().selectors.chapter_pages@)
            && page_result(imgs@, self.spec_config().base_url@, r));
        r
    }
}

/// The configuration of the KissManga site.
pub fn kissmanga_config() -> (r: MadaraConfig)
    ensures
        r.id@ == "kmg"@,
        r.name@ == "KissManga"@,
        r.base_url@ == "https://kissmanga.in"@,
        r.manga_path@ == "kissmanga"@,
{
    let mut headers: Vec<(String, String)> = Vec::new();
    headers.push((String::from_str("User-Agent"), String::from_str("Mozilla/5.0 (Windows NT 10.0; Win64; x64) AppleWebKit/537.36 (KHTML, like Gecko) Chrome/91.0.4472.124 Safari/537.36")));
    headers.push((String::from_str("Accept"), String::from_str("text/html,application/xhtml+xml,application/xml;q=0.9,*/*;q=0.8")));
    headers.push((String::from_str("Accept-Language"), String::from_str("en-US,en;q=0.9")));
    headers.push((String::from_str("Cache-Control"), String::from_str("no-cache")));
    headers.push((String::from_str("Referer"), String::from_str("https://kissmanga.in/")));
    MadaraConfig {
        id: "kmg",
        name: "KissManga",
        base_url: "https://kissmanga.in",
        manga_path: "kissmanga",
        headers: Some(headers),
        selectors: MadaraSelectors {
            manga_item: String::from_str(".c-tabs-item__content .post-title h3 a"),
            chapter_links: String::from_str(".wp-manga-chapter a"),
            chapter_titles: String::from_str(".wp-manga-chapter a"),
            chapter_pages: String::from_str(".reading-content .page-break img"),
            cover_image: String::from_str(".c-tabs-item__content .tab-thumb img"),
        },
    }
}

/// The KissManga site.
pub struct KissMangaSource {
    inner: ConfigurableMadaraSource,
}

impl KissMangaSource {
    pub closed spec fn spec_inner(&self) -> ConfigurableMadaraSource {
        self.inner
    }

    pub fn new() -> (r: KissMangaSource)
        ensures
            r.spec_inner().spec_config().id@ == "kmg"@,
            r.spec_inner().spec_config().base_url@ == "https://kissmanga.in"@,
    {
        KissMangaSource { inner: ConfigurableMadaraSource::new(kissmanga_config()) }
    }

    /// The configured site this one is.
    pub fn inner(&self) -> (r: &ConfigurableMadaraSource)
        ensures
            *r == self.spec_inner(),
    {
        &self.inner
    }
}

/// A blog-theme site at any base URL, with the theme's default selectors.
pub struct MadaraSource {
    base_url: String,
}

impl MadaraSource {
    pub closed spec fn spec_base_url(&self) -> Seq<char> {
        self.base_url@
    }

    pub fn new(base_url: String) -> (r: MadaraSource)
        ensures
            r.spec_base_url() == base_url@,
    {
        MadaraSource { base_url }
    }

    pub fn id(&self) -> (r: &'static str)
        ensures
            r@ == "madara"@,
    {
        "madara"
    }

    pub fn name(&self) -> (r: &'static str)
        ensures
            r@ == "Madara Site"@,
    {
        "Madara Site"
    }

    pub fn base_url(&self) -> (r: &str)
        ensures
            r@ == self.spec_base_url(),
    {
        self.base_url.as_str()
    }

    pub fn search_url(&self, params: &SearchParams) -> (r: String)
        ensures
            r@ == search_url_text(self.spec_base_url(), params.query@),
    {
        search_url_for(self.base_url.as_str(), params.query.as_str())
    }

    /// The URL of a manga or chapter id on the site.
    pub fn item_url(&self, id: &str) -> (r: String)
        ensures
            r@ == resolved_url(self.spec_base_url(), "manga"@, id@),
    {
        resolve_url(self.base_url.as_str(), "manga", id)
    }

    /// The entries of a search result page: the title links of its items.
    pub fn search_results(&self, html: &str, params: &SearchParams) -> (r: Vec<Manga>)
        ensures
            ({
                let items = selected_items(html@, ".post-title a"@, "href"@);
                let links = item_attrs(items);
                let titles = linked_texts(items);
                let e = search_entries(links, titles, seq![], self.spec_base_url(), min(links.len() as int, titles.len() as int));
                &&& r@.len() == match params.limit {
                    Some(l) => min(l as int, e.len() as int),
                    None => e.len() as int,
                }
                &&& forall|k: int| 0 <= k < r@.len() ==> entry_matches(#[trigger] r@[k], e[k], "madara"@)
            }),
    {
        parse_manga_items(html, ".post-title a", self.base_url.as_str(), "madara", params.limit)
    }

    /// The chapters a manga page lists.
    pub fn chapters(&self, html: &str, manga_id: &str) -> (r: Vec<Chapter>)
        ensures
            numbers_ascending(r@),
            forall|k: int| 0 <= k < r@.len() ==> listed_chapter(
                #[trigger] r@[k],
                item_attrs(selected_items(html@, "li.wp-manga-chapter a"@, "href"@)),
                item_texts(selected_items(html@, "li.wp-manga-chapter a"@, "href"@)),
                manga_id@,
                "madara"@,
            ),
            link_chapters(
                r@,
                item_attrs(selected_items(html@, "li.wp-manga-chapter a"@, "href"@)),
                item_texts(selected_items(html@, "li.wp-manga-chapter a"@, "href"@)),
                manga_id@,
                "madara"@,
            ),
    {
        let links = select_all_attr(html, "li.wp-manga-chapter a", "href");
        let titles = select_all_text(html, "li.wp-manga-chapter a");
        chapter_entries("madara", &links, &titles, manga_id)
    }

    /// The page URLs of a chapter page.
    pub fn pages(&self, html: &str) -> (r: Result<Vec<String>, Error>)
        ensures
            exists|imgs: Seq<ImageSources>|
                images_of_page(imgs, html@, ".page-break img"@) && page_result(
                    imgs,
                    self.spec_base_url(),
                    r,
                ),
    {
        let imgs = image_sources(html, ".page-break img");
        let r = page_entries(self.base_url.as_str(), &imgs);
        assert(images_of_page(imgs@, html@, ".page-break img"@) && page_result(
            imgs@,
            self.spec_base_url(),
            r,
        ));
        r
    }
}

impl Identified for ConfigurableMadaraSource {
    fn id(&self) -> String {
        String::from_str(self.config.id)
    }
}

impl Identified for KissMangaSource {
    fn id(&self) -> String {
        String::from_str(self.inner.config.id)
    }
}

impl Identified for MadaraSource {
    fn id(&self) -> String {
        String::from_str("madara")
    }
}

proof fn lemma_absolute_scheme(base: Seq<char>, u: Seq<char>)
    requires
        has_web_scheme(strip_end_slashes(base)),
    ensures
        has_web_scheme(absolute_url(base, u)),
{
    reveal_strlit("https:");
    reveal_strlit("https://");
    reveal_strlit("http://");
    reveal_strlit("//");
    if starts_with(u, "//"@) {
        assert(u[0] == u.subrange(0, 2)[0] && u[1] == u.subrange(0, 2)[1]);
        assert(("https:"@ + u).subrange(0, 8) =~= "https://"@);
    } else if has_web_scheme(u) {
    } else {
        let b = strip_end_slashes(base);
        let j = b + seq!['/'] + crate::url::strip_start_slashes(u);
        assert(j.subrange(0, 7) =~= b.subrange(0, 7));
        if b.len() >= 8 {
            assert(j.subrange(0, 8) =~= b.subrange(0, 8));
        }
    }
}

/// On a site whose base URL has a web scheme, every page URL that a chapter
/// page gives is absolute: it has a web scheme too.
pub proof fn page_urls_absolute_law(imgs: Seq<ImageSources>, base: Seq<char>)
    requires
        has_web_scheme(strip_end_slashes(base)),
    ensures
        forall|k: int|
            0 <= k < pages_of_images(imgs, base).len() ==> has_web_scheme(
                #[trigger] pages_of_images(imgs, base)[k],
            ),
    decreases imgs.len(),
{
    if imgs.len() > 0 {
        let p = pages_of_images(imgs.drop_last(), base);
        page_urls_absolute_law(imgs.drop_last(), base);
        if let Some(u) = page_of_image(imgs.last(), base) {
            let s = picked_source(imgs.last())->0;
            lemma_absolute_scheme(base, trim(s));
            assert(u == absolute_url(base, trim(s)));
            assert(pages_of_images(imgs, base) == p.push(u));
            assert forall|k: int| 0 <= k < p.len() + 1 implies has_web_scheme(
                #[trigger] p.push(u)[k],
            ) by {
                if k < p.len() {
                    assert(p.push(u)[k] == p[k]);
                }
            }
        }
    }
}

} // verus!
