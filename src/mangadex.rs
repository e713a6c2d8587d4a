//! The JSON API catalog: its requests, and how its records become entries,
//! chapters and page URLs.
use vstd::prelude::*;
use vstd::utf8::encode_utf8;
use crate::number::{number_chars, number_text, parse_plain_number, plain_number};
use crate::text::{chars_of, decimal, decimal_chars, join2, same_text, string_of, trim, trimmed};
use crate::search::Identified;
use crate::types::{Chapter, ChapterNumber, Error, Manga, SearchParams, SortOrder};
use crate::url::{percent_encoded, strip_end_slashes, trim_end_slashes, url_encode};

verus! {

broadcast use vstd::seq_lib::group_to_multiset_ensures, vstd::multiset::group_multiset_axioms;

/// A text in several languages, as locale and text pairs in the order the
/// catalog's JSON object lists them.
pub type LocalizedText = Vec<(String, String)>;

/// A link from a record to another object, with the attributes the catalog
/// sent along.
#[derive(Debug, Clone, PartialEq, Eq)]
pub struct Relationship {
    pub rel_type: String,
    pub name: Option<String>,
    pub file_name: Option<String>,
}

/// A manga record of the catalog.
#[derive(Debug, Clone, PartialEq, Eq)]
pub struct MangaRecord {
    pub id: String,
    pub title: LocalizedText,
    pub description: LocalizedText,
    pub tags: Vec<LocalizedText>,
    pub relationships: Vec<Relationship>,
}

/// A chapter record of the catalog's feed.
#[derive(Debug, Clone, PartialEq, Eq)]
pub struct ChapterRecord {
    pub id: String,
    pub title: Option<String>,
    pub chapter: Option<String>,
}

/// What the at-home server endpoint answers for a chapter.
#[derive(Debug, Clone, PartialEq, Eq)]
pub struct AtHomeServer {
    pub base_url: String,
    pub hash: String,
    pub data: Vec<String>,
    pub data_saver: Vec<String>,
}

/// The JSON API catalog.
#[derive(Debug, Clone)]
pub struct MangaDexSource {
    api_base: String,
}

/// The value of the first pair from `i` on whose locale is `k`.
pub open spec fn lookup_from(m: Seq<(String, String)>, k: Seq<char>, i: int) -> Option<Seq<char>>
    decreases m.len() - i,
{
    if i < 0 || i >= m.len() {
        None
    } else if m[i].0@ == k {
        Some(m[i].1@)
    } else {
        lookup_from(m, k, i + 1)
    }
}

/// The first value from `i` on that holds more than white space.
pub open spec fn first_usable_from(m: Seq<(String, String)>, i: int) -> Option<Seq<char>>
    decreases m.len() - i,
{
    if i < 0 || i >= m.len() {
        None
    } else if trim(m[i].1@).len() > 0 {
        Some(m[i].1@)
    } else {
        first_usable_from(m, i + 1)
    }
}

pub open spec fn usable(v: Option<Seq<char>>) -> bool {
    v matches Some(t) && trim(t).len() > 0
}

/// The text to show: the first usable one of `en`, `en-us`, `ja`, `ja-ro`,
/// else the first usable one, trimmed; else `Unknown Title`.
pub open spec fn best_title(m: Seq<(String, String)>) -> Seq<char> {
    let en = lookup_from(m, "en"@, 0);
    let en_us = lookup_from(m, "en-us"@, 0);
    let ja = lookup_from(m, "ja"@, 0);
    let ja_ro = lookup_from(m, "ja-ro"@, 0);
    if usable(en) {
        trim(en->0)
    } else if usable(en_us) {
        trim(en_us->0)
    } else if usable(ja) {
        trim(ja->0)
    } else if usable(ja_ro) {
        trim(ja_ro->0)
    } else {
        match first_usable_from(m, 0) {
            Some(v) => trim(v),
            None => "Unknown Title"@,
        }
    }
}

/// The names of the authors and artists among the relationships, in order.
pub open spec fn author_names(rels: Seq<Relationship>) -> Seq<Seq<char>>
    decreases rels.len(),
{
    if rels.len() == 0 {
        seq![]
    } else {
        let p = author_names(rels.drop_last());
        let r = rels.last();
        if (r.rel_type@ == "author"@ || r.rel_type@ == "artist"@) && r.name is Some {
            p.push(r.name->0@)
        } else {
            p
        }
    }
}

/// The file name carried by the first cover relationship from `i` on.
pub open spec fn cover_file_from(rels: Seq<Relationship>, i: int) -> Option<Seq<char>>
    decreases rels.len() - i,
{
    if i < 0 || i >= rels.len() {
        None
    } else if rels[i].rel_type@ == "cover_art"@ {
        match rels[i].file_name {
            Some(f) => Some(f@),
            None => None,
        }
    } else {
        cover_file_from(rels, i + 1)
    }
}

/// The description to keep: none when the chosen text is empty or is the
/// placeholder title.
pub open spec fn kept_description(d: Seq<char>) -> Option<Seq<char>> {
    if d.len() == 0 || d == "Unknown Title"@ {
        None
    } else {
        Some(d)
    }
}

/// The query string of a search.
pub open spec fn search_query_text(query: Seq<char>, p: SearchParams) -> Seq<char> {
    "title="@ + percent_encoded(encode_utf8(query)) + "&limit="@ + decimal(
        match p.limit {
            Some(l) => l as nat,
            None => 20,
        },
    ) + "&includes[]=cover_art"@ + match p.sort_by {
        Some(SortOrder::UpdatedAt) => "&order[updatedAt]=desc"@,
        Some(SortOrder::CreatedAt) => "&order[createdAt]=desc"@,
        Some(SortOrder::Title) => "&order[title]=asc"@,
        _ => "&order[relevance]=desc"@,
    } + "&contentRating[]=safe&contentRating[]=suggestive&contentRating[]=erotica&contentRating[]=pornographic"@
        + match p.offset {
        Some(o) => "&offset="@ + decimal(o as nat),
        None => seq![],
    }
}

/// The query string of one page of a chapter feed.
pub open spec fn chapters_query_text(offset: nat, limit: nat) -> Seq<char> {
    "limit="@ + decimal(limit) + "&offset="@ + decimal(offset)
        + "&order[volume]=asc&order[chapter]=asc&translatedLanguage[]=en&contentRating[]=safe&contentRating[]=suggestive&contentRating[]=erotica&contentRating[]=pornographic"@
}

/// The title a chapter record gets: its own, or `Chapter N` when it has none.
pub open spec fn chapter_title(d: ChapterRecord, number: nat) -> Seq<char> {
    match d.title {
        Some(t) => if t@.len() > 0 {
            t@
        } else {
            "Chapter "@ + number_text(number)
        },
        None => "Chapter "@ + number_text(number),
    }
}

pub open spec fn record_number(d: ChapterRecord) -> nat {
    match d.chapter {
        Some(c) => plain_number(c@),
        None => 0,
    }
}

/// The chapter a record becomes.
pub open spec fn chapter_from_record(c: Chapter, d: ChapterRecord, manga_id: Seq<char>) -> bool {
    &&& c.id@ == d.id@
    &&& c.number.thousandths == record_number(d)
    &&& c.title@ == chapter_title(d, record_number(d))
    &&& c.pages@.len() == 0
    &&& c.manga_id@ == manga_id
    &&& c.source_id@ == "mgd"@
}

/// `r` is the stable sort by number of the chapters the records become.
pub open spec fn feed_chapters(r: Seq<Chapter>, records: Seq<ChapterRecord>, manga_id: Seq<char>) -> bool {
    exists|m: Seq<Chapter>|
        m.len() == records.len() && (forall|k: int|
            0 <= k < m.len() ==> chapter_from_record(#[trigger] m[k], records[k], manga_id)) && r
            == number_sorted(m)
}

/// Ascending chapter numbers.
pub open spec fn numbers_ascending(s: Seq<Chapter>) -> bool {
    forall|i: int, j: int|
        0 <= i < j < s.len() ==> (#[trigger] s[i]).number.thousandths <= (
        #[trigger] s[j]).number.thousandths
}

/// The page URLs of a chapter: the full-quality files, or the data-saver
/// files when there are none, under `{base}/data/{hash}/` or
/// `{base}/data-saver/{hash}/`.
pub open spec fn page_urls_spec(s: AtHomeServer, chapter_id: Seq<char>) -> Result<
    Seq<Seq<char>>,
    Error,
> {
    if s.hash@.len() == 0 {
        Err(Error::Parse(arbitrary()))
    } else if s.base_url@.len() == 0 {
        Err(Error::Parse(arbitrary()))
    } else if s.data@.len() > 0 {
        Ok(
            s.data@.map_values(
                |f: String| strip_end_slashes(s.base_url@) + "/data/"@ + s.hash@ + "/"@ + f@,
            ),
        )
    } else if s.data_saver@.len() > 0 {
        Ok(
            s.data_saver@.map_values(
                |f: String| strip_end_slashes(s.base_url@) + "/data-saver/"@ + s.hash@ + "/"@ + f@,
            ),
        )
    } else {
        Err(Error::NotFound(arbitrary()))
    }
}

fn find_locale(m: &Vec<(String, String)>, k: &str) -> (r: Option<usize>)
    ensures
        match lookup_from(m@, k@, 0) {
            None => r is None,
            Some(v) => r matches Some(i) && i < m@.len() && m@[i as int].1@ == v,
        },
{
    let mut i: usize = 0;
    while i < m.len()
        invariant
            i <= m@.len(),
            lookup_from(m@, k@, 0) == lookup_from(m@, k@, i as int),
        decreases m@.len() - i,
    {
        if same_text(m[i].0.as_str(), k) {
            return Some(i);
        }
        i = i + 1;
    }
    None
}

fn usable_trimmed(m: &Vec<(String, String)>, i: Option<usize>) -> (r: Option<Vec<char>>)
    requires
        i matches Some(k) ==> k < m@.len(),
    ensures
        match i {
            None => r is None,
            Some(k) => if trim(m@[k as int].1@).len() > 0 {
                r matches Some(t) && t@ == trim(m@[k as int].1@)
            } else {
                r is None
            },
        },
{
    match i {
        None => None,
        Some(k) => {
            let v = chars_of(m[k].1.as_str());
            let t = trimmed(&v);
            if t.len() > 0 {
                Some(t)
            } else {
                None
            }
        },
    }
}

/// The role of a relationship is one of an author.
fn is_author(r: &Relationship) -> (b: bool)
    ensures
        b == (r.rel_type@ == "author"@ || r.rel_type@ == "artist"@),
{
    same_text(r.rel_type.as_str(), "author") || same_text(r.rel_type.as_str(), "artist")
}

impl MangaDexSource {
    pub closed spec fn spec_api_base(&self) -> Seq<char> {
        self.api_base@
    }

    pub fn new() -> (r: MangaDexSource)
        ensures
            r.spec_api_base() == "https://api.mangadex.org"@,
    {
        MangaDexSource { api_base: String::from_str("https://api.mangadex.org") }
    }

    pub fn id(&self) -> (r: &'static str)
        ensures
            r@ == "mgd"@,
    {
        "mgd"
    }

    pub fn name(&self) -> (r: &'static str)
        ensures
            r@ == "MangaDex"@,
    {
        "MangaDex"
    }

    pub fn base_url(&self) -> (r: &'static str)
        ensures
            r@ == "https://mangadex.org"@,
    {
        "https://mangadex.org"
    }

    /// The text to show out of a text in several languages.
    pub fn extract_best_title(title_map: &LocalizedText) -> (r: String)
        ensures
            r@ == best_title(title_map@),
    {
        let en = usable_trimmed(title_map, find_locale(title_map, "en"));
        if let Some(t) = en {
            return string_of(t.as_slice());
        }
        let en_us = usable_trimmed(title_map, find_locale(title_map, "en-us"));
        if let Some(t) = en_us {
            return string_of(t.as_slice());
        }
        let ja = usable_trimmed(title_map, find_locale(title_map, "ja"));
        if let Some(t) = ja {
            return string_of(t.as_slice());
        }
        let ja_ro = usable_trimmed(title_map, find_locale(title_map, "ja-ro"));
        if let Some(t) = ja_ro {
            return string_of(t.as_slice());
        }
        let mut i: usize = 0;
        while i < title_map.len()
            invariant
                i <= title_map@.len(),
                first_usable_from(title_map@, 0) == first_usable_from(title_map@, i as int),
                !usable(lookup_from(title_map@, "en"@, 0)),
                !usable(lookup_from(title_map@, "en-us"@, 0)),
                !usable(lookup_from(title_map@, "ja"@, 0)),
                !usable(lookup_from(title_map@, "ja-ro"@, 0)),
            decreases title_map@.len() - i,
        {
            let v = chars_of(title_map[i].1.as_str());
            let t = trimmed(&v);
            if t.len() > 0 {
                return string_of(t.as_slice());
            }
            i = i + 1;
        }
        String::from_str("Unknown Title")
    }

    /// The query string of a search for `query` with `params`.
    pub fn format_search_query(&self, query: &str, params: &SearchParams) -> (r: String)
        ensures
            r@ == search_query_text(query@, *params),
    {
        let enc = url_encode(query);
        let mut r = join2("title=", enc.as_str());
        r.append("&limit=");
        let limit: u64 = match params.limit {
            Some(l) => l as u64,
            None => 20,
        };
        let ld = decimal_chars(limit);
        let ls = string_of(ld.as_slice());
        r.append(ls.as_str());
        r.append("&includes[]=cover_art");
        match params.sort_by {
            Some(SortOrder::UpdatedAt) => r.append("&order[updatedAt]=desc"),
            Some(SortOrder::CreatedAt) => r.append("&order[createdAt]=desc"),
            Some(SortOrder::Title) => r.append("&order[title]=asc"),
            _ => r.append("&order[relevance]=desc"),
        }
        r.append(
            "&contentRating[]=safe&contentRating[]=suggestive&contentRating[]=erotica&contentRating[]=pornographic",
        );
        let ghost before = r@;
        match params.offset {
            Some(o) => {
                r.append("&offset=");
                let od = decimal_chars(o as u64);
                let os = string_of(od.as_slice());
                r.append(os.as_str());
            },
            None => {
                assert(r@ == before + seq![]);
            },
        }
        r
    }

    /// The query string of the feed page at `offset` with `limit` chapters.
    pub fn format_chapters_query(&self, offset: u32, limit: u32) -> (r: String)
        ensures
            r@ == chapters_query_text(offset as nat, limit as nat),
    {
        let mut r = String::from_str("limit=");
        let ld = decimal_chars(limit as u64);
        let ls = string_of(ld.as_slice());
        r.append(ls.as_str());
        r.append("&offset=");
        let od = decimal_chars(offset as u64);
        let os = string_of(od.as_slice());
        r.append(os.as_str());
        r.append(
            "&order[volume]=asc&order[chapter]=asc&translatedLanguage[]=en&contentRating[]=safe&contentRating[]=suggestive&contentRating[]=erotica&contentRating[]=pornographic",
        );
        r
    }

    /// The URL of a search with `params`.
    pub fn search_url(&self, params: &SearchParams) -> (r: String)
        ensures
            r@ == self.spec_api_base() + "/manga?"@ + search_query_text(params.query@, *params),
    {
        let q = self.format_search_query(params.query.as_str(), params);
        let a = join2(self.api_base.as_str(), "/manga?");
        join2(a.as_str(), q.as_str())
    }

    /// The URL of the feed page of `manga_id` at `offset`.
    pub fn feed_url(&self, manga_id: &str, offset: u32, limit: u32) -> (r: String)
        ensures
            r@ == self.spec_api_base() + "/manga/"@ + manga_id@ + "/feed?"@ + chapters_query_text(
                offset as nat,
                limit as nat,
            ),
    {
        let q = self.format_chapters_query(offset, limit);
        let a = join2(self.api_base.as_str(), "/manga/");
        let b = join2(a.as_str(), manga_id);
        let c = join2(b.as_str(), "/feed?");
        join2(c.as_str(), q.as_str())
    }

    /// The URL of the record of a chapter.
    pub fn chapter_url(&self, chapter_id: &str) -> (r: String)
        ensures
            r@ == self.spec_api_base() + "/chapter/"@ + chapter_id@,
    {
        let a = join2(self.api_base.as_str(), "/chapter/");
        join2(a.as_str(), chapter_id)
    }

    /// The URL of the at-home server information of a chapter.
    pub fn at_home_url(&self, chapter_id: &str) -> (r: String)
        ensures
            r@ == self.spec_api_base() + "/at-home/server/"@ + chapter_id@,
    {
        let a = join2(self.api_base.as_str(), "/at-home/server/");
        join2(a.as_str(), chapter_id)
    }

    /// The offset of the next feed page, or none when the page at `offset`
    /// with `limit` entries reached `total`, or when a page holds no entries
    /// (`limit` is zero) and paging would not advance.
    pub fn next_feed_offset(total: u32, offset: u32, limit: u32) -> (r: Option<u32>)
        ensures
            (limit == 0 || total as int <= offset as int + limit as int) <==> r is None,
            r matches Some(n) ==> n as int == offset as int + limit as int,
    {
        if limit == 0 || total as u64 <= offset as u64 + limit as u64 {
            None
        } else {
            Some(offset + limit)
        }
    }

    /// The file name of the first cover relationship.
    fn extract_cover_filename(&self, data: &MangaRecord) -> (r: Option<String>)
        ensures
            match cover_file_from(data.relationships@, 0) {
                None => r is None,
                Some(f) => r matches Some(s) && s@ == f,
            },
    {
        let rels = &data.relationships;
        let mut i: usize = 0;
        while i < rels.len()
            invariant
                i <= rels@.len(),
                rels@ == data.relationships@,
                cover_file_from(rels@, 0) == cover_file_from(rels@, i as int),
            decreases rels@.len() - i,
        {
            if same_text(rels[i].rel_type.as_str(), "cover_art") {
                return match &rels[i].file_name {
                    Some(f) => Some(f.clone()),
                    None => None,
                };
            }
            i = i + 1;
        }
        None
    }

    /// The entry a manga record becomes.
    pub fn map_manga_data_to_manga(&self, data: &MangaRecord) -> (r: Manga)
        ensures
            r.id@ == data.id@,
            r.title@ == best_title(data.title@),
            match kept_description(best_title(data.description@)) {
                None => r.description is None,
                Some(d) => r.description matches Some(s) && s@ == d,
            },
            r.authors@.map_values(|s: String| s@) == author_names(data.relationships@),
            r.tags@.map_values(|s: String| s@) == data.tags@.map_values(
                |t: LocalizedText| best_title(t@),
            ),
            match cover_file_from(data.relationships@, 0) {
                None => r.cover_url is None,
                Some(f) => r.cover_url matches Some(u) && u@ == "https://uploads.mangadex.org/covers/"@
                    + data.id@ + "/"@ + f,
            },
            r.source_id@ == "mgd"@,
    {
        let title = Self::extract_best_title(&data.title);
        let description = Self::extract_best_title(&data.description);
        let rels = &data.relationships;
        let mut authors: Vec<String> = Vec::new();
        let mut i: usize = 0;
        while i < rels.len()
            invariant
                i <= rels@.len(),
                rels@ == data.relationships@,
                authors@.map_values(|s: String| s@) == author_names(rels@.subrange(0, i as int)),
            decreases rels@.len() - i,
        {
            let ghost before = authors@;
            assert(rels@.subrange(0, i as int + 1).drop_last() == rels@.subrange(0, i as int));
            if is_author(&rels[i]) {
                if let Some(n) = &rels[i].name {
                    authors.push(n.clone());
                    assert(authors@.map_values(|s: String| s@) == before.map_values(|s: String| s@).push(
                        n@,
                    ));
                }
            }
            i = i + 1;
        }
        assert(rels@.subrange(0, rels@.len() as int) == rels@);
        let mut tags: Vec<String> = Vec::new();
        let mut j: usize = 0;
        while j < data.tags.len()
            invariant
                j <= data.tags@.len(),
                tags@.map_values(|s: String| s@) == data.tags@.subrange(0, j as int).map_values(
                    |t: LocalizedText| best_title(t@),
                ),
            decreases data.tags@.len() - j,
        {
            let ghost before = tags@;
            let t = Self::extract_best_title(&data.tags[j]);
            tags.push(t);
            assert(tags@.map_values(|s: String| s@) == before.map_values(|s: String| s@).push(
                best_title(data.tags@[j as int]@),
            ));
            assert(data.tags@.subrange(0, j as int + 1).map_values(|t: LocalizedText| best_title(t@))
                == data.tags@.subrange(0, j as int).map_values(|t: LocalizedText| best_title(t@)).push(
                best_title(data.tags@[j as int]@),
            ));
            j = j + 1;
        }
        assert(data.tags@.subrange(0, data.tags@.len() as int) == data.tags@);
        let cover_url = match self.extract_cover_filename(data) {
            Some(f) => {
                let a = join2("https://uploads.mangadex.org/covers/", data.id.as_str());
                let b = join2(a.as_str(), "/");
                Some(join2(b.as_str(), f.as_str()))
            },
            None => None,
        };
        let unknown = same_text(description.as_str(), "Unknown Title");
        let dv = chars_of(description.as_str());
        let description = if dv.len() == 0 || unknown {
            None
        } else {
            Some(description)
        };
        Manga {
            id: data.id.clone(),
            title,
            cover_url,
            authors,
            description,
            tags,
            source_id: String::from_str("mgd"),
        }
    }

    /// The chapter a feed record becomes.
    pub fn map_chapter_data_to_chapter(&self, data: &ChapterRecord, manga_id: &str) -> (r: Chapter)
        ensures
            chapter_from_record(r, *data, manga_id@),
    {
        let number = match &data.chapter {
            Some(c) => {
                let cv = chars_of(c.as_str());
                parse_plain_number(&cv)
            },
            None => ChapterNumber { thousandths: 0 },
        };
        let synthesized = {
            let digits = number_chars(number);
            let n = string_of(digits.as_slice());
            join2("Chapter ", n.as_str())
        };
        let title = match &data.title {
            Some(t) => {
                let tv = chars_of(t.as_str());
                if tv.len() > 0 {
                    t.clone()
                } else {
                    synthesized
                }
            },
            None => synthesized,
        };
        Chapter {
            id: data.id.clone(),
            number,
            title,
            pages: Vec::new(),
            manga_id: String::from_str(manga_id),
            source_id: String::from_str("mgd"),
        }
    }

    /// The chapters of a feed page, in the order of the records.
    pub fn map_chapters(&self, records: &Vec<ChapterRecord>, manga_id: &str) -> (r: Vec<Chapter>)
        ensures
            r@.len() == records@.len(),
            forall|i: int|
                0 <= i < r@.len() ==> chapter_from_record(#[trigger] r@[i], records@[i], manga_id@),
    {
        let mut r: Vec<Chapter> = Vec::new();
        let mut i: usize = 0;
        while i < records.len()
            invariant
                i <= records@.len(),
                r@.len() == i,
                forall|k: int|
                    0 <= k < i ==> chapter_from_record(#[trigger] r@[k], records@[k], manga_id@),
            decreases records@.len() - i,
        {
            let c = self.map_chapter_data_to_chapter(&records[i], manga_id);
            r.push(c);
            i = i + 1;
        }
        r
    }

    /// The chapters of all feed pages of `manga_id`: the records mapped one
    /// by one, then ordered by ascending number with ties kept in feed order.
    pub fn chapters_from_feed(&self, records: &Vec<ChapterRecord>, manga_id: &str) -> (r: Vec<Chapter>)
        ensures
            feed_chapters(r@, records@, manga_id@),
            r@.len() == records@.len(),
            numbers_ascending(r@),
            forall|k: int| 0 <= k < r@.len() ==> (#[trigger] r@[k]).manga_id@ == manga_id@
                && r@[k].source_id@ == "mgd"@,
    {
        let mapped = self.map_chapters(records, manga_id);
        let ghost m = mapped@;
        let r = sort_chapters(mapped);
        proof {
            assert(r@.len() == r@.to_multiset().len());
            assert(m.len() == m.to_multiset().len());
            assert forall|k: int| 0 <= k < r@.len() implies (#[trigger] r@[k]).manga_id@ == manga_id@
                && r@[k].source_id@ == "mgd"@ by {
                assert(r@.to_multiset().count(r@[k]) > 0);
                assert(m.contains(r@[k]));
                let j = choose|j: int| 0 <= j < m.len() && m[j] == r@[k];
                assert(chapter_from_record(m[j], records@[j], manga_id@));
            }
            assert(m.len() == records@.len() && (forall|k: int| 0 <= k < m.len() ==> chapter_from_record(
                #[trigger] m[k], records@[k], manga_id@)) && r@ == number_sorted(m));
        }
        r
    }

    /// The page URLs the at-home server information gives for a chapter.
    pub fn page_urls(&self, server: &AtHomeServer, chapter_id: &str) -> (r: Result<Vec<String>, Error>)
        ensures
            match page_urls_spec(*server, chapter_id@) {
                Ok(urls) => r matches Ok(v) && v@.map_values(|s: String| s@) == urls,
                Err(Error::Parse(_)) => r matches Err(Error::Parse(m)) && m@ == if server.hash@.len()
                    == 0 {
                    "Chapter hash is empty"@
                } else {
                    "Base URL is empty"@
                },
                Err(_) => r matches Err(Error::NotFound(m)) && m@ == "No pages found for chapter "@
                    + chapter_id@,
            },
    {
        let hv = chars_of(server.hash.as_str());
        if hv.len() == 0 {
            return Err(Error::parse("Chapter hash is empty"));
        }
        let bv = chars_of(server.base_url.as_str());
        if bv.len() == 0 {
            return Err(Error::parse("Base URL is empty"));
        }
        let base = trim_end_slashes(server.base_url.as_str());
        let (files, dir) = if server.data.len() > 0 {
            (&server.data, "/data/")
        } else if server.data_saver.len() > 0 {
            (&server.data_saver, "/data-saver/")
        } else {
            let m = join2("No pages found for chapter ", chapter_id);
            return Err(Error::NotFound(m));
        };
        let a = join2(base.as_str(), dir);
        let b = join2(a.as_str(), server.hash.as_str());
        let prefix = join2(b.as_str(), "/");
        let mut urls: Vec<String> = Vec::new();
        let mut i: usize = 0;
        while i < files.len()
            invariant
                i <= files@.len(),
                urls@.map_values(|s: String| s@) == files@.subrange(0, i as int).map_values(
                    |f: String| prefix@ + f@,
                ),
            decreases files@.len() - i,
        {
            let ghost before = urls@;
            let u = join2(prefix.as_str(), files[i].as_str());
            urls.push(u);
            assert(urls@.map_values(|s: String| s@) == before.map_values(|s: String| s@).push(
                prefix@ + files@[i as int]@,
            ));
            assert(files@.subrange(0, i as int + 1).map_values(|f: String| prefix@ + f@)
                == files@.subrange(0, i as int).map_values(|f: String| prefix@ + f@).push(
                prefix@ + files@[i as int]@,
            ));
            i = i + 1;
        }
        assert(files@.subrange(0, files@.len() as int) == files@);
        proof {
            if server.data@.len() > 0 {
                assert(urls@.map_values(|s: String| s@) =~= server.data@.map_values(
                    |f: String| strip_end_slashes(server.base_url@) + "/data/"@ + server.hash@ + "/"@ + f@,
                ));
            } else {
                assert(urls@.map_values(|s: String| s@) =~= server.data_saver@.map_values(
                    |f: String| strip_end_slashes(server.base_url@) + "/data-saver/"@ + server.hash@ + "/"@
                        + f@,
                ));
            }
        }
        Ok(urls)
    }
}

/// When the at-home server's base URL has a web scheme, every page URL
/// built from it has one too, and there is at least one.
pub proof fn api_page_urls_law(s: AtHomeServer, chapter_id: Seq<char>)
    requires
        crate::madara::has_web_scheme(strip_end_slashes(s.base_url@)),
    ensures
        page_urls_spec(s, chapter_id) matches Ok(urls) ==> urls.len() > 0 && forall|k: int|
            0 <= k < urls.len() ==> crate::madara::has_web_scheme(#[trigger] urls[k]),
{
    reveal_strlit("https://");
    reveal_strlit("http://");
    let b = strip_end_slashes(s.base_url@);
    if let Ok(urls) = page_urls_spec(s, chapter_id) {
        assert forall|k: int| 0 <= k < urls.len() implies crate::madara::has_web_scheme(
            #[trigger] urls[k],
        ) by {
            let u = if s.data@.len() > 0 {
                b + "/data/"@ + s.hash@ + "/"@ + s.data@[k]@
            } else {
                b + "/data-saver/"@ + s.hash@ + "/"@ + s.data_saver@[k]@
            };
            assert(urls[k] == u);
            assert(u.subrange(0, 7) =~= b.subrange(0, 7));
            if b.len() >= 8 {
                assert(u.subrange(0, 8) =~= b.subrange(0, 8));
            }
        }
    }
}

impl Default for MangaDexSource {
    fn default() -> (r: MangaDexSource)
        ensures
            r.spec_api_base() == "https://api.mangadex.org"@,
    {
        MangaDexSource::new()
    }
}

impl Identified for MangaDexSource {
    fn id(&self) -> String {
        String::from_str("mgd")
    }
}

/// The first index from `i` on whose chapter number exceeds `n`, or the length.
pub open spec fn first_above(s: Seq<Chapter>, n: nat, i: int) -> int
    decreases s.len() - i,
{
    if i < 0 || i >= s.len() {
        s.len() as int
    } else if s[i].number.thousandths > n {
        i
    } else {
        first_above(s, n, i + 1)
    }
}

/// `s` ordered by ascending number; a chapter goes after every chapter
/// before it whose number is not larger, so equal numbers keep their order.
pub open spec fn number_sorted(s: Seq<Chapter>) -> Seq<Chapter>
    decreases s.len(),
{
    if s.len() == 0 {
        s
    } else {
        let p = number_sorted(s.drop_last());
        p.insert(first_above(p, s.last().number.thousandths as nat, 0), s.last())
    }
}

/// Orders chapters by ascending number, keeping the given order among equal
/// numbers.
pub fn sort_chapters(chapters: Vec<Chapter>) -> (r: Vec<Chapter>)
    ensures
        r@ == number_sorted(chapters@),
        r@.to_multiset() == chapters@.to_multiset(),
        numbers_ascending(r@),
{
    let ghost orig = chapters@;
    let mut rest = chapters;
    let mut out: Vec<Chapter> = Vec::new();
    let ghost mut i: int = 0;
    while rest.len() > 0
        invariant
            0 <= i <= orig.len(),
            rest@ == orig.subrange(i, orig.len() as int),
            out@ == number_sorted(orig.subrange(0, i)),
            out@.to_multiset().add(rest@.to_multiset()) == orig.to_multiset(),
            numbers_ascending(out@),
        decreases rest@.len(),
    {
        proof {
            vstd::seq_lib::to_multiset_remove(rest@, 0);
        }
        let x = rest.remove(0);
        let mut p: usize = 0;
        while p < out.len() && out[p].number.thousandths <= x.number.thousandths
            invariant
                p <= out@.len(),
                forall|k: int| 0 <= k < p ==> (#[trigger] out@[k]).number.thousandths <= x.number.thousandths,
                first_above(out@, x.number.thousandths as nat, 0) == first_above(out@, x.number.thousandths as nat, p as int),
            decreases out@.len() - p,
        {
            p = p + 1;
        }
        proof {
            assert(orig.subrange(0, i + 1).drop_last() == orig.subrange(0, i));
            assert(orig.subrange(0, i + 1).last() == x);
            assert(first_above(out@, x.number.thousandths as nat, p as int) == p);
            i = i + 1;
        }
        let ghost old_out = out@;
        proof {
            vstd::seq_lib::to_multiset_insert(old_out, p as int, x);
        }
        out.insert(p, x);
        proof {
            assert forall|i: int, j: int| 0 <= i < j < out@.len() implies (#[trigger] out@[i]).number.thousandths
                <= (#[trigger] out@[j]).number.thousandths by {
                if j < p {
                    assert(out@[i] == old_out[i] && out@[j] == old_out[j]);
                } else if j == p {
                    assert(out@[i] == old_out[i]);
                } else if i == p {
                    assert(out@[j] == old_out[j - 1]);
                    assert(old_out[p as int].number.thousandths <= old_out[j - 1].number.thousandths
                        || p == j - 1);
                } else if i < p {
                    assert(out@[i] == old_out[i] && out@[j] == old_out[j - 1]);
                } else {
                    assert(out@[i] == old_out[i - 1] && out@[j] == old_out[j - 1]);
                }
            }
            assert(out@.to_multiset().add(rest@.to_multiset()) =~= orig.to_multiset());
        }
    }
    assert(rest@.to_multiset() =~= vstd::multiset::Multiset::empty());
    assert(out@.to_multiset() =~= out@.to_multiset().add(rest@.to_multiset()));
    out
}

} // verus!
