use tosho::madara::{
    chapter_entries, make_absolute, manga_entries, page_entries, parse_manga_items, resolve_url,
    ConfigurableMadaraSource,
    ImageSources, KissMangaSource, MadaraSource,
};
use tosho::mangadex::{AtHomeServer, ChapterRecord, MangaDexSource, MangaRecord, Relationship};
use tosho::number::chapter_number;
use tosho::{ChapterNumber, Error, SearchParams, SortOrder};

fn pairs(v: &[(&str, &str)]) -> Vec<(String, String)> {
    v.iter().map(|(a, b)| (a.to_string(), b.to_string())).collect()
}

fn strings(v: &[&str]) -> Vec<String> {
    v.iter().map(|s| s.to_string()).collect()
}

fn chars(s: &str) -> Vec<char> {
    s.chars().collect()
}

#[test]
fn title_selection_prefers_english() {
    assert_eq!(
        MangaDexSource::extract_best_title(&pairs(&[("ja", "ワンピース"), ("en", "One Piece")])),
        "One Piece"
    );
    assert_eq!(MangaDexSource::extract_best_title(&pairs(&[("ja", "x")])), "x");
    assert_eq!(MangaDexSource::extract_best_title(&pairs(&[])), "Unknown Title");
    assert_eq!(
        MangaDexSource::extract_best_title(&pairs(&[("fr", "  "), ("de", " Titel "), ("en", " ")])),
        "Titel"
    );
    assert_eq!(
        MangaDexSource::extract_best_title(&pairs(&[("ja-ro", "Wan Pisu"), ("en-us", "One Piece US")])),
        "One Piece US"
    );
}

#[test]
fn manga_record_mapping() {
    let source = MangaDexSource::new();
    let empty = MangaRecord {
        id: "m1".to_string(),
        title: vec![],
        description: vec![],
        tags: vec![],
        relationships: vec![],
    };
    let m = source.map_manga_data_to_manga(&empty);
    assert_eq!(m.title, "Unknown Title");
    assert_eq!(m.description, None);
    assert_eq!(m.cover_url, None);
    assert_eq!(m.source_id, "mgd");

    let full = MangaRecord {
        id: "m2".to_string(),
        title: pairs(&[("en", "One Piece")]),
        description: pairs(&[("en", "Pirates")]),
        tags: vec![pairs(&[("en", "Action")]), pairs(&[("ja", "冒険")])],
        relationships: vec![
            Relationship { rel_type: "author".to_string(), name: Some("Oda".to_string()), file_name: None },
            Relationship { rel_type: "artist".to_string(), name: Some("Eiichiro".to_string()), file_name: None },
            Relationship { rel_type: "author".to_string(), name: None, file_name: None },
            Relationship { rel_type: "cover_art".to_string(), name: None, file_name: Some("c.jpg".to_string()) },
        ],
    };
    let m = source.map_manga_data_to_manga(&full);
    assert_eq!(m.id, "m2");
    assert_eq!(m.title, "One Piece");
    assert_eq!(m.description, Some("Pirates".to_string()));
    assert_eq!(m.authors, strings(&["Oda", "Eiichiro"]));
    assert_eq!(m.tags, strings(&["Action", "冒険"]));
    assert_eq!(m.cover_url, Some("https://uploads.mangadex.org/covers/m2/c.jpg".to_string()));
}

#[test]
fn page_fallback() {
    let source = MangaDexSource::new();
    let mut server = AtHomeServer {
        base_url: "https://u.test".to_string(),
        hash: "H".to_string(),
        data: vec![],
        data_saver: strings(&["a.png"]),
    };
    assert_eq!(source.page_urls(&server, "c1"), Ok(strings(&["https://u.test/data-saver/H/a.png"])));

    server.data = strings(&["a.jpg", "b.jpg"]);
    assert_eq!(
        source.page_urls(&server, "c1"),
        Ok(strings(&["https://u.test/data/H/a.jpg", "https://u.test/data/H/b.jpg"]))
    );

    server.base_url = "https://u.test//".to_string();
    assert_eq!(
        source.page_urls(&server, "c1").unwrap()[0],
        "https://u.test/data/H/a.jpg"
    );

    server.hash = String::new();
    assert_eq!(source.page_urls(&server, "c1"), Err(Error::Parse("Chapter hash is empty".to_string())));

    server.hash = "H".to_string();
    server.base_url = String::new();
    assert_eq!(source.page_urls(&server, "c1"), Err(Error::Parse("Base URL is empty".to_string())));

    server.base_url = "https://u.test".to_string();
    server.data = vec![];
    server.data_saver = vec![];
    assert_eq!(
        source.page_urls(&server, "c1"),
        Err(Error::NotFound("No pages found for chapter c1".to_string()))
    );
}

#[test]
fn chapter_number_rules() {
    assert_eq!(
        chapter_number(&chars("Chapter 12.5: Epilogue"), &chars("ch-12-5"), 0),
        ChapterNumber { thousandths: 12500 }
    );
    assert_eq!(chapter_number(&chars("foo"), &chars("chapter-7"), 0), ChapterNumber { thousandths: 7000 });
    assert_eq!(chapter_number(&chars("foo"), &chars("xyz"), 4), ChapterNumber { thousandths: 5000 });
    assert_eq!(chapter_number(&chars("Vol 2 Ch. 3"), &chars("x"), 0), ChapterNumber { thousandths: 3000 });
    assert_eq!(chapter_number(&chars("Episode 9"), &chars("x"), 0), ChapterNumber { thousandths: 9000 });
    assert_eq!(chapter_number(&chars("foo"), &chars("CH4.25"), 0), ChapterNumber { thousandths: 4250 });
    assert_eq!(chapter_number(&chars("foo"), &chars("part-11"), 0), ChapterNumber { thousandths: 11000 });
}

#[test]
fn chapters_from_links_are_sorted_and_tagged() {
    let links = strings(&["/m/ch-12-5", "https://site/m/chapter-7/", "xyz", "  "]);
    let titles = strings(&["Chapter 12.5: Epilogue", "foo", "", "ignored"]);
    let r = chapter_entries("kmg", &links, &titles, "m");
    let numbers: Vec<u64> = r.iter().map(|c| c.number.thousandths).collect();
    assert_eq!(numbers, vec![3000, 7000, 12500]);
    assert_eq!(r[0].id, "xyz");
    assert_eq!(r[0].title, "Chapter 3");
    assert_eq!(r[1].id, "chapter-7");
    assert_eq!(r[2].id, "ch-12-5");
    assert!(r.iter().all(|c| c.manga_id == "m" && c.source_id == "kmg"));
}

#[test]
fn feed_records_become_sorted_chapters() {
    let source = MangaDexSource::new();
    let records = vec![
        ChapterRecord { id: "b".to_string(), title: None, chapter: Some("10.5".to_string()) },
        ChapterRecord { id: "a".to_string(), title: Some("Start".to_string()), chapter: Some("1".to_string()) },
        ChapterRecord { id: "c".to_string(), title: Some(String::new()), chapter: Some("x".to_string()) },
    ];
    let r = source.chapters_from_feed(&records, "m");
    let ids: Vec<&str> = r.iter().map(|c| c.id.as_str()).collect();
    assert_eq!(ids, vec!["c", "a", "b"]);
    assert_eq!(r[0].title, "Chapter 0");
    assert_eq!(r[1].title, "Start");
    assert_eq!(r[2].title, "Chapter 10.5");
    assert!(r.iter().all(|c| c.manga_id == "m" && c.source_id == "mgd"));
}

#[test]
fn api_query_strings() {
    let source = MangaDexSource::new();
    let mut params = SearchParams::from("one piece");
    assert_eq!(
        source.format_search_query("one piece", &params),
        "title=one%20piece&limit=20&includes[]=cover_art&order[relevance]=desc&contentRating[]=safe&contentRating[]=suggestive&contentRating[]=erotica&contentRating[]=pornographic"
    );
    params.limit = Some(5);
    params.offset = Some(10);
    params.sort_by = Some(SortOrder::Title);
    assert_eq!(
        source.format_search_query("a&b", &params),
        "title=a%26b&limit=5&includes[]=cover_art&order[title]=asc&contentRating[]=safe&contentRating[]=suggestive&contentRating[]=erotica&contentRating[]=pornographic&offset=10"
    );
    assert_eq!(
        source.feed_url("m1", 500, 500),
        "https://api.mangadex.org/manga/m1/feed?limit=500&offset=500&order[volume]=asc&order[chapter]=asc&translatedLanguage[]=en&contentRating[]=safe&contentRating[]=suggestive&contentRating[]=erotica&contentRating[]=pornographic"
    );
    assert_eq!(source.at_home_url("c9"), "https://api.mangadex.org/at-home/server/c9");
    assert_eq!(MangaDexSource::next_feed_offset(1200, 0, 500), Some(500));
    assert_eq!(MangaDexSource::next_feed_offset(1000, 500, 500), None);
}

#[test]
fn madara_search_entries() {
    let links = strings(&["https://kissmanga.in/kissmanga/one-piece/", "https://kissmanga.in/kissmanga/empty/", "/"]);
    let titles = strings(&[" One Piece ", "   ", "Root"]);
    let covers = strings(&["//img/x.jpg"]);
    let r = manga_entries("https://kissmanga.in", "kmg", &links, &titles, &covers, None);
    assert_eq!(r.len(), 1);
    assert_eq!(r[0].id, "one-piece");
    assert_eq!(r[0].title, "One Piece");
    assert_eq!(r[0].cover_url, Some("https://img/x.jpg".to_string()));
    assert_eq!(r[0].source_id, "kmg");

    let links = strings(&["/a/1", "/a/2", "/a/3"]);
    let titles = strings(&["A", "B", "C"]);
    let r = manga_entries("https://s", "kmg", &links, &titles, &vec![], Some(2));
    let ids: Vec<&str> = r.iter().map(|m| m.id.as_str()).collect();
    assert_eq!(ids, vec!["1", "2"]);
    assert!(r.iter().all(|m| m.cover_url.is_none()));
}

#[test]
fn madara_search_page_through_selectors() {
    let source = KissMangaSource::new();
    let html = r#"<html><body><div class="c-tabs-item__content">
        <div class="tab-thumb"><img src="/covers/op.jpg"></div>
        <div class="post-title"><h3><a href="https://kissmanga.in/kissmanga/one-piece/"> One Piece </a></h3></div>
        </div></body></html>"#;
    let params = SearchParams::from("one piece");
    let r = source.inner().search_results(html, &params);
    assert_eq!(r.len(), 1);
    assert_eq!(r[0].id, "one-piece");
    assert_eq!(r[0].title, "One Piece");
    assert_eq!(r[0].cover_url, Some("https://kissmanga.in/covers/op.jpg".to_string()));
}

#[test]
fn madara_pages_are_filtered() {
    let none = || ImageSources { src: None, data_src: None, data_lazy_src: None, data_original: None };
    let imgs = vec![
        ImageSources { src: Some("https://x/ads/banner1.jpg".to_string()), ..none() },
        ImageSources { src: Some(String::new()), data_src: Some(" https://x/p1.jpg\n".to_string()), ..none() },
        ImageSources { src: Some("https://x/spin.gif".to_string()), ..none() },
        ImageSources { data_original: Some("https://x/placeholder.png".to_string()), ..none() },
        ImageSources { data_lazy_src: Some("/wp/p2.webp".to_string()), ..none() },
        ImageSources { src: Some("https://x/page3.bmp".to_string()), ..none() },
    ];
    assert_eq!(
        page_entries("https://kissmanga.in", &imgs),
        Ok(strings(&["https://x/p1.jpg", "https://kissmanga.in/wp/p2.webp"]))
    );
    assert_eq!(page_entries("https://s", &vec![]), Err(Error::NotFound("No pages found".to_string())));
    assert_eq!(
        page_entries("https://s", &vec![none()]),
        Err(Error::NotFound("No valid pages found after filtering".to_string()))
    );
}

#[test]
fn madara_pages_through_selectors() {
    let source = MadaraSource::new("https://m.test".to_string());
    let html = r#"<div class="page-break"><img data-src="https://m.test/1.jpg"></div>
        <div class="page-break"><img src="https://m.test/2.png"></div>"#;
    assert_eq!(source.pages(html), Ok(strings(&["https://m.test/1.jpg", "https://m.test/2.png"])));
    let chapters = source.chapters(
        r#"<ul><li class="wp-manga-chapter"><a href="https://m.test/manga/x/chapter-2/">Chapter 2</a></li>
           <li class="wp-manga-chapter"><a href="https://m.test/manga/x/chapter-1/">Chapter 1</a></li></ul>"#,
        "x",
    );
    let ids: Vec<&str> = chapters.iter().map(|c| c.id.as_str()).collect();
    assert_eq!(ids, vec!["chapter-1", "chapter-2"]);
}

#[test]
fn urls_of_sites() {
    assert_eq!(make_absolute("https://b", "//cdn/x.png"), "https://cdn/x.png");
    assert_eq!(make_absolute("https://b/", "/x.png"), "https://b/x.png");
    assert_eq!(make_absolute("https://b", "http://o/x.png"), "http://o/x.png");
    assert_eq!(resolve_url("https://b/", "kissmanga", "one-piece"), "https://b/kissmanga/one-piece");
    assert_eq!(resolve_url("https://b/", "kissmanga", "/m/one-piece/"), "https://b/m/one-piece/");
    assert_eq!(resolve_url("https://b", "kissmanga", "https://o/c"), "https://o/c");
    let source = ConfigurableMadaraSource::new(tosho::madara::kissmanga_config());
    assert_eq!(source.search_url(&SearchParams::from("one piece")), "https://kissmanga.in/?s=one%20piece&post_type=wp-manga");
    assert_eq!(source.full_url("/kissmanga/x"), "https://kissmanga.in/kissmanga/x");
}

#[test]
fn equal_numbers_keep_link_order() {
    let links = strings(&["/m/b", "/m/a", "/m/c", "/m/d"]);
    let titles = strings(&["Chapter 2", "Chapter 1", "Chapter 2", "Chapter 1"]);
    let r = chapter_entries("kmg", &links, &titles, "m");
    let ids: Vec<&str> = r.iter().map(|c| c.id.as_str()).collect();
    assert_eq!(ids, vec!["a", "d", "b", "c"]);
}

#[test]
fn only_web_schemes_stay_as_they_are() {
    assert_eq!(make_absolute("https://b", "httpfoo/1.jpg"), "https://b/httpfoo/1.jpg");
    assert_eq!(make_absolute("https://b", "https://c/1.jpg"), "https://c/1.jpg");
}

#[test]
fn items_parsed_from_links() {
    let html = r#"<div class="post-title"><a href="https://m.test/manga/one-piece/"> One Piece </a></div>
        <div class="post-title"><a>No link</a></div>
        <div class="post-title"><a href="/manga/bleach">Bleach</a></div>"#;
    let r = parse_manga_items(html, ".post-title a", "https://m.test", "madara", None);
    let got: Vec<(&str, &str)> = r.iter().map(|m| (m.id.as_str(), m.title.as_str())).collect();
    assert_eq!(got, vec![("one-piece", "One Piece"), ("bleach", "Bleach")]);
    assert!(r.iter().all(|m| m.source_id == "madara"));
    assert_eq!(parse_manga_items(html, ".post-title a", "https://m.test", "madara", Some(1)).len(), 1);
}

#[test]
fn feed_numbers_in_float_forms() {
    let source = MangaDexSource::new();
    let forms = [("5.", 5000), (".5", 500), ("+5", 5000), ("1e2", 100000), ("1.5E-1", 150), ("-3", 0), ("inf", 0), ("12.3456", 12345), ("", 0), ("1e", 0)];
    for (text, expected) in forms {
        let records = vec![ChapterRecord { id: "c".to_string(), title: None, chapter: Some(text.to_string()) }];
        let r = source.chapters_from_feed(&records, "m");
        assert_eq!(r[0].number, ChapterNumber { thousandths: expected }, "for {:?}", text);
    }
}

#[test]
fn search_titles_stay_with_their_links() {
    let source = KissMangaSource::new();
    let html = r#"<div class="c-tabs-item__content">
        <div class="post-title"><h3><a>No link here</a></h3></div>
        <div class="post-title"><h3><a href="/kissmanga/naruto/">Naruto</a></h3></div>
        <div class="tab-thumb"><img data-src="https://img/n.jpg"></div>
        </div>"#;
    let r = source.inner().search_results(html, &SearchParams::from("n"));
    assert_eq!(r.len(), 1);
    assert_eq!(r[0].id, "naruto");
    assert_eq!(r[0].title, "Naruto");
    assert_eq!(r[0].cover_url, Some("https://img/n.jpg".to_string()));
}
