use tosho::{chapter_layout, extract_extension, sanitize_filename, Error};

#[test]
fn test_sanitize_filename() {
    assert_eq!(sanitize_filename("normal_file.txt"), "normal_file.txt");
    assert_eq!(
        sanitize_filename("file/with\\bad:chars"),
        "file_with_bad_chars"
    );
    assert_eq!(sanitize_filename(""), "untitled");

    let long_name = "a".repeat(250);
    let sanitized = sanitize_filename(&long_name);
    assert!(sanitized.len() <= 200);
}

#[test]
fn test_extract_extension() {
    assert_eq!(
        extract_extension("https://example.com/image.jpg"),
        Some("jpg".to_string())
    );
    assert_eq!(
        extract_extension("https://example.com/image.PNG"),
        Some("png".to_string())
    );
    assert_eq!(
        extract_extension("https://example.com/image.jpg?v=123"),
        Some("jpg".to_string())
    );
    assert_eq!(extract_extension("https://example.com/image"), None);
    assert_eq!(extract_extension("https://example.com/image."), None);
}

#[test]
fn downloads_test_filename_sanitization() {
    let test_cases = vec![
        ("Normal Chapter", "Normal Chapter"),
        ("Chapter/with\\slashes", "Chapter_with_slashes"),
        ("Chapter:with*special?chars", "Chapter_with_special_chars"),
        ("Chapter\"with<quotes>", "Chapter_with_quotes_"),
        ("Chapter|with|pipes", "Chapter_with_pipes"),
        ("   Spaced   Chapter   ", "Spaced   Chapter"),
        ("", "untitled"),
        ("...", "..."),
    ];

    for (input, _expected_pattern) in test_cases {
        let result = sanitize_filename(input);

        assert!(!result.contains('/'));
        assert!(!result.contains('\\'));
        assert!(!result.contains(':'));
        assert!(!result.contains('*'));
        assert!(!result.contains('?'));
        assert!(!result.contains('"'));
        assert!(!result.contains('<'));
        assert!(!result.contains('>'));
        assert!(!result.contains('|'));

        if !input.trim().is_empty() && input != "..." {
            assert!(!result.is_empty());
        }

        println!("Sanitized '{}' -> '{}'", input, result);
    }
}

#[test]
fn downloads_test_extension_extraction() {
    let test_cases = vec![
        ("https://example.com/image.jpg", Some("jpg")),
        ("https://example.com/image.jpeg", Some("jpeg")),
        ("https://example.com/image.png", Some("png")),
        ("https://example.com/image.webp", Some("webp")),
        ("https://example.com/image.gif", Some("gif")),
        ("https://example.com/image.bmp", Some("bmp")),
        ("https://example.com/image.jpg?version=123", Some("jpg")),
        ("https://example.com/image.png#anchor", Some("png")),
        ("https://example.com/image.jpg?v=1&format=png", Some("jpg")),
        ("https://example.com/no-extension", None),
        ("https://example.com/", None),
        ("", None),
        ("not-a-url", None),
        ("https://example.com/path.with.dots.jpg", Some("jpg")),
    ];

    for (url, expected) in test_cases {
        let result = extract_extension(url);
        assert_eq!(
            result,
            expected.map(|s| s.to_string()),
            "Failed for URL: '{}'",
            url
        );
        println!("Extension from '{}' -> {:?}", url, result);
    }
}

#[test]
fn unit_tests_test_filename_sanitization() {
    let dirty_filename = "Test/Manga\\Chapter:1*?\"<>|";
    let clean_filename = sanitize_filename(dirty_filename);

    assert!(!clean_filename.contains('/'));
    assert!(!clean_filename.contains('\\'));
    assert!(!clean_filename.contains(':'));
    assert!(!clean_filename.contains('*'));
    assert!(!clean_filename.contains('?'));
    assert!(!clean_filename.contains('"'));
    assert!(!clean_filename.contains('<'));
    assert!(!clean_filename.contains('>'));
    assert!(!clean_filename.contains('|'));

    assert!(clean_filename.contains("Test"));
    assert!(clean_filename.contains("Manga"));
    assert!(clean_filename.contains("Chapter"));
    assert!(clean_filename.contains("1"));
}

#[test]
fn unit_tests_test_extension_extraction() {
    let test_cases = vec![
        ("https://example.com/page.jpg", Some("jpg")),
        ("https://example.com/page.png?v=123", Some("png")),
        ("https://example.com/page.webp#anchor", Some("webp")),
        ("https://example.com/page.jpeg", Some("jpeg")),
        ("https://example.com/page", None),
        ("https://example.com/", None),
        ("", None),
    ];

    for (url, expected) in test_cases {
        let result = extract_extension(url);
        assert_eq!(
            result,
            expected.map(|s| s.to_string()),
            "Extension extraction failed for URL: {}",
            url
        );
    }
}

#[test]
fn sanitize_is_idempotent_and_bounded() {
    let inputs = ["  a:b  ", "x/y\\z", "", "   ", "Chapter 1: The Beginning*", "ok"];
    for input in inputs {
        let once = sanitize_filename(input);
        assert_eq!(sanitize_filename(&once), once);
        assert!(!once.is_empty());
        assert!(once.chars().count() <= 200);
    }
    assert_eq!(sanitize_filename(&"a".repeat(250)), "a".repeat(200));
    assert_eq!(sanitize_filename("   "), "untitled");
    assert_eq!(sanitize_filename("a<b>c"), "a_b_c");
}

#[test]
fn extension_of_any_name_with_query() {
    for name in ["a", "page-1", "x.y", "Ünïcode"] {
        let url = format!("https://x/{}.jpg?a=b", name);
        assert_eq!(extract_extension(&url), Some("jpg".to_string()));
    }
    assert_eq!(extract_extension("https://x/A.JPEG"), Some("jpeg".to_string()));
    assert_eq!(extract_extension("https://x/a.abcdefghijk"), None);
    assert_eq!(extract_extension("https://x/a.abcdefghij"), Some("abcdefghij".to_string()));
}

#[test]
fn chapter_layout_names_pages_in_order() {
    let pages = vec![
        "https://x/a.png?q=1".to_string(),
        "https://x/b.jpeg".to_string(),
    ];
    let layout = chapter_layout("mgd", "ch/1", &pages).unwrap();
    assert_eq!(layout.dir_name, "chapter_ch_1");
    assert_eq!(layout.file_names, vec!["page_001.png", "page_002.jpeg"]);
}

#[test]
fn chapter_layout_falls_back_to_jpg() {
    let mut pages = Vec::new();
    for i in 0..1000 {
        pages.push(format!("https://x/noext{}", i));
    }
    pages[0] = "https://x/a.verylong".to_string();
    let layout = chapter_layout("kmg", "c", &pages).unwrap();
    assert_eq!(layout.file_names[0], "page_001.jpg");
    assert_eq!(layout.file_names[11], "page_012.jpg");
    assert_eq!(layout.file_names[999], "page_1000.jpg");
    assert_eq!(layout.dir_name, "chapter_c");
}

#[test]
fn chapter_layout_without_pages_is_a_source_error() {
    let r = chapter_layout("mgd", "ch/1", &Vec::new());
    assert_eq!(
        r,
        Err(Error::Source {
            src: "mgd".to_string(),
            message: "No pages found for chapter".to_string()
        })
    );
}

#[test]
fn page_extension_reads_the_last_segment() {
    let pages = vec![
        "https://x.io/a".to_string(),
        "https://x.io/b.png?q=x.y".to_string(),
        "https://x.io/c.".to_string(),
        "https://x.io/dir.v2/page".to_string(),
    ];
    let layout = chapter_layout("s", "c", &pages).unwrap();
    assert_eq!(
        layout.file_names,
        vec!["page_001.jpg", "page_002.png", "page_003.jpg", "page_004.jpg"]
    );
}

#[test]
fn extension_with_slashes_in_the_name() {
    assert_eq!(extract_extension("https://x/a/b/c.jpg?a=b"), Some("jpg".to_string()));
}

#[test]
fn sanitize_trims_after_the_cut() {
    let name = format!("{} b", "a".repeat(199));
    let once = sanitize_filename(&name);
    assert_eq!(once, "a".repeat(199));
    assert_eq!(sanitize_filename(&once), once);
}
