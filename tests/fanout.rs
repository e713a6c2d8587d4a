use tosho::search::unknown_source;
use tosho::{flatten_outcomes, from_source_outcome, group_outcomes, Error, Identified, Manga, Sources};

fn manga(id: &str, source: &str) -> Manga {
    Manga {
        id: id.to_string(),
        title: format!("Title {}", id),
        cover_url: None,
        authors: vec![],
        description: None,
        tags: vec![],
        source_id: source.to_string(),
    }
}

struct Fake(&'static str);

impl Identified for Fake {
    fn id(&self) -> String {
        self.0.to_string()
    }
}

#[test]
fn partial_failure_keeps_successes() {
    let raw = vec![
        ("A".to_string(), Ok(vec![manga("m1", "")])),
        ("B".to_string(), Err(Error::Network("connection refused".to_string()))),
    ];
    let grouped = group_outcomes(raw);
    assert_eq!(
        grouped,
        vec![
            ("A".to_string(), Ok(vec![manga("m1", "A")])),
            ("B".to_string(), Err(Error::Network("connection refused".to_string()))),
        ]
    );
    assert_eq!(flatten_outcomes(grouped), Ok(vec![manga("m1", "A")]));
}

#[test]
fn all_failures_are_listed() {
    let grouped = group_outcomes(vec![
        ("A".to_string(), Err(Error::Network("down".to_string()))),
        ("B".to_string(), Err(Error::parse("bad body"))),
    ]);
    assert_eq!(
        flatten_outcomes(grouped),
        Err(Error::Other(
            "All sources failed: A: Network error: down, B: Parse error: bad body".to_string()
        ))
    );
}

#[test]
fn flatten_keeps_registration_order() {
    let grouped = group_outcomes(vec![
        ("A".to_string(), Ok(vec![manga("a1", "x"), manga("a2", "x")])),
        ("B".to_string(), Err(Error::not_found("gone"))),
        ("C".to_string(), Ok(vec![])),
        ("D".to_string(), Ok(vec![manga("d1", "x")])),
    ]);
    let r = flatten_outcomes(grouped).unwrap();
    let ids: Vec<(&str, &str)> = r.iter().map(|m| (m.id.as_str(), m.source_id.as_str())).collect();
    assert_eq!(ids, vec![("a1", "A"), ("a2", "A"), ("d1", "D")]);
}

#[test]
fn one_empty_success_is_no_error() {
    let grouped = group_outcomes(vec![
        ("A".to_string(), Ok(vec![])),
        ("B".to_string(), Err(Error::Network("down".to_string()))),
    ]);
    assert_eq!(flatten_outcomes(grouped), Ok(vec![]));
    assert_eq!(flatten_outcomes(vec![]), Ok(vec![]));
}

#[test]
fn from_source_tags_results() {
    let r = from_source_outcome("mgd", Ok(vec![manga("1", "other"), manga("2", "")]));
    assert_eq!(r, Ok(vec![manga("1", "mgd"), manga("2", "mgd")]));
    let e = from_source_outcome("mgd", Err(Error::rate_limit(Some(3))));
    assert_eq!(e, Err(Error::RateLimit { retry_after: Some(3) }));
    assert_eq!(unknown_source("zzz"), Error::NotFound("Source: zzz".to_string()));
}

#[test]
fn registry_lookup() {
    let mut sources = Sources::new();
    sources.add(Fake("A"));
    sources.add(Fake("B"));
    sources.add_with_id("A".to_string(), Fake("A2"));
    assert_eq!(sources.len(), 3);
    assert_eq!(sources.list_ids(), vec!["A".to_string(), "B".to_string(), "A".to_string()]);
    assert_eq!(sources.get("A").map(|f| f.0), Some("A2"));
    assert_eq!(sources.get("B").map(|f| f.0), Some("B"));
    assert!(sources.get("C").is_none());
}
