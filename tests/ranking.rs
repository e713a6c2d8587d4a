use tosho::rank::{
    calculate_query_relevance_score, calculate_relevance_score, count_holding_folded,
    folded_query_relevance_score, popularity,
};
use tosho::{Manga, SearchResultExt};

fn manga(id: &str, title: &str, desc: Option<&str>, tags: &[&str], authors: &[&str], cover: bool) -> Manga {
    Manga {
        id: id.to_string(),
        title: title.to_string(),
        cover_url: if cover { Some("https://c/x.jpg".to_string()) } else { None },
        authors: authors.iter().map(|s| s.to_string()).collect(),
        description: desc.map(|s| s.to_string()),
        tags: tags.iter().map(|s| s.to_string()).collect(),
        source_id: "s".to_string(),
    }
}

fn strings(v: &[&str]) -> Vec<String> {
    v.iter().map(|s| s.to_string()).collect()
}

#[test]
fn relevance_score_constants() {
    assert_eq!(calculate_relevance_score("One Piece", &Some("x".to_string()), &vec![], &strings(&["Oda"])), 33);
    let long = "Official Colored Edition of a Very Long Manga Title Here";
    assert_eq!(calculate_relevance_score(long, &None, &strings(&["a", "b", "c", "d", "e"]), &vec![]), 26);
    assert_eq!(calculate_relevance_score("ワンピース", &None, &vec![], &vec![]), 15);
    assert_eq!(calculate_relevance_score("T", &Some("   ".to_string()), &strings(&["a", "b", "c"]), &vec![]), 23);
}

#[test]
fn query_score_constants() {
    let none: Option<String> = None;
    assert_eq!(
        calculate_query_relevance_score("One Piece", &none, &strings(&["Action"]), &strings(&["Oda"]), "one piece"),
        107
    );
    assert_eq!(
        calculate_query_relevance_score(
            "One Piece Party",
            &Some("A pirate story".to_string()),
            &strings(&["Pirates"]),
            &strings(&["Oda"]),
            "piece"
        ),
        61
    );
    assert_eq!(
        calculate_query_relevance_score("Naruto", &none, &strings(&["Ninja"]), &strings(&["Kishimoto"]), "naruto shippuden"),
        19
    );
    assert_eq!(
        calculate_query_relevance_score("Bleach", &none, &strings(&["bleach"]), &strings(&["bleach fan"]), "bleach"),
        137
    );
    assert_eq!(calculate_query_relevance_score("Attack on Titan", &none, &vec![], &vec![], "titan attack"), 31);
}

#[test]
fn dedupe_keeps_first_of_each_title() {
    let list = vec![
        manga("1", "One Piece", None, &[], &[], false),
        manga("2", "naruto", None, &[], &[], false),
        manga("3", "ONE PIECE", None, &[], &[], false),
        manga("4", "Naruto", None, &[], &[], false),
        manga("5", "Bleach", None, &[], &[], false),
    ];
    let r = list.clone().dedupe_by_title();
    let ids: Vec<&str> = r.iter().map(|m| m.id.as_str()).collect();
    assert_eq!(ids, vec!["1", "2", "5"]);
    assert!(Vec::<Manga>::new().dedupe_by_title().is_empty());
}

#[test]
fn popularity_filter() {
    let a = manga("a", "A", Some("d"), &["x", "y", "z", "u", "v"], &["w"], true);
    let b = manga("b", "B", None, &[], &[], true);
    let c = manga("c", "C", Some(" "), &["x", "y", "z"], &[], false);
    assert_eq!(popularity(&a), 6);
    assert_eq!(popularity(&b), 1);
    assert_eq!(popularity(&c), 1);
    let r = vec![a.clone(), b.clone(), c.clone()].filter_popular(1);
    assert_eq!(r.len(), 3);
    let r = vec![a.clone(), b.clone(), c.clone()].filter_popular(2);
    assert_eq!(r, vec![a.clone()]);
    assert!(vec![b, c].filter_popular(7).is_empty());
}

#[test]
fn sort_by_quality_score() {
    let long = "Official Colored Edition of a Very Long Manga Title Here";
    let list = vec![
        manga("c", "Naruto", None, &[], &[], false),
        manga("e", "Bleach 2", None, &[], &["K"], false),
        manga("b", long, None, &["a", "b", "c", "d", "e"], &[], false),
        manga("d", "Bleach", None, &[], &["K"], false),
        manga("a", "One Piece", Some("x"), &[], &["Oda"], false),
    ];
    let ids: Vec<String> = list.sort_by_relevance().into_iter().map(|m| m.id).collect();
    assert_eq!(ids, vec!["a", "b", "d", "e", "c"]);
}

#[test]
fn sort_by_query_score() {
    let list = vec![
        manga("x", "Naruto", None, &[], &[], false),
        manga("y", "One Piece Party", None, &[], &[], false),
        manga("z", "ONE PIECE", None, &[], &[], false),
    ];
    let ids: Vec<String> = list.sort_by_query_relevance("One Piece").into_iter().map(|m| m.id).collect();
    assert_eq!(ids, vec!["z", "y", "x"]);
}

#[test]
fn sort_keeps_given_order_on_ties() {
    let list = vec![
        manga("1", "Same", None, &[], &[], false),
        manga("2", "Same", None, &[], &[], false),
        manga("3", "Same", None, &[], &[], false),
    ];
    let ids: Vec<String> = list.sort_by_relevance().into_iter().map(|m| m.id).collect();
    assert_eq!(ids, vec!["1", "2", "3"]);
}

#[test]
fn title_length_counts_bytes() {
    let eleven = "é".repeat(11);
    assert_eq!(calculate_relevance_score(&eleven, &None, &vec![], &vec![]), 10);
    let ten_ascii = "a".repeat(20);
    assert_eq!(calculate_relevance_score(&ten_ascii, &None, &vec![], &vec![]), 18);
}

#[test]
fn ties_on_score_and_bytes_keep_order() {
    let list = vec![
        manga("1", "éé", None, &[], &[], false),
        manga("2", "abcd", None, &[], &[], false),
        manga("3", "wxyz", None, &[], &[], false),
        manga("4", "ab", None, &[], &[], false),
    ];
    let ids: Vec<String> = list.sort_by_relevance().into_iter().map(|m| m.id).collect();
    assert_eq!(ids, vec!["4", "2", "3", "1"]);
}

#[test]
fn folded_scores() {
    let q: Vec<char> = "piece".chars().collect();
    assert_eq!(count_holding_folded(&strings(&["one piece", "pieces", "naruto"]), &q), 2);
    let title: Vec<char> = "one piece party".chars().collect();
    let r = folded_query_relevance_score(
        &title,
        &Some("a piece of story".to_string()),
        &strings(&["piece"]),
        &strings(&["piece maker", "x"]),
        &q,
        33,
    );
    assert_eq!(r, 50 + 15 + 10 + 20 + 11);
}
