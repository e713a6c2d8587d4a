use tosho::paging::{create_progress_bar, truncate_text, AppState, ConversionConfig, EbookFormat, VolumeGrouping};

#[test]
fn test_app_state_pagination() {
    let mut state = AppState::new();
    state.set_total_items(100);
    state.items_per_page = 10;

    assert_eq!(state.total_pages(), 10);
    assert_eq!(state.current_page_range(), (0, 10));

    assert!(state.next_page());
    assert_eq!(state.current_page_range(), (10, 20));

    assert!(state.previous_page());
    assert_eq!(state.current_page_range(), (0, 10));
}

#[test]
fn test_truncate_text() {
    assert_eq!(truncate_text("Hello World", 5), "He...");
    assert_eq!(truncate_text("Hi", 10), "Hi");
    assert_eq!(truncate_text("Test", 3), "Tes");
}

#[test]
fn test_progress_bar() {
    let progress = create_progress_bar(50, 100, 10);
    assert_eq!(progress.chars().count(), 10);
    assert!(progress.contains("█"));
    assert!(progress.contains("░"));
}

#[test]
fn progress_bar_cells() {
    assert_eq!(create_progress_bar(50, 100, 10), "█████░░░░░");
    assert_eq!(create_progress_bar(0, 0, 3), "███");
    assert_eq!(create_progress_bar(7, 7, 4), "████");
    assert_eq!(create_progress_bar(0, 9, 2), "░░");
}

#[test]
fn pagination_edges() {
    let mut state = AppState::default();
    assert_eq!(state.total_pages(), 1);
    assert!(!state.next_page());
    assert!(!state.previous_page());
    state.set_total_items(45);
    assert_eq!(state.total_pages(), 3);
    assert!(state.next_page());
    assert!(state.next_page());
    assert!(!state.next_page());
    assert_eq!(state.current_page_range(), (40, 45));
    state.set_total_items(5);
    assert_eq!(state.current_page, 0);
}

#[test]
fn truncation_counts_characters() {
    assert_eq!(truncate_text("ワンピース海賊", 5), "ワン...");
    assert_eq!(truncate_text("abcdef", 0), "");
    assert_eq!(truncate_text("abcdef", 6), "abcdef");
}

#[test]
fn conversion_defaults() {
    let c = ConversionConfig::default();
    assert_eq!(c.output_format, EbookFormat::Cbz);
    assert_eq!(c.output_path, "./converted");
    assert_eq!(c.volume_grouping, VolumeGrouping::Name);
    assert!(c.metadata.is_none());
    let m = tosho::paging::ConversionMetadata::default();
    assert_eq!(m.title, "Untitled Manga");
    assert_eq!(m.authors, vec!["Unknown Author".to_string()]);
}
