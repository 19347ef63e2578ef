use playlite::tag_service::{
    classify_and_sort_tags, classify_tags, get_tag_metadata_path, get_tag_stats, get_unknown_tags,
    TagCategory, TagMetadata,
};

fn meta(slug: &str, name: &str, category: TagCategory, relevance: u8, visible: bool) -> TagMetadata {
    TagMetadata { slug: slug.to_string(), name: name.to_string(), category, relevance, visible }
}

fn create_test_metadata() -> Vec<TagMetadata> {
    vec![
        meta("singleplayer", "Singleplayer", TagCategory::Mode, 8, true),
        meta("story-rich", "Story Rich", TagCategory::Narrative, 10, true),
        meta("fantasy", "Fantasy", TagCategory::Theme, 7, true),
        meta("windows", "Windows", TagCategory::Technical, 3, false),
        meta("casual", "Casual", TagCategory::Gameplay, 6, true),
        meta("indie", "Indie", TagCategory::Meta, 5, true),
    ]
}

#[test]
fn test_classify_tags_logic() {
    let test_metadata = create_test_metadata();
    let raw_tags = vec![
        "singleplayer".to_string(),
        "story-rich".to_string(),
        "fantasy".to_string(),
        "windows".to_string(),
        "unknown-tag".to_string(),
    ];
    let classified = classify_tags(&test_metadata, raw_tags);
    assert_eq!(classified.len(), 3);
    assert!(classified.iter().any(|t| t.slug == "singleplayer"));
    assert!(classified.iter().any(|t| t.slug == "story-rich"));
    assert!(classified.iter().any(|t| t.slug == "fantasy"));
    assert!(!classified.iter().any(|t| t.slug == "windows"));
}

#[test]
fn test_sort_by_relevance_logic() {
    let test_metadata = create_test_metadata();
    let raw_tags = vec!["casual".to_string(), "story-rich".to_string(), "indie".to_string()];
    let sorted = classify_and_sort_tags(&test_metadata, raw_tags, 10);
    assert_eq!(sorted[0].slug, "story-rich");
    assert_eq!(sorted[1].slug, "casual");
    assert_eq!(sorted[2].slug, "indie");
}

#[test]
fn test_get_unknown_tags_logic() {
    let test_metadata = create_test_metadata();
    let raw_tags = vec![
        "singleplayer".to_string(),
        "unknown-1".to_string(),
        "fantasy".to_string(),
        "unknown-2".to_string(),
    ];
    let unknown = get_unknown_tags(&test_metadata, &raw_tags);
    assert_eq!(unknown.len(), 2);
    assert!(unknown.contains(&"unknown-1".to_string()));
    assert!(unknown.contains(&"unknown-2".to_string()));
}

#[test]
fn classify_keeps_order_and_names() {
    let t = create_test_metadata();
    let r = classify_tags(&t, vec!["indie".to_string(), "casual".to_string()]);
    assert_eq!(r.len(), 2);
    assert_eq!(r[0].name, "Indie");
    assert_eq!(r[0].category, TagCategory::Meta);
    assert_eq!(r[0].relevance, 5);
    assert_eq!(r[1].slug, "casual");
}

#[test]
fn sort_is_stable_and_limited() {
    let t = vec![
        meta("a", "A", TagCategory::Mode, 5, true),
        meta("b", "B", TagCategory::Mode, 9, true),
        meta("c", "C", TagCategory::Mode, 5, true),
        meta("d", "D", TagCategory::Mode, 1, true),
    ];
    let raw = vec!["a".to_string(), "b".to_string(), "c".to_string(), "d".to_string()];
    let r = classify_and_sort_tags(&t, raw.clone(), 10);
    let slugs: Vec<&str> = r.iter().map(|x| x.slug.as_str()).collect();
    assert_eq!(slugs, vec!["b", "a", "c", "d"]);
    let r2 = classify_and_sort_tags(&t, raw, 2);
    let slugs2: Vec<&str> = r2.iter().map(|x| x.slug.as_str()).collect();
    assert_eq!(slugs2, vec!["b", "a"]);
}

#[test]
fn later_metadata_entry_wins() {
    let t = vec![meta("x", "First", TagCategory::Mode, 1, true), meta("x", "Second", TagCategory::Theme, 2, true)];
    let r = classify_tags(&t, vec!["x".to_string()]);
    assert_eq!(r.len(), 1);
    assert_eq!(r[0].name, "Second");
}

#[test]
fn tag_stats_count_distinct_slugs() {
    let mut t = create_test_metadata();
    t.push(meta("indie", "Indie", TagCategory::Meta, 5, false));
    let s = get_tag_stats(&t);
    assert_eq!(s.total, 6);
    assert_eq!(s.visible, 4);
    assert_eq!(s.hidden, 2);
    let cats: Vec<(String, usize)> = s.by_category.iter().map(|c| (c.category.clone(), c.count)).collect();
    assert_eq!(
        cats,
        vec![
            ("Mode".to_string(), 1),
            ("Narrative".to_string(), 1),
            ("Theme".to_string(), 1),
            ("Technical".to_string(), 1),
            ("Gameplay".to_string(), 1),
            ("Meta".to_string(), 1)
        ]
    );
}

#[test]
fn tag_metadata_path() {
    assert_eq!(get_tag_metadata_path(), "data/tag_metadata.json");
}

#[test]
fn category_names() {
    assert_eq!(TagCategory::Narrative.name(), "Narrative");
    assert_eq!(TagCategory::Gameplay.name(), "Gameplay");
}
