use playlite::tag_service::{TagCategory, TagMetadata};
use playlite::tags::{classify_and_sort_tags, classify_tags, dedup_strings, get_unknown_tags, normalize_tag_slug};
use playlite::tag_key::{parse_tag_key, tag_key_text, TagKey};

fn meta(slug: &str, relevance: u8, visible: bool) -> TagMetadata {
    TagMetadata { slug: slug.to_string(), name: slug.to_uppercase(), category: TagCategory::Gameplay, relevance, visible }
}

#[test]
fn normalize_strips_numeric_suffix() {
    assert_eq!(normalize_tag_slug("rpg-2"), "rpg");
    assert_eq!(normalize_tag_slug("open-world-13"), "open-world");
    assert_eq!(normalize_tag_slug("2d"), "2d");
    assert_eq!(normalize_tag_slug("4x"), "4x");
    assert_eq!(normalize_tag_slug("a-1-2"), "a-1");
    assert_eq!(normalize_tag_slug("story-rich"), "story-rich");
}

#[test]
fn classify_uses_normalized_slugs() {
    let t = vec![meta("rpg", 9, true), meta("hidden", 2, false)];
    let r = classify_tags(&t, vec!["rpg-3".to_string(), "hidden-1".to_string(), "zzz".to_string()]);
    assert_eq!(r.len(), 1);
    assert_eq!(r[0].slug, "rpg");
}

#[test]
fn classify_and_sort_drops_repeats() {
    let t = vec![meta("rpg", 4, true), meta("action", 8, true)];
    let raw = vec!["rpg".to_string(), "rpg-2".to_string(), "action".to_string(), "action-5".to_string()];
    let r = classify_and_sort_tags(&t, raw, 10);
    let slugs: Vec<&str> = r.iter().map(|x| x.slug.as_str()).collect();
    assert_eq!(slugs, vec!["action", "rpg"]);
}

#[test]
fn unknown_tags_are_normalized_and_unique() {
    let t = vec![meta("rpg", 4, true)];
    let raw = vec!["foo-1".to_string(), "rpg-2".to_string(), "foo".to_string(), "bar".to_string()];
    let r = get_unknown_tags(&t, &raw);
    assert_eq!(r, vec!["foo".to_string(), "bar".to_string()]);
}

#[test]
fn dedup_strings_keeps_first() {
    let v = vec!["b".to_string(), "a".to_string(), "b".to_string()];
    assert_eq!(dedup_strings(v), vec!["b".to_string(), "a".to_string()]);
}

#[test]
fn classified_tags_unique_sorted_and_limited() {
    let t = vec![meta("rpg", 4, true), meta("action", 8, true), meta("indie", 4, true), meta("co-op", 9, true)];
    let raw = vec![
        "indie".to_string(),
        "rpg-7".to_string(),
        "action".to_string(),
        "indie-2".to_string(),
        "co-op".to_string(),
        "rpg".to_string(),
    ];
    let r = classify_and_sort_tags(&t, raw.clone(), 3);
    let slugs: Vec<&str> = r.iter().map(|x| x.slug.as_str()).collect();
    assert_eq!(slugs, vec!["co-op", "action", "indie"]);
    let all = classify_and_sort_tags(&t, raw, 10);
    let slugs: Vec<&str> = all.iter().map(|x| x.slug.as_str()).collect();
    assert_eq!(slugs, vec!["co-op", "action", "indie", "rpg"]);
}

#[test]
fn tag_key_text_round_trip() {
    let key = TagKey { category: TagCategory::Theme, slug: "horror".to_string() };
    let text = tag_key_text(&key);
    assert_eq!(text, "Theme:horror");
    let back = parse_tag_key(&text).unwrap();
    assert!(back.category == TagCategory::Theme);
    assert_eq!(back.slug, "horror");
    let meta = parse_tag_key("Meta:").unwrap();
    assert!(meta.category == TagCategory::Meta);
    assert_eq!(meta.slug, "");
}

#[test]
fn tag_key_rejects_other_texts() {
    assert!(parse_tag_key("horror").is_none());
    assert!(parse_tag_key("Theme:a:b").is_none());
    assert!(parse_tag_key("theme:horror").is_none());
    assert!(parse_tag_key("Unknown:x").is_none());
    assert!(parse_tag_key("Th\\\"eme:x").is_none());
    let escaped = parse_tag_key("\\u0054heme:x").unwrap();
    assert!(escaped.category == TagCategory::Theme);
}

#[test]
fn unknown_tags_sorted_for_report() {
    let table = vec![meta("rpg", 5, true), meta("action", 3, false)];
    let raw = vec!["zombies".to_string(), "rpg-2".to_string(), "arcade-3".to_string(), "zombies".to_string(), "action".to_string(), "arcade".to_string()];
    let r = playlite::tags::sorted_unknown_tags(&table, &raw);
    assert_eq!(r, vec!["arcade".to_string(), "zombies".to_string()]);
}
