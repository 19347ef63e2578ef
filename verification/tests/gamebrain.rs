use playlite::gamebrain::{cleaned_query, cover_url, distinct_platforms, with_pc_filter, GameBrainFilter, GameBrainSearchParams};
use playlite::gamebrain::{
    build_game_media, gamebrain_id_cache_key, gamebrain_media_cache_key, gamebrain_similar_cache_key,
    parse_gamebrain_id, suggestion_matches, GameBrainSort, GameBrainSortOrder, RawGameDetail, RawId,
};

#[test]
fn cache_keys() {
    assert_eq!(gamebrain_id_cache_key("abc"), "gamebrain_id:abc");
    assert_eq!(gamebrain_similar_cache_key(1234), "gamebrain_similar:1234");
    assert_eq!(gamebrain_media_cache_key(0), "gamebrain_media:0");
}

#[test]
fn sort_names() {
    assert_eq!(GameBrainSort::Rating.as_str(), "computed_rating");
    assert_eq!(GameBrainSort::ReleaseDate.as_str(), "release_date");
    assert_eq!(GameBrainSort::Price.as_str(), "price");
    assert_eq!(GameBrainSortOrder::Asc.as_str(), "asc");
    assert_eq!(GameBrainSortOrder::Desc.as_str(), "desc");
}

#[test]
fn ids_from_numbers_and_text() {
    assert_eq!(parse_gamebrain_id(&RawId::Unsigned(77)), Some(77));
    assert_eq!(parse_gamebrain_id(&RawId::Text("123".to_string())), Some(123));
    assert_eq!(parse_gamebrain_id(&RawId::Text("12a".to_string())), None);
    assert_eq!(parse_gamebrain_id(&RawId::OtherNumber), None);
    assert_eq!(parse_gamebrain_id(&RawId::Other), None);
}

#[test]
fn suggestion_matching() {
    assert!(suggestion_matches("Hades", "Hades II"));
    assert!(suggestion_matches("Resident Evil 4 Remake", "Resident Evil 4"));
    assert!(suggestion_matches("Resident   Evil village", "resident evil 7"));
    assert!(!suggestion_matches("Portal", "Half-Life"));
}

#[test]
fn media_sorted_into_kinds() {
    let raw = RawGameDetail {
        image: Some("cover.jpg".to_string()),
        screenshots: vec!["s1.jpg".to_string()],
        videos: vec![
            "https://cdn/movie480_vp9.webm".to_string(),
            "https://www.youtube-nocookie.com/embed/xyz".to_string(),
            "https://other/video.mp4".to_string(),
        ],
        micro_trailer: None,
    };
    let m = build_game_media(raw);
    assert_eq!(m.trailers, vec!["https://cdn/movie480_vp9.webm".to_string()]);
    assert_eq!(m.youtube_embeds, vec!["https://www.youtube-nocookie.com/embed/xyz".to_string()]);
    assert_eq!(m.screenshots, vec!["cover.jpg".to_string(), "s1.jpg".to_string()]);
    let raw2 = RawGameDetail { image: Some("s1.jpg".to_string()), screenshots: vec!["s1.jpg".to_string()], videos: vec![], micro_trailer: Some("m.webm".to_string()) };
    let m2 = build_game_media(raw2);
    assert_eq!(m2.screenshots, vec!["s1.jpg".to_string()]);
    assert_eq!(m2.micro_trailer, Some("m.webm".to_string()));
}

#[test]
fn pc_filter_and_results() {
    let p = with_pc_filter(GameBrainSearchParams { filters: vec![], sort: None, sort_order: None, limit: Some(5), offset: None });
    assert_eq!(p.filters.len(), 1);
    assert_eq!(p.filters[0].key, "platform");
    assert_eq!(p.filters[0].values[0].value, "pc");
    assert_eq!(p.filters[0].connection, Some("OR".to_string()));
    let q = with_pc_filter(GameBrainSearchParams {
        filters: vec![GameBrainFilter { key: "platform".to_string(), values: vec![], connection: None }],
        sort: None,
        sort_order: None,
        limit: None,
        offset: None,
    });
    assert_eq!(q.filters.len(), 1);
    assert_eq!(cleaned_query("  rpg medieval "), Some("rpg medieval".to_string()));
    assert_eq!(cleaned_query("   "), None);
    let names = vec!["PC".to_string(), "".to_string(), "Mac".to_string(), "PC".to_string()];
    assert_eq!(distinct_platforms(&names), vec!["PC".to_string(), "Mac".to_string()]);
    assert_eq!(cover_url(None, Some("".to_string())), None);
    assert_eq!(cover_url(None, Some("c.jpg".to_string())), Some("c.jpg".to_string()));
    assert_eq!(cover_url(Some("i.jpg".to_string()), Some("c.jpg".to_string())), Some("i.jpg".to_string()));
}

#[test]
fn search_precheck_rules() {
    assert_eq!(playlite::gamebrain::search_precheck("  ", "zelda"), Err("GameBrain API key não configurada".to_string()));
    assert_eq!(playlite::gamebrain::search_precheck("key", "   "), Ok(None));
    assert_eq!(playlite::gamebrain::search_precheck("key", "  open world  "), Ok(Some("open world".to_string())));
    assert_eq!(playlite::gamebrain::search_result_id("123"), "gamebrain:123");
}
