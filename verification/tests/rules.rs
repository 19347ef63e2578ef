use playlite::recommendation::cf_app_id;
use playlite::metadata::{listing_cache_key, listing_page_size, listing_result, rawg_identifier, trending_dates, upcoming_dates, RawgListing};
use playlite::recommendation::{determine_hybrid_reason, genre_reason, settings_report, tag_reason};
use playlite::giveaways::{active_giveaways, Giveaway};
use playlite::cache;
use playlite::metadata::{join_names, list_supported_keys, metadata_from_details, GameDetails, RawgDeveloper, RawgGenre, RawgTag, UnifiedGameMetadata};
use playlite::metadata_cache;
use playlite::protobuf::{parse_install_data, read_varint};
use playlite::recommendation::{
    apply_diversity_rules, apply_hard_filters, parse_release_year, playtime_multiplier_tenths, GameWithDetails, RecTag,
    SeriesLimit, TagRole, UserSettings,
};
use playlite::scanner::{calculate_rank, candidate_size_mb, discovery_confidence, ExecutableCandidate, ExecutableType, GameDiscovery};
use playlite::steam_store::{detect_adult_content, median_hours, review_summary, ContentDescriptors, Genre, SteamStoreData};

fn s(x: &str) -> String {
    x.to_string()
}

#[test]
fn ttl_by_key_prefix() {
    assert_eq!(metadata_cache::get_ttl_for_cache_type("search_zelda"), 30 * 86400);
    assert_eq!(metadata_cache::get_ttl_for_cache_type("store_620"), 30 * 86400);
    assert_eq!(metadata_cache::get_ttl_for_cache_type("reviews_620"), 7 * 86400);
    assert_eq!(metadata_cache::get_ttl_for_cache_type("playtime_620"), 15 * 86400);
    assert_eq!(metadata_cache::get_ttl_for_cache_type("other"), 7 * 86400);
    assert_eq!(cache::get_ttl_for_cache_type("rawg_1"), 30 * 86400);
    assert_eq!(cache::get_ttl_for_cache_type("gamebrain_id:abc"), 30 * 86400);
    assert_eq!(cache::get_ttl_for_cache_type("gamebrain_similar:42"), 30 * 86400);
    assert_eq!(cache::get_ttl_for_cache_type("gamebrain_media:42"), 7 * 86400);
    assert!(cache::fresh_payload("gamebrain_similar:42", "[]".to_string(), 0, 10 * 86400).is_some());
}

#[test]
fn expiry_decisions() {
    assert!(!metadata_cache::is_cache_expired("reviews_1", 1000, 1000));
    assert!(!metadata_cache::is_cache_expired("reviews_1", 0, 7 * 86400));
    assert!(metadata_cache::is_cache_expired("reviews_1", 0, 7 * 86400 + 1));
    assert_eq!(metadata_cache::fresh_payload("store_1", s("{}"), 0, 10), Some(s("{}")));
    assert_eq!(metadata_cache::fresh_payload("x", s("{}"), 0, 8 * 86400), None);
    let (a, b, c, d) = metadata_cache::expiry_cutoffs(100 * 86400);
    assert_eq!((a, b, c, d), (70 * 86400, 70 * 86400, 93 * 86400, 85 * 86400));
}

fn cand(name: &str, rank: i32) -> ExecutableCandidate {
    ExecutableCandidate { path: format!("/g/{name}"), filename: s(name), size_mb: 10, rank_score: rank, executable_type: ExecutableType::WindowsExe }
}

#[test]
fn executable_ranking() {
    assert_eq!(calculate_rank("Game.exe", 600, Some(s("Game")), Some(s("Game")), 0), 2 + 2 + 3 + 3 + 2);
    assert_eq!(calculate_rank("Game.exe", 600, Some(s("MyGame")), Some(s("Game")), 0), 12);
    assert_eq!(calculate_rank("Game.exe", 600, Some(s("bin")), Some(s("Game")), 1), 7);
    assert_eq!(calculate_rank("UnityCrashHandler64.exe", 6, Some(s("Hollow")), Some(s("UnityCrashHandler64")), 2), -5);
    assert_eq!(calculate_rank("x.exe", 200, None, None, 0), 2);
    assert_eq!(candidate_size_mb(4 * 1024 * 1024), None);
    assert_eq!(candidate_size_mb(12 * 1024 * 1024 + 5), Some(12));
    assert_eq!(ExecutableType::LinuxElf.label(), "Linux ELF");
}

#[test]
fn best_and_sorted_executables() {
    let d = GameDiscovery { id: s("1"), base_path: s("/g"), suggested_name: s("G"), confidence: 0, executables: vec![cand("a", 3), cand("b", 7), cand("c", 7), cand("d", -5)] };
    assert_eq!(d.best_executable().unwrap().filename, "c");
    let sorted: Vec<String> = d.sorted_executables().iter().map(|e| e.filename.clone()).collect();
    assert_eq!(sorted, vec![s("b"), s("c"), s("a"), s("d")]);
    assert_eq!(discovery_confidence(&d.executables), 7);
    assert_eq!(discovery_confidence(&vec![]), 0);
    let empty = GameDiscovery { id: s("2"), base_path: s("/h"), suggested_name: s("H"), confidence: 0, executables: vec![] };
    assert!(empty.best_executable().is_none());
}

fn store(ids: Vec<u32>, notes: Option<&str>, genres: Vec<&str>) -> SteamStoreData {
    SteamStoreData {
        name: s("Game"),
        is_free: false,
        short_description: s(""),
        header_image: s(""),
        website: None,
        release_date: None,
        content_descriptors: ContentDescriptors { ids, notes: notes.map(s) },
        categories: vec![],
        genres: genres.into_iter().map(|g| Genre { id: s("1"), description: s(g) }).collect(),
        required_age: 0,
    }
}

#[test]
fn review_summaries() {
    let r = review_summary(Some(8), None, Some(100), None, Some(120));
    assert_eq!(r.review_score, 8);
    assert_eq!(r.review_score_desc, "No Reviews");
    assert_eq!(r.total_positive, 100);
    assert_eq!(r.total_negative, 0);
    assert_eq!(r.total_reviews, 120);
}

#[test]
fn adult_content_flags() {
    let info = store(vec![1, 5, 1], None, vec!["Action"]);
    let (explicit, flags) = detect_adult_content(&info);
    assert!(!explicit);
    assert_eq!(flags, vec![s("adult themes"), s("violence")]);
    let info2 = store(vec![3], Some("Adult Only Sexual Content, explicit sexual scenes"), vec!["Casual", "NSFW"]);
    let (explicit2, flags2) = detect_adult_content(&info2);
    assert!(explicit2);
    assert_eq!(flags2, vec![s("adult only sexual content"), s("explicit sexual"), s("nsfw"), s("nudity")]);
    assert_eq!(median_hours(150), Some(2));
    assert_eq!(median_hours(59), None);
}

fn rec(series: Option<&str>, genre: Option<&str>, tags: Vec<RecTag>) -> GameWithDetails {
    GameWithDetails { tags, series: series.map(s), genres: genre.map(|g| vec![s(g)]).unwrap_or_default() }
}

#[test]
fn hard_filters_and_diversity() {
    let games = vec![
        rec(None, Some("RPG"), vec![RecTag { slug: s("nsfw"), role: TagRole::Filter }]),
        rec(None, Some("RPG"), vec![RecTag { slug: s("nsfw"), role: TagRole::Affinity }]),
    ];
    let on = UserSettings { filter_adult_content: true, series_limit: SeriesLimit::Moderate };
    assert_eq!(apply_hard_filters(&games, &on), vec![1]);
    let off = UserSettings::default();
    assert_eq!(apply_hard_filters(&games, &off), vec![0, 1]);
    let ranked = vec![
        rec(Some("Zelda"), Some("Adventure"), vec![]),
        rec(Some("Zelda"), Some("Adventure"), vec![]),
        rec(Some("Zelda"), Some("Adventure"), vec![]),
        rec(None, Some("Adventure"), vec![]),
        rec(None, Some("Adventure"), vec![]),
        rec(None, Some("Adventure"), vec![]),
        rec(None, Some("Puzzle"), vec![]),
    ];
    assert_eq!(apply_diversity_rules(&ranked, &off), vec![0, 1, 3, 4, 6]);
    let aggressive = UserSettings { filter_adult_content: false, series_limit: SeriesLimit::Aggressive };
    assert_eq!(apply_diversity_rules(&ranked, &aggressive), vec![0, 3, 4, 5, 6]);
}

#[test]
fn years_and_multipliers() {
    assert_eq!(parse_release_year("2015-05-19"), Some(2015));
    assert_eq!(parse_release_year("1998"), Some(1998));
    assert_eq!(parse_release_year("TBA"), None);
    assert_eq!(parse_release_year("-05"), None);
    assert_eq!(playtime_multiplier_tenths(10, &vec![s("RPG")], &vec![]), 35);
    assert_eq!(playtime_multiplier_tenths(1, &vec![s("Action")], &vec![]), 38);
    assert_eq!(playtime_multiplier_tenths(3, &vec![], &vec![s("open-world")]), 37);
    assert_eq!(playtime_multiplier_tenths(10, &vec![s("Indie")], &vec![s("story-rich")]), 22);
    assert_eq!(playtime_multiplier_tenths(10, &vec![s("Puzzle")], &vec![]), 25);
}

#[test]
fn metadata_records() {
    let e = UnifiedGameMetadata::empty_with_error(s("g1"), s("Game"), s("offline"));
    assert!(!e.success);
    assert_eq!(e.error_message, Some(s("offline")));
    assert_eq!(e.description, "Metadados não encontrados");
    assert_eq!(join_names(&vec![s("A"), s("B"), s("C")]), "A, B, C");
    assert_eq!(join_names(&vec![]), "");
    let d = GameDetails {
        id: 3498,
        name: s("Game"),
        description_raw: None,
        metacritic: Some(90),
        website: Some(s("https://x")),
        released: Some(s("2020-01-01")),
        background_image: None,
        genres: vec![RawgGenre { name: s("Action") }],
        tags: (0..12).map(|i| RawgTag { id: i, name: format!("t{i}"), slug: format!("t{i}"), language: None, games_count: 0, image_background: None }).collect(),
        developers: vec![RawgDeveloper { id: 1, name: s("Dev"), slug: s("dev") }, RawgDeveloper { id: 2, name: s("Dev2"), slug: s("dev2") }],
        publishers: vec![],
        reddit_url: None,
        metacritic_url: None,
        stores: vec![],
        esrb_rating: None,
    };
    let m = metadata_from_details(s("g1"), s("Game"), None, d, 3498, Some(s("bg.jpg")));
    assert_eq!(m.rawg_url, Some(s("https://rawg.io/games/3498")));
    assert_eq!(m.tags, "t0, t1, t2, t3, t4, t5, t6, t7, t8, t9");
    assert_eq!(m.background_image, Some(s("bg.jpg")));
    assert_eq!(m.developer, Some(s("Dev")));
    assert_eq!(m.publisher, None);
    assert_eq!(m.description, "");
    assert_eq!(m.genres, "Action");
    assert_eq!(list_supported_keys(), vec!["steam_id", "steam_api_key", "rawg_api_key"]);
}

#[test]
fn protobuf_varints() {
    assert_eq!(read_varint(&[0x96, 0x01], 0), Some((150, 2)));
    assert_eq!(read_varint(&[0x80], 0), None);
    let data = [0x0a, 0x03, b'C', b':', b'\\'];
    assert_eq!(parse_install_data(&data), Some(s("C:\\")));
}

#[test]
fn reasons_and_reports() {
    let r = determine_hybrid_reason(true, true, None);
    assert_eq!(r.type_id, "hybrid");
    let r = determine_hybrid_reason(false, true, None);
    assert_eq!(r.label, "Popular na comunidade");
    let r = determine_hybrid_reason(true, false, Some(genre_reason("RPG")));
    assert_eq!(r.label, "Gênero: RPG");
    assert_eq!(determine_hybrid_reason(false, false, None).type_id, "general");
    assert_eq!(tag_reason("Roguelike").label, "Tag: Roguelike");
    let rep = settings_report(&UserSettings { filter_adult_content: true, series_limit: SeriesLimit::Unlimited });
    assert_eq!(rep.series_limit, "none");
    assert!(rep.filter_adult_content);
}

#[test]
fn active_offers_only() {
    let g = |id: u32, status: &str| Giveaway {
        id,
        title: format!("G{id}"),
        worth: s("N/A"),
        thumbnail: s(""),
        image: s(""),
        description: s(""),
        instructions: s(""),
        open_giveaway_url: s(""),
        published_date: s(""),
        type_prop: s("Game"),
        platforms: s("PC"),
        end_date: None,
        status: s(status),
    };
    let r = active_giveaways(vec![g(1, "Active"), g(2, "Expired"), g(3, "Active")]);
    let ids: Vec<u32> = r.iter().map(|x| x.id).collect();
    assert_eq!(ids, vec![1, 3]);
}

#[test]
fn rawg_identifiers() {
    assert_eq!(rawg_identifier("12345"), "12345");
    assert_eq!(rawg_identifier("Baldur's Gate 3"), "baldurs-gate-3");
    assert_eq!(rawg_identifier("Half-Life: Alyx"), "half-life-alyx");
    assert_eq!(rawg_identifier("Ratchet & Clank"), "ratchet--clank");
    assert_eq!(rawg_identifier("St. Kitts"), "st-kitts");
    assert_eq!(rawg_identifier("٣٤"), "٣٤");
    assert_eq!(rawg_identifier(""), "");
}

#[test]
fn cf_index_keys() {
    assert_eq!(cf_app_id("413150"), Some(413150));
    assert_eq!(cf_app_id("+7"), Some(7));
    assert_eq!(cf_app_id("4294967295"), Some(4294967295));
    assert_eq!(cf_app_id("4294967296"), None);
    assert_eq!(cf_app_id("12a"), None);
    assert_eq!(cf_app_id(""), None);
    assert_eq!(cf_app_id("-1"), None);
}

#[test]
fn rawg_listing_dates() {
    assert_eq!(trending_dates(2024), "2023-01-01,2024-12-31");
    assert_eq!(trending_dates(0), "-1-01-01,0-12-31");
    assert_eq!(upcoming_dates("2024-05-17", 2024), "2024-05-17,2025-12-31");
    assert_eq!(listing_page_size(&RawgListing::Trending), 20);
    assert_eq!(listing_page_size(&RawgListing::Upcoming), 10);
    assert_eq!(listing_cache_key(&RawgListing::Trending), "rawg_list_trending");
    assert_eq!(listing_cache_key(&RawgListing::Upcoming), "rawg_list_upcoming");
}

#[test]
fn rawg_listing_falls_back_only_when_unreachable() {
    let got: Result<Vec<u32>, String> = listing_result(&RawgListing::Trending, Some(Ok(vec![1, 2])), Some(vec![9]));
    assert_eq!(got, Ok(vec![1, 2]));
    let bad: Result<Vec<u32>, String> = listing_result(&RawgListing::Trending, Some(Err("bad body".to_string())), Some(vec![9]));
    assert_eq!(bad, Err("bad body".to_string()));
    let stale: Result<Vec<u32>, String> = listing_result(&RawgListing::Upcoming, None, Some(vec![9]));
    assert_eq!(stale, Ok(vec![9]));
    let none: Result<Vec<u32>, String> = listing_result(&RawgListing::Upcoming, None, None);
    assert_eq!(none, Err("Não foi possível carregar lançamentos (sem conexão e sem cache).".to_string()));
    let none_t: Result<Vec<u32>, String> = listing_result(&RawgListing::Trending, None, None);
    assert_eq!(none_t, Err("Não foi possível carregar os jogos em alta (sem conexão e sem cache).".to_string()));
}
