use playlite::steam_library::api_games;
use playlite::steam_store::SteamGame;
use playlite::steam_library::{
    api_game, cache_game, dedup_by_id, extract_vdf_value, filter_duplicate_demos, is_appmanifest,
    is_demo_game, librarycache_appid, manifest_game, normalize_game_name, parse_appmanifest,
    parse_library_folders, GameData,
};
use playlite::steam_merge::{combine_library, confidence_score, enrich, merge_games, merge_multiple};

fn game(name: &str, id: &str, conf: &str) -> GameData {
    GameData {
        name: name.to_string(),
        platform: "Steam".to_string(),
        platform_game_id: id.to_string(),
        install_path: None,
        installed: false,
        import_confidence: conf.to_string(),
        playtime_forever: 0,
        rtime_last_played: 0,
    }
}

#[test]
fn appmanifest_names() {
    assert!(is_appmanifest("appmanifest_620.acf"));
    assert!(!is_appmanifest("appmanifest_620.txt"));
    assert!(!is_appmanifest("libraryfolders.vdf"));
}

#[test]
fn vdf_value_is_fourth_piece() {
    assert_eq!(extract_vdf_value("\"name\"\t\t\"Portal 2\""), Some("Portal 2".to_string()));
    assert_eq!(extract_vdf_value("\"name\""), None);
}

#[test]
fn appmanifest_fields() {
    let content = "\"AppState\"\n{\n\t\"appid\"\t\t\"620\"\n\t\"name\"\t\t\"Portal 2\"\n\t\"installdir\"\t\t\"Portal 2\"\n}\n";
    let m = parse_appmanifest(content).ok().unwrap();
    assert_eq!(m.appid, "620");
    assert_eq!(m.name, "Portal 2");
    assert_eq!(m.installdir, Some("Portal 2".to_string()));
    let g = manifest_game(m, Some("/lib/steamapps/common/Portal 2".to_string()));
    assert_eq!(g.platform, "Steam");
    assert_eq!(g.import_confidence, "High");
    assert!(g.installed);
}

#[test]
fn appmanifest_without_appid_is_an_error() {
    let r = parse_appmanifest("\"AppState\"\n{\n\t\"name\"\t\t\"X\"\n}\n");
    assert_eq!(r.err(), Some("appid não encontrado".to_string()));
    let m = parse_appmanifest("\"appid\" \"10\"\n").ok().unwrap();
    assert_eq!(m.name, "Unknown");
    assert_eq!(m.installdir, None);
}

#[test]
fn library_folders_lists_every_path() {
    let vdf = "\"libraryfolders\"\n{\n\t\"0\"\n\t{\n\t\t\"path\"\t\t\"C:\\\\Steam\"\n\t}\n\t\"1\"\n\t{\n\t\t\"path\"\t\t\"D:\\\\Games\\\\Steam\"\n\t}\n}\n";
    let r = parse_library_folders(vdf);
    assert_eq!(r, vec!["C:\\Steam".to_string(), "D:\\Games\\Steam".to_string()]);
}

#[test]
fn demo_detection_and_normalization() {
    assert!(is_demo_game("Cool Game Demo"));
    assert!(is_demo_game("Cool Game (Playtest)"));
    assert!(!is_demo_game("Demolition Man"));
    assert_eq!(normalize_game_name("Cool Game Demo"), "cool game");
    assert_eq!(normalize_game_name("Cool Game (Demo)"), "cool game");
    assert_eq!(normalize_game_name("  Cool Game  "), "cool game");
}

#[test]
fn demos_dropped_when_base_owned() {
    let games = vec![game("Cool Game", "1", "Low"), game("Cool Game Demo", "2", "Medium"), game("Other", "3", "Low")];
    let r = filter_duplicate_demos(games, &vec!["1".to_string()]);
    let ids: Vec<&str> = r.iter().map(|g| g.platform_game_id.as_str()).collect();
    assert_eq!(ids, vec!["1", "3"]);
}

#[test]
fn demo_kept_when_base_not_owned() {
    let games = vec![game("Cool Game", "1", "Medium"), game("Cool Game Demo", "2", "Medium")];
    let r = filter_duplicate_demos(games, &vec![]);
    let ids: Vec<&str> = r.iter().map(|g| g.platform_game_id.as_str()).collect();
    assert_eq!(ids, vec!["2"]);
}

#[test]
fn confidence_ranks() {
    assert_eq!(confidence_score("High"), 3);
    assert_eq!(confidence_score("Medium"), 2);
    assert_eq!(confidence_score("Low"), 1);
    assert_eq!(confidence_score("other"), 0);
}

#[test]
fn enrich_takes_longer_name_and_maxima() {
    let mut a = game("Game", "1", "High");
    a.playtime_forever = 10;
    let mut b = game("Game: Extended", "1", "Low");
    b.playtime_forever = 30;
    b.install_path = Some("/x".to_string());
    b.installed = true;
    b.rtime_last_played = 99;
    let r = enrich(&a, &b);
    assert_eq!(r.name, "Game: Extended");
    assert_eq!(r.playtime_forever, 30);
    assert_eq!(r.rtime_last_played, 99);
    assert_eq!(r.install_path, Some("/x".to_string()));
    assert!(r.installed);
    assert_eq!(r.import_confidence, "High");
}

#[test]
fn merge_multiple_prefers_confident_source() {
    let r = merge_multiple(vec![game("Api Name", "5", "Low"), game("Disk", "5", "High")]);
    assert_eq!(r.import_confidence, "High");
    assert_eq!(r.name, "Api Name");
}

#[test]
fn merge_games_one_per_key_sorted() {
    let installed = vec![game("Zeta", "2", "High"), game("alpha", "1", "High")];
    let api = vec![game("Alpha", "1", "Low"), game("Beta", "3", "Low")];
    let r = merge_games(vec![installed, api]);
    let ids: Vec<&str> = r.iter().map(|g| g.platform_game_id.as_str()).collect();
    assert_eq!(ids, vec!["1", "3", "2"]);
}

#[test]
fn dedup_keeps_first_of_each_id() {
    let r = dedup_by_id(vec![game("A", "1", "High"), game("B", "1", "Low"), game("C", "2", "Low")]);
    let names: Vec<&str> = r.iter().map(|g| g.name.as_str()).collect();
    assert_eq!(names, vec!["A", "C"]);
}

#[test]
fn librarycache_file_names() {
    assert_eq!(librarycache_appid("620.json"), Some("620".to_string()));
    assert_eq!(librarycache_appid("620.png"), None);
    assert_eq!(librarycache_appid("abc.json"), None);
    assert_eq!(librarycache_appid(".json"), None);
}

#[test]
fn cache_and_api_records() {
    let g = cache_game("42", None);
    assert_eq!(g.name, "Game 42");
    assert_eq!(g.import_confidence, "Medium");
    let a = api_game("Portal".to_string(), 400, 12, 77);
    assert_eq!(a.platform_game_id, "400");
    assert_eq!(a.import_confidence, "Low");
    assert_eq!(a.playtime_forever, 12);
}

#[test]
fn combine_library_filters_owned_demo() {
    let installed = vec![game("Cool Game Demo", "2", "High"), game("Cool Game Demo", "2", "High")];
    let api = vec![game("Cool Game", "1", "Low")];
    let r = combine_library(installed, vec![], api);
    let ids: Vec<&str> = r.iter().map(|g| g.platform_game_id.as_str()).collect();
    assert_eq!(ids, vec!["1"]);
}

#[test]
fn api_records_from_web_api() {
    let r = api_games(&vec![SteamGame { appid: 620, name: "Portal 2".to_string(), playtime_forever: 300, img_icon_url: None, rtime_last_played: 5 }]);
    assert_eq!(r.len(), 1);
    assert_eq!(r[0].platform_game_id, "620");
    assert_eq!(r[0].playtime_forever, 300);
    assert!(!r[0].installed);
}

#[test]
fn store_answer_defaults() {
    let fields = playlite::steam_store::StoreAppFields {
        name: Some("Portal".to_string()),
        is_free: None,
        short_description: None,
        header_image: None,
        website: None,
        release_date: Some("2007".to_string()),
        required_age: Some((1u64 << 32) + 18),
        content_descriptors: None,
        categories: None,
        genres: None,
    };
    let d = playlite::steam_store::store_app_data(Some(playlite::steam_store::StoreAppAnswer { success: Some(true), data: Some(fields) })).unwrap();
    assert_eq!(d.name, "Portal");
    assert!(!d.is_free);
    assert_eq!(d.short_description, "");
    assert_eq!(d.required_age, 18);
    assert!(d.content_descriptors.ids.is_empty());
    assert!(d.categories.is_empty());
    assert!(playlite::steam_store::store_app_data(Some(playlite::steam_store::StoreAppAnswer { success: Some(false), data: None })).is_none());
    assert!(playlite::steam_store::store_app_data(None).is_none());
}
