use playlite::ea::InstallFolder;
use playlite::gog::detect_installed_games;
use playlite::indiegala::{full_library, installed_game, ConfigGameEntry, InstalledEntry, OwnedGame};
use playlite::legacy::{catalog_game_for, executable_file_name, is_ignored_executable, legacy_game, AcquiredGame, CatalogGame, InstallInfo};
use playlite::sources::SourceGame;
use playlite::tag_service::{TagCategory, TagMetadata};

fn s(x: &str) -> String {
    x.to_string()
}

fn gog(name: Option<&str>) -> SourceGame {
    SourceGame {
        platform: s("GOG"),
        platform_game_id: s("1"),
        name: name.map(s),
        installed: false,
        executable_path: None,
        install_path: None,
        playtime_minutes: None,
        last_played: None,
    }
}

fn folder(name: &str, path: &str) -> InstallFolder {
    InstallFolder { name: s(name), path: s(path) }
}

#[test]
fn gog_exact_and_suffixed_titles_are_installed() {
    let mut games = vec![
        gog(Some("Tomb Raider I-III Remastered")),
        gog(Some("Leap of Faith + Official Walkthrough")),
        gog(Some("Leap of Faithful")),
        gog(None),
    ];
    let folders = vec![
        folder("  ", "G:\\blank"),
        folder("Tomb Raider I-III Remastered", "G:\\Tomb Raider I-III Remastered"),
        folder("LEAP OF FAITH ", "G:\\Leap of Faith"),
    ];
    detect_installed_games(&mut games, &folders);
    assert_eq!(games.len(), 4);
    assert!(games[0].installed);
    assert_eq!(games[0].install_path, Some(s("G:\\Tomb Raider I-III Remastered")));
    assert!(games[1].installed);
    assert_eq!(games[1].install_path, Some(s("G:\\Leap of Faith")));
    assert!(!games[2].installed);
    assert_eq!(games[2].install_path, None);
    assert!(!games[3].installed);
}

#[test]
fn gog_non_ascii_continuation_is_no_boundary() {
    // The byte after "caf" is the lead byte of "é", which read as a character is a letter.
    let mut games = vec![gog(Some("Café Stories")), gog(Some("Caf 2"))];
    detect_installed_games(&mut games, &vec![folder("Caf", "G:\\Caf")]);
    assert!(!games[0].installed);
    assert!(games[1].installed);
}

#[test]
fn gog_first_matching_folder_wins() {
    let mut games = vec![gog(Some("Witcher 3"))];
    detect_installed_games(&mut games, &vec![folder("Witcher", "A"), folder("Witcher 3", "B")]);
    assert_eq!(games[0].install_path, Some(s("A")));
}

fn table() -> Vec<TagMetadata> {
    vec![TagMetadata { slug: s("point-and-click"), name: s("Point & Click"), category: TagCategory::Gameplay, relevance: 7, visible: true }]
}

fn entry(paths: Vec<String>, exe: Option<&str>) -> InstalledEntry {
    InstalledEntry {
        name: s("Deponia"),
        slugged_name: s("deponia"),
        id_key_name: s("deponia_key"),
        description_short: Some(s("A junk planet")),
        tags: vec![s("Point and Click")],
        exe_path: exe.map(s),
        paths,
    }
}

#[test]
fn indiegala_installed_entry() {
    let g = installed_game(&table(), &entry(vec![s("C:\\IG")], Some("deponia.exe")), false, 90);
    assert_eq!(g.source.platform, "Indie");
    assert_eq!(g.source.platform_game_id, "deponia_key");
    assert_eq!(g.source.name, Some(s("Deponia")));
    assert!(g.source.installed);
    assert_eq!(g.source.install_path, Some(s("C:\\IG")));
    assert!(g.source.executable_path.is_some());
    assert_eq!(g.source.playtime_minutes, Some(90));
    assert_eq!(g.description_raw, Some(s("A junk planet")));
    assert_eq!(g.tags.as_ref().map(|t| t.len()), Some(1));

    let none = installed_game(&table(), &entry(vec![], Some("deponia.exe")), true, 0);
    assert_eq!(none.source.install_path, None);
    assert_eq!(none.source.executable_path, None);

    let joined = installed_game(&table(), &entry(vec![s("C:\\IG")], None), true, 0);
    assert!(joined.source.install_path.is_some());
    assert_ne!(joined.source.install_path, Some(s("C:\\IG")));
    assert_eq!(joined.source.executable_path, None);
}

#[test]
fn indiegala_full_library_crosses_installed() {
    let installed = vec![installed_game(&table(), &entry(vec![s("C:\\IG")], None), false, 5)];
    let owned = vec![
        OwnedGame { prod_name: s("Deponia"), prod_slugged_name: s("deponia"), prod_id_key_name: s("deponia_key") },
        OwnedGame { prod_name: s("Other"), prod_slugged_name: s("other"), prod_id_key_name: s("other_key") },
        OwnedGame { prod_name: s("Plain"), prod_slugged_name: s("plain"), prod_id_key_name: s("plain_key") },
    ];
    let extras = vec![ConfigGameEntry { slug: s("other"), description_short: Some(s("Another")), tags: vec![s("point-and-click")] }];
    let r = full_library(&table(), &installed, &owned, &extras);
    assert_eq!(r.len(), 3);
    assert!(r[0].source.installed);
    assert_eq!(r[0].source.playtime_minutes, Some(5));
    assert!(!r[1].source.installed);
    assert_eq!(r[1].source.platform, "Indie");
    assert_eq!(r[1].source.name, Some(s("Other")));
    assert_eq!(r[1].description_raw, Some(s("Another")));
    let tags = r[1].tags.as_ref().unwrap();
    assert_eq!(tags.len(), 1);
    assert_eq!(tags[0].slug, "point-and-click");
    assert_eq!(r[2].description_raw, None);
    assert!(r[2].tags.is_none());
}

fn cat(id: &str, name: &str) -> CatalogGame {
    CatalogGame { game_id: s(id), game_name: s(name), game_description: Some(s("desc")), game_coverart: Some(s("cover.jpg")) }
}

#[test]
fn legacy_catalog_lookup_takes_last() {
    let catalog = vec![cat("10", "First"), cat("11", "Other"), cat("10", "Second")];
    assert_eq!(catalog_game_for(&catalog, "10"), Some(2));
    assert_eq!(catalog_game_for(&catalog, "11"), Some(1));
    assert_eq!(catalog_game_for(&catalog, "99"), None);
}

#[test]
fn legacy_game_from_catalog() {
    let acquired = AcquiredGame { product_id: s("555"), game_id: s("10") };
    let install = InstallInfo { installed: true, install_path: Some(s("D:\\Legacy\\Fable CE")), executable_path: None };
    let g = legacy_game(&acquired, &cat("10", "Fable CE"), install);
    assert_eq!(g.source.platform, "Legacy Games");
    assert_eq!(g.source.platform_game_id, "555");
    assert_eq!(g.source.name, Some(s("Fable")));
    assert!(g.source.installed);
    assert_eq!(g.source.install_path, Some(s("D:\\Legacy\\Fable CE")));
    assert_eq!(g.source.playtime_minutes, Some(0));
    assert_eq!(g.cover_url, Some(s("cover.jpg")));
    assert_eq!(g.description_raw, Some(s("desc")));
}

#[test]
fn legacy_executable_names() {
    assert_eq!(executable_file_name("Mystery: The \"Case\" <1>?"), "Mystery The Case 1.exe");
    assert_eq!(executable_file_name("a/b\\c*d|e"), "abcde.exe");
    assert!(is_ignored_executable("unins000"));
    assert!(is_ignored_executable("VC_Redist.x64"));
    assert!(is_ignored_executable("DXSETUP"));
    assert!(!is_ignored_executable("Fable"));
}

#[test]
fn gog_product_games_and_pages() {
    let g = playlite::gog::product_game(1207658924, "Heroes".to_string());
    assert_eq!(g.platform, "GOG");
    assert_eq!(g.platform_game_id, "1207658924");
    assert_eq!(g.name.as_deref(), Some("Heroes"));
    assert!(!g.installed);
    assert_eq!(playlite::gog::product_game(-5, "x".to_string()).platform_game_id, "-5");
    assert_eq!(playlite::gog::product_game(i64::MIN, "x".to_string()).platform_game_id, i64::MIN.to_string());
    assert_eq!(playlite::gog::next_products_page(1, 3), Some(2));
    assert_eq!(playlite::gog::next_products_page(3, 3), None);
    assert_eq!(playlite::gog::next_products_page(1, 0), None);
}

#[test]
fn login_state_check() {
    assert!(playlite::sources::check_callback_state(&Some("abc".to_string()), "abc").is_ok());
    let msg = "Parâmetro 'state' ausente ou não confere (possível CSRF)".to_string();
    assert_eq!(playlite::sources::check_callback_state(&Some("abd".to_string()), "abc"), Err(msg.clone()));
    assert_eq!(playlite::sources::check_callback_state(&None, "abc"), Err(msg));
}
