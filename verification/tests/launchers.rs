use playlite::battle_net::{fetch_games_detailed, AggregateGame, CatalogEntry};
use playlite::launchers::{
    heroic_game, indiegala_tags, is_likely_dlc, map_to_source_game, parse_game_folder,
    parse_yaml_string_value, read_gaming_root, slugify_indiegala_tag, strip_trademark_symbols,
    xbox_game, HeroicInstalledGame, XboxExecutable, XboxManifest,
};
use playlite::legacy::{normalize_game_name, try_normalize_game_name};
use playlite::protobuf::ProductDbEntry;
use playlite::tag_service::{TagCategory, TagMetadata};
use playlite::ubisoft::{installation_path_candidates, read_configuration_bytes, read_configuration_library};

fn s(x: &str) -> String {
    x.to_string()
}

#[test]
fn heroic_entries() {
    let g = HeroicInstalledGame { app_name: Some(s("Sugar")), title: Some(s("Sugar Game")), install_path: Some(s("/games/sugar")), executable: Some(s("bin/sugar")) };
    let r = heroic_game(g, s("/games/sugar/bin/sugar")).unwrap();
    assert_eq!(r.platform, "Heroic");
    assert_eq!(r.platform_game_id, "Sugar");
    assert_eq!(r.executable_path, Some(s("/games/sugar/bin/sugar")));
    let incomplete = HeroicInstalledGame { app_name: None, title: Some(s("T")), install_path: Some(s("/p")), executable: Some(s("e")) };
    assert!(map_to_source_game(incomplete).is_none());
    let full = HeroicInstalledGame { app_name: Some(s("A")), title: Some(s("T")), install_path: Some(s("/p")), executable: Some(s("e")) };
    let m = map_to_source_game(full).unwrap();
    assert_eq!(m.install_path, Some(s("/p")));
    assert!(m.executable_path.is_some());
}

#[test]
fn gaming_root_file() {
    let mut bytes = vec![b'R', b'G', b'B', b'X', 1, 0, 0, 0];
    for c in "XboxGames".encode_utf16() {
        bytes.push((c & 0xff) as u8);
        bytes.push((c >> 8) as u8);
    }
    bytes.push(0);
    bytes.push(0);
    bytes.push(b'Z');
    bytes.push(0);
    assert_eq!(read_gaming_root(&bytes), Some(s("XboxGames")));
    assert_eq!(read_gaming_root(b"RGBY0000abcd"), None);
    assert_eq!(read_gaming_root(b"RGBX0000"), None);
}

#[test]
fn xbox_manifests() {
    let m = XboxManifest {
        identity_name: s("Publisher.Game"),
        store_id: Some(s("9ABC")),
        default_display_name: Some(s("Shell Name")),
        executables: Some(vec![XboxExecutable { name: s("game.exe"), override_display_name: Some(s("  ")) }]),
    };
    let g = xbox_game(&m, "E:\\XboxGames\\Game\\Content", s("E:\\XboxGames\\Game\\Content\\game.exe")).unwrap();
    assert_eq!(g.name, Some(s("Shell Name")));
    assert_eq!(g.platform_game_id, "9ABC");
    let addon = XboxManifest { identity_name: s("DLC"), store_id: None, default_display_name: None, executables: Some(vec![]) };
    assert!(parse_game_folder(&addon, "E:\\x").is_none());
    let plain = XboxManifest { identity_name: s("Id.Name"), store_id: None, default_display_name: None, executables: Some(vec![XboxExecutable { name: s("a.exe"), override_display_name: None }]) };
    let p = parse_game_folder(&plain, "E:\\c").unwrap();
    assert_eq!(p.name, Some(s("Id.Name")));
    assert_eq!(p.platform_game_id, "Id.Name");
}

#[test]
fn indiegala_slugs_and_tags() {
    assert_eq!(slugify_indiegala_tag(" 3D Platformer "), "3d-platformer");
    assert_eq!(slugify_indiegala_tag("old school"), "old-school");
    let table = vec![TagMetadata { slug: s("3d-platformer"), name: s("3D Platformer"), category: TagCategory::Gameplay, relevance: 6, visible: true }];
    let r = indiegala_tags(&table, &vec![s("3D Platformer"), s("Unknown Thing")]).unwrap();
    assert_eq!(r.len(), 1);
    assert_eq!(r[0].slug, "3d-platformer");
    assert!(indiegala_tags(&table, &vec![]).is_none());
}

#[test]
fn ubisoft_names() {
    assert_eq!(strip_trademark_symbols("Assassin's Creed® Syndicate"), "Assassin's Creed Syndicate");
    assert_eq!(strip_trademark_symbols(" Far Cry™ "), "Far Cry");
    assert_eq!(parse_yaml_string_value("  \"Rayman Legends\"\r"), "Rayman Legends");
    assert_eq!(parse_yaml_string_value("'Anno 1800' "), "Anno 1800");
    assert_eq!(parse_yaml_string_value("plain"), "plain");
    assert!(is_likely_dlc("AC"));
    assert!(is_likely_dlc("Far Cry 5 - Season Pass"));
    assert!(is_likely_dlc("Anno 1800 Starter Pack"));
    assert!(is_likely_dlc("Trials Rising Demo"));
    assert!(!is_likely_dlc("Rayman Legends"));
}

#[test]
fn ubisoft_configuration_blocks() {
    let text = "version: 2.0\nroot:\n  name: \"Rayman Legends\"\n    game_identifier: RaymanLegends\n  start_game:\n      relative: Rayman Legends.exe\n      relative: uplay_updater.exe\nversion: 2.0\nroot:\n  name: GAMENAME\n  name: l1\n    game_identifier: FarCry4\n    relative: bin/FarCry4.exe\nversion: 2.0\nroot:\n  name: Rayman Legends®\n    game_identifier: Other\nversion: 2.0\nroot:\n  name: Anno 1800 - Season Pass\n    game_identifier: AnnoSP\n";
    let r = read_configuration_library(text);
    assert_eq!(r.len(), 2);
    assert_eq!(r[0].id, "RaymanLegends");
    assert_eq!(r[0].name, "Rayman Legends");
    assert_eq!(r[0].exe, Some(s("Rayman Legends.exe")));
    assert_eq!(r[1].id, "FarCry4");
    assert_eq!(r[1].name, "FarCry4");
    assert_eq!(r[1].exe, Some(s("bin/FarCry4.exe")));
    let r2 = read_configuration_bytes(text.as_bytes());
    assert_eq!(r2.len(), 2);
}

#[test]
fn legacy_edition_names() {
    assert_eq!(normalize_game_name("Fable CE"), "Fable");
    assert_eq!(normalize_game_name("Mystery Game Collector's Edition"), "Mystery Game");
    assert_eq!(normalize_game_name("Some Game - Deluxe Edition"), "Some Game");
    assert_eq!(normalize_game_name("  Plain Title "), "Plain Title");
    assert_eq!(try_normalize_game_name("Game: GOTY"), Some(s("Game")));
}

#[test]
fn battle_net_games_from_product_db() {
    let entries = vec![
        ProductDbEntry { internal_id: s("i1"), product_id: s("Agent"), install_path: Some(s("C:\\Agent")) },
        ProductDbEntry { internal_id: s("i2"), product_id: s("pro"), install_path: Some(s("C:\\Overwatch")) },
        ProductDbEntry { internal_id: s("i3"), product_id: s("wow"), install_path: None },
        ProductDbEntry { internal_id: s("i4"), product_id: s("d3"), install_path: Some(s("C:\\D3")) },
        ProductDbEntry { internal_id: s("i5"), product_id: s("s2"), install_path: Some(s("C:\\Gone")) },
    ];
    let exists = vec![true, true, true, true, false];
    let aggregate = vec![AggregateGame {
        name: Some(s("Overwatch 2")),
        product_id: Some(s("PRO")),
        icon_path: Some(s("C:\\Overwatch\\ow.exe")),
        last_played_timestamp: Some(1_700_000_000_123),
        box_art_uri: None,
        logo_art_uri: Some(s("logo.png")),
    }];
    let catalog = vec![CatalogEntry { product_id: s("D3"), name: s("Diablo III") }];
    let r = fetch_games_detailed(&entries, &exists, &aggregate, &catalog);
    assert_eq!(r.len(), 2);
    assert_eq!(r[0].source.name, Some(s("Overwatch 2")));
    assert_eq!(r[0].source.last_played, Some(1_700_000_000));
    assert_eq!(r[0].cover_url, Some(s("logo.png")));
    assert_eq!(r[1].source.name, Some(s("Diablo III")));
    assert_eq!(r[1].source.executable_path, None);
}

#[test]
fn ubisoft_installation_paths_in_misc_block() {
    let yaml = "user:\n  game_installation_path: X:/ignored\nmisc:\n  game_installation_path: E:/Ubisoft Game Launcher/games/  \n  other: 1\n  game_installation_path: D:/games\noverlay:\n  game_installation_path: Z:/after\n";
    let paths = installation_path_candidates(yaml, '\\');
    assert_eq!(paths, vec!["E:\\Ubisoft Game Launcher\\games\\".to_string(), "D:\\games".to_string()]);
    assert!(installation_path_candidates("misc:\n", '/').is_empty());
    assert_eq!(installation_path_candidates("misc:\r\n  game_installation_path: C:/a\r\n", '/'), vec!["C:/a".to_string()]);
}

#[test]
fn ubisoft_repeated_ids_and_names_kept_once() {
    let text = "version: 2.0\n  name: Far Cry 5\n    game_identifier: FC5\nversion: 2.0\n  name: Far Cry 5 Gold\n    game_identifier: FC5\nversion: 2.0\n  name: far cry 5\n    game_identifier: FC5B\nversion: 2.0\n  name: Trials Rising\n    game_identifier: TR\n";
    let r = read_configuration_library(text);
    let ids: Vec<&str> = r.iter().map(|e| e.id.as_str()).collect();
    assert_eq!(ids, vec!["FC5", "TR"]);
}
