use playlite::amazon::{add_entitlements, generate_client_id, hardware_hash, hex_upper, library_games, merge_local_install_status as merge_by_id, next_page_token, Entitlement, OwnedProduct};
use playlite::ea::{import_games, known_titles, normalize_id, InstallFolder};
use playlite::epic::{installed_game, is_item_file, merge_local_install_status as merge_by_title, parse_manifest, EpicCatalogItem, EpicManifest};
use playlite::sources::{extract_port, SourceGame};

fn sg(platform: &str, id: &str, name: Option<&str>) -> SourceGame {
    SourceGame {
        platform: platform.to_string(),
        platform_game_id: id.to_string(),
        name: name.map(|n| n.to_string()),
        installed: false,
        executable_path: None,
        install_path: None,
        playtime_minutes: None,
        last_played: None,
    }
}

#[test]
fn amazon_merge_by_id() {
    let mut lib = vec![sg("Amazon", "a1", Some("One")), sg("Amazon", "a2", Some("Two"))];
    let mut local = sg("Amazon", "a2", Some("Two"));
    local.installed = true;
    local.install_path = Some("C:\\Games\\Two".to_string());
    let mut extra = sg("Amazon", "a9", Some("Nine"));
    extra.installed = true;
    merge_by_id(&mut lib, vec![local, extra]);
    assert_eq!(lib.len(), 3);
    assert!(!lib[0].installed);
    assert!(lib[1].installed);
    assert_eq!(lib[1].install_path, Some("C:\\Games\\Two".to_string()));
    assert_eq!(lib[2].platform_game_id, "a9");
}

#[test]
fn epic_merge_by_title() {
    let mut lib = vec![sg("Epic", "cat1", Some("  Hades ")), sg("Epic", "cat2", None)];
    let mut local = sg("Epic", "Hades_app", Some("hades"));
    local.installed = true;
    local.executable_path = Some("C:\\Hades\\Hades.exe".to_string());
    local.install_path = Some("C:\\Hades".to_string());
    merge_by_title(&mut lib, vec![local]);
    assert_eq!(lib.len(), 2);
    assert!(lib[0].installed);
    assert_eq!(lib[0].platform_game_id, "cat1");
    assert_eq!(lib[0].executable_path, Some("C:\\Hades\\Hades.exe".to_string()));
}

#[test]
fn epic_item_files_and_catalog() {
    assert!(is_item_file("ABC.item"));
    assert!(is_item_file("abc.ITEM"));
    assert!(!is_item_file("abc.json"));
    assert!(!is_item_file(".item"));
    let game = EpicCatalogItem { title: "X".to_string(), categories: vec!["applications".to_string(), "games".to_string()] };
    let app = EpicCatalogItem { title: "Y".to_string(), categories: vec!["applications".to_string()] };
    assert!(game.is_game());
    assert!(!app.is_game());
}

#[test]
fn epic_manifest_fields() {
    let m = EpicManifest {
        display_name: None,
        install_location: Some("C:\\Games\\X".to_string()),
        launch_executable: Some("x.exe".to_string()),
        app_name: Some("XApp".to_string()),
    };
    let g = installed_game(m, "C:\\Games\\X\\x.exe".to_string()).ok().unwrap();
    assert_eq!(g.name, Some("Unknown".to_string()));
    assert_eq!(g.platform_game_id, "XApp");
    let missing = EpicManifest { display_name: None, install_location: Some("a".to_string()), launch_executable: None, app_name: None };
    assert_eq!(parse_manifest(missing).err(), Some("LaunchExecutable".to_string()));
    let none = EpicManifest { display_name: None, install_location: None, launch_executable: None, app_name: None };
    assert_eq!(parse_manifest(none).err(), Some("InstallLocation".to_string()));
}

#[test]
fn ea_ids_and_import() {
    assert_eq!(normalize_id("Mass Effect Legendary Edition"), "mass_effect_legendary_edition");
    let known = vec!["Mass Effect".to_string(), "Dead Space".to_string(), "Unravel".to_string()];
    let folders = vec![
        InstallFolder { name: "Mass Effect Legendary Edition".to_string(), path: "D:\\EA\\ME".to_string() },
        InstallFolder { name: "Peggle".to_string(), path: "D:\\EA\\Peggle".to_string() },
        InstallFolder { name: "   ".to_string(), path: "D:\\EA\\blank".to_string() },
    ];
    let games = import_games(&known, &folders);
    let names: Vec<String> = games.iter().map(|g| g.name.clone().unwrap()).collect();
    assert_eq!(names, vec!["Mass Effect", "Peggle", "Dead Space", "Unravel"]);
    assert!(games[0].installed);
    assert!(!games[2].installed);
    assert_eq!(games[1].platform_game_id, "peggle");
}

#[test]
fn amazon_hex_and_client_id() {
    assert_eq!(hex_upper(&[0x00, 0xAB, 0x7F]), "00AB7F");
    assert_eq!(generate_client_id("S"), "53234132554d56484f58375550345637");
}

#[test]
fn redirect_ports() {
    assert_eq!(extract_port("http://127.0.0.1:8901/callback"), Ok(8901));
    assert!(extract_port("http://127.0.0.1/callback").is_err());
    assert_eq!(extract_port("not a url").err(), Some("redirect_uri sem porta válida: not a url".to_string()));
}

#[test]
fn ea_known_titles_trimmed_and_non_empty() {
    let names = vec![" FIFA 23 ".to_string(), "   ".to_string(), "".to_string(), "Dead Space".to_string()];
    assert_eq!(known_titles(&names), vec!["FIFA 23".to_string(), "Dead Space".to_string()]);
    assert!(known_titles(&vec![]).is_empty());
}

#[test]
fn amazon_hardware_hash_is_sha256_hex() {
    assert_eq!(hardware_hash("abc"), "BA7816BF8F01CFEA414140DE5DAE2223B00361A396177A9CB410FF61F20015AD");
    assert_eq!(hardware_hash("").len(), 64);
    assert_eq!(hardware_hash(""), "E3B0C44298FC1C149AFBF4C8996FB92427AE41E4649B934CA495991B7852B855");
}

#[test]
fn amazon_entitlements_first_title_wins() {
    let mut products: Vec<OwnedProduct> = Vec::new();
    add_entitlements(&mut products, vec![
        Entitlement { id: "p1".to_string(), title: Some("One".to_string()) },
        Entitlement { id: "p2".to_string(), title: None },
    ]);
    add_entitlements(&mut products, vec![
        Entitlement { id: "p1".to_string(), title: Some("Other".to_string()) },
        Entitlement { id: "p3".to_string(), title: Some("Three".to_string()) },
    ]);
    let pairs: Vec<(&str, &str)> = products.iter().map(|p| (p.id.as_str(), p.title.as_str())).collect();
    assert_eq!(pairs, vec![("p1", "One"), ("p2", "p2"), ("p3", "Three")]);
    let games = library_games(&products);
    assert_eq!(games.len(), 3);
    assert_eq!(games[1].platform, "Amazon");
    assert_eq!(games[1].name, Some("p2".to_string()));
    assert!(!games[2].installed);
}

#[test]
fn amazon_next_page_token() {
    assert_eq!(next_page_token(Some("abc".to_string())), Some("abc".to_string()));
    assert_eq!(next_page_token(Some(String::new())), None);
    assert_eq!(next_page_token(None), None);
}
