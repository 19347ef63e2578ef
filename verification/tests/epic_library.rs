use playlite::epic::{catalog_requests, library_games_from_catalog, EpicCatalogTitle, EpicLibraryItem};

fn item(ns: &str, id: &str) -> EpicLibraryItem {
    EpicLibraryItem { namespace: ns.to_string(), catalog_item_id: id.to_string() }
}

fn title(ns: &str, id: &str, t: &str, is_game: bool) -> EpicCatalogTitle {
    EpicCatalogTitle { namespace: ns.to_string(), catalog_item_id: id.to_string(), title: t.to_string(), is_game }
}

#[test]
fn epic_catalog_requests_group_by_namespace() {
    let items = vec![item("fn", "a"), item("ue", "x"), item("rl", "b"), item("fn", "c")];
    let req = catalog_requests(&items);
    assert_eq!(req.len(), 2);
    assert_eq!(req[0].0, "fn");
    assert_eq!(req[0].1, vec!["a".to_string(), "c".to_string()]);
    assert_eq!(req[1].0, "rl");
    assert_eq!(req[1].1, vec!["b".to_string()]);
}

#[test]
fn epic_library_first_game_item_per_namespace() {
    let items = vec![item("fn", "dlc"), item("fn", "base"), item("fn", "other"), item("ue", "u"), item("rl", "r"), item("xx", "unresolved")];
    let titles = vec![
        title("fn", "dlc", "Fortnite DLC", false),
        title("fn", "base", "Fortnite", true),
        title("fn", "other", "Fortnite Again", true),
        title("ue", "u", "Engine", true),
        title("rl", "r", "Rocket League", true),
    ];
    let games = library_games_from_catalog(&items, &titles);
    assert_eq!(games.len(), 2);
    assert_eq!(games[0].platform, "Epic");
    assert_eq!(games[0].platform_game_id, "fn");
    assert_eq!(games[0].name.as_deref(), Some("Fortnite"));
    assert!(!games[0].installed);
    assert_eq!(games[1].platform_game_id, "rl");
    assert_eq!(games[1].name.as_deref(), Some("Rocket League"));
}
