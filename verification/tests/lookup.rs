use playlite::gamebrain_lookup::{
    similar_limit, start_data_lookup, start_id_lookup, step_data_lookup, step_id_lookup, DataAction, DataEvent,
    DataKind, DataStage, FetchError, IdAction, IdEvent, IdStage,
};

fn names(v: &[&str]) -> Vec<String> {
    v.iter().map(|s| s.to_string()).collect()
}

#[test]
fn lookup_without_key_fails_at_once() {
    let (lookup, action) = start_id_lookup("   ", "Hades".to_string());
    assert_eq!(lookup.stage, IdStage::Finished);
    match action {
        IdAction::Fail(m) => assert_eq!(m, "GameBrain API key não configurada"),
        _ => panic!("expected a failure"),
    }
}

#[test]
fn lookup_id_from_fresh_cache() {
    let (mut lookup, action) = start_id_lookup("key", "Hades".to_string());
    assert!(matches!(action, IdAction::ReadFreshId));
    assert!(matches!(step_id_lookup(&mut lookup, IdEvent::FreshId(Ok(Some(42)))), IdAction::Found(42)));
    assert_eq!(lookup.stage, IdStage::Finished);
}

#[test]
fn lookup_id_by_suggestion_is_saved() {
    let (mut lookup, _) = start_id_lookup("key", "Hades".to_string());
    assert!(matches!(step_id_lookup(&mut lookup, IdEvent::FreshId(Ok(None))), IdAction::Suggest));
    assert!(matches!(step_id_lookup(&mut lookup, IdEvent::Suggested(Ok(Some(7)))), IdAction::SaveId(7)));
    assert!(matches!(step_id_lookup(&mut lookup, IdEvent::IdSaved), IdAction::Found(7)));
}

#[test]
fn lookup_unknown_game_falls_back_then_fails() {
    let (mut lookup, _) = start_id_lookup("key", "Nowhere".to_string());
    step_id_lookup(&mut lookup, IdEvent::FreshId(Ok(None)));
    assert!(matches!(step_id_lookup(&mut lookup, IdEvent::Suggested(Ok(None))), IdAction::ReadStaleId));
    match step_id_lookup(&mut lookup, IdEvent::StaleId(Ok(None))) {
        IdAction::Fail(m) => assert_eq!(m, "Jogo 'Nowhere' não encontrado na GameBrain"),
        _ => panic!("expected a failure"),
    }
    let (mut lookup, _) = start_id_lookup("key", "Hades".to_string());
    step_id_lookup(&mut lookup, IdEvent::FreshId(Ok(None)));
    step_id_lookup(&mut lookup, IdEvent::Suggested(Err("Erro GameBrain suggestions: 503".to_string())));
    assert!(matches!(step_id_lookup(&mut lookup, IdEvent::StaleId(Ok(Some(9)))), IdAction::Found(9)));
}

#[test]
fn lookup_similar_fetched_saved_and_cut() {
    let (mut lookup, action) = start_data_lookup::<Vec<String>>(7, DataKind::Similar);
    assert!(matches!(action, DataAction::ReadFresh(7)));
    assert!(matches!(step_data_lookup(&mut lookup, DataEvent::<Vec<String>>::Fresh(Ok(None))), DataAction::Fetch(7)));
    let saved = match step_data_lookup(&mut lookup, DataEvent::Fetched(Ok(names(&["x", "y", "z"])))) {
        DataAction::Save(7, v) => v,
        _ => panic!("expected a save"),
    };
    match step_data_lookup(&mut lookup, DataEvent::Saved(saved)) {
        DataAction::Finish(Ok(v)) => assert_eq!(similar_limit(v, Some(2)), names(&["x", "y"])),
        _ => panic!("expected the fetched games"),
    }
    assert_eq!(lookup.stage, DataStage::Finished);
    assert_eq!(similar_limit(names(&["a"; 12]), None).len(), 10);
}

#[test]
fn lookup_similar_unreadable_reply_falls_back() {
    let (mut lookup, _) = start_data_lookup::<Vec<String>>(3, DataKind::Similar);
    step_data_lookup(&mut lookup, DataEvent::<Vec<String>>::Fresh(Ok(None)));
    let a = step_data_lookup(&mut lookup, DataEvent::<Vec<String>>::Fetched(Err(FetchError::Unreadable("Erro JSON".to_string()))));
    assert!(matches!(a, DataAction::ReadStale(3)));
    match step_data_lookup(&mut lookup, DataEvent::<Vec<String>>::Stale(Ok(None))) {
        DataAction::Finish(Err(m)) => assert_eq!(m, "Erro JSON"),
        _ => panic!("expected the service error"),
    }
}

#[test]
fn lookup_media_unreadable_reply_fails_unreachable_falls_back() {
    let (mut lookup, _) = start_data_lookup::<String>(3, DataKind::Media);
    step_data_lookup(&mut lookup, DataEvent::<String>::Fresh(Ok(None)));
    match step_data_lookup(&mut lookup, DataEvent::<String>::Fetched(Err(FetchError::Unreadable("Erro JSON GameBrain game detail".to_string())))) {
        DataAction::Finish(Err(m)) => assert_eq!(m, "Erro JSON GameBrain game detail"),
        _ => panic!("expected the read error"),
    }
    let (mut lookup, _) = start_data_lookup::<String>(3, DataKind::Media);
    step_data_lookup(&mut lookup, DataEvent::<String>::Fresh(Ok(None)));
    let a = step_data_lookup(&mut lookup, DataEvent::<String>::Fetched(Err(FetchError::Unreachable("timeout".to_string()))));
    assert!(matches!(a, DataAction::ReadStale(3)));
    match step_data_lookup(&mut lookup, DataEvent::Stale(Ok(Some("old media".to_string())))) {
        DataAction::Finish(Ok(m)) => assert_eq!(m, "old media"),
        _ => panic!("expected the stale media"),
    }
}

#[test]
fn lookup_cache_read_error_ends_it() {
    let (mut lookup, _) = start_data_lookup::<String>(1, DataKind::Media);
    match step_data_lookup(&mut lookup, DataEvent::<String>::Fresh(Err("db locked".to_string()))) {
        DataAction::Finish(Err(m)) => assert_eq!(m, "db locked"),
        _ => panic!("expected the cache error"),
    }
}
