use playlite::gemini::{description_prompt, description_translation, query_prompt, query_translation, GeminiCandidate, GeminiReply};

fn reply(reason: Option<&str>, parts: Option<Vec<&str>>) -> GeminiReply {
    GeminiReply {
        error: None,
        candidates: Some(vec![GeminiCandidate {
            finish_reason: reason.map(|r| r.to_string()),
            parts: parts.map(|p| p.into_iter().map(|s| s.to_string()).collect()),
        }]),
    }
}

#[test]
fn gemini_prompts_end_with_the_text() {
    let p = description_prompt("A roguelike");
    assert!(p.starts_with("Translate the following game description to Brazilian Portuguese (PT-BR). Maintain the tone"));
    assert!(p.ends_with(":\n\nA roguelike"));
    let q = query_prompt("jogo de zumbi");
    assert!(q.starts_with("If the following search query is not in English"));
    assert!(q.ends_with("punctuation:\n\njogo de zumbi"));
}

#[test]
fn gemini_description_replies() {
    assert_eq!(description_translation(&reply(Some("STOP"), Some(vec!["  Um roguelike  ", "x"]))), Ok("Um roguelike".to_string()));
    assert_eq!(description_translation(&reply(None, Some(vec!["texto"]))), Ok("texto".to_string()));
    assert_eq!(
        description_translation(&reply(Some("SAFETY"), Some(vec!["texto"]))),
        Err("Tradução bloqueada pelo filtro de segurança: SAFETY".to_string())
    );
    assert_eq!(
        description_translation(&reply(Some("STOP"), None)),
        Err("A IA não retornou nenhuma tradução válida.".to_string())
    );
    let failed = GeminiReply { error: Some("quota".to_string()), candidates: None };
    assert_eq!(description_translation(&failed), Err("Gemini: quota".to_string()));
    let empty = GeminiReply { error: None, candidates: Some(vec![]) };
    assert_eq!(description_translation(&empty), Err("A IA não retornou nenhuma tradução válida.".to_string()));
}

#[test]
fn gemini_query_replies_fall_back_to_the_query() {
    assert_eq!(query_translation(&reply(Some("STOP"), Some(vec![" zombie game "])), "jogo de zumbi"), "zombie game");
    assert_eq!(query_translation(&reply(None, Some(vec!["   "])), "jogo de zumbi"), "jogo de zumbi");
    assert_eq!(query_translation(&reply(None, None), "jogo de zumbi"), "jogo de zumbi");
}
