//! Translations by the Gemini model: the prompts sent, and what a reply means.
use vstd::prelude::*;
use crate::text::{concat_str, copy_string, eq_str, trim, trim_seq};

verus! {

/// The instruction sent before a game description to translate.
pub const DESCRIPTION_PROMPT: &'static str = "Translate the following game description to Brazilian Portuguese (PT-BR). Maintain the tone (exciting, narrative). Keep technical gaming terms in English if they are commonly used by brazilian gamers (e.g., 'Roguelike', 'Metroidvania', 'Permadeath', 'Loot', 'Crafting'). Output ONLY the translated text, without preambles or markdown code blocks:\n\n";

/// The instruction sent before a search query to translate.
pub const QUERY_PROMPT: &'static str = "If the following search query is not in English, translate it to English. If it is already in English, return it exactly as-is. Output ONLY the translated query, no explanations or punctuation:\n\n";

/// The prompt asking for a description in Brazilian Portuguese.
pub fn description_prompt(text: &str) -> (r: String)
    ensures
        r@ == DESCRIPTION_PROMPT@ + text@,
{
    concat_str(DESCRIPTION_PROMPT, text)
}

/// The prompt asking for a search query in English.
pub fn query_prompt(text: &str) -> (r: String)
    ensures
        r@ == QUERY_PROMPT@ + text@,
{
    concat_str(QUERY_PROMPT, text)
}

/// A candidate answer of a reply: why the model stopped, and the text parts of its
/// content (`None` without content).
pub struct GeminiCandidate {
    pub finish_reason: Option<String>,
    pub parts: Option<Vec<String>>,
}

/// A reply of the model: the error it reports, and its candidate answers.
pub struct GeminiReply {
    pub error: Option<String>,
    pub candidates: Option<Vec<GeminiCandidate>>,
}

/// The text of the first part of the first candidate, when there is one.
pub open spec fn first_text(reply: GeminiReply) -> Option<Seq<char>> {
    match reply.candidates {
        Some(cs) => if cs.len() > 0 {
            match cs@[0].parts {
                Some(ps) => if ps.len() > 0 {
                    Some(ps@[0]@)
                } else {
                    None
                },
                None => None,
            }
        } else {
            None
        },
        None => None,
    }
}

/// The first candidate stopped for another reason than `STOP`: that reason.
pub open spec fn blocked_reason(reply: GeminiReply) -> Option<Seq<char>> {
    match reply.candidates {
        Some(cs) => if cs.len() > 0 {
            match cs@[0].finish_reason {
                Some(r) => if r@ != "STOP"@ {
                    Some(r@)
                } else {
                    None
                },
                None => None,
            }
        } else {
            None
        },
        None => None,
    }
}

fn first_text_of(reply: &GeminiReply) -> (r: Option<String>)
    ensures
        match r {
            Some(t) => first_text(*reply) == Some(t@),
            None => first_text(*reply) is None,
        },
{
    match &reply.candidates {
        Some(cs) => if cs.len() > 0 {
            match &cs[0].parts {
                Some(ps) => if ps.len() > 0 {
                    Some(ps[0].clone())
                } else {
                    None
                },
                None => None,
            }
        } else {
            None
        },
        None => None,
    }
}

/// The translated description a reply gives: the error the reply reports (`Gemini: `
/// and its message); else, when the first candidate stopped for another reason than
/// `STOP`, that it was blocked; else the first part of the first candidate, trimmed;
/// else that no translation came.
pub fn description_translation(reply: &GeminiReply) -> (r: Result<String, String>)
    ensures
        match reply.error {
            Some(e) => r matches Err(m) && m@ == "Gemini: "@ + e@,
            None => match blocked_reason(*reply) {
                Some(b) => r matches Err(m) && m@ == "Tradução bloqueada pelo filtro de segurança: "@ + b,
                None => match first_text(*reply) {
                    Some(t) => r matches Ok(s) && s@ == trim_seq(t),
                    None => r matches Err(m) && m@ == "A IA não retornou nenhuma tradução válida."@,
                },
            },
        },
{
    if let Some(e) = &reply.error {
        return Err(concat_str("Gemini: ", e.as_str()));
    }
    match &reply.candidates {
        Some(cs) => if cs.len() > 0 {
            match &cs[0].finish_reason {
                Some(reason) => {
                    if !eq_str(reason.as_str(), "STOP") {
                        proof {
                            reveal_strlit("STOP");
                        }
                        return Err(concat_str("Tradução bloqueada pelo filtro de segurança: ", reason.as_str()));
                    }
                },
                None => {},
            }
        },
        None => {},
    }
    match first_text_of(reply) {
        Some(t) => Ok(trim(t.as_str())),
        None => Err(copy_string("A IA não retornou nenhuma tradução válida.")),
    }
}

/// The search query to use after asking for its translation: the first part of the
/// reply's first candidate, trimmed, when that is not empty; otherwise the query as the user wrote it
/// (the model's failures never block a search).
pub fn query_translation(reply: &GeminiReply, query: &str) -> (r: String)
    ensures
        match first_text(*reply) {
            Some(t) => if trim_seq(t).len() > 0 {
                r@ == trim_seq(t)
            } else {
                r@ == query@
            },
            None => r@ == query@,
        },
{
    match first_text_of(reply) {
        Some(t) => {
            let s = trim(t.as_str());
            if s.as_str().is_empty() {
                copy_string(query)
            } else {
                s
            }
        },
        None => copy_string(query),
    }
}

} // verus!
