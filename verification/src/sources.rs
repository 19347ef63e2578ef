//! Games found by the launcher sources, and the small rules each source applies: merging
//! a remote library with the games found on disk, naming ids, reading launcher files.
use vstd::prelude::*;
use vstd::utf8::encode_utf8;
use crate::text::{
    chars_of, contains_seq, contains_str, contains_vec, copy_string, eq_str, is_ws, lowercase_of,
    occurs_at_vec, opt_view, replace_char_seq, slice_vec, starts_with_seq, string_from,
    string_views, to_lowercase, trim, trim_bounds, trim_seq, views_of,
};

verus! {

// ---------------------------------------------------------------------------
// Source games
// ---------------------------------------------------------------------------

/// A game as a launcher source reports it.
pub struct SourceGame {
    pub platform: String,
    pub platform_game_id: String,
    pub name: Option<String>,
    pub installed: bool,
    pub executable_path: Option<String>,
    pub install_path: Option<String>,
    pub playtime_minutes: Option<u32>,
    pub last_played: Option<i64>,
}

pub struct SourceGameView {
    pub platform: Seq<char>,
    pub platform_game_id: Seq<char>,
    pub name: Option<Seq<char>>,
    pub installed: bool,
    pub executable_path: Option<Seq<char>>,
    pub install_path: Option<Seq<char>>,
    pub playtime_minutes: Option<u32>,
    pub last_played: Option<i64>,
}

impl View for SourceGame {
    type V = SourceGameView;

    open spec fn view(&self) -> SourceGameView {
        SourceGameView {
            platform: self.platform@,
            platform_game_id: self.platform_game_id@,
            name: opt_view(self.name),
            installed: self.installed,
            executable_path: opt_view(self.executable_path),
            install_path: opt_view(self.install_path),
            playtime_minutes: self.playtime_minutes,
            last_played: self.last_played,
        }
    }
}

pub open spec fn source_views(v: Seq<SourceGame>) -> Seq<SourceGameView> {
    v.map_values(|g: SourceGame| g@)
}

/// `std::path::Path::join` of `base` and `rel`, as text (`to_string_lossy`). What the
/// joined path is depends on the platform's path rules, so the contract says nothing of it.
#[verifier::external_body]
pub(crate) fn join_path(base: &str, rel: &str) -> (r: String) {
    std::path::Path::new(base).join(rel).to_string_lossy().to_string()
}

pub fn copy_opt(o: &Option<String>) -> (r: Option<String>)
    ensures
        opt_view(r) == opt_view(*o),
{
    match o {
        Some(s) => Some(s.clone()),
        None => None,
    }
}

/// A copy of a source game.
pub fn copy_game(g: &SourceGame) -> (r: SourceGame)
    ensures
        r@ == g@,
{
    SourceGame {
        platform: g.platform.clone(),
        platform_game_id: g.platform_game_id.clone(),
        name: copy_opt(&g.name),
        installed: g.installed,
        executable_path: copy_opt(&g.executable_path),
        install_path: copy_opt(&g.install_path),
        playtime_minutes: g.playtime_minutes,
        last_played: g.last_played,
    }
}


// ---------------------------------------------------------------------------
// OAuth redirect port
// ---------------------------------------------------------------------------

/// What `url::Url::parse(uri)` followed by `port()` gives: the explicit port of a URI
/// that parses, `None` when it does not parse or names no port (or the scheme's default).
pub uninterp spec fn url_port(uri: Seq<char>) -> Option<u16>;

/// `url::Url::parse` then `Url::port`: the port written in the URI. The contract names
/// the result (`url_port`) and says no more of it.
#[verifier::external_body]
fn parsed_port(uri: &str) -> (r: Option<u16>)
    ensures
        r == url_port(uri@),
{
    url::Url::parse(uri).ok().and_then(|u| u.port())
}

/// The port of a local redirect URI given the port its parse found; an error naming the
/// URI when there is none.
pub fn port_or_error(redirect_uri: &str, port: Option<u16>) -> (r: Result<u16, String>)
    ensures
        match port {
            Some(p) => r == Ok::<u16, String>(p),
            None => r matches Err(e) && e@ == "redirect_uri sem porta válida: "@ + redirect_uri@,
        },
{
    match port {
        Some(p) => Ok(p),
        None => Err(crate::text::concat_str("redirect_uri sem porta válida: ", redirect_uri)),
    }
}

/// The port of a local redirect URI (`http://127.0.0.1:8901/callback` gives 8901); an
/// error when the URI does not parse or names no port.
pub fn extract_port(redirect_uri: &str) -> (r: Result<u16, String>)
    ensures
        match url_port(redirect_uri@) {
            Some(p) => r == Ok::<u16, String>(p),
            None => r matches Err(e) && e@ == "redirect_uri sem porta válida: "@ + redirect_uri@,
        },
{
    let port = parsed_port(redirect_uri);
    port_or_error(redirect_uri, port)
}


/// The message given when the login callback's `state` is missing or differs.
pub open spec fn state_mismatch_message() -> Seq<char> {
    "Parâmetro 'state' ausente ou não confere (possível CSRF)"@
}

/// Checks the `state` a login callback came back with against the one sent: the login
/// goes on only when they are equal; a missing or different state is refused.
pub fn check_callback_state(returned: &Option<String>, expected: &str) -> (r: Result<(), String>)
    ensures
        match returned {
            Some(s) => if s@ == expected@ {
                r is Ok
            } else {
                r matches Err(e) && e@ == state_mismatch_message()
            },
            None => r matches Err(e) && e@ == state_mismatch_message(),
        },
{
    match returned {
        Some(s) => if eq_str(s.as_str(), expected) {
            return Ok(());
        },
        None => {},
    }
    Err(copy_string("Parâmetro 'state' ausente ou não confere (possível CSRF)"))
}

} // verus!
