//! The technical data of a game on PCGamingWiki, put together from the first result of
//! each Cargo table query: the page found by the Steam app id, then its API, video, input,
//! audio, localization and tag rows; and the candidates of a search by name.
use vstd::prelude::*;
use crate::pcgw::{extract_field, l10n_views, languages_with, non_empty, normalize_bool_field, opt_list_view, parse_l10n_rows, L10nRow};
use crate::text::{concat_str, decimal_seq, u64_to_string, lowercase_of, opt_view, trim_seq};

verus! {

/// A text field of a first result as kept: trimmed, `None` when empty or absent.
pub open spec fn text_value(o: Option<Seq<char>>) -> Option<Seq<char>> {
    match o {
        Some(v) => if trim_seq(v).len() > 0 {
            Some(trim_seq(v))
        } else {
            None
        },
        None => None,
    }
}

/// A yes/no field of a first result as kept: trimmed and lower-cased, `None` when empty
/// or absent.
pub open spec fn flag_value(o: Option<Seq<char>>) -> Option<Seq<char>> {
    match text_value(o) {
        Some(v) => if lowercase_of(v).len() > 0 {
            Some(lowercase_of(v))
        } else {
            None
        },
        None => None,
    }
}

fn text_of(value: &Option<String>) -> (r: Option<String>)
    ensures
        opt_view(r) == text_value(opt_view(*value)),
{
    let v = match value {
        Some(s) => Some(s.clone()),
        None => None,
    };
    extract_field(v)
}

fn flag_of(value: &Option<String>) -> (r: Option<String>)
    ensures
        opt_view(r) == flag_value(opt_view(*value)),
{
    normalize_bool_field(text_of(value))
}

/// Why the page of a game cannot be used.
pub enum PcgwError {
    /// No page holds the Steam app id.
    NotFound(String),
    /// The page found has no id.
    ParseError(String),
}

/// The page id of a game from its `Infobox_game` query: an error when the query found no
/// page (`found` is false) or the first page has no id; otherwise the id, trimmed.
pub fn infobox_page_id(steam_app_id: &str, found: bool, page_id: &Option<String>) -> (r: Result<String, PcgwError>)
    ensures
        !found ==> (r matches Err(PcgwError::NotFound(m))
            && m@ == "Jogo com Steam AppID "@ + steam_app_id@ + " não encontrado no PCGamingWiki"@),
        found && text_value(opt_view(*page_id)) is None ==> (r matches Err(PcgwError::ParseError(m))
            && m@ == "pageID ausente na resposta da Infobox_game"@),
        found && text_value(opt_view(*page_id)) is Some ==> (r matches Ok(id) && Some(id@) == text_value(opt_view(*page_id))),
{
    if !found {
        let a = concat_str("Jogo com Steam AppID ", steam_app_id);
        return Err(PcgwError::NotFound(concat_str(a.as_str(), " não encontrado no PCGamingWiki")));
    }
    match text_of(page_id) {
        Some(id) => Ok(id),
        None => Err(PcgwError::ParseError(crate::text::copy_string("pageID ausente na resposta da Infobox_game"))),
    }
}

/// The `where` filter of the queries about a page: `_pageID="<id>"`.
pub fn page_filter(page_id: &str) -> (r: String)
    ensures
        r@ == "_pageID=\""@ + page_id@ + "\""@,
{
    let a = concat_str("_pageID=\"", page_id);
    concat_str(a.as_str(), "\"")
}

/// The values of the first result of each query, by the names the queries give them.
pub struct PcgwFirstRows {
    pub page_name: Option<String>,
    pub engine: Option<String>,
    pub available_on: Option<String>,
    pub dx_versions: Option<String>,
    pub vulkan_versions: Option<String>,
    pub opengl_versions: Option<String>,
    pub win64: Option<String>,
    pub linux64: Option<String>,
    pub macos_arm: Option<String>,
    pub macos_intel64: Option<String>,
    pub ray_tracing: Option<String>,
    pub upscaling: Option<String>,
    pub frame_gen: Option<String>,
    pub ultrawide: Option<String>,
    pub four_k: Option<String>,
    pub hdr: Option<String>,
    pub high_fps: Option<String>,
    pub fov: Option<String>,
    pub borderless: Option<String>,
    pub color_blind: Option<String>,
    pub ctrl_support: Option<String>,
    pub full_ctrl: Option<String>,
    pub ps_ctrl: Option<String>,
    pub xinput: Option<String>,
    pub surround: Option<String>,
    pub subtitles: Option<String>,
    pub closed_captions: Option<String>,
    pub save_data: Option<String>,
    pub config_data: Option<String>,
}

/// The technical data of a game.
pub struct PcgwData {
    pub steam_app_id: String,
    pub pcgw_page_id: Option<String>,
    pub pcgw_page_name: Option<String>,
    pub engine: Option<String>,
    pub available_on: Option<String>,
    pub dx_versions: Option<String>,
    pub vulkan_versions: Option<String>,
    pub opengl_versions: Option<String>,
    pub win64: Option<String>,
    pub linux64: Option<String>,
    pub macos_arm: Option<String>,
    pub macos_intel64: Option<String>,
    pub ray_tracing: Option<String>,
    pub upscaling: Option<String>,
    pub frame_gen: Option<String>,
    pub ultrawidescreen: Option<String>,
    pub four_k_support: Option<String>,
    pub hdr: Option<String>,
    pub high_fps: Option<String>,
    pub fov: Option<String>,
    pub borderless_windowed: Option<String>,
    pub color_blind: Option<String>,
    pub controller_support: Option<String>,
    pub full_controller: Option<String>,
    pub playstation_controllers: Option<String>,
    pub xinput_controllers: Option<String>,
    pub surround_sound: Option<String>,
    pub subtitles: Option<String>,
    pub closed_captions: Option<String>,
    pub has_save_data: Option<String>,
    pub has_config_data: Option<String>,
    pub languages_interface: Option<Vec<String>>,
    pub languages_audio: Option<Vec<String>>,
    pub languages_subtitles: Option<Vec<String>>,
    pub fetched_at: Option<String>,
}

/// The technical data of a game from its page id, the first results of the queries, its
/// localization rows and the time of the fetch: text fields trimmed (`None` when empty),
/// yes/no fields also lower-cased, and the languages with interface, audio and subtitle
/// support (`None` when there are none).
pub fn assemble_pcgw_data(
    steam_app_id: &str,
    page_id: String,
    rows: &PcgwFirstRows,
    l10n: &Vec<L10nRow>,
    fetched_at: String,
) -> (r: PcgwData)
    ensures
        r.steam_app_id@ == steam_app_id@,
        opt_view(r.pcgw_page_id) == Some(page_id@),
        opt_view(r.pcgw_page_name) == text_value(opt_view(rows.page_name)),
        opt_view(r.engine) == text_value(opt_view(rows.engine)),
        opt_view(r.available_on) == text_value(opt_view(rows.available_on)),
        opt_view(r.dx_versions) == text_value(opt_view(rows.dx_versions)),
        opt_view(r.vulkan_versions) == text_value(opt_view(rows.vulkan_versions)),
        opt_view(r.opengl_versions) == text_value(opt_view(rows.opengl_versions)),
        opt_view(r.win64) == flag_value(opt_view(rows.win64)),
        opt_view(r.linux64) == flag_value(opt_view(rows.linux64)),
        opt_view(r.macos_arm) == flag_value(opt_view(rows.macos_arm)),
        opt_view(r.macos_intel64) == flag_value(opt_view(rows.macos_intel64)),
        opt_view(r.ray_tracing) == flag_value(opt_view(rows.ray_tracing)),
        opt_view(r.upscaling) == text_value(opt_view(rows.upscaling)),
        opt_view(r.frame_gen) == text_value(opt_view(rows.frame_gen)),
        opt_view(r.ultrawidescreen) == flag_value(opt_view(rows.ultrawide)),
        opt_view(r.four_k_support) == flag_value(opt_view(rows.four_k)),
        opt_view(r.hdr) == flag_value(opt_view(rows.hdr)),
        opt_view(r.high_fps) == flag_value(opt_view(rows.high_fps)),
        opt_view(r.fov) == flag_value(opt_view(rows.fov)),
        opt_view(r.borderless_windowed) == flag_value(opt_view(rows.borderless)),
        opt_view(r.color_blind) == flag_value(opt_view(rows.color_blind)),
        opt_view(r.controller_support) == flag_value(opt_view(rows.ctrl_support)),
        opt_view(r.full_controller) == flag_value(opt_view(rows.full_ctrl)),
        opt_view(r.playstation_controllers) == flag_value(opt_view(rows.ps_ctrl)),
        opt_view(r.xinput_controllers) == flag_value(opt_view(rows.xinput)),
        opt_view(r.surround_sound) == flag_value(opt_view(rows.surround)),
        opt_view(r.subtitles) == flag_value(opt_view(rows.subtitles)),
        opt_view(r.closed_captions) == flag_value(opt_view(rows.closed_captions)),
        opt_view(r.has_save_data) == flag_value(opt_view(rows.save_data)),
        opt_view(r.has_config_data) == flag_value(opt_view(rows.config_data)),
        opt_list_view(r.languages_interface) == non_empty(languages_with(l10n_views(l10n@), 0)),
        opt_list_view(r.languages_audio) == non_empty(languages_with(l10n_views(l10n@), 1)),
        opt_list_view(r.languages_subtitles) == non_empty(languages_with(l10n_views(l10n@), 2)),
        opt_view(r.fetched_at) == Some(fetched_at@),
{
    let (languages_interface, languages_audio, languages_subtitles) = parse_l10n_rows(l10n);
    PcgwData {
        steam_app_id: crate::text::copy_string(steam_app_id),
        pcgw_page_id: Some(page_id),
        pcgw_page_name: text_of(&rows.page_name),
        engine: text_of(&rows.engine),
        available_on: text_of(&rows.available_on),
        dx_versions: text_of(&rows.dx_versions),
        vulkan_versions: text_of(&rows.vulkan_versions),
        opengl_versions: text_of(&rows.opengl_versions),
        win64: flag_of(&rows.win64),
        linux64: flag_of(&rows.linux64),
        macos_arm: flag_of(&rows.macos_arm),
        macos_intel64: flag_of(&rows.macos_intel64),
        ray_tracing: flag_of(&rows.ray_tracing),
        upscaling: text_of(&rows.upscaling),
        frame_gen: text_of(&rows.frame_gen),
        ultrawidescreen: flag_of(&rows.ultrawide),
        four_k_support: flag_of(&rows.four_k),
        hdr: flag_of(&rows.hdr),
        high_fps: flag_of(&rows.high_fps),
        fov: flag_of(&rows.fov),
        borderless_windowed: flag_of(&rows.borderless),
        color_blind: flag_of(&rows.color_blind),
        controller_support: flag_of(&rows.ctrl_support),
        full_controller: flag_of(&rows.full_ctrl),
        playstation_controllers: flag_of(&rows.ps_ctrl),
        xinput_controllers: flag_of(&rows.xinput),
        surround_sound: flag_of(&rows.surround),
        subtitles: flag_of(&rows.subtitles),
        closed_captions: flag_of(&rows.closed_captions),
        has_save_data: flag_of(&rows.save_data),
        has_config_data: flag_of(&rows.config_data),
        languages_interface,
        languages_audio,
        languages_subtitles,
        fetched_at: Some(fetched_at),
    }
}


/// A hit of a PCGamingWiki search by name: its page id and title, where the hit has them.
pub struct PcgwSearchHit {
    pub page_id: Option<u64>,
    pub title: Option<String>,
}

/// A candidate page of a search by name.
pub struct PcgwSearchResult {
    pub page_id: String,
    pub page_name: String,
}

/// The candidates of a search: the hits that have both a page id and a title, in order,
/// the id written in decimal.
pub open spec fn search_results_spec(hits: Seq<PcgwSearchHit>) -> Seq<(Seq<char>, Seq<char>)>
    decreases hits.len(),
{
    if hits.len() == 0 {
        Seq::empty()
    } else {
        let prev = search_results_spec(hits.drop_last());
        let h = hits.last();
        match (h.page_id, h.title) {
            (Some(id), Some(t)) => prev.push((decimal_seq(id as nat), t@)),
            _ => prev,
        }
    }
}

pub open spec fn search_result_views(v: Seq<PcgwSearchResult>) -> Seq<(Seq<char>, Seq<char>)> {
    v.map_values(|r: PcgwSearchResult| (r.page_id@, r.page_name@))
}

/// The candidate pages of a search by name, for the user to confirm one.
pub fn search_results(hits: &Vec<PcgwSearchHit>) -> (r: Vec<PcgwSearchResult>)
    ensures
        search_result_views(r@) == search_results_spec(hits@),
{
    let mut out: Vec<PcgwSearchResult> = Vec::new();
    let mut i: usize = 0;
    while i < hits.len()
        invariant
            i <= hits.len(),
            search_result_views(out@) == search_results_spec(hits@.take(i as int)),
        decreases hits.len() - i,
    {
        assert(hits@.take(i + 1).drop_last() =~= hits@.take(i as int));
        assert(hits@.take(i + 1).last() == hits@[i as int]);
        let ghost prev = search_result_views(out@);
        match (&hits[i].page_id, &hits[i].title) {
            (Some(id), Some(t)) => {
                out.push(PcgwSearchResult { page_id: u64_to_string(*id), page_name: t.clone() });
                assert(search_result_views(out@) =~= prev.push((decimal_seq(*id as nat), t@)));
            },
            _ => {},
        }
        i = i + 1;
    }
    assert(hits@.take(hits.len() as int) =~= hits@);
    out
}

} // verus!
