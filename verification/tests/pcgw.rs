use playlite::pcgw_data::{assemble_pcgw_data, infobox_page_id, page_filter, PcgwError, PcgwFirstRows};
use playlite::pcgw::{
    combine_fields, extract_field, extract_template_blocks, get_param, normalize_bool_field,
    parse_game_data_paths, parse_game_data_rows, parse_l10n_rows, parse_params,
    parse_system_requirements, GameDataRow, L10nRow,
};

fn s(x: &str) -> String {
    x.to_string()
}

#[test]
fn template_blocks_with_nesting() {
    let text = "intro {{System requirements\n|OSfamily = Windows\n|minCPU = {{CPU|i5}}\n}} mid {{Other}} {{System requirements|OSfamily = Linux}}";
    let b = extract_template_blocks(text, "System requirements");
    assert_eq!(b.len(), 2);
    assert_eq!(b[0], "System requirements\n|OSfamily = Windows\n|minCPU = {{CPU|i5}}\n");
    assert_eq!(b[1], "System requirements|OSfamily = Linux");
}

#[test]
fn unclosed_block_stops_search() {
    let b = extract_template_blocks("{{A|x}} {{A|y", "A");
    assert_eq!(b, vec![s("A|x")]);
}

#[test]
fn params_are_normalized() {
    let p = parse_params("X\n|OSfamily = Windows\n|minCPU = Intel i5\n|minCPU notes = ignore\n|ref = r\n|minRAM = \n|minGPU = GTX 970\n");
    assert_eq!(get_param(&p, "osfamily"), Some(s("Windows")));
    assert_eq!(get_param(&p, "mincpu"), Some(s("Intel i5")));
    assert_eq!(get_param(&p, "mincpu notes"), None);
    assert_eq!(get_param(&p, "ref"), None);
    assert_eq!(get_param(&p, "minram"), None);
    assert_eq!(get_param(&p, "mingpu"), Some(s("GTX 970")));
}

#[test]
fn later_param_wins() {
    let p = parse_params("|a = 1\n|A = 2\n");
    assert_eq!(get_param(&p, "a"), Some(s("2")));
}

#[test]
fn combine_two_fields() {
    assert_eq!(combine_fields(Some(s("A")), Some(s("B"))), Some(s("A / B")));
    assert_eq!(combine_fields(Some(s("A")), Some(s(""))), Some(s("A")));
    assert_eq!(combine_fields(None, Some(s("B"))), Some(s("B")));
    assert_eq!(combine_fields(None, None), None);
}

#[test]
fn system_requirements_with_tiers() {
    let text = "{{System requirements\n|OSfamily = Windows\n|minOS = 10\n|minCPU = i5\n|minCPU2 = Ryzen 5\n|recRAM = 16 GB\n|alt1title = High\n|alt1CPU = i7\n|alt2title = Ultra\n|alt2RAM = 32 GB\n}}";
    let r = parse_system_requirements(text);
    assert_eq!(r.len(), 3);
    assert_eq!(r[0].os_family, "Windows");
    assert_eq!(r[0].min_os, Some(s("10")));
    assert_eq!(r[0].min_cpu, Some(s("i5 / Ryzen 5")));
    assert_eq!(r[0].rec_ram, Some(s("16 GB")));
    assert_eq!(r[0].tier_title, None);
    assert_eq!(r[1].tier_title, Some(s("High")));
    assert_eq!(r[1].min_cpu, Some(s("i7")));
    assert_eq!(r[1].rec_ram, None);
    assert_eq!(r[2].tier_title, Some(s("Ultra")));
    assert_eq!(r[2].min_ram, Some(s("32 GB")));
}

#[test]
fn system_requirements_unknown_os() {
    let r = parse_system_requirements("{{System requirements\n|minOS = XP\n}}");
    assert_eq!(r.len(), 1);
    assert_eq!(r[0].os_family, "Unknown");
}

#[test]
fn game_data_paths_from_wikitext() {
    let text = "{{Game data/saves|Windows|{{p|userprofile}}\\Saves}}\n{{Game data/config|Linux| ~/.config/game }}";
    let r = parse_game_data_paths(text);
    assert_eq!(r.len(), 2);
    assert_eq!(r[0].kind, "saves");
    assert_eq!(r[0].os, "Windows");
    assert_eq!(r[0].raw_path, "{{p|userprofile}}\\Saves");
    assert_eq!(r[1].kind, "config");
    assert_eq!(r[1].raw_path, "~/.config/game");
    assert_eq!(r[1].expanded_path, None);
}

#[test]
fn l10n_rows_grouped() {
    let rows = vec![
        L10nRow { language: Some(s("English")), interface: Some(s("true")), audio: Some(s("true")), subtitles: Some(s("true")) },
        L10nRow { language: Some(s("Brazilian Portuguese")), interface: Some(s("hackable")), audio: Some(s("false")), subtitles: None },
        L10nRow { language: Some(s("")), interface: Some(s("true")), audio: None, subtitles: None },
    ];
    let (i, a, sub) = parse_l10n_rows(&rows);
    assert_eq!(i, Some(vec![s("English"), s("Brazilian Portuguese")]));
    assert_eq!(a, Some(vec![s("English")]));
    assert_eq!(sub, Some(vec![s("English")]));
    let (i2, _, _) = parse_l10n_rows(&vec![]);
    assert_eq!(i2, None);
}

#[test]
fn game_data_rows_first_per_kind() {
    let rows = vec![
        GameDataRow { path: Some(s("C:\\save1")), os: Some(s("Windows")), store: Some(s("Save game")) },
        GameDataRow { path: Some(s("C:\\save2")), os: Some(s("Windows")), store: Some(s("Save game")) },
        GameDataRow { path: Some(s("~/cfg")), os: Some(s("Linux")), store: Some(s("Configuration")) },
        GameDataRow { path: Some(s("")), os: Some(s("Linux")), store: Some(s("Save game")) },
    ];
    let (sw, sl, cw, cl) = parse_game_data_rows(&rows);
    assert_eq!(sw, Some(s("C:\\save1")));
    assert_eq!(sl, None);
    assert_eq!(cw, None);
    assert_eq!(cl, Some(s("~/cfg")));
}

#[test]
fn field_normalization() {
    assert_eq!(extract_field(Some(s("  Valve "))), Some(s("Valve")));
    assert_eq!(extract_field(Some(s("   "))), None);
    assert_eq!(normalize_bool_field(Some(s("True"))), Some(s("true")));
    assert_eq!(normalize_bool_field(Some(s(""))), None);
    assert_eq!(normalize_bool_field(None), None);
}

#[test]
fn scrape_collects_both() {
    let d = playlite::pcgw::scrape_wikitext("{{System requirements|OSfamily = Linux}}{{Game data/saves|Linux|~/s}}");
    assert_eq!(d.system_requirements.len(), 1);
    assert_eq!(d.system_requirements[0].os_family, "Linux");
    assert_eq!(d.game_data_paths.len(), 1);
}

fn no_rows() -> PcgwFirstRows {
    PcgwFirstRows {
        page_name: None, engine: None, available_on: None, dx_versions: None, vulkan_versions: None,
        opengl_versions: None, win64: None, linux64: None, macos_arm: None, macos_intel64: None,
        ray_tracing: None, upscaling: None, frame_gen: None, ultrawide: None, four_k: None, hdr: None,
        high_fps: None, fov: None, borderless: None, color_blind: None, ctrl_support: None,
        full_ctrl: None, ps_ctrl: None, xinput: None, surround: None, subtitles: None,
        closed_captions: None, save_data: None, config_data: None,
    }
}

#[test]
fn pcgw_page_id_errors() {
    match infobox_page_id("1091500", false, &None) {
        Err(PcgwError::NotFound(m)) => assert_eq!(m, "Jogo com Steam AppID 1091500 não encontrado no PCGamingWiki"),
        _ => panic!("expected not found"),
    }
    match infobox_page_id("1091500", true, &Some("  ".to_string())) {
        Err(PcgwError::ParseError(m)) => assert_eq!(m, "pageID ausente na resposta da Infobox_game"),
        _ => panic!("expected a parse error"),
    }
    match infobox_page_id("1091500", true, &Some(" 12345 ".to_string())) {
        Ok(id) => assert_eq!(id, "12345"),
        _ => panic!("expected the page id"),
    }
    assert_eq!(page_filter("12345"), "_pageID=\"12345\"");
}

#[test]
fn pcgw_data_fields_trimmed_and_flags_lowercased() {
    let mut rows = no_rows();
    rows.page_name = Some(" Cyberpunk 2077 ".to_string());
    rows.engine = Some("REDengine 4".to_string());
    rows.dx_versions = Some("   ".to_string());
    rows.win64 = Some(" True ".to_string());
    rows.hdr = Some("Hackable".to_string());
    rows.fov = Some("".to_string());
    let l10n = vec![
        L10nRow { language: Some("English".to_string()), interface: Some("true".to_string()), audio: Some("true".to_string()), subtitles: Some("true".to_string()) },
        L10nRow { language: Some("Polish".to_string()), interface: Some("true".to_string()), audio: Some("false".to_string()), subtitles: Some("hackable".to_string()) },
    ];
    let d = assemble_pcgw_data("1091500", "12345".to_string(), &rows, &l10n, "2024-01-01T00:00:00+00:00".to_string());
    assert_eq!(d.steam_app_id, "1091500");
    assert_eq!(d.pcgw_page_id, Some("12345".to_string()));
    assert_eq!(d.pcgw_page_name, Some("Cyberpunk 2077".to_string()));
    assert_eq!(d.engine, Some("REDengine 4".to_string()));
    assert_eq!(d.dx_versions, None);
    assert_eq!(d.win64, Some("true".to_string()));
    assert_eq!(d.hdr, Some("hackable".to_string()));
    assert_eq!(d.fov, None);
    assert_eq!(d.languages_interface, Some(vec!["English".to_string(), "Polish".to_string()]));
    assert_eq!(d.languages_audio, Some(vec!["English".to_string()]));
    assert_eq!(d.languages_subtitles, Some(vec!["English".to_string(), "Polish".to_string()]));
    assert_eq!(d.fetched_at, Some("2024-01-01T00:00:00+00:00".to_string()));
    let empty = assemble_pcgw_data("1", "2".to_string(), &no_rows(), &vec![], "t".to_string());
    assert_eq!(empty.languages_audio, None);
}

#[test]
fn pcgw_search_keeps_complete_hits() {
    let hits = vec![
        playlite::pcgw_data::PcgwSearchHit { page_id: Some(42), title: Some("Portal".to_string()) },
        playlite::pcgw_data::PcgwSearchHit { page_id: None, title: Some("No id".to_string()) },
        playlite::pcgw_data::PcgwSearchHit { page_id: Some(7), title: None },
        playlite::pcgw_data::PcgwSearchHit { page_id: Some(1000), title: Some("Portal 2".to_string()) },
    ];
    let r = playlite::pcgw_data::search_results(&hits);
    assert_eq!(r.len(), 2);
    assert_eq!(r[0].page_id, "42");
    assert_eq!(r[0].page_name, "Portal");
    assert_eq!(r[1].page_id, "1000");
    assert_eq!(r[1].page_name, "Portal 2");
}
