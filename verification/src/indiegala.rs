//! IndieGala imports: the game of an `installed.json` entry, and the owned library of
//! `config.json` crossed with what is installed.
use vstd::prelude::*;
use crate::launchers::{indiegala_tags, slugs_of, IndiegalaGame};
use crate::sources::{copy_game, copy_opt, join_path, SourceGame, SourceGameView};
use crate::tag_service::{classify_spec, meta_views, sort_desc, tag_views, truncated, GameTag, GameTagView, TagMetadata};
use crate::tags::{first_of_each_slug, normalized_all};
use crate::text::{copy_string, eq_str, opt_view, string_views};

verus! {

/// The classified tags of a game with these tags: `None` without tags, else the slugs
/// classified, one per slug, sorted by relevance and cut to ten.
pub open spec fn tags_spec(table: Seq<TagMetadata>, tags: Seq<Seq<char>>) -> Option<Seq<GameTagView>> {
    if tags.len() == 0 {
        None
    } else {
        let c = classify_spec(meta_views(table), normalized_all(slugs_of(tags)));
        Some(truncated(sort_desc(first_of_each_slug(c, c.len())), 10))
    }
}

pub open spec fn opt_tags_view(t: Option<Vec<GameTag>>) -> Option<Seq<GameTagView>> {
    match t {
        Some(v) => Some(tag_views(v@)),
        None => None,
    }
}

/// An IndieGala game as values.
pub struct IndieView {
    pub source: SourceGameView,
    pub description: Option<Seq<char>>,
    pub tags: Option<Seq<GameTagView>>,
}

pub open spec fn indie_view(g: IndiegalaGame) -> IndieView {
    IndieView { source: g.source@, description: opt_view(g.description_raw), tags: opt_tags_view(g.tags) }
}

pub open spec fn indie_views(v: Seq<IndiegalaGame>) -> Seq<IndieView> {
    v.map_values(|g: IndiegalaGame| indie_view(g))
}

fn classified(table: &Vec<TagMetadata>, tags: &Vec<String>) -> (r: Option<Vec<GameTag>>)
    ensures
        opt_tags_view(r) == tags_spec(table@, string_views(tags@)),
{
    let r = indiegala_tags(table, tags);
    proof {
        let c = classify_spec(meta_views(table@), normalized_all(slugs_of(string_views(tags@))));
        assert(string_views(tags@).len() == tags@.len());
    }
    r
}

/// An entry of the client's `installed.json`: the item, its game data and the folders
/// it was installed under.
pub struct InstalledEntry {
    pub name: String,
    pub slugged_name: String,
    pub id_key_name: String,
    pub description_short: Option<String>,
    pub tags: Vec<String>,
    pub exe_path: Option<String>,
    pub paths: Vec<String>,
}

/// The installed game of an entry. Its install path is the entry's slugged name under the
/// first listed folder when that folder exists (`slug_dir_exists`), else the first listed
/// folder itself, and there is none without a folder; its executable is `exe_path` under
/// the install path when both are there. `playtime_minutes` is the entry's play time.
pub fn installed_game(table: &Vec<TagMetadata>, e: &InstalledEntry, slug_dir_exists: bool, playtime_minutes: u32) -> (r: IndiegalaGame)
    ensures
        r.source.platform@ == "Indie"@,
        r.source.platform_game_id@ == e.id_key_name@,
        opt_view(r.source.name) == Some(e.name@),
        r.source.installed,
        r.source.install_path is Some <==> e.paths.len() > 0,
        e.paths.len() > 0 && !slug_dir_exists ==> opt_view(r.source.install_path) == Some(e.paths@[0]@),
        r.source.executable_path is Some <==> (e.paths.len() > 0 && e.exe_path is Some),
        r.source.playtime_minutes == Some(playtime_minutes),
        r.source.last_played is None,
        opt_view(r.description_raw) == opt_view(e.description_short),
        opt_tags_view(r.tags) == tags_spec(table@, string_views(e.tags@)),
{
    let install_path: Option<String> = if e.paths.len() > 0 {
        if slug_dir_exists {
            Some(join_path(e.paths[0].as_str(), e.slugged_name.as_str()))
        } else {
            Some(e.paths[0].clone())
        }
    } else {
        None
    };
    let executable_path: Option<String> = match (&e.exe_path, &install_path) {
        (Some(exe), Some(base)) => Some(join_path(base.as_str(), exe.as_str())),
        _ => None,
    };
    let source = SourceGame {
        platform: copy_string("Indie"),
        platform_game_id: e.id_key_name.clone(),
        name: Some(e.name.clone()),
        installed: true,
        executable_path,
        install_path,
        playtime_minutes: Some(playtime_minutes),
        last_played: None,
    };
    IndiegalaGame { source, description_raw: copy_opt(&e.description_short), tags: classified(table, &e.tags) }
}

/// A game of the owned collection in `config.json`.
pub struct OwnedGame {
    pub prod_name: String,
    pub prod_slugged_name: String,
    pub prod_id_key_name: String,
}

/// A game entry of `config.json`, by slugged name: description and tags.
pub struct ConfigGameEntry {
    pub slug: String,
    pub description_short: Option<String>,
    pub tags: Vec<String>,
}

/// The installed game with this id: the last one (a later entry replaces an earlier one).
pub open spec fn last_installed(installed: Seq<IndiegalaGame>, id: Seq<char>) -> Option<int>
    decreases installed.len(),
{
    if installed.len() == 0 {
        None
    } else if installed.last().source.platform_game_id@ == id {
        Some(installed.len() - 1)
    } else {
        last_installed(installed.drop_last(), id)
    }
}

/// The `config.json` entry with this slug: the last one.
pub open spec fn last_extra(extras: Seq<ConfigGameEntry>, slug: Seq<char>) -> Option<int>
    decreases extras.len(),
{
    if extras.len() == 0 {
        None
    } else if extras.last().slug@ == slug {
        Some(extras.len() - 1)
    } else {
        last_extra(extras.drop_last(), slug)
    }
}

/// The game of an owned product that is not installed, with the description and tags of
/// its `config.json` entry when there is one.
pub open spec fn owned_only(table: Seq<TagMetadata>, extras: Seq<ConfigGameEntry>, o: OwnedGame) -> IndieView {
    let (description, tags) = match last_extra(extras, o.prod_slugged_name@) {
        Some(j) => (opt_view(extras[j].description_short), tags_spec(table, string_views(extras[j].tags@))),
        None => (None, None),
    };
    IndieView {
        source: SourceGameView {
            platform: "Indie"@,
            platform_game_id: o.prod_id_key_name@,
            name: Some(o.prod_name@),
            installed: false,
            executable_path: None,
            install_path: None,
            playtime_minutes: None,
            last_played: None,
        },
        description,
        tags,
    }
}

/// The library entry of an owned product: the installed game with its id when there is
/// one, else the product as not installed.
pub open spec fn owned_entry(table: Seq<TagMetadata>, installed: Seq<IndiegalaGame>, extras: Seq<ConfigGameEntry>, o: OwnedGame) -> IndieView {
    match last_installed(installed, o.prod_id_key_name@) {
        Some(k) => indie_view(installed[k]),
        None => owned_only(table, extras, o),
    }
}

fn installed_index(installed: &Vec<IndiegalaGame>, id: &str) -> (r: Option<usize>)
    ensures
        match r {
            Some(i) => i < installed.len() && last_installed(installed@, id@) == Some(i as int),
            None => last_installed(installed@, id@) is None,
        },
{
    let mut i: usize = installed.len();
    assert(installed@.take(i as int) =~= installed@);
    while i > 0
        invariant
            i <= installed.len(),
            last_installed(installed@, id@) == last_installed(installed@.take(i as int), id@),
        decreases i,
    {
        assert(installed@.take(i as int).drop_last() =~= installed@.take(i - 1));
        assert(installed@.take(i as int).last() == installed@[i - 1]);
        if eq_str(installed[i - 1].source.platform_game_id.as_str(), id) {
            return Some(i - 1);
        }
        i = i - 1;
    }
    None
}

fn extra_index(extras: &Vec<ConfigGameEntry>, slug: &str) -> (r: Option<usize>)
    ensures
        match r {
            Some(i) => i < extras.len() && last_extra(extras@, slug@) == Some(i as int),
            None => last_extra(extras@, slug@) is None,
        },
{
    let mut i: usize = extras.len();
    assert(extras@.take(i as int) =~= extras@);
    while i > 0
        invariant
            i <= extras.len(),
            last_extra(extras@, slug@) == last_extra(extras@.take(i as int), slug@),
        decreases i,
    {
        assert(extras@.take(i as int).drop_last() =~= extras@.take(i - 1));
        assert(extras@.take(i as int).last() == extras@[i - 1]);
        if eq_str(extras[i - 1].slug.as_str(), slug) {
            return Some(i - 1);
        }
        i = i - 1;
    }
    None
}

fn copy_tags(v: &Vec<GameTag>) -> (r: Vec<GameTag>)
    ensures
        tag_views(r@) == tag_views(v@),
{
    let mut out: Vec<GameTag> = Vec::new();
    let mut i: usize = 0;
    while i < v.len()
        invariant
            i <= v.len(),
            tag_views(out@) == tag_views(v@.take(i as int)),
        decreases v.len() - i,
    {
        let t = &v[i];
        let ghost before = out@;
        out.push(GameTag { slug: t.slug.clone(), name: t.name.clone(), category: t.category, relevance: t.relevance });
        assert(out@ == before.push(out@.last()));
        assert(out@.last()@ == v@[i as int]@);
        assert(v@.take(i + 1) == v@.take(i as int).push(v@[i as int]));
        assert(tag_views(out@) =~= tag_views(before).push(v@[i as int]@));
        assert(tag_views(v@.take(i + 1)) =~= tag_views(v@.take(i as int)).push(v@[i as int]@));
        assert(tag_views(out@) =~= tag_views(v@.take(i + 1)));
        i = i + 1;
    }
    assert(v@.take(v.len() as int) =~= v@);
    out
}

fn copy_indie(g: &IndiegalaGame) -> (r: IndiegalaGame)
    ensures
        indie_view(r) == indie_view(*g),
{
    let tags = match &g.tags {
        Some(v) => Some(copy_tags(v)),
        None => None,
    };
    IndiegalaGame { source: copy_game(&g.source), description_raw: copy_opt(&g.description_raw), tags }
}

/// The owned library, in the order of the collection: each owned product is the
/// installed game with its id when there is one (the last such), else a game that is not
/// installed, described by the `config.json` entry with its slug when there is one.
pub fn full_library(
    table: &Vec<TagMetadata>,
    installed: &Vec<IndiegalaGame>,
    owned: &Vec<OwnedGame>,
    extras: &Vec<ConfigGameEntry>,
) -> (r: Vec<IndiegalaGame>)
    ensures
        indie_views(r@) == owned@.map_values(|o: OwnedGame| owned_entry(table@, installed@, extras@, o)),
{
    let ghost target = owned@.map_values(|o: OwnedGame| owned_entry(table@, installed@, extras@, o));
    let mut out: Vec<IndiegalaGame> = Vec::new();
    let mut i: usize = 0;
    while i < owned.len()
        invariant
            i <= owned.len(),
            target == owned@.map_values(|o: OwnedGame| owned_entry(table@, installed@, extras@, o)),
            indie_views(out@) == target.take(i as int),
        decreases owned.len() - i,
    {
        let o = &owned[i];
        let g = match installed_index(installed, o.prod_id_key_name.as_str()) {
            Some(k) => copy_indie(&installed[k]),
            None => {
                let (description_raw, tags) = match extra_index(extras, o.prod_slugged_name.as_str()) {
                    Some(j) => (copy_opt(&extras[j].description_short), classified(table, &extras[j].tags)),
                    None => (None, None),
                };
                let source = SourceGame {
                    platform: copy_string("Indie"),
                    platform_game_id: o.prod_id_key_name.clone(),
                    name: Some(o.prod_name.clone()),
                    installed: false,
                    executable_path: None,
                    install_path: None,
                    playtime_minutes: None,
                    last_played: None,
                };
                IndiegalaGame { source, description_raw, tags }
            },
        };
        proof {
            reveal_strlit("Indie");
        }
        assert(indie_view(g) == target[i as int]);
        let ghost before = out@;
        out.push(g);
        assert(out@ == before.push(g));
        assert(indie_views(out@) =~= indie_views(before).push(indie_view(g)));
        assert(indie_views(out@) =~= target.take(i + 1));
        i = i + 1;
    }
    assert(target.take(owned.len() as int) =~= target);
    out
}

} // verus!
