//! Rules of the smaller launcher sources: Heroic's installed list, Xbox Gaming Services
//! folders and manifests, IndieGala tags, Ubisoft Connect names.
use vstd::prelude::*;
use vstd::utf8::encode_utf8;
use crate::sources::{join_path, SourceGame, SourceGameView};
use crate::tag_service::{GameTag, TagMetadata};
use crate::text::{
    chars_of, contains_seq, contains_str, contains_vec, copy_string, lowercase_of, opt_view,
    replace_char_seq, string_from, string_views, to_lowercase, trim, trim_seq, views_of,
};

verus! {

// ---------------------------------------------------------------------------
// Heroic
// ---------------------------------------------------------------------------

/// An entry of Heroic's `installed.json`.
pub struct HeroicInstalledGame {
    pub app_name: Option<String>,
    pub title: Option<String>,
    pub install_path: Option<String>,
    pub executable: Option<String>,
}

/// The entry has a title, install path, executable and app name.
pub open spec fn heroic_complete(g: HeroicInstalledGame) -> bool {
    g.app_name is Some && g.title is Some && g.install_path is Some && g.executable is Some
}

/// The game of a complete entry, with its executable at `executable_path`; `None` when a
/// field is missing.
pub fn heroic_game(game: HeroicInstalledGame, executable_path: String) -> (r: Option<SourceGame>)
    ensures
        match r {
            Some(g) => heroic_complete(game) && g@ == SourceGameView {
                platform: "Heroic"@,
                platform_game_id: opt_view(game.app_name)->0,
                name: opt_view(game.title),
                installed: true,
                executable_path: Some(executable_path@),
                install_path: opt_view(game.install_path),
                playtime_minutes: None,
                last_played: None,
            },
            None => !heroic_complete(game),
        },
{
    match (game.title, game.install_path, game.executable, game.app_name) {
        (Some(title), Some(install_path), Some(_), Some(app_name)) => Some(
            SourceGame {
                platform: copy_string("Heroic"),
                platform_game_id: app_name,
                name: Some(title),
                installed: true,
                executable_path: Some(executable_path),
                install_path: Some(install_path),
                playtime_minutes: None,
                last_played: None,
            },
        ),
        _ => None,
    }
}

/// The game of an entry, its executable joined to its install path; `None` when the
/// entry lacks a title, install path, executable or app name.
pub fn map_to_source_game(game: HeroicInstalledGame) -> (r: Option<SourceGame>)
    ensures
        r is Some <==> heroic_complete(game),
        match r {
            Some(g) => g.platform@ == "Heroic"@ && g.platform_game_id@ == opt_view(game.app_name)->0
                && opt_view(g.name) == opt_view(game.title) && g.installed && opt_view(g.install_path)
                == opt_view(game.install_path) && g.executable_path is Some && g.playtime_minutes is None
                && g.last_played is None,
            None => true,
        },
{
    let exe = match (&game.install_path, &game.executable) {
        (Some(p), Some(e)) => join_path(p.as_str(), e.as_str()),
        _ => String::new(),
    };
    heroic_game(game, exe)
}

// ---------------------------------------------------------------------------
// Xbox
// ---------------------------------------------------------------------------

/// The text that UTF-16 code units stand for, when they are valid UTF-16: a unit outside
/// `D800`–`DFFF` is its own character; a high surrogate (`D800`–`DBFF`) followed by a low
/// one (`DC00`–`DFFF`) is the character `10000 + (high - D800) * 400 + (low - DC00)`
/// (hexadecimal); any other surrogate makes the units invalid.
pub open spec fn utf16_decoded(units: Seq<u16>) -> Option<Seq<char>>
    decreases units.len(),
{
    if units.len() == 0 {
        Some(Seq::empty())
    } else if units[0] < 0xD800u16 || units[0] > 0xDFFFu16 {
        match utf16_decoded(units.drop_first()) {
            Some(rest) => Some(seq![(units[0] as u32) as char] + rest),
            None => None,
        }
    } else if units[0] <= 0xDBFFu16 && units.len() >= 2 && 0xDC00u16 <= units[1] && units[1] <= 0xDFFFu16 {
        match utf16_decoded(units.subrange(2, units.len() as int)) {
            Some(rest) => Some(
                seq![((0x10000int + (units[0] - 0xD800int) * 0x400int + (units[1] - 0xDC00int)) as u32) as char] + rest,
            ),
            None => None,
        }
    } else {
        None
    }
}

/// `String::from_utf16`: the text of valid UTF-16 code units, `None` when they are not
/// valid, decoded as the documentation of UTF-16 (and of the function) describes.
#[verifier::external_body]
fn decode_utf16(units: &Vec<u16>) -> (r: Option<String>)
    ensures
        opt_view(r) == utf16_decoded(units@),
{
    String::from_utf16(units).ok()
}

/// Little-endian 16-bit units read from `p[i..]` in pairs, up to a zero unit or the end.
pub open spec fn units_from(p: Seq<u8>, i: int) -> Seq<u16>
    decreases p.len() - i,
{
    if i < 0 || i + 1 >= p.len() {
        Seq::empty()
    } else {
        let u = (p[i] as int + p[i + 1] as int * 256) as u16;
        if u == 0 {
            Seq::empty()
        } else {
            seq![u] + units_from(p, i + 2)
        }
    }
}

/// A `.GamingRoot` file: at least eight bytes starting with `RGBX`.
pub open spec fn gaming_root_header(b: Seq<u8>) -> bool {
    b.len() >= 8 && b[0] == 0x52u8 && b[1] == 0x47u8 && b[2] == 0x42u8 && b[3] == 0x58u8
}

/// The name of the games folder in a `.GamingRoot` file: the UTF-16 text after the
/// eight-byte header, up to a zero unit, when it decodes and is not empty.
pub open spec fn gaming_root_spec(b: Seq<u8>) -> Option<Seq<char>> {
    if !gaming_root_header(b) {
        None
    } else {
        match utf16_decoded(units_from(b.subrange(8, b.len() as int), 0)) {
            Some(s) => if s.len() > 0 {
                Some(s)
            } else {
                None
            },
            None => None,
        }
    }
}

/// The games folder named by the bytes of a `.GamingRoot` file.
pub fn read_gaming_root(bytes: &[u8]) -> (r: Option<String>)
    ensures
        opt_view(r) == gaming_root_spec(bytes@),
{
    if bytes.len() < 8 || bytes[0] != 0x52u8 || bytes[1] != 0x47u8 || bytes[2] != 0x42u8 || bytes[3] != 0x58u8 {
        return None;
    }
    let ghost p = bytes@.subrange(8, bytes@.len() as int);
    let mut units: Vec<u16> = Vec::new();
    let mut i: usize = 8;
    assert(units_from(p, 0) =~= units@ + units_from(p, 0));
    while i < bytes.len() - 1
        invariant
            8 <= i <= bytes.len(),
            p == bytes@.subrange(8, bytes@.len() as int),
            units_from(p, 0) == units@ + units_from(p, i - 8),
        ensures
            units_from(p, 0) == units@,
        decreases bytes.len() - i,
    {
        let lo = bytes[i] as u16;
        let hi = bytes[i + 1] as u16;
        let u: u16 = lo + hi * 256;
        assert(p[i - 8] == bytes@[i as int] && p[i - 7] == bytes@[i + 1]);
        if u == 0 {
            assert(units_from(p, i - 8) =~= Seq::<u16>::empty());
            assert(units@ + Seq::<u16>::empty() =~= units@);
            break;
        }
        let ghost before = units@;
        units.push(u);
        assert(before + units_from(p, i - 8) =~= units@ + units_from(p, i + 2 - 8));
        i = i + 2;
    }
    match decode_utf16(&units) {
        Some(s) => {
            if s.as_str().unicode_len() > 0 {
                Some(s)
            } else {
                None
            }
        },
        None => None,
    }
}

/// An executable of an Xbox game manifest.
pub struct XboxExecutable {
    pub name: String,
    pub override_display_name: Option<String>,
}

/// The fields of `MicrosoftGame.config` the import reads.
pub struct XboxManifest {
    pub identity_name: String,
    pub store_id: Option<String>,
    pub default_display_name: Option<String>,
    pub executables: Option<Vec<XboxExecutable>>,
}

/// A name given, unless it is blank.
pub open spec fn non_blank(o: Option<Seq<char>>) -> Option<Seq<char>> {
    match o {
        Some(s) => if trim_seq(s).len() > 0 {
            Some(s)
        } else {
            None
        },
        None => None,
    }
}

/// The title of an Xbox game: the first executable's display name, else the manifest's
/// display name (neither when blank), else the identity name.
pub open spec fn xbox_title(m: XboxManifest) -> Seq<char> {
    match non_blank(opt_view(m.executables->0@[0].override_display_name)) {
        Some(n) => n,
        None => match non_blank(opt_view(m.default_display_name)) {
            Some(n) => n,
            None => m.identity_name@,
        },
    }
}

/// The manifest lists an executable (a game, not an add-on).
pub open spec fn xbox_is_game(m: XboxManifest) -> bool {
    m.executables is Some && m.executables->0@.len() > 0
}

fn non_blank_copy(o: &Option<String>) -> (r: Option<String>)
    ensures
        opt_view(r) == non_blank(opt_view(*o)),
{
    match o {
        Some(s) => {
            let t = trim(s.as_str());
            if t.as_str().unicode_len() > 0 {
                Some(s.clone())
            } else {
                None
            }
        },
        None => None,
    }
}

/// The game of a manifest found in `content_dir`, its executable at `executable_path`;
/// `None` for an add-on (no executable listed).
pub fn xbox_game(m: &XboxManifest, content_dir: &str, executable_path: String) -> (r: Option<SourceGame>)
    ensures
        match r {
            Some(g) => xbox_is_game(*m) && g@ == SourceGameView {
                platform: "Xbox"@,
                platform_game_id: match opt_view(m.store_id) {
                    Some(s) => s,
                    None => m.identity_name@,
                },
                name: Some(xbox_title(*m)),
                installed: true,
                executable_path: Some(executable_path@),
                install_path: Some(content_dir@),
                playtime_minutes: None,
                last_played: None,
            },
            None => !xbox_is_game(*m),
        },
{
    let exes = match &m.executables {
        Some(e) => e,
        None => {
            return None;
        },
    };
    if exes.len() == 0 {
        return None;
    }
    let name = match non_blank_copy(&exes[0].override_display_name) {
        Some(n) => n,
        None => match non_blank_copy(&m.default_display_name) {
            Some(n) => n,
            None => m.identity_name.clone(),
        },
    };
    let id = match &m.store_id {
        Some(s) => s.clone(),
        None => m.identity_name.clone(),
    };
    Some(
        SourceGame {
            platform: copy_string("Xbox"),
            platform_game_id: id,
            name: Some(name),
            installed: true,
            executable_path: Some(executable_path),
            install_path: Some(copy_string(content_dir)),
            playtime_minutes: None,
            last_played: None,
        },
    )
}

/// The game of the manifest in a game folder's `content_dir`: its first executable joined
/// to the content folder; `None` for an add-on.
pub fn parse_game_folder(m: &XboxManifest, content_dir: &str) -> (r: Option<SourceGame>)
    ensures
        r is Some <==> xbox_is_game(*m),
        match r {
            Some(g) => g.platform@ == "Xbox"@ && g.platform_game_id@ == match opt_view(m.store_id) {
                Some(s) => s,
                None => m.identity_name@,
            } && opt_view(g.name) == Some(xbox_title(*m)) && g.installed && g.executable_path is Some
                && opt_view(g.install_path) == Some(content_dir@) && g.playtime_minutes is None && g.last_played is None,
            None => true,
        },
{
    let exe = match &m.executables {
        Some(e) => if e.len() > 0 {
            join_path(content_dir, e[0].name.as_str())
        } else {
            String::new()
        },
        None => String::new(),
    };
    xbox_game(m, content_dir, exe)
}

// ---------------------------------------------------------------------------
// IndieGala
// ---------------------------------------------------------------------------

/// A tag as a slug: trimmed, lower-cased, spaces as hyphens.
pub open spec fn slug_spec(tag: Seq<char>) -> Seq<char> {
    replace_char_seq(lowercase_of(trim_seq(tag)), ' ', '-')
}

/// A human tag (`3D Platformer`) as the slug the tag table uses (`3d-platformer`).
pub fn slugify_indiegala_tag(tag: &str) -> (r: String)
    ensures
        r@ == slug_spec(tag@),
{
    let t = trim(tag);
    let l = to_lowercase(t.as_str());
    crate::ea::replace_char(l.as_str(), ' ', '-')
}

/// The slugs of a list of tags.
pub open spec fn slugs_of(tags: Seq<Seq<char>>) -> Seq<Seq<char>> {
    tags.map_values(|t: Seq<char>| slug_spec(t))
}

/// The classified tags of an IndieGala game: its tags as slugs, classified and sorted
/// with at most ten kept; `None` when the game has no tags.
pub fn indiegala_tags(table: &Vec<TagMetadata>, tags: &Vec<String>) -> (r: Option<Vec<GameTag>>)
    ensures
        r is None <==> tags.len() == 0,
        match r {
            Some(v) => crate::tag_service::tag_views(v@) == crate::tag_service::truncated(
                crate::tag_service::sort_desc(
                    crate::tags::first_of_each_slug(
                        crate::tag_service::classify_spec(crate::tag_service::meta_views(table@), crate::tags::normalized_all(slugs_of(string_views(tags@)))),
                        crate::tag_service::classify_spec(crate::tag_service::meta_views(table@), crate::tags::normalized_all(slugs_of(string_views(tags@)))).len(),
                    ),
                ),
                10,
            ),
            None => true,
        },
{
    if tags.len() == 0 {
        return None;
    }
    let mut slugs: Vec<String> = Vec::new();
    let mut i: usize = 0;
    while i < tags.len()
        invariant
            i <= tags.len(),
            string_views(slugs@) == slugs_of(string_views(tags@)).take(i as int),
        decreases tags.len() - i,
    {
        let ghost before = string_views(slugs@);
        let s = slugify_indiegala_tag(tags[i].as_str());
        slugs.push(s);
        assert(string_views(slugs@) =~= before.push(slug_spec(tags@[i as int]@)));
        assert(string_views(slugs@) =~= slugs_of(string_views(tags@)).take(i + 1));
        i = i + 1;
    }
    assert(slugs_of(string_views(tags@)).take(tags.len() as int) =~= slugs_of(string_views(tags@)));
    Some(crate::tags::classify_and_sort_tags(table, slugs, 10))
}

// ---------------------------------------------------------------------------
// Ubisoft Connect
// ---------------------------------------------------------------------------

/// The trademark signs `™`, `®` and `©`.
pub open spec fn is_mark(c: char) -> bool {
    c == '\u{2122}' || c == '\u{AE}' || c == '\u{A9}'
}

/// `s` without trademark signs.
pub open spec fn without_marks(s: Seq<char>) -> Seq<char>
    decreases s.len(),
{
    if s.len() == 0 {
        Seq::empty()
    } else if is_mark(s.last()) {
        without_marks(s.drop_last())
    } else {
        without_marks(s.drop_last()).push(s.last())
    }
}

/// A title for display: without `™`, `®` and `©`, trimmed.
pub fn strip_trademark_symbols(s: &str) -> (r: String)
    ensures
        r@ == trim_seq(without_marks(s@)),
{
    let v = chars_of(s);
    let mut out: Vec<char> = Vec::new();
    let mut i: usize = 0;
    assert(v@.take(0) =~= Seq::<char>::empty());
    while i < v.len()
        invariant
            i <= v.len(),
            out@ == without_marks(v@.take(i as int)),
        decreases v.len() - i,
    {
        assert(v@.take(i + 1).drop_last() =~= v@.take(i as int));
        let c = v[i];
        if !(c == '\u{2122}' || c == '\u{AE}' || c == '\u{A9}') {
            out.push(c);
        }
        i = i + 1;
    }
    assert(v@.take(v.len() as int) =~= v@);
    let (a, b) = crate::text::trim_bounds(&out);
    crate::text::string_from_range(&out, a, b)
}

/// `s` without trailing carriage returns.
pub open spec fn strip_trailing_cr(s: Seq<char>) -> Seq<char>
    decreases s.len(),
{
    if s.len() > 0 && s.last() == '\r' {
        strip_trailing_cr(s.drop_last())
    } else {
        s
    }
}

/// `s` without one pair of `q` around it, when it has one (at least two characters).
pub open spec fn unquoted(s: Seq<char>, q: char) -> Option<Seq<char>> {
    if s.len() >= 2 && s[0] == q && s.last() == q {
        Some(s.subrange(1, s.len() - 1))
    } else {
        None
    }
}

/// The value of a YAML field: trimmed, without surrounding double or single quotes,
/// trimmed again.
pub open spec fn yaml_value_spec(s: Seq<char>) -> Seq<char> {
    let t = trim_seq(strip_trailing_cr(trim_seq(s)));
    let u = match unquoted(t, '"') {
        Some(x) => x,
        None => match unquoted(t, '\'') {
            Some(x) => x,
            None => t,
        },
    };
    trim_seq(strip_trailing_cr(trim_seq(u)))
}

fn strip_cr_end(t: &Vec<char>) -> (r: Vec<char>)
    ensures
        r@ == strip_trailing_cr(t@),
{
    let mut e = t.len();
    assert(t@.subrange(0, e as int) =~= t@);
    while e > 0 && t[e - 1] == '\r'
        invariant
            e <= t.len(),
            strip_trailing_cr(t@) == strip_trailing_cr(t@.subrange(0, e as int)),
        decreases e,
    {
        assert(t@.subrange(0, e as int).drop_last() =~= t@.subrange(0, e - 1));
        e = e - 1;
    }
    crate::text::slice_vec(t, 0, e)
}

fn trim_vec(v: &Vec<char>) -> (r: Vec<char>)
    ensures
        r@ == trim_seq(v@),
{
    let (a, b) = crate::text::trim_bounds(v);
    crate::text::slice_vec(v, a, b)
}

fn trim_cr_trim(v: &Vec<char>) -> (r: Vec<char>)
    ensures
        r@ == trim_seq(strip_trailing_cr(trim_seq(v@))),
{
    let t = trim_vec(v);
    let c = strip_cr_end(&t);
    trim_vec(&c)
}

/// The value of a `key: value` line of the launcher's YAML settings, unquoted.
pub fn parse_yaml_string_value(s: &str) -> (r: String)
    ensures
        r@ == yaml_value_spec(s@),
{
    let v = chars_of(s);
    let t = trim_cr_trim(&v);
    let n = t.len();
    let u = if n >= 2 && t[0] == '"' && t[n - 1] == '"' {
        crate::text::slice_vec(&t, 1, n - 1)
    } else if n >= 2 && t[0] == '\'' && t[n - 1] == '\'' {
        crate::text::slice_vec(&t, 1, n - 1)
    } else {
        t
    };
    let r = trim_cr_trim(&u);
    string_from(&r)
}

/// Words that mark an entry as extra content rather than a base game.
pub open spec fn dlc_keywords() -> Seq<Seq<char>> {
    seq![
        "season pass"@, " dlc"@, "demo"@, "add-on"@, "addon"@, "expansion"@, "pre-order"@,
        "preorder"@, "pre order"@, "starter pack"@, " pack"@, "full game"@,
    ]
}

/// An entry is probably a DLC or add-on: at most two bytes long, a `Game - Extra` title,
/// or a lower-cased title containing one of the DLC words.
pub open spec fn dlc_spec(name: Seq<char>) -> bool {
    (encode_utf8(name).len() as usize) <= 2 || contains_seq(name, " - "@) || exists|k: int|
        0 <= k < dlc_keywords().len() && contains_seq(lowercase_of(name), #[trigger] dlc_keywords()[k])
}

fn dlc_keyword_list() -> (v: Vec<Vec<char>>)
    ensures
        views_of(v@) == dlc_keywords(),
{
    let v = vec![
        chars_of("season pass"), chars_of(" dlc"), chars_of("demo"), chars_of("add-on"),
        chars_of("addon"), chars_of("expansion"), chars_of("pre-order"), chars_of("preorder"),
        chars_of("pre order"), chars_of("starter pack"), chars_of(" pack"), chars_of("full game"),
    ];
    assert(views_of(v@) =~= dlc_keywords());
    v
}

/// Whether a Ubisoft library entry is probably a DLC or add-on and not a base game.
pub fn is_likely_dlc(name: &str) -> (b: bool)
    ensures
        b == dlc_spec(name@),
{
    let lower = chars_of(to_lowercase(name).as_str());
    if name.len() <= 2 {
        return true;
    }
    if contains_str(name, " - ") {
        return true;
    }
    let kws = dlc_keyword_list();
    let mut k: usize = 0;
    while k < kws.len()
        invariant
            k <= kws.len(),
            views_of(kws@) == dlc_keywords(),
            lower@ == lowercase_of(name@),
            forall|j: int| 0 <= j < k ==> !contains_seq(lower@, #[trigger] dlc_keywords()[j]),
        decreases kws.len() - k,
    {
        assert(views_of(kws@)[k as int] == kws@[k as int]@);
        if contains_vec(&lower, &kws[k]) {
            return true;
        }
        k = k + 1;
    }
    false
}


/// The Heroic Games Launcher source.
pub struct HeroicSource;

/// The IndieGala client source, reading `installed.json` at the given path (or the
/// client's default one).
pub struct IndiegalaSource {
    pub installed_json_path: Option<String>,
}

impl IndiegalaSource {
    /// The source for an `installed.json` path.
    pub fn new(installed_json_path: Option<String>) -> (r: Self)
        ensures
            opt_view(r.installed_json_path) == opt_view(installed_json_path),
    {
        IndiegalaSource { installed_json_path }
    }
}

/// An IndieGala game with its description and classified tags.
pub struct IndiegalaGame {
    pub source: SourceGame,
    pub description_raw: Option<String>,
    pub tags: Option<Vec<GameTag>>,
}

} // verus!
