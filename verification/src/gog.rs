//! GOG Galaxy: the owned products as library games, the pages of the product listing,
//! and owned games marked installed by the folders of the Galaxy games folder.
use vstd::prelude::*;
use vstd::utf8::encode_utf8;
use crate::ea::InstallFolder;
use crate::sources::{copy_game, SourceGame, SourceGameView};
use crate::text::{copy_string, i64_to_string, signed_decimal, lowercase_of, opt_view, starts_with_seq, starts_with_str, to_lowercase, trim, trim_seq};

verus! {

/// What `char::is_alphanumeric` returns for a character.
pub uninterp spec fn alphanumeric(c: char) -> bool;

/// An ASCII letter or digit.
pub open spec fn ascii_alphanumeric(c: char) -> bool {
    ('a' <= c <= 'z') || ('A' <= c <= 'Z') || ('0' <= c <= '9')
}

/// `char::is_alphanumeric`: whether the character is alphabetic or numeric in Unicode.
/// The result is named; the contract states what it is on ASCII characters (letters and
/// digits) and leaves the other characters to the name.
#[verifier::external_body]
fn is_alphanumeric(c: char) -> (r: bool)
    ensures
        r == alphanumeric(c),
        (c as u32) < 128 ==> (r == ascii_alphanumeric(c)),
{
    c.is_alphanumeric()
}

/// A name as compared: trimmed and lower-cased.
pub open spec fn norm(s: Seq<char>) -> Seq<char> {
    lowercase_of(trim_seq(s))
}

/// What follows the folder's name in the title does not go on with it: the byte of the
/// title's UTF-8 encoding just after the folder name's bytes is missing, or, read as a
/// character, is not alphanumeric.
pub open spec fn boundary_ok(title: Seq<char>, folder: Seq<char>) -> bool {
    let b = encode_utf8(title);
    let k = encode_utf8(folder).len();
    k >= b.len() || !alphanumeric(b[k as int] as char)
}

/// The title is the folder's name, or starts with it up to a boundary.
pub open spec fn folder_matches(title: Seq<char>, folder: Seq<char>) -> bool {
    starts_with_seq(title, folder) && boundary_ok(title, folder)
}

/// The first folder, with a non-empty normalized name, that the normalized title matches.
pub open spec fn first_folder(title: Seq<char>, folders: Seq<InstallFolder>) -> Option<int>
    decreases folders.len(),
{
    if folders.len() == 0 {
        None
    } else {
        match first_folder(title, folders.drop_last()) {
            Some(k) => Some(k),
            None => {
                let f = norm(folders.last().name@);
                if f.len() > 0 && folder_matches(title, f) {
                    Some(folders.len() - 1)
                } else {
                    None
                }
            },
        }
    }
}

/// A game after the scan: a named game whose normalized title matches a folder is
/// installed at the first such folder's path; any other game is unchanged.
pub open spec fn marked(g: SourceGameView, folders: Seq<InstallFolder>) -> SourceGameView {
    match g.name {
        Some(n) => match first_folder(norm(n), folders) {
            Some(k) => SourceGameView { installed: true, install_path: Some(folders[k].path@), ..g },
            None => g,
        },
        None => g,
    }
}

fn matches_folder(title: &str, folder: &str) -> (b: bool)
    ensures
        b == folder_matches(title@, folder@),
{
    if !starts_with_str(title, folder) {
        return false;
    }
    let bytes = title.as_bytes();
    let k = folder.as_bytes().len();
    if k < bytes.len() {
        let c = bytes[k] as char;
        !is_alphanumeric(c)
    } else {
        true
    }
}

fn first_match(title: &str, folders: &Vec<InstallFolder>, normalized: &Vec<String>) -> (r: Option<usize>)
    requires
        normalized.len() == folders.len(),
        forall|i: int| 0 <= i < folders.len() ==> #[trigger] normalized@[i]@ == norm(folders@[i].name@),
    ensures
        match r {
            Some(k) => k < folders.len() && first_folder(title@, folders@) == Some(k as int),
            None => first_folder(title@, folders@) is None,
        },
{
    let mut i: usize = 0;
    while i < folders.len()
        invariant
            i <= folders.len() == normalized.len(),
            forall|j: int| 0 <= j < folders.len() ==> #[trigger] normalized@[j]@ == norm(folders@[j].name@),
            first_folder(title@, folders@.take(i as int)) is None,
        decreases folders.len() - i,
    {
        assert(folders@.take(i + 1).drop_last() =~= folders@.take(i as int));
        assert(folders@.take(i + 1).last() == folders@[i as int]);
        let f = &normalized[i];
        if !f.as_str().is_empty() && matches_folder(title, f.as_str()) {
            proof {
                lemma_first_prefix(title@, folders@, i as int + 1);
            }
            return Some(i);
        }
        proof {
            assert(normalized@[i as int]@ == norm(folders@[i as int].name@));
        }
        i = i + 1;
    }
    assert(folders@.take(folders.len() as int) =~= folders@);
    None
}

/// A first match found in a prefix is the first match of the whole list.
proof fn lemma_first_prefix(title: Seq<char>, folders: Seq<InstallFolder>, n: int)
    requires
        0 <= n <= folders.len(),
        first_folder(title, folders.take(n)) is Some,
    ensures
        first_folder(title, folders) == first_folder(title, folders.take(n)),
    decreases folders.len() - n,
{
    if n < folders.len() {
        assert(folders.take(n + 1).drop_last() =~= folders.take(n));
        lemma_first_prefix(title, folders, n + 1);
    } else {
        assert(folders.take(n) =~= folders);
    }
}

/// Marks as installed the games whose store title matches a folder of the games folder
/// (`folders`, the sub-folders with their names and paths): the title, trimmed and
/// lower-cased, starts with the folder's name, trimmed and lower-cased and not empty,
/// and the title does not go on with an alphanumeric character there. The game gets the
/// first such folder's path; games without a name or a match are left as they are.
pub fn detect_installed_games(games: &mut Vec<SourceGame>, folders: &Vec<InstallFolder>)
    ensures
        final(games)@.len() == old(games)@.len(),
        forall|i: int| 0 <= i < old(games)@.len() ==> #[trigger] final(games)@[i]@ == marked(old(games)@[i]@, folders@),
{
    let mut normalized: Vec<String> = Vec::new();
    let mut j: usize = 0;
    while j < folders.len()
        invariant
            j <= folders.len(),
            normalized.len() == j,
            forall|i: int| 0 <= i < j ==> #[trigger] normalized@[i]@ == norm(folders@[i].name@),
        decreases folders.len() - j,
    {
        let t = trim(folders[j].name.as_str());
        normalized.push(to_lowercase(t.as_str()));
        j = j + 1;
    }
    let ghost old_games = games@;
    let mut i: usize = 0;
    while i < games.len()
        invariant
            i <= games.len() == old_games.len(),
            normalized.len() == folders.len(),
            forall|k: int| 0 <= k < folders.len() ==> #[trigger] normalized@[k]@ == norm(folders@[k].name@),
            forall|k: int| 0 <= k < i ==> #[trigger] games@[k]@ == marked(old_games[k]@, folders@),
            forall|k: int| i <= k < games.len() ==> #[trigger] games@[k] == old_games[k],
        decreases games.len() - i,
    {
        let found = match &games[i].name {
            Some(n) => {
                let t = trim(n.as_str());
                let title = to_lowercase(t.as_str());
                first_match(title.as_str(), folders, &normalized)
            },
            None => None,
        };
        match found {
            Some(k) => {
                let mut g = copy_game(&games[i]);
                g.installed = true;
                g.install_path = Some(folders[k].path.clone());
                games.set(i, g);
            },
            None => {},
        }
        i = i + 1;
    }
}

/// The scan only ever marks games installed: a game keeps its platform, id, name,
/// executable and play data, an installed game stays installed, and a game is marked
/// installed at a folder only when its normalized title starts with that folder's
/// normalized, non-empty name.
pub proof fn lemma_scan_only_marks(g: SourceGameView, folders: Seq<InstallFolder>)
    ensures
        marked(g, folders).platform == g.platform,
        marked(g, folders).platform_game_id == g.platform_game_id,
        marked(g, folders).name == g.name,
        marked(g, folders).executable_path == g.executable_path,
        marked(g, folders).playtime_minutes == g.playtime_minutes,
        marked(g, folders).last_played == g.last_played,
        g.installed ==> marked(g, folders).installed,
        marked(g, folders) != g ==> exists|k: int| 0 <= k < folders.len()
            && marked(g, folders).install_path == Some(#[trigger] folders[k].path@)
            && norm(folders[k].name@).len() > 0
            && starts_with_seq(norm(g.name->0), norm(folders[k].name@)),
{
    match g.name {
        Some(n) => match first_folder(norm(n), folders) {
            Some(k) => {
                lemma_first_folder_found(norm(n), folders);
            },
            None => {},
        },
        None => {},
    }
}

proof fn lemma_first_folder_found(title: Seq<char>, folders: Seq<InstallFolder>)
    ensures
        match first_folder(title, folders) {
            Some(k) => 0 <= k < folders.len() && norm(folders[k].name@).len() > 0 && folder_matches(title, norm(folders[k].name@)),
            None => true,
        },
    decreases folders.len(),
{
    if folders.len() > 0 {
        lemma_first_folder_found(title, folders.drop_last());
        match first_folder(title, folders.drop_last()) {
            Some(k) => {
                assert(folders.drop_last()[k] == folders[k]);
            },
            None => {},
        }
    }
}


/// The library game of an owned product: a GOG game under the product's id, named by its
/// title, not installed.
pub open spec fn product_game_view(id: int, title: Seq<char>) -> SourceGameView {
    SourceGameView {
        platform: "GOG"@,
        platform_game_id: signed_decimal(id),
        name: Some(title),
        installed: false,
        executable_path: None,
        install_path: None,
        playtime_minutes: None,
        last_played: None,
    }
}

/// The library game of an owned product.
pub fn product_game(id: i64, title: String) -> (r: SourceGame)
    ensures
        r@ == product_game_view(id as int, title@),
{
    SourceGame {
        platform: copy_string("GOG"),
        platform_game_id: i64_to_string(id),
        name: Some(title),
        installed: false,
        executable_path: None,
        install_path: None,
        playtime_minutes: None,
        last_played: None,
    }
}

/// The page of the owned-products listing to ask for after `page`, when the listing says
/// it has `total_pages`: the next one while pages are left, else none.
pub fn next_products_page(page: u32, total_pages: u32) -> (r: Option<u32>)
    ensures
        page >= total_pages ==> r is None,
        page < total_pages ==> r == Some((page + 1) as u32),
{
    if page >= total_pages {
        None
    } else {
        Some(page + 1)
    }
}

} // verus!
