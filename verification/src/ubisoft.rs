//! Ubisoft Connect: the games listed in the launcher's `configurations` cache, one block
//! per product, with DLC, placeholders and repeats left out.
use vstd::prelude::*;
use crate::launchers::{
    dlc_spec, is_likely_dlc, parse_yaml_string_value, strip_trademark_symbols, strip_trailing_cr,
    without_marks, yaml_value_spec,
};
use crate::text::{
    chars_of, contains_seq, contains_string, contains_vec, ends_with_seq, eq_str, is_ws, lines_of,
    replace_char_seq, trim_end_seq,
    lines_spec, lowercase_of, occurs_at_vec, opt_view, slice_vec, starts_with_seq, string_from,
    string_views, to_lowercase, trim_seq, trim_start_seq, views_of,
};

verus! {

/// A product of the library: its game identifier, display name and main executable
/// relative to its install folder.
pub struct UbisoftEntry {
    pub id: String,
    pub name: String,
    pub exe: Option<String>,
}

pub type EntryView = (Seq<char>, Seq<char>, Option<Seq<char>>);

pub open spec fn entry_views(v: Seq<UbisoftEntry>) -> Seq<EntryView> {
    v.map_values(|e: UbisoftEntry| (e.id@, e.name@, opt_view(e.exe)))
}

/// The reader's state: the block being read (name, id, executable) and what was kept so
/// far with the ids and lower-cased names already used.
pub struct UbiState {
    pub name: Option<Seq<char>>,
    pub id: Option<Seq<char>>,
    pub exe: Option<Seq<char>>,
    pub out: Seq<EntryView>,
    pub ids: Seq<Seq<char>>,
    pub names: Seq<Seq<char>>,
}

/// A block name that only holds a place: empty, `GAMENAME` or `l1` in any case.
pub open spec fn is_placeholder(raw: Seq<char>) -> bool {
    raw.len() == 0 || raw == "GAMENAME"@ || lowercase_of(raw) == "l1"@
}

/// Ends the current block: a block with a non-empty id yields an entry, named by its
/// name (or by its id when the name is a placeholder) without trademark signs, unless it
/// looks like a DLC or its id or lower-cased name was already used.
pub open spec fn flush_spec(st: UbiState) -> UbiState {
    let cleared = UbiState { name: None, id: None, exe: None, ..st };
    match st.id {
        None => cleared,
        Some(id) => if id.len() == 0 {
            cleared
        } else {
            let raw = match st.name {
                Some(n) => n,
                None => Seq::empty(),
            };
            let n = if is_placeholder(raw) {
                id
            } else {
                raw
            };
            let shown = trim_seq(without_marks(n));
            let key = lowercase_of(shown);
            if dlc_spec(n) || st.ids.contains(id) || st.names.contains(key) {
                cleared
            } else {
                UbiState {
                    out: st.out.push((id, shown, st.exe)),
                    ids: st.ids.push(id),
                    names: st.names.push(key),
                    ..cleared
                }
            }
        },
    }
}

/// Path separators.
pub open spec fn is_sep(c: char) -> bool {
    c == '/' || c == '\\'
}

/// The last component of a relative path: what follows its last separator.
pub open spec fn last_component(p: Seq<char>) -> Seq<char> {
    if exists|i: int| 0 <= i < p.len() && is_sep(p[i]) {
        let i = choose|i: int| 0 <= i < p.len() && is_sep(p[i]) && forall|j: int| i < j < p.len() ==> !is_sep(p[j]);
        p.subrange(i + 1, p.len() as int)
    } else {
        p
    }
}

/// Executables of helper tools, by words of their lower-cased file name.
pub open spec fn helper_words() -> Seq<Seq<char>> {
    seq!["updater"@, "editor"@, "launcher"@, "setup"@, "patcher"@]
}

/// A relative executable path names the game's main program: it ends in `.exe` (in any
/// case) and its file name holds none of the helper words.
pub open spec fn main_exe(rel: Seq<char>) -> bool {
    ends_with_seq(lowercase_of(rel), ".exe"@) && !exists|k: int|
        0 <= k < helper_words().len() && contains_seq(lowercase_of(last_component(rel)), #[trigger] helper_words()[k])
}

/// Reading one line (without trailing carriage returns): `version: 2.0` ends a block; a
/// `  name: ` line with a real name ends the block and starts a new one; the first
/// non-empty `    game_identifier: ` sets the id; the first `relative: ` path of a main
/// executable sets the executable.
pub open spec fn line_step(st: UbiState, raw: Seq<char>) -> UbiState {
    let line = strip_trailing_cr(raw);
    if line == "version: 2.0"@ {
        flush_spec(st)
    } else if starts_with_seq(line, "  name: "@) {
        let name = yaml_value_spec(line.subrange(8, line.len() as int));
        if name.len() == 0 || name == "GAMENAME"@ {
            st
        } else {
            UbiState { name: Some(name), ..flush_spec(st) }
        }
    } else if starts_with_seq(line, "    game_identifier: "@) {
        let id = yaml_value_spec(line.subrange(21, line.len() as int));
        if id.len() > 0 && st.id is None {
            UbiState { id: Some(id), ..st }
        } else {
            st
        }
    } else if st.exe is None && starts_with_seq(trim_start_seq(line), "relative: "@) {
        let t = trim_start_seq(line);
        let rel = strip_trailing_cr(trim_seq(t.subrange(10, t.len() as int)));
        if main_exe(rel) {
            UbiState { exe: Some(rel), ..st }
        } else {
            st
        }
    } else {
        st
    }
}

pub open spec fn lines_fold(lines: Seq<Seq<char>>) -> UbiState
    decreases lines.len(),
{
    if lines.len() == 0 {
        UbiState { name: None, id: None, exe: None, out: Seq::empty(), ids: Seq::empty(), names: Seq::empty() }
    } else {
        line_step(lines_fold(lines.drop_last()), lines.last())
    }
}

/// The products of a `configurations` file, in file order.
pub open spec fn configuration_entries_spec(content: Seq<char>) -> Seq<EntryView> {
    flush_spec(lines_fold(lines_spec(content))).out
}

/// The reader's working state.
struct Reader {
    name: Option<String>,
    id: Option<String>,
    exe: Option<String>,
    out: Vec<UbisoftEntry>,
    ids: Vec<String>,
    names: Vec<String>,
}

impl Reader {
    spec fn state(&self) -> UbiState {
        UbiState {
            name: opt_view(self.name),
            id: opt_view(self.id),
            exe: opt_view(self.exe),
            out: entry_views(self.out@),
            ids: string_views(self.ids@),
            names: string_views(self.names@),
        }
    }
}

fn is_placeholder_name(raw: &str) -> (b: bool)
    ensures
        b == is_placeholder(raw@),
{
    if raw.unicode_len() == 0 {
        return true;
    }
    if eq_str(raw, "GAMENAME") {
        return true;
    }
    let l = to_lowercase(raw);
    eq_str(l.as_str(), "l1")
}

fn flush(r: &mut Reader)
    ensures
        final(r).state() == flush_spec(old(r).state()),
{
    let name = r.name.take();
    let exe = r.exe.take();
    let id = match r.id.take() {
        Some(i) => i,
        None => {
            return;
        },
    };
    if id.as_str().unicode_len() == 0 {
        return;
    }
    let raw = match name {
        Some(n) => n,
        None => {
            let e = String::new();
            e
        },
    };
    let n = if is_placeholder_name(raw.as_str()) {
        id.clone()
    } else {
        raw
    };
    if is_likely_dlc(n.as_str()) {
        return;
    }
    let shown = strip_trademark_symbols(n.as_str());
    let key = to_lowercase(shown.as_str());
    if contains_string(&r.ids, id.as_str()) || contains_string(&r.names, key.as_str()) {
        return;
    }
    let ghost before_out = entry_views(r.out@);
    let ghost before_ids = string_views(r.ids@);
    let ghost before_names = string_views(r.names@);
    let ghost ev = (id@, shown@, opt_view(exe));
    r.ids.push(id.clone());
    r.names.push(key);
    r.out.push(UbisoftEntry { id, name: shown, exe });
    assert(entry_views(r.out@) =~= before_out.push(ev));
    assert(string_views(r.ids@) =~= before_ids.push(ev.0));
    assert(string_views(r.names@) =~= before_names.push(lowercase_of(ev.1)));
}

fn helper_word_list() -> (v: Vec<Vec<char>>)
    ensures
        views_of(v@) == helper_words(),
{
    let v = vec![chars_of("updater"), chars_of("editor"), chars_of("launcher"), chars_of("setup"), chars_of("patcher")];
    assert(views_of(v@) =~= helper_words());
    v
}

fn last_component_of(p: &Vec<char>) -> (r: Vec<char>)
    ensures
        r@ == last_component(p@),
{
    let mut i: usize = p.len();
    while i > 0 && !(p[i - 1] == '/' || p[i - 1] == '\\')
        invariant
            i <= p.len(),
            forall|j: int| i <= j < p.len() ==> !is_sep(p@[j]),
        decreases i,
    {
        i = i - 1;
    }
    if i == 0 {
        assert(p@.subrange(0, p@.len() as int) =~= p@);
        return slice_vec(p, 0, p.len());
    }
    proof {
        let c = choose|c: int| 0 <= c < p@.len() && is_sep(p@[c]) && forall|j: int| c < j < p@.len() ==> !is_sep(p@[j]);
        assert(is_sep(p@[i - 1]));
        if c < i - 1 {
            assert(!is_sep(p@[i - 1]));
        }
        if c > i - 1 {
            assert(!is_sep(p@[c]));
        }
    }
    slice_vec(p, i, p.len())
}

fn is_main_exe(rel: &Vec<char>) -> (b: bool)
    ensures
        b == main_exe(rel@),
{
    let lower = chars_of(to_lowercase(string_from(rel).as_str()).as_str());
    let ext = chars_of(".exe");
    if !(ext.len() <= lower.len() && occurs_at_vec(&lower, &ext, lower.len() - ext.len())) {
        return false;
    }
    let file = last_component_of(rel);
    let fl = chars_of(to_lowercase(string_from(&file).as_str()).as_str());
    let words = helper_word_list();
    let mut k: usize = 0;
    while k < words.len()
        invariant
            k <= words.len(),
            views_of(words@) == helper_words(),
            fl@ == lowercase_of(last_component(rel@)),
            forall|j: int| 0 <= j < k ==> !contains_seq(fl@, #[trigger] helper_words()[j]),
        decreases words.len() - k,
    {
        assert(views_of(words@)[k as int] == words@[k as int]@);
        if contains_vec(&fl, &words[k]) {
            return false;
        }
        k = k + 1;
    }
    true
}

fn strip_cr(v: &Vec<char>) -> (r: Vec<char>)
    ensures
        r@ == strip_trailing_cr(v@),
{
    let mut e = v.len();
    assert(v@.subrange(0, e as int) =~= v@);
    while e > 0 && v[e - 1] == '\r'
        invariant
            e <= v.len(),
            strip_trailing_cr(v@) == strip_trailing_cr(v@.subrange(0, e as int)),
        decreases e,
    {
        assert(v@.subrange(0, e as int).drop_last() =~= v@.subrange(0, e - 1));
        e = e - 1;
    }
    slice_vec(v, 0, e)
}

fn trim_start_vec(v: &Vec<char>) -> (r: Vec<char>)
    ensures
        r@ == trim_start_seq(v@),
{
    let n = v.len();
    let mut a: usize = 0;
    assert(v@.subrange(0, n as int) =~= v@);
    while a < n && crate::text::is_whitespace(v[a])
        invariant
            a <= n == v.len(),
            trim_start_seq(v@) == trim_start_seq(v@.subrange(a as int, n as int)),
        decreases n - a,
    {
        assert(v@.subrange(a as int, n as int).drop_first() =~= v@.subrange(a + 1, n as int));
        a = a + 1;
    }
    slice_vec(v, a, n)
}

fn step(r: &mut Reader, raw: &Vec<char>)
    ensures
        final(r).state() == line_step(old(r).state(), raw@),
{
    let line = strip_cr(raw);
    let version = chars_of("version: 2.0");
    let name_key = chars_of("  name: ");
    let id_key = chars_of("    game_identifier: ");
    let rel_key = chars_of("relative: ");
    proof {
        reveal_strlit("  name: ");
        reveal_strlit("    game_identifier: ");
        reveal_strlit("relative: ");
    }
    let is_version = line.len() == version.len() && occurs_at_vec(&line, &version, 0);
    proof {
        assert(line@.subrange(0, line@.len() as int) =~= line@);
    }
    if is_version {
        flush(r);
        return;
    }
    if occurs_at_vec(&line, &name_key, 0) {
        let rest = string_from(&slice_vec(&line, 8, line.len()));
        let name = parse_yaml_string_value(rest.as_str());
        if name.as_str().unicode_len() == 0 || eq_str(name.as_str(), "GAMENAME") {
            return;
        }
        flush(r);
        r.name = Some(name);
        return;
    }
    if occurs_at_vec(&line, &id_key, 0) {
        let rest = string_from(&slice_vec(&line, 21, line.len()));
        let id = parse_yaml_string_value(rest.as_str());
        if id.as_str().unicode_len() > 0 && r.id.is_none() {
            r.id = Some(id);
        }
        return;
    }
    if r.exe.is_none() {
        let t = trim_start_vec(&line);
        if occurs_at_vec(&t, &rel_key, 0) {
            let rest = slice_vec(&t, 10, t.len());
            let (a, b) = crate::text::trim_bounds(&rest);
            let trimmed = slice_vec(&rest, a, b);
            let rel = strip_cr(&trimmed);
            if is_main_exe(&rel) {
                r.exe = Some(string_from(&rel));
            }
        }
    }
}

/// The products listed in the text of the launcher's `configurations` cache, in order:
/// one per block with a game identifier, named by its display name (or its identifier
/// when the name is a placeholder) without trademark signs, with its main executable
/// when the block names one; DLC-like names and repeated ids or names are left out.
pub fn read_configuration_library(content: &str) -> (r: Vec<UbisoftEntry>)
    ensures
        entry_views(r@) == configuration_entries_spec(content@),
{
    let cv = chars_of(content);
    let lines = lines_of(&cv);
    let ghost lv = views_of(lines@);
    let mut reader = Reader { name: None, id: None, exe: None, out: Vec::new(), ids: Vec::new(), names: Vec::new() };
    let mut i: usize = 0;
    assert(lv.take(0) =~= Seq::<Seq<char>>::empty());
    assert(entry_views(reader.out@) =~= Seq::<EntryView>::empty());
    assert(string_views(reader.ids@) =~= Seq::<Seq<char>>::empty());
    assert(string_views(reader.names@) =~= Seq::<Seq<char>>::empty());
    assert(reader.state() == lines_fold(lv.take(0)));
    while i < lines.len()
        invariant
            i <= lines.len(),
            lv == views_of(lines@),
            lv == lines_spec(content@),
            reader.state() == lines_fold(lv.take(i as int)),
        decreases lines.len() - i,
    {
        assert(lv.take(i + 1).drop_last() =~= lv.take(i as int));
        assert(lv.take(i + 1).last() == lines@[i as int]@);
        step(&mut reader, &lines[i]);
        i = i + 1;
    }
    assert(lv.take(lines.len() as int) =~= lv);
    flush(&mut reader);
    reader.out
}


/// The products listed in the bytes of the `configurations` cache, read as UTF-8 with
/// invalid sequences replaced.
pub fn read_configuration_bytes(bytes: &[u8]) -> (r: Vec<UbisoftEntry>)
    ensures
        entry_views(r@) == configuration_entries_spec(crate::protobuf::utf8_lossy(bytes@)),
{
    let text = crate::protobuf::string_from_utf8_lossy(bytes);
    read_configuration_library(text.as_str())
}


/// The Ubisoft Connect source; without the library cache it lists no games.
pub struct UbisoftSource {
    pub include_library_cache: bool,
}

impl UbisoftSource {
    /// The source, reading the library cache or not.
    pub fn new(include_library_cache: bool) -> (r: Self)
        ensures
            r.include_library_cache == include_library_cache,
    {
        UbisoftSource { include_library_cache }
    }
}


/// The state while reading `settings.yaml`: inside the `misc:` block, past its end, and
/// the installation paths found so far.
pub type SettingsState = (bool, bool, Seq<Seq<char>>);

/// Reading one line of `settings.yaml`: `misc:` opens the block; inside it, a line that
/// is neither indented nor empty ends the reading, and a `game_installation_path: ` line
/// gives a path (trimmed, `/` written as `sep`).
pub open spec fn settings_step(st: SettingsState, line: Seq<char>, sep: char) -> SettingsState {
    if st.1 {
        st
    } else if trim_end_seq(line) == "misc:"@ {
        (true, st.1, st.2)
    } else if st.0 {
        if !starts_with_seq(line, " "@) && line.len() > 0 {
            (st.0, true, st.2)
        } else if starts_with_seq(trim_start_seq(line), "game_installation_path: "@) {
            let t = trim_start_seq(line);
            (st.0, st.1, st.2.push(replace_char_seq(trim_seq(t.subrange(24, t.len() as int)), '/', sep)))
        } else {
            st
        }
    } else {
        st
    }
}

pub open spec fn settings_fold(lines: Seq<Seq<char>>, sep: char) -> SettingsState
    decreases lines.len(),
{
    if lines.len() == 0 {
        (false, false, Seq::empty())
    } else {
        settings_step(settings_fold(lines.drop_last(), sep), lines.last(), sep)
    }
}

fn trim_end_vec(v: &Vec<char>) -> (r: Vec<char>)
    ensures
        r@ == trim_end_seq(v@),
{
    let mut e = v.len();
    assert(v@.subrange(0, e as int) =~= v@);
    while e > 0 && crate::text::is_whitespace(v[e - 1])
        invariant
            e <= v.len(),
            trim_end_seq(v@) == trim_end_seq(v@.subrange(0, e as int)),
        decreases e,
    {
        assert(v@.subrange(0, e as int).drop_last() =~= v@.subrange(0, e - 1));
        e = e - 1;
    }
    slice_vec(v, 0, e)
}

/// The game installation paths that `settings.yaml` names in its `misc:` block, in
/// order, with `/` written as `sep`; the launcher uses the first that exists.
pub fn installation_path_candidates(content: &str, sep: char) -> (r: Vec<String>)
    ensures
        string_views(r@) == settings_fold(lines_spec(content@), sep).2,
{
    let cv = chars_of(content);
    let lines = lines_of(&cv);
    let ghost lv = views_of(lines@);
    let misc = chars_of("misc:");
    let key = chars_of("game_installation_path: ");
    proof {
        reveal_strlit("game_installation_path: ");
        reveal_strlit(" ");
    }
    let mut in_misc = false;
    let mut done = false;
    let mut out: Vec<String> = Vec::new();
    let mut i: usize = 0;
    assert(lv.take(0) =~= Seq::<Seq<char>>::empty());
    assert(string_views(out@) =~= Seq::<Seq<char>>::empty());
    while i < lines.len()
        invariant
            i <= lines.len(),
            lv == views_of(lines@),
            lv == lines_spec(content@),
            misc@ == "misc:"@,
            key@ == "game_installation_path: "@,
            key.len() == 24,
            (in_misc, done, string_views(out@)) == settings_fold(lv.take(i as int), sep),
        decreases lines.len() - i,
    {
        assert(lv.take(i + 1).drop_last() =~= lv.take(i as int));
        assert(lv.take(i + 1).last() == lines@[i as int]@);
        let line = &lines[i];
        if !done {
            let te = trim_end_vec(line);
            let is_misc = te.len() == misc.len() && occurs_at_vec(&te, &misc, 0);
            proof {
                assert(te@.subrange(0, te@.len() as int) =~= te@);
            }
            if is_misc {
                in_misc = true;
            } else if in_misc {
                let indented = line.len() > 0 && line[0] == ' ';
                proof {
                    reveal_strlit(" ");
                    if line@.len() > 0 {
                        assert(starts_with_seq(line@, " "@) == (line@[0] == ' ')) by {
                            if line@[0] == ' ' {
                                assert(line@.subrange(0, 1) =~= " "@);
                            }
                            if starts_with_seq(line@, " "@) {
                                assert(line@.subrange(0, 1)[0] == line@[0]);
                                assert(" "@[0] == ' ');
                            }
                        }
                    }
                }
                if !indented && line.len() > 0 {
                    done = true;
                } else {
                    let t = trim_start_vec(line);
                    if occurs_at_vec(&t, &key, 0) {
                        let rest = slice_vec(&t, 24, t.len());
                        let (a, b) = crate::text::trim_bounds(&rest);
                        let trimmed = string_from(&slice_vec(&rest, a, b));
                        let path = crate::ea::replace_char(trimmed.as_str(), '/', sep);
                        let ghost before = string_views(out@);
                        out.push(path);
                        assert(string_views(out@) =~= before.push(path@));
                    }
                }
            }
        }
        i = i + 1;
    }
    assert(lv.take(lines.len() as int) =~= lv);
    out
}


/// What was kept so far matches the used ids and names, and none is used twice.
pub open spec fn kept_inv(st: UbiState) -> bool {
    &&& st.out.len() == st.ids.len()
    &&& st.out.len() == st.names.len()
    &&& forall|k: int| 0 <= k < st.out.len() ==> (#[trigger] st.out[k]).0 == st.ids[k] && lowercase_of(st.out[k].1) == st.names[k]
    &&& forall|a: int, b: int| 0 <= a < b < st.ids.len() ==> (#[trigger] st.ids[a]) != (#[trigger] st.ids[b])
    &&& forall|a: int, b: int| 0 <= a < b < st.names.len() ==> (#[trigger] st.names[a]) != (#[trigger] st.names[b])
}

proof fn lemma_flush_inv(st: UbiState)
    requires
        kept_inv(st),
    ensures
        kept_inv(flush_spec(st)),
{
    let r = flush_spec(st);
    if r.out.len() > st.out.len() {
        let id = st.id->0;
        assert(!st.ids.contains(id));
        assert(r.ids == st.ids.push(id));
        assert forall|a: int, b: int| 0 <= a < b < r.ids.len() implies (#[trigger] r.ids[a]) != (#[trigger] r.ids[b]) by {
            if b == st.ids.len() {
                assert(r.ids[a] == st.ids[a]);
                if st.ids[a] == id {
                    assert(st.ids.contains(id));
                }
            } else {
                assert(r.ids[a] == st.ids[a] && r.ids[b] == st.ids[b]);
            }
        }
        let key = r.names.last();
        assert(r.names == st.names.push(key));
        assert(!st.names.contains(key));
        assert forall|a: int, b: int| 0 <= a < b < r.names.len() implies (#[trigger] r.names[a]) != (#[trigger] r.names[b]) by {
            if b == st.names.len() {
                assert(r.names[a] == st.names[a]);
                if st.names[a] == key {
                    assert(st.names.contains(key));
                }
            } else {
                assert(r.names[a] == st.names[a] && r.names[b] == st.names[b]);
            }
        }
        assert forall|k: int| 0 <= k < r.out.len() implies (#[trigger] r.out[k]).0 == r.ids[k] && lowercase_of(r.out[k].1) == r.names[k] by {
            if k < st.out.len() {
                assert(r.out[k] == st.out[k]);
            }
        }
    }
}

proof fn lemma_fold_inv(lines: Seq<Seq<char>>)
    ensures
        kept_inv(lines_fold(lines)),
    decreases lines.len(),
{
    if lines.len() > 0 {
        let st = lines_fold(lines.drop_last());
        lemma_fold_inv(lines.drop_last());
        lemma_flush_inv(st);
    }
}

/// The products read from a `configurations` file never repeat a game identifier, and
/// never repeat a display name up to letter case.
pub proof fn lemma_configuration_entries_distinct(content: Seq<char>)
    ensures
        forall|a: int, b: int| 0 <= a < b < configuration_entries_spec(content).len() ==>
            (#[trigger] configuration_entries_spec(content)[a]).0 != (#[trigger] configuration_entries_spec(content)[b]).0
            && lowercase_of(configuration_entries_spec(content)[a].1) != lowercase_of(configuration_entries_spec(content)[b].1),
{
    let st = lines_fold(lines_spec(content));
    lemma_fold_inv(lines_spec(content));
    lemma_flush_inv(st);
    let f = flush_spec(st);
    assert forall|a: int, b: int| 0 <= a < b < f.out.len() implies
        (#[trigger] f.out[a]).0 != (#[trigger] f.out[b]).0 && lowercase_of(f.out[a].1) != lowercase_of(f.out[b].1) by {
        assert(f.ids[a] != f.ids[b]);
        assert(f.names[a] != f.names[b]);
    }
}

} // verus!
