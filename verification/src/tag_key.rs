//! The text form of a tag key (`Category:slug`), under which a profile's tag weights
//! are written out and read back.
use vstd::prelude::*;
use crate::tag_service::TagCategory;
use crate::text::{chars_of, concat_str, eq_str, opt_view, string_from_range};

verus! {

/// A tag as the recommendation profile weighs it: its category and its slug.
pub struct TagKey {
    pub category: TagCategory,
    pub slug: String,
}

/// The text of a key: the category's name, a colon, the slug.
pub open spec fn key_text(category: TagCategory, slug: Seq<char>) -> Seq<char> {
    category.name_spec() + seq![':'] + slug
}

/// The text of `key`, as the profile writes its tag weights (`Theme:horror`).
pub fn tag_key_text(key: &TagKey) -> (r: String)
    ensures
        r@ == key_text(key.category, key.slug@),
{
    let name = key.category.name();
    let colon = ":";
    proof {
        reveal_strlit(":");
    }
    let head = concat_str(name.as_str(), colon);
    let r = concat_str(head.as_str(), key.slug.as_str());
    assert(r@ =~= key_text(key.category, key.slug@));
    r
}

/// The category with the given name, if one has it.
pub open spec fn category_named(n: Seq<char>) -> Option<TagCategory> {
    if n == TagCategory::Mode.name_spec() {
        Some(TagCategory::Mode)
    } else if n == TagCategory::Narrative.name_spec() {
        Some(TagCategory::Narrative)
    } else if n == TagCategory::Theme.name_spec() {
        Some(TagCategory::Theme)
    } else if n == TagCategory::Technical.name_spec() {
        Some(TagCategory::Technical)
    } else if n == TagCategory::Gameplay.name_spec() {
        Some(TagCategory::Gameplay)
    } else if n == TagCategory::Meta.name_spec() {
        Some(TagCategory::Meta)
    } else {
        None
    }
}

fn category_of_name(n: &str) -> (r: Option<TagCategory>)
    ensures
        r == category_named(n@),
{
    if eq_str(n, TagCategory::Mode.name().as_str()) {
        Some(TagCategory::Mode)
    } else if eq_str(n, TagCategory::Narrative.name().as_str()) {
        Some(TagCategory::Narrative)
    } else if eq_str(n, TagCategory::Theme.name().as_str()) {
        Some(TagCategory::Theme)
    } else if eq_str(n, TagCategory::Technical.name().as_str()) {
        Some(TagCategory::Technical)
    } else if eq_str(n, TagCategory::Gameplay.name().as_str()) {
        Some(TagCategory::Gameplay)
    } else if eq_str(n, TagCategory::Meta.name().as_str()) {
        Some(TagCategory::Meta)
    } else {
        None
    }
}

/// The string that the JSON text `"` + `body` + `"` stands for, where that text is a
/// JSON string (escapes resolved).
pub uninterp spec fn json_string_body(body: Seq<char>) -> Option<Seq<char>>;

/// ASCII letters only.
pub open spec fn ascii_letters(s: Seq<char>) -> bool {
    forall|i: int| 0 <= i < s.len() ==> ('a' <= #[trigger] s[i] <= 'z' || 'A' <= s[i] <= 'Z')
}

/// `serde_json::from_str` of `body` between double quotes. The result is named; of it
/// the contract says only that a body of ASCII letters stands for itself (the parser
/// copies every byte that is neither a quote, a backslash nor a control character).
#[verifier::external_body]
fn decode_json_string_body(body: &str) -> (r: Option<String>)
    ensures
        opt_view(r) == json_string_body(body@),
        ascii_letters(body@) ==> opt_view(r) == Some(body@),
{
    serde_json::from_str::<String>(&format!("\"{}\"", body)).ok()
}

/// `s` holds exactly one colon, at `i`.
pub open spec fn sole_colon_at(s: Seq<char>, i: int) -> bool {
    &&& 0 <= i < s.len()
    &&& s[i] == ':'
    &&& forall|j: int| 0 <= j < s.len() && j != i ==> #[trigger] s[j] != ':'
}

/// The key a text stands for: the text must split at a colon into exactly two parts,
/// the first a JSON string body that names a category.
pub open spec fn parse_tag_key_spec(s: Seq<char>) -> Option<(TagCategory, Seq<char>)> {
    if exists|i: int| sole_colon_at(s, i) {
        let i = choose|i: int| sole_colon_at(s, i);
        match json_string_body(s.take(i)) {
            Some(n) => match category_named(n) {
                Some(c) => Some((c, s.skip(i + 1))),
                None => None,
            },
            None => None,
        }
    } else {
        None
    }
}

pub open spec fn key_view(k: Option<TagKey>) -> Option<(TagCategory, Seq<char>)> {
    match k {
        Some(k) => Some((k.category, k.slug@)),
        None => None,
    }
}

proof fn lemma_category_names_are_letters(c: TagCategory)
    ensures
        ascii_letters(c.name_spec()),
        category_named(c.name_spec()) == Some(c),
{
    reveal_strlit("Mode");
    reveal_strlit("Narrative");
    reveal_strlit("Theme");
    reveal_strlit("Technical");
    reveal_strlit("Gameplay");
    reveal_strlit("Meta");
    let names = seq![
        TagCategory::Mode.name_spec(),
        TagCategory::Narrative.name_spec(),
        TagCategory::Theme.name_spec(),
        TagCategory::Technical.name_spec(),
        TagCategory::Gameplay.name_spec(),
        TagCategory::Meta.name_spec(),
    ];
    assert(names[0][0] == 'M' && names[0][1] == 'o');
    assert(names[1][0] == 'N' && names[1][1] == 'a');
    assert(names[2][0] == 'T' && names[2][1] == 'h');
    assert(names[3][0] == 'T' && names[3][1] == 'e');
    assert(names[4][0] == 'G' && names[4][1] == 'a');
    assert(names[5][0] == 'M' && names[5][1] == 'e');
}

/// No colon in `s`.
pub open spec fn colon_free(s: Seq<char>) -> bool {
    forall|j: int| 0 <= j < s.len() ==> #[trigger] s[j] != ':'
}

/// The text of a key whose slug has no colon holds exactly one colon, after the name.
proof fn lemma_key_text_colon(c: TagCategory, slug: Seq<char>)
    requires
        colon_free(slug),
    ensures
        sole_colon_at(key_text(c, slug), c.name_spec().len() as int),
        category_named(c.name_spec()) == Some(c),
        ascii_letters(c.name_spec()),
        key_text(c, slug).take(c.name_spec().len() as int) == c.name_spec(),
        key_text(c, slug).skip(c.name_spec().len() as int + 1) == slug,
{
    lemma_category_names_are_letters(c);
    let s = key_text(c, slug);
    let m = c.name_spec().len() as int;
    assert forall|j: int| 0 <= j < s.len() && j != m implies #[trigger] s[j] != ':' by {
        if j < m {
            assert(s[j] == c.name_spec()[j]);
        } else {
            assert(s[j] == slug[j - m - 1]);
        }
    }
    assert(s.take(m) =~= c.name_spec());
    assert(s.skip(m + 1) =~= slug);
}

/// The key that a text of the profile stands for; `None` where the text is not
/// `Category:slug` with a known category. A text written by `tag_key_text` from a slug
/// without a colon reads back as the same key.
pub fn parse_tag_key(text: &str) -> (r: Option<TagKey>)
    ensures
        key_view(r) == parse_tag_key_spec(text@),
        forall|c: TagCategory, slug: Seq<char>|
            #[trigger] key_text(c, slug) == text@ && colon_free(slug) ==> key_view(r) == Some((c, slug)),
{
    let v = chars_of(text);
    let n = v.len();
    let mut i: usize = 0;
    while i < n && v[i] != ':'
        invariant
            n == v.len(),
            v@ == text@,
            i <= n,
            forall|j: int| 0 <= j < i ==> v@[j] != ':',
        decreases n - i,
    {
        i = i + 1;
    }
    if i == n {
        proof {
            assert(!exists|q: int| sole_colon_at(text@, q));
            assert forall|c: TagCategory, slug: Seq<char>| #[trigger] key_text(c, slug) == text@ && colon_free(slug) implies false by {
                lemma_key_text_colon(c, slug);
            }
        }
        return None;
    }
    let mut k: usize = i + 1;
    while k < n && v[k] != ':'
        invariant
            n == v.len(),
            v@ == text@,
            i < k <= n,
            forall|j: int| i < j < k ==> v@[j] != ':',
        decreases n - k,
    {
        k = k + 1;
    }
    if k < n {
        proof {
            assert(!exists|q: int| sole_colon_at(text@, q)) by {
                if exists|q: int| sole_colon_at(text@, q) {
                    let q = choose|q: int| sole_colon_at(text@, q);
                    assert(text@[i as int] == ':' && text@[k as int] == ':');
                }
            }
            assert forall|c: TagCategory, slug: Seq<char>| #[trigger] key_text(c, slug) == text@ && colon_free(slug) implies false by {
                lemma_key_text_colon(c, slug);
            }
        }
        return None;
    }
    assert(sole_colon_at(text@, i as int));
    proof {
        let q = choose|q: int| sole_colon_at(text@, q);
        assert(q == i);
    }
    let head = string_from_range(&v, 0, i);
    let slug = string_from_range(&v, i + 1, n);
    assert(head@ =~= text@.take(i as int));
    assert(slug@ =~= text@.skip(i + 1));
    proof {
        assert forall|c: TagCategory, s: Seq<char>| #[trigger] key_text(c, s) == text@ && colon_free(s) implies head@ == c.name_spec() && slug@ == s && ascii_letters(head@) && category_named(head@) == Some(c) by {
            lemma_key_text_colon(c, s);
        }
    }
    let decoded = decode_json_string_body(head.as_str());
    match decoded {
        Some(name) => match category_of_name(name.as_str()) {
            Some(c) => Some(TagKey { category: c, slug }),
            None => None,
        },
        None => None,
    }
}

} // verus!
