//! Reader theme: a palette of named colours, and its CSS custom properties.
use vstd::prelude::*;

use crate::readwise::{lemma_lex_trans, lex_lt};
use crate::text::{chars_eq, chars_of, extend_str, string_of, str_ends_with, str_eq, ends_with};

verus! {

/// A colour palette: `(name, value)` entries in key order (as read from the
/// theme's TOML table); see [`palette_wf`].
#[derive(Debug, Clone, PartialEq)]
pub struct Palette {
    pub entries: Vec<(String, String)>,
}

pub open spec fn palette_view(p: Palette) -> Seq<(Seq<char>, Seq<char>)> {
    p.entries@.map_values(|e: (String, String)| (e.0@, e.1@))
}

/// A palette is a map: its names are strictly increasing, so each occurs once
/// and the entries come in key order.
pub open spec fn palette_wf(es: Seq<(Seq<char>, Seq<char>)>) -> bool {
    forall|i: int, j: int| 0 <= i < j < es.len() ==> lex_lt(#[trigger] es[i].0, #[trigger] es[j].0)
}

proof fn lemma_wf_from_neighbours(es: Seq<(Seq<char>, Seq<char>)>)
    requires
        forall|i: int| 0 <= i < es.len() - 1 ==> lex_lt(#[trigger] es[i].0, es[i + 1].0),
    ensures
        palette_wf(es),
{
    assert forall|i: int, j: int| 0 <= i < j < es.len() implies lex_lt(#[trigger] es[i].0, #[trigger] es[j].0) by {
        lemma_neighbours_chain(es, i, j);
    }
}

proof fn lemma_neighbours_chain(es: Seq<(Seq<char>, Seq<char>)>, i: int, j: int)
    requires
        forall|k: int| 0 <= k < es.len() - 1 ==> lex_lt(#[trigger] es[k].0, es[k + 1].0),
        0 <= i < j < es.len(),
    ensures
        lex_lt(es[i].0, es[j].0),
    decreases j - i,
{
    if j > i + 1 {
        lemma_neighbours_chain(es, i, j - 1);
        assert(lex_lt(es[j - 1].0, es[j].0));
        lemma_lex_trans(es[i].0, es[j - 1].0, es[j].0);
    }
}

/// The value of the first entry named `key`.
pub open spec fn palette_get(es: Seq<(Seq<char>, Seq<char>)>, key: Seq<char>) -> Option<Seq<char>>
    decreases es.len(),
{
    if es.len() == 0 {
        None
    } else if es[0].0 == key {
        Some(es[0].1)
    } else {
        palette_get(es.drop_first(), key)
    }
}

proof fn lemma_palette_get_scan(es: Seq<(Seq<char>, Seq<char>)>, key: Seq<char>, i: int)
    requires
        0 <= i <= es.len(),
        forall|k: int| 0 <= k < i ==> (#[trigger] es[k]).0 != key,
    ensures
        palette_get(es, key) == palette_get(es.skip(i), key),
    decreases i,
{
    if i > 0 {
        let t = es.drop_first();
        assert forall|k: int| 0 <= k < i - 1 implies (#[trigger] t[k]).0 != key by {
            assert(t[k] == es[k + 1]);
        }
        lemma_palette_get_scan(t, key, i - 1);
        assert(t.skip(i - 1) =~= es.skip(i));
    } else {
        assert(es.skip(0) =~= es);
    }
}

impl Palette {
    /// The colour named `key`, if the palette has one.
    pub fn get(&self, key: &str) -> (r: Option<&String>)
        requires
            palette_wf(palette_view(*self)),
        ensures
            r matches Some(v) ==> palette_get(palette_view(*self), key@) == Some(v@),
            (r is None) <==> (palette_get(palette_view(*self), key@) is None),
    {
        let ghost es = palette_view(*self);
        let kv = chars_of(key);
        let mut i: usize = 0;
        while i < self.entries.len()
            invariant
                i <= self.entries.len(),
                kv@ == key@,
                es == palette_view(*self),
                forall|k: int| 0 <= k < i ==> (#[trigger] es[k]).0 != key@,
            decreases self.entries.len() - i,
        {
            let e = &self.entries[i];
            let ev = chars_of(e.0.as_str());
            if chars_eq(&ev, &kv) {
                proof {
                    lemma_palette_get_scan(es, key@, i as int);
                    assert(es.skip(i as int)[0] == es[i as int]);
                }
                return Some(&e.1);
            }
            i = i + 1;
        }
        proof {
            lemma_palette_get_scan(es, key@, i as int);
        }
        None
    }
}

/// The built-in "reader" palette.
pub open spec fn reader_palette_spec() -> Seq<(Seq<char>, Seq<char>)> {
    seq![
        ("accent"@, "#CF3A2B"@),
        ("byline"@, "#9C3A1B"@),
        ("faint"@, "#9D9C93"@),
        ("heading"@, "#2A2F6B"@),
        ("ink"@, "#1A1A18"@),
        ("muted"@, "#5E6166"@),
        ("navbg"@, "#2A2F6B"@),
        ("navfg"@, "#F4F1E8"@),
        ("paper"@, "#F3F1EA"@),
        ("rule"@, "#E0DDD2"@),
    ]
}

fn entry(k: &str, v: &str) -> (r: (String, String))
    ensures
        r.0@ == k@,
        r.1@ == v@,
{
    (string_of(&chars_of(k)), string_of(&chars_of(v)))
}

/// The built-in palette is a map.
pub proof fn reader_palette_wf()
    ensures
        palette_wf(reader_palette_spec()),
{
    let es = reader_palette_spec();
    reveal_strlit("accent");
    reveal_strlit("byline");
    reveal_strlit("faint");
    reveal_strlit("heading");
    reveal_strlit("ink");
    reveal_strlit("muted");
    reveal_strlit("navbg");
    reveal_strlit("navfg");
    reveal_strlit("paper");
    reveal_strlit("rule");
    reveal_with_fuel(lex_lt, 5);
    assert(lex_lt(es[0].0, es[1].0));
    assert(lex_lt(es[1].0, es[2].0));
    assert(lex_lt(es[2].0, es[3].0));
    assert(lex_lt(es[3].0, es[4].0));
    assert(lex_lt(es[4].0, es[5].0));
    assert(lex_lt(es[5].0, es[6].0));
    assert(lex_lt(es[6].0, es[7].0));
    assert(lex_lt(es[7].0, es[8].0));
    assert(lex_lt(es[8].0, es[9].0));
    lemma_wf_from_neighbours(es);
}

/// The built-in "reader" palette (warm paper, indigo chrome, tomato accent).
pub fn reader_palette() -> (p: Palette)
    ensures
        palette_view(p) == reader_palette_spec(),
        palette_wf(palette_view(p)),
{
    proof {
        reader_palette_wf();
    }
    let mut entries: Vec<(String, String)> = Vec::new();
    entries.push(entry("accent", "#CF3A2B"));
    entries.push(entry("byline", "#9C3A1B"));
    entries.push(entry("faint", "#9D9C93"));
    entries.push(entry("heading", "#2A2F6B"));
    entries.push(entry("ink", "#1A1A18"));
    entries.push(entry("muted", "#5E6166"));
    entries.push(entry("navbg", "#2A2F6B"));
    entries.push(entry("navfg", "#F4F1E8"));
    entries.push(entry("paper", "#F3F1EA"));
    entries.push(entry("rule", "#E0DDD2"));
    let p = Palette { entries };
    assert(palette_view(p) =~= reader_palette_spec());
    p
}

/// Where a theme comes from: the built-in palette, or a TOML file to read.
#[derive(Debug, Clone, PartialEq)]
pub enum ThemeSource {
    Builtin(Palette),
    File(String),
}

#[derive(Debug, Clone, PartialEq)]
pub enum ThemeError {
    /// Neither "reader" nor a path ending in `.toml`.
    Unknown { name: String },
    /// The theme file could not be read.
    NotFound { name: String, reason: String },
    /// The theme file is not a valid palette.
    Invalid { reason: String },
}

/// Resolve a theme name: `"reader"` is built in, a path ending in `.toml` is a
/// file, anything else is unknown.
pub fn theme_source(name_or_path: &str) -> (r: Result<ThemeSource, ThemeError>)
    ensures
        name_or_path@ == "reader"@ ==> (r matches Ok(ThemeSource::Builtin(p)) && palette_view(p)
            == reader_palette_spec() && palette_wf(palette_view(p))),
        name_or_path@ != "reader"@ && ends_with(name_or_path@, ".toml"@) ==> (r matches Ok(
            ThemeSource::File(f),
        ) && f@ == name_or_path@),
        name_or_path@ != "reader"@ && !ends_with(name_or_path@, ".toml"@) ==> (r matches Err(
            ThemeError::Unknown { name },
        ) && name@ == name_or_path@),
{
    if str_eq(name_or_path, "reader") {
        Ok(ThemeSource::Builtin(reader_palette()))
    } else if str_ends_with(name_or_path, ".toml") {
        Ok(ThemeSource::File(string_of(&chars_of(name_or_path))))
    } else {
        Err(ThemeError::Unknown { name: string_of(&chars_of(name_or_path)) })
    }
}

/// The string table a TOML text holds (`key = "value"` pairs, in key
/// order); `None` when the text is not TOML or a value is not a string.
pub uninterp spec fn toml_string_table(text: Seq<char>) -> Option<Seq<(Seq<char>, Seq<char>)>>;

pub open spec fn entries_view(v: Seq<(String, String)>) -> Seq<(Seq<char>, Seq<char>)> {
    v.map_values(|e: (String, String)| (e.0@, e.1@))
}

/// `toml::from_str::<BTreeMap<String, String>>`, then the map's entries.
/// Claims that success and the table depend on the text alone, and that the
/// entries come in strictly increasing key order (a `BTreeMap` iterates its
/// distinct keys sorted, and `String` orders as its characters do). The
/// error text is toml's own and is not stated.
#[verifier::external_body]
fn parse_string_table(text: &str) -> (r: Result<Vec<(String, String)>, String>)
    ensures
        r is Ok <==> toml_string_table(text@) is Some,
        r matches Ok(v) ==> toml_string_table(text@) == Some(entries_view(v@)) && palette_wf(
            entries_view(v@),
        ),
{
    match toml::from_str::<std::collections::BTreeMap<String, String>>(text) {
        Ok(m) => Ok(m.into_iter().collect()),
        Err(e) => Err(e.to_string()),
    }
}

/// The palette a theme file's text describes: its string table, in key
/// order; `Invalid` when the text is not such a table.
pub fn palette_from_file_text(text: &str) -> (r: Result<Palette, ThemeError>)
    ensures
        r is Ok <==> toml_string_table(text@) is Some,
        r matches Ok(p) ==> toml_string_table(text@) == Some(palette_view(p)) && palette_wf(
            palette_view(p),
        ),
        r is Err ==> r matches Err(ThemeError::Invalid { .. }),
{
    match parse_string_table(text) {
        Ok(entries) => {
            let p = Palette { entries };
            assert(palette_view(p) =~= entries_view(p.entries@));
            Ok(p)
        },
        Err(reason) => Err(ThemeError::Invalid { reason }),
    }
}

/// `:root{--k:v;...}` over the palette entries in order.
pub open spec fn css_vars_spec(es: Seq<(Seq<char>, Seq<char>)>) -> Seq<char> {
    ":root{"@ + css_decls(es) + "}"@
}

pub open spec fn css_decls(es: Seq<(Seq<char>, Seq<char>)>) -> Seq<char>
    decreases es.len(),
{
    if es.len() == 0 {
        Seq::empty()
    } else {
        css_decls(es.drop_last()) + "--"@ + es.last().0 + ":"@ + es.last().1 + ";"@
    }
}

/// CSS custom properties for the palette.
pub fn css_vars(theme: &Palette) -> (r: String)
    requires
        palette_wf(palette_view(*theme)),
    ensures
        r@ == css_vars_spec(palette_view(*theme)),
{
    let ghost es = palette_view(*theme);
    let mut v: Vec<char> = Vec::new();
    extend_str(&mut v, ":root{");
    let ghost start = v@;
    let mut i: usize = 0;
    while i < theme.entries.len()
        invariant
            i <= theme.entries.len(),
            es == palette_view(*theme),
            v@ == start + css_decls(es.take(i as int)),
        decreases theme.entries.len() - i,
    {
        let e = &theme.entries[i];
        extend_str(&mut v, "--");
        extend_str(&mut v, e.0.as_str());
        extend_str(&mut v, ":");
        extend_str(&mut v, e.1.as_str());
        extend_str(&mut v, ";");
        i = i + 1;
        assert(es.take(i as int).drop_last() =~= es.take(i - 1));
        assert(v@ =~= start + css_decls(es.take(i as int)));
    }
    assert(es.take(theme.entries.len() as int) =~= es);
    extend_str(&mut v, "}");
    assert(v@ =~= css_vars_spec(es));
    string_of(&v)
}

} // verus!
