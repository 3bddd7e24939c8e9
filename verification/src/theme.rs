//! The colours of a diagram taken from an editor theme.
//!
//! A theme holds a `type` (such as `"dark"`) and a table of named colours.
//! Each of the three colours of a diagram is looked up along its own chain of
//! names; the first name that the theme holds gives the colour's text, which
//! is read as `#RGB`, `#RRGGBB` or `#RRGGBBAA`. When no name is held, or the
//! text is not such a colour, the colour falls back to a default that depends
//! on whether the theme is dark (a theme without a type counts as dark).

use vstd::prelude::*;

use crate::color::{hex_color_of, hex_color_panics, hex_color_would_panic, parse_hex_color};
use crate::error::SeqDiagError;
use crate::json::{
    json_error_text, json_get, json_get_exec, json_of, parse_json, string_members,
    string_members_exec, JsonValue,
};

verus! {

/// What a theme says about colours: its type, and its colour table (the
/// entries whose values are strings), as plain values.
pub struct ThemeDoc {
    pub theme_type: Option<String>,
    pub colors: Vec<(String, String)>,
}

/// The mathematical content of a theme.
pub struct ThemeView {
    pub theme_type: Option<Seq<char>>,
    pub colors: Seq<(Seq<char>, Seq<char>)>,
}

impl View for ThemeDoc {
    type V = ThemeView;

    open spec fn view(&self) -> ThemeView {
        ThemeView {
            theme_type: match self.theme_type {
                Some(t) => Some(t@),
                None => None,
            },
            colors: Seq::new(self.colors@.len(), |i: int| (self.colors@[i].0@, self.colors@[i].1@)),
        }
    }
}

/// Foreground, background and note background, as RGBA.
pub struct ThemeColors {
    pub fg: [u8; 4],
    pub bg: [u8; 4],
    pub note_color: [u8; 4],
}

/// The value of the first entry named `key`.
pub open spec fn lookup(colors: Seq<(Seq<char>, Seq<char>)>, key: Seq<char>) -> Option<Seq<char>>
    decreases colors.len(),
{
    if colors.len() == 0 {
        None
    } else if colors[0].0 == key {
        Some(colors[0].1)
    } else {
        lookup(colors.drop_first(), key)
    }
}

/// The value of the first of `keys` that the table holds.
pub open spec fn first_found(colors: Seq<(Seq<char>, Seq<char>)>, keys: Seq<Seq<char>>) -> Option<
    Seq<char>,
>
    decreases keys.len(),
{
    if keys.len() == 0 {
        None
    } else {
        match lookup(colors, keys[0]) {
            Some(v) => Some(v),
            None => first_found(colors, keys.drop_first()),
        }
    }
}

/// The colour that the first held name of `keys` gives, or `default`.
pub open spec fn pick_color(
    colors: Seq<(Seq<char>, Seq<char>)>,
    keys: Seq<Seq<char>>,
    default: Seq<u8>,
) -> Seq<u8> {
    match first_found(colors, keys) {
        Some(text) => match hex_color_of(text) {
            Some(c) => c,
            None => default,
        },
        None => default,
    }
}

/// Reading the colour along `keys` takes no slice off a character boundary.
pub open spec fn chain_readable(colors: Seq<(Seq<char>, Seq<char>)>, keys: Seq<Seq<char>>) -> bool {
    match first_found(colors, keys) {
        Some(text) => !hex_color_panics(text),
        None => true,
    }
}

pub open spec fn fg_keys() -> Seq<Seq<char>> {
    seq!["seqdiag.foreground"@, "mermaid.textColor"@, "markdownEditor.text"@, "ui.text"@]
}

pub open spec fn bg_keys() -> Seq<Seq<char>> {
    seq![
        "seqdiag.background"@,
        "mermaid.background"@,
        "markdownEditor.background"@,
        "ui.background"@,
    ]
}

pub open spec fn note_keys() -> Seq<Seq<char>> {
    seq![
        "seqdiag.noteBackground"@,
        "mermaid.sequenceNoteFill"@,
        "wysiwygEditor.blockquoteBackground"@,
    ]
}

/// A theme is dark when its type is `dark`, or when it has no type.
pub open spec fn theme_is_dark(t: ThemeView) -> bool {
    match t.theme_type {
        Some(x) => x == "dark"@,
        None => true,
    }
}

/// The colours of all three chains can be read.
pub open spec fn theme_readable(t: ThemeView) -> bool {
    &&& chain_readable(t.colors, fg_keys())
    &&& chain_readable(t.colors, bg_keys())
    &&& chain_readable(t.colors, note_keys())
}

pub open spec fn theme_fg(t: ThemeView) -> Seq<u8> {
    pick_color(
        t.colors,
        fg_keys(),
        if theme_is_dark(t) {
            seq![0xD4u8, 0xD4, 0xD4, 0xFF]
        } else {
            seq![0x33u8, 0x33, 0x33, 0xFF]
        },
    )
}

pub open spec fn theme_bg(t: ThemeView) -> Seq<u8> {
    pick_color(
        t.colors,
        bg_keys(),
        if theme_is_dark(t) {
            seq![0x1Eu8, 0x1E, 0x1E, 0xFF]
        } else {
            seq![0xFFu8, 0xFF, 0xFF, 0xFF]
        },
    )
}

pub open spec fn theme_note(t: ThemeView) -> Seq<u8> {
    pick_color(
        t.colors,
        note_keys(),
        if theme_is_dark(t) {
            seq![0x33u8, 0x33, 0x33, 0xFF]
        } else {
            seq![0xFFu8, 0xFF, 0xCC, 0xFF]
        },
    )
}

/// The value of the first entry of `colors` named `key`.
fn lookup_exec(colors: &Vec<(String, String)>, key: &String) -> (r: Option<String>)
    ensures
        match r {
            Some(v) => lookup(Seq::new(colors@.len(), |i: int| (colors@[i].0@, colors@[i].1@)), key@)
                == Some(v@),
            None => lookup(Seq::new(colors@.len(), |i: int| (colors@[i].0@, colors@[i].1@)), key@)
                is None,
        },
{
    let ghost all = Seq::new(colors@.len(), |i: int| (colors@[i].0@, colors@[i].1@));
    let mut i: usize = 0;
    assert(all.subrange(0, all.len() as int) =~= all);
    while i < colors.len()
        invariant
            i <= colors@.len(),
            all == Seq::new(colors@.len(), |i: int| (colors@[i].0@, colors@[i].1@)),
            lookup(all, key@) == lookup(all.subrange(i as int, all.len() as int), key@),
        decreases colors@.len() - i,
    {
        let ghost rest = all.subrange(i as int, all.len() as int);
        assert(rest[0] == (colors@[i as int].0@, colors@[i as int].1@));
        if colors[i].0 == *key {
            return Some(colors[i].1.clone());
        }
        assert(rest.drop_first() =~= all.subrange(i + 1, all.len() as int));
        i = i + 1;
    }
    assert(all.subrange(i as int, all.len() as int).len() == 0);
    None
}

/// The value of the first of `keys` that `colors` holds.
fn first_found_exec(colors: &Vec<(String, String)>, keys: &[&str]) -> (r: Option<String>)
    ensures
        ({
            let all = Seq::new(colors@.len(), |i: int| (colors@[i].0@, colors@[i].1@));
            let ks = Seq::new(keys@.len(), |i: int| keys@[i]@);
            match r {
                Some(v) => first_found(all, ks) == Some(v@),
                None => first_found(all, ks) is None,
            }
        }),
{
    let ghost all = Seq::new(colors@.len(), |i: int| (colors@[i].0@, colors@[i].1@));
    let ghost ks = Seq::new(keys@.len(), |i: int| keys@[i]@);
    let mut j: usize = 0;
    assert(ks.subrange(0, ks.len() as int) =~= ks);
    while j < keys.len()
        invariant
            j <= keys@.len(),
            all == Seq::new(colors@.len(), |i: int| (colors@[i].0@, colors@[i].1@)),
            ks == Seq::new(keys@.len(), |i: int| keys@[i]@),
            first_found(all, ks) == first_found(all, ks.subrange(j as int, ks.len() as int)),
        decreases keys@.len() - j,
    {
        let ghost rest = ks.subrange(j as int, ks.len() as int);
        let k = String::from_str(keys[j]);
        assert(rest[0] == k@);
        if let Some(v) = lookup_exec(colors, &k) {
            return Some(v);
        }
        assert(rest.drop_first() =~= ks.subrange(j + 1, ks.len() as int));
        j = j + 1;
    }
    assert(ks.subrange(j as int, ks.len() as int).len() == 0);
    None
}

fn fg_keys_exec() -> (r: &'static [&'static str])
    ensures
        Seq::new(r@.len(), |i: int| r@[i]@) == fg_keys(),
{
    let r: &'static [&'static str] = &[
        "seqdiag.foreground",
        "mermaid.textColor",
        "markdownEditor.text",
        "ui.text",
    ];
    assert(Seq::new(r@.len(), |i: int| r@[i]@) =~= fg_keys());
    r
}

fn bg_keys_exec() -> (r: &'static [&'static str])
    ensures
        Seq::new(r@.len(), |i: int| r@[i]@) == bg_keys(),
{
    let r: &'static [&'static str] = &[
        "seqdiag.background",
        "mermaid.background",
        "markdownEditor.background",
        "ui.background",
    ];
    assert(Seq::new(r@.len(), |i: int| r@[i]@) =~= bg_keys());
    r
}

fn note_keys_exec() -> (r: &'static [&'static str])
    ensures
        Seq::new(r@.len(), |i: int| r@[i]@) == note_keys(),
{
    let r: &'static [&'static str] = &[
        "seqdiag.noteBackground",
        "mermaid.sequenceNoteFill",
        "wysiwygEditor.blockquoteBackground",
    ];
    assert(Seq::new(r@.len(), |i: int| r@[i]@) =~= note_keys());
    r
}

/// The colour along one chain of names, or `default`.
fn pick_color_exec(theme: &ThemeDoc, keys: &[&str], default: [u8; 4]) -> (c: [u8; 4])
    requires
        chain_readable(theme@.colors, Seq::new(keys@.len(), |i: int| keys@[i]@)),
    ensures
        c@ == pick_color(theme@.colors, Seq::new(keys@.len(), |i: int| keys@[i]@), default@),
{
    match first_found_exec(&theme.colors, keys) {
        Some(text) => match parse_hex_color(text.as_str()) {
            Some(c) => c,
            None => default,
        },
        None => default,
    }
}

/// Whether reading a chain's colour would slice its text off a character
/// boundary.
fn chain_would_panic(theme: &ThemeDoc, keys: &[&str]) -> (p: bool)
    ensures
        p == !chain_readable(theme@.colors, Seq::new(keys@.len(), |i: int| keys@[i]@)),
{
    match first_found_exec(&theme.colors, keys) {
        Some(text) => hex_color_would_panic(text.as_str()),
        None => false,
    }
}

/// Whether the theme is dark: its type is `dark`, or it has none.
fn theme_is_dark_exec(theme: &ThemeDoc) -> (d: bool)
    ensures
        d == theme_is_dark(theme@),
{
    match &theme.theme_type {
        Some(t) => *t == String::from_str("dark"),
        None => true,
    }
}

/// Whether reading the theme's colours would slice a colour text off a
/// character boundary (which `extract_colors` excludes).
pub fn theme_would_panic(theme: &ThemeDoc) -> (p: bool)
    ensures
        p == !theme_readable(theme@),
{
    chain_would_panic(theme, fg_keys_exec()) || chain_would_panic(theme, bg_keys_exec())
        || chain_would_panic(theme, note_keys_exec())
}

/// The foreground, background and note colours of a theme.
pub fn extract_colors(theme: &ThemeDoc) -> (c: ThemeColors)
    requires
        theme_readable(theme@),
    ensures
        c.fg@ == theme_fg(theme@),
        c.bg@ == theme_bg(theme@),
        c.note_color@ == theme_note(theme@),
{
    let dark = theme_is_dark_exec(theme);
    let fg_default: [u8; 4] = if dark {
        [0xD4, 0xD4, 0xD4, 0xFF]
    } else {
        [0x33, 0x33, 0x33, 0xFF]
    };
    let bg_default: [u8; 4] = if dark {
        [0x1E, 0x1E, 0x1E, 0xFF]
    } else {
        [0xFF, 0xFF, 0xFF, 0xFF]
    };
    let note_default: [u8; 4] = if dark {
        [0x33, 0x33, 0x33, 0xFF]
    } else {
        [0xFF, 0xFF, 0xCC, 0xFF]
    };
    assert(fg_default@ =~= (if dark {
        seq![0xD4u8, 0xD4, 0xD4, 0xFF]
    } else {
        seq![0x33u8, 0x33, 0x33, 0xFF]
    }));
    assert(bg_default@ =~= (if dark {
        seq![0x1Eu8, 0x1E, 0x1E, 0xFF]
    } else {
        seq![0xFFu8, 0xFF, 0xFF, 0xFF]
    }));
    assert(note_default@ =~= (if dark {
        seq![0x33u8, 0x33, 0x33, 0xFF]
    } else {
        seq![0xFFu8, 0xFF, 0xCC, 0xFF]
    }));
    let fg = pick_color_exec(theme, fg_keys_exec(), fg_default);
    let bg = pick_color_exec(theme, bg_keys_exec(), bg_default);
    let note_color = pick_color_exec(theme, note_keys_exec(), note_default);
    ThemeColors { fg, bg, note_color }
}

/// What a theme's JSON value says about colours: the string under `type`,
/// and the string-valued members of the `colors` object. A value that is
/// not an object says nothing.
pub open spec fn theme_view_of(v: JsonValue) -> ThemeView {
    match v {
        JsonValue::Object(members) => ThemeView {
            theme_type: match json_get(members@, "type"@) {
                Some(JsonValue::Str(t)) => Some(t@),
                _ => None,
            },
            colors: match json_get(members@, "colors"@) {
                Some(JsonValue::Object(cs)) => string_members(cs@),
                _ => Seq::empty(),
            },
        },
        _ => ThemeView { theme_type: None, colors: Seq::empty() },
    }
}

/// The theme that a JSON value describes.
pub fn theme_doc_of(v: &JsonValue) -> (t: ThemeDoc)
    ensures
        t@ == theme_view_of(*v),
{
    match v {
        JsonValue::Object(members) => {
            let type_key = String::from_str("type");
            let colors_key = String::from_str("colors");
            let theme_type = match json_get_exec(members, &type_key) {
                Some(JsonValue::Str(t)) => Some(t.clone()),
                _ => None,
            };
            let colors = match json_get_exec(members, &colors_key) {
                Some(JsonValue::Object(cs)) => string_members_exec(cs),
                _ => Vec::new(),
            };
            let t = ThemeDoc { theme_type, colors };
            assert(t@.colors =~= theme_view_of(*v).colors);
            t
        },
        _ => {
            let t = ThemeDoc { theme_type: None, colors: Vec::new() };
            assert(t@.colors =~= Seq::<(Seq<char>, Seq<char>)>::empty());
            t
        },
    }
}

/// The foreground, background and note colours of a theme given as JSON
/// text; text that is not JSON fails with the parser's message.
pub fn extract_colors_json(theme_json: &str) -> (r: Result<ThemeColors, SeqDiagError>)
    requires
        json_of(theme_json@) matches Some(v) ==> theme_readable(theme_view_of(v)),
    ensures
        json_of(theme_json@) is None ==> (r matches Err(SeqDiagError::ThemeParseFailed { msg })
            && msg@ == json_error_text(theme_json@)),
        json_of(theme_json@) matches Some(v) ==> (r matches Ok(c) && c.fg@ == theme_fg(
            theme_view_of(v),
        ) && c.bg@ == theme_bg(theme_view_of(v)) && c.note_color@ == theme_note(
            theme_view_of(v),
        )),
{
    match parse_json(theme_json) {
        Ok(v) => {
            let doc = theme_doc_of(&v);
            Ok(extract_colors(&doc))
        },
        Err(msg) => Err(SeqDiagError::ThemeParseFailed { msg }),
    }
}

/// The colours of a theme given as JSON text, when reading them does not
/// slice a colour text off a character boundary (`None` when it would); text
/// that is not JSON fails with the parser's message.
pub fn theme_colors_from_json(theme_json: &str) -> (r: Option<Result<ThemeColors, SeqDiagError>>)
    ensures
        r is None <==> (json_of(theme_json@) matches Some(v) && !theme_readable(theme_view_of(v))),
        json_of(theme_json@) is None ==> (r matches Some(Err(SeqDiagError::ThemeParseFailed { msg }))
            && msg@ == json_error_text(theme_json@)),
        json_of(theme_json@) matches Some(v) ==> (theme_readable(theme_view_of(v)) ==> (
        r matches Some(Ok(c)) && c.fg@ == theme_fg(theme_view_of(v)) && c.bg@ == theme_bg(
            theme_view_of(v),
        ) && c.note_color@ == theme_note(theme_view_of(v)))),
{
    match parse_json(theme_json) {
        Ok(v) => {
            let doc = theme_doc_of(&v);
            if theme_would_panic(&doc) {
                None
            } else {
                Some(extract_colors_json(theme_json))
            }
        },
        Err(_) => Some(extract_colors_json(theme_json)),
    }
}

/// The colour that the text `x` gives, or `default` when it is no colour.
pub open spec fn color_or(x: Seq<char>, default: Seq<u8>) -> Seq<u8> {
    match hex_color_of(x) {
        Some(c) => c,
        None => default,
    }
}

proof fn lemma_first_found_3(
    c: Seq<(Seq<char>, Seq<char>)>,
    keys: Seq<Seq<char>>,
    k0: Seq<char>,
    k1: Seq<char>,
    k2: Seq<char>,
)
    requires
        keys == seq![k0, k1, k2],
    ensures
        lookup(c, k0) matches Some(x) ==> first_found(c, keys) == Some(x),
        lookup(c, k0) is None ==> (lookup(c, k1) matches Some(x) ==> first_found(c, keys) == Some(
            x,
        )),
        (lookup(c, k0) is None && lookup(c, k1) is None) ==> (lookup(c, k2) matches Some(x)
            ==> first_found(c, keys) == Some(x)),
        (lookup(c, k0) is None && lookup(c, k1) is None && lookup(c, k2) is None) ==> first_found(
            c,
            keys,
        ) is None,
{
    let a = keys.drop_first();
    let b = a.drop_first();
    let e = b.drop_first();
    assert(a =~= seq![k1, k2]);
    assert(b =~= seq![k2]);
    assert(e =~= Seq::<Seq<char>>::empty());
    assert(first_found(c, e) is None);
    assert(first_found(c, b) == match lookup(c, k2) {
        Some(v) => Some(v),
        None => first_found(c, e),
    });
    assert(first_found(c, a) == match lookup(c, k1) {
        Some(v) => Some(v),
        None => first_found(c, b),
    });
    assert(first_found(c, keys) == match lookup(c, k0) {
        Some(v) => Some(v),
        None => first_found(c, a),
    });
}

proof fn lemma_first_found_4(
    c: Seq<(Seq<char>, Seq<char>)>,
    keys: Seq<Seq<char>>,
    k0: Seq<char>,
    k1: Seq<char>,
    k2: Seq<char>,
    k3: Seq<char>,
)
    requires
        keys == seq![k0, k1, k2, k3],
    ensures
        lookup(c, k0) matches Some(x) ==> first_found(c, keys) == Some(x),
        lookup(c, k0) is None ==> (lookup(c, k1) matches Some(x) ==> first_found(c, keys) == Some(
            x,
        )),
        (lookup(c, k0) is None && lookup(c, k1) is None) ==> (lookup(c, k2) matches Some(x)
            ==> first_found(c, keys) == Some(x)),
        (lookup(c, k0) is None && lookup(c, k1) is None && lookup(c, k2) is None) ==> (lookup(
            c,
            k3,
        ) matches Some(x) ==> first_found(c, keys) == Some(x)),
        (lookup(c, k0) is None && lookup(c, k1) is None && lookup(c, k2) is None && lookup(c, k3)
            is None) ==> first_found(c, keys) is None,
{
    let a = keys.drop_first();
    assert(a =~= seq![k1, k2, k3]);
    lemma_first_found_3(c, a, k1, k2, k3);
    assert(first_found(c, keys) == match lookup(c, k0) {
        Some(v) => Some(v),
        None => first_found(c, a),
    });
}

/// The note colour is read along `seqdiag.noteBackground`, then
/// `mermaid.sequenceNoteFill`, then `wysiwygEditor.blockquoteBackground`:
/// the first of these that the theme holds gives the colour (its default when
/// that text is no colour), and a theme with none of them has the default,
/// `#333333` when dark and `#ffffcc` when light.
pub proof fn law_note_color_chain(t: ThemeView)
    ensures
        ({
            let d = if theme_is_dark(t) {
                seq![0x33u8, 0x33, 0x33, 0xFF]
            } else {
                seq![0xFFu8, 0xFF, 0xCC, 0xFF]
            };
            &&& lookup(t.colors, "seqdiag.noteBackground"@) matches Some(x) ==> theme_note(t)
                == color_or(x, d)
            &&& lookup(t.colors, "seqdiag.noteBackground"@) is None ==> (lookup(
                t.colors,
                "mermaid.sequenceNoteFill"@,
            ) matches Some(x) ==> theme_note(t) == color_or(x, d))
            &&& lookup(t.colors, "seqdiag.noteBackground"@) is None ==> (lookup(
                t.colors,
                "mermaid.sequenceNoteFill"@,
            ) is None ==> (lookup(t.colors, "wysiwygEditor.blockquoteBackground"@) matches Some(x)
                ==> theme_note(t) == color_or(x, d)))
            &&& (lookup(t.colors, "seqdiag.noteBackground"@) is None && lookup(
                t.colors,
                "mermaid.sequenceNoteFill"@,
            ) is None && lookup(t.colors, "wysiwygEditor.blockquoteBackground"@) is None)
                ==> theme_note(t) == d
        }),
{
    lemma_first_found_3(
        t.colors,
        note_keys(),
        "seqdiag.noteBackground"@,
        "mermaid.sequenceNoteFill"@,
        "wysiwygEditor.blockquoteBackground"@,
    );
}

/// The foreground is read along `seqdiag.foreground`, `mermaid.textColor`,
/// `markdownEditor.text`, then `ui.text`: the first of these that the theme
/// holds gives the colour (its default when that text is no colour), and a
/// theme with none of them has the default, `#d4d4d4` when dark and
/// `#333333` when light.
pub proof fn law_fg_color_chain(t: ThemeView)
    ensures
        ({
            let d = if theme_is_dark(t) {
                seq![0xD4u8, 0xD4, 0xD4, 0xFF]
            } else {
                seq![0x33u8, 0x33, 0x33, 0xFF]
            };
            let c = t.colors;
            &&& lookup(c, "seqdiag.foreground"@) matches Some(x) ==> theme_fg(t) == color_or(x, d)
            &&& lookup(c, "seqdiag.foreground"@) is None ==> (lookup(c, "mermaid.textColor"@) matches Some(
                x,
            ) ==> theme_fg(t) == color_or(x, d))
            &&& (lookup(c, "seqdiag.foreground"@) is None && lookup(c, "mermaid.textColor"@) is None)
                ==> (lookup(c, "markdownEditor.text"@) matches Some(x) ==> theme_fg(t) == color_or(
                x,
                d,
            ))
            &&& (lookup(c, "seqdiag.foreground"@) is None && lookup(c, "mermaid.textColor"@) is None
                && lookup(c, "markdownEditor.text"@) is None) ==> (lookup(c, "ui.text"@) matches Some(
                x,
            ) ==> theme_fg(t) == color_or(x, d))
            &&& (lookup(c, "seqdiag.foreground"@) is None && lookup(c, "mermaid.textColor"@) is None
                && lookup(c, "markdownEditor.text"@) is None && lookup(c, "ui.text"@) is None)
                ==> theme_fg(t) == d
        }),
{
    lemma_first_found_4(
        t.colors,
        fg_keys(),
        "seqdiag.foreground"@,
        "mermaid.textColor"@,
        "markdownEditor.text"@,
        "ui.text"@,
    );
}

/// The background is read along `seqdiag.background`, `mermaid.background`,
/// `markdownEditor.background`, then `ui.background`: the first of these that
/// the theme holds gives the colour (its default when that text is no
/// colour), and a theme with none of them has the default, `#1e1e1e` when
/// dark and `#ffffff` when light.
pub proof fn law_bg_color_chain(t: ThemeView)
    ensures
        ({
            let d = if theme_is_dark(t) {
                seq![0x1Eu8, 0x1E, 0x1E, 0xFF]
            } else {
                seq![0xFFu8, 0xFF, 0xFF, 0xFF]
            };
            let c = t.colors;
            &&& lookup(c, "seqdiag.background"@) matches Some(x) ==> theme_bg(t) == color_or(x, d)
            &&& lookup(c, "seqdiag.background"@) is None ==> (lookup(c, "mermaid.background"@) matches Some(
                x,
            ) ==> theme_bg(t) == color_or(x, d))
            &&& (lookup(c, "seqdiag.background"@) is None && lookup(c, "mermaid.background"@) is None)
                ==> (lookup(c, "markdownEditor.background"@) matches Some(x) ==> theme_bg(t)
                == color_or(x, d))
            &&& (lookup(c, "seqdiag.background"@) is None && lookup(c, "mermaid.background"@) is None
                && lookup(c, "markdownEditor.background"@) is None) ==> (lookup(
                c,
                "ui.background"@,
            ) matches Some(x) ==> theme_bg(t) == color_or(x, d))
            &&& (lookup(c, "seqdiag.background"@) is None && lookup(c, "mermaid.background"@) is None
                && lookup(c, "markdownEditor.background"@) is None && lookup(c, "ui.background"@)
                is None) ==> theme_bg(t) == d
        }),
{
    lemma_first_found_4(
        t.colors,
        bg_keys(),
        "seqdiag.background"@,
        "mermaid.background"@,
        "markdownEditor.background"@,
        "ui.background"@,
    );
}

} // verus!
