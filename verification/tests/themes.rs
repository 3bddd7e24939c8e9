use seqdiagsvg::theme::{extract_colors, theme_would_panic, ThemeDoc};

fn doc(theme_type: Option<&str>, colors: &[(&str, &str)]) -> ThemeDoc {
    ThemeDoc {
        theme_type: theme_type.map(|t| t.to_string()),
        colors: colors.iter().map(|(k, v)| (k.to_string(), v.to_string())).collect(),
    }
}

#[test]
fn dark_defaults() {
    let c = extract_colors(&doc(Some("dark"), &[]));
    assert_eq!(c.fg, [0xD4, 0xD4, 0xD4, 0xFF]);
    assert_eq!(c.bg, [0x1E, 0x1E, 0x1E, 0xFF]);
    assert_eq!(c.note_color, [0x33, 0x33, 0x33, 0xFF]);
    // No type counts as dark.
    let c = extract_colors(&doc(None, &[]));
    assert_eq!(c.bg, [0x1E, 0x1E, 0x1E, 0xFF]);
}

#[test]
fn light_defaults() {
    let c = extract_colors(&doc(Some("light"), &[]));
    assert_eq!(c.fg, [0x33, 0x33, 0x33, 0xFF]);
    assert_eq!(c.bg, [0xFF, 0xFF, 0xFF, 0xFF]);
    assert_eq!(c.note_color, [0xFF, 0xFF, 0xCC, 0xFF]);
}

#[test]
fn first_held_name_wins() {
    let c = extract_colors(&doc(
        Some("light"),
        &[("ui.text", "#010203"), ("mermaid.textColor", "#0a0b0c"), ("ui.background", "#fff")],
    ));
    assert_eq!(c.fg, [0x0A, 0x0B, 0x0C, 0xFF]);
    assert_eq!(c.bg, [0xFF, 0xFF, 0xFF, 0xFF]);
}

#[test]
fn unreadable_colour_falls_back_to_default_without_trying_next_name() {
    let c = extract_colors(&doc(
        Some("light"),
        &[("seqdiag.foreground", "nonsense"), ("ui.text", "#010203")],
    ));
    assert_eq!(c.fg, [0x33, 0x33, 0x33, 0xFF]);
}

#[test]
fn note_colour_chain() {
    let c = extract_colors(&doc(
        Some("dark"),
        &[("wysiwygEditor.blockquoteBackground", "#11223344")],
    ));
    assert_eq!(c.note_color, [0x11, 0x22, 0x33, 0x44]);
}

#[test]
fn theme_panic_check() {
    assert!(theme_would_panic(&doc(None, &[("ui.text", "é1")])));
    assert!(!theme_would_panic(&doc(None, &[("ui.text", "#123")])));
}

fn colors_of(json: &str) -> Result<([u8; 4], [u8; 4], [u8; 4]), String> {
    match seqdiagsvg::theme::theme_colors_from_json(json) {
        Some(Ok(c)) => Ok((c.fg, c.bg, c.note_color)),
        Some(Err(e)) => Err(e.to_string()),
        None => panic!("would slice a colour off a character boundary"),
    }
}

#[test]
fn json_theme_without_type_is_dark() {
    assert_eq!(
        colors_of("{}"),
        Ok(([0xD4, 0xD4, 0xD4, 0xFF], [0x1E, 0x1E, 0x1E, 0xFF], [0x33, 0x33, 0x33, 0xFF]))
    );
}

#[test]
fn json_light_theme_defaults() {
    assert_eq!(
        colors_of(r#"{"type":"light"}"#),
        Ok(([0x33, 0x33, 0x33, 0xFF], [0xFF, 0xFF, 0xFF, 0xFF], [0xFF, 0xFF, 0xCC, 0xFF]))
    );
}

#[test]
fn json_text_that_is_not_json_fails() {
    match colors_of("not json") {
        Err(msg) => assert!(msg.starts_with("Theme parse failed: "), "{msg}"),
        Ok(_) => panic!("expected a theme parse error"),
    }
}

#[test]
fn json_theme_colours_follow_their_chains() {
    let json = r##"{"type":"light","colors":{"mermaid.textColor":"#102030","ui.background":"#abc","seqdiag.noteBackground":7,"wysiwygEditor.blockquoteBackground":"#11223344"}}"##;
    assert_eq!(
        colors_of(json),
        Ok(([0x10, 0x20, 0x30, 0xFF], [0xAA, 0xBB, 0xCC, 0xFF], [0x11, 0x22, 0x33, 0x44]))
    );
}

#[test]
fn json_value_that_is_not_an_object_says_nothing() {
    assert_eq!(
        colors_of("[1, 2]"),
        Ok(([0xD4, 0xD4, 0xD4, 0xFF], [0x1E, 0x1E, 0x1E, 0xFF], [0x33, 0x33, 0x33, 0xFF]))
    );
}
