use seqdiagsvg::font::{DiagramFont, FontSource};
use seqdiagsvg::SeqDiagramError;

/// A font file with no tables at all.
fn bare_font() -> Vec<u8> {
    vec![0, 1, 0, 0, 0, 0, 0, 0, 0, 0, 0, 0]
}

/// A font file whose only table is a character map that gives `A` glyph 1.
fn font_mapping_a() -> Vec<u8> {
    let mut f = vec![
        0, 1, 0, 0, // sfnt version 1.0
        0, 1, 0, 16, 0, 0, 0, 0, // one table
        b'c', b'm', b'a', b'p', 0, 0, 0, 0, 0, 0, 0, 28, 0, 0, 0, 44, // cmap at 28, 44 bytes
    ];
    f.extend_from_slice(&[
        0, 0, 0, 1, // cmap version 0, one encoding record
        0, 3, 0, 1, 0, 0, 0, 12, // Windows Unicode BMP, subtable at 12
        0, 4, 0, 32, 0, 0, // format 4, length 32, language 0
        0, 4, 0, 4, 0, 1, 0, 0, // two segments
        0, 0x41, 0xFF, 0xFF, // end codes
        0, 0, // reserved
        0, 0x41, 0xFF, 0xFF, // start codes
        0xFF, 0xC0, 0, 1, // deltas: 'A' + delta = 1
        0, 0, 0, 0, // range offsets
    ]);
    f
}

#[test]
fn primary_font_garbage_is_font_error() {
    match DiagramFont::load(vec![0u8, 1, 2, 3]) {
        Err(SeqDiagramError::Font(msg)) => {
            assert!(msg.starts_with("Failed to load primary font: "), "{msg}");
        }
        _ => panic!("expected a font error"),
    }
}

#[test]
fn primary_font_empty_is_font_error() {
    let r = DiagramFont::load(Vec::new());
    assert!(matches!(r, Err(SeqDiagramError::Font(_))));
}

#[test]
fn primary_font_maps_its_characters() {
    let font = DiagramFont::load(font_mapping_a()).ok().expect("the font reads");
    assert_eq!(font.resolve_glyph('A'), Some((1, FontSource::Primary)));
    assert_eq!(font.resolve_glyph('B'), None);
    assert_eq!(font.font_for(FontSource::Primary), font_mapping_a().as_slice());
}

#[test]
fn system_font_supplies_what_the_primary_lacks() {
    let font = DiagramFont::load_with_system_font(bare_font(), "sys.ttf", font_mapping_a())
        .ok()
        .expect("both fonts read");
    assert_eq!(font.resolve_glyph('A'), Some((1, FontSource::System)));
    assert_eq!(font.resolve_glyph('Z'), None);
    assert_eq!(font.font_for(FontSource::System), font_mapping_a().as_slice());
}

#[test]
fn primary_font_wins_over_system_font() {
    let font = DiagramFont::load_with_system_font(font_mapping_a(), "sys.ttf", font_mapping_a())
        .ok()
        .expect("both fonts read");
    assert_eq!(font.resolve_glyph('A'), Some((1, FontSource::Primary)));
}

#[test]
fn invalid_system_font_is_font_error() {
    match DiagramFont::load_with_system_font(font_mapping_a(), "bad.ttf", vec![9, 9, 9]) {
        Err(SeqDiagramError::Font(msg)) => {
            assert!(msg.starts_with("Invalid font bad.ttf: "), "{msg}");
        }
        _ => panic!("expected a font error"),
    }
}

#[test]
fn invalid_primary_is_reported_before_system_font() {
    match DiagramFont::load_with_system_font(vec![1], "sys.ttf", vec![2]) {
        Err(SeqDiagramError::Font(msg)) => {
            assert!(msg.starts_with("Failed to load primary font: "), "{msg}");
        }
        _ => panic!("expected a font error"),
    }
}

#[test]
fn font_sources_are_distinct() {
    assert_ne!(FontSource::Primary, FontSource::System);
    assert_ne!(FontSource::Primary, FontSource::Fallback);
}
