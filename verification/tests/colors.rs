use seqdiagsvg::cli;
use seqdiagsvg::color::{
    color_to_svg, format_opacity, frame_fill_for_depth, hex_color_would_panic, hex_encode,
    parse_hex_color,
};

#[test]
fn theme_color_three_digits_doubles_each() {
    assert_eq!(parse_hex_color("#fff"), Some([0xFF, 0xFF, 0xFF, 0xFF]));
    assert_eq!(parse_hex_color("#1a2"), Some([0x11, 0xAA, 0x22, 0xFF]));
}

#[test]
fn theme_color_six_and_eight_digits() {
    assert_eq!(parse_hex_color("#336699"), Some([0x33, 0x66, 0x99, 0xFF]));
    assert_eq!(parse_hex_color("#11223344"), Some([0x11, 0x22, 0x33, 0x44]));
    assert_eq!(parse_hex_color("AbCdEf"), Some([0xAB, 0xCD, 0xEF, 0xFF]));
}

#[test]
fn theme_color_strips_every_leading_hash() {
    assert_eq!(parse_hex_color("##abc"), Some([0xAA, 0xBB, 0xCC, 0xFF]));
}

#[test]
fn theme_color_rejects_other_lengths_and_digits() {
    assert_eq!(parse_hex_color("#12345"), None);
    assert_eq!(parse_hex_color(""), None);
    assert_eq!(parse_hex_color("#zzzzzz"), None);
    assert_eq!(parse_hex_color("#12345g"), None);
}

#[test]
fn theme_color_field_may_carry_plus_sign() {
    // A colour is hexadecimal digits only: no sign inside a field.
    assert_eq!(parse_hex_color("+f+f+f"), None);
    assert_eq!(parse_hex_color("#+f+f+f"), None);
    assert_eq!(parse_hex_color("+ff"), None);
}

#[test]
fn theme_color_off_boundary_slice_is_detected() {
    assert!(hex_color_would_panic("é1"));
    assert!(!hex_color_would_panic("#abc"));
    assert!(!hex_color_would_panic("é"));
}

#[test]
fn svg_color_opaque_and_translucent() {
    assert_eq!(color_to_svg([0xFF, 0x00, 0x00, 0xFF]), "#ff0000");
    assert_eq!(color_to_svg([0x00, 0x00, 0xFF, 0x80]), "#0000ff\" fill-opacity=\"0.50");
    assert_eq!(color_to_svg([0x12, 0xAB, 0xEF, 0x00]), "#12abef\" fill-opacity=\"0.00");
    assert_eq!(color_to_svg([0xBB, 0xCC, 0xDD, 0x1A]), "#bbccdd\" fill-opacity=\"0.10");
}

#[test]
fn opacity_matches_float_formatting() {
    for a in 0u8..=255 {
        let expected = format!("{:.2}", a as f32 / 255.0);
        assert_eq!(format_opacity(a), expected, "alpha {}", a);
    }
}

#[test]
fn opaque_color_roundtrips_through_svg_text() {
    for c in [[0u8, 0, 0, 255], [0x12, 0xAB, 0xEF, 255], [255, 255, 255, 255]] {
        assert_eq!(parse_hex_color(&color_to_svg(c)), Some(c));
    }
}

#[test]
fn hex_encode_lowercase_pairs() {
    assert_eq!(hex_encode(&[0x0A, 0xFF, 0x00]), "0aff00");
    assert_eq!(hex_encode(&[]), "");
}

#[test]
fn frame_fill_defaults_by_depth() {
    let none = [None; 5];
    assert_eq!(frame_fill_for_depth(&none, 0), [0xFF, 0xFF, 0xFF, 0x00]);
    assert_eq!(frame_fill_for_depth(&none, 2), [0xBB, 0xCC, 0xDD, 0x26]);
    assert_eq!(frame_fill_for_depth(&none, 9), [0xBB, 0xCC, 0xDD, 0x40]);
}

#[test]
fn frame_fill_falls_back_through_shallower_depths() {
    let mut fills = [None; 5];
    fills[1] = Some([1, 2, 3, 4]);
    assert_eq!(frame_fill_for_depth(&fills, 0), [0xFF, 0xFF, 0xFF, 0x00]);
    assert_eq!(frame_fill_for_depth(&fills, 1), [1, 2, 3, 4]);
    assert_eq!(frame_fill_for_depth(&fills, 3), [1, 2, 3, 4]);
    fills[4] = Some([9, 9, 9, 9]);
    assert_eq!(frame_fill_for_depth(&fills, 6), [9, 9, 9, 9]);
}

#[test]
fn cli_color_six_or_eight_digits() {
    assert_eq!(cli::parse_hex_color("333333"), Ok([0x33, 0x33, 0x33, 0xFF]));
    assert_eq!(cli::parse_hex_color("#0066cc"), Ok([0x00, 0x66, 0xCC, 0xFF]));
    assert_eq!(cli::parse_hex_color("ffffff80"), Ok([0xFF, 0xFF, 0xFF, 0x80]));
}

#[test]
fn cli_color_needs_six_or_eight_digits() {
    assert_eq!(
        cli::parse_hex_color("12345"),
        Err("expected 6 or 8 hex digits, got 5".to_string())
    );
    assert_eq!(
        cli::parse_hex_color("1234567"),
        Err("expected 6 or 8 hex digits, got 7".to_string())
    );
    assert_eq!(
        cli::parse_hex_color("a\u{20AC}bc"),
        Err("invalid hex color: invalid digit found in string".to_string())
    );
    assert_eq!(
        cli::parse_hex_color("12345z"),
        Err("invalid hex color: invalid digit found in string".to_string())
    );
    assert_eq!(
        cli::parse_hex_color("+f+f+f"),
        Err("invalid hex color: invalid digit found in string".to_string())
    );
}

#[test]
fn cli_color_errors() {
    assert_eq!(
        cli::parse_hex_color("zz0000"),
        Err("invalid hex color: invalid digit found in string".to_string())
    );
    assert_eq!(
        cli::parse_hex_color("1234"),
        Err("expected 6 or 8 hex digits, got 4".to_string())
    );
    assert_eq!(
        cli::parse_hex_color("#1234567890"),
        Err("expected 6 or 8 hex digits, got 10".to_string())
    );
}
