use seqdiagsvg::svg::{message_marker, write_shadow_filter, SvgPen, TextAnchor};
use seqdiagsvg::HeadStyle;

#[test]
fn pen_writes_commands_in_order() {
    let mut pen = SvgPen::new();
    pen.move_to("1", "2");
    pen.line_to("3.5", "4");
    pen.quad_to("1", "2", "3", "4");
    pen.curve_to("1", "2", "3", "4", "5", "6");
    pen.close();
    assert_eq!(
        pen.finish(),
        Some("M1 2L3.5 4Q1 2 3 4C1 2 3 4 5 6Z".to_string())
    );
}

#[test]
fn pen_with_nothing_drawn_has_no_path() {
    assert_eq!(SvgPen::new().finish(), None);
}

#[test]
fn pen_negative_coordinates() {
    let mut pen = SvgPen::new();
    pen.move_to("-0.5", "-12.25");
    pen.close();
    assert_eq!(pen.finish(), Some("M-0.5 -12.25Z".to_string()));
}

#[test]
fn default_shadow_filter_text() {
    let mut out = String::from("<defs>");
    write_shadow_filter(&mut out, "actor-shadow", "3", "2", "2", [0x00, 0x00, 0x00, 0x80]);
    assert_eq!(
        out,
        [
            "<defs>",
            r#"<filter id="actor-shadow" x="-20%" y="-20%" width="150%" height="150%" color-interpolation-filters="sRGB">"#,
            r#"<feGaussianBlur in="SourceAlpha" stdDeviation="3"/>"#,
            r#"<feOffset dx="2" dy="2" result="offsetblur"/>"#,
            r#"<feFlood flood-color="rgb(0,0,0)" flood-opacity="0.50"/>"#,
            r#"<feComposite in2="offsetblur" operator="in"/>"#,
            r#"<feMerge><feMergeNode/><feMergeNode in="SourceGraphic"/></feMerge>"#,
            "</filter>",
        ]
        .concat()
    );
}

#[test]
fn shadow_filter_colour_and_opacity() {
    let mut out = String::new();
    write_shadow_filter(&mut out, "note-shadow", "1.5", "-1", "0", [255, 16, 7, 255]);
    assert!(out.contains(r#"<feFlood flood-color="rgb(255,16,7)" flood-opacity="1.00"/>"#));
    assert!(out.contains(r#"stdDeviation="1.5""#));
    assert!(out.contains(r#"<feOffset dx="-1" dy="0" result="offsetblur"/>"#));
    assert!(out.starts_with(r#"<filter id="note-shadow""#));
}

#[test]
fn markers_follow_head_style() {
    assert_eq!(message_marker(HeadStyle::Open), "url(#arrow-open)");
    assert_eq!(message_marker(HeadStyle::Closed), "url(#arrow-closed)");
}

#[test]
fn text_anchors_differ() {
    assert_ne!(TextAnchor::Start, TextAnchor::Middle);
}
