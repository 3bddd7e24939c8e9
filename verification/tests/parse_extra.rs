use seqdiagsvg::parse::{parse_arrow, parse_frame_kind};
use seqdiagsvg::text::unescape_text;
use seqdiagsvg::{
    parse_document, resolve_actors, ActivationModifier, Arrow, FrameKind, HeadStyle, LineStyle,
    NotePosition, SeqDiagramError, Statement,
};

#[test]
fn parse_error_names_line_and_text() {
    match parse_document("A->B: x\n\n  nonsense here  ") {
        Err(SeqDiagramError::Parse(msg)) => {
            assert_eq!(msg, "line 3: unrecognised statement: nonsense here")
        }
        other => panic!("unexpected {:?}", other),
    }
}

#[test]
fn error_to_string_prefixes_kind() {
    let e = SeqDiagramError::Parse("bad".to_string());
    assert_eq!(e.to_string(), "Parse error: bad");
    let e = SeqDiagramError::Font("missing".to_string());
    assert_eq!(e.to_string(), "Font error: missing");
}

#[test]
fn keywords_ignore_ascii_case() {
    let doc = parse_document("TITLE Hello\nParticipant Alice AS A\nALT x\nEnd").unwrap();
    assert!(matches!(&doc.statements[0], Statement::Title(t) if t == "Hello"));
    match &doc.statements[1] {
        Statement::Participant { actor, alias } => {
            assert_eq!(actor, "Alice");
            assert_eq!(alias.as_deref(), Some("A"));
        }
        _ => panic!("expected Participant"),
    }
    assert!(matches!(&doc.statements[2], Statement::FrameOpen { kind: FrameKind::Alt, .. }));
    assert!(matches!(&doc.statements[3], Statement::FrameEnd));
}

#[test]
fn escaped_newlines_in_texts() {
    let doc = parse_document("A->B: one\\ntwo\nnote over A: x\\ny\ntitle: a\\nb").unwrap();
    match &doc.statements[0] {
        Statement::Message { text, .. } => assert_eq!(text, "one\ntwo"),
        _ => panic!("expected Message"),
    }
    match &doc.statements[1] {
        Statement::Note { text, .. } => assert_eq!(text, "x\ny"),
        _ => panic!("expected Note"),
    }
    assert!(matches!(&doc.statements[2], Statement::Title(t) if t == "a\nb"));
    assert_eq!(unescape_text("a\\\\nb"), "a\\\nb");
}

#[test]
fn message_without_text_and_large_delay() {
    let doc = parse_document("A -> B\nA->(300)B: late").unwrap();
    match &doc.statements[0] {
        Statement::Message { from, to, text, .. } => {
            assert_eq!(from, "A");
            assert_eq!(to, "B");
            assert_eq!(text, "");
        }
        _ => panic!("expected Message"),
    }
    match &doc.statements[1] {
        Statement::Message { delay, to, .. } => {
            assert_eq!(*delay, None);
            assert_eq!(to, "B");
        }
        _ => panic!("expected Message"),
    }
}

#[test]
fn hyphenated_actor_names() {
    let doc = parse_document("Web-Server->DB: query").unwrap();
    match &doc.statements[0] {
        Statement::Message { from, to, .. } => {
            assert_eq!(from, "Web-Server");
            assert_eq!(to, "DB");
        }
        _ => panic!("expected Message"),
    }
}

#[test]
fn lines_that_match_no_form_fail() {
    assert!(parse_document("participant").is_err());
    assert!(parse_document("activate").is_err());
    assert!(parse_document("A->: x").is_err());
    assert!(parse_document("note over : x").is_err());
    assert!(parse_document("x: A->B").is_err());
}

#[test]
fn keyword_prefix_of_an_actor_name_is_a_message() {
    let doc = parse_document("note taker->B: x").unwrap();
    match &doc.statements[0] {
        Statement::Message { from, .. } => assert_eq!(from, "note taker"),
        _ => panic!("expected Message"),
    }
}

#[test]
fn note_forms() {
    let doc = parse_document("note over A,B\nnote left of A").unwrap();
    match &doc.statements[0] {
        Statement::Note { position, text } => {
            assert_eq!(position, &NotePosition::OverBetween("A".into(), "B".into()));
            assert_eq!(text, "");
        }
        _ => panic!("expected Note"),
    }
    match &doc.statements[1] {
        Statement::Note { position, .. } => assert_eq!(position, &NotePosition::LeftOf("A".into())),
        _ => panic!("expected Note"),
    }
}

#[test]
fn arrows_and_frame_keywords() {
    assert_eq!(parse_arrow("-->>"), Arrow { line_style: LineStyle::Dashed, head_style: HeadStyle::Closed });
    assert_eq!(parse_arrow("->>"), Arrow { line_style: LineStyle::Solid, head_style: HeadStyle::Closed });
    assert_eq!(parse_arrow("??"), Arrow { line_style: LineStyle::Solid, head_style: HeadStyle::Open });
    assert_eq!(parse_frame_kind("LOOP"), FrameKind::Loop);
    assert_eq!(parse_frame_kind("critical"), FrameKind::Critical);
    assert_eq!(parse_frame_kind("whatever"), FrameKind::Opt);
    for k in [FrameKind::Alt, FrameKind::Opt, FrameKind::Loop, FrameKind::Par, FrameKind::Critical, FrameKind::Break] {
        assert_eq!(parse_frame_kind(&k.to_string()), k);
    }
    assert_eq!(FrameKind::Break.to_string(), "break");
}

#[test]
fn frame_keywords_lowercase_by_unicode() {
    // U+212A KELVIN SIGN lowercases to `k`.
    assert_eq!(parse_frame_kind("brea\u{212A}"), FrameKind::Break);
    assert_eq!(parse_frame_kind("ALT"), FrameKind::Alt);
    assert_eq!(parse_frame_kind("Par"), FrameKind::Par);
    assert_eq!(parse_frame_kind(""), FrameKind::Opt);
}

#[test]
fn documents_concatenate_line_by_line() {
    let a = "title T\nA->B: x";
    let b = "# comment\nB->>A: y";
    let joined = format!("{}\n{}", a, b);
    let da = parse_document(a).unwrap();
    let db = parse_document(b).unwrap();
    let dj = parse_document(&joined).unwrap();
    assert_eq!(dj.statements.len(), da.statements.len() + db.statements.len());
    assert!(matches!(&dj.statements[2], Statement::Message { from, .. } if from == "B"));
}

#[test]
fn actor_list_laws_on_an_example() {
    let doc = parse_document("participant X as A\nparticipant A\nX->B: hi\nactivate C\nB->+A: z").unwrap();
    let actors = resolve_actors(&doc);
    // Declared participants first; "participant A" is taken already, "X" is
    // the display name of A.
    assert_eq!(actors, vec![("A".to_string(), "X".to_string()), ("B".to_string(), "B".to_string()), ("C".to_string(), "C".to_string())]);
    let mut refs: Vec<_> = actors.iter().map(|a| a.0.clone()).collect();
    refs.dedup();
    assert_eq!(refs.len(), actors.len());
    let _ = ActivationModifier::Activate;
}

#[test]
fn crlf_line_endings() {
    let doc = parse_document("A->B: hi\r\nB->A: yo\r\n").unwrap();
    assert_eq!(doc.statements.len(), 2);
    match &doc.statements[0] {
        Statement::Message { text, .. } => assert_eq!(text, "hi"),
        _ => panic!("expected Message"),
    }
}

#[test]
fn undeclared_actors_follow_first_use() {
    let doc = parse_document("participant C as X\nB->A: one\nactivate D\nA->X: two\ndestroy E").unwrap();
    let actors = resolve_actors(&doc);
    let refs: Vec<&str> = actors.iter().map(|p| p.0.as_str()).collect();
    assert_eq!(refs, vec!["X", "B", "A", "D", "E"]);
    assert_eq!(actors[0], ("X".to_string(), "C".to_string()));
    assert_eq!(actors[2], ("A".to_string(), "A".to_string()));
}

#[test]
fn one_statement_per_statement_line() {
    let doc = parse_document("# c\nA->B: x\n\n   \ntitle T\n# d").unwrap();
    assert_eq!(doc.statements.len(), 2);
    match parse_document("A->B: x\n# fine\nnonsense here\nalso bad") {
        Err(e) => assert_eq!(e.to_string(), "Parse error: line 3: unrecognised statement: nonsense here"),
        Ok(_) => panic!("expected an error"),
    }
}
