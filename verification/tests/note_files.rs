use seqdiagsvg::error::SeqDiagError;
use seqdiagsvg::note_files::{
    file_checksum_exec, hyphenate_spaces, is_stale_file, sanitise_theme_name, seqdiag_checksum,
    metadata_path, seqdiag_filename, validate_seqdiag,
};

#[test]
fn checksum_is_first_six_digest_bytes() {
    // SHA-256 of the empty string begins e3b0c44298fc.
    assert_eq!(seqdiag_checksum(""), "e3b0c44298fc");
    // SHA-256 of "abc" begins ba7816bf8f01.
    assert_eq!(seqdiag_checksum("abc"), "ba7816bf8f01");
}

#[test]
fn theme_names_are_lowercased_and_hyphenated() {
    assert_eq!(sanitise_theme_name("My Theme"), "my-theme");
    assert_eq!(sanitise_theme_name("Solarized  Dark"), "solarized--dark");
    assert_eq!(hyphenate_spaces("A b c"), "A-b-c");
}

#[test]
fn file_names_join_checksum_theme_and_format() {
    assert_eq!(seqdiag_filename("", "Dark Theme", "PNG"), "seqdiag_e3b0c44298fc_dark-theme.png");
    assert_eq!(seqdiag_filename("abc", "light", "svg"), "seqdiag_ba7816bf8f01_light.svg");
    assert_eq!(seqdiag_filename("abc", "light", "pdf"), "seqdiag_ba7816bf8f01_light.svg");
}

#[test]
fn validation_reports_parse_errors() {
    assert!(validate_seqdiag("Alice->Bob: hi").is_ok());
    match validate_seqdiag("Alice->Bob: hi\ngarbage") {
        Err(SeqDiagError::ParseFailed { msg }) => {
            assert_eq!(msg, "Parse error: line 2: unrecognised statement: garbage")
        }
        other => panic!("unexpected {:?}", other),
    }
}

#[test]
fn error_messages() {
    let e = SeqDiagError::IoFailed { msg: "disk full".to_string() };
    assert_eq!(e.to_string(), "IO failed: disk full");
    let e = SeqDiagError::ThemeParseFailed { msg: "x".to_string() };
    assert_eq!(e.to_string(), "Theme parse failed: x");
}

#[test]
fn metadata_file_sits_in_the_note_folder() {
    assert_eq!(metadata_path("/notes/n1"), "/notes/n1/metadata.json");
    assert_eq!(metadata_path("/notes/n1/"), "/notes/n1/metadata.json");
    assert_eq!(metadata_path(""), "metadata.json");
}

#[test]
fn checksum_in_file_names() {
    assert_eq!(file_checksum_exec("seqdiag_abc123_dark.png"), Some("abc123".to_string()));
    assert_eq!(file_checksum_exec("seqdiag_abc123.svg"), Some("abc123.svg".to_string()));
    assert_eq!(file_checksum_exec("seqdiag_abc123_dark.jpg"), None);
    assert_eq!(file_checksum_exec("mermaid_abc123_dark.png"), None);
}

#[test]
fn stale_files_are_unknown_and_not_yet_deleted() {
    let valid = vec!["abc123".to_string()];
    let deleted = vec!["seqdiag_old_x.png".to_string()];
    assert!(!is_stale_file("seqdiag_abc123_dark.png", &valid, &deleted));
    assert!(is_stale_file("seqdiag_def456_dark.svg", &valid, &deleted));
    assert!(!is_stale_file("seqdiag_old_x.png", &valid, &deleted));
    assert!(!is_stale_file("notes.md", &valid, &deleted));
}

#[test]
fn file_name_carries_the_checksum() {
    let source = "Alice->Bob: Hello";
    let name = seqdiag_filename(source, "Dark Mode", "PNG");
    assert!(name.ends_with("_dark-mode.png"), "{name}");
    assert_eq!(file_checksum_exec(&name), Some(seqdiag_checksum(source)));
    let checksum = seqdiag_checksum(source);
    assert_eq!(checksum.len(), 12);
    assert!(checksum.chars().all(|c| c.is_ascii_digit() || ('a'..='f').contains(&c)));
}
