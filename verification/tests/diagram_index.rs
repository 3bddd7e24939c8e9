use seqdiagsvg::diagram_index::DiagramIndex;

fn s(x: &str) -> String {
    x.to_string()
}

fn files_of(index: &DiagramIndex, checksum: &str) -> Option<Vec<(String, String)>> {
    index
        .entries()
        .iter()
        .find(|e| e.0 == checksum)
        .map(|e| e.1.clone())
}

#[test]
fn recorded_file_is_listed_under_its_checksum() {
    let mut index = DiagramIndex::new();
    index.record(&s("abc"), &s("dark"), &s("seqdiag_abc_dark.svg"));
    assert_eq!(
        files_of(&index, "abc"),
        Some(vec![(s("dark"), s("seqdiag_abc_dark.svg"))])
    );
}

#[test]
fn recording_a_theme_again_replaces_its_file() {
    let mut index = DiagramIndex::new();
    index.record(&s("abc"), &s("dark"), &s("seqdiag_abc_dark.svg"));
    index.record(&s("abc"), &s("light"), &s("seqdiag_abc_light.svg"));
    index.record(&s("abc"), &s("dark"), &s("seqdiag_abc_dark.png"));
    assert_eq!(index.entries().len(), 1);
    assert_eq!(
        files_of(&index, "abc"),
        Some(vec![
            (s("dark"), s("seqdiag_abc_dark.png")),
            (s("light"), s("seqdiag_abc_light.svg")),
        ])
    );
}

#[test]
fn ensure_entry_adds_an_empty_entry_once() {
    let mut index = DiagramIndex::new();
    index.ensure_entry(&s("abc"));
    index.ensure_entry(&s("abc"));
    assert_eq!(index.entries().len(), 1);
    assert_eq!(files_of(&index, "abc"), Some(vec![]));
    index.record(&s("abc"), &s("dark"), &s("f.svg"));
    index.ensure_entry(&s("abc"));
    assert_eq!(files_of(&index, "abc"), Some(vec![(s("dark"), s("f.svg"))]));
}

#[test]
fn cleanup_removes_entries_not_in_use_in_order() {
    let mut index = DiagramIndex::new();
    index.record(&s("a"), &s("dark"), &s("seqdiag_a_dark.svg"));
    index.record(&s("b"), &s("dark"), &s("seqdiag_b_dark.svg"));
    index.record(&s("c"), &s("light"), &s("seqdiag_c_light.png"));
    let removed = index.remove_stale(&vec![s("b")]);
    let removed_keys: Vec<String> = removed.iter().map(|e| e.0.clone()).collect();
    assert_eq!(removed_keys, vec![s("a"), s("c")]);
    assert_eq!(removed[1].1, vec![(s("light"), s("seqdiag_c_light.png"))]);
    assert_eq!(index.entries().len(), 1);
    assert_eq!(files_of(&index, "b"), Some(vec![(s("dark"), s("seqdiag_b_dark.svg"))]));
    assert_eq!(files_of(&index, "a"), None);
}

#[test]
fn cleanup_with_everything_valid_removes_nothing() {
    let mut index = DiagramIndex::new();
    index.record(&s("a"), &s("dark"), &s("x.svg"));
    let removed = index.remove_stale(&vec![s("a"), s("zzz")]);
    assert!(removed.is_empty());
    assert_eq!(index.entries().len(), 1);
}

#[test]
fn cleanup_of_empty_index() {
    let mut index = DiagramIndex::new();
    assert!(index.remove_stale(&vec![]).is_empty());
    assert!(index.entries().is_empty());
}
