use extension_audit::dataset::ThreatDataset;
use extension_audit::loader::get_ids;

fn lookup(ds: &ThreatDataset, id: &str) -> Option<String> {
    ds.get(&id.to_string())
}

#[test]
fn later_association_wins() {
    let ds = get_ids("#urlA\nid1\n#urlB\nid2\nid1\n");
    assert_eq!(lookup(&ds, "id1"), Some("urlB".to_string()));
    assert_eq!(lookup(&ds, "id2"), Some("urlB".to_string()));
    assert_eq!(lookup(&ds, "id3"), None);
}

#[test]
fn parsing_is_idempotent() {
    let text = "#urlA\nid1\n#urlB\nid2\nid1\n";
    let first = get_ids(text);
    let second = get_ids(text);
    for id in ["id1", "id2", "absent"] {
        assert_eq!(lookup(&first, id), lookup(&second, id));
    }
}

#[test]
fn blank_and_whitespace_lines_are_ignored() {
    let ds = get_ids("#urlA\n\n  \nid1\n");
    assert_eq!(lookup(&ds, "id1"), Some("urlA".to_string()));
    assert_eq!(lookup(&ds, ""), None);
    assert_eq!(lookup(&ds, "  "), None);
}

#[test]
fn unicode_whitespace_lines_are_ignored_too() {
    let ds = get_ids("#urlA\n\u{0C}\n\u{A0} \u{3000}\nid1\n");
    assert_eq!(lookup(&ds, "id1"), Some("urlA".to_string()));
    assert_eq!(lookup(&ds, "\u{0C}"), None);
    assert_eq!(lookup(&ds, "\u{A0} \u{3000}"), None);
    assert_eq!(lookup(&ds, ""), None);
}

#[test]
fn unicode_whitespace_is_trimmed_from_identifiers() {
    let ds = get_ids("#urlA\n\u{A0}id1\u{2028}\n");
    assert_eq!(lookup(&ds, "id1"), Some("urlA".to_string()));
    assert_eq!(lookup(&ds, "\u{A0}id1\u{2028}"), None);
}

#[test]
fn identifiers_and_urls_are_trimmed() {
    let ds = get_ids("#  http://example.test/page \n  some-id\t\n");
    assert_eq!(lookup(&ds, "some-id"), Some("http://example.test/page".to_string()));
    assert_eq!(lookup(&ds, "  some-id\t"), None);
}

#[test]
fn carriage_return_endings_are_tolerated() {
    let ds = get_ids("#urlA\r\nid1\r\nid2\rid3");
    assert_eq!(lookup(&ds, "id1"), Some("urlA".to_string()));
    assert_eq!(lookup(&ds, "id2"), Some("urlA".to_string()));
    assert_eq!(lookup(&ds, "id3"), Some("urlA".to_string()));
}

#[test]
fn identifiers_before_any_url_get_the_empty_url() {
    let ds = get_ids("early\n#urlA\nid1\n");
    assert_eq!(lookup(&ds, "early"), Some(String::new()));
    assert_eq!(lookup(&ds, "id1"), Some("urlA".to_string()));
}

#[test]
fn empty_text_yields_empty_dataset() {
    let ds = get_ids("");
    assert_eq!(lookup(&ds, "anything"), None);
}

#[test]
fn dataset_insert_overrides_earlier_association() {
    let mut ds = ThreatDataset::new();
    assert_eq!(lookup(&ds, "a"), None);
    ds.insert("a".to_string(), "u1".to_string());
    assert_eq!(lookup(&ds, "a"), Some("u1".to_string()));
    ds.insert("a".to_string(), "u2".to_string());
    assert_eq!(lookup(&ds, "a"), Some("u2".to_string()));
    assert_eq!(lookup(&ds, "u1"), None);
}
