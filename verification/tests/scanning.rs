use extension_audit::dataset::ThreatDataset;
use extension_audit::scanner::{classify, scan, ScanOutcome};

fn dataset_with(pairs: &[(&str, &str)]) -> ThreatDataset {
    let mut ds = ThreatDataset::new();
    for (id, url) in pairs {
        ds.insert(id.to_string(), url.to_string());
    }
    ds
}

#[test]
fn flagged_extension_is_reported_with_its_url() {
    let ds = dataset_with(&[("bad1", "http://x")]);
    let ids = vec!["good1".to_string(), "bad1".to_string()];
    let r = classify(&ids, &ds);
    assert_eq!(r.outcome, ScanOutcome::Flagged);
    assert_eq!(r.flagged.len(), 1);
    assert_eq!(r.flagged[0].id, "bad1");
    assert_eq!(r.flagged[0].url, "http://x");
    for f in &r.flagged {
        assert!(f.id != "good1");
    }
}

#[test]
fn flagged_pairs_keep_enumeration_order() {
    let ds = dataset_with(&[("bad1", "http://x"), ("bad2", "http://y")]);
    let ids = vec![
        "bad2".to_string(),
        "good".to_string(),
        "bad1".to_string(),
    ];
    let r = classify(&ids, &ds);
    assert_eq!(r.outcome, ScanOutcome::Flagged);
    assert_eq!(r.flagged.len(), 2);
    assert_eq!(r.flagged[0].id, "bad2");
    assert_eq!(r.flagged[0].url, "http://y");
    assert_eq!(r.flagged[1].id, "bad1");
    assert_eq!(r.flagged[1].url, "http://x");
}

#[test]
fn unflagged_entries_give_nothing_flagged() {
    let ds = dataset_with(&[("bad1", "http://x")]);
    let ids = vec!["good1".to_string(), "good2".to_string()];
    let r = classify(&ids, &ds);
    assert_eq!(r.outcome, ScanOutcome::NothingFlagged);
    assert!(r.flagged.is_empty());
}

#[test]
fn no_entries_give_no_extensions() {
    let ds = dataset_with(&[("bad1", "http://x")]);
    let ids: Vec<String> = Vec::new();
    let r = classify(&ids, &ds);
    assert_eq!(r.outcome, ScanOutcome::NoExtensions);
    assert!(r.flagged.is_empty());
}

#[test]
fn the_three_outcomes_are_distinct() {
    assert_ne!(ScanOutcome::NoExtensions, ScanOutcome::NothingFlagged);
    assert_ne!(ScanOutcome::NoExtensions, ScanOutcome::Flagged);
    assert_ne!(ScanOutcome::NothingFlagged, ScanOutcome::Flagged);
}

#[test]
fn scan_of_profile_without_extensions_dir_reports_no_extensions() {
    let ds = dataset_with(&[("bad1", "http://x")]);
    let profile = tempfile::tempdir().unwrap();
    fs_err::write(profile.path().join("Preferences"), b"{}").unwrap();
    let r = scan(profile.path().to_str().unwrap(), &ds);
    assert_eq!(r.outcome, ScanOutcome::NoExtensions);
    assert!(r.flagged.is_empty());
}

#[test]
fn scan_of_missing_path_reports_no_extensions() {
    let ds = dataset_with(&[("bad1", "http://x")]);
    let r = scan("/no/such/profile/anywhere", &ds);
    assert_eq!(r.outcome, ScanOutcome::NoExtensions);
    assert!(r.flagged.is_empty());
}

#[test]
fn scan_flags_only_known_entries_on_disk() {
    let ds = dataset_with(&[("bad1", "http://x")]);
    let profile = tempfile::tempdir().unwrap();
    fs_err::write(profile.path().join("Preferences"), b"{}").unwrap();
    let ext = profile.path().join("Extensions");
    fs_err::create_dir_all(ext.join("good1")).unwrap();
    fs_err::create_dir_all(ext.join("bad1")).unwrap();
    let r = scan(profile.path().to_str().unwrap(), &ds);
    assert_eq!(r.outcome, ScanOutcome::Flagged);
    assert_eq!(r.flagged.len(), 1);
    assert_eq!(r.flagged[0].id, "bad1");
    assert_eq!(r.flagged[0].url, "http://x");
}

#[test]
fn scan_with_only_unflagged_entries_on_disk() {
    let ds = dataset_with(&[("bad1", "http://x")]);
    let profile = tempfile::tempdir().unwrap();
    let ext = profile.path().join("Extensions");
    fs_err::create_dir_all(ext.join("harmless")).unwrap();
    let r = scan(profile.path().to_str().unwrap(), &ds);
    assert_eq!(r.outcome, ScanOutcome::NothingFlagged);
    assert!(r.flagged.is_empty());
}
