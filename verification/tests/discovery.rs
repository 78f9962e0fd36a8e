use extension_audit::catalog::Platform;
use extension_audit::dataset::ThreatDataset;
use extension_audit::locator::{collect_profiles, discover_roots, is_profile, join};
use extension_audit::orchestrator::{run, RunOutcome};
use extension_audit::scanner::ScanOutcome;

fn make_profile(root: &std::path::Path, name: &str) -> String {
    let p = root.join(name);
    fs_err::create_dir_all(&p).unwrap();
    fs_err::write(p.join("Preferences"), b"{}").unwrap();
    p.to_str().unwrap().to_string()
}

#[test]
fn join_inserts_a_separator() {
    assert_eq!(join("a", "b"), "a/b");
    assert_eq!(join("", "Preferences"), "/Preferences");
}

#[test]
fn profile_predicate_requires_directory_with_preferences_file() {
    let root = tempfile::tempdir().unwrap();
    let with_prefs = make_profile(root.path(), "real");
    assert!(is_profile(&with_prefs));

    let without = root.path().join("bare");
    fs_err::create_dir_all(&without).unwrap();
    assert!(!is_profile(without.to_str().unwrap()));

    assert!(!is_profile("/no/such/directory/at/all"));

    // A Preferences entry that is itself a directory is not a profile marker.
    let odd = root.path().join("odd");
    fs_err::create_dir_all(odd.join("Preferences")).unwrap();
    assert!(!is_profile(odd.to_str().unwrap()));

    // A plain file is not a profile even under a fitting name.
    let file = root.path().join("file");
    fs_err::write(&file, b"x").unwrap();
    assert!(!is_profile(file.to_str().unwrap()));
}

#[test]
fn collection_keeps_flagged_entries_in_order_then_the_root() {
    let names = vec!["a".to_string(), "b".to_string(), "c".to_string()];
    let keep = vec![true, false, true];
    let selected = collect_profiles("/root", &names, &keep, true);
    assert_eq!(selected, vec!["/root/a".to_string(), "/root/c".to_string(), "/root".to_string()]);

    let none = collect_profiles("/root", &names, &vec![false, false, false], false);
    assert!(none.is_empty());
}

#[test]
fn discovery_over_missing_roots_finds_nothing() {
    let roots = vec!["/no/such/browser/root".to_string()];
    let found = discover_roots(&roots);
    assert!(found.is_empty());
}

#[test]
fn discovery_finds_subdirectory_profiles_and_profile_roots() {
    let root = tempfile::tempdir().unwrap();
    let p1 = make_profile(root.path(), "Default");
    let p2 = make_profile(root.path(), "Profile 1");
    let root_str = root.path().to_str().unwrap().to_string();

    let found = discover_roots(&vec![root_str.clone()]);
    assert_eq!(found.len(), 2);
    assert!(found.contains(&p1));
    assert!(found.contains(&p2));

    // A root that is itself a profile contributes itself as well.
    fs_err::write(root.path().join("Preferences"), b"{}").unwrap();
    let found = discover_roots(&vec![root_str.clone()]);
    assert_eq!(found.len(), 3);
    assert!(found.contains(&root_str));
}

#[test]
fn explicit_args_are_validated_independently() {
    let root = tempfile::tempdir().unwrap();
    let valid = make_profile(root.path(), "real");
    let invalid = "/not/a/profile".to_string();
    let ds = ThreatDataset::new();

    let report = run(&vec![valid.clone(), invalid.clone()], Platform::Linux, &ds);
    assert_eq!(report.invalid_args, vec![invalid]);
    match report.outcome {
        RunOutcome::Scanned(reports) => {
            assert_eq!(reports.len(), 1);
            assert_eq!(reports[0].profile, valid);
        }
        _ => panic!("expected a scan of the one valid profile"),
    }
}

#[test]
fn run_with_no_valid_args_ends_distinctly() {
    let ds = ThreatDataset::new();
    let report = run(&vec!["/not/a/profile".to_string()], Platform::Linux, &ds);
    assert_eq!(report.invalid_args.len(), 1);
    assert!(matches!(report.outcome, RunOutcome::NoValidArgs));
}

#[test]
fn end_to_end_synthetic_root_with_two_profiles() {
    let root = tempfile::tempdir().unwrap();
    let p1 = make_profile(root.path(), "Default");
    let p2 = make_profile(root.path(), "Profile 1");
    let root_str = root.path().to_str().unwrap().to_string();

    let found = discover_roots(&vec![root_str]);
    assert_eq!(found.len(), 2);
    assert!(found.contains(&p1));
    assert!(found.contains(&p2));

    let ds = extension_audit::loader::get_ids("#urlA\nsome-flagged-id\n");
    let report = run(&found, Platform::Linux, &ds);
    assert!(report.invalid_args.is_empty());
    match report.outcome {
        RunOutcome::Scanned(reports) => {
            assert_eq!(reports.len(), 2);
            for rep in &reports {
                assert_eq!(rep.result.outcome, ScanOutcome::NoExtensions);
                assert!(rep.result.flagged.is_empty());
            }
        }
        _ => panic!("expected both profiles to be scanned"),
    }
}
