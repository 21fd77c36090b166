use aetherlink::cli_add::{format_scan_summary, last_segment, removal_options, scan_summary};
use aetherlink::disk::DiskSnapshot;
use aetherlink::rules::{RuleRemoval, RuleViolation, Rules, Severity};
use aetherlink::scanner::{Language, ScannedFile};

#[test]
fn last_segment_strips_path_prefix() {
    assert_eq!(last_segment("src/db"), "db");
    assert_eq!(last_segment("src\\db"), "db");
    assert_eq!(last_segment("db"), "db");
    assert_eq!(last_segment("src/db/"), "db");
    assert_eq!(last_segment("  src/ui  "), "ui");
}

#[test]
fn last_segment_of_odd_paths() {
    assert_eq!(last_segment(""), "");
    assert_eq!(last_segment("  "), "");
    assert_eq!(last_segment("/"), "");
    assert_eq!(last_segment("a\\b/c//\\"), "c");
    assert_eq!(last_segment("src/ ui"), " ui");
    assert_eq!(last_segment("src/db /"), "db ");
}

#[test]
fn options_list_the_rules_that_are_set() {
    let rules = Rules::from_toml_str(
        "[rules]\nmax_file_lines = 5\nno_cycles = true\nforbidden_imports = [\"ui -> db\"]\n",
    )
    .unwrap();
    let options = removal_options(&rules);
    let labels: Vec<&str> = options.iter().map(|o| o.label.as_str()).collect();
    assert_eq!(labels, vec!["max_file_lines = 5", "no_cycles = true", "forbidden_import: ui -> db"]);
    assert_eq!(options[2].removal, RuleRemoval::ForbiddenImport { from: "ui".into(), to: "db".into() });
    assert!(removal_options(&Rules::default()).is_empty());
}

#[test]
fn summary_of_a_scan() {
    let violation = |m: &str| RuleViolation {
        rule: "no_cycles".into(),
        message: m.into(),
        severity: Severity::Error,
    };
    assert_eq!(
        format_scan_summary(3, 2, &vec![]),
        "Scanned 3 files, 2 graph edges.\nLEGAL: project passes all rules.\n"
    );
    assert_eq!(
        format_scan_summary(1, 0, &vec![violation("a"), violation("b")]),
        "Scanned 1 files, 0 graph edges.\n\nWARNING: project currently has 2 violations of the rule set:\n  [1] no_cycles — a\n  [2] no_cycles — b\n"
    );
}

#[test]
fn summary_scans_the_files() {
    let files = vec![ScannedFile {
        path: "/p/a.py".into(),
        language: Language::Python,
        imports: vec![],
        exports: vec![],
        line_count: 9,
    }];
    let rules = Rules { max_file_lines: Some(8), ..Default::default() };
    let text = scan_summary("/p", &files, &DiskSnapshot::new(), &rules);
    assert_eq!(
        text,
        "Scanned 1 files, 0 graph edges.\n\nWARNING: project currently has 1 violation of the rule set:\n  [1] max_file_lines — /p/a.py has 9 lines, exceeds limit of 8\n"
    );
}
