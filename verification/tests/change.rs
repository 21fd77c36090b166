use aetherlink::change::{
    edited_file, evaluate_content, evaluation_probes, fits_graph, patch_files, violations_of, Evaluation,
};
use aetherlink::disk::DiskSnapshot;
use aetherlink::rules::{Baseline, RuleViolation, RulesFile};
use aetherlink::scanner::{Language, ScannedFile};

fn file(path: &str, imports: &[&str], lines: usize) -> ScannedFile {
    ScannedFile {
        path: path.to_string(),
        language: Language::Rust,
        imports: imports.iter().map(|s| s.to_string()).collect(),
        exports: Vec::new(),
        line_count: lines,
    }
}

fn disk(files: &[&str]) -> DiskSnapshot {
    let mut d = DiskSnapshot::new();
    for f in files {
        d.record(f, true);
    }
    d
}

fn evaluate(
    target: &str,
    content: &str,
    files: &[ScannedFile],
    disk: &DiskSnapshot,
    rules: &str,
    baseline: Option<&Baseline>,
) -> Evaluation {
    let rules = RulesFile::from_toml_str(rules).unwrap();
    evaluate_content("/p", target, content, Language::Rust, files, disk, &rules, baseline)
        .unwrap()
        .unwrap()
}

fn messages(v: &[RuleViolation]) -> Vec<&str> {
    v.iter().map(|x| x.message.as_str()).collect()
}

const LIMIT: &str = "[rules]\nmax_file_lines = 2\n";

#[test]
fn new_violation_blocks() {
    let e = evaluate("/p/a.rs", "1\n2\n3\n", &[], &disk(&[]), LIMIT, None);
    assert_eq!(messages(&e.violations), vec!["/p/a.rs has 3 lines, exceeds limit of 2"]);
    assert!(e.warnings.is_empty());
    assert_eq!(e.synthetic.line_count, 3);
    let e = evaluate("/p/a.rs", "1\n2\n", &[], &disk(&[]), LIMIT, None);
    assert!(e.violations.is_empty() && e.warnings.is_empty());
}

#[test]
fn old_violations_elsewhere_do_not_block() {
    let files = vec![file("/p/old.rs", &[], 9), file("/p/a.rs", &[], 1)];
    let e = evaluate("/p/a.rs", "1\n2\n", &files, &disk(&[]), LIMIT, None);
    assert!(e.violations.is_empty());
    assert_eq!(messages(&e.warnings), vec!["/p/old.rs has 9 lines, exceeds limit of 2"]);
}

#[test]
fn touching_a_broken_file_blocks_until_it_is_fixed() {
    let files = vec![file("/p/a.rs", &[], 3)];
    let e = evaluate("/p/a.rs", "x\ny\nz\n", &files, &disk(&[]), LIMIT, None);
    assert_eq!(e.violations.len(), 1);
    let e = evaluate("/p/./a.rs", "x\n", &files, &disk(&[]), LIMIT, None);
    assert!(e.violations.is_empty());
}

#[test]
fn frozen_violations_do_not_block() {
    let files = vec![file("/p/a.rs", &[], 3)];
    let rules = RulesFile::from_toml_str(LIMIT).unwrap();
    let frozen = violations_of("/p", &files, &disk(&[]), &rules);
    let baseline = Baseline::from_violations(&frozen);
    let e = evaluate("/p/a.rs", "x\ny\nz\n", &files, &disk(&[]), LIMIT, Some(&baseline));
    assert!(e.violations.is_empty());
    assert_eq!(e.warnings.len(), 1);
    let e = evaluate("/p/a.rs", "x\ny\nz\nw\n", &files, &disk(&[]), LIMIT, Some(&baseline));
    assert_eq!(messages(&e.violations), vec!["/p/a.rs has 4 lines, exceeds limit of 2"]);
}

#[test]
fn warnings_never_block() {
    let rules = "[rules]\nmax_file_lines = 2\nseverity = \"warn\"\n";
    let e = evaluate("/p/a.rs", "1\n2\n3\n", &[], &disk(&[]), rules, None);
    assert!(e.violations.is_empty());
    assert_eq!(e.warnings.len(), 1);
}

#[test]
fn forbidden_imports_and_cycles_are_found_in_the_edited_project() {
    let files = vec![file("/p/src/db/store.rs", &["crate::ui::view"], 1)];
    let d = disk(&["/p/src/db/store.rs", "/p/src/ui/view.rs"]);
    let rules = "[rules]\nno_cycles = true\nforbidden_imports = [\"ui -> db\"]\n";
    let e = evaluate("/p/src/ui/view.rs", "use crate::db::store;\n", &files, &d, rules, None);
    let kinds: Vec<&str> = e.violations.iter().map(|v| v.rule.as_str()).collect();
    assert_eq!(kinds.len(), 2);
    assert!(kinds.contains(&"forbidden_imports") && kinds.contains(&"no_cycles"));
    let e = evaluate("/p/src/ui/view.rs", "// nothing\n", &files, &d, rules, None);
    assert!(e.violations.is_empty());
}

#[test]
fn patched_files_replace_the_first_or_come_last() {
    let files = vec![file("a", &[], 1), file("b", &[], 2), file("./a", &[], 3)];
    let out = patch_files(&files, &file("a/", &[], 9));
    let lines: Vec<usize> = out.iter().map(|f| f.line_count).collect();
    assert_eq!(lines, vec![9, 2, 3]);
    let out = patch_files(&files, &file("c", &[], 9));
    assert_eq!(out.len(), 4);
    assert_eq!(out[3].path, "c");
    assert!(fits_graph(&files));
}

#[test]
fn probes_cover_both_states() {
    let files = vec![file("/p/src/a.rs", &["crate::old"], 1)];
    let synthetic = edited_file("/p/src/a.rs", "use crate::fresh;", Language::Rust).unwrap();
    assert_eq!(synthetic.imports, vec!["crate::fresh"]);
    let probes = evaluation_probes("/p", &synthetic, &files);
    assert!(probes.contains(&"/p/src/fresh.rs".to_string()));
    assert!(probes.contains(&"/p/src/old.rs".to_string()));
}

#[test]
fn edit_inside_a_circle_is_blocked_whatever_circles_there_were() {
    let files = vec![
        file("/p/src/a.rs", &["crate::b"], 1),
        file("/p/src/b.rs", &["crate::a"], 1),
        file("/p/src/c.rs", &["crate::d"], 1),
        file("/p/src/d.rs", &["crate::c"], 1),
    ];
    let d = disk(&["/p/src/a.rs", "/p/src/b.rs", "/p/src/c.rs", "/p/src/d.rs"]);
    let rules = "[rules]\nno_cycles = true\n";
    let e = evaluate("/p/src/a.rs", "use crate::b;\n", &files, &d, rules, None);
    assert_eq!(e.violations.len(), 1);
    assert!(e.violations[0].message.contains("/p/src/a.rs"));
    let e = evaluate("/p/src/a.rs", "// nothing\n", &files, &d, rules, None);
    assert!(e.violations.is_empty());
}
