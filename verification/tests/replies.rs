use aetherlink::change::Evaluation;
use aetherlink::disk::DiskSnapshot;
use aetherlink::mcp::change_reply::{
    format_block_report, needs_evaluation, run_apply_guarded_change, run_check_change, WritePlan,
};
use aetherlink::mcp::params::ChangeRequest;
use aetherlink::mcp::scan_reply::run_scan;
use aetherlink::rules::{Baseline, RuleViolation, Rules, RulesFile, Severity};
use aetherlink::scanner::{Language, ScannedFile};
use aetherlink::security::SandboxError;
use aetherlink::status::{State, ViolationSummary};
use serde_json::Value;

fn violation(message: &str, severity: Severity) -> RuleViolation {
    RuleViolation { rule: "max_file_lines".into(), message: message.into(), severity }
}

fn request(language: Language) -> ChangeRequest {
    ChangeRequest {
        root: "/p".into(),
        target: "/p/src/a.rs".into(),
        new_content: "use crate::x;\nä\n".into(),
        language,
    }
}

fn evaluation(violations: Vec<RuleViolation>, warnings: Vec<RuleViolation>) -> Evaluation {
    Evaluation {
        synthetic: ScannedFile {
            path: "/p/src/a.rs".into(),
            language: Language::Rust,
            imports: vec!["crate::x".into()],
            exports: vec![],
            line_count: 2,
        },
        violations,
        warnings,
    }
}

fn inside() -> Result<String, SandboxError> {
    Ok("/real/p/src/a.rs".to_string())
}

fn outside() -> Result<String, SandboxError> {
    Err(SandboxError::Escape { target: "../x.rs".into(), resolved: "/x.rs".into(), root: "/p".into() })
}

#[test]
fn approved_edit_is_described() {
    let rules = Rules { max_file_lines: Some(5), no_cycles: true, ..Default::default() };
    let o = run_check_change(&request(Language::Rust), &inside(), Some(&evaluation(vec![], vec![])), &rules);
    assert_eq!(
        o.reply,
        "APPROVED: proposed change to /p/src/a.rs passes all architectural rules.\n\
         - new line count: 2\n\
         - parsed imports: 1\n\
         - rules enforced: max_file_lines=Some(5), no_cycles=true, forbidden_imports=0\n\
         Safe to write — but use `apply_guarded_change` to actually save it; that tool re-validates and writes atomically so a stale `check_change` result can never be silently bypassed."
    );
    assert!(o.write.is_none() && o.status.is_none() && o.toast.is_none());
    let warned = evaluation(vec![], vec![violation("old", Severity::Error), violation("w", Severity::Warning)]);
    let o = run_check_change(&request(Language::Rust), &inside(), Some(&warned), &Rules::default());
    assert!(o.reply.contains(
        "max_file_lines=None, no_cycles=false, forbidden_imports=0\n\n2 non-blocking warnings (grandfathered or severity=warn):\n  (1) max_file_lines: old\n  (2) max_file_lines: w\nSafe to write"
    ));
}

#[test]
fn refused_edit_changes_nothing() {
    let e = evaluation(vec![violation("too long", Severity::Error)], vec![]);
    let report = "WRITE BLOCKED\n=============\n\
         Proposed change to /p/src/a.rs would introduce 1 rule violation.\n\
         Do NOT write this file. Fix the issues below and call check_change again.\n\n\
         [1] Error — rule: max_file_lines\n    too long\n\n";
    assert_eq!(format_block_report("/p/src/a.rs", &e.violations), report);
    let o = run_check_change(&request(Language::Rust), &inside(), Some(&e), &Rules::default());
    assert_eq!(o.reply, report);
    let toast = o.toast.unwrap();
    assert_eq!(toast.summary, "AetherLink: Write Blocked");
    assert_eq!(toast.body, "1 architectural violation in /p/src/a.rs");
    let o = run_apply_guarded_change(&request(Language::Rust), &inside(), Some(&e), false, true);
    assert_eq!(
        o.reply,
        format!(
            "{report}===\nFILE NOT WRITTEN. AetherLink refused this edit because it would break the rules above. \
             Fix the violations and call apply_guarded_change again. The on-disk project is unchanged.\n"
        )
    );
    assert!(o.write.is_none() && o.status.is_none() && o.toast.is_some());
}

#[test]
fn legal_edit_is_written_to_its_real_path() {
    let e = evaluation(vec![], vec![]);
    let o = run_apply_guarded_change(&request(Language::Rust), &inside(), Some(&e), false, true);
    assert_eq!(
        o.reply,
        "APPLIED: /p/src/a.rs written to disk (17 bytes, 2 lines, 1 import parsed).\n\
         All architectural rules passed. Project is LEGAL."
    );
    assert_eq!(
        o.write,
        Some(WritePlan {
            path: "/real/p/src/a.rs".into(),
            parent: Some("/real/p/src".into()),
            content: "use crate::x;\nä\n".into()
        })
    );
    let status = o.status.unwrap();
    assert_eq!(status.state, State::Legal);
    assert_eq!(status.source, "apply_guarded_change");
    assert!(status.violations.is_empty());
    assert_eq!(o.toast.unwrap().summary, "AetherLink: Project Legal");
    let o = run_apply_guarded_change(&request(Language::Rust), &inside(), Some(&e), false, false);
    assert!(o.toast.is_none());
}

#[test]
fn bypass_writes_broken_code_and_says_so() {
    let e = evaluation(vec![violation("a", Severity::Error), violation("b", Severity::Error)], vec![]);
    let o = run_apply_guarded_change(&request(Language::Rust), &inside(), Some(&e), true, false);
    assert_eq!(
        o.reply,
        "BYPASS ACTIVE — CRITICAL WARNING\n================================\n\
         AetherLink wrote /real/p/src/a.rs WITHOUT enforcing architectural rules because \
         '.aetherlink_bypass' exists in the project root.\n\n\
         Validation would have FAILED with 2 violations:\n  [1] max_file_lines: a\n  [2] max_file_lines: b\n\n\
         Delete .aetherlink_bypass from the project root to re-enable normal validation."
    );
    assert!(o.write.is_some());
    let status = o.status.unwrap();
    assert_eq!(status.state, State::Illegal);
    assert_eq!(status.source, "apply_guarded_change_BYPASS");
    assert_eq!(
        status.violations[1],
        ViolationSummary { rule: "max_file_lines".into(), message: "b".into() }
    );
    assert_eq!(
        o.toast.unwrap().body,
        "Wrote /real/p/src/a.rs despite 2 architectural violations. Validation was BYPASSED."
    );
    let o = run_apply_guarded_change(&request(Language::Rust), &inside(), Some(&evaluation(vec![], vec![])), true, false);
    assert!(o.reply.contains("Validation would have PASSED — write was clean."));
    assert_eq!(o.status.unwrap().state, State::Legal);
}

#[test]
fn nothing_is_written_outside_the_root_even_with_the_bypass() {
    assert!(!needs_evaluation(&request(Language::Rust), &outside()));
    let o = run_apply_guarded_change(&request(Language::Rust), &outside(), None, true, false);
    assert!(o.write.is_none() && o.status.is_none());
    assert_eq!(
        o.reply,
        "PATH ESCAPE BLOCKED — CRITICAL\n==============================\n\
         PATH ESCAPE BLOCKED: '../x.rs' resolves to '/x.rs', which is outside the project root '/p'.\n\
         FILE NOT WRITTEN. This is a security check — AetherLink will never write \
         a file outside the project root, even if a rule would allow it."
    );
    assert_eq!(o.toast.unwrap().summary, "AetherLink: PATH ESCAPE BLOCKED — CRITICAL");
    let c = run_check_change(&request(Language::Rust), &outside(), None, &Rules::default());
    assert_eq!(c.reply, o.reply);
}

#[test]
fn unknown_languages_are_refused() {
    let mut r = request(Language::Unknown);
    r.target = "/p/a.md".into();
    assert!(!needs_evaluation(&r, &inside()));
    let o = run_check_change(&r, &inside(), None, &Rules::default());
    assert_eq!(
        o.reply,
        "WRITE BLOCKED\n=============\nUnknown language for extension 'md'. AetherLink only supports rs, ts, tsx, js, jsx, py."
    );
    let o = run_apply_guarded_change(&r, &inside(), None, true, false);
    assert_eq!(
        o.reply,
        "WRITE BLOCKED — UNSUPPORTED LANGUAGE\n====================================\n\
         Unknown language for extension 'md'. AetherLink only supports rs, ts, tsx, js, jsx, py.\n\
         FILE NOT WRITTEN."
    );
    assert!(o.write.is_none());
    assert!(needs_evaluation(&request(Language::Rust), &inside()));
}

fn scanned(path: &str, lines: usize) -> ScannedFile {
    ScannedFile {
        path: path.into(),
        language: Language::Rust,
        imports: vec!["std::fmt".into()],
        exports: vec![],
        line_count: lines,
    }
}

#[test]
fn legal_scan_is_summarized_as_json() {
    let rules = RulesFile::from_toml_str("[rules]\nmax_file_lines = 5\nforbidden_imports = [\"a -> b\"]\n").unwrap();
    let o = run_scan("/p", &[scanned("/p/a.rs", 5)], &DiskSnapshot::new(), &rules, None, true);
    let v: Value = serde_json::from_str(&o.reply).unwrap();
    let expected: Value = serde_json::from_str(
        r#"{
            "status": "LEGAL", "root": "/p", "files_scanned": 1, "graph_nodes": 1, "graph_edges": 0,
            "warnings_count": 0, "baseline_active": false,
            "rules_loaded": { "max_file_lines": 5, "no_cycles": false, "forbidden_imports": 1, "default_severity": "error" },
            "files": [ { "path": "/p/a.rs", "language": "Rust", "line_count": 5, "import_count": 1, "imports": ["std::fmt"] } ]
        }"#,
    )
    .unwrap();
    assert_eq!(v, expected);
    assert_eq!(o.reply, serde_json::to_string_pretty(&expected).unwrap());
    assert_eq!(o.toast.unwrap().body, "All architectural rules pass in /p");
    assert_eq!(o.status.unwrap().state, State::Legal);
}

#[test]
fn illegal_scan_is_reported() {
    let rules = RulesFile::from_toml_str("[rules]\nmax_file_lines = 5\n").unwrap();
    let files = [scanned("/p/a.rs", 6), scanned("/p/b.rs", 7)];
    let frozen = RuleViolation {
        rule: "max_file_lines".into(),
        message: "/p/b.rs has 7 lines, exceeds limit of 5".into(),
        severity: Severity::Error,
    };
    let baseline = Baseline::from_violations(&[frozen]);
    let o = run_scan("/p", &files, &DiskSnapshot::new(), &rules, Some(&baseline), false);
    assert_eq!(
        o.reply,
        "CRITICAL ARCHITECTURAL VIOLATION\n================================\n\
         AetherLink found 1 rule violation in /p.\n\
         The build is ILLEGAL until every issue below is resolved.\n\n\
         [1] Error — rule: max_file_lines\n    /p/a.rs has 6 lines, exceeds limit of 5\n\n\
         \nAlso 1 warning (informational, not blocking):\n  \
         (1) max_file_lines: /p/b.rs has 7 lines, exceeds limit of 5\n\n\
         Fix every violation above, then re-run scan_project to verify the project is legal.\n"
    );
    assert_eq!(o.toast.unwrap().body, "1 violation in /p");
    let status = o.status.unwrap();
    assert_eq!(status.state, State::Illegal);
    assert_eq!(status.violations.len(), 1);
}

#[test]
fn baselined_and_warned_projects_are_legal() {
    let rules = RulesFile::from_toml_str("[rules]\nmax_file_lines = 5\nseverity = \"warn\"\n").unwrap();
    let files = [scanned("/p/a.rs", 6)];
    let o = run_scan("/p", &files, &DiskSnapshot::new(), &rules, None, false);
    let v: Value = serde_json::from_str(&o.reply).unwrap();
    assert_eq!(v["warnings_count"], 1);
    assert_eq!(v["rules_loaded"]["default_severity"], "warning");
    assert!(o.toast.is_none());
}
