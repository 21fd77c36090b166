use aetherlink::disk::DiskSnapshot;
use aetherlink::hook::{
    evaluate, extract_proposed_write, find_project_root, needs_project, propose, root_probes, settle, HookPayload,
    ProposedWrite, Verdict,
};
use aetherlink::rules::{RuleViolation, RulesFile, Severity};
use serde_json::Value;

fn json(text: &str) -> Value {
    serde_json::from_str(text).unwrap()
}

fn content(tool: &str, input: &str, existing: &str) -> String {
    extract_proposed_write(tool, &json(input), existing).unwrap().unwrap().new_content
}

#[test]
fn writes_and_edits_are_reconstructed() {
    assert_eq!(content("Write", r#"{"file_path": "/a", "content": "x"}"#, "old"), "x");
    assert_eq!(content("Write", r#"{"file_path": "/a"}"#, "old"), "");
    let edit = r#"{"file_path": "/a", "old_string": "a", "new_string": "bb"}"#;
    assert_eq!(content("Edit", edit, "aXa"), "bbXa");
    let all = r#"{"file_path": "/a", "old_string": "a", "new_string": "bb", "replace_all": true}"#;
    assert_eq!(content("Edit", all, "aXa"), "bbXbb");
    assert_eq!(content("Edit", r#"{"file_path": "/a", "new_string": "-"}"#, "xy"), "-xy");
    let many = r#"{"file_path": "/a", "edits": [
        {"old_string": "a", "new_string": "b"},
        {"old_string": "b", "new_string": "c", "replace_all": true}, 7 ]}"#;
    assert_eq!(content("MultiEdit", many, "ab"), "cc");
    assert_eq!(content("NotebookEdit", many, "ab"), "cc");
}

#[test]
fn calls_that_cannot_be_understood_are_told_apart() {
    let error = |tool: &str, input: &str| extract_proposed_write(tool, &json(input), "").unwrap_err();
    assert_eq!(error("Write", "{}"), "Write missing file_path");
    assert_eq!(error("Edit", "{}"), "Edit missing file_path");
    assert_eq!(error("MultiEdit", "{}"), "MultiEdit missing file_path");
    assert_eq!(error("MultiEdit", r#"{"file_path": "/a"}"#), "MultiEdit missing edits[]");
    assert_eq!(extract_proposed_write("Bash", &json("{}"), ""), Ok(None));
}

#[test]
fn the_project_root_is_the_nearest_folder_with_rules() {
    let mut disk = DiskSnapshot::new();
    disk.record("/p/AetherLink.toml", true);
    disk.record("/AetherLink.toml", true);
    assert_eq!(find_project_root("/p/src/a.rs", None, &disk), Some("/p".to_string()));
    assert_eq!(find_project_root("/q/a.rs", None, &disk), Some("/".to_string()));
    assert_eq!(find_project_root("src/a.rs", Some("/p"), &disk), Some("/p".to_string()));
    assert_eq!(find_project_root("src/a.rs", None, &disk), None);
    assert_eq!(find_project_root("/q/a.rs", None, &DiskSnapshot::new()), None);
    assert_eq!(
        root_probes("/p/src/a.rs", None),
        vec!["/p/src/AetherLink.toml", "/p/AetherLink.toml", "/AetherLink.toml"]
    );
    assert!(root_probes("a.rs", None).is_empty());
}

fn allowed(note: &str) -> Verdict {
    Verdict { exit_code: 0, note: note.to_string() }
}

#[test]
fn whatever_is_not_a_write_is_allowed() {
    assert!(HookPayload::read("{").is_none());
    assert_eq!(propose(None, ""), Err(allowed("")));
    let p = HookPayload::read(r#"{"tool_name": "Bash", "tool_input": {"command": "ls"}}"#).unwrap();
    assert_eq!(p.file_to_read(), None);
    assert_eq!(propose(Some(&p), ""), Err(allowed("")));
    let p = HookPayload::read("{}").unwrap();
    assert_eq!((p.tool_name.as_str(), &p.tool_input), ("", &Value::Null));
    assert_eq!(propose(Some(&p), ""), Err(allowed("")));
    let p = HookPayload::read(r#"{"tool_name": "Edit", "tool_input": {}}"#).unwrap();
    assert_eq!(
        propose(Some(&p), ""),
        Err(allowed("aetherlink hook: could not interpret Edit call: Edit missing file_path\n"))
    );
    let p = HookPayload::read(r#"{"tool_name": "Edit", "tool_input": {"file_path": "/a", "old_string": "x", "new_string": "y"}}"#).unwrap();
    assert_eq!(p.file_to_read(), Some("/a".to_string()));
    assert_eq!(
        propose(Some(&p), "xx"),
        Ok(ProposedWrite { file_path: "/a".into(), new_content: "yx".into() })
    );
}

#[test]
fn verdicts_are_exact() {
    let v = |m: &str| RuleViolation { rule: "r".into(), message: m.into(), severity: Severity::Error };
    assert_eq!(settle(None, false, None), allowed(""));
    assert_eq!(
        settle(Some("/p"), true, None),
        allowed("aetherlink hook: bypass file present in /p, allowing write\n")
    );
    assert_eq!(settle(Some("/p"), false, Some(&Ok(vec![]))), allowed(""));
    assert_eq!(
        settle(Some("/p"), false, Some(&Err("boom".to_string()))),
        allowed("aetherlink hook: internal error, allowing write: boom\n")
    );
    assert_eq!(
        settle(Some("/p"), false, Some(&Ok(vec![v("a"), v("b")]))),
        Verdict {
            exit_code: 2,
            note: "BLOCKED by AetherLink (project: /p).\n\
                   2 architectural rule violations would be introduced:\n  [1] r: a\n  [2] r: b\n\
                   Fix the issues above and retry, or use apply_guarded_change (which runs the same checks \
                   atomically). To temporarily disable enforcement, create .aetherlink_bypass in the project root.\n"
                .to_string()
        }
    );
}

#[test]
fn evaluation_finds_what_blocks() {
    let rules = RulesFile::from_toml_str("[rules]\nmax_file_lines = 1\n").unwrap();
    let write = |path: &str| ProposedWrite { file_path: path.into(), new_content: "1\n2\n".into() };
    let disk = DiskSnapshot::new();
    let found = evaluate("/p", &write("/p/a.py"), &[], &disk, &rules, None).unwrap().unwrap();
    assert_eq!(found.len(), 1);
    assert_eq!(found[0].message, "/p/a.py has 2 lines, exceeds limit of 1");
    let found = evaluate("/p", &write("/p/a.md"), &[], &disk, &rules, None).unwrap().unwrap();
    assert!(found.is_empty());
    assert!(needs_project(&write("/p/a.py")));
    assert!(!needs_project(&write("/p/a.md")));
}
