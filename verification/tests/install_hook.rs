use aetherlink::install_hook::{
    claude_code_settings_path, home_dir, install, load_or_default, remove_hook_entry, settings_text,
    temporary_path, uninstall, upsert_hook_entry, InstallError,
};
use serde_json::Value;

const OWNER_TAG: &str = "aetherlink";

fn client() -> &'static str {
    "claude_desktop_config.json".split('_').next().unwrap()
}

fn json(text: &str) -> Value {
    serde_json::from_str(text).unwrap()
}

#[test]
fn upsert_into_empty_settings() {
    let mut root = json("{}");
    upsert_hook_entry(&mut root, "/usr/bin/aetherlink").unwrap();
    let entry = &root["hooks"]["PreToolUse"][0];
    assert_eq!(entry["matcher"], "Edit|Write|MultiEdit|NotebookEdit");
    assert_eq!(entry["owner"], OWNER_TAG);
    assert_eq!(entry["hooks"][0]["command"], "/usr/bin/aetherlink --hook-check");
    assert_eq!(entry["hooks"][0]["type"], "command");
}

#[test]
fn upsert_preserves_unrelated_hooks() {
    let mut root = json(
        r#"{
            "hooks": {
                "PreToolUse": [
                    { "matcher": "Bash", "hooks": [{ "type": "command", "command": "echo bash" }] }
                ],
                "PostToolUse": [
                    { "matcher": "Edit", "hooks": [{ "type": "command", "command": "echo done" }] }
                ]
            },
            "otherKey": 42
        }"#,
    );
    upsert_hook_entry(&mut root, "/bin/al").unwrap();
    let pre = root["hooks"]["PreToolUse"].as_array().unwrap();
    assert_eq!(pre.len(), 2, "the Bash hook must survive");
    assert_eq!(root["hooks"]["PostToolUse"][0]["matcher"], "Edit");
    assert_eq!(root["otherKey"], 42);
}

#[test]
fn upsert_is_idempotent() {
    let mut root = json("{}");
    upsert_hook_entry(&mut root, "/old/path").unwrap();
    upsert_hook_entry(&mut root, "/new/path").unwrap();
    let pre = root["hooks"]["PreToolUse"].as_array().unwrap();
    assert_eq!(pre.len(), 1, "second install must replace, not duplicate");
    assert_eq!(pre[0]["hooks"][0]["command"], "/new/path --hook-check");
}

#[test]
fn uninstall_removes_only_owned_entry() {
    let mut root = json(
        r#"{
            "hooks": {
                "PreToolUse": [
                    { "matcher": "Bash", "hooks": [{ "type": "command", "command": "echo bash" }] }
                ]
            }
        }"#,
    );
    upsert_hook_entry(&mut root, "/bin/al").unwrap();
    assert_eq!(root["hooks"]["PreToolUse"].as_array().unwrap().len(), 2);
    let removed = remove_hook_entry(&mut root);
    assert!(removed);
    let pre = root["hooks"]["PreToolUse"].as_array().unwrap();
    assert_eq!(pre.len(), 1);
    assert_eq!(pre[0]["matcher"], "Bash");
}

#[test]
fn uninstall_on_clean_settings_is_noop() {
    let mut root = json(r#"{ "hooks": { "PreToolUse": [] } }"#);
    let removed = remove_hook_entry(&mut root);
    assert!(!removed);
}

#[test]
fn write_uses_lf_line_endings() {
    let v = json(r#"{ "hooks": { "PreToolUse": [] }, "note": "a\r\nb" }"#);
    let bytes = settings_text(&v).into_bytes();
    assert!(!bytes.contains(&b'\r'), "settings.json must be written with LF line endings");
}

#[test]
fn tolerates_utf8_bom() {
    let mut bytes = vec![0xEF, 0xBB, 0xBF];
    bytes.extend_from_slice(br#"{"hooks":{}}"#);
    let text = String::from_utf8(bytes).unwrap();
    let root = load_or_default(Some(&text)).unwrap();
    assert!(root.get("hooks").is_some());
}

#[test]
fn uninstall_undoes_install() {
    let before = json(r#"{ "hooks": { "PreToolUse": [ { "matcher": "Bash" } ], "Stop": [] }, "x": null }"#);
    let mut root = before.clone();
    upsert_hook_entry(&mut root, "/bin/al").unwrap();
    assert_ne!(root, before);
    assert!(remove_hook_entry(&mut root));
    assert_eq!(root, before);
    assert!(!remove_hook_entry(&mut root));
}

#[test]
fn settings_of_another_shape_are_refused_and_kept() {
    for (text, error) in [
        ("[]", InstallError::Root),
        (r#"{ "hooks": [] }"#, InstallError::Hooks),
        (r#"{ "hooks": { "PreToolUse": {} } }"#, InstallError::PreToolUse),
    ] {
        let mut root = json(text);
        assert_eq!(upsert_hook_entry(&mut root, "/bin/al"), Err(error));
        assert!(!remove_hook_entry(&mut root));
        assert_eq!(root, json(text));
    }
    assert_eq!(InstallError::Root.message("/s.json"), "settings.json root is not a JSON object");
}

#[test]
fn settings_text_reads_back() {
    let v = json(r#"{ "a": [1, -2, true, null, "x\ty"], "b": {} }"#);
    let text = settings_text(&v);
    assert!(text.ends_with("}\n"));
    assert_eq!(load_or_default(Some(&text)), Some(v));
    assert_eq!(load_or_default(None), Some(json("{}")));
    assert_eq!(load_or_default(Some(" \n")), Some(json("{}")));
    assert_eq!(load_or_default(Some("{")), None);
}

#[test]
fn settings_lie_below_the_home_folder() {
    assert_eq!(home_dir(Some("/h"), Some("C:/u")), Some("/h".to_string()));
    assert_eq!(home_dir(Some(""), Some("/u")), Some("/u".to_string()));
    assert_eq!(home_dir(None, Some("")), None);
    let path = claude_code_settings_path("/h");
    assert_eq!(path, format!("/h/.{}/settings.json", client()));
    assert_eq!(temporary_path(&path), format!("/h/.{}/settings.json.tmp", client()));
}

#[test]
fn install_and_uninstall_edit_the_text() {
    let text = install(None, "/bin/al").unwrap();
    assert_eq!(json(&text)["hooks"]["PreToolUse"][0]["owner"], OWNER_TAG);
    assert!(text.ends_with("}\n"));
    let (left, removed) = uninstall(Some(&text)).unwrap().unwrap();
    assert!(removed);
    assert_eq!(json(&left), json(r#"{ "hooks": { "PreToolUse": [] } }"#));
    assert_eq!(uninstall(Some(&left)), Ok(Some((left.clone(), false))));
    assert_eq!(uninstall(None), Ok(None));
    assert_eq!(install(Some("{"), "/bin/al"), Err(InstallError::Parse));
    assert_eq!(uninstall(Some("{")), Err(InstallError::Parse));
    assert_eq!(InstallError::Parse.message("/s.json"), "parsing /s.json");
    assert_eq!(
        InstallError::Hooks.message("/s.json"),
        "'hooks' exists but is not a JSON object"
    );
    assert_eq!(
        InstallError::PreToolUse.message("/s.json"),
        "'hooks.PreToolUse' exists but is not a JSON array"
    );
}
