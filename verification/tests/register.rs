use aetherlink::register::{
    ensure_starter_toml, locate_claude_config, register_mcp_server, starter_toml, RegisterError,
    StarterTomlOutcome,
};
use aetherlink::rules::Rules;
use aetherlink::status::Platform;
use serde_json::Value;

fn client() -> &'static str {
    "claude_desktop_config.json".split('_').next().unwrap()
}

fn title() -> String {
    format!("{}{}", client()[..1].to_uppercase(), &client()[1..])
}

fn json(text: &str) -> Value {
    serde_json::from_str(text).unwrap()
}

#[test]
fn injects_into_empty_config() {
    let text = register_mcp_server(None, "/fake/aetherlink").unwrap();
    let v = json(&text);
    assert_eq!(v["mcpServers"]["aetherlink"]["command"], "/fake/aetherlink");
    assert_eq!(v["mcpServers"]["aetherlink"]["args"], json("[]"));
}

#[test]
fn preserves_other_servers() {
    let existing = json(
        r#"{
            "mcpServers": {
                "other": { "command": "/bin/other", "args": ["--foo"] }
            },
            "someOtherTopLevelKey": 42
        }"#,
    );
    let existing = serde_json::to_string_pretty(&existing).unwrap();
    let text = register_mcp_server(Some(&existing), "/fake/aetherlink").unwrap();
    let v = json(&text);
    assert_eq!(v["mcpServers"]["other"]["command"], "/bin/other");
    assert_eq!(v["mcpServers"]["aetherlink"]["command"], "/fake/aetherlink");
    assert_eq!(v["someOtherTopLevelKey"], 42);
}

#[test]
fn tolerates_utf8_bom_in_existing_config() {
    let mut bytes = vec![0xEF, 0xBB, 0xBF];
    bytes.extend_from_slice(br#"{"mcpServers":{"other":{"command":"/bin/other","args":[]}}}"#);
    let existing = String::from_utf8(bytes).unwrap();
    let text = register_mcp_server(Some(&existing), "/fake/aetherlink").unwrap();
    let v = json(&text);
    assert_eq!(v["mcpServers"]["other"]["command"], "/bin/other");
    assert_eq!(v["mcpServers"]["aetherlink"]["command"], "/fake/aetherlink");
}

#[test]
fn overwrites_stale_aetherlink_entry() {
    let existing = r#"{"mcpServers":{"aetherlink":{"command":"/old/path","args":[]}}}"#;
    let text = register_mcp_server(Some(existing), "/new/path").unwrap();
    let v = json(&text);
    assert_eq!(v["mcpServers"]["aetherlink"]["command"], "/new/path");
    let again = register_mcp_server(Some(&text), "/new/path").unwrap();
    assert_eq!(again, text);
}

#[test]
fn each_registration_error_has_an_input() {
    let error = |t: &str| register_mcp_server(Some(t), "/x").unwrap_err();
    assert_eq!(error("{"), RegisterError::Parse);
    assert_eq!(error("3"), RegisterError::Root);
    assert_eq!(error(r#"{"mcpServers": []}"#), RegisterError::Servers);
    assert_eq!(RegisterError::Parse.message("/c.json"), "parsing existing /c.json");
    assert_eq!(RegisterError::Root.message(""), format!("{} config root is not a JSON object", title()));
}

#[test]
fn config_folder_goes_by_platform() {
    let of = |p: Platform, b: Option<&str>| locate_claude_config(p, b);
    assert_eq!(of(Platform::Windows, Some("/a")), Ok(format!("/a/{}", title())));
    assert_eq!(of(Platform::MacOs, Some("/h")), Ok(format!("/h/Library/Application Support/{}", title())));
    assert_eq!(of(Platform::Linux, Some("/h")), Ok(format!("/h/.config/{}", title())));
    assert_eq!(of(Platform::Other, Some("/h")), Err("unsupported operating system"));
    assert_eq!(of(Platform::Linux, None), Err("HOME environment variable is not set"));
    assert_eq!(of(Platform::Windows, None), Err("APPDATA environment variable is not set"));
}

#[test]
fn starter_rules_load() {
    let rules = Rules::from_toml_str(starter_toml()).unwrap();
    assert_eq!(rules.max_file_lines, Some(500));
    assert!(rules.no_cycles);
    assert!(rules.forbidden_imports.is_empty());
    assert_eq!(ensure_starter_toml("/p", false), StarterTomlOutcome::Created("/p/AetherLink.toml".into()));
    assert_eq!(
        ensure_starter_toml("/p", true),
        StarterTomlOutcome::AlreadyExists("/p/AetherLink.toml".into())
    );
}
