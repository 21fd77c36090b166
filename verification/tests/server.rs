use aetherlink::mcp::lease::{AcquireResult, ReleaseResult, NANOS_PER_SEC};
use aetherlink::mcp::params::{
    extract_change_args, format_duration, parse_arrow_pair, parse_rule_addition, parse_rule_removal,
};
use aetherlink::mcp::rule_reply::{
    finish_rule_reply, read_add_rule, read_remove_rule, run_add_rule, run_remove_rule,
};
use aetherlink::mcp::server::{
    acquire_reply, error_response, release_reply, response_line, route, tool_response, Handled, Route, Tool,
};
use aetherlink::mcp::McpServer;
use aetherlink::rules::{RuleAddition, RuleRemoval};
use aetherlink::scanner::Language;
use serde_json::Value;

fn json(text: &str) -> Value {
    serde_json::from_str(text).unwrap()
}

fn answer(server: &mut McpServer, line: &str) -> Value {
    match server.handle_line(line, "1.2.3") {
        Some(Handled::Response(v)) => v,
        _ => panic!("no response to {line}"),
    }
}

#[test]
fn initialize_tells_version_and_capabilities() {
    let mut server = McpServer::new();
    let v = answer(&mut server, "  {\"id\": 7, \"method\": \"initialize\"}\n");
    let expected = json(
        r#"{ "jsonrpc": "2.0", "id": 7, "result": {
            "protocolVersion": "2024-11-05", "capabilities": { "tools": {} },
            "serverInfo": { "name": "aetherlink", "version": "1.2.3" } } }"#,
    );
    assert_eq!(v, expected);
}

#[test]
fn every_tool_is_listed() {
    let mut server = McpServer::new();
    let v = answer(&mut server, r#"{"id": "x", "method": "tools/list"}"#);
    let tools = v["result"]["tools"].as_array().unwrap();
    let names: Vec<&str> = tools.iter().map(|t| t["name"].as_str().unwrap()).collect();
    assert_eq!(
        names,
        vec![
            "scan_project",
            "acquire_lease",
            "release_lease",
            "add_rule",
            "remove_rule",
            "apply_guarded_change",
            "check_change"
        ]
    );
    for t in tools {
        assert_eq!(t["inputSchema"]["type"], "object");
        let required = t["inputSchema"]["required"].as_array().unwrap();
        let properties = t["inputSchema"]["properties"].as_object().unwrap();
        assert_eq!(required.len(), properties.len());
        for r in required {
            assert!(properties.contains_key(r.as_str().unwrap()));
        }
    }
    assert_eq!(tools[0]["description"], "Scan the project directory and build a dependency graph");
    assert_eq!(v["id"], "x");
}

#[test]
fn what_is_not_json_is_passed_over_and_what_is_unknown_is_refused() {
    let mut server = McpServer::new();
    assert!(server.handle_line("{", "1").is_none());
    assert!(server.handle_line("", "1").is_none());
    let v = answer(&mut server, r#"{"id": 1, "method": "nope"}"#);
    assert_eq!(v, error_response(&json("1"), -32601, "Method not found"));
    let v = answer(&mut server, r#"[]"#);
    assert_eq!(v["id"], Value::Null);
    let v = answer(&mut server, r#"{"id": 1, "method": "tools/call", "params": {"name": "x"}}"#);
    assert_eq!(v["error"]["message"], "Unknown tool");
    assert_eq!(v["error"]["code"], -32601);
}

#[test]
fn tools_on_files_stay_pending() {
    let mut server = McpServer::new();
    for (name, tool) in [
        ("scan_project", Tool::ScanProject),
        ("add_rule", Tool::AddRule),
        ("remove_rule", Tool::RemoveRule),
        ("check_change", Tool::CheckChange),
        ("apply_guarded_change", Tool::ApplyGuardedChange),
    ] {
        let line = format!(
            "{{\"id\": 5, \"method\": \"tools/call\", \"params\": {{\"name\": \"{name}\", \"arguments\": {{\"path\": \"/p\"}}}}}}"
        );
        assert_eq!(route(&json(&line)), Route::Call(tool));
        match server.handle_line(&line, "1") {
            Some(Handled::Pending { tool: t, id, args }) => {
                assert_eq!(t, tool);
                assert_eq!(id, 5);
                assert_eq!(args["path"], "/p");
            }
            _ => panic!("{name} was answered"),
        }
    }
}

#[test]
fn leases_exclude_and_are_released() {
    let mut server = McpServer::new();
    let call = |tool: &str, args: &str| {
        format!("{{\"id\": 1, \"method\": \"tools/call\", \"params\": {{\"name\": \"{tool}\", \"arguments\": {args}}}}}")
    };
    let text = |v: &Value| v["result"]["content"][0]["text"].as_str().unwrap().to_string();
    let v = answer(&mut server, &call("acquire_lease", "{\"file_path\": \"src/a.rs\"}"));
    assert_eq!(v["result"]["content"][0]["type"], "text");
    assert_eq!(
        text(&v),
        "LEASE GRANTED: src/a.rs is now locked for editing for 300 seconds (until 5m 0s from now). Release happens automatically on expiry."
    );
    let v = answer(&mut server, &call("acquire_lease", "{\"file_path\": \"src/./a.rs\"}"));
    assert!(text(&v).starts_with("Access Denied: File is currently being modified by another agent.\nFile: src/./a.rs\n"));
    let v = answer(&mut server, &call("release_lease", "{\"file_path\": \"src/a.rs\"}"));
    assert_eq!(text(&v), "LEASE RELEASED: src/a.rs is now Open. Other agents can acquire it immediately.");
    let v = answer(&mut server, &call("release_lease", "{\"file_path\": \"src/a.rs\"}"));
    assert_eq!(text(&v), "No active lease on src/a.rs — nothing to release.");
    let v = answer(&mut server, &call("acquire_lease", "{}"));
    assert_eq!(v["error"]["code"], -32602);
    assert_eq!(v["error"]["message"], "acquire_lease failed: missing 'file_path' argument");
    let v = answer(&mut server, &call("release_lease", "{\"file_path\": 3}"));
    assert_eq!(v["error"]["message"], "release_lease failed: missing 'file_path' argument");
}

#[test]
fn lease_replies_are_exact() {
    assert_eq!(
        acquire_reply("a", AcquireResult::Denied { remaining: 272 * NANOS_PER_SEC as u128 + 1 }),
        "Access Denied: File is currently being modified by another agent.\nFile: a\n\
         Remaining lock time: 4m 32s (~272 seconds)\n\
         Retry after the existing lease expires (max lease duration: 300 seconds)."
    );
    assert_eq!(
        release_reply("a", ReleaseResult::AlreadyExpired),
        "Lease on a had already expired and was cleaned up. The file was already Open."
    );
    assert_eq!(format_duration(59 * NANOS_PER_SEC as u128), "59s");
    assert_eq!(format_duration(60 * NANOS_PER_SEC as u128), "1m 0s");
    assert_eq!(format_duration(0), "0s");
}

#[test]
fn responses_are_single_lines() {
    let v = tool_response(&json("1"), Tool::ScanProject, &Ok("a\nb".to_string()));
    let line = response_line(&v);
    assert_eq!(
        line,
        "{\"id\":1,\"jsonrpc\":\"2.0\",\"result\":{\"content\":[{\"text\":\"a\\nb\",\"type\":\"text\"}]}}\n"
    );
    let v = tool_response(&json("1"), Tool::ScanProject, &Err("no".to_string()));
    assert_eq!(v["error"]["message"], "scan failed: no");
    assert_eq!(v["error"]["code"], -32000);
    assert!(v.get("result").is_none());
    for (tool, prefix) in [
        (Tool::AddRule, "add_rule failed: e"),
        (Tool::RemoveRule, "remove_rule failed: e"),
        (Tool::CheckChange, "check_change failed: e"),
        (Tool::ApplyGuardedChange, "apply_guarded_change failed: e"),
    ] {
        let v = tool_response(&json("1"), tool, &Err("e".to_string()));
        assert_eq!(v["error"]["message"], prefix);
    }
}

#[test]
fn rules_are_read_from_loose_params() {
    let add = |t: &str, p: &str| parse_rule_addition(t, &json(p));
    assert_eq!(add("line_limit", "500"), Ok(RuleAddition::MaxFileLines(500)));
    assert_eq!(add("max_file_lines", "{\"value\": 1, \"max\": 2}"), Ok(RuleAddition::MaxFileLines(1)));
    assert_eq!(add("line_limit", "{\"max\": 2, \"limit\": 3}"), Ok(RuleAddition::MaxFileLines(2)));
    assert_eq!(add("line_limit", "{\"limit\": 3}"), Ok(RuleAddition::MaxFileLines(3)));
    assert_eq!(add("line_limit", "{}").unwrap_err(), "line_limit expects params like {\"value\": 500}");
    assert_eq!(add("line_limit", "1.5").unwrap_err(), "line_limit expects params like {\"value\": 500}");
    assert_eq!(add("no_cycles", "true"), Ok(RuleAddition::NoCycles(true)));
    assert_eq!(add("no_cycles", "{\"enabled\": false}"), Ok(RuleAddition::NoCycles(false)));
    assert_eq!(add("no_cycles", "{\"value\": true}"), Ok(RuleAddition::NoCycles(true)));
    assert_eq!(add("no_cycles", "{}").unwrap_err(), "no_cycles expects params like {\"enabled\": true}");
    let rule = RuleAddition::ForbiddenImport { from: "ui".into(), to: "db".into() };
    assert_eq!(add("forbidden_import", "\"ui->db\""), Ok(rule.clone()));
    assert_eq!(add("forbidden_imports", "{\"rule\": \" ui -> db \"}"), Ok(rule.clone()));
    assert_eq!(add("forbidden_import", "{\"from\": \"ui\", \"to\": \"db\"}"), Ok(rule));
    assert_eq!(
        add("forbidden_import", "{}").unwrap_err(),
        "forbidden_import expects params like {\"from\": \"ui\", \"to\": \"db\"}"
    );
    assert_eq!(add("forbidden_import", "{\"from\": \"ui\"}").unwrap_err(), "forbidden_import params missing 'to'");
    assert_eq!(
        add("x", "{}").unwrap_err(),
        "unknown rule_type 'x'. Use one of: forbidden_import, line_limit (max_file_lines), no_cycles."
    );
    assert_eq!(parse_rule_removal("line_limit", &json("null")), Ok(RuleRemoval::MaxFileLines));
    assert_eq!(parse_rule_removal("no_cycles", &json("null")), Ok(RuleRemoval::NoCycles));
    assert_eq!(
        parse_rule_removal("forbidden_import", &json("\"a -> b\"")),
        Ok(RuleRemoval::ForbiddenImport { from: "a".into(), to: "b".into() })
    );
    assert!(parse_rule_removal("x", &json("{}")).is_err());
    assert_eq!(parse_arrow_pair("a b").unwrap_err(), "expected 'from -> to', got 'a b'");
    assert_eq!(parse_arrow_pair("a ->").unwrap_err(), "forbidden_import has empty side: 'a ->'");
}

#[test]
fn edits_are_read_from_arguments() {
    let c = extract_change_args(&json(
        r#"{"project_path": "/p", "file_path": "/p/a.tsx", "new_content": "x"}"#,
    ))
    .unwrap();
    assert_eq!((c.root.as_str(), c.target.as_str(), c.new_content.as_str()), ("/p", "/p/a.tsx", "x"));
    assert_eq!(c.language, Language::TypeScript);
    for (args, key) in [
        (r#"{}"#, "project_path"),
        (r#"{"project_path": "/p"}"#, "file_path"),
        (r#"{"project_path": "/p", "file_path": "/p/a"}"#, "new_content"),
    ] {
        assert_eq!(extract_change_args(&json(args)).unwrap_err(), format!("missing '{key}' argument"));
    }
}

#[test]
fn rules_are_added_and_removed_by_tool_calls() {
    let request = read_add_rule(&json(
        r#"{"project_path": "/p", "rule_type": "no_cycles", "params": true}"#,
    ))
    .unwrap();
    let step = run_add_rule(&request, "").unwrap();
    assert_eq!(step.write.as_deref(), Some("[rules]\nno_cycles = true\n"));
    assert_eq!(
        step.head,
        "Rule added to AetherLink.toml. I am now enforcing this for you.\n- Rule: no_cycles = true\n\
         - File: /p/AetherLink.toml\n\n--- Updated AetherLink.toml ---\n[rules]\nno_cycles = true\n\n\
         --- Immediate scan results ---\n"
    );
    assert_eq!(run_add_rule(&request, "[").unwrap_err(), "parsing existing AetherLink.toml");
    let request = read_remove_rule(&json(
        r#"{"project_path": "/p", "rule_type": "no_cycles", "params": {}}"#,
    ))
    .unwrap();
    let step = run_remove_rule(&request, Some("[rules]\nno_cycles = true\n")).unwrap();
    assert_eq!(step.write.as_deref(), Some("[rules]\n"));
    assert!(step.head.starts_with("Rule removed: no_cycles. I am no longer enforcing it.\n- File: /p/AetherLink.toml\n"));
    let step = run_remove_rule(&request, Some("[rules]\nmax_file_lines = 1\n")).unwrap();
    assert!(step.write.is_none());
    assert!(step.head.starts_with("Rule 'no_cycles' was not set in AetherLink.toml — nothing to remove.\n"));
    let step = run_remove_rule(&request, None).unwrap();
    assert_eq!(
        step.head,
        "No AetherLink.toml at /p/AetherLink.toml. Nothing to remove.\n\n--- Re-scan results ---\n"
    );
    assert_eq!(finish_rule_reply("h\n", &Ok("s".to_string())), "h\ns");
    assert_eq!(finish_rule_reply("h\n", &Err("e".to_string())), "h\n(re-scan failed: e)");
    assert_eq!(read_add_rule(&json("{}")).unwrap_err(), "missing 'project_path' argument");
    assert_eq!(read_remove_rule(&json(r#"{"project_path": "/p"}"#)).unwrap_err(), "missing 'rule_type' argument");
}
