use aetherlink::rules::edit::normalize_arrow_rule;
use aetherlink::rules::{EditError, add_rule_to_toml, remove_rule_from_toml, RemovalOutcome, RuleAddition, RuleRemoval, Rules};
use toml::Table;

fn rules_table(text: &str) -> Table {
    let parsed: Table = text.parse().unwrap();
    parsed["rules"].as_table().unwrap().clone()
}

#[test]
fn adds_max_file_lines_to_empty_file() {
    let out = add_rule_to_toml("", &RuleAddition::MaxFileLines(500)).unwrap();
    let r = rules_table(&out);
    assert_eq!(r["max_file_lines"].as_integer(), Some(500));
}

#[test]
fn adds_no_cycles_to_empty_file() {
    let out = add_rule_to_toml("", &RuleAddition::NoCycles(true)).unwrap();
    let r = rules_table(&out);
    assert_eq!(r["no_cycles"].as_bool(), Some(true));
}

#[test]
fn adds_forbidden_import_to_empty_file() {
    let out = add_rule_to_toml(
        "",
        &RuleAddition::ForbiddenImport {
            from: "ui".into(),
            to: "db".into(),
        },
    )
    .unwrap();
    let r = rules_table(&out);
    let arr = r["forbidden_imports"].as_array().unwrap();
    assert_eq!(arr.len(), 1);
    assert_eq!(arr[0].as_str(), Some("ui -> db"));
}

#[test]
fn preserves_existing_rules() {
    let existing = r#"
        [rules]
        max_file_lines = 200
        forbidden_imports = ["api -> secret"]
    "#;
    let out = add_rule_to_toml(
        existing,
        &RuleAddition::ForbiddenImport {
            from: "ui".into(),
            to: "db".into(),
        },
    )
    .unwrap();
    let r = rules_table(&out);
    // Old scalar still there
    assert_eq!(r["max_file_lines"].as_integer(), Some(200));
    // Both forbidden imports present, in order
    let arr = r["forbidden_imports"].as_array().unwrap();
    assert_eq!(arr.len(), 2);
    assert_eq!(arr[0].as_str(), Some("api -> secret"));
    assert_eq!(arr[1].as_str(), Some("ui -> db"));
}

#[test]
fn forbidden_import_is_idempotent() {
    let existing = r#"
        [rules]
        forbidden_imports = ["ui -> db"]
    "#;
    // Same rule, different whitespace.
    let out = add_rule_to_toml(
        existing,
        &RuleAddition::ForbiddenImport {
            from: "ui".into(),
            to: "db".into(),
        },
    )
    .unwrap();
    let r = rules_table(&out);
    assert_eq!(r["forbidden_imports"].as_array().unwrap().len(), 1);
}

#[test]
fn max_file_lines_overwrites_previous() {
    let existing = "[rules]\nmax_file_lines = 100\n";
    let out = add_rule_to_toml(existing, &RuleAddition::MaxFileLines(500)).unwrap();
    let r = rules_table(&out);
    assert_eq!(r["max_file_lines"].as_integer(), Some(500));
}

#[test]
fn rejects_zero_or_negative_line_limit() {
    assert!(add_rule_to_toml("", &RuleAddition::MaxFileLines(0)).is_err());
    assert!(add_rule_to_toml("", &RuleAddition::MaxFileLines(-5)).is_err());
}

#[test]
fn rejects_empty_forbidden_sides() {
    let r = add_rule_to_toml(
        "",
        &RuleAddition::ForbiddenImport {
            from: "".into(),
            to: "db".into(),
        },
    );
    assert!(r.is_err());
}

// ---------- removal tests ----------

#[test]
fn removes_max_file_lines() {
    let existing = "[rules]\nmax_file_lines = 500\nno_cycles = true\n";
    let (out, outcome) =
        remove_rule_from_toml(existing, &RuleRemoval::MaxFileLines).unwrap();
    assert_eq!(outcome, RemovalOutcome::Removed);
    let r = rules_table(&out);
    assert!(r.get("max_file_lines").is_none());
    // Other rules unaffected.
    assert_eq!(r["no_cycles"].as_bool(), Some(true));
}

#[test]
fn removes_no_cycles() {
    let existing = "[rules]\nno_cycles = true\nmax_file_lines = 500\n";
    let (out, outcome) = remove_rule_from_toml(existing, &RuleRemoval::NoCycles).unwrap();
    assert_eq!(outcome, RemovalOutcome::Removed);
    let r = rules_table(&out);
    assert!(r.get("no_cycles").is_none());
    assert_eq!(r["max_file_lines"].as_integer(), Some(500));
}

#[test]
fn removes_specific_forbidden_import_only() {
    let existing = r#"
        [rules]
        forbidden_imports = ["ui -> db", "api -> secret", "tests -> prod"]
    "#;
    let (out, outcome) = remove_rule_from_toml(
        existing,
        &RuleRemoval::ForbiddenImport {
            from: "api".into(),
            to: "secret".into(),
        },
    )
    .unwrap();
    assert_eq!(outcome, RemovalOutcome::Removed);
    let r = rules_table(&out);
    let arr = r["forbidden_imports"].as_array().unwrap();
    assert_eq!(arr.len(), 2);
    assert_eq!(arr[0].as_str(), Some("ui -> db"));
    assert_eq!(arr[1].as_str(), Some("tests -> prod"));
}

#[test]
fn removing_last_forbidden_import_drops_the_key() {
    let existing = "[rules]\nforbidden_imports = [\"ui -> db\"]\n";
    let (out, outcome) = remove_rule_from_toml(
        existing,
        &RuleRemoval::ForbiddenImport {
            from: "ui".into(),
            to: "db".into(),
        },
    )
    .unwrap();
    assert_eq!(outcome, RemovalOutcome::Removed);
    let parsed: Table = out.parse().unwrap();
    let rules = parsed
        .get("rules")
        .and_then(|v| v.as_table())
        .expect("rules table still present");
    assert!(
        rules.get("forbidden_imports").is_none(),
        "empty forbidden_imports array should be cleaned up"
    );
}

#[test]
fn removing_forbidden_import_is_whitespace_insensitive() {
    let existing = "[rules]\nforbidden_imports = [\"ui->db\"]\n"; // no spaces
    let (_out, outcome) = remove_rule_from_toml(
        existing,
        &RuleRemoval::ForbiddenImport {
            from: "ui".into(),
            to: "db".into(),
        },
    )
    .unwrap();
    assert_eq!(outcome, RemovalOutcome::Removed);
}

#[test]
fn removing_nonexistent_scalar_is_noop() {
    let existing = "[rules]\nno_cycles = true\n";
    let (out, outcome) =
        remove_rule_from_toml(existing, &RuleRemoval::MaxFileLines).unwrap();
    assert_eq!(outcome, RemovalOutcome::NotPresent);
    // Existing rule untouched.
    let r = rules_table(&out);
    assert_eq!(r["no_cycles"].as_bool(), Some(true));
}

#[test]
fn removing_nonexistent_forbidden_import_is_noop() {
    let existing = "[rules]\nforbidden_imports = [\"ui -> db\"]\n";
    let (out, outcome) = remove_rule_from_toml(
        existing,
        &RuleRemoval::ForbiddenImport {
            from: "nope".into(),
            to: "missing".into(),
        },
    )
    .unwrap();
    assert_eq!(outcome, RemovalOutcome::NotPresent);
    // The other rule survived.
    let r = rules_table(&out);
    assert_eq!(
        r["forbidden_imports"].as_array().unwrap()[0].as_str(),
        Some("ui -> db")
    );
}

#[test]
fn removing_from_empty_file_is_noop() {
    let (out, outcome) = remove_rule_from_toml("", &RuleRemoval::NoCycles).unwrap();
    assert_eq!(outcome, RemovalOutcome::NotPresent);
    assert_eq!(out, "");
}

#[test]
fn removing_from_file_with_no_rules_section_is_noop() {
    let existing = "[other]\nfoo = 1\n";
    let (out, outcome) =
        remove_rule_from_toml(existing, &RuleRemoval::MaxFileLines).unwrap();
    assert_eq!(outcome, RemovalOutcome::NotPresent);
    let parsed: Table = out.parse().unwrap();
    // Unrelated section preserved.
    assert_eq!(parsed["other"]["foo"].as_integer(), Some(1));
}

#[test]
fn add_then_remove_round_trip() {
    // Add a rule, then remove it, the file should be back to where we started.
    let original = "[rules]\nmax_file_lines = 500\n";
    let added = add_rule_to_toml(
        original,
        &RuleAddition::ForbiddenImport {
            from: "ui".into(),
            to: "db".into(),
        },
    )
    .unwrap();
    let (removed, outcome) = remove_rule_from_toml(
        &added,
        &RuleRemoval::ForbiddenImport {
            from: "ui".into(),
            to: "db".into(),
        },
    )
    .unwrap();
    assert_eq!(outcome, RemovalOutcome::Removed);
    // The scalar rule is still there.
    let r = rules_table(&removed);
    assert_eq!(r["max_file_lines"].as_integer(), Some(500));
    assert!(r.get("forbidden_imports").is_none());
}

#[test]
fn output_round_trips_through_rules_loader() {
    // Make sure whatever we write can be read back by the existing config loader.
    let out = add_rule_to_toml(
        "",
        &RuleAddition::ForbiddenImport {
            from: "ui".into(),
            to: "db".into(),
        },
    )
    .unwrap();
    let out = add_rule_to_toml(&out, &RuleAddition::MaxFileLines(500)).unwrap();
    let out = add_rule_to_toml(&out, &RuleAddition::NoCycles(true)).unwrap();
    let parsed = Rules::from_toml_str(&out).unwrap();
    assert_eq!(parsed.max_file_lines, Some(500));
    assert!(parsed.no_cycles);
    assert_eq!(parsed.forbidden_imports.len(), 1);
    assert_eq!(parsed.forbidden_imports[0].from, "ui");
    assert_eq!(parsed.forbidden_imports[0].to, "db");
}

#[test]
fn each_edit_error_has_an_input() {
    let rule = RuleAddition::ForbiddenImport { from: "ui".into(), to: "db".into() };
    let error = |t: &str, a: &RuleAddition| add_rule_to_toml(t, a).unwrap_err();
    assert_eq!(error("[rules", &rule), EditError::Parse);
    assert_eq!(error("rules = 1", &rule), EditError::RulesNotTable);
    assert_eq!(error("", &RuleAddition::MaxFileLines(-5)), EditError::LineLimit(-5));
    assert_eq!(error("rules = 1", &RuleAddition::MaxFileLines(-5)), EditError::RulesNotTable);
    let empty = RuleAddition::ForbiddenImport { from: "ui".into(), to: "".into() };
    assert_eq!(error("", &empty), EditError::EmptySide);
    assert_eq!(error("[rules]\nforbidden_imports = 1", &rule), EditError::ForbiddenNotArray);
    assert_eq!(
        remove_rule_from_toml("rules = 1", &RuleRemoval::NoCycles).unwrap_err(),
        EditError::RulesNotTable
    );
    assert_eq!(EditError::Parse.message(), "parsing existing AetherLink.toml");
    assert_eq!(EditError::LineLimit(-5).message(), "max_file_lines must be positive, got -5");
    assert_eq!(EditError::EmptySide.message(), "forbidden_import 'from' and 'to' must be non-empty");
    assert_eq!(EditError::Print.message(), "serializing updated AetherLink.toml");
}

#[test]
fn labels_are_exact() {
    let rule = RuleAddition::ForbiddenImport { from: "ui".into(), to: "db".into() };
    assert_eq!(rule.human_label(), "forbidden_imports += \"ui -> db\"");
    assert_eq!(RuleAddition::MaxFileLines(500).human_label(), "max_file_lines = 500");
    assert_eq!(RuleAddition::NoCycles(false).human_label(), "no_cycles = false");
    let rule = RuleRemoval::ForbiddenImport { from: "ui".into(), to: "db".into() };
    assert_eq!(rule.human_label(), "forbidden_imports -= \"ui -> db\"");
    assert_eq!(RuleRemoval::MaxFileLines.human_label(), "max_file_lines");
    assert_eq!(rule.clone(), rule);
}

#[test]
fn arrows_are_normalized() {
    for s in ["ui->db", " ui  ->  db ", "a->b->c", "plain", "", "->", "ui -\u{2009}> db"] {
        let expected = s.split("->").map(|p| p.trim()).collect::<Vec<_>>().join(" -> ");
        assert_eq!(normalize_arrow_rule(s), expected);
    }
}

#[test]
fn unknown_keys_survive_an_edit() {
    let text = "top = 1\n[rules]\nfuture = [1.5, 2]\n[other]\nwhen = 1979-05-27\n";
    let out = add_rule_to_toml(text, &RuleAddition::NoCycles(true)).unwrap();
    let before: Table = text.parse().unwrap();
    let after: Table = out.parse().unwrap();
    assert_eq!(before["top"], after["top"]);
    assert_eq!(before["other"], after["other"]);
    assert_eq!(before["rules"]["future"], after["rules"]["future"]);
    assert_eq!(after["rules"]["no_cycles"].as_bool(), Some(true));
}

#[test]
fn adding_twice_is_adding_once() {
    let rule = RuleAddition::ForbiddenImport { from: "ui".into(), to: "db".into() };
    let once = add_rule_to_toml("[rules]\nforbidden_imports = [\"a -> b\"]\n", &rule).unwrap();
    let twice = add_rule_to_toml(&once, &rule).unwrap();
    assert_eq!(once, twice);
}

#[test]
fn added_rule_is_read_back_and_removed_rule_is_gone() {
    let rule = RuleAddition::ForbiddenImport { from: "ui".into(), to: "db".into() };
    let text = "[rules]\nforbidden_imports = [\"api -> secret\", \"ui  ->  db\"]\n";
    let out = add_rule_to_toml(text, &rule).unwrap();
    assert_eq!(Rules::from_toml_str(&out).unwrap().forbidden_imports.len(), 2);
    let removal = RuleRemoval::ForbiddenImport { from: "ui".into(), to: "db".into() };
    let (out, outcome) = remove_rule_from_toml(&out, &removal).unwrap();
    assert_eq!(outcome, RemovalOutcome::Removed);
    let left = Rules::from_toml_str(&out).unwrap().forbidden_imports;
    assert_eq!(left.len(), 1);
    assert_eq!(left[0].from, "api");
    let (_, outcome) = remove_rule_from_toml(&out, &removal).unwrap();
    assert_eq!(outcome, RemovalOutcome::NotPresent);
}

#[test]
fn removal_from_an_empty_array_changes_nothing() {
    let removal = RuleRemoval::ForbiddenImport { from: "ui".into(), to: "db".into() };
    let text = "[rules]\nforbidden_imports = []\nno_cycles = true\n";
    let (out, outcome) = remove_rule_from_toml(text, &removal).unwrap();
    assert_eq!(outcome, RemovalOutcome::NotPresent);
    assert_eq!(out.parse::<Table>().unwrap(), text.parse::<Table>().unwrap());
    assert!(rules_table(&out).get("forbidden_imports").unwrap().as_array().unwrap().is_empty());
}

#[test]
fn outcome_tells_whether_the_document_changed() {
    let texts = [
        "[rules]\nmax_file_lines = 5\n",
        "[rules]\nno_cycles = false\n",
        "[rules]\nforbidden_imports = [\"ui->db\", \"a -> b\"]\n",
        "[rules]\nforbidden_imports = [\"ui -> db\"]\n",
        "[other]\nx = 1\n",
    ];
    let removals = [
        RuleRemoval::MaxFileLines,
        RuleRemoval::NoCycles,
        RuleRemoval::ForbiddenImport { from: "ui".into(), to: "db".into() },
    ];
    for text in texts {
        for removal in &removals {
            let (out, outcome) = remove_rule_from_toml(text, removal).unwrap();
            let same = out.parse::<Table>().unwrap() == text.parse::<Table>().unwrap();
            assert_eq!(outcome == RemovalOutcome::NotPresent, same);
        }
    }
}

#[test]
fn too_many_quotes_in_a_row_are_refused() {
    let fits = "\"".repeat(255);
    let text = format!("[[deep]]\nx = [[{{ y = '{fits}' }}]]\n");
    let out = add_rule_to_toml(&text, &RuleAddition::NoCycles(true)).unwrap();
    let after: Table = out.parse().unwrap();
    assert_eq!(after["deep"], text.parse::<Table>().unwrap()["deep"]);
    for quotes in ["\"".repeat(256), format!("a{}", "\"".repeat(300))] {
        let text = format!("[[deep]]\nx = [[{{ y = '{quotes}' }}]]\n");
        assert_eq!(add_rule_to_toml(&text, &RuleAddition::NoCycles(true)), Err(EditError::Quotes));
        assert_eq!(remove_rule_from_toml(&text, &RuleRemoval::NoCycles), Err(EditError::Quotes));
    }
    let rule = RuleAddition::ForbiddenImport { from: "'".repeat(256), to: "db".into() };
    assert_eq!(add_rule_to_toml("", &rule), Err(EditError::Quotes));
    let rule = RuleAddition::ForbiddenImport { from: "'\"".repeat(256), to: "db".into() };
    assert!(add_rule_to_toml("", &rule).is_ok());
    assert_eq!(
        EditError::Quotes.message(),
        "a string in AetherLink.toml holds too many quotes in a row"
    );
}

#[test]
fn floats_and_dates_survive_edits() {
    let text = "[rules]\nno_cycles = true\n\n[tool]\nf = [1.5, -0.0, 1e300, 5e-324, inf, -inf]\n\
        d = [1979-05-27T07:32:00-08:00, 1979-05-27, 07:32:00.5]\n";
    let rule = RuleAddition::ForbiddenImport { from: "ui".into(), to: "db".into() };
    let once = add_rule_to_toml(text, &rule).unwrap();
    let twice = add_rule_to_toml(&once, &rule).unwrap();
    assert_eq!(once.parse::<Table>().unwrap(), twice.parse::<Table>().unwrap());
    let removal = RuleRemoval::ForbiddenImport { from: "ui".into(), to: "db".into() };
    let (back, outcome) = remove_rule_from_toml(&twice, &removal).unwrap();
    assert_eq!(outcome, RemovalOutcome::Removed);
    assert_eq!(back.parse::<Table>().unwrap(), text.parse::<Table>().unwrap());
}

#[test]
fn signs_of_nan_are_dropped_once() {
    let text = "x = -nan\n[rules]\nno_cycles = true\n";
    let rule = RuleAddition::ForbiddenImport { from: "ui".into(), to: "db".into() };
    let once = add_rule_to_toml(text, &rule).unwrap();
    let twice = add_rule_to_toml(&once, &rule).unwrap();
    assert_eq!(once, twice);
    assert!(once.contains("x = nan"));
    let rules = Rules::from_toml_str(&once).unwrap();
    assert!(rules.no_cycles);
    assert_eq!(rules.forbidden_imports.len(), 1);
}

#[test]
fn deep_documents_survive_edits() {
    let mut inner = "1".to_string();
    for _ in 0..79 {
        inner = format!("[{inner}]");
    }
    let path = vec!["t"; 79].join(".");
    let text = format!("a = {inner}\n\n[{path}]\nx = {inner}\n\n[[u.{}]]\ny = {inner}\n", vec!["v"; 78].join("."));
    let out = add_rule_to_toml(&text, &RuleAddition::MaxFileLines(7)).unwrap();
    let (back, _) = remove_rule_from_toml(&out, &RuleRemoval::MaxFileLines).unwrap();
    let mut restored: Table = back.parse().unwrap();
    assert!(restored.remove("rules").is_some());
    assert_eq!(restored, text.parse::<Table>().unwrap());
}

#[test]
fn blank_texts_hold_no_rules() {
    let text = " \n\t\n";
    let rules = Rules::from_toml_str(text).unwrap();
    assert_eq!((rules.max_file_lines, rules.no_cycles, rules.forbidden_imports.len()), (None, false, 0));
    let out = add_rule_to_toml(text, &RuleAddition::MaxFileLines(7)).unwrap();
    assert!(!out.trim().is_empty());
    let rules = Rules::from_toml_str(&out).unwrap();
    assert_eq!((rules.max_file_lines, rules.no_cycles, rules.forbidden_imports.len()), (Some(7), false, 0));
}

#[test]
fn overrides_and_nested_tables_survive_an_edit() {
    let text = "[rules]\nmax_file_lines = 5\n\n[[overrides]]\npath = \"data/**\"\nmax_file_lines = 9\n\n\
        [[overrides]]\npath = \"x\"\n\n[tool.deep.er]\nnames = [\"a\\nb\", \"it's\"]\nempty = []\n";
    let rule = RuleAddition::ForbiddenImport { from: "ui".into(), to: "db".into() };
    let out = add_rule_to_toml(text, &rule).unwrap();
    let before: Table = text.parse().unwrap();
    let after: Table = out.parse().unwrap();
    assert_eq!(before["overrides"], after["overrides"]);
    assert_eq!(before["tool"], after["tool"]);
    let removal = RuleRemoval::ForbiddenImport { from: "ui".into(), to: "db".into() };
    let (back, _) = remove_rule_from_toml(&out, &removal).unwrap();
    let restored: Table = back.parse().unwrap();
    assert_eq!(restored, before);
}
