use aetherlink::rules::config::ArrowError;
use aetherlink::rules::{ConfigError, ForbiddenImport, Rules, RulesFile, Severity};

#[test]
fn parses_full_config() {
    let toml = r#"
        [rules]
        max_file_lines = 500
        no_cycles = true
        forbidden_imports = ["ui -> db", "api -> secret"]
    "#;
    let rules = Rules::from_toml_str(toml).unwrap();
    assert_eq!(rules.max_file_lines, Some(500));
    assert!(rules.no_cycles);
    assert_eq!(rules.forbidden_imports.len(), 2);
    assert_eq!(rules.forbidden_imports[0], ForbiddenImport { from: "ui".into(), to: "db".into() });
    assert_eq!(rules.forbidden_imports[1], ForbiddenImport { from: "api".into(), to: "secret".into() });
}

#[test]
fn empty_config_yields_defaults() {
    let rules = Rules::from_toml_str("").unwrap();
    assert_eq!(rules.max_file_lines, None);
    assert!(!rules.no_cycles);
    assert!(rules.forbidden_imports.is_empty());
}

#[test]
fn partial_config_works() {
    let rules = Rules::from_toml_str("[rules]\nno_cycles = true\n").unwrap();
    assert!(rules.no_cycles);
    assert_eq!(rules.max_file_lines, None);
}

#[test]
fn rejects_malformed_forbidden_import() {
    let toml = r#"
        [rules]
        forbidden_imports = ["ui to db"]
    "#;
    assert!(Rules::from_toml_str(toml).is_err());
}

#[test]
fn forbidden_import_parse_trims_whitespace() {
    let f = ForbiddenImport::parse("  ui   ->   db  ").unwrap();
    assert_eq!(f.from, "ui");
    assert_eq!(f.to, "db");
}

#[test]
fn forbidden_import_errors_are_told() {
    let e = ForbiddenImport::parse("ui to db").unwrap_err();
    assert_eq!(e.kind, ArrowError::MissingArrow);
    assert_eq!(e.message(), "forbidden_imports entry must be 'from -> to', got: ui to db");
    let e = ForbiddenImport::parse(" -> db").unwrap_err();
    assert_eq!(e.kind, ArrowError::EmptySide);
    assert_eq!(e.message(), "forbidden_imports entry has empty side:  -> db");
    let f = ForbiddenImport::parse("a -> b -> c").unwrap();
    assert_eq!((f.from.as_str(), f.to.as_str()), ("a", "b -> c"));
}

#[test]
fn each_config_error_has_an_input() {
    let error = |t: &str| RulesFile::from_toml_str(t).unwrap_err();
    assert_eq!(error("[rules"), ConfigError::Syntax);
    assert_eq!(error("rules = 1"), ConfigError::RulesShape);
    assert_eq!(error("[rules]\nmax_file_lines = -1"), ConfigError::LineLimit);
    assert_eq!(error("[rules]\nmax_file_lines = \"x\""), ConfigError::LineLimit);
    assert_eq!(error("[rules]\nforbidden_imports = [1]"), ConfigError::ForbiddenImports);
    assert_eq!(error("[rules]\nforbidden_imports = \"a -> b\""), ConfigError::ForbiddenImports);
    assert_eq!(error("[rules]\nno_cycles = 1"), ConfigError::NoCycles);
    assert_eq!(error("[rules]\nseverity = \"loud\""), ConfigError::Severity);
    assert_eq!(error("overrides = 1"), ConfigError::Overrides);
    assert_eq!(error("[[overrides]]\nmax_file_lines = 1"), ConfigError::Overrides);
}

#[test]
fn severity_is_read() {
    let severity = |t: &str| Rules::from_toml_str(t).unwrap().default_severity;
    assert_eq!(severity(""), Severity::Error);
    assert_eq!(severity("[rules]\nseverity = \"warn\""), Severity::Warning);
    assert_eq!(severity("[rules]\ndefault_severity = \"warning\""), Severity::Warning);
    assert_eq!(severity("[rules]\nseverity = \"error\""), Severity::Error);
}

#[test]
fn missing_file_means_no_rules() {
    let rules = Rules::load(None).unwrap();
    assert_eq!(rules.max_file_lines, None);
    assert_eq!(Rules::load(Some("[rules]\nmax_file_lines = 3")).unwrap().max_file_lines, Some(3));
    assert!(RulesFile::load(None).unwrap().overrides.is_empty());
    assert_eq!(Rules::config_path("/p"), "/p/AetherLink.toml");
}

#[test]
fn last_matching_override_wins() {
    let text = "[rules]\nmax_file_lines = 10\n\
        [[overrides]]\npath = \"data/**\"\nmax_file_lines = 100\n\
        [[overrides]]\npath = \"data/*.rs\"\nmax_file_lines = 50\n\
        [[overrides]]\npath = \"**/tests/**\"\n";
    let config = RulesFile::from_toml_str(text).unwrap();
    let limit = |p: &str| config.effective_max_file_lines(&aetherlink::paths::components_of(p));
    assert_eq!(limit("src/a.rs"), Some(10));
    assert_eq!(limit("data/a.py"), Some(100));
    assert_eq!(limit("data/deep/a.rs"), Some(100));
    assert_eq!(limit("data/a.rs"), Some(50));
    assert_eq!(limit("src/tests/a.rs"), Some(10));
}

#[test]
fn rules_can_be_written_as_an_array() {
    let rules = Rules::from_toml_str("rules = [500]").unwrap();
    assert_eq!((rules.max_file_lines, rules.no_cycles, rules.forbidden_imports.len()), (Some(500), false, 0));
    let rules = Rules::from_toml_str("rules = [500, [\"ui -> db\"], true, 'x']").unwrap();
    assert_eq!((rules.max_file_lines, rules.no_cycles), (Some(500), true));
    assert_eq!(rules.forbidden_imports, vec![ForbiddenImport { from: "ui".into(), to: "db".into() }]);
    let error = |t: &str| RulesFile::from_toml_str(t).unwrap_err();
    assert_eq!(error("rules = []"), ConfigError::RulesShape);
    assert_eq!(error("rules = ['x']"), ConfigError::LineLimit);
    assert_eq!(error("rules = [5, 6]"), ConfigError::ForbiddenImports);
    assert_eq!(error("rules = [5, [], 6]"), ConfigError::NoCycles);
    assert_eq!(error("[[rules]]\nmax_file_lines = 5"), ConfigError::LineLimit);
    assert_eq!(error("rules = 'x'"), ConfigError::RulesShape);
    assert_eq!(error("rules = 1.5"), ConfigError::RulesShape);
    assert_eq!(error("rules = nan"), ConfigError::RulesShape);
}

#[test]
fn unknown_keys_are_passed_over() {
    let rules = Rules::from_toml_str(
        "x = nan\n[rules]\nmax_file_lines = 5\n[tool]\n\"$__toml_private_datetime\" = 7\nd = 1979-05-27\n",
    )
    .unwrap();
    assert_eq!(rules.max_file_lines, Some(5));
    let rules = Rules::from_toml_str("rules = 1979-05-27").unwrap();
    assert_eq!(rules.max_file_lines, None);
    let rules =
        Rules::from_toml_str("[rules]\n\"$__toml_private_datetime\" = '1979-05-27'\nmax_file_lines = 5\n").unwrap();
    assert_eq!(rules.max_file_lines, Some(5));
    let error = |t: &str| RulesFile::from_toml_str(t).unwrap_err();
    assert_eq!(error("[rules]\nmax_file_lines = 1979-05-27"), ConfigError::LineLimit);
    assert_eq!(error("[rules]\nmax_file_lines = 5.0"), ConfigError::LineLimit);
    assert_eq!(error("[rules]\nforbidden_imports = [1979-05-27]"), ConfigError::ForbiddenImports);
    assert_eq!(error("overrides = [1979-05-27]"), ConfigError::Overrides);
}
