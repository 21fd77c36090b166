use aetherlink::graph::DependencyGraph;
use aetherlink::rules::validator::path_in_folder;
use aetherlink::rules::{validate, validate_with_overrides, ForbiddenImport, Rules, RulesFile, Severity};
use aetherlink::scanner::{Language, ScannedFile};

fn dummy_file(path: &str, lines: usize) -> ScannedFile {
    ScannedFile {
        path: path.to_string(),
        language: Language::Rust,
        imports: Vec::new(),
        exports: Vec::new(),
        line_count: lines,
    }
}

#[test]
fn max_file_lines_flags_oversized_files() {
    let files = vec![
        dummy_file("src/small.rs", 100),
        dummy_file("src/big.rs", 600),
        dummy_file("src/exact.rs", 500),
    ];
    let graph = DependencyGraph::new("/project");
    let rules = Rules {
        max_file_lines: Some(500),
        ..Default::default()
    };
    let v = validate(&files, &graph, &rules);
    assert_eq!(v.len(), 1);
    assert_eq!(v[0].rule, "max_file_lines");
    assert!(v[0].message.contains("big.rs"));
    assert!(v[0].message.contains("600"));
}

#[test]
fn max_file_lines_disabled_when_none() {
    let files = vec![dummy_file("src/huge.rs", 99_999)];
    let graph = DependencyGraph::new("/project");
    let rules = Rules::default();
    assert!(validate(&files, &graph, &rules).is_empty());
}

#[test]
fn forbidden_imports_blocks_matching_edge() {
    let mut graph = DependencyGraph::new("/project");
    graph.add_file("src/ui/button.rs");
    graph.add_file("src/db/conn.rs");
    graph.add_file("src/api/handler.rs");
    graph.add_dependency("src/ui/button.rs", "src/db/conn.rs");
    graph.add_dependency("src/api/handler.rs", "src/db/conn.rs");

    let rules = Rules {
        forbidden_imports: vec![ForbiddenImport {
            from: "ui".into(),
            to: "db".into(),
        }],
        ..Default::default()
    };

    let v = validate(&[], &graph, &rules);
    assert_eq!(v.len(), 1, "only ui->db should be flagged, not api->db");
    assert_eq!(v[0].rule, "forbidden_imports");
    assert!(v[0].message.contains("button.rs"));
    assert!(v[0].message.contains("conn.rs"));
}

#[test]
fn forbidden_imports_is_case_insensitive() {
    // Regression test for cross-platform consistency. On Linux,
    // `src/UI/Button.rs` and `src/ui/button.rs` are different paths,
    // but a rule like `ui -> db` should match either folder casing
    // so the same AetherLink.toml enforces the same boundary on
    // every developer's machine, not just on case-insensitive ones.
    let mut graph = DependencyGraph::new("/project");
    graph.add_file("src/UI/Button.rs");
    graph.add_file("src/DB/Conn.rs");
    graph.add_dependency("src/UI/Button.rs", "src/DB/Conn.rs");

    let rules = Rules {
        forbidden_imports: vec![ForbiddenImport {
            from: "ui".into(),
            to: "db".into(),
        }],
        ..Default::default()
    };

    let v = validate(&[], &graph, &rules);
    assert_eq!(
        v.len(),
        1,
        "ui->db rule must match UI->DB folders regardless of case"
    );
}

#[test]
fn forbidden_imports_allows_unrelated_edges() {
    let mut graph = DependencyGraph::new("/project");
    graph.add_file("src/ui/a.rs");
    graph.add_file("src/ui/b.rs");
    graph.add_dependency("src/ui/a.rs", "src/ui/b.rs");

    let rules = Rules {
        forbidden_imports: vec![ForbiddenImport {
            from: "ui".into(),
            to: "db".into(),
        }],
        ..Default::default()
    };
    assert!(validate(&[], &graph, &rules).is_empty());
}

#[test]
fn no_cycles_detects_simple_cycle() {
    let mut graph = DependencyGraph::new("/project");
    graph.add_file("a.rs");
    graph.add_file("b.rs");
    graph.add_file("c.rs");
    graph.add_dependency("a.rs", "b.rs");
    graph.add_dependency("b.rs", "c.rs");
    graph.add_dependency("c.rs", "a.rs");

    let rules = Rules {
        no_cycles: true,
        ..Default::default()
    };
    let v = validate(&[], &graph, &rules);
    assert_eq!(v.len(), 1);
    assert_eq!(v[0].rule, "no_cycles");
    assert!(v[0].message.contains("3 files"));
}

#[test]
fn no_cycles_passes_on_dag() {
    let mut graph = DependencyGraph::new("/project");
    graph.add_file("a.rs");
    graph.add_file("b.rs");
    graph.add_file("c.rs");
    graph.add_dependency("a.rs", "b.rs");
    graph.add_dependency("b.rs", "c.rs");

    let rules = Rules {
        no_cycles: true,
        ..Default::default()
    };
    assert!(validate(&[], &graph, &rules).is_empty());
}

#[test]
fn no_cycles_disabled_when_false() {
    let mut graph = DependencyGraph::new("/project");
    graph.add_file("a.rs");
    graph.add_dependency("a.rs", "a.rs");
    let rules = Rules::default();
    assert!(validate(&[], &graph, &rules).is_empty());
}

#[test]
fn all_rules_combined() {
    let mut graph = DependencyGraph::new("/project");
    graph.add_file("src/ui/x.rs");
    graph.add_file("src/db/y.rs");
    graph.add_dependency("src/ui/x.rs", "src/db/y.rs");
    graph.add_dependency("src/db/y.rs", "src/ui/x.rs");

    let files = vec![dummy_file("src/ui/x.rs", 1000)];
    let rules = Rules {
        max_file_lines: Some(500),
        no_cycles: true,
        forbidden_imports: vec![ForbiddenImport {
            from: "ui".into(),
            to: "db".into(),
        }],
        ..Default::default()
    };
    let v = validate(&files, &graph, &rules);
    // 1 oversized file + 1 forbidden edge + 1 cycle
    assert_eq!(v.len(), 3);
    let kinds: Vec<&str> = v.iter().map(|r| r.rule.as_str()).collect();
    assert!(kinds.contains(&"max_file_lines"));
    assert!(kinds.contains(&"forbidden_imports"));
    assert!(kinds.contains(&"no_cycles"));
}

#[test]
fn messages_are_exact() {
    let mut graph = DependencyGraph::new("/p");
    graph.add_file("src/ui/x.rs");
    graph.add_file("src/db/y.rs");
    graph.add_dependency("src/ui/x.rs", "src/db/y.rs");
    graph.add_dependency("src/ui/x.rs", "src/ui/x.rs");
    let files = vec![dummy_file("src/ui/x.rs", 11)];
    let rules = Rules {
        max_file_lines: Some(10),
        no_cycles: true,
        forbidden_imports: vec![ForbiddenImport { from: "ui".into(), to: "db".into() }],
        ..Default::default()
    };
    let v = validate(&files, &graph, &rules);
    let messages: Vec<&str> = v.iter().map(|x| x.message.as_str()).collect();
    assert_eq!(
        messages,
        vec![
            "src/ui/x.rs has 11 lines, exceeds limit of 10",
            "src/ui/x.rs (in 'ui') imports src/db/y.rs (in 'db'), which is forbidden by rule 'ui -> db'",
            "Circular dependency detected among 1 files (starting at src/ui/x.rs): src/ui/x.rs",
        ]
    );
    assert!(v.iter().all(|x| x.severity == Severity::Error));
}

#[test]
fn overrides_hold_below_the_root_only() {
    let config = RulesFile::from_toml_str(
        "[rules]\nmax_file_lines = 10\n[[overrides]]\npath = \"data/**\"\nmax_file_lines = 100\n",
    )
    .unwrap();
    let files = vec![dummy_file("/p/data/big.rs", 50), dummy_file("/p/src/big.rs", 50)];
    let graph = DependencyGraph::new("/p");
    let v = validate_with_overrides(&files, &graph, &config, Some("/p"));
    assert_eq!(v.len(), 1);
    assert!(v[0].message.starts_with("/p/src/big.rs"));
    let v = validate_with_overrides(&files, &graph, &config, None);
    assert_eq!(v.len(), 2);
}

#[test]
fn warn_severity_marks_every_violation() {
    let rules = Rules::from_toml_str("[rules]\nmax_file_lines = 1\nseverity = \"warn\"\n").unwrap();
    let graph = DependencyGraph::new("/p");
    let v = validate(&[dummy_file("a.rs", 2), dummy_file("b.rs", 3)], &graph, &rules);
    assert_eq!(v.len(), 2);
    assert!(v.iter().all(|x| x.severity == Severity::Warning));
}

#[test]
fn folders_match_whole_components_above_the_file() {
    assert!(path_in_folder("src/ui/button.tsx", "ui"));
    assert!(path_in_folder("src/UI/button.tsx", "uI"));
    assert!(!path_in_folder("src/guide/button.tsx", "ui"));
    assert!(!path_in_folder("src/ui", "ui"));
    assert!(!path_in_folder("", "ui"));
}

#[test]
fn nothing_is_flagged_unless_a_rule_is_broken() {
    let mut graph = DependencyGraph::new("/p");
    graph.add_file("src/ui/x.rs");
    graph.add_file("src/db/y.rs");
    graph.add_dependency("src/db/y.rs", "src/ui/x.rs");
    let rules = Rules {
        max_file_lines: Some(10),
        no_cycles: true,
        forbidden_imports: vec![ForbiddenImport { from: "ui".into(), to: "db".into() }],
        ..Default::default()
    };
    assert!(validate(&[dummy_file("src/ui/x.rs", 10)], &graph, &rules).is_empty());
    assert!(validate(&[dummy_file("src/ui/x.rs", 99)], &graph, &Rules::default()).is_empty());
}

#[test]
fn each_circle_counts_once() {
    let mut graph = DependencyGraph::new("/p");
    for f in ["a.rs", "b.rs", "c.rs", "d.rs", "e.rs"] {
        graph.add_file(f);
    }
    graph.add_dependency("a.rs", "b.rs");
    graph.add_dependency("b.rs", "a.rs");
    graph.add_dependency("b.rs", "c.rs");
    graph.add_dependency("c.rs", "d.rs");
    graph.add_dependency("d.rs", "c.rs");
    graph.add_dependency("e.rs", "e.rs");
    let rules = Rules { no_cycles: true, ..Default::default() };
    let v = validate(&[], &graph, &rules);
    assert_eq!(v.len(), 3);
    assert!(v.iter().all(|r| r.rule == "no_cycles"));
}
