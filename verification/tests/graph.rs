use aetherlink::disk::DiskSnapshot;
use aetherlink::graph::DependencyGraph;
use aetherlink::scanner::{Language, ScannedFile};

fn file(path: &str, language: Language, imports: &[&str]) -> ScannedFile {
    ScannedFile {
        path: path.to_string(),
        language,
        imports: imports.iter().map(|s| s.to_string()).collect(),
        exports: Vec::new(),
        line_count: 1,
    }
}

fn disk(files: &[&str]) -> DiskSnapshot {
    let mut d = DiskSnapshot::new();
    for f in files {
        d.record(f, true);
    }
    d
}

fn resolve(from: &str, import: &str, language: Language, files: &[&str]) -> Option<String> {
    DependencyGraph::new("/p").resolve_import(from, import, language, &disk(files))
}

#[test]
fn rust_imports_resolve_to_files() {
    let r = |from: &str, import: &str, files: &[&str]| resolve(from, import, Language::Rust, files);
    let from = "/p/src/a/b.rs";
    assert_eq!(r(from, "crate::x::Y", &["/p/src/x.rs"]), Some("/p/src/x.rs".into()));
    assert_eq!(r(from, "crate::x::y", &["/p/src/x.rs", "/p/src/x/y.rs"]), Some("/p/src/x/y.rs".into()));
    assert_eq!(r(from, "crate::x::Y", &["/p/src/x/mod.rs"]), Some("/p/src/x/mod.rs".into()));
    assert_eq!(r(from, "crate::x", &["/p/src/x.rs", "/p/src/x/mod.rs"]), Some("/p/src/x.rs".into()));
    assert_eq!(r(from, "self::c::D", &["/p/src/a/c.rs"]), Some("/p/src/a/c.rs".into()));
    assert_eq!(r(from, "super::c", &["/p/src/c.rs"]), Some("/p/src/c.rs".into()));
    assert_eq!(r(from, "graph", &["/p/src/a/graph.rs"]), Some("/p/src/a/graph.rs".into()));
    assert_eq!(r(from, "graph", &["/p/src/a/graph.rs", "/p/src/graph.rs"]), Some("/p/src/graph.rs".into()));
    assert_eq!(r(from, "serde::Value", &["/p/src/a/serde.rs"]), None);
    assert_eq!(r(from, "std::fmt", &["/p/src/fmt.rs", "/p/src/std.rs"]), None);
    assert_eq!(r("b.rs", "super::c", &["/p/src/c.rs", "c.rs"]), None);
}

#[test]
fn python_imports_resolve_to_files() {
    let r = |from: &str, import: &str, files: &[&str]| resolve(from, import, Language::Python, files);
    let from = "/p/pkg/sub/m.py";
    assert_eq!(r(from, "pkg.x", &["/p/pkg/x.py"]), Some("/p/pkg/x.py".into()));
    assert_eq!(r(from, "pkg.x", &["/p/pkg/x/__init__.py"]), Some("/p/pkg/x/__init__.py".into()));
    assert_eq!(r(from, ".y", &["/p/pkg/sub/y.py"]), Some("/p/pkg/sub/y.py".into()));
    assert_eq!(r(from, "..y", &["/p/pkg/y.py"]), Some("/p/pkg/y.py".into()));
    assert_eq!(r(from, ".", &["/p/pkg/sub/__init__.py"]), Some("/p/pkg/sub/__init__.py".into()));
    assert_eq!(r(from, "os", &["/usr/lib/os.py"]), None);
    assert_eq!(r("/m.py", "...y", &["/y.py"]), None);
}

#[test]
fn script_imports_resolve_to_files() {
    let r = |import: &str, files: &[&str]| {
        resolve("/p/src/screens/a.ts", import, Language::TypeScript, files)
    };
    assert_eq!(r("./b", &["/p/src/screens/b.ts"]), Some("/p/src/screens/b.ts".into()));
    assert_eq!(r("../data/recipes", &["/p/src/data/recipes.js"]), Some("/p/src/data/recipes.js".into()));
    assert_eq!(r("../data", &["/p/src/data/index.tsx"]), Some("/p/src/data/index.tsx".into()));
    assert_eq!(r("./b", &["/p/src/screens/b.tsx", "/p/src/screens/b.js"]), Some("/p/src/screens/b.tsx".into()));
    assert_eq!(r("./style.css", &["/p/src/screens/style.css"]), Some("/p/src/screens/style.css".into()));
    assert_eq!(r("react", &["/p/src/screens/react.ts"]), None);
    assert_eq!(resolve("/p/a.js", "./b", Language::JavaScript, &["/p/b.cjs"]), Some("/p/b.cjs".into()));
    assert_eq!(resolve("/p/a", "./b", Language::Unknown, &["/p/b.ts"]), None);
    let mut folder = DiskSnapshot::new();
    folder.record("/p/src/screens/b", false);
    let graph = DependencyGraph::new("/p");
    assert_eq!(graph.resolve_import("/p/src/screens/a.ts", "./b", Language::TypeScript, &folder), None);
}

#[test]
fn build_adds_nodes_and_resolved_edges() {
    let files = vec![
        file("/p/src/a.rs", Language::Rust, &["crate::b::X", "std::fmt", "crate::b::Y"]),
        file("/p/src/b.rs", Language::Rust, &["crate::c"]),
    ];
    let mut graph = DependencyGraph::new("/p");
    let probes = graph.probes(&files);
    assert!(probes.contains(&"/p/src/b.rs".to_string()));
    assert!(probes.contains(&"/p/src/c/mod.rs".to_string()));
    graph.build(&files, &disk(&["/p/src/a.rs", "/p/src/b.rs", "/p/src/c.rs"]));
    assert_eq!((graph.node_count(), graph.edge_count()), (2, 2));
    assert_eq!(graph.files(), vec!["/p/src/a.rs", "/p/src/b.rs"]);
    let a = "/p/src/a.rs".to_string();
    let b = "/p/src/b.rs".to_string();
    assert_eq!(graph.edges(), vec![(&a, &b), (&a, &b)]);
    assert_eq!(graph.dependencies_of(&a), vec![&b, &b]);
    assert_eq!(graph.dependents_of(&b), vec![&a, &a]);
    assert!(graph.dependents_of(&a).is_empty());
    assert!(graph.dependencies_of("/p/src/zzz.rs").is_empty());
}

#[test]
fn neighbors_come_newest_first() {
    let mut graph = DependencyGraph::new("/p");
    for f in ["a", "b", "c"] {
        graph.add_file(f);
    }
    assert!(graph.add_dependency("a", "b"));
    assert!(graph.add_dependency("a", "c"));
    assert!(graph.add_dependency("b", "c"));
    assert!(!graph.add_dependency("a", "d"));
    assert_eq!(graph.dependencies_of("a"), vec!["c", "b"]);
    assert_eq!(graph.dependents_of("c"), vec!["b", "a"]);
    graph.add_file("a/.");
    assert_eq!(graph.node_count(), 3);
}

#[test]
fn cycles_are_the_files_that_depend_on_themselves() {
    let mut graph = DependencyGraph::new("/p");
    for f in ["a", "b", "c", "d", "e"] {
        graph.add_file(f);
    }
    assert!(graph.find_cycles().is_empty());
    graph.add_dependency("a", "b");
    graph.add_dependency("b", "c");
    assert!(graph.find_cycles().is_empty());
    graph.add_dependency("c", "a");
    graph.add_dependency("c", "d");
    graph.add_dependency("e", "e");
    let mut groups: Vec<Vec<String>> = graph
        .find_cycles()
        .iter()
        .map(|c| {
            let mut names: Vec<String> = c.iter().map(|s| s.to_string()).collect();
            names.sort();
            names
        })
        .collect();
    groups.sort();
    assert_eq!(groups, vec![vec!["a", "b", "c"], vec!["e"]]);
}
