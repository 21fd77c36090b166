use aetherlink::scanner::file_scanner::WalkEntry;
use aetherlink::scanner::{FileScanner, Language};

fn entry(path: &str, is_file: bool, source: Option<&str>) -> WalkEntry {
    WalkEntry { path: path.to_string(), is_file, source: source.map(|s| s.to_string()) }
}

#[test]
fn build_folders_are_ignored() {
    let scanner = FileScanner::new("/p");
    assert_eq!(scanner.root(), "/p");
    for name in ["target", "node_modules", ".git", "__pycache__", "dist", "build", ".venv", "venv"] {
        assert!(scanner.is_ignored(&format!("/p/{name}")));
        assert!(scanner.is_ignored(&format!("/p/src/{name}/")));
    }
    assert!(!scanner.is_ignored("/p/src"));
    assert!(!scanner.is_ignored("/p/target.rs"));
    assert!(!scanner.is_ignored("/p/.."));
}

#[test]
fn only_source_files_are_read() {
    let scanner = FileScanner::new("/p");
    assert!(scanner.is_source("/p/a.rs", true));
    assert!(!scanner.is_source("/p/a.rs", false));
    assert!(!scanner.is_source("/p/a.md", true));
    assert!(!scanner.is_source("/p/.rs", true));
}

#[test]
fn scan_lists_readable_sources_in_order() {
    let scanner = FileScanner::new("/p");
    let entries = vec![
        entry("/p", false, None),
        entry("/p/b.py", true, Some("import os\n\nprint(1)")),
        entry("/p/readme.md", true, Some("x")),
        entry("/p/a.rs", true, Some("use crate::x;\r\nfn f() {}\r\n")),
        entry("/p/unreadable.rs", true, None),
    ];
    let files = scanner.scan(&entries).unwrap();
    let paths: Vec<&str> = files.iter().map(|f| f.path.as_str()).collect();
    assert_eq!(paths, vec!["/p/b.py", "/p/a.rs"]);
    assert_eq!(files[0].language, Language::Python);
    assert_eq!(files[0].imports, vec!["os"]);
    assert_eq!(files[0].line_count, 3);
    assert_eq!(files[1].imports, vec!["crate::x"]);
    assert_eq!(files[1].line_count, 2);
    assert!(files[1].exports.is_empty());
}

#[test]
fn ignored_folders_are_left_out_of_a_scan() {
    let scanner = FileScanner::new("/work/build");
    assert!(scanner.covers("/work/build"));
    assert!(scanner.covers("/work/build/src/a.rs"));
    assert!(!scanner.covers("/work/build/src/node_modules/b.js"));
    assert!(!scanner.covers("/work/build/dist"));
    assert!(!scanner.covers("/work/other/c.rs"));
    let entries = vec![
        entry("/work/build", false, None),
        entry("/work/build/src/a.rs", true, Some("")),
        entry("/work/build/src/node_modules/b.js", true, Some("")),
        entry("/work/build/target/debug/d.rs", true, Some("")),
        entry("/work/other/c.rs", true, Some("")),
        entry("/work/build/targets/e.rs", true, Some("")),
    ];
    let files = scanner.scan(&entries).unwrap();
    let paths: Vec<&str> = files.iter().map(|f| f.path.as_str()).collect();
    assert_eq!(paths, vec!["/work/build/src/a.rs", "/work/build/targets/e.rs"]);
}
