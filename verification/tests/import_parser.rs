use aetherlink::scanner::import_parser::imports_from_captures;
use aetherlink::scanner::{ImportParser, Language};

#[test]
fn test_rust_imports() {
    let parser = ImportParser::new().unwrap();
    let source = r#"
use std::collections::HashMap;
use crate::scanner::FileScanner;
mod graph;
"#;
    let imports = parser.parse(source, &Language::Rust);
    assert!(imports.contains(&"std::collections::HashMap".to_string()));
    assert!(imports.contains(&"crate::scanner::FileScanner".to_string()));
    assert!(imports.contains(&"graph".to_string()));
}

#[test]
fn test_python_imports() {
    let parser = ImportParser::new().unwrap();
    let source = r#"
import os
from pathlib import Path
from . import utils
"#;
    let imports = parser.parse(source, &Language::Python);
    assert!(imports.contains(&"os".to_string()));
    assert!(imports.contains(&"pathlib".to_string()));
}

#[test]
fn test_javascript_imports() {
    let parser = ImportParser::new().unwrap();
    let source = r#"
import React from 'react';
import { useState } from 'react';
const fs = require('fs');
"#;
    let imports = parser.parse(source, &Language::JavaScript);
    assert!(imports.contains(&"react".to_string()));
    assert!(imports.contains(&"fs".to_string()));
}

#[test]
fn test_typescript_imports() {
    let parser = ImportParser::new().unwrap();
    let source = r#"
import { Component } from '@angular/core';
import * as path from 'path';
"#;
    let imports = parser.parse(source, &Language::TypeScript);
    assert!(imports.contains(&"@angular/core".to_string()));
    assert!(imports.contains(&"path".to_string()));
}

#[test]
fn imports_come_in_order_and_without_quotes() {
    let parser = ImportParser::new().unwrap();
    let source = "import b from \"./b\";\nconst a = require('./a');\nconst c = other('./c');\n";
    assert_eq!(parser.parse(source, &Language::JavaScript), vec!["./b", "./a"]);
    assert_eq!(parser.parse(source, &Language::TypeScript), vec!["./b", "./a"]);
    assert!(parser.parse(source, &Language::Unknown).is_empty());
}

#[test]
fn python_and_rust_imports_are_exact() {
    let parser = ImportParser::new().unwrap();
    let source = "import os\nfrom pathlib import Path\nfrom . import utils\n";
    assert_eq!(parser.parse(source, &Language::Python), vec!["os", "pathlib", "."]);
    let source = "use std::fmt;\nmod graph;\nmod inline { }\n";
    assert_eq!(parser.parse(source, &Language::Rust), vec!["std::fmt", "graph"]);
}

#[test]
fn captures_become_imports() {
    let all: Vec<(String, String)> = vec![
        ("_func".to_string(), "require".to_string()),
        ("import".to_string(), "'./a'".to_string()),
        ("import".to_string(), "\"\"".to_string()),
        ("mod_name".to_string(), "graph".to_string()),
    ];
    assert_eq!(imports_from_captures(&all), vec!["./a", "graph"]);
}

#[test]
fn languages_go_by_extension() {
    let of = |e: &str| Language::from_extension(e);
    assert_eq!(of("rs"), Language::Rust);
    assert_eq!(of("tsx"), Language::TypeScript);
    assert_eq!(of("ts"), Language::TypeScript);
    assert_eq!(of("js"), Language::JavaScript);
    assert_eq!(of("jsx"), Language::JavaScript);
    assert_eq!(of("py"), Language::Python);
    assert_eq!(of("mjs"), Language::Unknown);
    assert_eq!(of("RS"), Language::Unknown);
    assert_eq!(of(""), Language::Unknown);
}
