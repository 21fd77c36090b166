//! Source files and what they import.
pub mod file_scanner;
pub mod import_laws;
pub mod import_parser;
pub mod scan_laws;
pub mod syntax;

pub use file_scanner::FileScanner;
pub use import_parser::ImportParser;

use vstd::prelude::*;
use vstd::string::*;

use crate::text::{same, views};

verus! {

/// The languages whose imports are understood.
#[derive(Debug, Clone, Copy, PartialEq, Eq, Structural)]
pub enum Language {
    /// Rust.
    Rust,
    /// TypeScript.
    TypeScript,
    /// JavaScript.
    JavaScript,
    /// Python.
    Python,
    /// Any other.
    Unknown,
}

/// The language of the files with an extension.
pub open spec fn language_of(ext: Seq<char>) -> Language {
    if ext == "rs"@ {
        Language::Rust
    } else if ext == "ts"@ || ext == "tsx"@ {
        Language::TypeScript
    } else if ext == "js"@ || ext == "jsx"@ {
        Language::JavaScript
    } else if ext == "py"@ {
        Language::Python
    } else {
        Language::Unknown
    }
}

impl Language {
    /// The language of the files with an extension.
    pub fn from_extension(ext: &str) -> (r: Language)
        ensures
            r == language_of(ext@),
    {
        if same(ext, "rs") {
            Language::Rust
        } else if same(ext, "ts") || same(ext, "tsx") {
            Language::TypeScript
        } else if same(ext, "js") || same(ext, "jsx") {
            Language::JavaScript
        } else if same(ext, "py") {
            Language::Python
        } else {
            Language::Unknown
        }
    }
}

/// Metadata about a scanned file.
#[derive(Debug)]
pub struct ScannedFile {
    /// Where the file is.
    pub path: String,
    /// What it is written in.
    pub language: Language,
    /// What it imports, as written.
    pub imports: Vec<String>,
    /// What it exports.
    pub exports: Vec<String>,
    /// Number of lines in the file.
    pub line_count: usize,
}

/// What a [`ScannedFile`] holds.
#[verifier::ext_equal]
pub struct ScannedView {
    /// Where the file is.
    pub path: Seq<char>,
    /// What it is written in.
    pub language: Language,
    /// What it imports, as written.
    pub imports: Seq<Seq<char>>,
    /// What it exports.
    pub exports: Seq<Seq<char>>,
    /// Number of lines in the file.
    pub line_count: usize,
}

impl View for ScannedFile {
    type V = ScannedView;

    open spec fn view(&self) -> ScannedView {
        ScannedView {
            path: self.path@,
            language: self.language,
            imports: views(self.imports@),
            exports: views(self.exports@),
            line_count: self.line_count,
        }
    }
}

/// The views of a sequence of files.
pub open spec fn files_view(files: Seq<ScannedFile>) -> Seq<ScannedView> {
    Seq::new(files.len(), |i: int| files[i]@)
}

/// A copy of a vector of texts.
pub fn copy_texts(v: &Vec<String>) -> (out: Vec<String>)
    ensures
        views(out@) == views(v@),
{
    let mut out: Vec<String> = Vec::new();
    let mut i: usize = 0;
    while i < v.len()
        invariant
            i <= v@.len(),
            out@.len() == i,
            forall|k: int| 0 <= k < i ==> #[trigger] out@[k]@ == v@[k]@,
        decreases v.len() - i,
    {
        out.push(v[i].clone());
        i += 1;
    }
    assert(views(out@) =~= views(v@));
    out
}

impl Clone for ScannedFile {
    fn clone(&self) -> (out: Self)
        ensures
            out@ == self@,
    {
        ScannedFile {
            path: self.path.clone(),
            language: self.language,
            imports: copy_texts(&self.imports),
            exports: copy_texts(&self.exports),
            line_count: self.line_count,
        }
    }
}

} // verus!
