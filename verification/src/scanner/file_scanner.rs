//! From the entries of a directory tree to scanned files.
use vstd::prelude::*;

use super::import_laws::reads_statements;
use super::import_parser::{unready_language, source_imports, ImportParser, ParserError};
use super::{files_view, language_of, Language, ScannedFile, ScannedView};
use crate::paths::{
    components_below, extension_of, extension_or_empty, file_name, file_name_of,
    path_starts_with, relative_components, starts_with,
};
use crate::text::{char_views, chars_of, line_count, line_total, opt_view, same_chars, views};

verus! {

/// The names of files and folders that are left out of a scan.
pub open spec fn ignored_names() -> Seq<Seq<char>> {
    seq![
        "target"@,
        "node_modules"@,
        ".git"@,
        "__pycache__"@,
        "dist"@,
        "build"@,
        ".venv"@,
        "venv"@,
    ]
}

/// Whether the entry is left out of a scan, with all that lies below it.
pub open spec fn ignored(path: Seq<char>) -> bool {
    match file_name(path) {
        Some(name) => ignored_names().contains(name),
        None => false,
    }
}

/// Whether a scan of the root comes to the path: it lies below the root, and no
/// component below the root is one of the names that are left out.
pub open spec fn covered(path: Seq<char>, root: Seq<char>) -> bool {
    starts_with(path, root) && forall|i: int|
        0 <= i < components_below(path, Some(root)).len() ==> !ignored_names().contains(
            #[trigger] components_below(path, Some(root))[i],
        )
}

/// The language of a file, by its extension.
pub open spec fn path_language(path: Seq<char>) -> Language {
    language_of(extension_or_empty(path))
}

/// An entry of a directory tree.
#[derive(Debug)]
pub struct WalkEntry {
    /// Where the entry is.
    pub path: String,
    /// Whether it is a regular file.
    pub is_file: bool,
    /// The text of the file, where it was read.
    pub source: Option<String>,
}

/// What a [`WalkEntry`] holds.
pub struct EntryView {
    /// Where the entry is.
    pub path: Seq<char>,
    /// Whether it is a regular file.
    pub is_file: bool,
    /// The text of the file, where it was read.
    pub source: Option<Seq<char>>,
}

impl View for WalkEntry {
    type V = EntryView;

    open spec fn view(&self) -> EntryView {
        EntryView { path: self.path@, is_file: self.is_file, source: opt_view(self.source) }
    }
}

/// The views of a sequence of entries.
pub open spec fn entries_view(v: Seq<WalkEntry>) -> Seq<EntryView> {
    Seq::new(v.len(), |i: int| v[i]@)
}

/// What is known of a file after it was scanned.
pub open spec fn scanned(path: Seq<char>, source: Seq<char>) -> ScannedView {
    ScannedView {
        path,
        language: path_language(path),
        imports: source_imports(source, path_language(path)),
        exports: Seq::empty(),
        line_count: line_total(source) as usize,
    }
}

/// What a scan of the root makes of an entry: nothing unless the scan comes to
/// it, and it is a regular file in a known language that could be read.
pub open spec fn scanned_entry(entry: EntryView, root: Seq<char>) -> Seq<ScannedView> {
    match entry.source {
        Some(source) => if entry.is_file && path_language(entry.path) != Language::Unknown
            && covered(entry.path, root) {
            seq![scanned(entry.path, source)]
        } else {
            Seq::empty()
        },
        None => Seq::empty(),
    }
}

/// What a scan of the root makes of the first `n` entries.
pub open spec fn scanned_entries(entries: Seq<EntryView>, root: Seq<char>, n: int) -> Seq<ScannedView>
    decreases n,
{
    if n <= 0 {
        Seq::empty()
    } else {
        scanned_entries(entries, root, n - 1) + scanned_entry(entries[n - 1], root)
    }
}

/// Collects file metadata and imports of a project directory.
#[derive(Debug)]
pub struct FileScanner {
    root: String,
    ignore_patterns: Vec<String>,
}

impl FileScanner {
    /// The directory that is scanned.
    pub closed spec fn root_text(&self) -> Seq<char> {
        self.root@
    }

    /// Whether the scanner leaves out the names that a new one leaves out.
    pub closed spec fn wf(&self) -> bool {
        views(self.ignore_patterns@) == ignored_names()
    }

    /// A scanner for a directory.
    pub fn new(root: &str) -> (s: FileScanner)
        ensures
            s.wf(),
            s.root_text() == root@,
    {
        let mut ignore_patterns: Vec<String> = Vec::new();
        ignore_patterns.push("target".to_owned());
        ignore_patterns.push("node_modules".to_owned());
        ignore_patterns.push(".git".to_owned());
        ignore_patterns.push("__pycache__".to_owned());
        ignore_patterns.push("dist".to_owned());
        ignore_patterns.push("build".to_owned());
        ignore_patterns.push(".venv".to_owned());
        ignore_patterns.push("venv".to_owned());
        assert(views(ignore_patterns@) =~= ignored_names());
        FileScanner { root: root.to_owned(), ignore_patterns }
    }

    /// The directory that is scanned.
    pub fn root(&self) -> (r: &str)
        ensures
            r@ == self.root_text(),
    {
        &self.root
    }

    /// Whether the entry is left out of a scan, with all that lies below it.
    pub fn is_ignored(&self, path: &str) -> (r: bool)
        requires
            self.wf(),
        ensures
            r == ignored(path@),
    {
        match file_name_of(path) {
            Some(name) => self.ignores_name(&chars_of(&name)),
            None => false,
        }
    }

    fn ignores_name(&self, name: &Vec<char>) -> (r: bool)
        requires
            self.wf(),
        ensures
            r == ignored_names().contains(name@),
    {
        let ghost all = views(self.ignore_patterns@);
        let mut i: usize = 0;
        while i < self.ignore_patterns.len()
            invariant
                i <= self.ignore_patterns@.len(),
                all == views(self.ignore_patterns@),
                all == ignored_names(),
                forall|k: int| 0 <= k < i ==> #[trigger] all[k] != name@,
            decreases self.ignore_patterns.len() - i,
        {
            assert(all[i as int] == self.ignore_patterns@[i as int]@);
            if same_chars(name, &chars_of(&self.ignore_patterns[i])) {
                return true;
            }
            i += 1;
        }
        false
    }

    /// Whether a scan comes to the path: it lies below the root, and no folder
    /// or file below the root on the way to it is ignored. The name of the root
    /// itself does not matter.
    pub fn covers(&self, path: &str) -> (r: bool)
        requires
            self.wf(),
        ensures
            r == covered(path@, self.root_text()),
    {
        if !path_starts_with(path, &self.root) {
            return false;
        }
        let names = relative_components(path, Some(&self.root));
        let ghost all = components_below(path@, Some(self.root@));
        let mut i: usize = 0;
        while i < names.len()
            invariant
                self.wf(),
                i <= names@.len(),
                all == char_views(names@),
                all == components_below(path@, Some(self.root@)),
                forall|k: int| 0 <= k < i ==> !ignored_names().contains(#[trigger] all[k]),
            decreases names.len() - i,
        {
            assert(all[i as int] == names@[i as int]@);
            if self.ignores_name(&names[i]) {
                return false;
            }
            i += 1;
        }
        true
    }

    /// Whether the text of the entry is needed for a scan.
    pub fn is_source(&self, path: &str, is_file: bool) -> (r: bool)
        ensures
            r == (is_file && path_language(path@) != Language::Unknown),
    {
        is_file && Language::from_extension(&extension_of(path)) != Language::Unknown
    }

    /// Scans one file.
    pub fn scan_file(&self, parser: &ImportParser, path: &str, source: &str) -> (f: ScannedFile)
        ensures
            f@ == scanned(path@, source@),
            reads_statements(source@, path_language(path@), f@.imports),
    {
        let language = Language::from_extension(&extension_of(path));
        let imports = parser.parse(source, &language);
        let lines = line_count(source);
        let exports: Vec<String> = Vec::new();
        assert(views(exports@) =~= Seq::<Seq<char>>::empty());
        ScannedFile { path: path.to_owned(), language, imports, exports, line_count: lines }
    }

    /// Parses the imports of the entries of the project directory, and returns
    /// one `ScannedFile` per source file, in order. Entries in ignored folders
    /// are left out.
    pub fn scan(&self, entries: &Vec<WalkEntry>) -> (r: Result<Vec<ScannedFile>, ParserError>)
        requires
            self.wf(),
        ensures
            match r {
                Ok(files) => unready_language() is None && files_view(files@) == scanned_entries(
                    entries_view(entries@),
                    self.root_text(),
                    entries@.len() as int,
                ),
                Err(e) => unready_language() == Some(e.language),
            },
            r is Ok,
    {
        let parser = match ImportParser::new() {
            Ok(parser) => parser,
            Err(e) => return Err(e),
        };
        let ghost all = entries_view(entries@);
        let mut files: Vec<ScannedFile> = Vec::new();
        let mut i: usize = 0;
        assert(files_view(files@) =~= Seq::<ScannedView>::empty());
        while i < entries.len()
            invariant
                i <= entries@.len(),
                self.wf(),
                all == entries_view(entries@),
                files_view(files@) == scanned_entries(all, self.root_text(), i as int),
            decreases entries.len() - i,
        {
            let entry = &entries[i];
            assert(all[i as int] == entry@);
            let ghost before = files_view(files@);
            match &entry.source {
                Some(source) => if self.is_source(&entry.path, entry.is_file) && self.covers(
                    &entry.path,
                ) {
                    let file = self.scan_file(&parser, &entry.path, source);
                    let ghost view = file@;
                    files.push(file);
                    assert(files_view(files@) =~= before + seq![view]);
                } else {
                    assert(files_view(files@) =~= before + Seq::<ScannedView>::empty());
                },
                None => {
                    assert(files_view(files@) =~= before + Seq::<ScannedView>::empty());
                },
            }
            i += 1;
        }
        Ok(files)
    }
}

/// What a scan lists lies below the root and outside of ignored folders.
pub proof fn law_ignored_folders_are_left_out(entries: Seq<EntryView>, root: Seq<char>, n: int)
    requires
        0 <= n <= entries.len(),
    ensures
        forall|i: int|
            0 <= i < scanned_entries(entries, root, n).len() ==> covered(
                (#[trigger] scanned_entries(entries, root, n)[i]).path,
                root,
            ),
    decreases n,
{
    if n > 0 {
        law_ignored_folders_are_left_out(entries, root, n - 1);
        let before = scanned_entries(entries, root, n - 1);
        let all = scanned_entries(entries, root, n);
        assert forall|i: int| 0 <= i < all.len() implies covered((#[trigger] all[i]).path, root) by {
            if i < before.len() {
                assert(all[i] == before[i]);
            } else {
                assert(all[i] == scanned_entry(entries[n - 1], root)[i - before.len()]);
            }
        }
    }
}

} // verus!
