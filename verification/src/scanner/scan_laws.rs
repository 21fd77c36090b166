//! Which files a scan finds, whatever the walk.
use vstd::prelude::*;
use vstd::string::*;

use super::file_scanner::{
    covered, ignored, ignored_names, path_language, scanned, scanned_entries, EntryView,
};
use super::import_parser::source_imports;
use super::{language_of, Language, ScannedView};
use crate::path_laws::{
    is_plain_name, law_extension_is_behind_the_last_dot, law_prefixes_are_whole_components,
    lemma_last_part,
};
use crate::paths::{components, components_below};
use crate::text::line_total;

verus! {

/// Whether a folder of that name is passed over.
pub open spec fn is_passed_over(name: Seq<char>) -> bool {
    ||| name == "target"@
    ||| name == "node_modules"@
    ||| name == ".git"@
    ||| name == "__pycache__"@
    ||| name == "dist"@
    ||| name == "build"@
    ||| name == ".venv"@
    ||| name == "venv"@
}

proof fn lemma_ignored_names(name: Seq<char>)
    ensures
        ignored_names().contains(name) <==> is_passed_over(name),
{
    let all = ignored_names();
    assert(all[0] == "target"@);
    assert(all[1] == "node_modules"@);
    assert(all[2] == ".git"@);
    assert(all[3] == "__pycache__"@);
    assert(all[4] == "dist"@);
    assert(all[5] == "build"@);
    assert(all[6] == ".venv"@);
    assert(all[7] == "venv"@);
    if all.contains(name) {
        let i = choose|i: int| 0 <= i < all.len() && all[i] == name;
        assert(0 <= i < 8);
    }
}

/// A path below the root is covered exactly where none of the names below the
/// root, at any depth, is one that is passed over; the names of the root itself
/// do not matter. Nothing else is covered.
pub proof fn law_names_below_the_root_decide(
    path: Seq<char>,
    root: Seq<char>,
    below: Seq<Seq<char>>,
)
    ensures
        components(path) == components(root) + below ==> (covered(path, root) <==> forall|i: int|
            0 <= i < below.len() ==> !is_passed_over(#[trigger] below[i])),
        covered(path, root) ==> components(root).is_prefix_of(components(path)),
{
    law_prefixes_are_whole_components(path, root, below);
    if components(path) == components(root) + below {
        if covered(path, root) {
            assert forall|i: int| 0 <= i < below.len() implies !is_passed_over(
                #[trigger] below[i],
            ) by {
                lemma_ignored_names(below[i]);
                assert(!ignored_names().contains(components_below(path, Some(root))[i]));
            }
        }
        if forall|i: int| 0 <= i < below.len() ==> !is_passed_over(#[trigger] below[i]) {
            assert forall|i: int|
                0 <= i < components_below(path, Some(root)).len() implies !ignored_names().contains(
                #[trigger] components_below(path, Some(root))[i],
            ) by {
                lemma_ignored_names(below[i]);
            }
        }
    }
}

/// Whether a walk goes into a folder depends on its own name alone.
pub proof fn law_folders_are_judged_by_their_name(front: Seq<char>, name: Seq<char>)
    requires
        front.len() == 0 || front.last() == '/',
        is_plain_name(name),
    ensures
        ignored(front + name) <==> is_passed_over(name),
{
    lemma_last_part(front, name);
    lemma_ignored_names(name);
}

/// The language of a file goes by what stands behind the last dot of its name.
pub proof fn law_language_goes_by_the_extension(
    front: Seq<char>,
    stem: Seq<char>,
    ext: Seq<char>,
)
    requires
        front.len() == 0 || front.last() == '/',
        is_plain_name(stem),
        forall|i: int| 0 <= i < ext.len() ==> #[trigger] ext[i] != '.' && ext[i] != '/',
    ensures
        ({
            let language = path_language(front + stem + seq!['.'] + ext);
            &&& language == Language::Rust <==> ext == "rs"@
            &&& language == Language::TypeScript <==> ext == "ts"@ || ext == "tsx"@
            &&& language == Language::JavaScript <==> ext == "js"@ || ext == "jsx"@
            &&& language == Language::Python <==> ext == "py"@
        }),
        (forall|i: int| 1 <= i < stem.len() ==> #[trigger] stem[i] != '.') ==> path_language(
            front + stem,
        ) == Language::Unknown,
{
    law_extension_is_behind_the_last_dot(front, stem, ext, Seq::empty());
    lemma_extensions_differ();
}

proof fn lemma_extensions_differ()
    ensures
        "rs"@ != "ts"@ && "rs"@ != "tsx"@ && "rs"@ != "js"@ && "rs"@ != "jsx"@ && "rs"@ != "py"@,
        "ts"@ != "js"@ && "ts"@ != "jsx"@ && "ts"@ != "py"@,
        "tsx"@ != "js"@ && "tsx"@ != "jsx"@ && "tsx"@ != "py"@,
        "js"@ != "py"@ && "jsx"@ != "py"@,
        language_of(Seq::empty()) == Language::Unknown,
{
    reveal_strlit("rs");
    reveal_strlit("ts");
    reveal_strlit("tsx");
    reveal_strlit("js");
    reveal_strlit("jsx");
    reveal_strlit("py");
    assert("rs"@[0] == 'r' && "ts"@[0] == 't' && "tsx"@[0] == 't' && "js"@[0] == 'j' && "jsx"@[0]
        == 'j' && "py"@[0] == 'p');
    let none = Seq::<char>::empty();
    assert(none.len() == 0);
    assert("rs"@.len() == 2 && "ts"@.len() == 2 && "tsx"@.len() == 3 && "js"@.len() == 2
        && "jsx"@.len() == 3 && "py"@.len() == 2);
}

/// Whether an entry of a walk is a readable source file that is covered.
pub open spec fn is_source(entry: EntryView, root: Seq<char>) -> bool {
    &&& entry.is_file
    &&& entry.source is Some
    &&& path_language(entry.path) != Language::Unknown
    &&& covered(entry.path, root)
}

/// No source file is missed: each one that a walk meets is among the scanned
/// files, with its path, its language, its imports and the number of its lines.
pub proof fn law_every_source_is_scanned(entries: Seq<EntryView>, root: Seq<char>, n: int, i: int)
    requires
        0 <= i < n <= entries.len(),
        is_source(entries[i], root),
    ensures
        scanned_entries(entries, root, n).contains(
            ScannedView {
                path: entries[i].path,
                language: path_language(entries[i].path),
                imports: source_imports(entries[i].source->0, path_language(entries[i].path)),
                exports: Seq::empty(),
                line_count: line_total(entries[i].source->0) as usize,
            },
        ),
    decreases n,
{
    let wanted = scanned(entries[i].path, entries[i].source->0);
    let before = scanned_entries(entries, root, n - 1);
    let all = scanned_entries(entries, root, n);
    if i == n - 1 {
        assert(all[before.len() as int] == wanted);
    } else {
        law_every_source_is_scanned(entries, root, n - 1, i);
        let k = choose|k: int| 0 <= k < before.len() && before[k] == wanted;
        assert(all[k] == wanted);
    }
}

/// Each entry adds one file where it is a source file and none otherwise, behind
/// the files before it.
pub proof fn law_entries_are_scanned_in_order(entries: Seq<EntryView>, root: Seq<char>, n: int)
    requires
        0 <= n < entries.len(),
    ensures
        scanned_entries(entries, root, 0).len() == 0,
        scanned_entries(entries, root, n).is_prefix_of(scanned_entries(entries, root, n + 1)),
        scanned_entries(entries, root, n + 1).len() == scanned_entries(entries, root, n).len() + (
        if is_source(entries[n], root) {
            1int
        } else {
            0int
        }),
        is_source(entries[n], root) ==> scanned_entries(entries, root, n + 1).last().path
            == entries[n].path,
{
    let before = scanned_entries(entries, root, n);
    let all = scanned_entries(entries, root, n + 1);
    assert(before =~= all.subrange(0, before.len() as int));
}

} // verus!
