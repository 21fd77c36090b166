//! From an import, as written, to the file that it names.
//!
//! Which file an import names depends on which files exist. [`candidates`] lists
//! the paths that come into question, in the order in which they are tried;
//! the import names the first of them that exists.
use vstd::prelude::*;
use vstd::string::*;

use crate::disk::{DiskSnapshot, DiskView};
use crate::paths::{
    join_path, join_paths, normalize_path, normalized, parent, parent_of, replace_extension,
    with_extension,
};
use crate::scanner::Language;
use crate::text::{char_views, chars_of, same_chars, slice_of, split, split_chars, string_of, views};

verus! {

// ---------------------------------------------------------------------------
// Candidates
// ---------------------------------------------------------------------------

/// A path that an import may name.
#[derive(Debug)]
pub struct Candidate {
    /// The path.
    pub path: String,
    /// Whether it must be a regular file.
    pub file_only: bool,
}

impl View for Candidate {
    type V = (Seq<char>, bool);

    open spec fn view(&self) -> (Seq<char>, bool) {
        (self.path@, self.file_only)
    }
}

/// The views of a sequence of candidates.
pub open spec fn candidates_view(v: Seq<Candidate>) -> Seq<(Seq<char>, bool)> {
    Seq::new(v.len(), |i: int| v[i]@)
}

/// Whether a candidate exists.
pub open spec fn is_present(disk: DiskView, c: (Seq<char>, bool)) -> bool {
    disk.present.contains(c.0) && (c.1 ==> disk.regular.contains(c.0))
}

/// The first candidate that exists.
pub open spec fn first_present(disk: DiskView, list: Seq<(Seq<char>, bool)>) -> Option<Seq<char>>
    decreases list.len(),
{
    if list.len() == 0 {
        None
    } else if is_present(disk, list[0]) {
        Some(list[0].0)
    } else {
        first_present(disk, list.drop_first())
    }
}

/// The path `base` with the first `n` names below it.
pub open spec fn folder(base: Seq<char>, names: Seq<Seq<char>>, n: int) -> Seq<char>
    decreases n,
{
    if n <= 0 {
        base
    } else {
        join_paths(folder(base, names, n - 1), names[n - 1])
    }
}

// ---------------------------------------------------------------------------
// Rust
// ---------------------------------------------------------------------------

/// Whether the segment says where a path starts instead of naming a module.
pub open spec fn is_anchor(segment: Seq<char>) -> bool {
    segment == "crate"@ || segment == "self"@ || segment == "super"@
}

/// The segments that name modules.
pub open spec fn module_names(segments: Seq<Seq<char>>) -> Seq<Seq<char>>
    decreases segments.len(),
{
    if segments.len() == 0 {
        Seq::empty()
    } else {
        let before = module_names(segments.drop_last());
        if is_anchor(segments.last()) {
            before
        } else {
            before.push(segments.last())
        }
    }
}

/// The two files that can hold the module of the first `end` names.
pub open spec fn module_files(base: Seq<char>, names: Seq<Seq<char>>, end: int) -> Seq<
    (Seq<char>, bool),
> {
    let dir = folder(base, names, end - 1);
    seq![
        (join_paths(dir, names[end - 1] + ".rs"@), false),
        (join_paths(join_paths(dir, names[end - 1]), "mod.rs"@), false),
    ]
}

/// The files that can hold the module of the first `end` names or of fewer,
/// more names first: the last ones may be items of a module.
pub open spec fn modules_down_from(base: Seq<char>, names: Seq<Seq<char>>, end: int) -> Seq<
    (Seq<char>, bool),
>
    decreases end,
{
    if end <= 0 {
        Seq::empty()
    } else {
        module_files(base, names, end) + modules_down_from(base, names, end - 1)
    }
}

/// The folder in which the modules of a path are looked for.
pub open spec fn rust_base(root: Seq<char>, from: Seq<char>, first: Seq<char>) -> Option<
    Seq<char>,
> {
    if first == "super"@ {
        match parent(from) {
            Some(p) => parent(p),
            None => None,
        }
    } else if first == "self"@ {
        parent(from)
    } else {
        Some(join_paths(root, "src"@))
    }
}

/// The file beside `from` that a path of one segment can name.
pub open spec fn sibling_module(from: Seq<char>, segments: Seq<Seq<char>>) -> Seq<
    (Seq<char>, bool),
> {
    match parent(from) {
        Some(dir) => if segments.len() == 1 {
            seq![(join_paths(dir, segments[0] + ".rs"@), false)]
        } else {
            Seq::empty()
        },
        None => Seq::empty(),
    }
}

/// The files that a Rust path can name. Paths into the standard library name
/// none.
pub open spec fn rust_candidates(root: Seq<char>, from: Seq<char>, import: Seq<char>) -> Seq<
    (Seq<char>, bool),
> {
    let segments = split(import, "::"@);
    let first = segments[0];
    if first == "std"@ || first == "core"@ || first == "alloc"@ {
        Seq::empty()
    } else {
        match rust_base(root, from, first) {
            None => Seq::empty(),
            Some(base) => {
                let names = module_names(segments);
                modules_down_from(base, names, names.len() as int) + sibling_module(
                    from,
                    segments,
                )
            },
        }
    }
}

// ---------------------------------------------------------------------------
// Python
// ---------------------------------------------------------------------------

/// How many dots the text starts with.
pub open spec fn leading_dots(s: Seq<char>) -> int
    decreases s.len(),
{
    if s.len() > 0 && s[0] == '.' {
        1 + leading_dots(s.drop_first())
    } else {
        0
    }
}

/// The path `n` levels above.
pub open spec fn climbed(s: Seq<char>, n: int) -> Option<Seq<char>>
    decreases n,
{
    if n <= 0 {
        Some(s)
    } else {
        match climbed(s, n - 1) {
            Some(p) => parent(p),
            None => None,
        }
    }
}

/// The parts that are not empty.
pub open spec fn non_empty(parts: Seq<Seq<char>>) -> Seq<Seq<char>>
    decreases parts.len(),
{
    if parts.len() == 0 {
        Seq::empty()
    } else {
        let before = non_empty(parts.drop_last());
        if parts.last().len() == 0 {
            before
        } else {
            before.push(parts.last())
        }
    }
}

/// The files that a Python module name can name. Each leading dot is one level
/// up from the importing file.
pub open spec fn python_candidates(root: Seq<char>, from: Seq<char>, import: Seq<char>) -> Seq<
    (Seq<char>, bool),
> {
    let dots = leading_dots(import);
    let names = non_empty(split(import.subrange(dots, import.len() as int), "."@));
    let start = if dots == 0 {
        Some(root)
    } else {
        climbed(from, dots)
    };
    match start {
        None => Seq::empty(),
        Some(base) => if names.len() == 0 {
            seq![(join_paths(base, "__init__.py"@), false)]
        } else {
            let module = folder(base, names, names.len() as int);
            seq![
                (with_extension(module, "py"@), false),
                (join_paths(module, "__init__.py"@), false),
            ]
        },
    }
}

// ---------------------------------------------------------------------------
// JavaScript and TypeScript
// ---------------------------------------------------------------------------

/// The extensions that an import can leave out, in the order in which they are
/// tried.
pub open spec fn script_extension(i: int) -> Seq<char> {
    if i == 0 {
        "ts"@
    } else if i == 1 {
        "tsx"@
    } else if i == 2 {
        "js"@
    } else if i == 3 {
        "jsx"@
    } else if i == 4 {
        "mjs"@
    } else {
        "cjs"@
    }
}

/// The files that a relative or absolute specifier can name: with each
/// extension, as a folder with an index file, and as it is. Other specifiers
/// are packages and name none.
pub open spec fn script_candidates(from: Seq<char>, import: Seq<char>) -> Seq<(Seq<char>, bool)> {
    if import.len() > 0 && (import[0] == '.' || import[0] == '/') {
        match parent(from) {
            None => Seq::empty(),
            Some(dir) => {
                let base = join_paths(dir, import);
                Seq::new(
                    6,
                    |i: int| (normalized(with_extension(base, script_extension(i))), false),
                ) + Seq::new(
                    6,
                    |i: int|
                        (normalized(join_paths(base, "index."@ + script_extension(i))), false),
                ) + seq![(normalized(base), true)]
            },
        }
    } else {
        Seq::empty()
    }
}

// ---------------------------------------------------------------------------
// All languages
// ---------------------------------------------------------------------------

/// The files that an import of the file `from` can name, in the order in which
/// they are tried.
pub open spec fn candidates(
    root: Seq<char>,
    from: Seq<char>,
    import: Seq<char>,
    language: Language,
) -> Seq<(Seq<char>, bool)> {
    match language {
        Language::Rust => rust_candidates(root, from, import),
        Language::Python => python_candidates(root, from, import),
        Language::JavaScript | Language::TypeScript => script_candidates(from, import),
        Language::Unknown => Seq::empty(),
    }
}

/// The file that an import of the file `from` names. Imports of what lies
/// outside the project name none.
pub open spec fn resolved(
    root: Seq<char>,
    from: Seq<char>,
    import: Seq<char>,
    language: Language,
    disk: DiskView,
) -> Option<Seq<char>> {
    first_present(disk, candidates(root, from, import, language))
}

/// Which file an import names depends on the candidates alone: two disks with
/// the same candidates on them resolve it to the same file.
pub proof fn law_resolution_looks_at_candidates_only(
    list: Seq<(Seq<char>, bool)>,
    disk: DiskView,
    other: DiskView,
)
    requires
        forall|i: int|
            0 <= i < list.len() ==> is_present(disk, #[trigger] list[i]) == is_present(
                other,
                list[i],
            ),
    ensures
        first_present(disk, list) == first_present(other, list),
    decreases list.len(),
{
    if list.len() > 0 {
        let rest = list.drop_first();
        assert forall|i: int| 0 <= i < rest.len() implies is_present(disk, #[trigger] rest[i])
            == is_present(other, rest[i]) by {
            assert(rest[i] == list[i + 1]);
        }
        law_resolution_looks_at_candidates_only(rest, disk, other);
    }
}

/// The file that an import names exists.
pub proof fn law_resolved_file_exists(list: Seq<(Seq<char>, bool)>, disk: DiskView)
    ensures
        first_present(disk, list) matches Some(p) ==> disk.present.contains(p),
    decreases list.len(),
{
    if list.len() > 0 {
        law_resolved_file_exists(list.drop_first(), disk);
    }
}

// ---------------------------------------------------------------------------
// The functions
// ---------------------------------------------------------------------------

fn push_candidate(out: &mut Vec<Candidate>, path: String, file_only: bool)
    ensures
        candidates_view(final(out)@) == candidates_view(old(out)@).push((path@, file_only)),
{
    out.push(Candidate { path, file_only });
    assert(candidates_view(out@) =~= candidates_view(old(out)@).push((path@, file_only)));
}

fn folder_of(base: &str, names: &Vec<String>, n: usize) -> (out: String)
    requires
        n <= names@.len(),
    ensures
        out@ == folder(base@, views(names@), n as int),
{
    let mut out = base.to_owned();
    let mut i: usize = 0;
    while i < n
        invariant
            i <= n <= names@.len(),
            out@ == folder(base@, views(names@), i as int),
        decreases n - i,
    {
        out = join_path(&out, &names[i]);
        i += 1;
        assert(views(names@)[i - 1] == names@[i - 1]@);
    }
    out
}

fn is_word(v: &Vec<char>, word: &str) -> (r: bool)
    ensures
        r == (v@ == word@),
{
    same_chars(v, &chars_of(word))
}

fn module_names_of(segments: &Vec<Vec<char>>) -> (out: Vec<String>)
    ensures
        views(out@) == module_names(char_views(segments@)),
{
    let mut out: Vec<String> = Vec::new();
    let ghost all = char_views(segments@);
    let mut i: usize = 0;
    assert(all.subrange(0, 0) =~= Seq::<Seq<char>>::empty());
    assert(views(out@) =~= Seq::<Seq<char>>::empty());
    while i < segments.len()
        invariant
            i <= segments@.len(),
            all == char_views(segments@),
            views(out@) == module_names(all.subrange(0, i as int)),
        decreases segments.len() - i,
    {
        proof {
            let next = all.subrange(0, i + 1);
            assert(next.drop_last() =~= all.subrange(0, i as int));
            assert(next.last() == segments@[i as int]@);
        }
        if !(is_word(&segments[i], "crate") || is_word(&segments[i], "self") || is_word(
            &segments[i],
            "super",
        )) {
            let ghost before = views(out@);
            out.push(string_of(&segments[i]));
            assert(views(out@) =~= before.push(segments@[i as int]@));
        }
        i += 1;
    }
    assert(all.subrange(0, all.len() as int) =~= all);
    out
}

fn rust_base_of(root: &str, from: &str, first: &Vec<char>) -> (r: Option<String>)
    ensures
        rust_base(root@, from@, first@) == (match r {
            Some(s) => Some(s@),
            None => None::<Seq<char>>,
        }),
{
    if is_word(first, "super") {
        match parent_of(from) {
            Some(p) => parent_of(&p),
            None => None,
        }
    } else if is_word(first, "self") {
        parent_of(from)
    } else {
        Some(join_path(root, "src"))
    }
}

fn with_suffix(s: &str, suffix: &str) -> (out: String)
    ensures
        out@ == s@ + suffix@,
{
    let mut out = s.to_owned();
    out.append(suffix);
    out
}

fn rust_candidates_of(root: &str, from: &str, import: &str) -> (out: Vec<Candidate>)
    ensures
        candidates_view(out@) == rust_candidates(root@, from@, import@),
{
    let mut out: Vec<Candidate> = Vec::new();
    assert(candidates_view(out@) =~= Seq::<(Seq<char>, bool)>::empty());
    let sep = chars_of("::");
    proof {
        reveal_strlit("::");
    }
    let segments = split_chars(&chars_of(import), &sep);
    let ghost all = split(import@, "::"@);
    assert(all[0] == segments@[0]@);
    if is_word(&segments[0], "std") || is_word(&segments[0], "core") || is_word(
        &segments[0],
        "alloc",
    ) {
        return out;
    }
    let base = match rust_base_of(root, from, &segments[0]) {
        Some(base) => base,
        None => return out,
    };
    let names = module_names_of(&segments);
    let ghost all_names = views(names@);
    let mut end: usize = names.len();
    assert(candidates_view(out@) + modules_down_from(base@, all_names, end as int)
        =~= modules_down_from(base@, all_names, end as int));
    while end > 0
        invariant
            end <= names@.len(),
            all_names == views(names@),
            candidates_view(out@) + modules_down_from(base@, all_names, end as int)
                == modules_down_from(base@, all_names, names@.len() as int),
        decreases end,
    {
        let ghost before = candidates_view(out@);
        let dir = folder_of(&base, &names, end - 1);
        assert(all_names[end - 1] == names@[end - 1]@);
        push_candidate(&mut out, join_path(&dir, &with_suffix(&names[end - 1], ".rs")), false);
        push_candidate(&mut out, join_path(&join_path(&dir, &names[end - 1]), "mod.rs"), false);
        assert(candidates_view(out@) =~= before + module_files(base@, all_names, end as int));
        assert(candidates_view(out@) + modules_down_from(base@, all_names, end - 1) =~= before + (
        module_files(base@, all_names, end as int) + modules_down_from(
            base@,
            all_names,
            end - 1,
        )));
        end -= 1;
    }
    let ghost before = candidates_view(out@);
    assert(before =~= modules_down_from(base@, all_names, names@.len() as int));
    match parent_of(from) {
        Some(dir) => {
            if segments.len() == 1 {
                push_candidate(
                    &mut out,
                    join_path(&dir, &with_suffix(&string_of(&segments[0]), ".rs")),
                    false,
                );
            }
        },
        None => {},
    }
    assert(candidates_view(out@) =~= before + sibling_module(from@, all));
    out
}

fn leading_dot_count(v: &Vec<char>) -> (n: usize)
    ensures
        n == leading_dots(v@),
        n <= v@.len(),
{
    let mut n: usize = 0;
    assert(v@.subrange(0, v@.len() as int) =~= v@);
    while n < v.len() && v[n] == '.'
        invariant
            n <= v@.len(),
            n + leading_dots(v@.subrange(n as int, v@.len() as int)) == leading_dots(v@),
        decreases v.len() - n,
    {
        assert(v@.subrange(n as int, v@.len() as int).drop_first() =~= v@.subrange(
            n + 1,
            v@.len() as int,
        ));
        n += 1;
    }
    n
}

fn climbed_of(s: &str, n: usize) -> (r: Option<String>)
    ensures
        climbed(s@, n as int) == (match r {
            Some(p) => Some(p@),
            None => None::<Seq<char>>,
        }),
{
    let mut out = s.to_owned();
    let mut i: usize = 0;
    while i < n
        invariant
            i <= n,
            climbed(s@, i as int) == Some(out@),
        decreases n - i,
    {
        match parent_of(&out) {
            Some(p) => {
                out = p;
            },
            None => {
                proof {
                    lemma_climb_stops(s@, i + 1, n as int);
                }
                return None;
            },
        }
        i += 1;
    }
    Some(out)
}

proof fn lemma_climb_stops(s: Seq<char>, i: int, n: int)
    requires
        0 <= i <= n,
        climbed(s, i) is None,
    ensures
        climbed(s, n) is None,
    decreases n,
{
    if i < n {
        lemma_climb_stops(s, i, n - 1);
    }
}

fn non_empty_of(parts: &Vec<Vec<char>>) -> (out: Vec<String>)
    ensures
        views(out@) == non_empty(char_views(parts@)),
{
    let mut out: Vec<String> = Vec::new();
    let ghost all = char_views(parts@);
    let mut i: usize = 0;
    assert(all.subrange(0, 0) =~= Seq::<Seq<char>>::empty());
    assert(views(out@) =~= Seq::<Seq<char>>::empty());
    while i < parts.len()
        invariant
            i <= parts@.len(),
            all == char_views(parts@),
            views(out@) == non_empty(all.subrange(0, i as int)),
        decreases parts.len() - i,
    {
        proof {
            let next = all.subrange(0, i + 1);
            assert(next.drop_last() =~= all.subrange(0, i as int));
            assert(next.last() == parts@[i as int]@);
        }
        if parts[i].len() > 0 {
            let ghost before = views(out@);
            out.push(string_of(&parts[i]));
            assert(views(out@) =~= before.push(parts@[i as int]@));
        }
        i += 1;
    }
    assert(all.subrange(0, all.len() as int) =~= all);
    out
}

fn python_candidates_of(root: &str, from: &str, import: &str) -> (out: Vec<Candidate>)
    ensures
        candidates_view(out@) == python_candidates(root@, from@, import@),
{
    let mut out: Vec<Candidate> = Vec::new();
    assert(candidates_view(out@) =~= Seq::<(Seq<char>, bool)>::empty());
    let chars = chars_of(import);
    let dots = leading_dot_count(&chars);
    let base = if dots == 0 {
        root.to_owned()
    } else {
        match climbed_of(from, dots) {
            Some(base) => base,
            None => return out,
        }
    };
    let sep = chars_of(".");
    proof {
        reveal_strlit(".");
    }
    let rest = slice_of(&chars, dots, chars.len());
    let names = non_empty_of(&split_chars(&rest, &sep));
    assert(views(names@).len() == names@.len());
    if names.len() == 0 {
        push_candidate(&mut out, join_path(&base, "__init__.py"), false);
        assert(candidates_view(out@) =~= python_candidates(root@, from@, import@));
        return out;
    }
    let module = folder_of(&base, &names, names.len());
    push_candidate(&mut out, replace_extension(&module, "py"), false);
    push_candidate(&mut out, join_path(&module, "__init__.py"), false);
    assert(candidates_view(out@) =~= python_candidates(root@, from@, import@));
    out
}

fn script_extension_of(i: usize) -> (s: &'static str)
    ensures
        s@ == script_extension(i as int),
{
    if i == 0 {
        "ts"
    } else if i == 1 {
        "tsx"
    } else if i == 2 {
        "js"
    } else if i == 3 {
        "jsx"
    } else if i == 4 {
        "mjs"
    } else {
        "cjs"
    }
}

fn script_candidates_of(from: &str, import: &str) -> (out: Vec<Candidate>)
    ensures
        candidates_view(out@) == script_candidates(from@, import@),
{
    let mut out: Vec<Candidate> = Vec::new();
    assert(candidates_view(out@) =~= Seq::<(Seq<char>, bool)>::empty());
    let chars = chars_of(import);
    if !(chars.len() > 0 && (chars[0] == '.' || chars[0] == '/')) {
        return out;
    }
    let dir = match parent_of(from) {
        Some(dir) => dir,
        None => return out,
    };
    let base = join_path(&dir, import);
    let ghost plain = Seq::new(
        6,
        |i: int| (normalized(with_extension(base@, script_extension(i))), false),
    );
    let ghost index = Seq::new(
        6,
        |i: int| (normalized(join_paths(base@, "index."@ + script_extension(i))), false),
    );
    let mut i: usize = 0;
    while i < 6
        invariant
            i <= 6,
            plain == Seq::new(
                6,
                |i: int| (normalized(with_extension(base@, script_extension(i))), false),
            ),
            candidates_view(out@) == plain.subrange(0, i as int),
        decreases 6 - i,
    {
        let candidate = normalize_path(&replace_extension(&base, script_extension_of(i)));
        push_candidate(&mut out, candidate, false);
        assert(candidates_view(out@) =~= plain.subrange(0, i + 1));
        i += 1;
    }
    assert(candidates_view(out@) =~= plain + index.subrange(0, 0));
    i = 0;
    while i < 6
        invariant
            i <= 6,
            index == Seq::new(
                6,
                |i: int| (normalized(join_paths(base@, "index."@ + script_extension(i))), false),
            ),
            candidates_view(out@) == plain + index.subrange(0, i as int),
        decreases 6 - i,
    {
        let name = with_suffix("index.", script_extension_of(i));
        let candidate = normalize_path(&join_path(&base, &name));
        push_candidate(&mut out, candidate, false);
        assert(candidates_view(out@) =~= plain + index.subrange(0, i + 1));
        i += 1;
    }
    push_candidate(&mut out, normalize_path(&base), true);
    assert(candidates_view(out@) =~= plain + index + seq![(normalized(base@), true)]);
    out
}

/// The files that an import of the file `from` can name, in the order in which
/// they are tried.
pub fn import_candidates(root: &str, from: &str, import: &str, language: Language) -> (out: Vec<
    Candidate,
>)
    ensures
        candidates_view(out@) == candidates(root@, from@, import@, language),
{
    match language {
        Language::Rust => rust_candidates_of(root, from, import),
        Language::Python => python_candidates_of(root, from, import),
        Language::JavaScript | Language::TypeScript => script_candidates_of(from, import),
        Language::Unknown => {
            let out: Vec<Candidate> = Vec::new();
            assert(candidates_view(out@) =~= Seq::<(Seq<char>, bool)>::empty());
            out
        },
    }
}

/// The first candidate that exists.
pub fn first_present_of(disk: &DiskSnapshot, list: &Vec<Candidate>) -> (r: Option<String>)
    ensures
        first_present(disk@, candidates_view(list@)) == (match r {
            Some(p) => Some(p@),
            None => None::<Seq<char>>,
        }),
{
    let ghost all = candidates_view(list@);
    let mut i: usize = 0;
    assert(all.subrange(0, all.len() as int) =~= all);
    while i < list.len()
        invariant
            i <= list@.len(),
            all == candidates_view(list@),
            first_present(disk@, all) == first_present(
                disk@,
                all.subrange(i as int, all.len() as int),
            ),
        decreases list.len() - i,
    {
        assert(all.subrange(i as int, all.len() as int)[0] == list@[i as int]@);
        if disk.has(&list[i].path) && (!list[i].file_only || disk.is_file(&list[i].path)) {
            return Some(list[i].path.clone());
        }
        assert(all.subrange(i as int, all.len() as int).drop_first() =~= all.subrange(
            i + 1,
            all.len() as int,
        ));
        i += 1;
    }
    None
}

} // verus!
