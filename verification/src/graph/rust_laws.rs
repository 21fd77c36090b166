//! Which files a Rust path can name, whatever its length.
use vstd::prelude::*;
use vstd::string::*;

use super::resolve::{
    candidates, folder, module_files, module_names, modules_down_from, rust_base, sibling_module,
};
use super::resolve_laws::{is_slashless, lemma_folder_text, lemma_join_slashed, slashed};
use crate::path_laws::ancestor;
use crate::paths::{join_paths, parent};
use crate::scanner::Language;
use crate::text::joined;
use crate::text_laws::law_join_then_split;

verus! {

/// Whether the text can stand between the colons of a path.
pub open spec fn is_segment(s: Seq<char>) -> bool {
    s.len() > 0 && forall|i: int| 0 <= i < s.len() ==> #[trigger] s[i] != '/' && s[i] != ':'
}

/// The folder below which a Rust path is looked for, by its first segment.
pub open spec fn path_start(root: Seq<char>, from: Seq<char>, first: Seq<char>) -> Option<
    Seq<char>,
> {
    if first == "super"@ {
        ancestor(from, 2)
    } else if first == "self"@ {
        ancestor(from, 1)
    } else {
        Some(slashed(root) + "src"@)
    }
}

proof fn lemma_module_names(segments: Seq<Seq<char>>)
    ensures
        module_names(segments) == segments.filter(
            |s: Seq<char>| s != "crate"@ && s != "self"@ && s != "super"@,
        ),
        forall|i: int|
            0 <= i < module_names(segments).len() ==> segments.contains(
                #[trigger] module_names(segments)[i],
            ),
    decreases segments.len(),
{
    reveal(Seq::filter);
    if segments.len() > 0 {
        let front = segments.drop_last();
        let before = module_names(front);
        lemma_module_names(front);
        let all = module_names(segments);
        assert forall|i: int| 0 <= i < all.len() implies segments.contains(#[trigger] all[i]) by {
            if i < before.len() {
                assert(all[i] == before[i]);
                let k = choose|k: int| 0 <= k < front.len() && front[k] == before[i];
                assert(segments[k] == before[i]);
            } else {
                assert(segments[segments.len() - 1] == all[i]);
            }
        }
    } else {
        assert(module_names(segments) =~= segments);
    }
}

proof fn lemma_module_texts(base: Seq<char>, names: Seq<Seq<char>>, end: int)
    requires
        1 <= end <= names.len(),
        forall|i: int| 0 <= i < names.len() ==> is_slashless(#[trigger] names[i]),
    ensures
        module_files(base, names, end) == seq![
            (slashed(base) + joined(names.subrange(0, end), seq!['/']) + ".rs"@, false),
            (slashed(base) + joined(names.subrange(0, end), seq!['/']) + "/mod.rs"@, false),
        ],
{
    let sep = seq!['/'];
    let name = names[end - 1];
    let dir = folder(base, names, end - 1);
    let some = names.subrange(0, end);
    reveal_strlit(".rs");
    reveal_strlit("mod.rs");
    reveal_strlit("/mod.rs");
    assert(is_slashless(name + ".rs"@)) by {
        let t = name + ".rs"@;
        assert forall|i: int| 0 <= i < t.len() implies #[trigger] t[i] != '/' by {
            if i < name.len() {
                assert(t[i] == name[i]);
            } else {
                assert(t[i] == ".rs"@[i - name.len()]);
            }
        }
    }
    lemma_join_slashed(dir, name + ".rs"@);
    lemma_folder_text(base, names, end);
    assert(is_slashless("mod.rs"@));
    lemma_join_slashed(folder(base, names, end), "mod.rs"@);
    assert(sep + "mod.rs"@ =~= "/mod.rs"@);
    assert(join_paths(folder(base, names, end), "mod.rs"@) =~= slashed(base) + joined(some, sep)
        + "/mod.rs"@);
    if end == 1 {
        assert(dir == base);
        assert(joined(some, sep) == some[0]);
    } else {
        lemma_folder_text(base, names, end - 1);
        assert(some.subrange(0, end - 1) =~= names.subrange(0, end - 1));
    }
    assert(join_paths(dir, name + ".rs"@) =~= slashed(base) + joined(some, sep) + ".rs"@);
}

/// Whether the list starts with the two files of each run of the names, the
/// longer ones first.
pub open spec fn lists_modules(
    list: Seq<(Seq<char>, bool)>,
    base: Seq<char>,
    names: Seq<Seq<char>>,
) -> bool {
    forall|e: int|
        1 <= e <= names.len() ==> {
            let module = slashed(base) + joined(#[trigger] names.subrange(0, e), seq!['/']);
            &&& list[2 * (names.len() - e)] == (module + ".rs"@, false)
            &&& list[2 * (names.len() - e) + 1] == (module + "/mod.rs"@, false)
        }
}

proof fn lemma_modules_down(base: Seq<char>, names: Seq<Seq<char>>, end: int, e: int)
    requires
        0 <= end <= names.len(),
        forall|i: int| 0 <= i < names.len() ==> is_slashless(#[trigger] names[i]),
    ensures
        modules_down_from(base, names, end).len() == 2 * end,
        1 <= e <= end ==> {
            let module = slashed(base) + joined(names.subrange(0, e), seq!['/']);
            &&& modules_down_from(base, names, end)[2 * (end - e)] == (module + ".rs"@, false)
            &&& modules_down_from(base, names, end)[2 * (end - e) + 1] == (
                module + "/mod.rs"@,
                false,
            )
        },
    decreases end,
{
    if end > 0 {
        lemma_module_texts(base, names, end);
        lemma_modules_down(base, names, end - 1, e);
        let tail = modules_down_from(base, names, end - 1);
        let all = modules_down_from(base, names, end);
        if 1 <= e < end {
            assert(all[2 * (end - e)] == tail[2 * (end - 1 - e)]);
            assert(all[2 * (end - e) + 1] == tail[2 * (end - 1 - e) + 1]);
        }
    }
}

/// A Rust path of any length can name, for each run of its names from the first
/// on and the longer ones first, the file of that module or the `mod.rs` in its
/// folder; a path of one segment also the file of that name beside the importing
/// one. The names are the segments but for `crate`, `self` and `super`. Paths
/// into the standard library name nothing.
pub proof fn law_rust_paths_name_modules(
    root: Seq<char>,
    from: Seq<char>,
    segments: Seq<Seq<char>>,
)
    requires
        segments.len() > 0,
        forall|i: int| 0 <= i < segments.len() ==> is_segment(#[trigger] segments[i]),
    ensures
        ({
            let list = candidates(root, from, joined(segments, seq![':', ':']), Language::Rust);
            let names = segments.filter(
                |s: Seq<char>| s != "crate"@ && s != "self"@ && s != "super"@,
            );
            if segments[0] == "std"@ || segments[0] == "core"@ || segments[0] == "alloc"@ {
                list.len() == 0
            } else {
                match path_start(root, from, segments[0]) {
                    None => list.len() == 0,
                    Some(base) => {
                        &&& lists_modules(list, base, names)
                        &&& match parent(from) {
                            Some(dir) if segments.len() == 1 => {
                                &&& list.len() == 2 * names.len() + 1
                                &&& list.last() == (slashed(dir) + segments[0] + ".rs"@, false)
                            },
                            _ => list.len() == 2 * names.len(),
                        }
                    },
                }
            }
        }),
{
    let import = joined(segments, seq![':', ':']);
    reveal_strlit("::");
    assert("::"@ =~= seq![':', ':']);
    assert forall|i: int| 0 <= i < segments.len() implies !(#[trigger] segments[i]).contains(
        ':',
    ) by {
        assert(is_segment(segments[i]));
    }
    law_join_then_split(segments, "::"@);
    lemma_module_names(segments);
    let names = module_names(segments);
    assert forall|i: int| 0 <= i < names.len() implies is_slashless(#[trigger] names[i]) by {
        assert(segments.contains(names[i]));
        let k = choose|k: int| 0 <= k < segments.len() && segments[k] == names[i];
        assert(is_segment(segments[k]));
    }
    assert(ancestor(from, 0) == Some(from));
    assert(ancestor(from, 1) == parent(from));
    assert(ancestor(from, 2) == (match ancestor(from, 1) {
        Some(p) => parent(p),
        None => None,
    }));
    reveal_strlit("src");
    assert(is_slashless("src"@));
    lemma_join_slashed(root, "src"@);
    let first = segments[0];
    let list = candidates(root, from, import, Language::Rust);
    if !(first == "std"@ || first == "core"@ || first == "alloc"@) && rust_base(
        root,
        from,
        first,
    ) is Some {
        let base = rust_base(root, from, first)->0;
        let down = modules_down_from(base, names, names.len() as int);
        lemma_modules_down(base, names, names.len() as int, 0);
        assert(list == down + sibling_module(from, segments));
        assert forall|e: int| 1 <= e <= names.len() implies {
            let module = slashed(base) + joined(#[trigger] names.subrange(0, e), seq!['/']);
            &&& list[2 * (names.len() - e)] == (module + ".rs"@, false)
            &&& list[2 * (names.len() - e) + 1] == (module + "/mod.rs"@, false)
        } by {
            lemma_modules_down(base, names, names.len() as int, e);
            assert(list[2 * (names.len() - e)] == down[2 * (names.len() - e)]);
            assert(list[2 * (names.len() - e) + 1] == down[2 * (names.len() - e) + 1]);
        }
        if segments.len() == 1 && parent(from) is Some {
            let file = segments[0] + ".rs"@;
            reveal_strlit(".rs");
            assert(is_segment(segments[0]));
            assert(is_slashless(file)) by {
                assert forall|i: int| 0 <= i < file.len() implies #[trigger] file[i] != '/' by {
                    if i < segments[0].len() {
                        assert(file[i] == segments[0][i]);
                    } else {
                        assert(file[i] == ".rs"@[i - segments[0].len()]);
                    }
                }
            }
            lemma_join_slashed(parent(from)->0, file);
            assert(slashed(parent(from)->0) + file =~= slashed(parent(from)->0) + segments[0]
                + ".rs"@);
            assert(list.last() == sibling_module(from, segments)[0]);
        }
    }
}

} // verus!
