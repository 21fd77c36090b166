//! Which files an import can name, whatever its length, and which of them it
//! does name.
use vstd::prelude::*;
use vstd::string::*;

use super::resolve::{candidates, climbed, first_present, folder, leading_dots, non_empty, resolved};
use crate::disk::DiskView;
use crate::path_laws::{
    ancestor, is_plain_name, law_components_are_read_in_order,
    law_extension_is_behind_the_last_dot, law_names_are_the_components, law_names_follow_a_path,
};
use crate::paths::{components, join_paths, with_extension};
use crate::scanner::Language;
use crate::text::{joined, split};
use crate::text_laws::{
    law_join_then_split, law_parts_are_joined_in_order, law_pieces_lie_between_separators,
    stands_nowhere,
};

verus! {

// ---------------------------------------------------------------------------
// The first candidate that exists
// ---------------------------------------------------------------------------

/// Whether there is something at the path, and a regular file where one is
/// asked for.
pub open spec fn is_there(disk: DiskView, c: (Seq<char>, bool)) -> bool {
    disk.present.contains(c.0) && (!c.1 || disk.regular.contains(c.0))
}

/// An import names the first of its candidates that is there, however far down
/// the list it stands, and none where none is there.
pub proof fn law_first_candidate_wins(
    root: Seq<char>,
    from: Seq<char>,
    import: Seq<char>,
    language: Language,
    disk: DiskView,
    k: int,
)
    ensures
        ({
            let list = candidates(root, from, import, language);
            &&& 0 <= k < list.len() && is_there(disk, list[k]) && (forall|m: int|
                0 <= m < k ==> !is_there(disk, #[trigger] list[m])) ==> resolved(
                root,
                from,
                import,
                language,
                disk,
            ) == Some(list[k].0)
            &&& (forall|m: int| 0 <= m < list.len() ==> !is_there(disk, #[trigger] list[m]))
                ==> resolved(root, from, import, language, disk) is None
        }),
{
    let list = candidates(root, from, import, language);
    if 0 <= k < list.len() && is_there(disk, list[k]) && forall|m: int|
        0 <= m < k ==> !is_there(disk, #[trigger] list[m]) {
        lemma_first_present(disk, list, k);
    }
    if forall|m: int| 0 <= m < list.len() ==> !is_there(disk, #[trigger] list[m]) {
        lemma_none_present(disk, list);
    }
}

proof fn lemma_first_present(disk: DiskView, list: Seq<(Seq<char>, bool)>, k: int)
    requires
        0 <= k < list.len(),
        is_there(disk, list[k]),
        forall|m: int| 0 <= m < k ==> !is_there(disk, #[trigger] list[m]),
    ensures
        first_present(disk, list) == Some(list[k].0),
    decreases k,
{
    if k > 0 {
        let rest = list.drop_first();
        assert(!is_there(disk, list[0]));
        assert forall|m: int| 0 <= m < k - 1 implies !is_there(disk, #[trigger] rest[m]) by {
            assert(rest[m] == list[m + 1]);
        }
        lemma_first_present(disk, rest, k - 1);
    }
}

proof fn lemma_none_present(disk: DiskView, list: Seq<(Seq<char>, bool)>)
    requires
        forall|m: int| 0 <= m < list.len() ==> !is_there(disk, #[trigger] list[m]),
    ensures
        first_present(disk, list) is None,
    decreases list.len(),
{
    if list.len() > 0 {
        let rest = list.drop_first();
        assert(!is_there(disk, list[0]));
        assert forall|m: int| 0 <= m < rest.len() implies !is_there(disk, #[trigger] rest[m]) by {
            assert(rest[m] == list[m + 1]);
        }
        lemma_none_present(disk, rest);
    }
}

// ---------------------------------------------------------------------------
// Names below a folder
// ---------------------------------------------------------------------------

/// The text of a folder with what stands before the first name below it.
pub open spec fn slashed(base: Seq<char>) -> Seq<char> {
    if base.len() == 0 || base[base.len() - 1] == '/' {
        base
    } else {
        base + seq!['/']
    }
}

/// Whether the text is not empty and has no slash in it.
pub open spec fn is_slashless(name: Seq<char>) -> bool {
    name.len() > 0 && forall|i: int| 0 <= i < name.len() ==> #[trigger] name[i] != '/'
}

/// Whether the text is not empty and has neither dots nor slashes in it.
pub open spec fn is_word(name: Seq<char>) -> bool {
    name.len() > 0 && forall|i: int|
        0 <= i < name.len() ==> #[trigger] name[i] != '/' && name[i] != '.'
}

/// A word is the name of a file.
pub proof fn lemma_word(name: Seq<char>)
    requires
        is_word(name),
    ensures
        is_plain_name(name),
        is_slashless(name),
{
    assert(name[0] != '.');
    assert(seq!['.'][0] == '.');
    assert(seq!['.', '.'][0] == '.');
}

/// A name below a folder stands behind its slash.
pub proof fn lemma_join_slashed(base: Seq<char>, name: Seq<char>)
    requires
        is_slashless(name),
    ensures
        join_paths(base, name) == slashed(base) + name,
{
    assert(name[0] != '/');
    assert(join_paths(base, name) =~= slashed(base) + name);
}

/// The text of names below a folder.
pub proof fn lemma_folder_text(base: Seq<char>, names: Seq<Seq<char>>, n: int)
    requires
        1 <= n <= names.len(),
        forall|i: int| 0 <= i < names.len() ==> is_slashless(#[trigger] names[i]),
    ensures
        folder(base, names, n) == slashed(base) + joined(names.subrange(0, n), seq!['/']),
        slashed(folder(base, names, n)) == folder(base, names, n) + seq!['/'],
    decreases n,
{
    let sep = seq!['/'];
    let name = names[n - 1];
    let some = names.subrange(0, n);
    lemma_join_slashed(folder(base, names, n - 1), name);
    let text = folder(base, names, n);
    assert(text.last() == name.last());
    if n == 1 {
        assert(folder(base, names, 0) == base);
        assert(joined(some, sep) == some[0]);
    } else {
        lemma_folder_text(base, names, n - 1);
        assert(some.subrange(0, n - 1) =~= names.subrange(0, n - 1));
        assert(text =~= slashed(base) + joined(some, sep));
    }
}

/// The components of names below a folder.
pub proof fn lemma_below_components(base: Seq<char>, names: Seq<Seq<char>>)
    requires
        names.len() > 0,
        forall|i: int| 0 <= i < names.len() ==> is_plain_name(#[trigger] names[i]),
    ensures
        components(slashed(base) + joined(names, seq!['/'])) == components(base) + names,
{
    let sep = seq!['/'];
    let tail = joined(names, sep);
    law_names_are_the_components(names);
    law_components_are_read_in_order(base, seq!['.', '.']);
    if base.len() == 0 {
        assert(base =~= Seq::<char>::empty());
        assert(slashed(base) + tail =~= tail);
        assert(components(base) + names =~= names);
    } else if base[base.len() - 1] == '/' {
        let s = base.drop_last();
        assert(s + sep =~= base);
        if s.len() == 0 {
            assert(base =~= sep);
        } else {
            law_components_are_read_in_order(s, seq!['.', '.']);
            law_names_follow_a_path(s, names);
        }
    } else {
        law_names_follow_a_path(base, names);
    }
}

// ---------------------------------------------------------------------------
// Python
// ---------------------------------------------------------------------------

proof fn lemma_leading_dots(s: Seq<char>, n: int)
    requires
        0 <= n <= s.len(),
        forall|i: int| 0 <= i < n ==> #[trigger] s[i] == '.',
        n < s.len() ==> s[n] != '.',
    ensures
        leading_dots(s) == n,
    decreases n,
{
    if n > 0 {
        let rest = s.drop_first();
        assert(s[0] == '.');
        assert forall|i: int| 0 <= i < n - 1 implies #[trigger] rest[i] == '.' by {
            assert(rest[i] == s[i + 1]);
        }
        lemma_leading_dots(rest, n - 1);
    }
}

proof fn lemma_climbed(s: Seq<char>, n: nat)
    ensures
        climbed(s, n as int) == ancestor(s, n),
    decreases n,
{
    if n > 0 {
        lemma_climbed(s, (n - 1) as nat);
    }
}

proof fn lemma_non_empty(parts: Seq<Seq<char>>)
    ensures
        non_empty(parts) == parts.filter(|p: Seq<char>| p.len() > 0),
    decreases parts.len(),
{
    reveal(Seq::filter);
    if parts.len() > 0 {
        lemma_non_empty(parts.drop_last());
    } else {
        assert(non_empty(parts) =~= parts);
    }
}

proof fn lemma_filter_keeps_all(parts: Seq<Seq<char>>)
    requires
        forall|i: int| 0 <= i < parts.len() ==> (#[trigger] parts[i]).len() > 0,
    ensures
        non_empty(parts) == parts,
    decreases parts.len(),
{
    if parts.len() > 0 {
        let front = parts.drop_last();
        assert forall|i: int| 0 <= i < front.len() implies (#[trigger] front[i]).len() > 0 by {
            assert(front[i] == parts[i]);
        }
        lemma_filter_keeps_all(front);
        assert(front.push(parts.last()) =~= parts);
    } else {
        assert(non_empty(parts) =~= parts);
    }
}

proof fn lemma_python_files(base: Seq<char>, names: Seq<Seq<char>>)
    requires
        names.len() > 0,
        forall|i: int| 0 <= i < names.len() ==> is_word(#[trigger] names[i]),
    ensures
        with_extension(folder(base, names, names.len() as int), "py"@) == slashed(base) + joined(
            names,
            seq!['/'],
        ) + ".py"@,
        join_paths(folder(base, names, names.len() as int), "__init__.py"@) == slashed(base)
            + joined(names, seq!['/']) + "/__init__.py"@,
{
    let sep = seq!['/'];
    let n = names.len() as int;
    assert forall|i: int| 0 <= i < names.len() implies is_slashless(#[trigger] names[i]) by {
        lemma_word(names[i]);
    }
    lemma_folder_text(base, names, n);
    assert(names.subrange(0, n) =~= names);
    let text = folder(base, names, n);
    let last = names[n - 1];
    let before = names.subrange(0, n - 1);
    let front = slashed(base) + (if n == 1 {
        Seq::empty()
    } else {
        joined(before, sep) + sep
    });
    assert(text =~= front + last);
    assert(front.len() == 0 || front.last() == '/') by {
        if n == 1 {
            assert(front =~= slashed(base));
        }
    }
    lemma_word(last);
    assert forall|i: int| 1 <= i < last.len() implies #[trigger] last[i] != '.' by {}
    law_extension_is_behind_the_last_dot(front, last, Seq::empty(), "py"@);
    reveal_strlit("py");
    reveal_strlit(".py");
    assert(seq!['.'] + "py"@ =~= ".py"@);
    assert(front + last + seq!['.'] + "py"@ =~= text + (seq!['.'] + "py"@));
    reveal_strlit("__init__.py");
    reveal_strlit("/__init__.py");
    assert(is_slashless("__init__.py"@));
    lemma_join_slashed(text, "__init__.py"@);
    assert(seq!['/'] + "__init__.py"@ =~= "/__init__.py"@);
    assert(text + sep + "__init__.py"@ =~= text + (sep + "__init__.py"@));
}

proof fn lemma_dotted_splits(names: Seq<Seq<char>>)
    requires
        names.len() > 0,
        forall|i: int| 0 <= i < names.len() ==> is_word(#[trigger] names[i]),
    ensures
        split(joined(names, seq!['.']), "."@) == names,
        joined(names, seq!['.']).len() > 0,
        joined(names, seq!['.'])[0] != '.',
{
    reveal_strlit(".");
    assert("."@ =~= seq!['.']);
    assert forall|i: int| 0 <= i < names.len() implies !(#[trigger] names[i]).contains('.') by {
        assert(is_word(names[i]));
    }
    law_join_then_split(names, seq!['.']);
    let others = names.subrange(1, names.len() as int);
    assert(seq![names[0]] + others =~= names);
    law_parts_are_joined_in_order(names[0], others, seq!['.']);
    if others.len() == 0 {
        assert(names =~= seq![names[0]]);
    }
    assert(joined(names, seq!['.'])[0] == names[0][0]);
    assert(is_word(names[0]));
}

/// An import by a dotted name, of any number of parts, can name the file at
/// these parts below the project root, each of them a folder but the last, with
/// `.py` behind it, or the package with that path; nothing else.
pub proof fn law_dotted_names_are_paths(root: Seq<char>, from: Seq<char>, names: Seq<Seq<char>>)
    requires
        names.len() > 0,
        forall|i: int| 0 <= i < names.len() ==> is_word(#[trigger] names[i]),
    ensures
        candidates(root, from, joined(names, seq!['.']), Language::Python) == seq![
            (slashed(root) + joined(names, seq!['/']) + ".py"@, false),
            (slashed(root) + joined(names, seq!['/']) + "/__init__.py"@, false),
        ],
{
    let import = joined(names, seq!['.']);
    lemma_dotted_splits(names);
    lemma_leading_dots(import, 0);
    assert(import.subrange(0, import.len() as int) =~= import);
    assert forall|i: int| 0 <= i < names.len() implies (#[trigger] names[i]).len() > 0 by {
        assert(is_word(names[i]));
    }
    lemma_filter_keeps_all(names);
    lemma_python_files(root, names);
}

/// The components of the two files that a dotted name can name: those of the
/// root, then every part in order, the last one with `.py` or with the file of a
/// package below it.
pub proof fn law_dotted_names_by_components(
    root: Seq<char>,
    from: Seq<char>,
    names: Seq<Seq<char>>,
)
    requires
        names.len() > 0,
        forall|i: int| 0 <= i < names.len() ==> is_word(#[trigger] names[i]),
    ensures
        ({
            let list = candidates(root, from, joined(names, seq!['.']), Language::Python);
            &&& list.len() == 2
            &&& components(list[0].0) == components(root) + names.drop_last().push(
                names.last() + ".py"@,
            )
            &&& components(list[1].0) == components(root) + names.push("__init__.py"@)
        }),
{
    let sep = seq!['/'];
    law_dotted_names_are_paths(root, from, names);
    reveal_strlit(".py");
    reveal_strlit("__init__.py");
    reveal_strlit("/__init__.py");
    let last = names.last();
    let file = names.drop_last().push(last + ".py"@);
    let package = names.push("__init__.py"@);
    assert forall|i: int| 0 <= i < names.len() implies is_plain_name(#[trigger] names[i]) by {
        lemma_word(names[i]);
    }
    assert(is_plain_name(last + ".py"@)) by {
        let t = last + ".py"@;
        assert(is_word(last));
        assert forall|i: int| 0 <= i < t.len() implies #[trigger] t[i] != '/' by {
            if i < last.len() {
                assert(t[i] == last[i]);
            } else {
                assert(t[i] == ".py"@[i - last.len()]);
            }
        }
        assert(t.len() > 3);
    }
    assert forall|i: int| 0 <= i < file.len() implies is_plain_name(#[trigger] file[i]) by {
        if i < names.len() - 1 {
            assert(file[i] == names[i]);
        }
    }
    assert(is_plain_name("__init__.py"@)) by {
        assert("__init__.py"@.len() == 11);
    }
    assert forall|i: int| 0 <= i < package.len() implies is_plain_name(#[trigger] package[i]) by {
        if i < names.len() {
            assert(package[i] == names[i]);
        }
    }
    lemma_below_components(root, file);
    lemma_below_components(root, package);
    let front = names.drop_last();
    assert(file.subrange(0, file.len() - 1) =~= front);
    assert(front =~= names.subrange(0, names.len() - 1));
    assert(joined(file, sep) =~= joined(names, sep) + ".py"@) by {
        if names.len() == 1 {
            assert(joined(file, sep) == file[0]);
            assert(joined(names, sep) == names[0]);
        }
    }
    assert(package.subrange(0, package.len() - 1) =~= names);
    assert(seq!['/'] + "__init__.py"@ =~= "/__init__.py"@);
    assert(joined(package, sep) =~= joined(names, sep) + "/__init__.py"@);
    assert(slashed(root) + joined(file, sep) =~= slashed(root) + joined(names, sep) + ".py"@);
    assert(slashed(root) + joined(package, sep) =~= slashed(root) + joined(names, sep)
        + "/__init__.py"@);
}

/// A dotted name resolves to its file where that is on disk, to its package
/// where only that is, and to nothing otherwise.
pub proof fn law_dotted_names_resolve(
    root: Seq<char>,
    from: Seq<char>,
    names: Seq<Seq<char>>,
    disk: DiskView,
)
    requires
        names.len() > 0,
        forall|i: int| 0 <= i < names.len() ==> is_word(#[trigger] names[i]),
    ensures
        ({
            let file = slashed(root) + joined(names, seq!['/']) + ".py"@;
            let package = slashed(root) + joined(names, seq!['/']) + "/__init__.py"@;
            resolved(root, from, joined(names, seq!['.']), Language::Python, disk) == (
            if disk.present.contains(file) {
                Some(file)
            } else if disk.present.contains(package) {
                Some(package)
            } else {
                None
            })
        }),
{
    law_dotted_names_are_paths(root, from, names);
    let import = joined(names, seq!['.']);
    let list = candidates(root, from, import, Language::Python);
    law_first_candidate_wins(root, from, import, Language::Python, disk, 0);
    law_first_candidate_wins(root, from, import, Language::Python, disk, 1);
}

/// An import with leading dots is looked for as many levels above the importing
/// file; without a name behind them it is the package there.
pub proof fn law_leading_dots_climb(
    root: Seq<char>,
    from: Seq<char>,
    dots: Seq<char>,
    names: Seq<Seq<char>>,
)
    requires
        dots.len() > 0,
        forall|i: int| 0 <= i < dots.len() ==> #[trigger] dots[i] == '.',
        forall|i: int| 0 <= i < names.len() ==> is_word(#[trigger] names[i]),
    ensures
        candidates(root, from, dots + joined(names, seq!['.']), Language::Python) == (
        match ancestor(from, dots.len()) {
            None => Seq::empty(),
            Some(base) => if names.len() == 0 {
                seq![(slashed(base) + "__init__.py"@, false)]
            } else {
                seq![
                    (slashed(base) + joined(names, seq!['/']) + ".py"@, false),
                    (slashed(base) + joined(names, seq!['/']) + "/__init__.py"@, false),
                ]
            },
        }),
{
    let tail = joined(names, seq!['.']);
    let import = dots + tail;
    let n = dots.len() as int;
    lemma_climbed(from, dots.len());
    assert(import.subrange(n, import.len() as int) =~= tail);
    assert forall|i: int| 0 <= i < n implies #[trigger] import[i] == '.' by {
        assert(import[i] == dots[i]);
    }
    reveal_strlit("__init__.py");
    assert(is_slashless("__init__.py"@));
    if names.len() == 0 {
        assert(tail =~= Seq::<char>::empty());
        lemma_leading_dots(import, n);
        reveal_strlit(".");
        assert(stands_nowhere(tail, "."@));
        law_pieces_lie_between_separators(tail, "."@, 0);
        let parts = split(tail, "."@);
        assert(parts.drop_last() =~= Seq::<Seq<char>>::empty());
        assert(non_empty(parts.drop_last()).len() == 0);
        assert(non_empty(parts).len() == 0);
        if ancestor(from, dots.len()) is Some {
            lemma_join_slashed(ancestor(from, dots.len())->0, "__init__.py"@);
        }
    } else {
        lemma_dotted_splits(names);
        assert(import[n] == tail[0]);
        lemma_leading_dots(import, n);
        assert forall|i: int| 0 <= i < names.len() implies (#[trigger] names[i]).len() > 0 by {
            assert(is_word(names[i]));
        }
        lemma_filter_keeps_all(names);
        if ancestor(from, dots.len()) is Some {
            lemma_python_files(ancestor(from, dots.len())->0, names);
        }
    }
}

/// Empty parts of a dotted name do not matter.
pub proof fn law_empty_parts_do_not_matter(
    root: Seq<char>,
    from: Seq<char>,
    parts: Seq<Seq<char>>,
    names: Seq<Seq<char>>,
)
    requires
        parts.len() > 0,
        is_word(parts[0]),
        forall|i: int|
            0 <= i < parts.len() ==> (#[trigger] parts[i]).len() == 0 || is_word(parts[i]),
        names == parts.filter(|p: Seq<char>| p.len() > 0),
        names.len() > 0,
        forall|i: int| 0 <= i < names.len() ==> is_word(#[trigger] names[i]),
    ensures
        candidates(root, from, joined(parts, seq!['.']), Language::Python) == candidates(
            root,
            from,
            joined(names, seq!['.']),
            Language::Python,
        ),
{
    let import = joined(parts, seq!['.']);
    reveal_strlit(".");
    assert("."@ =~= seq!['.']);
    assert forall|i: int| 0 <= i < parts.len() implies !(#[trigger] parts[i]).contains('.') by {
        assert(parts[i].len() == 0 || is_word(parts[i]));
    }
    law_join_then_split(parts, seq!['.']);
    let others = parts.subrange(1, parts.len() as int);
    assert(seq![parts[0]] + others =~= parts);
    law_parts_are_joined_in_order(parts[0], others, seq!['.']);
    if others.len() == 0 {
        assert(parts =~= seq![parts[0]]);
    }
    assert(import[0] == parts[0][0]);
    lemma_leading_dots(import, 0);
    assert(import.subrange(0, import.len() as int) =~= import);
    lemma_non_empty(parts);
    lemma_python_files(root, names);
    law_dotted_names_are_paths(root, from, names);
}

} // verus!
