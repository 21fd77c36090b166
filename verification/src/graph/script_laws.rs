//! Which files a specifier of a script can name, whatever its length.
use vstd::prelude::*;
use vstd::string::*;

use super::resolve::{candidates, script_candidates, script_extension};
use super::resolve_laws::{is_slashless, is_word, lemma_join_slashed, slashed};
use super::script_steps::{lemma_names_added, lemma_specifier_base, specifier};
use crate::path_laws::{
    is_plain_name, law_extension_is_behind_the_last_dot, law_names_are_the_components,
    law_normal_paths_stay, law_normalized_text_is_plain,
};
use crate::paths::{canonical, components, join_paths, normalized, parent, with_extension};
use crate::scanner::Language;
use crate::text::joined;

verus! {

/// The extensions of scripts.
pub open spec fn script_extensions() -> Seq<Seq<char>> {
    seq!["ts"@, "tsx"@, "js"@, "jsx"@, "mjs"@, "cjs"@]
}

/// The last name with its extension, if it has one, left out.
pub open spec fn is_stem(stem: Seq<char>, name: Seq<char>) -> bool {
    ||| stem == name && forall|i: int| 1 <= i < name.len() ==> #[trigger] name[i] != '.'
    ||| exists|ext: Seq<char>|
        (forall|i: int| 0 <= i < ext.len() ==> #[trigger] ext[i] != '.') && name == #[trigger] (stem
            + seq!['.'] + ext)
}

proof fn lemma_with_extension(
    top: Seq<char>,
    names: Seq<Seq<char>>,
    stem: Seq<char>,
    ext: Seq<char>,
)
    requires
        top.len() > 0,
        names.len() > 0,
        forall|i: int| 0 <= i < names.len() ==> is_plain_name(#[trigger] names[i]),
        is_plain_name(stem),
        is_stem(stem, names.last()),
        is_word(ext),
    ensures
        components(
            normalized(with_extension(top + seq!['/'] + joined(names, seq!['/']), ext)),
        ) == components(normalized(top)) + names.drop_last().push(stem + seq!['.'] + ext),
{
    let sep = seq!['/'];
    let last = names.last();
    let before = names.drop_last();
    let base = top + sep + joined(names, sep);
    let file = stem + seq!['.'] + ext;
    let other = before.push(file);
    assert(before =~= names.subrange(0, names.len() - 1));
    let front = top + sep + (if names.len() == 1 {
        Seq::empty()
    } else {
        joined(before, sep) + sep
    });
    assert(base =~= front + last);
    assert(front.last() == '/');
    lemma_stem(front, stem, last, ext);
    lemma_name_with_extension(stem, ext);
    assert forall|k: int| 0 <= k < other.len() implies is_plain_name(#[trigger] other[k]) by {
        if k < before.len() {
            assert(other[k] == names[k]);
        }
    }
    lemma_names_added(top, other);
    assert(other.subrange(0, other.len() - 1) =~= before);
    if names.len() == 1 {
        assert(joined(other, sep) == other[0]);
    }
    assert(front + stem + seq!['.'] + ext =~= top + sep + joined(other, sep));
}

proof fn lemma_with_index(top: Seq<char>, names: Seq<Seq<char>>, ext: Seq<char>)
    requires
        top.len() > 0,
        names.len() > 0,
        forall|i: int| 0 <= i < names.len() ==> is_plain_name(#[trigger] names[i]),
        is_word(ext),
    ensures
        components(
            normalized(join_paths(top + seq!['/'] + joined(names, seq!['/']), "index."@ + ext)),
        ) == components(normalized(top)) + names.push("index."@ + ext),
{
    let sep = seq!['/'];
    let last = names.last();
    let base = top + sep + joined(names, sep);
    let file = "index."@ + ext;
    reveal_strlit("index");
    reveal_strlit("index.");
    let index = "index"@;
    assert(index + seq!['.'] =~= "index."@);
    assert(index.len() == 5);
    assert(is_plain_name(index));
    lemma_name_with_extension(index, ext);
    let other = names.push(file);
    assert forall|k: int| 0 <= k < other.len() implies is_plain_name(#[trigger] other[k]) by {
        if k < names.len() {
            assert(other[k] == names[k]);
        }
    }
    lemma_names_added(top, other);
    assert(other.subrange(0, other.len() - 1) =~= names);
    assert(is_plain_name(last));
    assert(joined(names, sep).last() == last.last());
    assert(base.last() == last.last());
    assert(slashed(base) == base + sep);
    assert(is_slashless(file));
    lemma_join_slashed(base, file);
    assert(join_paths(base, file) =~= top + sep + joined(other, sep));
}

/// A specifier that starts with `./` or with any number of `../` can name the
/// script at its names below the folder that it climbs to, with each of the
/// extensions in turn, then the index script of that folder, and last the file as
/// it is written. All of them are in the plainest form.
pub proof fn law_relative_specifiers_are_paths(
    root: Seq<char>,
    from: Seq<char>,
    dir: Seq<char>,
    kept: Seq<Seq<char>>,
    gone: Seq<Seq<char>>,
    names: Seq<Seq<char>>,
    stem: Seq<char>,
    i: int,
)
    requires
        parent(from) == Some(dir),
        components(normalized(dir)) == kept + gone,
        forall|i: int| 0 <= i < gone.len() ==> is_plain_name(#[trigger] gone[i]),
        names.len() > 0,
        forall|i: int| 0 <= i < names.len() ==> is_plain_name(#[trigger] names[i]),
        is_plain_name(stem),
        is_stem(stem, names.last()),
        0 <= i < 6,
    ensures
        ({
            let list = candidates(
                root,
                from,
                specifier(gone.len(), names),
                Language::TypeScript,
            );
            &&& list.len() == 13
            &&& components(list[i].0) == kept + names.drop_last().push(
                stem + seq!['.'] + script_extensions()[i],
            )
            &&& components(list[6 + i].0) == kept + names.push("index."@ + script_extensions()[i])
            &&& components(list[12].0) == kept + names
            &&& !list[i].1 && !list[6 + i].1 && list[12].1
            &&& canonical(list[i].0) == list[i].0
            &&& canonical(list[6 + i].0) == list[6 + i].0
            &&& canonical(list[12].0) == list[12].0
        }),
{
    let import = specifier(gone.len(), names);
    let top = lemma_specifier_base(dir, kept, gone, names);
    lemma_script_extension(i);
    let ext = script_extensions()[i];
    lemma_with_extension(top, names, stem, ext);
    lemma_with_index(top, names, ext);
    lemma_names_added(top, names);
    lemma_script_candidate(from, import, dir, i);
    lemma_script_candidate(from, import, dir, 6 + i);
    lemma_script_candidate(from, import, dir, 12);
}

proof fn lemma_script_candidate(from: Seq<char>, import: Seq<char>, dir: Seq<char>, i: int)
    requires
        parent(from) == Some(dir),
        import.len() > 0,
        import[0] == '.' || import[0] == '/',
        0 <= i < 13,
    ensures
        script_candidates(from, import).len() == 13,
        script_candidates(from, import)[i] == (if i < 6 {
            (normalized(with_extension(join_paths(dir, import), script_extension(i))), false)
        } else if i < 12 {
            (
                normalized(
                    join_paths(join_paths(dir, import), "index."@ + script_extension(i - 6)),
                ),
                false,
            )
        } else {
            (normalized(join_paths(dir, import)), true)
        }),
        canonical(script_candidates(from, import)[i].0) == script_candidates(from, import)[i].0,
{
    let base = join_paths(dir, import);
    let list = script_candidates(from, import);
    if i < 6 {
        assert(list[i].0 == normalized(with_extension(base, script_extension(i))));
        law_normalized_text_is_plain(with_extension(base, script_extension(i)));
    } else if i < 12 {
        assert(list[i].0 == normalized(join_paths(base, "index."@ + script_extension(i - 6))));
        law_normalized_text_is_plain(join_paths(base, "index."@ + script_extension(i - 6)));
    } else {
        assert(list[i].0 == normalized(base));
        law_normalized_text_is_plain(base);
    }
}

proof fn lemma_script_extension(i: int)
    requires
        0 <= i < 6,
    ensures
        script_extension(i) == script_extensions()[i],
        is_word(script_extensions()[i]),
{
    reveal_strlit("ts");
    reveal_strlit("tsx");
    reveal_strlit("js");
    reveal_strlit("jsx");
    reveal_strlit("mjs");
    reveal_strlit("cjs");
}

proof fn lemma_name_with_extension(stem: Seq<char>, ext: Seq<char>)
    requires
        is_plain_name(stem),
        is_word(ext),
    ensures
        is_plain_name(stem + seq!['.'] + ext),
{
    let t = stem + seq!['.'] + ext;
    assert forall|i: int| 0 <= i < t.len() implies #[trigger] t[i] != '/' by {
        if i < stem.len() {
            assert(t[i] == stem[i]);
        } else if i > stem.len() {
            assert(t[i] == ext[i - stem.len() - 1]);
        }
    }
    assert(t.len() > 2);
}

proof fn lemma_stem(front: Seq<char>, stem: Seq<char>, name: Seq<char>, other: Seq<char>)
    requires
        front.len() == 0 || front.last() == '/',
        is_plain_name(stem),
        is_plain_name(name),
        is_stem(stem, name),
    ensures
        with_extension(front + name, other) == front + stem + seq!['.'] + other,
{
    if stem == name && forall|i: int| 1 <= i < name.len() ==> #[trigger] name[i] != '.' {
        law_extension_is_behind_the_last_dot(front, stem, Seq::empty(), other);
    } else {
        let ext = choose|ext: Seq<char>|
            (forall|i: int| 0 <= i < ext.len() ==> #[trigger] ext[i] != '.') && name
                == #[trigger] (stem + seq!['.'] + ext);
        assert forall|i: int| 0 <= i < ext.len() implies #[trigger] ext[i] != '.' && ext[i]
            != '/' by {
            assert(name[stem.len() + 1 + i] == ext[i]);
        }
        law_extension_is_behind_the_last_dot(front, stem, ext, other);
        assert(front + name =~= front + stem + seq!['.'] + ext);
    }
}

/// A specifier that starts with neither a dot nor a slash is a package and names
/// no file, and neither does any import in an unknown language.
pub proof fn law_packages_name_no_file(
    root: Seq<char>,
    from: Seq<char>,
    import: Seq<char>,
    language: Language,
)
    ensures
        import.len() == 0 || (import[0] != '.' && import[0] != '/') ==> candidates(
            root,
            from,
            import,
            Language::JavaScript,
        ).len() == 0 && candidates(root, from, import, Language::TypeScript).len() == 0,
        candidates(root, from, import, Language::Unknown).len() == 0,
        candidates(root, from, import, Language::JavaScript) == candidates(
            root,
            from,
            import,
            Language::TypeScript,
        ),
{
}

proof fn lemma_rooted(names: Seq<Seq<char>>)
    requires
        names.len() > 0,
        forall|i: int| 0 <= i < names.len() ==> is_plain_name(#[trigger] names[i]),
    ensures
        components(normalized(seq!['/'] + joined(names, seq!['/']))) == seq![seq!['/']] + names,
{
    let s = seq!['/'] + joined(names, seq!['/']);
    law_names_are_the_components(names);
    let all = seq![seq!['/']] + names;
    assert forall|i: int| 0 <= i < components(s).len() implies #[trigger] components(s)[i] != seq![
        '.',
    ] && components(s)[i] != seq!['.', '.'] by {
        if i == 0 {
            assert(all[0] == seq!['/']);
            assert(seq!['/'][0] == '/');
            assert(seq!['.'][0] == '.');
            assert(seq!['.', '.'][0] == '.');
        } else {
            assert(all[i] == names[i - 1]);
            assert(is_plain_name(names[i - 1]));
        }
    }
    law_normal_paths_stay(s);
}

/// A specifier that starts with a slash names its paths below the root of the
/// file system, whatever file it stands in: with each of the extensions, as a
/// folder with an index script, and as it is written.
pub proof fn law_absolute_specifiers_are_paths(
    root: Seq<char>,
    from: Seq<char>,
    names: Seq<Seq<char>>,
    stem: Seq<char>,
    i: int,
)
    requires
        parent(from) is Some,
        names.len() > 0,
        forall|i: int| 0 <= i < names.len() ==> is_plain_name(#[trigger] names[i]),
        is_plain_name(stem),
        is_stem(stem, names.last()),
        0 <= i < 6,
    ensures
        ({
            let list = candidates(
                root,
                from,
                seq!['/'] + joined(names, seq!['/']),
                Language::TypeScript,
            );
            &&& list.len() == 13
            &&& components(list[i].0) == seq![seq!['/']] + names.drop_last().push(
                stem + seq!['.'] + script_extensions()[i],
            )
            &&& components(list[6 + i].0) == seq![seq!['/']] + names.push(
                "index."@ + script_extensions()[i],
            )
            &&& components(list[12].0) == seq![seq!['/']] + names
        }),
{
    let sep = seq!['/'];
    let import = sep + joined(names, sep);
    let dir = parent(from)->0;
    assert(import[0] == '/');
    assert(join_paths(dir, import) == import);
    lemma_script_extension(i);
    let ext = script_extensions()[i];
    let last = names.last();
    let before = names.drop_last();
    assert(before =~= names.subrange(0, names.len() - 1));
    let front = sep + (if names.len() == 1 {
        Seq::empty()
    } else {
        joined(before, sep) + sep
    });
    assert(import =~= front + last);
    assert(front.last() == '/');
    lemma_stem(front, stem, last, ext);
    lemma_name_with_extension(stem, ext);
    let file = stem + seq!['.'] + ext;
    let other = before.push(file);
    assert forall|k: int| 0 <= k < other.len() implies is_plain_name(#[trigger] other[k]) by {
        if k < before.len() {
            assert(other[k] == names[k]);
        }
    }
    assert(other.subrange(0, other.len() - 1) =~= before);
    if names.len() == 1 {
        assert(joined(other, sep) == other[0]);
    }
    assert(front + stem + seq!['.'] + ext =~= sep + joined(other, sep));
    lemma_rooted(other);
    lemma_rooted(names);
    lemma_rooted_index(names, ext);
    lemma_script_candidate(from, import, dir, i);
    lemma_script_candidate(from, import, dir, 6 + i);
    lemma_script_candidate(from, import, dir, 12);
}

proof fn lemma_rooted_index(names: Seq<Seq<char>>, ext: Seq<char>)
    requires
        names.len() > 0,
        forall|i: int| 0 <= i < names.len() ==> is_plain_name(#[trigger] names[i]),
        is_word(ext),
    ensures
        components(
            normalized(join_paths(seq!['/'] + joined(names, seq!['/']), "index."@ + ext)),
        ) == seq![seq!['/']] + names.push("index."@ + ext),
{
    let sep = seq!['/'];
    let base = sep + joined(names, sep);
    let last = names.last();
    let file = "index."@ + ext;
    reveal_strlit("index");
    reveal_strlit("index.");
    let index = "index"@;
    assert(index + seq!['.'] =~= "index."@);
    assert(index.len() == 5);
    assert(is_plain_name(index));
    lemma_name_with_extension(index, ext);
    let other = names.push(file);
    assert forall|k: int| 0 <= k < other.len() implies is_plain_name(#[trigger] other[k]) by {
        if k < names.len() {
            assert(other[k] == names[k]);
        }
    }
    lemma_rooted(other);
    assert(other.subrange(0, other.len() - 1) =~= names);
    assert(is_plain_name(last));
    assert(joined(names, sep).last() == last.last());
    assert(base.last() == last.last());
    assert(slashed(base) == base + sep);
    assert(is_slashless(file));
    lemma_join_slashed(base, file);
    assert(join_paths(base, file) =~= sep + joined(other, sep));
}

} // verus!
