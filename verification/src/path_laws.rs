//! What reading, joining and normalizing come to, whatever the path.
use vstd::prelude::*;

use crate::paths::{
    absolute, canonical, collapsed, components, components_below, extension, extension_or_empty,
    file_name, is_component_list, is_name, join_paths, kept, last_dot, lemma_components_append,
    lemma_components_are_list, lemma_names_append, lemma_names_flat, lemma_names_in_order,
    lemma_parts_in_order, lemma_rendered, lemma_root_child, lemma_single, lemma_texts_prefix,
    names_from, normalized, parent, parts, rendered, starts_with, with_extension,
};
use crate::text::joined;

verus! {

/// Whether `name` names a file or a folder: it is not empty, has no slash in it
/// and is neither `.` nor `..`.
pub open spec fn is_plain_name(name: Seq<char>) -> bool {
    &&& name.len() > 0
    &&& forall|i: int| 0 <= i < name.len() ==> #[trigger] name[i] != '/'
    &&& name != seq!['.']
    &&& name != seq!['.', '.']
}

proof fn lemma_plain_name(name: Seq<char>)
    requires
        is_plain_name(name),
    ensures
        is_name(name),
        name != seq!['.'],
        name != seq!['/'],
        !absolute(name),
{
    assert(name[0] != '/');
}

// ---------------------------------------------------------------------------
// Components
// ---------------------------------------------------------------------------

proof fn lemma_tail_adds_nothing(s: Seq<char>, tail: Seq<char>)
    requires
        s.len() > 0,
        tail.len() == 0 || tail == seq!['.'],
    ensures
        components(s + (seq!['/'] + tail)) == components(s),
        parts(s + (seq!['/'] + tail)) == parts(s),
{
    let t = s + (seq!['/'] + tail);
    lemma_names_append(s, tail, 0, 0);
    assert(t.subrange(s.len() as int + 1, t.len() as int) =~= tail);
    assert(parts(t) =~= parts(s));
    lemma_parts_in_order(s);
    lemma_texts_prefix(s, seq!['/'] + tail, parts(s));
}

/// A path is read name by name: the empty text has no component, the slash alone
/// has the root, and a slash with a name behind it adds that name to whatever
/// stands before it. A further slash adds nothing, and neither does `/.`.
pub proof fn law_components_are_read_in_order(s: Seq<char>, name: Seq<char>)
    requires
        is_plain_name(name) || name == seq!['.', '.'],
    ensures
        components(Seq::empty()) == Seq::<Seq<char>>::empty(),
        components(seq!['/']) == seq![seq!['/']],
        components(seq!['.']) == seq![seq!['.']],
        components(name) == seq![name],
        components(seq!['/'] + name) == seq![seq!['/'], name],
        s.len() > 0 ==> components(s + seq!['/']) == components(s),
        s.len() > 0 ==> components(s + seq!['/', '.']) == components(s),
        s.len() > 0 ==> components(s + seq!['/'] + name) == components(s).push(name),
{
    assert(is_name(name) && name != seq!['.']) by {
        if name == seq!['.', '.'] {
            assert(name[0] == '.' && name[1] == '.');
        } else {
            lemma_plain_name(name);
        }
    }
    assert(parts(Seq::<char>::empty()) =~= Seq::empty());
    assert(components(Seq::<char>::empty()) =~= Seq::empty());
    let root = seq![seq!['/']];
    assert(is_component_list(root));
    lemma_rendered(root);
    assert(root.subrange(1, 1) =~= Seq::<Seq<char>>::empty());
    assert(rendered(root) =~= seq!['/']);
    lemma_single(name);
    lemma_single(seq!['.']);
    lemma_root_child(name);
    if s.len() > 0 {
        lemma_tail_adds_nothing(s, Seq::empty());
        assert(s + (seq!['/'] + Seq::<char>::empty()) =~= s + seq!['/']);
        lemma_tail_adds_nothing(s, seq!['.']);
        assert(s + (seq!['/'] + seq!['.']) =~= s + seq!['/', '.']);
        lemma_components_append(s, name);
        assert(s + (seq!['/'] + name) =~= s + seq!['/'] + name);
    }
}

/// Names with a slash between each two are the components of the text, however
/// many there are; with a slash before them the root comes first.
pub proof fn law_names_are_the_components(names: Seq<Seq<char>>)
    requires
        names.len() > 0,
        forall|i: int| 0 <= i < names.len() ==> is_plain_name(#[trigger] names[i]),
    ensures
        components(joined(names, seq!['/'])) == names,
        components(seq!['/'] + joined(names, seq!['/'])) == seq![seq!['/']] + names,
{
    assert forall|i: int| 0 <= i < names.len() implies is_name(#[trigger] names[i]) && names[i]
        != seq!['.'] && names[i] != seq!['/'] by {
        lemma_plain_name(names[i]);
    }
    assert(is_component_list(names));
    lemma_rendered(names);
    let rooted = seq![seq!['/']] + names;
    assert(is_component_list(rooted)) by {
        assert forall|i: int| 0 <= i < rooted.len() implies (i == 0 && #[trigger] rooted[i]
            == seq!['/']) || (is_name(rooted[i]) && (i == 0 || rooted[i] != seq!['.'])) by {
            if i > 0 {
                assert(rooted[i] == names[i - 1]);
            }
        }
    }
    lemma_rendered(rooted);
    assert(rooted.subrange(1, rooted.len() as int) =~= names);
}

// ---------------------------------------------------------------------------
// Parents
// ---------------------------------------------------------------------------

proof fn lemma_names_end_after(s: Seq<char>, start: int, at: int)
    requires
        0 <= start <= at <= s.len(),
    ensures
        forall|i: int|
            0 <= i < names_from(s, start, at).len() ==> at <= (#[trigger] names_from(
                s,
                start,
                at,
            )[i]).1,
    decreases s.len() - at,
{
    if at >= s.len() {
    } else if s[at] == '/' {
        lemma_names_end_after(s, at + 1, at + 1);
        let head = kept(s, start, at);
        let tail = names_from(s, at + 1, at + 1);
        assert(names_from(s, start, at) == head + tail);
        assert forall|i: int| 0 <= i < (head + tail).len() implies at <= (#[trigger] (head
            + tail)[i]).1 by {
            if i >= head.len() {
                assert((head + tail)[i] == tail[i - head.len()]);
            }
        }
    } else {
        lemma_names_end_after(s, start, at + 1);
        assert(names_from(s, start, at) == names_from(s, start, at + 1));
    }
}

proof fn lemma_names_cut(s: Seq<char>, start: int, at: int, i: int)
    requires
        0 <= start <= at <= s.len(),
        0 <= i < names_from(s, start, at).len(),
    ensures
        names_from(s.subrange(0, names_from(s, start, at)[i].1), start, at) == names_from(
            s,
            start,
            at,
        ).subrange(0, i + 1),
    decreases s.len() - at,
{
    let all = names_from(s, start, at);
    let e = all[i].1;
    lemma_names_end_after(s, start, at);
    assert(e <= s.len()) by {
        lemma_names_in_order(s, start, at);
        assert(all[i].0 < all[i].1);
    }
    let t = s.subrange(0, e);
    if at >= s.len() {
        assert(t =~= s);
        assert(all.subrange(0, 1) =~= all);
    } else if s[at] == '/' {
        let head = kept(s, start, at);
        let tail = names_from(s, at + 1, at + 1);
        if i < head.len() {
            assert(e == at);
            assert(t.subrange(start, at) =~= s.subrange(start, at));
            assert(names_from(t, start, at) == kept(t, start, at));
            assert(all.subrange(0, 1) =~= head);
        } else {
            let j = i - head.len();
            assert(all[i] == tail[j]);
            lemma_names_end_after(s, at + 1, at + 1);
            lemma_names_cut(s, at + 1, at + 1, j);
            assert(t[at] == '/');
            assert(t.subrange(start, at) =~= s.subrange(start, at));
            assert(all.subrange(0, i + 1) =~= head + tail.subrange(0, j + 1));
        }
    } else {
        lemma_names_end_after(s, start, at + 1);
        lemma_names_cut(s, start, at + 1, i);
        assert(t[at] == s[at]);
    }
}

/// A path that is cut off behind one of its components has the components up
/// to that one.
proof fn lemma_cut(s: Seq<char>, i: int)
    requires
        0 <= i < parts(s).len(),
    ensures
        0 < parts(s)[i].1 <= s.len(),
        components(s.subrange(0, parts(s)[i].1)) == components(s).subrange(0, i + 1),
{
    lemma_parts_in_order(s);
    let all = parts(s);
    let e = all[i].1;
    let t = s.subrange(0, e);
    let names = names_from(s, 0, 0);
    if absolute(s) {
        assert(t[0] == '/');
        if i == 0 {
            assert(t =~= seq!['/']);
            assert(all[0] == (0int, 1int));
            law_components_are_read_in_order(t, seq!['.', '.']);
            assert(s.subrange(0, 1) =~= seq!['/']);
            assert(components(s).subrange(0, 1) =~= seq![seq!['/']]);
        } else {
            assert(all[i] == names[i - 1]);
            lemma_names_cut(s, 0, 0, i - 1);
            assert(parts(t) =~= all.subrange(0, i + 1));
        }
    } else {
        assert(all =~= names);
        lemma_names_cut(s, 0, 0, i);
        assert(!absolute(t));
        assert(parts(t) =~= all.subrange(0, i + 1));
    }
    if parts(t) == all.subrange(0, i + 1) {
        assert forall|k: int| 0 <= k <= i implies components(t)[k] == components(s)[k] by {
            assert(parts(t)[k] == all[k]);
            assert(all[k].1 <= e) by {
                if k < i {
                    assert(all[k].1 <= all[i].0);
                }
            }
            assert(t.subrange(all[k].0, all[k].1) =~= s.subrange(all[k].0, all[k].1));
        }
        assert(components(t) =~= components(s).subrange(0, i + 1));
    }
}

/// The parent of a path is a front part of its text and has all its components
/// but the last. Only the empty path and the root have none.
pub proof fn law_parent_drops_the_last(s: Seq<char>)
    ensures
        parent(s) is None <==> components(s).len() == 0 || components(s) == seq![seq!['/']],
        parent(s) matches Some(p) ==> {
            &&& p.len() < s.len()
            &&& s.subrange(0, p.len() as int) == p
            &&& components(p) == components(s).drop_last()
        },
{
    let all = parts(s);
    lemma_parts_in_order(s);
    assert(components(s).len() == all.len());
    if all.len() == 1 {
        let r = all[0];
        if absolute(s) {
            assert(all[0] == (0int, 1int));
            assert(s.subrange(0, 1) =~= seq!['/']);
            assert(components(s) =~= seq![seq!['/']]);
        } else {
            lemma_components_are_list(s);
            assert(s[0] != '/');
            if components(s) == seq![seq!['/']] {
                assert(components(s)[0] == s.subrange(r.0, r.1));
                assert(components(s)[0][0] == '/');
                lemma_rendered(components(s));
                assert(names_from(s, 0, 0) =~= all);
                lemma_names_have_no_slash(s, 0, 0);
                assert(s[r.0] == s.subrange(r.0, r.1)[0]);
            }
            assert(s.subrange(0, 0) =~= Seq::<char>::empty());
            assert(parts(Seq::<char>::empty()) =~= Seq::empty());
            assert(components(Seq::<char>::empty()) =~= components(s).drop_last());
        }
    } else if all.len() > 1 {
        lemma_cut(s, all.len() - 2);
        assert(all[all.len() - 2].1 <= all[all.len() - 1].0);
        assert(components(s).drop_last() =~= components(s).subrange(0, all.len() - 1));
    }
}

proof fn lemma_names_have_no_slash(s: Seq<char>, start: int, at: int)
    requires
        0 <= start <= at <= s.len(),
        forall|k: int| start <= k < at ==> s[k] != '/',
    ensures
        forall|i: int|
            0 <= i < names_from(s, start, at).len() ==> s[(#[trigger] names_from(s, start, at)[i]).0]
                != '/',
    decreases s.len() - at,
{
    if at >= s.len() {
    } else if s[at] == '/' {
        lemma_names_have_no_slash(s, at + 1, at + 1);
        let head = kept(s, start, at);
        let tail = names_from(s, at + 1, at + 1);
        assert(names_from(s, start, at) == head + tail);
        assert forall|i: int| 0 <= i < (head + tail).len() implies s[(#[trigger] (head
            + tail)[i]).0] != '/' by {
            if i >= head.len() {
                assert((head + tail)[i] == tail[i - head.len()]);
            }
        }
    } else {
        lemma_names_have_no_slash(s, start, at + 1);
        assert(names_from(s, start, at) == names_from(s, start, at + 1));
    }
}

/// Whether the text ends with a name, not with a slash or `/.`.
pub open spec fn ends_with_name(s: Seq<char>) -> bool {
    &&& s.len() > 0
    &&& s[s.len() - 1] != '/'
    &&& !(s.len() > 1 && s[s.len() - 1] == '.' && s[s.len() - 2] == '/')
}

proof fn lemma_last_name_reaches_end(s: Seq<char>, start: int, at: int)
    requires
        ends_with_name(s),
        0 <= start <= at <= s.len(),
        start == 0 || s[start - 1] == '/',
    ensures
        names_from(s, start, at).len() > 0,
        names_from(s, start, at).last().1 == s.len(),
    decreases s.len() - at,
{
    if at >= s.len() {
        if start > 0 && s.subrange(start, s.len() as int) == seq!['.'] {
            assert(s.subrange(start, s.len() as int)[0] == s[start]);
            assert(s.subrange(start, s.len() as int).len() == 1);
        }
    } else if s[at] == '/' {
        lemma_last_name_reaches_end(s, at + 1, at + 1);
        let tail = names_from(s, at + 1, at + 1);
        let all = kept(s, start, at) + tail;
        assert(all.last() == tail.last());
    } else {
        lemma_last_name_reaches_end(s, start, at + 1);
    }
}

/// A name below a folder has that folder as its parent, and that name as its
/// file name.
pub proof fn law_parent_of_child(dir: Seq<char>, name: Seq<char>)
    requires
        is_plain_name(name),
    ensures
        ends_with_name(dir) ==> parent(dir + seq!['/'] + name) == Some(dir),
        parent(seq!['/'] + name) == Some(seq!['/']),
        parent(name) == Some(Seq::<char>::empty()),
        parent(seq!['/']) is None,
        parent(Seq::empty()) is None,
        dir.len() > 0 ==> file_name(dir + seq!['/'] + name) == Some(name),
        file_name(seq!['/'] + name) == Some(name),
        file_name(name) == Some(name),
{
    lemma_plain_name(name);
    law_components_are_read_in_order(dir, name);
    law_parent_drops_the_last(seq!['/']);
    law_parent_drops_the_last(Seq::empty());
    law_parent_drops_the_last(name);
    assert(components(name).drop_last() =~= Seq::empty());
    lemma_single(name);
    lemma_names_flat(name, 0, 0);
    let rooted = seq!['/'] + name;
    law_parent_drops_the_last(rooted);
    lemma_names_append(Seq::empty(), name, 0, 0);
    assert(Seq::<char>::empty() + (seq!['/'] + name) =~= rooted);
    assert(names_from(Seq::<char>::empty(), 0, 0) =~= Seq::empty());
    assert(rooted.subrange(1, rooted.len() as int) =~= name);
    assert(parts(rooted) =~= seq![(0int, 1int), (1int, rooted.len() as int)]);
    assert(rooted.subrange(0, 1) =~= seq!['/']);
    if dir.len() > 0 {
        let t = dir + seq!['/'] + name;
        lemma_names_append(dir, name, 0, 0);
        assert(dir + (seq!['/'] + name) =~= t);
        assert(t.subrange(dir.len() as int + 1, t.len() as int) =~= name);
        let r = (dir.len() as int + 1, t.len() as int);
        assert(parts(t) =~= parts(dir).push(r));
        if ends_with_name(dir) {
            lemma_last_name_reaches_end(dir, 0, 0);
            assert(parts(dir).last() == names_from(dir, 0, 0).last());
            assert(parts(t)[parts(t).len() - 2] == parts(dir).last());
            assert(t.subrange(0, dir.len() as int) =~= dir);
        }
    }
}

/// The folder that is `n` steps above another.
pub open spec fn ancestor(folder: Seq<char>, n: nat) -> Option<Seq<char>>
    decreases n,
{
    if n == 0 {
        Some(folder)
    } else {
        match ancestor(folder, (n - 1) as nat) {
            Some(f) => parent(f),
            None => None,
        }
    }
}

/// The steps above a folder are those above its parent and one more.
pub proof fn lemma_ancestor_of_parent(folder: Seq<char>, n: nat)
    ensures
        ancestor(folder, n + 1) == (match parent(folder) {
            Some(up) => ancestor(up, n),
            None => None,
        }),
    decreases n,
{
    if n > 0 {
        lemma_ancestor_of_parent(folder, (n - 1) as nat);
        assert(ancestor(folder, n + 1) == (match ancestor(folder, n) {
            Some(f) => parent(f),
            None => None,
        }));
    } else {
        assert(ancestor(folder, 0) == Some(folder));
        assert(ancestor(folder, 1) == parent(folder));
    }
}

// ---------------------------------------------------------------------------
// Extensions
// ---------------------------------------------------------------------------

/// A name behind a slash, or alone, is the last component.
pub proof fn lemma_last_part(front: Seq<char>, name: Seq<char>)
    requires
        is_plain_name(name),
        front.len() == 0 || front.last() == '/',
    ensures
        file_name(front + name) == Some(name),
        components(front + name).len() > 0,
        components(front + name).last() == name,
        parts(front + name).len() > 0,
        parts(front + name).last() == (front.len() as int, (front + name).len() as int),
{
    lemma_plain_name(name);
    let t = front + name;
    let r = (front.len() as int, t.len() as int);
    assert(t.subrange(r.0, r.1) =~= name);
    if front.len() == 0 {
        assert(t =~= name);
        lemma_names_flat(name, 0, 0);
        assert(parts(t) =~= seq![r]);
    } else {
        let s = front.drop_last();
        lemma_names_append(s, name, 0, 0);
        assert(s + (seq!['/'] + name) =~= t);
        assert(kept(t, r.0, r.1) =~= seq![r]);
        assert(names_from(t, 0, 0) == names_from(s, 0, 0) + seq![r]);
        assert(parts(t).last() == r);
    }
    assert(components(t)[parts(t).len() - 1] == t.subrange(r.0, r.1));
}

proof fn lemma_last_dot(s: Seq<char>, k: int, to: int)
    requires
        0 <= k < to <= s.len(),
        s[k] == '.',
        forall|i: int| k < i < to ==> s[i] != '.',
    ensures
        last_dot(s, to) == Some(k),
    decreases to,
{
    if to - 1 > k {
        lemma_last_dot(s, k, to - 1);
    }
}

proof fn lemma_no_dot(s: Seq<char>, to: int)
    requires
        0 <= to <= s.len(),
        forall|i: int| 1 <= i < to ==> s[i] != '.',
    ensures
        last_dot(s, to) is None || last_dot(s, to) == Some(0int),
    decreases to,
{
    if to > 0 {
        lemma_no_dot(s, to - 1);
    }
}

/// The extension of a file name is what stands behind its last dot, and a new
/// one takes its place. A name without a dot, or with one at its front alone,
/// has no extension, and a new one is added.
pub proof fn law_extension_is_behind_the_last_dot(
    front: Seq<char>,
    stem: Seq<char>,
    ext: Seq<char>,
    other: Seq<char>,
)
    requires
        front.len() == 0 || front.last() == '/',
        is_plain_name(stem),
        forall|i: int| 0 <= i < ext.len() ==> #[trigger] ext[i] != '.' && ext[i] != '/',
    ensures
        extension_or_empty(front + stem + seq!['.'] + ext) == ext,
        with_extension(front + stem + seq!['.'] + ext, other) == front + stem + seq!['.'] + other,
        (forall|i: int| 1 <= i < stem.len() ==> #[trigger] stem[i] != '.') ==> {
            &&& extension_or_empty(front + stem) == Seq::<char>::empty()
            &&& with_extension(front + stem, other) == front + stem + seq!['.'] + other
        },
{
    let name = stem + seq!['.'] + ext;
    assert(is_plain_name(name)) by {
        assert forall|i: int| 0 <= i < name.len() implies #[trigger] name[i] != '/' by {
            if i < stem.len() {
                assert(name[i] == stem[i]);
            } else if i > stem.len() {
                assert(name[i] == ext[i - stem.len() - 1]);
            }
        }
        if name == seq!['.', '.'] {
            assert(name.len() == 2);
            assert(stem.len() == 1);
            assert(name[0] == stem[0]);
            assert(stem =~= seq!['.']);
        }
    }
    let t = front + name;
    assert(front + stem + seq!['.'] + ext =~= t);
    lemma_last_part(front, name);
    assert(name[stem.len() as int] == '.');
    assert forall|i: int| stem.len() < i < name.len() implies name[i] != '.' by {
        assert(name[i] == ext[i - stem.len() - 1]);
    }
    lemma_last_dot(name, stem.len() as int, name.len() as int);
    assert(name.subrange(stem.len() as int + 1, name.len() as int) =~= ext);
    assert(t.subrange(0, (front + stem).len() as int) =~= front + stem);
    if forall|i: int| 1 <= i < stem.len() ==> #[trigger] stem[i] != '.' {
        lemma_last_part(front, stem);
        lemma_no_dot(stem, stem.len() as int);
        let u = front + stem;
        assert(u.subrange(0, u.len() as int) =~= u);
    }
}

// ---------------------------------------------------------------------------
// Normalizing
// ---------------------------------------------------------------------------

proof fn lemma_collapsed_list(c: Seq<Seq<char>>, n: int)
    requires
        is_component_list(c),
        0 <= n <= c.len(),
    ensures
        is_component_list(collapsed(c, n)),
        collapsed(c, n).len() <= n,
    decreases n,
{
    if n > 0 {
        lemma_collapsed_list(c, n - 1);
        let before = collapsed(c, n - 1);
        let all = collapsed(c, n);
        assert(c[n - 1] == seq!['/'] ==> n == 1) by {
            if c[n - 1] == seq!['/'] && n > 1 {
                assert(is_name(c[n - 1]));
                assert(c[n - 1].contains(c[n - 1][0]));
            }
        }
        assert(n > 1 ==> is_name(c[n - 1]));
        assert forall|i: int| 0 <= i < all.len() implies (i == 0 && #[trigger] all[i] == seq!['/'])
            || (is_name(all[i]) && (i == 0 || all[i] != seq!['.'])) by {
            if i < before.len() {
                assert(all[i] == before[i]);
            } else {
                assert(all[i] == c[n - 1]);
                if n == 1 {
                    assert(before.len() == 0);
                }
            }
        }
        if n == 1 {
            assert(before.len() == 0);
        }
    }
}

proof fn lemma_collapsed_front(c: Seq<Seq<char>>, d: Seq<Seq<char>>, n: int)
    requires
        0 <= n <= c.len(),
        c.is_prefix_of(d),
    ensures
        collapsed(c, n) == collapsed(d, n),
    decreases n,
{
    if n > 0 {
        lemma_collapsed_front(c, d, n - 1);
        assert(c[n - 1] == d[n - 1]);
    }
}

/// The components of a normalized path are found name by name: a name is added,
/// `..` takes the last one back, but for the root, and `.` and a further slash
/// change nothing.
pub proof fn law_normalizing_takes_names_back(s: Seq<char>, name: Seq<char>)
    requires
        s.len() > 0,
        is_plain_name(name),
    ensures
        components(normalized(s + seq!['/'] + name)) == components(normalized(s)).push(name),
        components(normalized(s + seq!['/', '.', '.'])) == (if components(normalized(s)).len() == 0
            || components(normalized(s)) == seq![seq!['/']] {
            components(normalized(s))
        } else {
            components(normalized(s)).drop_last()
        }),
        normalized(s + seq!['/', '.']) == normalized(s),
        normalized(s + seq!['/']) == normalized(s),
        components(normalized(name)) == seq![name],
        components(normalized(seq!['/'])) == seq![seq!['/']],
        components(normalized(seq!['.'])) == Seq::<Seq<char>>::empty(),
        components(normalized(seq!['.', '.'])) == Seq::<Seq<char>>::empty(),
{
    let up = seq!['.', '.'];
    lemma_plain_name(name);
    law_components_are_read_in_order(s, name);
    law_components_are_read_in_order(s, up);
    assert(s + seq!['/'] + up =~= s + seq!['/', '.', '.']);
    let c = components(s);
    let before = collapsed(c, c.len() as int);
    lemma_components_are_list(s);
    lemma_collapsed_list(c, c.len() as int);
    lemma_rendered(before);
    assert(components(normalized(s)) == before);
    let more = c.push(name);
    lemma_components_are_list(s + seq!['/'] + name);
    lemma_collapsed_front(c, more, c.len() as int);
    lemma_collapsed_list(more, more.len() as int);
    lemma_rendered(collapsed(more, more.len() as int));
    let back = c.push(up);
    lemma_components_are_list(s + seq!['/'] + up);
    lemma_collapsed_front(c, back, c.len() as int);
    lemma_collapsed_list(back, back.len() as int);
    lemma_rendered(collapsed(back, back.len() as int));
    assert(seq!['.', '.'] != seq!['.']) by {
        assert(seq!['.', '.'].len() != seq!['.'].len());
    }
    if before.len() > 0 {
        let last = before[before.len() - 1];
        if last == seq!['/'] && before.len() > 1 {
            assert(is_name(last));
            assert(last.contains(last[0]));
        }
        if last == seq!['/'] {
            assert(before =~= seq![seq!['/']]);
        }
    }
    let one = seq![name];
    assert(collapsed(one, 0) =~= Seq::<Seq<char>>::empty());
    assert(collapsed(one, 1) =~= one);
    lemma_rendered(one);
    let root = seq![seq!['/']];
    assert(root[0] != seq!['.'] && root[0] != seq!['.', '.']) by {
        assert(root[0][0] == '/');
        assert(seq!['.'][0] == '.');
        assert(seq!['.', '.'][0] == '.');
    }
    assert(collapsed(root, 0) =~= Seq::<Seq<char>>::empty());
    assert(collapsed(root, 1) =~= root);
    lemma_rendered(root);
    let none = Seq::<Seq<char>>::empty();
    lemma_rendered(none);
    let dot = seq!['.'];
    assert(is_name(dot));
    lemma_single(dot);
    assert(collapsed(seq![dot], 0) =~= none);
    assert(collapsed(seq![dot], 1) =~= none);
    assert(is_name(up));
    lemma_single(up);
    assert(collapsed(seq![up], 0) =~= none);
    assert(collapsed(seq![up], 1) =~= none);
}

// ---------------------------------------------------------------------------
// Joining and prefixes
// ---------------------------------------------------------------------------

/// A path below another has the components of the one and then those of the
/// other; an absolute path stands alone.
pub proof fn law_joining_puts_one_below_the_other(base: Seq<char>, name: Seq<char>)
    requires
        is_plain_name(name),
    ensures
        components(join_paths(base, name)) == components(base).push(name),
        join_paths(base, seq!['/'] + name) == seq!['/'] + name,
        base.len() > 0 && base.last() != '/' ==> join_paths(base, name) == base + seq!['/'] + name,
{
    lemma_plain_name(name);
    assert(absolute(seq!['/'] + name));
    if base.len() == 0 {
        assert(base =~= Seq::<char>::empty());
        law_components_are_read_in_order(base, name);
        assert(components(base).push(name) =~= seq![name]);
    } else if base.last() == '/' {
        let s = base.drop_last();
        assert(s + seq!['/'] =~= base);
        assert(s + seq!['/'] + name =~= base + name);
        if s.len() > 0 {
            law_components_are_read_in_order(s, name);
        } else {
            assert(base =~= seq!['/']);
            law_components_are_read_in_order(base, name);
            assert(components(base).push(name) =~= seq![seq!['/'], name]);
        }
    } else {
        law_components_are_read_in_order(base, name);
    }
}

/// A path lies below another exactly where its components are those of the
/// other and some more; these are what is left below it.
pub proof fn law_prefixes_are_whole_components(
    s: Seq<char>,
    base: Seq<char>,
    more: Seq<Seq<char>>,
)
    ensures
        components(s) == components(base) + more ==> starts_with(s, base) && components_below(
            s,
            Some(base),
        ) == more,
        starts_with(s, base) ==> components(s) == components(base) + components_below(s, Some(base)),
        !starts_with(s, base) ==> components_below(s, Some(base)) == components(s),
        components_below(s, None) == components(s),
{
    if components(s) == components(base) + more {
        assert(components(s).subrange(0, components(base).len() as int) =~= components(base));
        assert(components(s).subrange(
            components(base).len() as int,
            components(s).len() as int,
        ) =~= more);
    }
    if starts_with(s, base) {
        assert(components(s) =~= components(base) + components_below(s, Some(base)));
    }
}

/// Names behind a slash are the further components, however many there are.
pub proof fn law_names_follow_a_path(s: Seq<char>, names: Seq<Seq<char>>)
    requires
        s.len() > 0,
        names.len() > 0,
        forall|i: int| 0 <= i < names.len() ==> is_plain_name(#[trigger] names[i]),
    ensures
        components(s + seq!['/'] + joined(names, seq!['/'])) == components(s) + names,
    decreases names.len(),
{
    let sep = seq!['/'];
    let last = names[names.len() - 1];
    let front = names.subrange(0, names.len() - 1);
    if names.len() == 1 {
        law_components_are_read_in_order(s, last);
        assert(components(s).push(last) =~= components(s) + names);
    } else {
        assert forall|i: int| 0 <= i < front.len() implies is_plain_name(#[trigger] front[i]) by {
            assert(front[i] == names[i]);
        }
        law_names_follow_a_path(s, front);
        let t = s + sep + joined(front, sep);
        law_components_are_read_in_order(t, last);
        assert(t + sep + last =~= s + sep + joined(names, sep));
        assert(components(t).push(last) =~= components(s) + names);
    }
}

/// A path that is already without `.` and `..` keeps its components when it is
/// normalized.
pub proof fn law_normal_paths_stay(s: Seq<char>)
    requires
        forall|i: int|
            0 <= i < components(s).len() ==> #[trigger] components(s)[i] != seq!['.']
                && components(s)[i] != seq!['.', '.'],
    ensures
        components(normalized(s)) == components(s),
{
    let c = components(s);
    lemma_components_are_list(s);
    lemma_collapsed_plain(c, c.len() as int);
    assert(c.subrange(0, c.len() as int) =~= c);
    lemma_rendered(c);
}

proof fn lemma_collapsed_plain(c: Seq<Seq<char>>, n: int)
    requires
        0 <= n <= c.len(),
        forall|i: int| 0 <= i < c.len() ==> #[trigger] c[i] != seq!['.'] && c[i] != seq!['.', '.'],
    ensures
        collapsed(c, n) == c.subrange(0, n),
    decreases n,
{
    if n > 0 {
        lemma_collapsed_plain(c, n - 1);
        assert(c[n - 1] != seq!['.']);
        assert(c.subrange(0, n - 1).push(c[n - 1]) =~= c.subrange(0, n));
    } else {
        assert(c.subrange(0, 0) =~= Seq::<Seq<char>>::empty());
    }
}

/// A normalized path has the plainest text.
pub proof fn law_normalized_text_is_plain(s: Seq<char>)
    ensures
        canonical(normalized(s)) == normalized(s),
{
    let c = components(s);
    lemma_components_are_list(s);
    lemma_collapsed_list(c, c.len() as int);
    lemma_rendered(collapsed(c, c.len() as int));
}

/// The root with `.` below it is the root.
pub proof fn law_root_dot_is_the_root()
    ensures
        components(seq!['/', '.']) == seq![seq!['/']],
        components(normalized(seq!['/', '.'])) == seq![seq!['/']],
{
    let t = seq!['/', '.'];
    lemma_names_append(Seq::empty(), seq!['.'], 0, 0);
    assert(Seq::<char>::empty() + (seq!['/'] + seq!['.']) =~= t);
    assert(t.subrange(1, 2) =~= seq!['.']);
    assert(names_from(Seq::<char>::empty(), 0, 0) =~= Seq::empty());
    assert(parts(t) =~= seq![(0int, 1int)]);
    assert(t.subrange(0, 1) =~= seq!['/']);
    assert(components(t) =~= seq![seq!['/']]);
    assert(seq!['/'][0] == '/');
    assert(seq!['.'][0] == '.');
    assert(seq!['.', '.'][0] == '.');
    law_normal_paths_stay(t);
}

} // verus!
