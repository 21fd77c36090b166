//! Where a target resolves to, however much of its path is missing.
use vstd::prelude::*;
use vstd::string::*;

use crate::disk::DiskView;
use crate::path_laws::{
    ancestor, is_plain_name, law_joining_puts_one_below_the_other, law_parent_drops_the_last,
    lemma_ancestor_of_parent,
};
use crate::paths::{
    canonical, components, file_name, is_name, join_paths, lemma_components_are_list,
    lemma_join_name, lemma_parent_is_shorter, parent,
};
use crate::rules::baseline::baseline_file_name;
use crate::rules::config::config_file_name;
use crate::security::{bypass_file_name, lineage, nearest, rejoined, under_root, SandboxErrorView};

verus! {

/// Whether the path that is `n` steps above another is the first one that is
/// taken, and each one before it has a name.
pub open spec fn is_first_taken(path: Seq<char>, disk: DiskView, n: nat) -> bool {
    &&& ancestor(path, n) matches Some(p) && disk.is_taken(p)
    &&& forall|m: nat|
        m < n ==> (#[trigger] ancestor(path, m) matches Some(p) && !disk.is_taken(p) && file_name(
            p,
        ) is Some)
}

/// Whether the search ends `n` steps above a path without having met anything
/// that is taken: there is no name left to take away.
pub open spec fn ends_without(path: Seq<char>, disk: DiskView, n: nat) -> bool {
    &&& ancestor(path, n) matches Some(p) && !disk.is_taken(p) && file_name(p) is None
    &&& forall|m: nat|
        m < n ==> (#[trigger] ancestor(path, m) matches Some(p) && !disk.is_taken(p) && file_name(
            p,
        ) is Some)
}

/// The path that a target stands for.
pub open spec fn is_path_of(project_root: Seq<char>, target: Seq<char>, path: Seq<char>) -> bool {
    if target.len() > 0 && target[0] == '/' {
        path == target
    } else {
        path == join_paths(project_root, target)
    }
}

/// The last `n` components.
pub open spec fn last_components(path: Seq<char>, n: nat) -> Seq<Seq<char>> {
    components(path).subrange(components(path).len() - n, components(path).len() as int)
}

proof fn lemma_upward(path: Seq<char>, disk: DiskView, n: nat)
    requires
        n > 0,
        forall|m: nat|
            m < n ==> (#[trigger] ancestor(path, m) matches Some(p) && !disk.is_taken(p)
                && file_name(p) is Some),
    ensures
        !disk.is_taken(path),
        file_name(path) == Some(components(path).last()),
        components(path).len() > 0,
        parent(path) is Some,
        components(parent(path)->0) == components(path).drop_last(),
        forall|m: nat|
            m < n - 1 ==> (#[trigger] ancestor(parent(path)->0, m) matches Some(p)
                && !disk.is_taken(p) && file_name(p) is Some),
        ancestor(path, n) == ancestor(parent(path)->0, (n - 1) as nat),
{
    assert(ancestor(path, 0) == Some(path));
    lemma_parent_is_shorter(path);
    law_parent_drops_the_last(path);
    let up = parent(path)->0;
    lemma_ancestor_of_parent(path, (n - 1) as nat);
    assert forall|m: nat| m < n - 1 implies (#[trigger] ancestor(up, m) matches Some(p)
        && !disk.is_taken(p) && file_name(p) is Some) by {
        lemma_ancestor_of_parent(path, m);
        assert(ancestor(path, m + 1) is Some);
    }
}

proof fn lemma_nearest(path: Seq<char>, disk: DiskView, n: nat, tail: Seq<Seq<char>>)
    requires
        is_first_taken(path, disk, n),
    ensures
        n <= components(path).len(),
        nearest(path, disk, tail) == Some(
            (ancestor(path, n)->0, tail + last_components(path, n).reverse()),
        ),
        forall|i: int|
            0 <= i < n ==> (#[trigger] last_components(path, n)[i]) != seq!['/'] && last_components(
                path,
                n,
            )[i] != seq!['.'],
    decreases n,
{
    if n == 0 {
        assert(ancestor(path, 0) == Some(path));
        assert(last_components(path, 0).reverse() =~= Seq::empty());
        assert(tail + Seq::<Seq<char>>::empty() =~= tail);
    } else {
        let m = (n - 1) as nat;
        lemma_upward(path, disk, n);
        let up = parent(path)->0;
        let name = components(path).last();
        assert(is_first_taken(up, disk, m));
        lemma_nearest(up, disk, m, tail.push(name));
        assert(last_components(path, n) =~= last_components(up, m).push(name));
        assert(last_components(path, n).reverse() =~= seq![name] + last_components(
            up,
            m,
        ).reverse());
        assert(tail.push(name) + last_components(up, m).reverse() =~= tail + last_components(
            path,
            n,
        ).reverse());
    }
}

proof fn lemma_rejoined(form: Seq<char>, tail: Seq<Seq<char>>)
    requires
        form == canonical(form),
        form.len() > 0,
        forall|i: int| 0 <= i < tail.len() ==> is_name(#[trigger] tail[i]) && tail[i] != seq!['.'],
    ensures
        components(rejoined(form, tail)) == components(form) + tail.reverse(),
    decreases tail.len(),
{
    if tail.len() == 0 {
        assert(components(form) + tail.reverse() =~= components(form));
    } else {
        let name = tail.last();
        let less = tail.drop_last();
        assert(is_name(tail[tail.len() - 1]));
        lemma_join_name(form, name);
        assert forall|i: int| 0 <= i < less.len() implies is_name(#[trigger] less[i]) && less[i]
            != seq!['.'] by {
            assert(less[i] == tail[i]);
        }
        assert(join_paths(form, name).len() > 0);
        lemma_rejoined(join_paths(form, name), less);
        assert(tail.reverse() =~= seq![name] + less.reverse());
        assert(components(form).push(name) + less.reverse() =~= components(form)
            + tail.reverse());
    }
}

/// A target resolves to the real form of the nearest thing above it that exists,
/// with all the missing names behind it in their order, however many there are.
/// It is accepted exactly where the components of the real root are the first of
/// these.
pub proof fn law_targets_keep_their_missing_names(
    project_root: Seq<char>,
    target: Seq<char>,
    path: Seq<char>,
    disk: DiskView,
    root: Seq<char>,
    form: Seq<char>,
    n: nat,
)
    requires
        is_path_of(project_root, target, path),
        is_first_taken(path, disk, n),
        !disk.dangling.contains(ancestor(path, n)->0),
        form == canonical(form),
        form.len() > 0,
    ensures
        n <= components(path).len(),
        ({
            let r = under_root(project_root, target, disk, Some(root), Some(form));
            let whole = components(form) + last_components(path, n);
            &&& r is Ok <==> components(root).is_prefix_of(whole)
            &&& r matches Ok(p) ==> components(p) == whole
            &&& r matches Err(e) ==> (e matches SandboxErrorView::Escape(t, p, o) && t == target
                && o == root && components(p) == whole)
        }),
{
    lemma_nearest(path, disk, n, Seq::empty());
    let names = last_components(path, n);
    let tail = names.reverse();
    assert(Seq::<Seq<char>>::empty() + tail =~= tail);
    lemma_components_are_list(path);
    assert forall|i: int| 0 <= i < tail.len() implies is_name(#[trigger] tail[i]) && tail[i]
        != seq!['.'] by {
        let k = names.len() - 1 - i;
        assert(tail[i] == names[k]);
        assert(names[k] == components(path)[components(path).len() - n + k]);
    }
    lemma_rejoined(form, tail);
    assert(tail.reverse() =~= names);
}

/// Without a real form of the root, or of what exists, or with nothing that
/// exists above it, a target is refused, and each refusal says which of these it
/// was.
pub proof fn law_unclear_targets_are_refused(
    project_root: Seq<char>,
    target: Seq<char>,
    path: Seq<char>,
    disk: DiskView,
    root: Seq<char>,
    form: Option<Seq<char>>,
    n: nat,
)
    requires
        is_path_of(project_root, target, path),
    ensures
        under_root(project_root, target, disk, None, form) == Err::<Seq<char>, SandboxErrorView>(
            SandboxErrorView::Root(project_root),
        ),
        ends_without(path, disk, n) ==> under_root(project_root, target, disk, Some(root), form)
            == Err::<Seq<char>, SandboxErrorView>(SandboxErrorView::NoAncestor(path)),
        is_first_taken(path, disk, n) && (form is None || disk.dangling.contains(
            ancestor(path, n)->0,
        )) ==> under_root(project_root, target, disk, Some(root), form) == Err::<
            Seq<char>,
            SandboxErrorView,
        >(
            if n == 0 {
                SandboxErrorView::Target(path)
            } else {
                SandboxErrorView::Ancestor(ancestor(path, n)->0)
            },
        ),
{
    if ends_without(path, disk, n) {
        lemma_nothing_near(path, disk, n, Seq::empty());
    }
    if is_first_taken(path, disk, n) {
        lemma_nearest(path, disk, n, Seq::empty());
        assert((Seq::<Seq<char>>::empty() + last_components(path, n).reverse()).len() == n);
    }
}

proof fn lemma_nothing_near(path: Seq<char>, disk: DiskView, n: nat, tail: Seq<Seq<char>>)
    requires
        ends_without(path, disk, n),
    ensures
        nearest(path, disk, tail) is None,
    decreases n,
{
    if n == 0 {
        assert(ancestor(path, 0) == Some(path));
    } else {
        lemma_upward(path, disk, n);
        assert(ends_without(parent(path)->0, disk, (n - 1) as nat));
        lemma_nothing_near(
            parent(path)->0,
            disk,
            (n - 1) as nat,
            tail.push(components(path).last()),
        );
    }
}

/// The search asks for the target and for each path above it, in order, as long
/// as there are names to take away.
pub proof fn law_every_step_is_asked_for(path: Seq<char>, n: nat)
    requires
        forall|m: nat|
            m < n ==> (#[trigger] ancestor(path, m) matches Some(p) && file_name(p) is Some),
    ensures
        ancestor(path, n) is Some,
        n < lineage(path).len(),
        lineage(path)[n as int] == ancestor(path, n)->0,
        file_name(ancestor(path, n)->0) is None ==> lineage(path).len() == n + 1,
    decreases n,
{
    assert(ancestor(path, 0) == Some(path));
    if n > 0 {
        let k = (n - 1) as nat;
        lemma_parent_is_shorter(path);
        let up = parent(path)->0;
        lemma_ancestor_of_parent(path, k);
        assert forall|m: nat| m < k implies (#[trigger] ancestor(up, m) matches Some(p)
            && file_name(p) is Some) by {
            lemma_ancestor_of_parent(path, m);
            assert(ancestor(path, m + 1) is Some);
        }
        law_every_step_is_asked_for(up, k);
        assert(lineage(path) == seq![path] + lineage(up));
    }
}

/// The bypass is engaged by a file of its own name directly below the project
/// root; the rules and the baseline are such files too.
pub proof fn law_project_files_stand_in_the_root(root: Seq<char>)
    ensures
        components(join_paths(root, bypass_file_name())) == components(root).push(
            ".aetherlink_bypass"@,
        ),
        components(join_paths(root, baseline_file_name())) == components(root).push(
            ".aetherlink-baseline.json"@,
        ),
        components(join_paths(root, config_file_name())) == components(root).push(
            "AetherLink.toml"@,
        ),
{
    reveal_strlit(".aetherlink_bypass");
    reveal_strlit(".aetherlink-baseline.json");
    reveal_strlit("AetherLink.toml");
    assert(".aetherlink_bypass"@.len() == 18 && ".aetherlink-baseline.json"@.len() == 25
        && "AetherLink.toml"@.len() == 15);
    assert(is_plain_name(".aetherlink_bypass"@));
    assert(is_plain_name(".aetherlink-baseline.json"@));
    assert(is_plain_name("AetherLink.toml"@));
    law_joining_puts_one_below_the_other(root, ".aetherlink_bypass"@);
    law_joining_puts_one_below_the_other(root, ".aetherlink-baseline.json"@);
    law_joining_puts_one_below_the_other(root, "AetherLink.toml"@);
}

} // verus!
