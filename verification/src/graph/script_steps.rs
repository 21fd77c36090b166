//! Where the steps of a relative specifier lead.
use vstd::prelude::*;

use super::resolve_laws::slashed;
use crate::path_laws::{
    is_plain_name, law_components_are_read_in_order, law_normal_paths_stay,
    law_normalizing_takes_names_back, law_root_dot_is_the_root,
};
use crate::paths::{components, join_paths, normalized};
use crate::text::joined;
use crate::text_laws::law_parts_are_joined_in_order;

verus! {

/// The steps before the names of a relative specifier: as many `..` as it
/// climbs, or `.`.
pub open spec fn climb_steps(ups: nat) -> Seq<Seq<char>> {
    if ups == 0 {
        seq![seq!['.']]
    } else {
        Seq::new(ups, |i: int| seq!['.', '.'])
    }
}

/// Names behind a slash are added to a normalized path.
pub proof fn lemma_names_added(s: Seq<char>, names: Seq<Seq<char>>)
    requires
        s.len() > 0,
        names.len() > 0,
        forall|i: int| 0 <= i < names.len() ==> is_plain_name(#[trigger] names[i]),
    ensures
        components(normalized(s + seq!['/'] + joined(names, seq!['/']))) == components(
            normalized(s),
        ) + names,
    decreases names.len(),
{
    let sep = seq!['/'];
    let last = names[names.len() - 1];
    let front = names.subrange(0, names.len() - 1);
    if names.len() == 1 {
        law_normalizing_takes_names_back(s, last);
        assert(components(normalized(s)).push(last) =~= components(normalized(s)) + names);
    } else {
        assert forall|i: int| 0 <= i < front.len() implies is_plain_name(#[trigger] front[i]) by {
            assert(front[i] == names[i]);
        }
        lemma_names_added(s, front);
        let t = s + sep + joined(front, sep);
        law_normalizing_takes_names_back(t, last);
        assert(t + sep + last =~= s + sep + joined(names, sep));
        assert(components(normalized(t)).push(last) =~= components(normalized(s)) + names);
    }
}

/// The text of the steps.
spec fn climb_text(ups: nat) -> Seq<char>
    decreases ups,
{
    if ups == 0 {
        seq!['.']
    } else if ups == 1 {
        seq!['.', '.']
    } else {
        climb_text((ups - 1) as nat) + seq!['/', '.', '.']
    }
}

proof fn lemma_climb_text(ups: nat)
    ensures
        joined(climb_steps(ups), seq!['/']) == climb_text(ups),
        climb_text(ups).len() > 0,
        climb_text(ups)[0] == '.',
    decreases ups,
{
    let steps = climb_steps(ups);
    if ups > 1 {
        let less = (ups - 1) as nat;
        lemma_climb_text(less);
        assert(steps.subrange(0, ups - 1) =~= climb_steps(less));
        assert(joined(steps, seq!['/']) =~= climb_text(ups));
    }
}

proof fn lemma_plain_x()
    ensures
        is_plain_name(seq!['x']),
{
    assert(seq!['x'][0] == 'x');
    assert(seq!['.'][0] == '.');
    assert(seq!['.', '.'][0] == '.');
}

proof fn lemma_stays(dir: Seq<char>)
    ensures
        components(normalized(slashed(dir) + seq!['.'])) == components(normalized(dir)),
{
    let sep = seq!['/'];
    let text = slashed(dir) + seq!['.'];
    lemma_plain_x();
    if dir.len() == 0 {
        assert(dir =~= Seq::<char>::empty());
        assert(text =~= seq!['.']);
        law_normalizing_takes_names_back(seq!['x'], seq!['x']);
        law_components_are_read_in_order(dir, seq!['.', '.']);
        law_normal_paths_stay(dir);
    } else if dir[dir.len() - 1] == '/' {
        let start = dir.drop_last();
        assert(start + sep =~= dir);
        if start.len() == 0 {
            assert(dir =~= sep);
            assert(text =~= seq!['/', '.']);
            law_root_dot_is_the_root();
            law_normalizing_takes_names_back(seq!['x'], seq!['x']);
        } else {
            assert(text =~= start + seq!['/', '.']);
            law_normalizing_takes_names_back(start, seq!['x']);
        }
    } else {
        assert(text =~= dir + seq!['/', '.']);
        law_normalizing_takes_names_back(dir, seq!['x']);
    }
}

proof fn lemma_one_up(dir: Seq<char>, kept: Seq<Seq<char>>, name: Seq<char>)
    requires
        components(normalized(dir)) == kept.push(name),
        is_plain_name(name),
    ensures
        dir.len() > 0,
        components(normalized(slashed(dir) + seq!['.', '.'])) == kept,
{
    let sep = seq!['/'];
    let all = kept.push(name);
    let text = slashed(dir) + seq!['.', '.'];
    lemma_plain_x();
    law_components_are_read_in_order(dir, seq!['.', '.']);
    law_normalizing_takes_names_back(seq!['x'], seq!['x']);
    assert(all.last() == name);
    assert(name != sep) by {
        assert(name[0] != '/');
        assert(sep[0] == '/');
    }
    assert(all != seq![sep]) by {
        assert(seq![sep].last() == sep);
    }
    if dir.len() == 0 {
        assert(dir =~= Seq::<char>::empty());
        law_normal_paths_stay(dir);
        assert(all.len() == 0);
    }
    assert(all.drop_last() =~= kept);
    if dir[dir.len() - 1] == '/' {
        let start = dir.drop_last();
        assert(start + sep =~= dir);
        if start.len() == 0 {
            assert(dir =~= sep);
            assert(all == seq![sep]);
        } else {
            assert(text =~= start + seq!['/', '.', '.']);
            law_normalizing_takes_names_back(start, seq!['x']);
        }
    } else {
        assert(text =~= dir + seq!['/', '.', '.']);
        law_normalizing_takes_names_back(dir, seq!['x']);
    }
}

proof fn lemma_climbs(dir: Seq<char>, kept: Seq<Seq<char>>, gone: Seq<Seq<char>>)
    requires
        components(normalized(dir)) == kept + gone,
        forall|i: int| 0 <= i < gone.len() ==> is_plain_name(#[trigger] gone[i]),
    ensures
        components(normalized(slashed(dir) + climb_text(gone.len()))) == kept,
    decreases gone.len(),
{
    let ups = gone.len();
    if ups == 0 {
        lemma_stays(dir);
        assert(kept + gone =~= kept);
    } else if ups == 1 {
        assert(kept + gone =~= kept.push(gone[0]));
        lemma_one_up(dir, kept, gone[0]);
    } else {
        let kept_more = kept.push(gone[0]);
        let less = gone.subrange(1, gone.len() as int);
        assert(kept_more + less =~= kept + gone);
        assert forall|i: int| 0 <= i < less.len() implies is_plain_name(#[trigger] less[i]) by {
            assert(less[i] == gone[i + 1]);
        }
        lemma_climbs(dir, kept_more, less);
        let t = slashed(dir) + climb_text(less.len());
        lemma_climb_text(less.len());
        assert(t[t.len() - 1] == climb_text(less.len())[climb_text(less.len()).len() - 1]);
        lemma_climb_ends(less.len());
        lemma_one_up(t, kept, gone[0]);
        assert(slashed(t) + seq!['.', '.'] =~= slashed(dir) + climb_text(ups));
    }
}

proof fn lemma_climb_ends(ups: nat)
    ensures
        climb_text(ups).len() > 0,
        climb_text(ups)[climb_text(ups).len() - 1] == '.',
    decreases ups,
{
}

proof fn lemma_joined_add(a: Seq<Seq<char>>, b: Seq<Seq<char>>, sep: Seq<char>)
    requires
        a.len() > 0,
        b.len() > 0,
    ensures
        joined(a + b, sep) == joined(a, sep) + sep + joined(b, sep),
    decreases a.len(),
{
    let others = a.subrange(1, a.len() as int);
    assert(seq![a[0]] + others =~= a);
    assert(seq![a[0]] + (others + b) =~= a + b);
    law_parts_are_joined_in_order(a[0], others + b, sep);
    law_parts_are_joined_in_order(a[0], others, sep);
    if others.len() == 0 {
        assert(others + b =~= b);
        assert(a =~= seq![a[0]]);
    } else {
        lemma_joined_add(others, b, sep);
        assert(joined(a + b, sep) =~= joined(a, sep) + sep + joined(b, sep));
    }
}

/// The text of a relative specifier: its steps, then its names.
pub open spec fn specifier(ups: nat, names: Seq<Seq<char>>) -> Seq<char> {
    joined(climb_steps(ups) + names, seq!['/'])
}

/// The path that a relative specifier leads to: its names below the folder that
/// its steps lead to.
pub proof fn lemma_specifier_base(
    dir: Seq<char>,
    kept: Seq<Seq<char>>,
    gone: Seq<Seq<char>>,
    names: Seq<Seq<char>>,
) -> (top: Seq<char>)
    requires
        components(normalized(dir)) == kept + gone,
        forall|i: int| 0 <= i < gone.len() ==> is_plain_name(#[trigger] gone[i]),
        names.len() > 0,
    ensures
        top.len() > 0,
        components(normalized(top)) == kept,
        specifier(gone.len(), names).len() > 0,
        specifier(gone.len(), names)[0] == '.',
        join_paths(dir, specifier(gone.len(), names)) == top + seq!['/'] + joined(names, seq!['/']),
{
    let sep = seq!['/'];
    let steps = climb_steps(gone.len());
    let import = specifier(gone.len(), names);
    lemma_joined_add(steps, names, sep);
    lemma_climb_text(gone.len());
    lemma_climbs(dir, kept, gone);
    let top = slashed(dir) + climb_text(gone.len());
    assert(import[0] == climb_text(gone.len())[0]);
    assert(join_paths(dir, import) =~= slashed(dir) + import);
    assert(slashed(dir) + import =~= top + sep + joined(names, sep));
    top
}

} // verus!
