//! Ways through a graph, and its cycles.
use vstd::prelude::*;

verus! {

/// Whether the step of the walk from position `i` is an edge.
pub open spec fn is_step(edges: Seq<(int, int)>, walk: Seq<int>, i: int) -> bool {
    edges.contains((walk[i], walk[i + 1]))
}

/// Whether each step of the walk is an edge.
pub open spec fn is_walk(edges: Seq<(int, int)>, walk: Seq<int>) -> bool {
    walk.len() > 0 && forall|i: int| 0 <= i < walk.len() - 1 ==> #[trigger] is_step(edges, walk, i)
}

/// Whether a walk, possibly without a step, leads from one node to another.
pub open spec fn reaches(edges: Seq<(int, int)>, from: int, to: int) -> bool {
    exists|walk: Seq<int>| #[trigger]
        is_walk(edges, walk) && walk[0] == from && walk.last() == to
}

/// Whether a walk with at least one step leads from the node back to it.
pub open spec fn on_cycle(edges: Seq<(int, int)>, node: int) -> bool {
    exists|walk: Seq<int>| #[trigger]
        is_walk(edges, walk) && walk.len() > 1 && walk[0] == node && walk.last() == node
}

/// Whether all edges lie between the first `nodes` nodes.
pub open spec fn edges_within(edges: Seq<(int, int)>, nodes: int) -> bool {
    forall|e: int|
        0 <= e < edges.len() ==> 0 <= (#[trigger] edges[e]).0 < nodes && 0 <= edges[e].1 < nodes
}

/// Whether some walk with at least one step comes back to where it started.
pub open spec fn has_cycle(edges: Seq<(int, int)>) -> bool {
    exists|walk: Seq<int>| #[trigger]
        is_walk(edges, walk) && walk.len() > 1 && walk[0] == walk.last()
}

/// Whether `node` stands in one of the lists.
pub open spec fn listed(lists: Seq<Seq<int>>, node: int) -> bool {
    exists|i: int, j: int|
        0 <= i < lists.len() && 0 <= j < lists[i].len() && #[trigger] lists[i][j] == node
}

/// Whether the lists are the strongly connected components of a graph: each
/// node stands in exactly one place, two nodes stand in one list if and only
/// if each reaches the other, and no edge leads to a later list.
pub open spec fn strong_components_of(
    lists: Seq<Seq<int>>,
    nodes: int,
    edges: Seq<(int, int)>,
) -> bool {
    &&& forall|node: int| 0 <= node < nodes <==> #[trigger] listed(lists, node)
    &&& forall|i: int| 0 <= i < lists.len() ==> (#[trigger] lists[i]).len() > 0
    &&& forall|i: int, j: int, k: int, l: int|
        0 <= i < lists.len() && 0 <= j < lists[i].len() && 0 <= k < lists.len() && 0 <= l
            < lists[k].len() && #[trigger] lists[i][j] == #[trigger] lists[k][l] ==> i == k && j
            == l
    &&& forall|i: int, j: int, k: int, l: int|
        0 <= i < lists.len() && 0 <= j < lists[i].len() && 0 <= k < lists.len() && 0 <= l
            < lists[k].len() ==> (i == k <==> reaches(
            edges,
            #[trigger] lists[i][j],
            #[trigger] lists[k][l],
        ) && reaches(edges, lists[k][l], lists[i][j]))
    &&& forall|i: int, j: int, k: int, l: int|
        0 <= i < lists.len() && 0 <= j < lists[i].len() && 0 <= k < lists.len() && 0 <= l
            < lists[k].len() && edges.contains((#[trigger] lists[i][j], #[trigger] lists[k][l]))
            ==> k <= i
}

/// Whether the nodes of a component lie on a cycle: there are several, or there
/// is one with an edge to itself.
pub open spec fn is_cyclic(edges: Seq<(int, int)>, component: Seq<int>) -> bool {
    component.len() > 1 || (component.len() == 1 && edges.contains(
        (component[0], component[0]),
    ))
}

/// The components that lie on a cycle, in order.
pub open spec fn cyclic(edges: Seq<(int, int)>, components: Seq<Seq<int>>) -> Seq<Seq<int>>
    decreases components.len(),
{
    if components.len() == 0 {
        Seq::empty()
    } else {
        let before = cyclic(edges, components.drop_last());
        if is_cyclic(edges, components.last()) {
            before.push(components.last())
        } else {
            before
        }
    }
}

/// Whether the groups are told apart as cycles are: no group is empty, no node
/// stands in two places, two nodes stand in one group if and only if each
/// reaches the other, and a node that stands alone has an edge to itself.
pub open spec fn are_cycles(edges: Seq<(int, int)>, groups: Seq<Seq<int>>) -> bool {
    &&& forall|i: int| 0 <= i < groups.len() ==> is_cyclic(edges, #[trigger] groups[i])
    &&& forall|i: int, j: int, k: int, l: int|
        0 <= i < groups.len() && 0 <= j < groups[i].len() && 0 <= k < groups.len() && 0 <= l
            < groups[k].len() && #[trigger] groups[i][j] == #[trigger] groups[k][l] ==> i == k && j
            == l
    &&& forall|i: int, j: int, k: int, l: int|
        0 <= i < groups.len() && 0 <= j < groups[i].len() && 0 <= k < groups.len() && 0 <= l
            < groups[k].len() ==> (i == k <==> reaches(
            edges,
            #[trigger] groups[i][j],
            #[trigger] groups[k][l],
        ) && reaches(edges, groups[k][l], groups[i][j]))
}

/// Where the `i`th component that [`cyclic`] lists stands among all.
spec fn place(edges: Seq<(int, int)>, components: Seq<Seq<int>>, i: int) -> int
    decreases components.len(),
{
    if components.len() == 0 {
        0
    } else if i < cyclic(edges, components.drop_last()).len() {
        place(edges, components.drop_last(), i)
    } else {
        components.len() - 1
    }
}

proof fn lemma_place(edges: Seq<(int, int)>, components: Seq<Seq<int>>, i: int)
    requires
        0 <= i < cyclic(edges, components).len(),
    ensures
        0 <= place(edges, components, i) < components.len(),
        components[place(edges, components, i)] == cyclic(edges, components)[i],
        is_cyclic(edges, cyclic(edges, components)[i]),
    decreases components.len(),
{
    let front = components.drop_last();
    if i < cyclic(edges, front).len() {
        lemma_place(edges, front, i);
        assert(cyclic(edges, components)[i] == cyclic(edges, front)[i]);
    }
}

/// Components that are listed in different places stand in different places.
proof fn lemma_places_differ(edges: Seq<(int, int)>, components: Seq<Seq<int>>, i: int, k: int)
    requires
        0 <= i < k < cyclic(edges, components).len(),
    ensures
        place(edges, components, i) < place(edges, components, k),
    decreases components.len(),
{
    let front = components.drop_last();
    if k < cyclic(edges, front).len() {
        lemma_places_differ(edges, front, i, k);
    } else {
        lemma_place(edges, front, i);
    }
}

/// The cyclic components are told apart: a file is reported in one group only
/// and once, and two reported files share a group if and only if each depends on
/// the other.
pub proof fn law_cycles_are_apart(lists: Seq<Seq<int>>, nodes: int, edges: Seq<(int, int)>)
    requires
        strong_components_of(lists, nodes, edges),
    ensures
        are_cycles(edges, cyclic(edges, lists)),
{
    let found = cyclic(edges, lists);
    assert forall|i: int| 0 <= i < found.len() implies is_cyclic(edges, #[trigger] found[i]) by {
        lemma_place(edges, lists, i);
    }
    assert forall|i: int, k: int|
        0 <= i < found.len() && 0 <= k < found.len() implies #[trigger] lists[place(
        edges,
        lists,
        i,
    )] == found[i] && #[trigger] lists[place(edges, lists, k)] == found[k] && (i == k <==> place(
        edges,
        lists,
        i,
    ) == place(edges, lists, k)) && 0 <= place(edges, lists, i) < lists.len() && 0 <= place(
        edges,
        lists,
        k,
    ) < lists.len() by {
        lemma_place(edges, lists, i);
        lemma_place(edges, lists, k);
        if i < k {
            lemma_places_differ(edges, lists, i, k);
        } else if k < i {
            lemma_places_differ(edges, lists, k, i);
        }
    }
    assert forall|i: int, j: int, k: int, l: int|
        0 <= i < found.len() && 0 <= j < found[i].len() && 0 <= k < found.len() && 0 <= l
            < found[k].len() && #[trigger] found[i][j] == #[trigger] found[k][l] implies i == k && j
        == l by {
        let a = place(edges, lists, i);
        let b = place(edges, lists, k);
        assert(lists[a] == found[i] && lists[b] == found[k]);
        assert(lists[a][j] == lists[b][l]);
    }
    assert forall|i: int, j: int, k: int, l: int|
        0 <= i < found.len() && 0 <= j < found[i].len() && 0 <= k < found.len() && 0 <= l
            < found[k].len() implies (i == k <==> reaches(
        edges,
        #[trigger] found[i][j],
        #[trigger] found[k][l],
    ) && reaches(edges, found[k][l], found[i][j])) by {
        let a = place(edges, lists, i);
        let b = place(edges, lists, k);
        assert(lists[a] == found[i] && lists[b] == found[k]);
        assert(a == b <==> reaches(edges, lists[a][j], lists[b][l]) && reaches(
            edges,
            lists[b][l],
            lists[a][j],
        ));
    }
}

/// Files that all depend on each other are reported once: where any two nodes
/// on cycles reach each other, there is one group.
pub proof fn law_one_circle_is_one_group(edges: Seq<(int, int)>, groups: Seq<Seq<int>>)
    requires
        are_cycles(edges, groups),
        groups.len() > 0,
        forall|a: int, b: int|
            #![trigger on_cycle(edges, a), on_cycle(edges, b)]
            on_cycle(edges, a) && on_cycle(edges, b) ==> reaches(edges, a, b),
        forall|node: int| #[trigger] listed(groups, node) ==> on_cycle(edges, node),
    ensures
        groups.len() == 1,
{
    if groups.len() > 1 {
        assert(is_cyclic(edges, groups[0]) && is_cyclic(edges, groups[1]));
        let a = groups[0][0];
        let b = groups[1][0];
        assert(listed(groups, a) && listed(groups, b));
        assert(reaches(edges, a, b) && reaches(edges, b, a));
        assert(false);
    }
}

/// A component is listed by [`cyclic`] if and only if it lies on a cycle.
proof fn lemma_cyclic(edges: Seq<(int, int)>, components: Seq<Seq<int>>)
    ensures
        forall|i: int|
            0 <= i < components.len() && is_cyclic(edges, #[trigger] components[i]) ==> cyclic(
                edges,
                components,
            ).contains(components[i]),
        forall|i: int|
            0 <= i < cyclic(edges, components).len() ==> components.contains(
                #[trigger] cyclic(edges, components)[i],
            ) && is_cyclic(edges, cyclic(edges, components)[i]),
    decreases components.len(),
{
    if components.len() > 0 {
        let front = components.drop_last();
        lemma_cyclic(edges, front);
        let before = cyclic(edges, front);
        let all = cyclic(edges, components);
        assert forall|i: int|
            0 <= i < components.len() && is_cyclic(edges, #[trigger] components[i]) implies all.contains(
            components[i],
        ) by {
            if i < front.len() {
                assert(front[i] == components[i]);
                assert(before.contains(front[i]));
                let j = choose|j: int| 0 <= j < before.len() && before[j] == front[i];
                assert(all[j] == components[i]);
            } else {
                assert(all[all.len() - 1] == components[i]);
            }
        }
        assert forall|i: int| 0 <= i < all.len() implies components.contains(#[trigger] all[i])
            && is_cyclic(edges, all[i]) by {
            if i < before.len() {
                assert(all[i] == before[i]);
                assert(front.contains(before[i]));
                let j = choose|j: int| 0 <= j < front.len() && front[j] == before[i];
                assert(components[j] == all[i]);
            } else {
                assert(components[components.len() - 1] == all[i]);
            }
        }
    }
}

/// A node that reaches another one and is reached from it lies on a cycle.
proof fn lemma_close(edges: Seq<(int, int)>, a: int, b: int)
    requires
        a != b,
        reaches(edges, a, b),
        reaches(edges, b, a),
    ensures
        on_cycle(edges, a),
{
    let there = choose|walk: Seq<int>| #[trigger]
        is_walk(edges, walk) && walk[0] == a && walk.last() == b;
    let back = choose|walk: Seq<int>| #[trigger]
        is_walk(edges, walk) && walk[0] == b && walk.last() == a;
    let round = there + back.subrange(1, back.len() as int);
    assert(there.len() > 1) by {
        if there.len() == 1 {
            assert(there[0] == there.last());
        }
    }
    assert(back.len() > 1) by {
        if back.len() == 1 {
            assert(back[0] == back.last());
        }
    }
    assert forall|i: int| 0 <= i < round.len() - 1 implies #[trigger] is_step(
        edges,
        round,
        i,
    ) by {
        if i < there.len() - 1 {
            assert(is_step(edges, there, i));
        } else {
            let k = i - (there.len() - 1);
            assert(round[i] == back[k]) by {
                if k > 0 {
                    assert(round[i] == back.subrange(1, back.len() as int)[k - 1]);
                }
            }
            assert(round[i + 1] == back.subrange(1, back.len() as int)[k]);
            assert(round[i + 1] == back[k + 1]);
            assert(is_step(edges, back, k));
        }
    }
    assert(is_walk(edges, round));
    assert(round.last() == back.last());
}

/// A walk with a step stays among the nodes of the graph.
proof fn lemma_walk_nodes(edges: Seq<(int, int)>, nodes: int, walk: Seq<int>, i: int)
    requires
        is_walk(edges, walk),
        walk.len() > 1,
        0 <= i < walk.len(),
        edges_within(edges, nodes),
    ensures
        0 <= walk[i] < nodes,
{
    if i < walk.len() - 1 {
        assert(is_step(edges, walk, i));
        let e = choose|e: int| 0 <= e < edges.len() && edges[e] == (walk[i], walk[i + 1]);
        assert(edges[e].0 == walk[i]);
    } else {
        assert(is_step(edges, walk, i - 1));
        let e = choose|e: int| 0 <= e < edges.len() && edges[e] == (walk[i - 1], walk[i]);
        assert(edges[e].1 == walk[i]);
    }
}

/// A part of a walk is a walk.
proof fn lemma_subwalk(edges: Seq<(int, int)>, walk: Seq<int>, from: int, to: int)
    requires
        is_walk(edges, walk),
        0 <= from <= to < walk.len(),
    ensures
        reaches(edges, walk[from], walk[to]),
{
    let part = walk.subrange(from, to + 1);
    assert forall|i: int| 0 <= i < part.len() - 1 implies #[trigger] is_step(
        edges,
        part,
        i,
    ) by {
        assert(is_step(edges, walk, from + i));
    }
    assert(is_walk(edges, part));
    assert(part[0] == walk[from]);
    assert(part.last() == walk[to]);
}

/// A node of a cyclic component lies on a cycle.
proof fn lemma_listed_on_cycle(
    lists: Seq<Seq<int>>,
    nodes: int,
    edges: Seq<(int, int)>,
    node: int,
)
    requires
        strong_components_of(lists, nodes, edges),
        listed(cyclic(edges, lists), node),
    ensures
        on_cycle(edges, node),
{
    lemma_cyclic(edges, lists);
    let found = cyclic(edges, lists);
    let (m, j) = choose|m: int, j: int|
        0 <= m < found.len() && 0 <= j < found[m].len() && #[trigger] found[m][j] == node;
    let i = choose|i: int| 0 <= i < lists.len() && lists[i] == found[m];
    if lists[i].len() > 1 {
        let other = if j == 0 {
            1int
        } else {
            0int
        };
        assert(reaches(edges, lists[i][j], lists[i][other]) && reaches(
            edges,
            lists[i][other],
            lists[i][j],
        ));
        assert(lists[i][j] != lists[i][other]);
        lemma_close(edges, node, lists[i][other]);
    } else {
        let walk = seq![node, node];
        assert(is_step(edges, walk, 0));
        assert(is_walk(edges, walk));
        assert(walk.last() == node);
    }
}

/// A node on a cycle stands in a cyclic component.
proof fn lemma_cycle_is_listed(
    lists: Seq<Seq<int>>,
    nodes: int,
    edges: Seq<(int, int)>,
    node: int,
)
    requires
        strong_components_of(lists, nodes, edges),
        edges_within(edges, nodes),
        on_cycle(edges, node),
    ensures
        listed(cyclic(edges, lists), node),
{
    lemma_cyclic(edges, lists);
    let walk = choose|walk: Seq<int>| #[trigger]
        is_walk(edges, walk) && walk.len() > 1 && walk[0] == node && walk.last() == node;
    lemma_walk_nodes(edges, nodes, walk, 0);
    lemma_walk_nodes(edges, nodes, walk, 1);
    let next = walk[1];
    assert(is_step(edges, walk, 0));
    lemma_subwalk(edges, walk, 0, 1);
    lemma_subwalk(edges, walk, 1, walk.len() - 1);
    assert(listed(lists, node));
    assert(listed(lists, next));
    let (i, j) = choose|i: int, j: int|
        0 <= i < lists.len() && 0 <= j < lists[i].len() && #[trigger] lists[i][j] == node;
    let (k, l) = choose|k: int, l: int|
        0 <= k < lists.len() && 0 <= l < lists[k].len() && #[trigger] lists[k][l] == next;
    assert(reaches(edges, lists[i][j], lists[k][l]) && reaches(edges, lists[k][l], lists[i][j]));
    assert(i == k);
    if lists[i].len() == 1 {
        assert(j == 0 && l == 0);
        assert(node == next);
    }
    assert(is_cyclic(edges, lists[i]));
    let found = cyclic(edges, lists);
    assert(found.contains(lists[i]));
    let m = choose|m: int| 0 <= m < found.len() && found[m] == lists[i];
    assert(found[m][j] == node);
}

/// The cyclic components hold exactly the nodes that lie on a cycle: a file is
/// reported if and only if it depends on itself, directly or not, and nothing
/// is reported if and only if the graph has no cycle.
pub proof fn law_cycles_are_found(lists: Seq<Seq<int>>, nodes: int, edges: Seq<(int, int)>)
    requires
        strong_components_of(lists, nodes, edges),
        edges_within(edges, nodes),
    ensures
        forall|node: int| #[trigger] listed(cyclic(edges, lists), node) <==> on_cycle(edges, node),
        cyclic(edges, lists).len() > 0 <==> has_cycle(edges),
{
    let found = cyclic(edges, lists);
    assert forall|node: int| #[trigger] listed(found, node) <==> on_cycle(edges, node) by {
        if listed(found, node) {
            lemma_listed_on_cycle(lists, nodes, edges, node);
        }
        if on_cycle(edges, node) {
            lemma_cycle_is_listed(lists, nodes, edges, node);
        }
    }
    lemma_cyclic(edges, lists);
    if found.len() > 0 {
        assert(found[0].len() > 0);
        assert(found[0][0] == found[0][0]);
        assert(listed(found, found[0][0]));
    }
    if has_cycle(edges) {
        let walk = choose|walk: Seq<int>| #[trigger]
            is_walk(edges, walk) && walk.len() > 1 && walk[0] == walk.last();
        assert(on_cycle(edges, walk[0]));
        assert(listed(found, walk[0]));
    }
}

} // verus!
