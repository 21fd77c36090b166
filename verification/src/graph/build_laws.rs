//! What a graph holds after it is built, whatever the files.
use vstd::prelude::*;

use super::cycles::{is_step, is_walk, listed, on_cycle, reaches};
use super::resolve::{candidates, resolved};
use super::store::{sources, targets};
use super::{
    built, cycle_paths, cycle_positions, cycles_hold, file_edges, file_paths, import_count,
    import_edge, import_edges, node_of, probed, probed_of_file, GraphView,
};
use crate::disk::DiskView;
use crate::paths::components;
use crate::scanner::ScannedView;

verus! {

/// Whether the path at position `i` is the last in the list with the given
/// components.
pub open spec fn is_last_spelling(nodes: Seq<Seq<char>>, path: Seq<char>, i: int) -> bool {
    &&& 0 <= i < nodes.len()
    &&& components(nodes[i]) == components(path)
    &&& forall|k: int| i < k < nodes.len() ==> components(#[trigger] nodes[k]) != components(path)
}

/// A file is found by its components, wherever it stands in the list, and the
/// last one of several is found; a file that is not in the list is not found.
pub proof fn law_files_are_found_by_components(nodes: Seq<Seq<char>>, path: Seq<char>, i: int)
    ensures
        is_last_spelling(nodes, path, i) <==> node_of(nodes, path) == Some(i),
        node_of(nodes, path) is None <==> forall|k: int|
            0 <= k < nodes.len() ==> components(#[trigger] nodes[k]) != components(path),
    decreases nodes.len(),
{
    if nodes.len() > 0 {
        let front = nodes.drop_last();
        law_files_are_found_by_components(front, path, i);
        assert(forall|k: int| 0 <= k < front.len() ==> #[trigger] front[k] == nodes[k]);
        assert(nodes.last() == nodes[nodes.len() - 1]);
        if components(nodes.last()) != components(path) {
            if is_last_spelling(nodes, path, i) {
                assert(is_last_spelling(front, path, i));
            }
            if is_last_spelling(front, path, i) {
                assert forall|k: int| i < k < nodes.len() implies components(#[trigger] nodes[k])
                    != components(path) by {
                    if k < front.len() {
                        assert(front[k] == nodes[k]);
                    }
                }
                assert(is_last_spelling(nodes, path, i));
            }
            if forall|k: int|
                0 <= k < front.len() ==> components(#[trigger] front[k]) != components(path) {
                assert forall|k: int| 0 <= k < nodes.len() implies components(#[trigger] nodes[k])
                    != components(path) by {
                    if k < front.len() {
                        assert(front[k] == nodes[k]);
                    }
                }
            }
            if forall|k: int|
                0 <= k < nodes.len() ==> components(#[trigger] nodes[k]) != components(path) {
                assert forall|k: int| 0 <= k < front.len() implies components(#[trigger] front[k])
                    != components(path) by {
                    assert(front[k] == nodes[k]);
                }
            }
        }
    }
}

proof fn lemma_import_edge_is_there(
    nodes: Seq<Seq<char>>,
    root: Seq<char>,
    file: ScannedView,
    disk: DiskView,
    n: int,
    j: int,
    edge: (int, int),
)
    requires
        0 <= j < n <= file.imports.len(),
        import_edge(nodes, root, file, file.imports[j], disk) == seq![edge],
    ensures
        import_edges(nodes, root, file, disk, n).contains(edge),
    decreases n,
{
    let before = import_edges(nodes, root, file, disk, n - 1);
    let all = import_edges(nodes, root, file, disk, n);
    if j == n - 1 {
        assert(all[before.len() as int] == edge);
    } else {
        lemma_import_edge_is_there(nodes, root, file, disk, n - 1, j, edge);
        let k = choose|k: int| 0 <= k < before.len() && before[k] == edge;
        assert(all[k] == edge);
    }
}

proof fn lemma_file_edge_is_there(
    nodes: Seq<Seq<char>>,
    root: Seq<char>,
    files: Seq<ScannedView>,
    disk: DiskView,
    n: int,
    i: int,
    edge: (int, int),
)
    requires
        0 <= i < n <= files.len(),
        import_edges(nodes, root, files[i], disk, files[i].imports.len() as int).contains(edge),
    ensures
        file_edges(nodes, root, files, disk, n).contains(edge),
    decreases n,
{
    let before = file_edges(nodes, root, files, disk, n - 1);
    let all = file_edges(nodes, root, files, disk, n);
    if i == n - 1 {
        let last = import_edges(nodes, root, files[i], disk, files[i].imports.len() as int);
        let k = choose|k: int| 0 <= k < last.len() && last[k] == edge;
        assert(all[before.len() + k] == edge);
    } else {
        lemma_file_edge_is_there(nodes, root, files, disk, n - 1, i, edge);
        let k = choose|k: int| 0 <= k < before.len() && before[k] == edge;
        assert(all[k] == edge);
    }
}

/// No dependency gets lost: each import, of each file, that resolves to a file
/// of the graph is an edge between the two.
pub proof fn law_every_resolved_import_is_an_edge(
    g: GraphView,
    files: Seq<ScannedView>,
    disk: DiskView,
    i: int,
    j: int,
    target: Seq<char>,
    from: int,
    to: int,
)
    requires
        0 <= i < files.len(),
        0 <= j < files[i].imports.len(),
        resolved(g.root, files[i].path, files[i].imports[j], files[i].language, disk) == Some(
            target,
        ),
        is_last_spelling(built(g, files, disk).nodes, files[i].path, from),
        is_last_spelling(built(g, files, disk).nodes, target, to),
    ensures
        built(g, files, disk).edges.contains((from, to)),
{
    let nodes = g.nodes + file_paths(files);
    let edge = (from, to);
    law_files_are_found_by_components(nodes, files[i].path, from);
    law_files_are_found_by_components(nodes, target, to);
    lemma_import_edge_is_there(
        nodes,
        g.root,
        files[i],
        disk,
        files[i].imports.len() as int,
        j,
        edge,
    );
    lemma_file_edge_is_there(nodes, g.root, files, disk, files.len() as int, i, edge);
    let added = file_edges(nodes, g.root, files, disk, files.len() as int);
    let k = choose|k: int| 0 <= k < added.len() && added[k] == edge;
    assert(built(g, files, disk).edges[g.edges.len() + k] == edge);
}

/// Whether an edge stands for the import `j` of the file `i`.
pub open spec fn is_import_of(
    g: GraphView,
    files: Seq<ScannedView>,
    disk: DiskView,
    edge: (int, int),
    i: int,
    j: int,
) -> bool {
    &&& 0 <= i < files.len()
    &&& 0 <= j < files[i].imports.len()
    &&& is_last_spelling(built(g, files, disk).nodes, files[i].path, edge.0)
    &&& resolved(
        g.root,
        files[i].path,
        files[i].imports[j],
        files[i].language,
        disk,
    ) matches Some(target) && is_last_spelling(built(g, files, disk).nodes, target, edge.1)
}

proof fn lemma_import_of_edge(
    nodes: Seq<Seq<char>>,
    root: Seq<char>,
    file: ScannedView,
    disk: DiskView,
    n: int,
    edge: (int, int),
) -> (j: int)
    requires
        0 <= n <= file.imports.len(),
        import_edges(nodes, root, file, disk, n).contains(edge),
    ensures
        0 <= j < n,
        import_edge(nodes, root, file, file.imports[j], disk) == seq![edge],
    decreases n,
{
    let before = import_edges(nodes, root, file, disk, n - 1);
    let all = import_edges(nodes, root, file, disk, n);
    let k = choose|k: int| 0 <= k < all.len() && all[k] == edge;
    if k < before.len() {
        assert(before[k] == edge);
        lemma_import_of_edge(nodes, root, file, disk, n - 1, edge)
    } else {
        let last = import_edge(nodes, root, file, file.imports[n - 1], disk);
        assert(last[k - before.len()] == edge);
        assert(last =~= seq![edge]);
        n - 1
    }
}

proof fn lemma_file_of_edge(
    nodes: Seq<Seq<char>>,
    root: Seq<char>,
    files: Seq<ScannedView>,
    disk: DiskView,
    n: int,
    edge: (int, int),
) -> (i: int)
    requires
        0 <= n <= files.len(),
        file_edges(nodes, root, files, disk, n).contains(edge),
    ensures
        0 <= i < n,
        import_edges(nodes, root, files[i], disk, files[i].imports.len() as int).contains(edge),
    decreases n,
{
    let before = file_edges(nodes, root, files, disk, n - 1);
    let all = file_edges(nodes, root, files, disk, n);
    let k = choose|k: int| 0 <= k < all.len() && all[k] == edge;
    if k < before.len() {
        assert(before[k] == edge);
        lemma_file_of_edge(nodes, root, files, disk, n - 1, edge)
    } else {
        let last = import_edges(
            nodes,
            root,
            files[n - 1],
            disk,
            files[n - 1].imports.len() as int,
        );
        assert(last[k - before.len()] == edge);
        n - 1
    }
}

/// No dependency is made up: each edge that building adds stands for an import of
/// one of the files.
pub proof fn law_every_edge_is_an_import(
    g: GraphView,
    files: Seq<ScannedView>,
    disk: DiskView,
    e: int,
)
    requires
        g.edges.len() <= e < built(g, files, disk).edges.len(),
    ensures
        exists|i: int, j: int|
            is_import_of(g, files, disk, built(g, files, disk).edges[e], i, j),
{
    let nodes = g.nodes + file_paths(files);
    let added = file_edges(nodes, g.root, files, disk, files.len() as int);
    let edge = built(g, files, disk).edges[e];
    assert(added[e - g.edges.len()] == edge);
    assert(added.contains(edge));
    let i = lemma_file_of_edge(nodes, g.root, files, disk, files.len() as int, edge);
    let j = lemma_import_of_edge(
        nodes,
        g.root,
        files[i],
        disk,
        files[i].imports.len() as int,
        edge,
    );
    let one = import_edge(nodes, g.root, files[i], files[i].imports[j], disk);
    assert(one[0] == edge);
    law_files_are_found_by_components(nodes, files[i].path, edge.0);
    let target = resolved(g.root, files[i].path, files[i].imports[j], files[i].language, disk)->0;
    law_files_are_found_by_components(nodes, target, edge.1);
    assert(is_import_of(g, files, disk, edge, i, j));
}

/// Building keeps what the graph had and adds each file in its place.
pub proof fn law_building_adds_each_file(
    g: GraphView,
    files: Seq<ScannedView>,
    disk: DiskView,
    i: int,
)
    ensures
        built(g, files, disk).nodes.len() == g.nodes.len() + files.len(),
        built(g, files, disk).root == g.root,
        0 <= i < g.nodes.len() ==> built(g, files, disk).nodes[i] == g.nodes[i],
        0 <= i < files.len() ==> built(g, files, disk).nodes[g.nodes.len() + i] == files[i].path,
        0 <= i < g.edges.len() ==> built(g, files, disk).edges[i] == g.edges[i],
        built(g, files, disk).edges.len() >= g.edges.len(),
{
}

/// A file depends on another exactly where there is an edge from the one to the
/// other.
pub proof fn law_dependencies_are_the_edges(edges: Seq<(int, int)>, from: int, to: int)
    ensures
        targets(edges, from).contains(to) <==> edges.contains((from, to)),
        sources(edges, to).contains(from) <==> edges.contains((from, to)),
    decreases edges.len(),
{
    if edges.len() > 0 {
        let front = edges.drop_last();
        let last = edges.last();
        law_dependencies_are_the_edges(front, from, to);
        if edges.contains((from, to)) {
            let k = choose|k: int| 0 <= k < edges.len() && edges[k] == (from, to);
            if k < front.len() {
                assert(front[k] == (from, to));
            }
        }
        if front.contains((from, to)) {
            let k = choose|k: int| 0 <= k < front.len() && front[k] == (from, to);
            assert(edges[k] == (from, to));
        }
        if last == (from, to) {
            assert(edges[edges.len() - 1] == (from, to));
        }
        let down = targets(front, from);
        let up = sources(front, to);
        lemma_prepended(down, last.1, to);
        lemma_prepended(up, last.0, from);
    }
}

proof fn lemma_prepended(s: Seq<int>, first: int, x: int)
    ensures
        (seq![first] + s).contains(x) <==> first == x || s.contains(x),
{
    let all = seq![first] + s;
    if s.contains(x) {
        let k = choose|k: int| 0 <= k < s.len() && s[k] == x;
        assert(all[k + 1] == x);
    }
    if first == x {
        assert(all[0] == x);
    }
    if all.contains(x) {
        let k = choose|k: int| 0 <= k < all.len() && all[k] == x;
        if k > 0 {
            assert(s[k - 1] == x);
        }
    }
}

/// Every file that an import may name is asked for: each candidate of each
/// import of each file.
pub proof fn law_every_candidate_is_probed(
    root: Seq<char>,
    files: Seq<ScannedView>,
    i: int,
    j: int,
    k: int,
)
    requires
        0 <= i < files.len(),
        0 <= j < files[i].imports.len(),
        0 <= k < candidates(root, files[i].path, files[i].imports[j], files[i].language).len(),
    ensures
        probed(root, files, files.len() as int).contains(
            candidates(root, files[i].path, files[i].imports[j], files[i].language)[k].0,
        ),
{
    lemma_probed_of_file(root, files[i], files[i].imports.len() as int, j, k);
    lemma_probed(
        root,
        files,
        files.len() as int,
        i,
        candidates(root, files[i].path, files[i].imports[j], files[i].language)[k].0,
    );
}

proof fn lemma_probed_of_file(root: Seq<char>, file: ScannedView, n: int, j: int, k: int)
    requires
        0 <= j < n <= file.imports.len(),
        0 <= k < candidates(root, file.path, file.imports[j], file.language).len(),
    ensures
        probed_of_file(root, file, n).contains(
            candidates(root, file.path, file.imports[j], file.language)[k].0,
        ),
    decreases n,
{
    let before = probed_of_file(root, file, n - 1);
    let all = probed_of_file(root, file, n);
    let wanted = candidates(root, file.path, file.imports[j], file.language)[k].0;
    if j == n - 1 {
        assert(all[before.len() + k] == wanted);
    } else {
        lemma_probed_of_file(root, file, n - 1, j, k);
        let m = choose|m: int| 0 <= m < before.len() && before[m] == wanted;
        assert(all[m] == wanted);
    }
}

proof fn lemma_probed(
    root: Seq<char>,
    files: Seq<ScannedView>,
    n: int,
    i: int,
    wanted: Seq<char>,
)
    requires
        0 <= i < n <= files.len(),
        probed_of_file(root, files[i], files[i].imports.len() as int).contains(wanted),
    ensures
        probed(root, files, n).contains(wanted),
    decreases n,
{
    let before = probed(root, files, n - 1);
    let all = probed(root, files, n);
    if i == n - 1 {
        let last = probed_of_file(root, files[i], files[i].imports.len() as int);
        let m = choose|m: int| 0 <= m < last.len() && last[m] == wanted;
        assert(all[before.len() + m] == wanted);
    } else {
        lemma_probed(root, files, n - 1, i, wanted);
        let m = choose|m: int| 0 <= m < before.len() && before[m] == wanted;
        assert(all[m] == wanted);
    }
}

/// Each file adds the number of its imports to the count.
pub proof fn law_imports_are_counted(files: Seq<ScannedView>, file: ScannedView)
    ensures
        import_count(files.push(file), (files.len() + 1) as int) == import_count(files, files.len() as int)
            + file.imports.len(),
        import_count(files, 0) == 0,
{
    lemma_count_front(files, files.push(file), files.len() as int);
}

proof fn lemma_count_front(files: Seq<ScannedView>, more: Seq<ScannedView>, n: int)
    requires
        0 <= n <= files.len(),
        files.is_prefix_of(more),
    ensures
        import_count(files, n) == import_count(more, n),
    decreases n,
{
    if n > 0 {
        lemma_count_front(files, more, n - 1);
        assert(files[n - 1] == more[n - 1]);
    }
}

/// A file reaches itself and each file that it depends on, and whatever these
/// reach, over any number of steps.
pub proof fn law_reaching_goes_any_number_of_steps(
    edges: Seq<(int, int)>,
    a: int,
    b: int,
    c: int,
)
    ensures
        reaches(edges, a, a),
        edges.contains((a, b)) ==> reaches(edges, a, b),
        reaches(edges, a, b) && reaches(edges, b, c) ==> reaches(edges, a, c),
        edges.contains((a, b)) && reaches(edges, b, a) ==> on_cycle(edges, a),
        on_cycle(edges, a) ==> exists|s: int|
            #[trigger] edges.contains((a, s)) && reaches(edges, s, a),
{
    let stay = seq![a];
    assert(is_walk(edges, stay) && stay[0] == a && stay.last() == a);
    if edges.contains((a, b)) {
        let step = seq![a, b];
        assert(is_step(edges, step, 0));
        assert(is_walk(edges, step) && step[0] == a && step.last() == b);
        if reaches(edges, b, a) {
            let back = choose|walk: Seq<int>| #[trigger]
                is_walk(edges, walk) && walk[0] == b && walk.last() == a;
            lemma_walks_join(edges, step, back);
            let round = step + back.subrange(1, back.len() as int);
            assert(is_walk(edges, round) && round.len() > 1 && round[0] == a && round.last() == a);
        }
    }
    if reaches(edges, a, b) && reaches(edges, b, c) {
        let v = choose|walk: Seq<int>| #[trigger]
            is_walk(edges, walk) && walk[0] == a && walk.last() == b;
        let w = choose|walk: Seq<int>| #[trigger]
            is_walk(edges, walk) && walk[0] == b && walk.last() == c;
        lemma_walks_join(edges, v, w);
        let all = v + w.subrange(1, w.len() as int);
        assert(is_walk(edges, all) && all[0] == a && all.last() == c);
    }
    if on_cycle(edges, a) {
        let round = choose|walk: Seq<int>| #[trigger]
            is_walk(edges, walk) && walk.len() > 1 && walk[0] == a && walk.last() == a;
        assert(is_step(edges, round, 0));
        let s = round[1];
        let rest = round.subrange(1, round.len() as int);
        assert forall|i: int| 0 <= i < rest.len() - 1 implies #[trigger] is_step(
            edges,
            rest,
            i,
        ) by {
            assert(is_step(edges, round, i + 1));
        }
        assert(is_walk(edges, rest) && rest[0] == s && rest.last() == a);
        assert(edges.contains((a, s)) && reaches(edges, s, a));
    }
}

proof fn lemma_walks_join(edges: Seq<(int, int)>, v: Seq<int>, w: Seq<int>)
    requires
        is_walk(edges, v),
        is_walk(edges, w),
        v.last() == w[0],
    ensures
        is_walk(edges, v + w.subrange(1, w.len() as int)),
        (v + w.subrange(1, w.len() as int)).last() == w.last(),
{
    let all = v + w.subrange(1, w.len() as int);
    assert forall|i: int| 0 <= i < all.len() - 1 implies #[trigger] is_step(edges, all, i) by {
        if i < v.len() - 1 {
            assert(is_step(edges, v, i));
        } else {
            let k = i - (v.len() - 1);
            assert(is_step(edges, w, k));
            assert(all[i] == w[k]);
            assert(all[i + 1] == w[k + 1]);
        }
    }
}

/// Where the circles of a graph hold, each file on a circle is in one of the
/// groups, and each file of a group is on a circle.
pub proof fn law_files_on_circles_are_grouped(g: GraphView, node: int, i: int, j: int)
    requires
        cycles_hold(g),
    ensures
        on_cycle(g.edges, node) ==> exists|k: int|
            0 <= k < cycle_paths(g).len() && (#[trigger] cycle_paths(g)[k]).contains(
                g.nodes[node],
            ),
        0 <= i < cycle_paths(g).len() && 0 <= j < cycle_paths(g)[i].len() ==> exists|n: int|
            #[trigger] on_cycle(g.edges, n) && g.nodes[n] == cycle_paths(g)[i][j],
{
    let all = cycle_positions(g);
    if on_cycle(g.edges, node) {
        assert(listed(all, node));
        let (k, m) = choose|k: int, m: int|
            0 <= k < all.len() && 0 <= m < all[k].len() && #[trigger] all[k][m] == node;
        assert(cycle_paths(g)[k][m] == g.nodes[node]);
        assert(cycle_paths(g)[k].contains(g.nodes[node]));
    }
    if 0 <= i < cycle_paths(g).len() && 0 <= j < cycle_paths(g)[i].len() {
        let n = all[i][j];
        assert(listed(all, n));
        assert(on_cycle(g.edges, n));
        assert(g.nodes[n] == cycle_paths(g)[i][j]);
    }
}

} // verus!
