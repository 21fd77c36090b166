//! The dependency graph of a project.
pub mod build_laws;
pub mod cycles;
pub mod resolve;
pub mod resolve_laws;
pub mod rust_laws;
pub mod script_laws;
pub mod script_steps;
pub mod store;

use petgraph::graph::Graph;
use petgraph::Directed;
use vstd::hash_map::StringHashMap;
use vstd::prelude::*;

use crate::disk::{DiskSnapshot, DiskView};
use crate::paths::{canonical, canonical_text, lemma_canonical, same_path};
use crate::scanner::{files_view, Language, ScannedFile, ScannedView};
use crate::text::views;
use cycles::{
    are_cycles, cyclic, edges_within, has_cycle, is_cyclic, law_cycles_are_apart,
    law_cycles_are_found, listed, on_cycle, strong_components_of,
};
use resolve::{
    candidates, candidates_view, first_present_of, import_candidates, is_present,
    law_resolution_looks_at_candidates_only, resolved, Candidate,
};
use store::{
    add_edge, add_node, contains_edge, edge_count, edge_list, graph_edges, graph_nodes,
    in_neighbors, listed_components, new_graph, node_count, node_text, out_neighbors,
    position_lists, position_pairs, positions, sources, targets, tarjan,
};

verus! {

/// Directed dependency graph of project files.
///
/// An edge `A -> B` means "A imports / depends on B".
pub struct DependencyGraph {
    graph: Graph<String, (), Directed, u32>,
    /// The position of the last node with a path, by the canonical text of the
    /// path.
    index_map: StringHashMap<usize>,
    /// Project root used for resolving relative/absolute imports.
    root: String,
}

/// What a [`DependencyGraph`] holds.
#[verifier::ext_equal]
pub struct GraphView {
    /// The paths of the files, in the order in which they were added.
    pub nodes: Seq<Seq<char>>,
    /// The edges as positions of files, in the order in which they were added.
    pub edges: Seq<(int, int)>,
    /// The project root.
    pub root: Seq<char>,
}

/// The position of the last file with the path.
pub open spec fn node_of(nodes: Seq<Seq<char>>, path: Seq<char>) -> Option<int>
    decreases nodes.len(),
{
    if nodes.len() == 0 {
        None
    } else if same_path(nodes.last(), path) {
        Some(nodes.len() - 1)
    } else {
        node_of(nodes.drop_last(), path)
    }
}

/// The edge that an import of a file adds: none where the import names no file
/// of the graph.
pub open spec fn import_edge(
    nodes: Seq<Seq<char>>,
    root: Seq<char>,
    file: ScannedView,
    import: Seq<char>,
    disk: DiskView,
) -> Seq<(int, int)> {
    match (node_of(nodes, file.path), resolved(root, file.path, import, file.language, disk)) {
        (Some(from), Some(target)) => match node_of(nodes, target) {
            Some(to) => seq![(from, to)],
            None => Seq::empty(),
        },
        _ => Seq::empty(),
    }
}

/// The edges that the first `n` imports of a file add.
pub open spec fn import_edges(
    nodes: Seq<Seq<char>>,
    root: Seq<char>,
    file: ScannedView,
    disk: DiskView,
    n: int,
) -> Seq<(int, int)>
    decreases n,
{
    if n <= 0 {
        Seq::empty()
    } else {
        import_edges(nodes, root, file, disk, n - 1) + import_edge(
            nodes,
            root,
            file,
            file.imports[n - 1],
            disk,
        )
    }
}

/// The edges that the imports of the first `n` files add.
pub open spec fn file_edges(
    nodes: Seq<Seq<char>>,
    root: Seq<char>,
    files: Seq<ScannedView>,
    disk: DiskView,
    n: int,
) -> Seq<(int, int)>
    decreases n,
{
    if n <= 0 {
        Seq::empty()
    } else {
        file_edges(nodes, root, files, disk, n - 1) + import_edges(
            nodes,
            root,
            files[n - 1],
            disk,
            files[n - 1].imports.len() as int,
        )
    }
}

/// How many imports the first `n` files have.
pub open spec fn import_count(files: Seq<ScannedView>, n: int) -> int
    decreases n,
{
    if n <= 0 {
        0
    } else {
        import_count(files, n - 1) + files[n - 1].imports.len()
    }
}

/// The paths of the files.
pub open spec fn file_paths(files: Seq<ScannedView>) -> Seq<Seq<char>> {
    Seq::new(files.len(), |i: int| files[i].path)
}

/// A graph after files were added to it.
pub open spec fn built(g: GraphView, files: Seq<ScannedView>, disk: DiskView) -> GraphView {
    let nodes = g.nodes + file_paths(files);
    GraphView {
        nodes,
        edges: g.edges + file_edges(nodes, g.root, files, disk, files.len() as int),
        root: g.root,
    }
}

/// The paths at the positions.
pub open spec fn paths_at(nodes: Seq<Seq<char>>, at: Seq<int>) -> Seq<Seq<char>> {
    Seq::new(at.len(), |i: int| nodes[at[i]])
}

/// The views of a sequence of borrowed texts.
pub open spec fn borrowed_views(v: Seq<&String>) -> Seq<Seq<char>> {
    Seq::new(v.len(), |i: int| v[i]@)
}

/// The groups of files that depend on each other in a circle.
pub open spec fn cycle_positions(g: GraphView) -> Seq<Seq<int>> {
    cyclic(g.edges, listed_components(g.nodes.len() as int, g.edges))
}

/// The paths of the files of each group.
pub open spec fn cycle_paths(g: GraphView) -> Seq<Seq<Seq<char>>> {
    Seq::new(cycle_positions(g).len(), |i: int| paths_at(g.nodes, cycle_positions(g)[i]))
}

/// What holds of the groups of files that depend on each other in a circle: the
/// listed components are the strongly connected ones, the groups hold exactly
/// the files that depend on themselves, and they are told apart as cycles are.
pub open spec fn cycles_hold(g: GraphView) -> bool {
    &&& strong_components_of(
        listed_components(g.nodes.len() as int, g.edges),
        g.nodes.len() as int,
        g.edges,
    )
    &&& forall|node: int| #[trigger]
        listed(cycle_positions(g), node) <==> on_cycle(g.edges, node)
    &&& are_cycles(g.edges, cycle_positions(g))
    &&& cycle_paths(g).len() > 0 <==> has_cycle(g.edges)
}

/// The edges as pairs of paths.
pub open spec fn edge_paths(g: GraphView) -> Seq<(Seq<char>, Seq<char>)> {
    Seq::new(g.edges.len(), |i: int| (g.nodes[g.edges[i].0], g.nodes[g.edges[i].1]))
}

proof fn lemma_node_of(nodes: Seq<Seq<char>>, path: Seq<char>)
    ensures
        node_of(nodes, path) matches Some(i) ==> 0 <= i < nodes.len() && same_path(nodes[i], path),
    decreases nodes.len(),
{
    if nodes.len() > 0 && !same_path(nodes.last(), path) {
        lemma_node_of(nodes.drop_last(), path);
    }
}

impl View for DependencyGraph {
    type V = GraphView;

    closed spec fn view(&self) -> GraphView {
        GraphView {
            nodes: graph_nodes(self.graph),
            edges: graph_edges(self.graph),
            root: self.root@,
        }
    }
}

impl DependencyGraph {
    /// Whether the edges lie between the nodes, and the index knows the last
    /// node with each path.
    pub closed spec fn wf(&self) -> bool {
        &&& edges_within(self@.edges, self@.nodes.len() as int)
        &&& forall|path: Seq<char>|
            {
                &&& (#[trigger] node_of(self@.nodes, path)) is Some
                    <==> self.index_map@.contains_key(canonical(path))
                &&& node_of(self@.nodes, path) matches Some(i) ==> self.index_map@[canonical(path)]
                    == i
            }
    }

    /// An empty graph.
    pub fn new(root: &str) -> (g: DependencyGraph)
        ensures
            g.wf(),
            g@.nodes.len() == 0,
            g@.edges.len() == 0,
            g@.root == root@,
    {
        DependencyGraph {
            graph: new_graph(),
            index_map: StringHashMap::new(),
            root: root.to_owned(),
        }
    }

    fn lookup(&self, path: &str) -> (r: Option<usize>)
        requires
            self.wf(),
        ensures
            node_of(self@.nodes, path@) == (match r {
                Some(i) => Some(i as int),
                None => None::<int>,
            }),
            r matches Some(i) ==> i < self@.nodes.len(),
    {
        proof {
            lemma_node_of(self@.nodes, path@);
        }
        match self.index_map.get(&canonical_text(path)) {
            Some(i) => Some(*i),
            None => None,
        }
    }

    fn push_node(&mut self, path: &str)
        requires
            old(self).wf(),
            old(self)@.nodes.len() < u32::MAX,
        ensures
            final(self).wf(),
            final(self)@ == (GraphView { nodes: old(self)@.nodes.push(path@), ..old(self)@ }),
    {
        let ghost before = self@.nodes;
        let ghost index = self.index_map@;
        let i = add_node(&mut self.graph, path.to_owned());
        self.index_map.insert(canonical_text(path), i);
        proof {
            let after = self@.nodes;
            assert(after.drop_last() =~= before);
            assert forall|p: Seq<char>|
                {
                    &&& (#[trigger] node_of(after, p)) is Some <==> self.index_map@.contains_key(
                        canonical(p),
                    )
                    &&& node_of(after, p) matches Some(i) ==> self.index_map@[canonical(p)] == i
                } by {
                lemma_canonical(path@, p);
                assert(node_of(before, p) is Some <==> index.contains_key(canonical(p)));
            }
        }
    }

    /// Build the graph from scanned files: a node for each file, and an edge
    /// for each import that names one of the files. `disk` answers which of the
    /// paths that imports may name exist.
    pub fn build(&mut self, files: &[ScannedFile], disk: &DiskSnapshot)
        requires
            old(self).wf(),
            old(self)@.nodes.len() + files@.len() <= u32::MAX,
            old(self)@.edges.len() + import_count(files_view(files@), files@.len() as int)
                <= u32::MAX,
        ensures
            final(self).wf(),
            final(self)@ == built(old(self)@, files_view(files@), disk@),
    {
        let ghost start = self@;
        let ghost all = files_view(files@);
        let ghost paths = file_paths(all);
        let mut i: usize = 0;
        assert(start.nodes + paths.subrange(0, 0) =~= start.nodes);
        while i < files.len()
            invariant
                i <= files@.len(),
                all == files_view(files@),
                paths == file_paths(all),
                start.nodes.len() + files@.len() <= u32::MAX,
                self.wf(),
                self@ == (GraphView { nodes: start.nodes + paths.subrange(0, i as int), ..start }),
            decreases files.len() - i,
        {
            let ghost before = self@;
            self.push_node(&files[i].path);
            assert(self@.nodes =~= start.nodes + paths.subrange(0, i + 1));
            i += 1;
        }
        assert(paths.subrange(0, paths.len() as int) =~= paths);
        let ghost nodes = start.nodes + paths;
        i = 0;
        assert(start.edges + file_edges(nodes, start.root, all, disk@, 0) =~= start.edges);
        while i < files.len()
            invariant
                i <= files@.len(),
                all == files_view(files@),
                start.edges.len() + import_count(all, files@.len() as int) <= u32::MAX,
                self.wf(),
                self@.nodes == nodes,
                self@.root == start.root,
                self@.edges == start.edges + file_edges(nodes, start.root, all, disk@, i as int),
                self@.edges.len() <= start.edges.len() + import_count(all, i as int),
            decreases files.len() - i,
        {
            assert(all[i as int] == files@[i as int]@);
            proof {
                lemma_import_count(all, i + 1, files@.len() as int);
            }
            let ghost before = self@.edges;
            self.add_imports(&files[i], disk);
            assert(self@.edges =~= start.edges + file_edges(
                nodes,
                start.root,
                all,
                disk@,
                i + 1,
            ));
            i += 1;
        }
    }

    fn add_imports(&mut self, file: &ScannedFile, disk: &DiskSnapshot)
        requires
            old(self).wf(),
            old(self)@.edges.len() + file@.imports.len() <= u32::MAX,
        ensures
            final(self).wf(),
            final(self)@ == (GraphView {
                edges: old(self)@.edges + import_edges(
                    old(self)@.nodes,
                    old(self)@.root,
                    file@,
                    disk@,
                    file@.imports.len() as int,
                ),
                ..old(self)@
            }),
            final(self)@.edges.len() <= old(self)@.edges.len() + file@.imports.len(),
    {
        let ghost start = self@;
        let mut i: usize = 0;
        while i < file.imports.len()
            invariant
                i <= file.imports@.len(),
                start.edges.len() + file@.imports.len() <= u32::MAX,
                self.wf(),
                self@.nodes == start.nodes,
                self@.root == start.root,
                self@.edges == start.edges + import_edges(
                    start.nodes,
                    start.root,
                    file@,
                    disk@,
                    i as int,
                ),
                self@.edges.len() <= start.edges.len() + i,
            decreases file.imports.len() - i,
        {
            assert(file@.imports[i as int] == file.imports@[i as int]@);
            let ghost before = self@.edges;
            match (
                self.lookup(&file.path),
                self.resolve_import(&file.path, &file.imports[i], file.language, disk),
            ) {
                (Some(from), Some(target)) => match self.lookup(&target) {
                    Some(to) => {
                        add_edge(&mut self.graph, from, to);
                    },
                    None => {},
                },
                _ => {},
            }
            assert(self@.edges =~= before + import_edge(
                start.nodes,
                start.root,
                file@,
                file@.imports[i as int],
                disk@,
            ));
            assert(self@.edges =~= start.edges + import_edges(
                start.nodes,
                start.root,
                file@,
                disk@,
                i + 1,
            ));
            i += 1;
        }
    }

    /// How many files the graph has.
    pub fn node_count(&self) -> (n: usize)
        ensures
            n == self@.nodes.len(),
    {
        node_count(&self.graph)
    }

    /// How many dependencies the graph has.
    pub fn edge_count(&self) -> (n: usize)
        ensures
            n == self@.edges.len(),
    {
        edge_count(&self.graph)
    }

    fn texts_at(&self, at: &Vec<usize>) -> (out: Vec<&String>)
        requires
            forall|k: int| 0 <= k < at@.len() ==> #[trigger] at@[k] < self@.nodes.len(),
        ensures
            borrowed_views(out@) == paths_at(self@.nodes, positions(at@)),
    {
        let mut out: Vec<&String> = Vec::new();
        let mut i: usize = 0;
        while i < at.len()
            invariant
                i <= at@.len(),
                forall|k: int| 0 <= k < at@.len() ==> #[trigger] at@[k] < self@.nodes.len(),
                out@.len() == i,
                forall|k: int|
                    0 <= k < i ==> #[trigger] out@[k]@ == self@.nodes[positions(at@)[k]],
            decreases at.len() - i,
        {
            out.push(node_text(&self.graph, at[i]));
            i += 1;
        }
        assert(borrowed_views(out@) =~= paths_at(self@.nodes, positions(at@)));
        out
    }

    /// Get direct dependents of a file (who imports it), those of the newest
    /// edges first.
    pub fn dependents_of(&self, path: &str) -> (out: Vec<&String>)
        requires
            self.wf(),
        ensures
            borrowed_views(out@) == (match node_of(self@.nodes, path@) {
                Some(i) => paths_at(self@.nodes, sources(self@.edges, i)),
                None => Seq::empty(),
            }),
    {
        match self.lookup(path) {
            Some(i) => self.texts_at(&in_neighbors(&self.graph, i)),
            None => {
                let out: Vec<&String> = Vec::new();
                assert(borrowed_views(out@) =~= Seq::empty());
                out
            },
        }
    }

    /// Get direct dependencies of a file (what it imports), those of the newest
    /// edges first.
    pub fn dependencies_of(&self, path: &str) -> (out: Vec<&String>)
        requires
            self.wf(),
        ensures
            borrowed_views(out@) == (match node_of(self@.nodes, path@) {
                Some(i) => paths_at(self@.nodes, targets(self@.edges, i)),
                None => Seq::empty(),
            }),
    {
        match self.lookup(path) {
            Some(i) => self.texts_at(&out_neighbors(&self.graph, i)),
            None => {
                let out: Vec<&String> = Vec::new();
                assert(borrowed_views(out@) =~= Seq::empty());
                out
            },
        }
    }

    /// All files in the graph, in insertion order.
    pub fn files(&self) -> (out: Vec<&String>)
        ensures
            borrowed_views(out@) == self@.nodes,
    {
        let mut out: Vec<&String> = Vec::new();
        let n = node_count(&self.graph);
        let mut i: usize = 0;
        while i < n
            invariant
                i <= n,
                n == self@.nodes.len(),
                out@.len() == i,
                forall|k: int| 0 <= k < i ==> #[trigger] out@[k]@ == self@.nodes[k],
            decreases n - i,
        {
            out.push(node_text(&self.graph, i));
            i += 1;
        }
        assert(borrowed_views(out@) =~= self@.nodes);
        out
    }

    /// Every edge as an `(importer, imported)` pair of paths.
    pub fn edges(&self) -> (out: Vec<(&String, &String)>)
        ensures
            out@.len() == self@.edges.len(),
            forall|i: int|
                0 <= i < out@.len() ==> (#[trigger] out@[i]).0@ == edge_paths(self@)[i].0
                    && out@[i].1@ == edge_paths(self@)[i].1,
    {
        let list = edge_list(&self.graph);
        let mut out: Vec<(&String, &String)> = Vec::new();
        let mut i: usize = 0;
        assert(position_pairs(list@).len() == list@.len());
        while i < list.len()
            invariant
                i <= list@.len(),
                out@.len() == i,
                position_pairs(list@) == self@.edges,
                list@.len() == self@.edges.len(),
                forall|k: int|
                    0 <= k < list@.len() ==> (#[trigger] list@[k]).0 < self@.nodes.len()
                        && list@[k].1 < self@.nodes.len(),
                forall|k: int|
                    0 <= k < i ==> (#[trigger] out@[k]).0@ == edge_paths(self@)[k].0 && out@[k].1@
                        == edge_paths(self@)[k].1,
            decreases list.len() - i,
        {
            let (from, to) = list[i];
            assert(position_pairs(list@)[i as int] == (from as int, to as int));
            out.push((node_text(&self.graph, from), node_text(&self.graph, to)));
            i += 1;
        }
        out
    }

    /// Find all cycles in the graph.
    ///
    /// Returns each strongly connected component of size > 1, plus any file
    /// with a dependency on itself. Each inner list is a set of files that
    /// mutually depend on each other (directly or transitively).
    pub fn find_cycles(&self) -> (out: Vec<Vec<&String>>)
        requires
            self.wf(),
        ensures
            out@.len() == cycle_paths(self@).len(),
            forall|i: int|
                0 <= i < out@.len() ==> borrowed_views((#[trigger] out@[i])@) == cycle_paths(
                    self@,
                )[i] && out@[i]@.len() > 0,
            cycles_hold(self@),
    {
        let groups = tarjan(&self.graph);
        let ghost lists = position_lists(groups@);
        let ghost edges = self@.edges;
        proof {
            law_cycles_are_found(lists, self@.nodes.len() as int, edges);
            law_cycles_are_apart(lists, self@.nodes.len() as int, edges);
        }
        let mut out: Vec<Vec<&String>> = Vec::new();
        let mut i: usize = 0;
        assert(lists.subrange(0, 0) =~= Seq::<Seq<int>>::empty());
        while i < groups.len()
            invariant
                i <= groups@.len(),
                lists == position_lists(groups@),
                edges == self@.edges,
                strong_components_of(lists, self@.nodes.len() as int, edges),
                out@.len() == cyclic(edges, lists.subrange(0, i as int)).len(),
                forall|k: int|
                    0 <= k < out@.len() ==> borrowed_views((#[trigger] out@[k])@) == paths_at(
                        self@.nodes,
                        cyclic(edges, lists.subrange(0, i as int))[k],
                    ) && out@[k]@.len() > 0,
            decreases groups.len() - i,
        {
            let group = &groups[i];
            proof {
                let next = lists.subrange(0, i + 1);
                assert(next.drop_last() =~= lists.subrange(0, i as int));
                assert(next.last() == positions(group@));
                assert(lists[i as int] == positions(group@));
                assert(lists[i as int].len() == group@.len());
                assert forall|k: int| 0 <= k < group@.len() implies #[trigger] group@[k]
                    < self@.nodes.len() by {
                    assert(lists[i as int][k] == group@[k]);
                    assert(listed(lists, group@[k] as int));
                }
                assert(group@.len() > 0);
                assert(positions(group@)[0] == group@[0]);
            }
            let is_cycle = group.len() > 1 || contains_edge(&self.graph, group[0], group[0]);
            assert(is_cycle == is_cyclic(edges, positions(group@)));
            if is_cycle {
                let ghost before = out@;
                let texts = self.texts_at(group);
                assert(borrowed_views(texts@).len() == texts@.len());
                out.push(texts);
            }
            i += 1;
        }
        assert(lists.subrange(0, lists.len() as int) =~= lists);
        out
    }

    /// Manually add a file node. Used by callers that build a graph without
    /// going through `build()`. A file that is there already is not added
    /// again.
    pub fn add_file(&mut self, path: &str)
        requires
            old(self).wf(),
            old(self)@.nodes.len() < u32::MAX,
        ensures
            final(self).wf(),
            final(self)@ == (if node_of(old(self)@.nodes, path@) is Some {
                old(self)@
            } else {
                GraphView { nodes: old(self)@.nodes.push(path@), ..old(self)@ }
            }),
    {
        if self.lookup(path).is_some() {
            return ;
        }
        self.push_node(path);
    }

    /// Manually add a dependency edge between two already-added files.
    /// Returns false if either file is unknown.
    pub fn add_dependency(&mut self, from: &str, to: &str) -> (r: bool)
        requires
            old(self).wf(),
            old(self)@.edges.len() < u32::MAX,
        ensures
            final(self).wf(),
            match (node_of(old(self)@.nodes, from@), node_of(old(self)@.nodes, to@)) {
                (Some(f), Some(t)) => r && final(self)@ == (GraphView {
                    edges: old(self)@.edges.push((f, t)),
                    ..old(self)@
                }),
                _ => !r && final(self)@ == old(self)@,
            },
    {
        match (self.lookup(from), self.lookup(to)) {
            (Some(f), Some(t)) => {
                add_edge(&mut self.graph, f, t);
                true
            },
            _ => false,
        }
    }

    /// Resolve an import string to a file path in the project, if possible.
    /// Returns `None` for external/stdlib imports.
    pub fn resolve_import(
        &self,
        from: &str,
        import: &str,
        language: Language,
        disk: &DiskSnapshot,
    ) -> (r: Option<String>)
        ensures
            resolved(self@.root, from@, import@, language, disk@) == (match r {
                Some(p) => Some(p@),
                None => None::<Seq<char>>,
            }),
    {
        first_present_of(disk, &import_candidates(&self.root, from, import, language))
    }

    /// The paths that `build` needs to know of: the candidates of each import
    /// of each file, in order.
    pub fn probes(&self, files: &[ScannedFile]) -> (out: Vec<String>)
        ensures
            views(out@) == probed(self@.root, files_view(files@), files@.len() as int),
    {
        let mut out: Vec<String> = Vec::new();
        let ghost all = files_view(files@);
        let ghost root = self@.root;
        let mut i: usize = 0;
        assert(views(out@) =~= probed(root, all, 0));
        while i < files.len()
            invariant
                i <= files@.len(),
                all == files_view(files@),
                root == self@.root,
                views(out@) == probed(root, all, i as int),
            decreases files.len() - i,
        {
            assert(all[i as int] == files@[i as int]@);
            let file = &files[i];
            let ghost before = views(out@);
            let mut j: usize = 0;
            assert(views(out@) =~= before + probed_of_file(root, file@, 0));
            while j < file.imports.len()
                invariant
                    j <= file.imports@.len(),
                    root == self@.root,
                    views(out@) == before + probed_of_file(root, file@, j as int),
                decreases file.imports.len() - j,
            {
                assert(file@.imports[j as int] == file.imports@[j as int]@);
                let list = import_candidates(
                    &self.root,
                    &file.path,
                    &file.imports[j],
                    file.language,
                );
                let ghost held = views(out@);
                push_paths(&mut out, list);
                assert(views(out@) =~= before + probed_of_file(root, file@, j + 1));
                j += 1;
            }
            i += 1;
        }
        out
    }
}

/// The paths of the candidates.
pub open spec fn candidate_paths(list: Seq<(Seq<char>, bool)>) -> Seq<Seq<char>> {
    Seq::new(list.len(), |i: int| list[i].0)
}

/// The paths that the first `n` imports of a file can name.
pub open spec fn probed_of_file(root: Seq<char>, file: ScannedView, n: int) -> Seq<Seq<char>>
    decreases n,
{
    if n <= 0 {
        Seq::empty()
    } else {
        probed_of_file(root, file, n - 1) + candidate_paths(
            candidates(root, file.path, file.imports[n - 1], file.language),
        )
    }
}

/// The paths that the imports of the first `n` files can name.
pub open spec fn probed(root: Seq<char>, files: Seq<ScannedView>, n: int) -> Seq<Seq<char>>
    decreases n,
{
    if n <= 0 {
        Seq::empty()
    } else {
        probed(root, files, n - 1) + probed_of_file(
            root,
            files[n - 1],
            files[n - 1].imports.len() as int,
        )
    }
}

fn push_paths(out: &mut Vec<String>, list: Vec<Candidate>)
    ensures
        views(final(out)@) == views(old(out)@) + candidate_paths(candidates_view(list@)),
{
    let ghost start = views(out@);
    let ghost all = candidate_paths(candidates_view(list@));
    let mut i: usize = 0;
    assert(views(out@) =~= start + all.subrange(0, 0));
    while i < list.len()
        invariant
            i <= list@.len(),
            all == candidate_paths(candidates_view(list@)),
            views(out@) == start + all.subrange(0, i as int),
        decreases list.len() - i,
    {
        let ghost before = views(out@);
        assert(all[i as int] == list@[i as int].path@);
        out.push(list[i].path.clone());
        assert(views(out@) =~= before.push(all[i as int]));
        assert(views(out@) =~= start + all.subrange(0, i + 1));
        i += 1;
    }
    assert(all.subrange(0, all.len() as int) =~= all);
}

/// The number of imports grows with the files.
pub proof fn lemma_import_count(files: Seq<ScannedView>, i: int, n: int)
    requires
        0 <= i <= n,
    ensures
        0 <= import_count(files, i) <= import_count(files, n),
    decreases n,
{
    if i < n {
        lemma_import_count(files, i, n - 1);
    } else if n > 0 {
        lemma_import_count(files, n - 1, n - 1);
    }
}

proof fn lemma_targets(edges: Seq<(int, int)>, from: int, to: int)
    ensures
        targets(edges, from).contains(to) <==> edges.contains((from, to)),
    decreases edges.len(),
{
    if edges.len() > 0 {
        let front = edges.drop_last();
        lemma_targets(front, from, to);
        let older = targets(front, from);
        let all = targets(edges, from);
        if edges.contains((from, to)) {
            let e = choose|e: int| 0 <= e < edges.len() && edges[e] == (from, to);
            if e < front.len() {
                assert(front[e] == (from, to));
                let k = choose|k: int| 0 <= k < older.len() && older[k] == to;
                if edges.last().0 == from {
                    assert(all[k + 1] == to);
                } else {
                    assert(all[k] == to);
                }
            } else {
                assert(all[0] == to);
            }
        }
        if all.contains(to) {
            let k = choose|k: int| 0 <= k < all.len() && all[k] == to;
            if edges.last().0 == from && k == 0 {
                assert(edges[edges.len() - 1] == (from, to));
            } else {
                if edges.last().0 == from {
                    assert(older[k - 1] == to);
                } else {
                    assert(older[k] == to);
                }
                let e = choose|e: int| 0 <= e < front.len() && front[e] == (from, to);
                assert(edges[e] == (from, to));
            }
        }
    }
}

proof fn lemma_sources(edges: Seq<(int, int)>, from: int, to: int)
    ensures
        sources(edges, to).contains(from) <==> edges.contains((from, to)),
    decreases edges.len(),
{
    if edges.len() > 0 {
        let front = edges.drop_last();
        lemma_sources(front, from, to);
        let older = sources(front, to);
        let all = sources(edges, to);
        if edges.contains((from, to)) {
            let e = choose|e: int| 0 <= e < edges.len() && edges[e] == (from, to);
            if e < front.len() {
                assert(front[e] == (from, to));
                let k = choose|k: int| 0 <= k < older.len() && older[k] == from;
                if edges.last().1 == to {
                    assert(all[k + 1] == from);
                } else {
                    assert(all[k] == from);
                }
            } else {
                assert(all[0] == from);
            }
        }
        if all.contains(from) {
            let k = choose|k: int| 0 <= k < all.len() && all[k] == from;
            if edges.last().1 == to && k == 0 {
                assert(edges[edges.len() - 1] == (from, to));
            } else {
                if edges.last().1 == to {
                    assert(older[k - 1] == from);
                } else {
                    assert(older[k] == from);
                }
                let e = choose|e: int| 0 <= e < front.len() && front[e] == (from, to);
                assert(edges[e] == (from, to));
            }
        }
    }
}

/// One file is among the dependents of another if and only if the other is
/// among its dependencies.
pub proof fn law_dependents_mirror_dependencies(edges: Seq<(int, int)>, from: int, to: int)
    ensures
        targets(edges, from).contains(to) <==> sources(edges, to).contains(from),
{
    lemma_targets(edges, from, to);
    lemma_sources(edges, from, to);
}

/// A file that was added is found, under any spelling of its path.
pub proof fn law_added_file_is_found(nodes: Seq<Seq<char>>, path: Seq<char>, spelling: Seq<char>)
    requires
        same_path(path, spelling),
    ensures
        node_of(nodes.push(path), spelling) == Some(nodes.len() as int),
{
}

/// Whether two disks hold the same of the paths.
pub open spec fn agree(disk: DiskView, other: DiskView, paths: Seq<Seq<char>>) -> bool {
    forall|i: int|
        0 <= i < paths.len() ==> disk.present.contains(#[trigger] paths[i])
            == other.present.contains(paths[i]) && disk.regular.contains(paths[i])
            == other.regular.contains(paths[i])
}

/// Disks that hold the same of some paths hold the same of a part of them.
pub proof fn lemma_agree_parts(disk: DiskView, other: DiskView, a: Seq<Seq<char>>, b: Seq<Seq<char>>)
    requires
        agree(disk, other, a + b),
    ensures
        agree(disk, other, a),
        agree(disk, other, b),
{
    assert forall|i: int| 0 <= i < a.len() implies disk.present.contains(#[trigger] a[i])
        == other.present.contains(a[i]) && disk.regular.contains(a[i]) == other.regular.contains(
        a[i],
    ) by {
        assert((a + b)[i] == a[i]);
    }
    assert forall|i: int| 0 <= i < b.len() implies disk.present.contains(#[trigger] b[i])
        == other.present.contains(b[i]) && disk.regular.contains(b[i]) == other.regular.contains(
        b[i],
    ) by {
        assert((a + b)[a.len() + i] == b[i]);
    }
}

proof fn lemma_import_edges_agree(
    nodes: Seq<Seq<char>>,
    root: Seq<char>,
    file: ScannedView,
    disk: DiskView,
    other: DiskView,
    n: int,
)
    requires
        agree(disk, other, probed_of_file(root, file, n)),
    ensures
        import_edges(nodes, root, file, disk, n) == import_edges(nodes, root, file, other, n),
    decreases n,
{
    if n > 0 {
        let list = candidates(root, file.path, file.imports[n - 1], file.language);
        lemma_agree_parts(
            disk,
            other,
            probed_of_file(root, file, n - 1),
            candidate_paths(list),
        );
        lemma_import_edges_agree(nodes, root, file, disk, other, n - 1);
        assert forall|i: int| 0 <= i < list.len() implies is_present(disk, #[trigger] list[i])
            == is_present(other, list[i]) by {
            assert(candidate_paths(list)[i] == list[i].0);
        }
        law_resolution_looks_at_candidates_only(list, disk, other);
    }
}

proof fn lemma_file_edges_agree(
    nodes: Seq<Seq<char>>,
    root: Seq<char>,
    files: Seq<ScannedView>,
    disk: DiskView,
    other: DiskView,
    n: int,
)
    requires
        agree(disk, other, probed(root, files, n)),
    ensures
        file_edges(nodes, root, files, disk, n) == file_edges(nodes, root, files, other, n),
    decreases n,
{
    if n > 0 {
        let file = files[n - 1];
        lemma_agree_parts(
            disk,
            other,
            probed(root, files, n - 1),
            probed_of_file(root, file, file.imports.len() as int),
        );
        lemma_file_edges_agree(nodes, root, files, disk, other, n - 1);
        lemma_import_edges_agree(nodes, root, file, disk, other, file.imports.len() as int);
    }
}

/// The graph depends on no more of the disk than the paths that `probes`
/// lists.
pub proof fn law_build_looks_at_probes_only(
    g: GraphView,
    files: Seq<ScannedView>,
    disk: DiskView,
    other: DiskView,
)
    requires
        agree(disk, other, probed(g.root, files, files.len() as int)),
    ensures
        built(g, files, disk) == built(g, files, other),
{
    lemma_file_edges_agree(
        g.nodes + file_paths(files),
        g.root,
        files,
        disk,
        other,
        files.len() as int,
    );
}

} // verus!
