//! That the views of lists leave nothing out.
use vstd::prelude::*;

use crate::cli_add::{options_view, RemovalOption};
use crate::graph::resolve::{candidates_view, Candidate};
use crate::graph::{borrowed_views, cycle_paths, cycle_positions, edge_paths, GraphView};
use crate::mcp::tools::{properties_view, Property};
use crate::rules::config::{forbidden_view, overrides_view, ForbiddenImport, RuleOverride};
use crate::rules::{violations_view, RuleViolation, ViolationView};
use crate::scanner::file_scanner::{entries_view, WalkEntry};
use crate::scanner::syntax::pair_views;
use crate::scanner::{files_view, ScannedFile};
use crate::status::{summaries_of, summaries_view, ViolationSummary};
use crate::text::{char_views, views};

verus! {

/// The views of texts are as many, in their order.
pub proof fn law_text_views_leave_nothing_out(
    a: Seq<String>,
    b: Seq<Vec<char>>,
    c: Seq<&String>,
    d: Seq<(String, String)>,
    i: int,
)
    ensures
        views(a).len() == a.len(),
        0 <= i < a.len() ==> views(a)[i] == a[i]@,
        char_views(b).len() == b.len(),
        0 <= i < b.len() ==> char_views(b)[i] == b[i]@,
        borrowed_views(c).len() == c.len(),
        0 <= i < c.len() ==> borrowed_views(c)[i] == c[i]@,
        pair_views(d).len() == d.len(),
        0 <= i < d.len() ==> pair_views(d)[i] == (d[i].0@, d[i].1@),
{
}

/// The views of violations are as many, in their order, each with its rule, its
/// message and its severity; so are their summaries.
pub proof fn law_violation_views_leave_nothing_out(
    a: Seq<RuleViolation>,
    b: Seq<ViolationSummary>,
    c: Seq<ViolationView>,
    i: int,
)
    ensures
        violations_view(a).len() == a.len(),
        0 <= i < a.len() ==> violations_view(a)[i].rule == a[i].rule@ && violations_view(a)[i].message
            == a[i].message@ && violations_view(a)[i].severity == a[i].severity,
        summaries_view(b).len() == b.len(),
        0 <= i < b.len() ==> summaries_view(b)[i] == (b[i].rule@, b[i].message@),
        summaries_of(c).len() == c.len(),
        0 <= i < c.len() ==> summaries_of(c)[i] == (c[i].rule, c[i].message),
{
}

/// The views of files are as many, in their order, each with its path, its
/// language, all of its imports and its line count.
pub proof fn law_file_views_leave_nothing_out(a: Seq<ScannedFile>, b: Seq<WalkEntry>, i: int)
    ensures
        files_view(a).len() == a.len(),
        0 <= i < a.len() ==> {
            &&& files_view(a)[i].path == a[i].path@
            &&& files_view(a)[i].language == a[i].language
            &&& files_view(a)[i].imports == views(a[i].imports@)
            &&& files_view(a)[i].exports == views(a[i].exports@)
            &&& files_view(a)[i].line_count == a[i].line_count
        },
        entries_view(b).len() == b.len(),
        0 <= i < b.len() ==> entries_view(b)[i].path == b[i].path@ && entries_view(b)[i].is_file
            == b[i].is_file && (entries_view(b)[i].source is Some <==> b[i].source is Some) && (
        b[i].source matches Some(s) ==> entries_view(b)[i].source == Some(s@)),
{
}

/// The views of rules are as many, in their order, and so are those of overrides,
/// candidates, options and properties.
pub proof fn law_rule_views_leave_nothing_out(
    a: Seq<ForbiddenImport>,
    b: Seq<RuleOverride>,
    c: Seq<Candidate>,
    d: Seq<RemovalOption>,
    e: Seq<Property>,
    i: int,
)
    ensures
        forbidden_view(a).len() == a.len(),
        0 <= i < a.len() ==> forbidden_view(a)[i] == (a[i].from@, a[i].to@),
        overrides_view(b).len() == b.len(),
        0 <= i < b.len() ==> overrides_view(b)[i] == (b[i].path@, b[i].max_file_lines),
        candidates_view(c).len() == c.len(),
        0 <= i < c.len() ==> candidates_view(c)[i] == (c[i].path@, c[i].file_only),
        options_view(d).len() == d.len(),
        0 <= i < d.len() ==> options_view(d)[i] == (d[i].label@, d[i].removal@),
        properties_view(e).len() == e.len(),
        0 <= i < e.len() ==> properties_view(e)[i] == (e[i].name@, e[i].kind@, e[i].description@),
{
}

/// Each edge of a graph is told by the paths of its two ends, and each circle by
/// the paths of all its files.
pub proof fn law_graph_paths_leave_nothing_out(g: GraphView, i: int, j: int)
    ensures
        edge_paths(g).len() == g.edges.len(),
        0 <= i < g.edges.len() ==> edge_paths(g)[i] == (
            g.nodes[g.edges[i].0],
            g.nodes[g.edges[i].1],
        ),
        cycle_paths(g).len() == cycle_positions(g).len(),
        0 <= i < cycle_positions(g).len() ==> {
            &&& cycle_paths(g)[i].len() == cycle_positions(g)[i].len()
            &&& 0 <= j < cycle_positions(g)[i].len() ==> cycle_paths(g)[i][j]
                == g.nodes[cycle_positions(g)[i][j]]
        },
{
}

} // verus!
