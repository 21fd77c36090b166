//! Which folders a file is in and which violations follow, whatever the depth.
use vstd::prelude::*;

use super::config::{effective_limit, RulesFileView};
use super::validator::{
    all_violations, in_folder, law_forbidden_dependencies_are_flagged, law_long_files_are_flagged,
    line_violations,
};
use super::{Severity, ViolationView};
use crate::graph::{cycle_paths, edge_paths, GraphView};
use crate::path_laws::{
    is_plain_name, law_names_follow_a_path, law_parent_drops_the_last, lemma_last_part,
};
use crate::paths::{components, components_below, parent};
use crate::scanner::ScannedView;
use crate::text::{decimal, joined, same_ignoring_case};

verus! {

/// Whether one of the components before the last is the folder, up to ASCII
/// case.
pub open spec fn is_directory_of(path: Seq<char>, folder: Seq<char>, i: int) -> bool {
    0 <= i < components(path).len() - 1 && same_ignoring_case(components(path)[i], folder)
}

/// A file is in a folder exactly where one of its directories, at any depth, is
/// that folder.
pub proof fn law_folder_at_any_depth_counts(path: Seq<char>, folder: Seq<char>)
    ensures
        forall|i: int| is_directory_of(path, folder, i) ==> in_folder(path, folder),
        in_folder(path, folder) ==> exists|i: int| is_directory_of(path, folder, i),
{
    law_parent_drops_the_last(path);
    if parent(path) is Some {
        let up = components(parent(path)->0);
        assert(up == components(path).drop_last());
        assert forall|i: int| is_directory_of(path, folder, i) implies in_folder(path, folder) by {
            assert(up[i] == components(path)[i]);
            assert(same_ignoring_case(up[i], folder));
        }
        if in_folder(path, folder) {
            let i = choose|i: int|
                0 <= i < up.len() && same_ignoring_case(#[trigger] up[i], folder);
            assert(is_directory_of(path, folder, i));
        }
    }
}

/// A path that goes through a folder is in it, whatever stands before the folder
/// and however many names follow.
pub proof fn law_path_through_a_folder_is_in_it(
    front: Seq<char>,
    name: Seq<char>,
    below: Seq<Seq<char>>,
    folder: Seq<char>,
)
    requires
        front.len() == 0 || front.last() == '/',
        is_plain_name(name),
        same_ignoring_case(name, folder),
        below.len() > 0,
        forall|i: int| 0 <= i < below.len() ==> is_plain_name(#[trigger] below[i]),
    ensures
        in_folder(front + name + seq!['/'] + joined(below, seq!['/']), folder),
{
    let s = front + name;
    let path = s + seq!['/'] + joined(below, seq!['/']);
    lemma_last_part(front, name);
    law_names_follow_a_path(s, below);
    let c = components(s);
    assert(components(path)[c.len() - 1] == c[c.len() - 1]);
    assert(is_directory_of(path, folder, c.len() - 1));
    law_folder_at_any_depth_counts(path, folder);
}

/// A dependency of a file that has the first folder of a forbidding rule
/// anywhere among its directories on one that has the second anywhere among
/// its own is a violation that names both files and the rule.
pub proof fn law_boundaries_hold_at_any_depth(
    files: Seq<ScannedView>,
    graph: GraphView,
    config: RulesFileView,
    root: Option<Seq<char>>,
    edge: int,
    rule: int,
    i: int,
    j: int,
)
    requires
        0 <= edge < graph.edges.len(),
        0 <= rule < config.rules.forbidden_imports.len(),
        is_directory_of(edge_paths(graph)[edge].0, config.rules.forbidden_imports[rule].0, i),
        is_directory_of(edge_paths(graph)[edge].1, config.rules.forbidden_imports[rule].1, j),
    ensures
        ({
            let (source, target) = edge_paths(graph)[edge];
            let (from, to) = config.rules.forbidden_imports[rule];
            all_violations(files, graph, config, root).contains(
                ViolationView {
                    rule: "forbidden_imports"@,
                    message: source + " (in '"@ + from + "') imports "@ + target + " (in '"@ + to
                        + "'), which is forbidden by rule '"@ + from + " -> "@ + to + "'"@,
                    severity: config.rules.default_severity,
                },
            )
        }),
{
    let e = edge_paths(graph)[edge];
    let r = config.rules.forbidden_imports[rule];
    law_folder_at_any_depth_counts(e.0, r.0);
    law_folder_at_any_depth_counts(e.1, r.1);
    law_forbidden_dependencies_are_flagged(files, graph, config, root, edge, rule);
}

/// Where the limit of the rules holds for a file, its length alone decides: one
/// line more than the limit is a violation that gives both numbers.
pub proof fn law_one_line_too_many_is_flagged(
    files: Seq<ScannedView>,
    graph: GraphView,
    config: RulesFileView,
    root: Option<Seq<char>>,
    file: int,
    limit: usize,
)
    requires
        0 <= file < files.len(),
        config.overrides.len() == 0,
        config.rules.max_file_lines == Some(limit),
        files[file].line_count > limit,
    ensures
        all_violations(files, graph, config, root).contains(
            ViolationView {
                rule: "max_file_lines"@,
                message: files[file].path + " has "@ + decimal(files[file].line_count as nat)
                    + " lines, exceeds limit of "@ + decimal(limit as nat),
                severity: config.rules.default_severity,
            },
        ),
{
    assert(effective_limit(config, components_below(files[file].path, root)) == Some(limit));
    law_long_files_are_flagged(files, graph, config, root, file);
}

/// A group of files that import each other in a circle is a violation that
/// names each of them, where circles are forbidden.
pub proof fn law_every_circle_is_flagged(
    files: Seq<ScannedView>,
    graph: GraphView,
    config: RulesFileView,
    root: Option<Seq<char>>,
    group: int,
)
    requires
        config.rules.no_cycles,
        0 <= group < cycle_paths(graph).len(),
    ensures
        all_violations(files, graph, config, root).contains(
            ViolationView {
                rule: "no_cycles"@,
                message: "Circular dependency detected among "@ + decimal(
                    cycle_paths(graph)[group].len(),
                ) + " files (starting at "@ + cycle_paths(graph)[group][0] + "): "@ + joined(
                    cycle_paths(graph)[group],
                    " -> "@,
                ),
                severity: config.rules.default_severity,
            },
        ),
{
    let severity = config.rules.default_severity;
    let all = all_violations(files, graph, config, root);
    let n = all.len() - cycle_paths(graph).len();
    assert(all[n + group].rule == "no_cycles"@);
}

/// Each file that is added at the end adds its own violation of the line limit,
/// if it is too long, and changes none of the others.
pub proof fn law_files_are_judged_one_by_one(
    files: Seq<ScannedView>,
    file: ScannedView,
    config: RulesFileView,
    root: Option<Seq<char>>,
    severity: Severity,
    limit: usize,
)
    requires
        effective_limit(config, components_below(file.path, root)) == Some(limit),
    ensures
        line_violations(files.push(file), config, root, severity, (files.len() + 1) as int).len()
            == line_violations(files, config, root, severity, files.len() as int).len() + (
        if file.line_count > limit {
            1int
        } else {
            0int
        }),
{
    let more = files.push(file);
    lemma_lines_front(files, more, config, root, severity, files.len() as int);
}

proof fn lemma_lines_front(
    files: Seq<ScannedView>,
    more: Seq<ScannedView>,
    config: RulesFileView,
    root: Option<Seq<char>>,
    severity: Severity,
    n: int,
)
    requires
        0 <= n <= files.len(),
        files.is_prefix_of(more),
    ensures
        line_violations(files, config, root, severity, n) == line_violations(
            more,
            config,
            root,
            severity,
            n,
        ),
    decreases n,
{
    if n > 0 {
        lemma_lines_front(files, more, config, root, severity, n - 1);
        assert(files[n - 1] == more[n - 1]);
    }
}

} // verus!
