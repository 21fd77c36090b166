//! Rules against a project.
use vstd::prelude::*;
use vstd::string::*;

use super::config::{
    effective_limit, empty_rules_file, forbidden_view, ForbiddenImport, Rules, RulesFile,
    RulesFileView,
};
use super::{violations_view, RuleViolation, Severity, ViolationView};
use crate::graph::{
    borrowed_views, cycle_paths, cycles_hold, edge_paths, DependencyGraph, GraphView,
};
use crate::paths::{
    components, components_below, components_of, parent, parent_of, relative_components,
};
use crate::scanner::{files_view, ScannedFile, ScannedView};
use crate::text::{
    ascii_lower, char_views, chars_of, count, decimal, eq_ignore_case, join, joined,
    same_ignoring_case, views,
};

verus! {

// ---------------------------------------------------------------------------
// Which violations there are
// ---------------------------------------------------------------------------

/// What is said of a file that is too long.
pub open spec fn lines_message(path: Seq<char>, lines: usize, limit: usize) -> Seq<char> {
    path + " has "@ + decimal(lines as nat) + " lines, exceeds limit of "@ + decimal(limit as nat)
}

/// The violation of the line limit by a file, if it is longer than the limit
/// that holds for it.
pub open spec fn line_violation(
    file: ScannedView,
    config: RulesFileView,
    root: Option<Seq<char>>,
    severity: Severity,
) -> Seq<ViolationView> {
    match effective_limit(config, components_below(file.path, root)) {
        Some(limit) => if file.line_count > limit {
            seq![
                ViolationView {
                    rule: "max_file_lines"@,
                    message: lines_message(file.path, file.line_count, limit),
                    severity,
                },
            ]
        } else {
            Seq::empty()
        },
        None => Seq::empty(),
    }
}

/// The violations of the line limit by the first `n` files.
pub open spec fn line_violations(
    files: Seq<ScannedView>,
    config: RulesFileView,
    root: Option<Seq<char>>,
    severity: Severity,
    n: int,
) -> Seq<ViolationView>
    decreases n,
{
    if n <= 0 {
        Seq::empty()
    } else {
        line_violations(files, config, root, severity, n - 1) + line_violation(
            files[n - 1],
            config,
            root,
            severity,
        )
    }
}

/// Whether any directory component of `path` equals `folder`, up to the case of
/// ASCII letters.
pub open spec fn in_folder(path: Seq<char>, folder: Seq<char>) -> bool {
    match parent(path) {
        Some(p) => exists|i: int|
            0 <= i < components(p).len() && same_ignoring_case(#[trigger] components(p)[i], folder),
        None => false,
    }
}

/// Whether a dependency crosses a boundary that a rule forbids to cross.
pub open spec fn crosses(edge: (Seq<char>, Seq<char>), rule: (Seq<char>, Seq<char>)) -> bool {
    in_folder(edge.0, rule.0) && in_folder(edge.1, rule.1)
}

/// What is said of a forbidden dependency.
pub open spec fn forbidden_message(
    edge: (Seq<char>, Seq<char>),
    rule: (Seq<char>, Seq<char>),
) -> Seq<char> {
    edge.0 + " (in '"@ + rule.0 + "') imports "@ + edge.1 + " (in '"@ + rule.1
        + "'), which is forbidden by rule '"@ + rule.0 + " -> "@ + rule.1 + "'"@
}

/// The violation of a forbidding rule by a dependency.
pub open spec fn forbidden_violation(
    edge: (Seq<char>, Seq<char>),
    rule: (Seq<char>, Seq<char>),
    severity: Severity,
) -> ViolationView {
    ViolationView {
        rule: "forbidden_imports"@,
        message: forbidden_message(edge, rule),
        severity,
    }
}

/// The violations of the first `n` forbidding rules by a dependency.
pub open spec fn edge_violations(
    edge: (Seq<char>, Seq<char>),
    rules: Seq<(Seq<char>, Seq<char>)>,
    severity: Severity,
    n: int,
) -> Seq<ViolationView>
    decreases n,
{
    if n <= 0 {
        Seq::empty()
    } else {
        let before = edge_violations(edge, rules, severity, n - 1);
        if crosses(edge, rules[n - 1]) {
            before.push(
                forbidden_violation(edge, rules[n - 1], severity),
            )
        } else {
            before
        }
    }
}

/// The violations of the forbidding rules by the first `n` dependencies.
pub open spec fn forbidden_violations(
    edges: Seq<(Seq<char>, Seq<char>)>,
    rules: Seq<(Seq<char>, Seq<char>)>,
    severity: Severity,
    n: int,
) -> Seq<ViolationView>
    decreases n,
{
    if n <= 0 {
        Seq::empty()
    } else {
        forbidden_violations(edges, rules, severity, n - 1) + edge_violations(
            edges[n - 1],
            rules,
            severity,
            rules.len() as int,
        )
    }
}

/// What is said of a group of files that depend on each other in a circle.
pub open spec fn cycle_message(files: Seq<Seq<char>>) -> Seq<char> {
    "Circular dependency detected among "@ + decimal(files.len()) + " files (starting at "@
        + files[0] + "): "@ + joined(files, " -> "@)
}

/// The violations that groups of files are which depend on each other in a
/// circle.
pub open spec fn cycle_violations(groups: Seq<Seq<Seq<char>>>, severity: Severity) -> Seq<
    ViolationView,
> {
    Seq::new(
        groups.len(),
        |i: int|
            ViolationView { rule: "no_cycles"@, message: cycle_message(groups[i]), severity },
    )
}

/// All violations, in the order of the rules: the line limit, forbidden
/// dependencies, circles.
pub open spec fn all_violations(
    files: Seq<ScannedView>,
    graph: GraphView,
    config: RulesFileView,
    root: Option<Seq<char>>,
) -> Seq<ViolationView> {
    line_violations(
        files,
        config,
        root,
        config.rules.default_severity,
        files.len() as int,
    ) + forbidden_violations(
        edge_paths(graph),
        config.rules.forbidden_imports,
        config.rules.default_severity,
        graph.edges.len() as int,
    ) + (if config.rules.no_cycles {
        cycle_violations(cycle_paths(graph), config.rules.default_severity)
    } else {
        Seq::empty()
    })
}

// ---------------------------------------------------------------------------
// The checks
// ---------------------------------------------------------------------------

fn push_violation(out: &mut Vec<RuleViolation>, rule: &str, message: String, severity: Severity)
    ensures
        violations_view(final(out)@) == violations_view(old(out)@).push(
            ViolationView { rule: rule@, message: message@, severity },
        ),
{
    out.push(RuleViolation { rule: rule.to_owned(), message, severity });
    assert(violations_view(out@) =~= violations_view(old(out)@).push(
        ViolationView { rule: rule@, message: message@, severity },
    ));
}

fn lines_text(path: &str, lines: usize, limit: usize) -> (s: String)
    ensures
        s@ == lines_message(path@, lines, limit),
{
    let mut s = path.to_owned();
    s.append(" has ");
    s.append(&count(lines));
    s.append(" lines, exceeds limit of ");
    s.append(&count(limit));
    s
}

fn check_max_file_lines(
    files: &[ScannedFile],
    rules_file: &RulesFile,
    project_root: Option<&str>,
    severity: Severity,
    out: &mut Vec<RuleViolation>,
)
    ensures
        violations_view(final(out)@) == violations_view(old(out)@) + line_violations(
            files_view(files@),
            rules_file@,
            match project_root {
                Some(r) => Some(r@),
                None => None,
            },
            severity,
            files@.len() as int,
        ),
{
    let ghost start = violations_view(out@);
    let ghost all = files_view(files@);
    let ghost root = match project_root {
        Some(r) => Some(r@),
        None => None,
    };
    let mut i: usize = 0;
    assert(start =~= start + line_violations(all, rules_file@, root, severity, 0));
    while i < files.len()
        invariant
            i <= files@.len(),
            all == files_view(files@),
            root == (match project_root {
                Some(r) => Some(r@),
                None => None,
            }),
            violations_view(out@) == start + line_violations(
                all,
                rules_file@,
                root,
                severity,
                i as int,
            ),
        decreases files.len() - i,
    {
        let file = &files[i];
        assert(all[i as int] == file@);
        let ghost before = violations_view(out@);
        let rel = relative_components(&file.path, project_root);
        match rules_file.effective_max_file_lines(&rel) {
            Some(limit) => if file.line_count > limit {
                push_violation(
                    out,
                    "max_file_lines",
                    lines_text(&file.path, file.line_count, limit),
                    severity,
                );
            },
            None => {},
        }
        assert(violations_view(out@) =~= before + line_violation(
            all[i as int],
            rules_file@,
            root,
            severity,
        ));
        assert(violations_view(out@) =~= start + line_violations(
            all,
            rules_file@,
            root,
            severity,
            i + 1,
        ));
        i += 1;
    }
}

/// Whether any directory component of `path` equals `folder`, up to the case of
/// ASCII letters: the same rules file enforces the same boundary on file
/// systems that tell cases apart and on those that do not.
pub fn path_in_folder(path: &str, folder: &str) -> (r: bool)
    ensures
        r == in_folder(path@, folder@),
{
    let folder_path = match parent_of(path) {
        Some(p) => p,
        None => return false,
    };
    let list = components_of(&folder_path);
    let ghost all = components(folder_path@);
    let wanted = chars_of(folder);
    let mut i: usize = 0;
    while i < list.len()
        invariant
            i <= list@.len(),
            all == char_views(list@),
            all == components(folder_path@),
            wanted@ == folder@,
            parent(path@) == Some(folder_path@),
            forall|k: int| 0 <= k < i ==> !same_ignoring_case(#[trigger] all[k], folder@),
        decreases list.len() - i,
    {
        assert(all[i as int] == list@[i as int]@);
        if eq_ignore_case(&list[i], &wanted) {
            assert(same_ignoring_case(components(folder_path@)[i as int], folder@));
            assert(parent(path@)->0 == folder_path@);
            assert(in_folder(path@, folder@));
            return true;
        }
        i += 1;
    }
    false
}

fn forbidden_text(from: &str, to: &str, rule: &ForbiddenImport) -> (s: String)
    ensures
        s@ == forbidden_message((from@, to@), rule@),
{
    let mut s = from.to_owned();
    s.append(" (in '");
    s.append(&rule.from);
    s.append("') imports ");
    s.append(to);
    s.append(" (in '");
    s.append(&rule.to);
    s.append("'), which is forbidden by rule '");
    s.append(&rule.from);
    s.append(" -> ");
    s.append(&rule.to);
    s.append("'");
    s
}

fn check_edge(
    from: &str,
    to: &str,
    rules: &Vec<ForbiddenImport>,
    severity: Severity,
    out: &mut Vec<RuleViolation>,
)
    ensures
        violations_view(final(out)@) == violations_view(old(out)@) + edge_violations(
            (from@, to@),
            forbidden_view(rules@),
            severity,
            rules@.len() as int,
        ),
{
    let ghost start = violations_view(out@);
    let ghost all = forbidden_view(rules@);
    let ghost edge = (from@, to@);
    let mut i: usize = 0;
    assert(start =~= start + edge_violations(edge, all, severity, 0));
    while i < rules.len()
        invariant
            i <= rules@.len(),
            all == forbidden_view(rules@),
            edge == (from@, to@),
            violations_view(out@) == start + edge_violations(edge, all, severity, i as int),
        decreases rules.len() - i,
    {
        let rule = &rules[i];
        assert(all[i as int] == rule@);
        if path_in_folder(from, &rule.from) && path_in_folder(to, &rule.to) {
            push_violation(out, "forbidden_imports", forbidden_text(from, to, rule), severity);
        }
        assert(violations_view(out@) =~= start + edge_violations(edge, all, severity, i + 1));
        i += 1;
    }
}

fn check_forbidden_imports(
    graph: &DependencyGraph,
    rules: &Vec<ForbiddenImport>,
    severity: Severity,
    out: &mut Vec<RuleViolation>,
)
    ensures
        violations_view(final(out)@) == violations_view(old(out)@) + forbidden_violations(
            edge_paths(graph@),
            forbidden_view(rules@),
            severity,
            graph@.edges.len() as int,
        ),
{
    let ghost start = violations_view(out@);
    let ghost all = edge_paths(graph@);
    let ghost held = forbidden_view(rules@);
    let edges = graph.edges();
    let mut i: usize = 0;
    assert(start =~= start + forbidden_violations(all, held, severity, 0));
    while i < edges.len()
        invariant
            i <= edges@.len(),
            all == edge_paths(graph@),
            held == forbidden_view(rules@),
            edges@.len() == graph@.edges.len(),
            forall|k: int|
                0 <= k < edges@.len() ==> (#[trigger] edges@[k]).0@ == all[k].0 && edges@[k].1@
                    == all[k].1,
            violations_view(out@) == start + forbidden_violations(all, held, severity, i as int),
        decreases edges.len() - i,
    {
        let (from, to) = edges[i];
        assert(all[i as int] == (from@, to@));
        let ghost before = violations_view(out@);
        check_edge(from, to, rules, severity, out);
        assert(violations_view(out@) =~= start + forbidden_violations(all, held, severity, i + 1));
        i += 1;
    }
}

fn cycle_text(files: &Vec<&String>) -> (s: String)
    requires
        files@.len() > 0,
    ensures
        s@ == cycle_message(borrowed_views(files@)),
{
    let mut texts: Vec<String> = Vec::new();
    let mut i: usize = 0;
    while i < files.len()
        invariant
            i <= files@.len(),
            texts@.len() == i,
            forall|k: int| 0 <= k < i ==> #[trigger] texts@[k]@ == files@[k]@,
        decreases files.len() - i,
    {
        texts.push(files[i].clone());
        i += 1;
    }
    assert(views(texts@) =~= borrowed_views(files@));
    let mut s = "Circular dependency detected among ".to_owned();
    s.append(&count(files.len()));
    s.append(" files (starting at ");
    s.append(files[0]);
    s.append("): ");
    s.append(&join(&texts, " -> "));
    s
}

fn check_no_cycles(graph: &DependencyGraph, severity: Severity, out: &mut Vec<RuleViolation>)
    requires
        graph.wf(),
    ensures
        violations_view(final(out)@) == violations_view(old(out)@) + cycle_violations(
            cycle_paths(graph@),
            severity,
        ),
        cycles_hold(graph@),
{
    let ghost start = violations_view(out@);
    let ghost groups = cycle_paths(graph@);
    let ghost all = cycle_violations(groups, severity);
    let cycles = graph.find_cycles();
    let mut i: usize = 0;
    assert(start =~= start + all.subrange(0, 0));
    while i < cycles.len()
        invariant
            i <= cycles@.len(),
            all == cycle_violations(groups, severity),
            cycles@.len() == groups.len(),
            forall|k: int|
                0 <= k < cycles@.len() ==> borrowed_views((#[trigger] cycles@[k])@) == groups[k]
                    && cycles@[k]@.len() > 0,
            violations_view(out@) == start + all.subrange(0, i as int),
        decreases cycles.len() - i,
    {
        assert(borrowed_views(cycles@[i as int]@) == groups[i as int]);
        push_violation(out, "no_cycles", cycle_text(&cycles[i]), severity);
        assert(violations_view(out@) =~= start + all.subrange(0, i + 1));
        i += 1;
    }
    assert(all.subrange(0, all.len() as int) =~= all);
}

/// Full validator. `rules_file` carries both the base `[rules]` block and any
/// `[[overrides]]` entries. `project_root` is used to compute file paths
/// *relative to root* for override glob matching: without it, overrides like
/// `data/**` match no absolute path.
pub fn validate_with_overrides(
    files: &[ScannedFile],
    graph: &DependencyGraph,
    rules_file: &RulesFile,
    project_root: Option<&str>,
) -> (out: Vec<RuleViolation>)
    requires
        graph.wf(),
    ensures
        violations_view(out@) == all_violations(
            files_view(files@),
            graph@,
            rules_file@,
            match project_root {
                Some(r) => Some(r@),
                None => None,
            },
        ),
        rules_file.rules.no_cycles ==> cycles_hold(graph@),
{
    let mut violations: Vec<RuleViolation> = Vec::new();
    assert(violations_view(violations@) =~= Seq::<ViolationView>::empty());
    let severity = rules_file.rules.default_severity;
    check_max_file_lines(files, rules_file, project_root, severity, &mut violations);
    let ghost lines = violations_view(violations@);
    if rules_file.rules.forbidden_imports.len() > 0 {
        check_forbidden_imports(
            graph,
            &rules_file.rules.forbidden_imports,
            severity,
            &mut violations,
        );
    } else {
        proof {
            lemma_no_rules_no_forbidden(
                edge_paths(graph@),
                rules_file@.rules.forbidden_imports,
                severity,
                graph@.edges.len() as int,
            );
        }
        assert(lines =~= lines + Seq::<ViolationView>::empty());
    }
    if rules_file.rules.no_cycles {
        check_no_cycles(graph, severity, &mut violations);
    }
    proof {
        let root = match project_root {
            Some(r) => Some(r@),
            None => None,
        };
        assert(violations_view(violations@) =~= all_violations(
            files_view(files@),
            graph@,
            rules_file@,
            root,
        ));
    }
    violations
}

/// Run every enabled rule against the project and collect violations.
///
/// `files` is the scan output (used for per-file checks like line counts);
/// `graph` is the resolved dependency graph (used for edge & cycle checks).
///
/// Convenience wrapper for callers that don't have a `RulesFile`. Without a
/// `RulesFile`, per-folder overrides cannot be applied.
pub fn validate(files: &[ScannedFile], graph: &DependencyGraph, rules: &Rules) -> (out: Vec<
    RuleViolation,
>)
    requires
        graph.wf(),
    ensures
        violations_view(out@) == all_violations(
            files_view(files@),
            graph@,
            RulesFileView { rules: rules@, overrides: Seq::empty() },
            None,
        ),
        rules.no_cycles ==> cycles_hold(graph@),
{
    let synthetic = RulesFile { rules: rules.clone(), overrides: Vec::new() };
    assert(synthetic@.overrides =~= Seq::empty());
    validate_with_overrides(files, graph, &synthetic, None)
}

// ---------------------------------------------------------------------------
// Laws
// ---------------------------------------------------------------------------

proof fn lemma_no_rules_no_forbidden(
    edges: Seq<(Seq<char>, Seq<char>)>,
    rules: Seq<(Seq<char>, Seq<char>)>,
    severity: Severity,
    n: int,
)
    requires
        rules.len() == 0,
    ensures
        forbidden_violations(edges, rules, severity, n) == Seq::<ViolationView>::empty(),
    decreases n,
{
    if n > 0 {
        lemma_no_rules_no_forbidden(edges, rules, severity, n - 1);
        assert(edge_violations(edges[n - 1], rules, severity, 0) =~= Seq::<
            ViolationView,
        >::empty());
    }
}

proof fn lemma_no_limit_no_lines(
    files: Seq<ScannedView>,
    config: RulesFileView,
    root: Option<Seq<char>>,
    n: int,
)
    requires
        config.rules.max_file_lines is None,
        config.overrides.len() == 0,
    ensures
        line_violations(files, config, root, config.rules.default_severity, n) == Seq::<
            ViolationView,
        >::empty(),
    decreases n,
{
    if n > 0 {
        lemma_no_limit_no_lines(files, config, root, n - 1);
        assert(line_violation(
            files[n - 1],
            config,
            root,
            config.rules.default_severity,
        ) =~= Seq::<ViolationView>::empty());
    }
}

/// A project without rules has no violations.
pub proof fn law_no_rules_no_violations(
    files: Seq<ScannedView>,
    graph: GraphView,
    root: Option<Seq<char>>,
)
    ensures
        all_violations(files, graph, empty_rules_file(), root) == Seq::<ViolationView>::empty(),
{
    let config = empty_rules_file();
    lemma_no_limit_no_lines(files, config, root, files.len() as int);
    lemma_no_rules_no_forbidden(
        edge_paths(graph),
        config.rules.forbidden_imports,
        config.rules.default_severity,
        graph.edges.len() as int,
    );
}

proof fn lemma_line_severity(
    files: Seq<ScannedView>,
    config: RulesFileView,
    root: Option<Seq<char>>,
    n: int,
)
    ensures
        forall|i: int|
            0 <= i < line_violations(files, config, root, config.rules.default_severity, n).len() ==> (
            #[trigger] line_violations(files, config, root, config.rules.default_severity, n)[i]).severity
                == config.rules.default_severity,
    decreases n,
{
    if n > 0 {
        lemma_line_severity(files, config, root, n - 1);
        let before = line_violations(files, config, root, config.rules.default_severity, n - 1);
        let all = line_violations(files, config, root, config.rules.default_severity, n);
        assert forall|i: int| 0 <= i < all.len() implies (#[trigger] all[i]).severity
            == config.rules.default_severity by {
            if i < before.len() {
                assert(all[i] == before[i]);
            }
        }
    }
}

proof fn lemma_edge_severity(
    edge: (Seq<char>, Seq<char>),
    rules: Seq<(Seq<char>, Seq<char>)>,
    severity: Severity,
    n: int,
)
    ensures
        forall|i: int|
            0 <= i < edge_violations(edge, rules, severity, n).len() ==> (
            #[trigger] edge_violations(edge, rules, severity, n)[i]).severity == severity,
    decreases n,
{
    if n > 0 {
        lemma_edge_severity(edge, rules, severity, n - 1);
    }
}

proof fn lemma_forbidden_severity(
    edges: Seq<(Seq<char>, Seq<char>)>,
    rules: Seq<(Seq<char>, Seq<char>)>,
    severity: Severity,
    n: int,
)
    ensures
        forall|i: int|
            0 <= i < forbidden_violations(edges, rules, severity, n).len() ==> (
            #[trigger] forbidden_violations(edges, rules, severity, n)[i]).severity == severity,
    decreases n,
{
    if n > 0 {
        lemma_forbidden_severity(edges, rules, severity, n - 1);
        lemma_edge_severity(edges[n - 1], rules, severity, rules.len() as int);
        let before = forbidden_violations(edges, rules, severity, n - 1);
        let last = edge_violations(edges[n - 1], rules, severity, rules.len() as int);
        let all = forbidden_violations(edges, rules, severity, n);
        assert forall|i: int| 0 <= i < all.len() implies (#[trigger] all[i]).severity
            == severity by {
            if i < before.len() {
                assert(all[i] == before[i]);
            } else {
                assert(all[i] == last[i - before.len()]);
            }
        }
    }
}

/// Every violation has the default severity of the rules file: either all of
/// them block, or none does.
pub proof fn law_severity_is_uniform(
    files: Seq<ScannedView>,
    graph: GraphView,
    config: RulesFileView,
    root: Option<Seq<char>>,
)
    ensures
        forall|i: int|
            0 <= i < all_violations(files, graph, config, root).len() ==> (
            #[trigger] all_violations(files, graph, config, root)[i]).severity
                == config.rules.default_severity,
{
    lemma_line_severity(files, config, root, files.len() as int);
    lemma_forbidden_severity(
        edge_paths(graph),
        config.rules.forbidden_imports,
        config.rules.default_severity,
        graph.edges.len() as int,
    );
    let a = line_violations(files, config, root, config.rules.default_severity, files.len() as int);
    let b = forbidden_violations(
        edge_paths(graph),
        config.rules.forbidden_imports,
        config.rules.default_severity,
        graph.edges.len() as int,
    );
    let all = all_violations(files, graph, config, root);
    assert forall|i: int| 0 <= i < all.len() implies (#[trigger] all[i]).severity
        == config.rules.default_severity by {
        if i < a.len() {
            assert(all[i] == a[i]);
        } else if i < a.len() + b.len() {
            assert(all[i] == b[i - a.len()]);
        }
    }
}

proof fn lemma_edge_is_flagged(
    edge: (Seq<char>, Seq<char>),
    rules: Seq<(Seq<char>, Seq<char>)>,
    severity: Severity,
    rule: int,
    n: int,
)
    requires
        0 <= rule < n,
        crosses(edge, rules[rule]),
    ensures
        edge_violations(edge, rules, severity, n).contains(
            forbidden_violation(edge, rules[rule], severity),
        ),
    decreases n,
{
    let wanted = forbidden_violation(edge, rules[rule], severity);
    let all = edge_violations(edge, rules, severity, n);
    let before = edge_violations(edge, rules, severity, n - 1);
    if rule == n - 1 {
        assert(all[all.len() - 1] == wanted);
    } else {
        lemma_edge_is_flagged(edge, rules, severity, rule, n - 1);
        let i = choose|i: int| 0 <= i < before.len() && before[i] == wanted;
        assert(all[i] == wanted);
    }
}

proof fn lemma_forbidden_is_flagged(
    edges: Seq<(Seq<char>, Seq<char>)>,
    rules: Seq<(Seq<char>, Seq<char>)>,
    severity: Severity,
    edge: int,
    rule: int,
    n: int,
)
    requires
        0 <= edge < n,
        0 <= rule < rules.len(),
        crosses(edges[edge], rules[rule]),
    ensures
        forbidden_violations(edges, rules, severity, n).contains(
            forbidden_violation(edges[edge], rules[rule], severity),
        ),
    decreases n,
{
    let wanted = forbidden_violation(edges[edge], rules[rule], severity);
    let all = forbidden_violations(edges, rules, severity, n);
    let before = forbidden_violations(edges, rules, severity, n - 1);
    let last = edge_violations(edges[n - 1], rules, severity, rules.len() as int);
    if edge == n - 1 {
        lemma_edge_is_flagged(edges[edge], rules, severity, rule, rules.len() as int);
        let i = choose|i: int| 0 <= i < last.len() && last[i] == wanted;
        assert(all[before.len() + i] == wanted);
    } else {
        lemma_forbidden_is_flagged(edges, rules, severity, edge, rule, n - 1);
        let i = choose|i: int| 0 <= i < before.len() && before[i] == wanted;
        assert(all[i] == wanted);
    }
}

/// No forbidden dependency escapes: where an edge of the graph crosses a
/// boundary that a rule forbids to cross, it is among the violations.
pub proof fn law_forbidden_dependencies_are_flagged(
    files: Seq<ScannedView>,
    graph: GraphView,
    config: RulesFileView,
    root: Option<Seq<char>>,
    edge: int,
    rule: int,
)
    requires
        0 <= edge < graph.edges.len(),
        0 <= rule < config.rules.forbidden_imports.len(),
        crosses(edge_paths(graph)[edge], config.rules.forbidden_imports[rule]),
    ensures
        all_violations(files, graph, config, root).contains(
            forbidden_violation(
                edge_paths(graph)[edge],
                config.rules.forbidden_imports[rule],
                config.rules.default_severity,
            ),
        ),
{
    let severity = config.rules.default_severity;
    let wanted = forbidden_violation(
        edge_paths(graph)[edge],
        config.rules.forbidden_imports[rule],
        severity,
    );
    lemma_forbidden_is_flagged(
        edge_paths(graph),
        config.rules.forbidden_imports,
        severity,
        edge,
        rule,
        graph.edges.len() as int,
    );
    let a = line_violations(files, config, root, config.rules.default_severity, files.len() as int);
    let b = forbidden_violations(
        edge_paths(graph),
        config.rules.forbidden_imports,
        severity,
        graph.edges.len() as int,
    );
    let i = choose|i: int| 0 <= i < b.len() && b[i] == wanted;
    assert(all_violations(files, graph, config, root)[a.len() + i] == wanted);
}

proof fn lemma_long_file_is_flagged(
    files: Seq<ScannedView>,
    config: RulesFileView,
    root: Option<Seq<char>>,
    file: int,
    n: int,
)
    requires
        0 <= file < n,
        line_violation(files[file], config, root, config.rules.default_severity).len() > 0,
    ensures
        line_violations(files, config, root, config.rules.default_severity, n).contains(
            line_violation(files[file], config, root, config.rules.default_severity)[0],
        ),
    decreases n,
{
    let wanted = line_violation(files[file], config, root, config.rules.default_severity)[0];
    let all = line_violations(files, config, root, config.rules.default_severity, n);
    let before = line_violations(files, config, root, config.rules.default_severity, n - 1);
    if file == n - 1 {
        assert(all[before.len() as int] == wanted);
    } else {
        lemma_long_file_is_flagged(files, config, root, file, n - 1);
        let i = choose|i: int| 0 <= i < before.len() && before[i] == wanted;
        assert(all[i] == wanted);
    }
}

/// No file that is longer than the limit that holds for it escapes.
pub proof fn law_long_files_are_flagged(
    files: Seq<ScannedView>,
    graph: GraphView,
    config: RulesFileView,
    root: Option<Seq<char>>,
    file: int,
)
    requires
        0 <= file < files.len(),
        effective_limit(config, components_below(files[file].path, root)) is Some,
        files[file].line_count > effective_limit(
            config,
            components_below(files[file].path, root),
        )->0,
    ensures
        all_violations(files, graph, config, root).contains(
            ViolationView {
                rule: "max_file_lines"@,
                message: lines_message(
                    files[file].path,
                    files[file].line_count,
                    effective_limit(config, components_below(files[file].path, root))->0,
                ),
                severity: config.rules.default_severity,
            },
        ),
{
    lemma_long_file_is_flagged(files, config, root, file, files.len() as int);
    let wanted = line_violation(files[file], config, root, config.rules.default_severity)[0];
    let a = line_violations(files, config, root, config.rules.default_severity, files.len() as int);
    let i = choose|i: int| 0 <= i < a.len() && a[i] == wanted;
    assert(all_violations(files, graph, config, root)[i] == wanted);
}

/// Whether a file is longer than the limit that holds for it, and the violation
/// says so.
pub open spec fn is_line_cause(
    v: ViolationView,
    file: ScannedView,
    config: RulesFileView,
    root: Option<Seq<char>>,
) -> bool {
    line_violation(file, config, root, config.rules.default_severity) == seq![v]
}

/// Whether a dependency crosses a forbidden boundary, and the violation says
/// so.
pub open spec fn is_edge_cause(
    v: ViolationView,
    edge: (Seq<char>, Seq<char>),
    rule: (Seq<char>, Seq<char>),
    severity: Severity,
) -> bool {
    crosses(edge, rule) && v == forbidden_violation(edge, rule, severity)
}

proof fn lemma_line_cause(
    files: Seq<ScannedView>,
    config: RulesFileView,
    root: Option<Seq<char>>,
    n: int,
    v: ViolationView,
)
    requires
        0 <= n <= files.len(),
        line_violations(files, config, root, config.rules.default_severity, n).contains(v),
    ensures
        exists|i: int|
            0 <= i < files.len() && is_line_cause(v, #[trigger] files[i], config, root),
    decreases n,
{
    let all = line_violations(files, config, root, config.rules.default_severity, n);
    let at = choose|at: int| 0 <= at < all.len() && all[at] == v;
    let before = line_violations(files, config, root, config.rules.default_severity, n - 1);
    let last = line_violation(files[n - 1], config, root, config.rules.default_severity);
    if at < before.len() {
        assert(before[at] == v);
        lemma_line_cause(files, config, root, n - 1, v);
    } else {
        assert(last[at - before.len()] == v);
        assert(last =~= seq![v]);
        assert(is_line_cause(v, files[n - 1], config, root));
    }
}

proof fn lemma_edge_cause(
    edge: (Seq<char>, Seq<char>),
    rules: Seq<(Seq<char>, Seq<char>)>,
    severity: Severity,
    n: int,
    v: ViolationView,
)
    requires
        0 <= n <= rules.len(),
        edge_violations(edge, rules, severity, n).contains(v),
    ensures
        exists|r: int|
            0 <= r < rules.len() && is_edge_cause(v, edge, #[trigger] rules[r], severity),
    decreases n,
{
    let all = edge_violations(edge, rules, severity, n);
    let at = choose|at: int| 0 <= at < all.len() && all[at] == v;
    let before = edge_violations(edge, rules, severity, n - 1);
    if at < before.len() {
        assert(before[at] == v);
        lemma_edge_cause(edge, rules, severity, n - 1, v);
    } else {
        assert(is_edge_cause(v, edge, rules[n - 1], severity));
    }
}

proof fn lemma_forbidden_cause(
    edges: Seq<(Seq<char>, Seq<char>)>,
    rules: Seq<(Seq<char>, Seq<char>)>,
    severity: Severity,
    n: int,
    v: ViolationView,
)
    requires
        0 <= n <= edges.len(),
        forbidden_violations(edges, rules, severity, n).contains(v),
    ensures
        exists|e: int, r: int|
            0 <= e < edges.len() && 0 <= r < rules.len() && is_edge_cause(
                v,
                #[trigger] edges[e],
                #[trigger] rules[r],
                severity,
            ),
    decreases n,
{
    let all = forbidden_violations(edges, rules, severity, n);
    let at = choose|at: int| 0 <= at < all.len() && all[at] == v;
    let before = forbidden_violations(edges, rules, severity, n - 1);
    let last = edge_violations(edges[n - 1], rules, severity, rules.len() as int);
    if at < before.len() {
        assert(before[at] == v);
        lemma_forbidden_cause(edges, rules, severity, n - 1, v);
    } else {
        assert(last[at - before.len()] == v);
        lemma_edge_cause(edges[n - 1], rules, severity, rules.len() as int, v);
        let r = choose|r: int|
            0 <= r < rules.len() && is_edge_cause(v, edges[n - 1], #[trigger] rules[r], severity);
        assert(is_edge_cause(v, edges[n - 1], rules[r], severity));
    }
}

/// No false alarms: every violation says that a file is longer than the limit
/// that holds for it, that a dependency crosses a forbidden boundary, or, where
/// cycles are forbidden, that files depend on each other in a circle.
pub proof fn law_every_violation_has_a_cause(
    files: Seq<ScannedView>,
    graph: GraphView,
    config: RulesFileView,
    root: Option<Seq<char>>,
    v: ViolationView,
)
    requires
        all_violations(files, graph, config, root).contains(v),
    ensures
        ({
            let rules = config.rules;
            ||| exists|i: int|
                0 <= i < files.len() && is_line_cause(v, #[trigger] files[i], config, root)
            ||| exists|e: int, r: int|
                0 <= e < graph.edges.len() && 0 <= r < rules.forbidden_imports.len()
                    && is_edge_cause(
                    v,
                    #[trigger] edge_paths(graph)[e],
                    #[trigger] rules.forbidden_imports[r],
                    rules.default_severity,
                )
            ||| rules.no_cycles && cycle_violations(
                cycle_paths(graph),
                rules.default_severity,
            ).contains(v)
        }),
{
    let rules = config.rules;
    let a = line_violations(files, config, root, config.rules.default_severity, files.len() as int);
    let b = forbidden_violations(
        edge_paths(graph),
        rules.forbidden_imports,
        rules.default_severity,
        graph.edges.len() as int,
    );
    let all = all_violations(files, graph, config, root);
    let at = choose|at: int| 0 <= at < all.len() && all[at] == v;
    if at < a.len() {
        assert(a[at] == v);
        lemma_line_cause(files, config, root, files.len() as int, v);
    } else if at < a.len() + b.len() {
        assert(b[at - a.len()] == v);
        lemma_forbidden_cause(
            edge_paths(graph),
            rules.forbidden_imports,
            rules.default_severity,
            graph.edges.len() as int,
            v,
        );
    } else {
        let c = cycle_violations(cycle_paths(graph), rules.default_severity);
        assert(c[at - a.len() - b.len()] == v);
    }
}

/// A project has no violations if and only if it breaks no rule: no file is
/// longer than the limit that holds for it, no dependency crosses a forbidden
/// boundary, and, where cycles are forbidden, no files depend on each other in a
/// circle.
pub proof fn law_legal_iff_no_rule_is_broken(
    files: Seq<ScannedView>,
    graph: GraphView,
    config: RulesFileView,
    root: Option<Seq<char>>,
)
    ensures
        all_violations(files, graph, config, root).len() == 0 <==> {
            &&& forall|i: int|
                0 <= i < files.len() ==> match effective_limit(
                    config,
                    components_below((#[trigger] files[i]).path, root),
                ) {
                    Some(limit) => files[i].line_count <= limit,
                    None => true,
                }
            &&& forall|e: int, r: int|
                0 <= e < graph.edges.len() && 0 <= r < config.rules.forbidden_imports.len()
                    ==> !crosses(
                    #[trigger] edge_paths(graph)[e],
                    #[trigger] config.rules.forbidden_imports[r],
                )
            &&& config.rules.no_cycles ==> cycle_paths(graph).len() == 0
        },
{
    let all = all_violations(files, graph, config, root);
    let rules = config.rules.forbidden_imports;
    if all.len() == 0 {
        assert forall|i: int| 0 <= i < files.len() implies match effective_limit(
            config,
            components_below((#[trigger] files[i]).path, root),
        ) {
            Some(limit) => files[i].line_count <= limit,
            None => true,
        } by {
            match effective_limit(config, components_below(files[i].path, root)) {
                Some(limit) => {
                    if files[i].line_count > limit {
                        law_long_files_are_flagged(files, graph, config, root, i);
                    }
                },
                None => {},
            }
        }
        assert forall|e: int, r: int|
            0 <= e < graph.edges.len() && 0 <= r < rules.len() implies !crosses(
            #[trigger] edge_paths(graph)[e],
            #[trigger] rules[r],
        ) by {
            if crosses(edge_paths(graph)[e], rules[r]) {
                law_forbidden_dependencies_are_flagged(files, graph, config, root, e, r);
            }
        }
    } else {
        assert(all.contains(all[0]));
        law_every_violation_has_a_cause(files, graph, config, root, all[0]);
        let c = cycle_violations(cycle_paths(graph), config.rules.default_severity);
        assert(c.len() == cycle_paths(graph).len());
    }
}

proof fn lemma_case_is_transitive(a: Seq<char>, b: Seq<char>, c: Seq<char>)
    requires
        same_ignoring_case(a, b),
        same_ignoring_case(b, c),
    ensures
        same_ignoring_case(a, c),
{
    assert forall|i: int| 0 <= i < a.len() implies #[trigger] ascii_lower(a[i]) == ascii_lower(
        c[i],
    ) by {
        assert(ascii_lower(b[i]) == ascii_lower(c[i]));
    }
}

/// The case of folder names does not matter: a rule holds for a dependency if
/// and only if it holds for the same dependency with folders in other cases.
/// The same rules file enforces the same boundary on every file system.
pub proof fn law_folder_case_does_not_matter(
    path: Seq<char>,
    other: Seq<char>,
    folder: Seq<char>,
    spelling: Seq<char>,
)
    requires
        same_ignoring_case(folder, spelling),
        parent(path) is Some,
        parent(other) is Some,
        components(parent(path)->0).len() == components(parent(other)->0).len(),
        forall|i: int|
            0 <= i < components(parent(path)->0).len() ==> same_ignoring_case(
                #[trigger] components(parent(path)->0)[i],
                components(parent(other)->0)[i],
            ),
    ensures
        in_folder(path, folder) == in_folder(other, spelling),
{
    let a = components(parent(path)->0);
    let b = components(parent(other)->0);
    if in_folder(path, folder) {
        let i = choose|i: int| 0 <= i < a.len() && same_ignoring_case(#[trigger] a[i], folder);
        lemma_case_is_transitive(b[i], a[i], folder);
        lemma_case_is_transitive(b[i], folder, spelling);
        assert(same_ignoring_case(b[i], spelling));
    }
    if in_folder(other, spelling) {
        let i = choose|i: int| 0 <= i < b.len() && same_ignoring_case(#[trigger] b[i], spelling);
        assert(same_ignoring_case(a[i], b[i]));
        lemma_case_is_transitive(a[i], b[i], spelling);
        lemma_case_is_transitive(a[i], spelling, folder);
        assert(same_ignoring_case(a[i], folder));
    }
}

} // verus!
