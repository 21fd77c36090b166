//! What a scan of the project is answered.
use vstd::prelude::*;
use vstd::string::*;

use super::change_reply::{Outcome, OutcomeView, StatusUpdate, UpdateView};
use crate::change::{empty_graph, graph_fits, project_violations};
use crate::disk::{DiskSnapshot, DiskView};
use crate::graph::{built, DependencyGraph, GraphView};
use crate::json::{
    json_array, json_bool, json_count, json_node, json_nodes, json_null, json_object, json_pretty,
    json_text, json_texts, no_members, print_json, put, JsonNode,
};
use crate::notify::{scan_illegal, scan_illegal_toast, scan_legal, scan_legal_toast};
use crate::report::{
    append_counted, append_entries, counted, number_violations, numbered_lines, report_entries,
};
use crate::rules::baseline::{
    baseline_of, law_baseline_freezes_its_violations, law_split_loses_nothing, share,
    split_against_baseline, Baseline, BaselineView,
};
use crate::rules::config::{RulesFileView, RulesView};
use crate::rules::validator::{law_severity_is_uniform, validate_with_overrides};
use crate::rules::{violations_view, RuleViolation, Rules, RulesFile, Severity, ViolationView};
use crate::scanner::{files_view, Language, ScannedFile, ScannedView};
use crate::status::{summaries_of, summaries_view, summarize, State, ViolationSummary};
use crate::text::{join, joined};

verus! {

// ---------------------------------------------------------------------------
// Which violations count
// ---------------------------------------------------------------------------

/// The violations that are errors, or those that are not, in order.
pub open spec fn by_severity(violations: Seq<ViolationView>, errors: bool) -> Seq<ViolationView>
    decreases violations.len(),
{
    if violations.len() == 0 {
        Seq::empty()
    } else {
        let before = by_severity(violations.drop_last(), errors);
        if violations.last().is_error() == errors {
            before.push(violations.last())
        } else {
            before
        }
    }
}

/// The violations that make the project illegal: errors that the baseline did
/// not freeze.
pub open spec fn illegal_violations(
    all: Seq<ViolationView>,
    baseline: Option<BaselineView>,
) -> Seq<ViolationView> {
    by_severity(share(all, baseline, true), true)
}

/// The violations that are only reported: first those that the baseline froze.
pub open spec fn tolerated_violations(
    all: Seq<ViolationView>,
    baseline: Option<BaselineView>,
) -> Seq<ViolationView> {
    share(all, baseline, false) + by_severity(share(all, baseline, true), false)
}

// ---------------------------------------------------------------------------
// Texts
// ---------------------------------------------------------------------------

/// The warnings in the report of an illegal project.
pub open spec fn warnings_section(warnings: Seq<ViolationView>) -> Seq<char> {
    if warnings.len() == 0 {
        Seq::empty()
    } else {
        "\nAlso "@ + counted(warnings.len(), " warning"@) + " (informational, not blocking):\n"@
            + joined(numbered_lines(warnings, "  ("@, ") "@, ": "@), "\n"@) + "\n\n"@
    }
}

/// The report of an illegal project.
pub open spec fn illegal_report(
    root: Seq<char>,
    violations: Seq<ViolationView>,
    warnings: Seq<ViolationView>,
) -> Seq<char> {
    "CRITICAL ARCHITECTURAL VIOLATION\n================================\nAetherLink found "@
        + counted(violations.len(), " rule violation"@) + " in "@ + root
        + ".\nThe build is ILLEGAL until every issue below is resolved.\n\n"@ + report_entries(
        violations,
        violations.len() as int,
    ) + warnings_section(warnings)
        + "Fix every violation above, then re-run scan_project to verify the project is legal.\n"@
}

/// The name of a language.
pub open spec fn language_name(language: Language) -> Seq<char> {
    match language {
        Language::Rust => "Rust"@,
        Language::TypeScript => "TypeScript"@,
        Language::JavaScript => "JavaScript"@,
        Language::Python => "Python"@,
        Language::Unknown => "Unknown"@,
    }
}

/// Texts as JSON.
pub open spec fn text_nodes(v: Seq<Seq<char>>) -> JsonNode {
    JsonNode::Array(Seq::new(v.len(), |i: int| JsonNode::Text(v[i])))
}

/// A scanned file as JSON.
pub open spec fn file_node(f: ScannedView) -> JsonNode {
    JsonNode::Object(
        no_members().insert("path"@, JsonNode::Text(f.path)).insert(
            "language"@,
            JsonNode::Text(language_name(f.language)),
        ).insert("line_count"@, JsonNode::Integer(f.line_count as int)).insert(
            "import_count"@,
            JsonNode::Integer(f.imports.len() as int),
        ).insert("imports"@, text_nodes(f.imports)),
    )
}

/// A limit that may be missing as JSON.
pub open spec fn limit_node(limit: Option<usize>) -> JsonNode {
    match limit {
        Some(n) => JsonNode::Integer(n as int),
        None => JsonNode::Null,
    }
}

/// The rules as JSON.
pub open spec fn rules_node(rules: RulesView) -> JsonNode {
    JsonNode::Object(
        no_members().insert("max_file_lines"@, limit_node(rules.max_file_lines)).insert(
            "no_cycles"@,
            JsonNode::Bool(rules.no_cycles),
        ).insert(
            "forbidden_imports"@,
            JsonNode::Integer(rules.forbidden_imports.len() as int),
        ).insert("default_severity"@, JsonNode::Text(rules.default_severity.small_name())),
    )
}

/// The summary of a legal project as JSON.
pub open spec fn legal_summary(
    files: Seq<ScannedView>,
    graph: GraphView,
    rules: RulesView,
    warnings: nat,
    baseline_active: bool,
) -> JsonNode {
    JsonNode::Object(
        no_members().insert("status"@, JsonNode::Text("LEGAL"@)).insert(
            "root"@,
            JsonNode::Text(graph.root),
        ).insert("files_scanned"@, JsonNode::Integer(files.len() as int)).insert(
            "graph_nodes"@,
            JsonNode::Integer(graph.nodes.len() as int),
        ).insert("graph_edges"@, JsonNode::Integer(graph.edges.len() as int)).insert(
            "warnings_count"@,
            JsonNode::Integer(warnings as int),
        ).insert("baseline_active"@, JsonNode::Bool(baseline_active)).insert(
            "rules_loaded"@,
            rules_node(rules),
        ).insert(
            "files"@,
            JsonNode::Array(Seq::new(files.len(), |i: int| file_node(files[i]))),
        ),
    )
}

/// What a scan does: the status is published, a toast is shown where the state
/// is bad or has become good, and the reply is sent.
pub open spec fn scan_outcome(
    root: Seq<char>,
    files: Seq<ScannedView>,
    disk: DiskView,
    config: RulesFileView,
    baseline: Option<BaselineView>,
    was_illegal: bool,
) -> OutcomeView {
    let all = project_violations(root, files, disk, config);
    let violations = illegal_violations(all, baseline);
    let warnings = tolerated_violations(all, baseline);
    if violations.len() > 0 {
        OutcomeView {
            reply: illegal_report(root, violations, warnings),
            write: None,
            status: Some(
                UpdateView {
                    state: State::Illegal,
                    violations: summaries_of(violations),
                    source: "scan_project"@,
                },
            ),
            toast: Some(scan_illegal_toast(root, violations.len())),
        }
    } else {
        OutcomeView {
            reply: json_pretty(
                legal_summary(
                    files,
                    built(empty_graph(root), files, disk),
                    config.rules,
                    warnings.len(),
                    baseline is Some,
                ),
            ),
            write: None,
            status: Some(
                UpdateView {
                    state: State::Legal,
                    violations: Seq::empty(),
                    source: "scan_project"@,
                },
            ),
            toast: if was_illegal {
                Some(scan_legal_toast(root))
            } else {
                None
            },
        }
    }
}

// ---------------------------------------------------------------------------
// The functions
// ---------------------------------------------------------------------------

/// Sorts the violations of a project into those that make it illegal and those
/// that are only reported.
pub fn sort_scan(all: Vec<RuleViolation>, baseline: Option<&Baseline>) -> (r: (
    Vec<RuleViolation>,
    Vec<RuleViolation>,
))
    ensures
        violations_view(r.0@) == illegal_violations(
            violations_view(all@),
            match baseline {
                Some(b) => Some(b@),
                None => None,
            },
        ),
        violations_view(r.1@) == tolerated_violations(
            violations_view(all@),
            match baseline {
                Some(b) => Some(b@),
                None => None,
            },
        ),
{
    let (fresh, mut warnings) = split_against_baseline(all, baseline);
    let ghost unfrozen = violations_view(fresh@);
    let ghost frozen = violations_view(warnings@);
    let mut violations: Vec<RuleViolation> = Vec::new();
    let mut i: usize = 0;
    assert(unfrozen.subrange(0, 0) =~= Seq::<ViolationView>::empty());
    assert(violations_view(violations@) =~= Seq::<ViolationView>::empty());
    assert(frozen =~= frozen + Seq::<ViolationView>::empty());
    while i < fresh.len()
        invariant
            i <= fresh@.len(),
            unfrozen == violations_view(fresh@),
            violations_view(violations@) == by_severity(unfrozen.subrange(0, i as int), true),
            violations_view(warnings@) == frozen + by_severity(
                unfrozen.subrange(0, i as int),
                false,
            ),
        decreases fresh.len() - i,
    {
        let v = fresh[i].clone();
        let ghost next = unfrozen.subrange(0, i + 1);
        let ghost errors = violations_view(violations@);
        let ghost warned = violations_view(warnings@);
        assert(next.drop_last() =~= unfrozen.subrange(0, i as int));
        assert(next.last() == v@);
        if v.severity == Severity::Warning {
            warnings.push(v);
            assert(violations_view(warnings@) =~= warned.push(next.last()));
            assert(warned.push(next.last()) =~= frozen + by_severity(next, false));
        } else {
            violations.push(v);
            assert(violations_view(violations@) =~= errors.push(next.last()));
        }
        i += 1;
    }
    assert(unfrozen.subrange(0, unfrozen.len() as int) =~= unfrozen);
    (violations, warnings)
}

fn illegal_text(
    root: &str,
    violations: &Vec<RuleViolation>,
    warnings: &Vec<RuleViolation>,
) -> (s: String)
    ensures
        s@ == illegal_report(root@, violations_view(violations@), violations_view(warnings@)),
{
    let mut s =
        "CRITICAL ARCHITECTURAL VIOLATION\n================================\nAetherLink found ".to_owned();
    append_counted(&mut s, violations.len(), " rule violation");
    s.append(" in ");
    s.append(root);
    s.append(".\nThe build is ILLEGAL until every issue below is resolved.\n\n");
    append_entries(&mut s, violations);
    let ghost before = s@;
    if warnings.len() > 0 {
        s.append("\nAlso ");
        append_counted(&mut s, warnings.len(), " warning");
        s.append(" (informational, not blocking):\n");
        s.append(&join(&number_violations(warnings, "  (", ") ", ": "), "\n"));
        s.append("\n\n");
    }
    assert(s@ =~= before + warnings_section(violations_view(warnings@)));
    s.append(
        "Fix every violation above, then re-run scan_project to verify the project is legal.\n",
    );
    s
}

fn language_label(language: Language) -> (s: &'static str)
    ensures
        s@ == language_name(language),
{
    match language {
        Language::Rust => "Rust",
        Language::TypeScript => "TypeScript",
        Language::JavaScript => "JavaScript",
        Language::Python => "Python",
        Language::Unknown => "Unknown",
    }
}

fn file_json(f: &ScannedFile) -> (v: serde_json::Value)
    ensures
        json_node(v) == file_node(f@),
{
    let mut m = serde_json::Map::new();
    put(&mut m, "path", json_text(&f.path));
    put(&mut m, "language", json_text(language_label(f.language)));
    put(&mut m, "line_count", json_count(f.line_count));
    put(&mut m, "import_count", json_count(f.imports.len()));
    let imports = json_texts(&f.imports);
    assert(json_node(imports) == text_nodes(f@.imports)) by {
        assert(Seq::new(f.imports@.len(), |i: int| JsonNode::Text(f.imports@[i]@)) =~= Seq::new(
            f@.imports.len(),
            |i: int| JsonNode::Text(f@.imports[i]),
        ));
    }
    put(&mut m, "imports", imports);
    json_object(m)
}

fn rules_json(rules: &Rules) -> (v: serde_json::Value)
    ensures
        json_node(v) == rules_node(rules@),
{
    let mut m = serde_json::Map::new();
    let limit = match rules.max_file_lines {
        Some(n) => json_count(n),
        None => json_null(),
    };
    put(&mut m, "max_file_lines", limit);
    put(&mut m, "no_cycles", json_bool(rules.no_cycles));
    put(&mut m, "forbidden_imports", json_count(rules.forbidden_imports.len()));
    put(&mut m, "default_severity", json_text(&rules.default_severity.small_label()));
    json_object(m)
}

fn summary_json(
    root: &str,
    files: &[ScannedFile],
    graph: &DependencyGraph,
    rules: &Rules,
    warnings: usize,
    baseline_active: bool,
) -> (v: serde_json::Value)
    requires
        graph@.root == root@,
    ensures
        json_node(v) == legal_summary(
            files_view(files@),
            graph@,
            rules@,
            warnings as nat,
            baseline_active,
        ),
{
    let ghost all = files_view(files@);
    let mut list: Vec<serde_json::Value> = Vec::new();
    let mut i: usize = 0;
    while i < files.len()
        invariant
            i <= files@.len(),
            all == files_view(files@),
            list@.len() == i,
            forall|k: int| 0 <= k < i ==> json_node(#[trigger] list@[k]) == file_node(all[k]),
        decreases files.len() - i,
    {
        assert(all[i as int] == files@[i as int]@);
        list.push(file_json(&files[i]));
        i += 1;
    }
    assert(json_nodes(list@) =~= Seq::new(all.len(), |i: int| file_node(all[i])));
    let mut m = serde_json::Map::new();
    put(&mut m, "status", json_text("LEGAL"));
    put(&mut m, "root", json_text(root));
    put(&mut m, "files_scanned", json_count(files.len()));
    put(&mut m, "graph_nodes", json_count(graph.node_count()));
    put(&mut m, "graph_edges", json_count(graph.edge_count()));
    put(&mut m, "warnings_count", json_count(warnings));
    put(&mut m, "baseline_active", json_bool(baseline_active));
    put(&mut m, "rules_loaded", rules_json(rules));
    put(&mut m, "files", json_array(list));
    json_object(m)
}

fn pretty(v: &serde_json::Value) -> (s: String)
    ensures
        s@ == json_pretty(json_node(*v)),
{
    match print_json(v) {
        Ok(s) => s,
        Err(_) => String::new(),
    }
}

/// Build the graph of the scanned files and enforce the architectural rules.
///
/// If rules are violated, the reply is a `CRITICAL ARCHITECTURAL VIOLATION`
/// report instead of the normal summary: the build is "illegal" until every
/// listed violation is resolved. Violations that the baseline froze and those
/// of severity warning are only reported.
pub fn run_scan(
    root: &str,
    files: &[ScannedFile],
    disk: &DiskSnapshot,
    rules_file: &RulesFile,
    baseline: Option<&Baseline>,
    was_illegal: bool,
) -> (o: Outcome)
    requires
        graph_fits(files_view(files@)),
    ensures
        o@ == scan_outcome(
            root@,
            files_view(files@),
            disk@,
            rules_file@,
            match baseline {
                Some(b) => Some(b@),
                None => None,
            },
            was_illegal,
        ),
{
    let mut graph = DependencyGraph::new(root);
    assert(graph@ =~= empty_graph(root@));
    graph.build(files, disk);
    let raw = validate_with_overrides(files, &graph, rules_file, Some(root));
    let (violations, warnings) = sort_scan(raw, baseline);
    let ghost held = violations_view(violations@);
    assert(held.len() == violations@.len());
    assert(violations_view(warnings@).len() == warnings@.len());
    if violations.len() > 0 {
        return Outcome {
            reply: illegal_text(root, &violations, &warnings),
            write: None,
            status: Some(
                StatusUpdate {
                    state: State::Illegal,
                    violations: summarize(&violations),
                    source: "scan_project".to_owned(),
                },
            ),
            toast: Some(scan_illegal(root, violations.len())),
        };
    }
    let summary = summary_json(
        root,
        files,
        &graph,
        &rules_file.rules,
        warnings.len(),
        baseline.is_some(),
    );
    let none: Vec<ViolationSummary> = Vec::new();
    assert(summaries_view(none@) =~= Seq::empty());
    Outcome {
        reply: pretty(&summary),
        write: None,
        status: Some(
            StatusUpdate {
                state: State::Legal,
                violations: none,
                source: "scan_project".to_owned(),
            },
        ),
        toast: if was_illegal {
            Some(scan_legal(root))
        } else {
            None
        },
    }
}

// ---------------------------------------------------------------------------
// Laws
// ---------------------------------------------------------------------------

proof fn lemma_by_severity(violations: Seq<ViolationView>)
    ensures
        by_severity(violations, true).len() + by_severity(violations, false).len()
            == violations.len(),
    decreases violations.len(),
{
    if violations.len() > 0 {
        lemma_by_severity(violations.drop_last());
    }
}

/// The violations that make a project illegal and those that are only reported
/// are all there are.
pub proof fn law_scan_loses_nothing(all: Seq<ViolationView>, baseline: Option<BaselineView>)
    ensures
        illegal_violations(all, baseline).len() + tolerated_violations(all, baseline).len()
            == all.len(),
{
    lemma_by_severity(share(all, baseline, true));
    law_split_loses_nothing(all, baseline);
}

/// A project is legal once its violations are frozen in a baseline.
pub proof fn law_baselined_project_is_legal(
    root: Seq<char>,
    files: Seq<ScannedView>,
    disk: DiskView,
    config: RulesFileView,
    was_illegal: bool,
)
    ensures
        scan_outcome(
            root,
            files,
            disk,
            config,
            Some(baseline_of(project_violations(root, files, disk, config))),
            was_illegal,
        ).status matches Some(s) && s.state == State::Legal,
{
    let all = project_violations(root, files, disk, config);
    law_baseline_freezes_its_violations(all, all);
}

/// A project whose rules are of severity warning is legal.
pub proof fn law_warnings_keep_project_legal(
    root: Seq<char>,
    files: Seq<ScannedView>,
    disk: DiskView,
    config: RulesFileView,
    baseline: Option<BaselineView>,
    was_illegal: bool,
)
    requires
        config.rules.default_severity == Severity::Warning,
    ensures
        scan_outcome(root, files, disk, config, baseline, was_illegal).status matches Some(s)
            && s.state == State::Legal,
{
    let all = project_violations(root, files, disk, config);
    law_severity_is_uniform(files, built(empty_graph(root), files, disk), config, Some(root));
    law_split_loses_nothing(all, baseline);
    let fresh = share(all, baseline, true);
    assert forall|i: int| 0 <= i < fresh.len() implies !(#[trigger] fresh[i]).is_error() by {
        assert(all.contains(share(all, baseline, true)[i]));
        let k = choose|k: int| 0 <= k < all.len() && all[k] == fresh[i];
        assert(all[k].severity == Severity::Warning);
    }
    lemma_no_errors(fresh);
}

proof fn lemma_no_errors(violations: Seq<ViolationView>)
    requires
        forall|i: int| 0 <= i < violations.len() ==> !(#[trigger] violations[i]).is_error(),
    ensures
        by_severity(violations, true).len() == 0,
    decreases violations.len(),
{
    if violations.len() > 0 {
        let front = violations.drop_last();
        assert forall|i: int| 0 <= i < front.len() implies !(#[trigger] front[i]).is_error() by {
            assert(front[i] == violations[i]);
        }
        lemma_no_errors(front);
        assert(!violations[violations.len() - 1].is_error());
    }
}

/// A clean project is legal: where there is no violation, the status says so.
pub proof fn law_clean_project_is_legal(
    root: Seq<char>,
    files: Seq<ScannedView>,
    disk: DiskView,
    config: RulesFileView,
    baseline: Option<BaselineView>,
    was_illegal: bool,
)
    requires
        project_violations(root, files, disk, config).len() == 0,
    ensures
        scan_outcome(root, files, disk, config, baseline, was_illegal).status matches Some(s)
            && s.state == State::Legal,
        scan_outcome(root, files, disk, config, baseline, was_illegal).toast is Some
            <==> was_illegal,
{
}

} // verus!
