//! What the answers of the server say, whatever was asked.
use vstd::prelude::*;
use vstd::string::*;

use super::change_reply::{
    apply_outcome, block_report, bypassed_text, check_outcome, needed_folder, refused_text,
    warning_block,
};
use super::lease::{seconds, LEASE_DURATION};
use super::params::{
    addition_param, argument, cycles_param, duration_text, forbidden_param, limit_param,
    removal_param, ChangeView,
};
use super::scan_reply::{
    by_severity, file_node, illegal_report, illegal_violations, legal_summary, scan_outcome,
    tolerated_violations, warnings_section,
};
use super::server::{arguments_of, route_of, tool_named, Route, Tool};
use super::tools::tool_nodes;
use crate::change::{lemma_joined_has, lemma_text_within, project_violations, EvaluationView};
use crate::change_laws::occurs;
use crate::cli_add::scan_summary_text;
use crate::disk::DiskView;
use crate::graph::GraphView;
use crate::hook::block_text;
use crate::json::JsonNode;
use crate::notify::{bypass_active_toast, write_blocked_toast};
use crate::path_laws::{ends_with_name, is_plain_name, law_parent_of_child};
use crate::report::{counted, numbered_line, numbered_lines, report_entries, report_entry};
use crate::rules::baseline::{baseline_of, is_frozen, is_new, law_split_loses_nothing, share};
use crate::rules::config::{RulesFileView, RulesView};
use crate::rules::edit::{AdditionView, RemovalView};
use crate::rules::{fingerprint_of, Severity, ViolationView};
use crate::scanner::{Language, ScannedView};
use crate::status::State;
use crate::text::{decimal, has_text, joined, matches_at};

verus! {

// ---------------------------------------------------------------------------
// Reports
// ---------------------------------------------------------------------------

proof fn lemma_text_around(before: Seq<char>, s: Seq<char>, after: Seq<char>, t: Seq<char>)
    requires
        has_text(s, t),
    ensures
        has_text(before + s + after, t),
{
    let i = choose|i: int| matches_at(s, t, i);
    let all = before + s + after;
    assert(all.subrange(before.len() + i, before.len() + i + t.len()) =~= s.subrange(
        i,
        i + t.len(),
    ));
    assert(matches_at(all, t, before.len() + i));
}

proof fn lemma_entries_have(violations: Seq<ViolationView>, n: int, i: int)
    requires
        0 <= i < n <= violations.len(),
    ensures
        has_text(
            report_entries(violations, n),
            violations[i].severity.name() + " — rule: "@ + violations[i].rule + "\n    "@
                + violations[i].message,
        ),
    decreases n,
{
    let v = violations[i];
    let line = v.severity.name() + " — rule: "@ + v.rule + "\n    "@ + v.message;
    let before = report_entries(violations, n - 1);
    if i == n - 1 {
        let head = "["@ + decimal(n as nat) + "] "@;
        lemma_text_within(before + head, line, "\n\n"@);
        assert(report_entries(violations, n) =~= before + head + line + "\n\n"@);
    } else {
        lemma_entries_have(violations, n - 1, i);
        let last = report_entry(n as nat, violations[n - 1]);
        lemma_text_around(Seq::empty(), before, last, line);
        assert(Seq::empty() + before + last =~= report_entries(violations, n));
    }
}

proof fn lemma_lines_have(
    violations: Seq<ViolationView>,
    open: Seq<char>,
    close: Seq<char>,
    middle: Seq<char>,
    i: int,
)
    requires
        0 <= i < violations.len(),
    ensures
        has_text(
            joined(numbered_lines(violations, open, close, middle), "\n"@),
            violations[i].rule + middle + violations[i].message,
        ),
{
    let lines = numbered_lines(violations, open, close, middle);
    let line = numbered_line((i + 1) as nat, violations[i], open, close, middle);
    assert(lines[i] == line);
    lemma_joined_has(lines, "\n"@, i);
    lemma_line_has((i + 1) as nat, violations[i], open, close, middle);
    lemma_text_in_text(
        joined(lines, "\n"@),
        line,
        violations[i].rule + middle + violations[i].message,
    );
}

proof fn lemma_line_has(
    number: nat,
    v: ViolationView,
    open: Seq<char>,
    close: Seq<char>,
    middle: Seq<char>,
)
    ensures
        has_text(numbered_line(number, v, open, close, middle), v.rule + middle + v.message),
{
    lemma_end_of_six(open, decimal(number), close, v.rule, middle, v.message);
}

proof fn lemma_end_of_six(
    a: Seq<char>,
    b: Seq<char>,
    c: Seq<char>,
    d: Seq<char>,
    e: Seq<char>,
    f: Seq<char>,
)
    ensures
        has_text(a + b + c + d + e + f, d + e + f),
{
    let head = a + b + c;
    let text = d + e + f;
    assert(a + b + c + d + e + f =~= head + text);
    lemma_text_within(head, text, Seq::empty());
    assert(head + text + Seq::empty() =~= head + text);
}

proof fn lemma_text_in_text(all: Seq<char>, line: Seq<char>, text: Seq<char>)
    requires
        has_text(all, line),
        has_text(line, text),
    ensures
        has_text(all, text),
{
    let k = choose|k: int| matches_at(all, line, k);
    let m = choose|m: int| matches_at(line, text, m);
    assert(all.subrange(k + m, k + m + text.len()) =~= all.subrange(
        k,
        k + line.len(),
    ).subrange(m, m + text.len()));
    assert(matches_at(all, text, k + m));
}

/// Every report names each of its violations, with rule and message, however many
/// there are.
pub proof fn law_reports_name_every_violation(
    root: Seq<char>,
    target: Seq<char>,
    violations: Seq<ViolationView>,
    warnings: Seq<ViolationView>,
    i: int,
)
    requires
        0 <= i < violations.len(),
    ensures
        ({
            let short = violations[i].rule + ": "@ + violations[i].message;
            let long = violations[i].severity.name() + " — rule: "@ + violations[i].rule
                + "\n    "@ + violations[i].message;
            &&& has_text(block_text(root, violations), short)
            &&& has_text(bypassed_text(target, violations), short)
            &&& has_text(warning_block(violations), short)
            &&& has_text(warnings_section(violations), short)
            &&& has_text(illegal_report(root, violations, warnings), long)
            &&& has_text(block_report(target, violations), long)
            &&& has_text(refused_text(target, violations), long)
        }),
{
    let short = violations[i].rule + ": "@ + violations[i].message;
    let long = violations[i].severity.name() + " — rule: "@ + violations[i].rule + "\n    "@
        + violations[i].message;
    lemma_lines_have(violations, "  ["@, "] "@, ": "@, i);
    let lines = joined(numbered_lines(violations, "  ["@, "] "@, ": "@), "\n"@);
    let head = "BLOCKED by AetherLink (project: "@ + root + ").\n"@ + counted(
        violations.len(),
        " architectural rule violation"@,
    ) + " would be introduced:\n"@;
    let tail =
        "\nFix the issues above and retry, or use apply_guarded_change (which runs the same checks atomically). To temporarily disable enforcement, create .aetherlink_bypass in the project root.\n"@;
    lemma_text_around(head, lines, tail, short);
    assert(block_text(root, violations) =~= head + lines + tail);
    lemma_bypassed(target, violations, lines, short);
    lemma_lines_have(violations, "  ("@, ") "@, ": "@, i);
    let notes = joined(numbered_lines(violations, "  ("@, ") "@, ": "@), "\n"@);
    let more = "\n\n"@ + counted(violations.len(), " non-blocking warning"@)
        + " (grandfathered or severity=warn):\n"@;
    lemma_text_around(more, notes, Seq::empty(), short);
    assert(warning_block(violations) =~= more + notes + Seq::empty());
    let also = "\nAlso "@ + counted(violations.len(), " warning"@)
        + " (informational, not blocking):\n"@;
    lemma_text_around(also, notes, "\n\n"@, short);
    assert(warnings_section(violations) =~= also + notes + "\n\n"@);
    lemma_long_reports(root, target, violations, warnings, i);
}

proof fn lemma_bypassed(
    path: Seq<char>,
    violations: Seq<ViolationView>,
    lines: Seq<char>,
    short: Seq<char>,
)
    requires
        violations.len() > 0,
        lines == joined(numbered_lines(violations, "  ["@, "] "@, ": "@), "\n"@),
        has_text(lines, short),
    ensures
        has_text(bypassed_text(path, violations), short),
{
    let head =
        "BYPASS ACTIVE — CRITICAL WARNING\n================================\nAetherLink wrote "@
        + path
        + " WITHOUT enforcing architectural rules because '.aetherlink_bypass' exists in the project root.\n\n"@
        + ("Validation would have FAILED with "@ + counted(
        violations.len(),
        " violation"@,
    ) + ":\n"@);
    let tail =
        "\n\nDelete .aetherlink_bypass from the project root to re-enable normal validation."@;
    lemma_text_around(head, lines, tail, short);
    assert(bypassed_text(path, violations) =~= head + lines + tail);
}

proof fn lemma_long_reports(
    root: Seq<char>,
    target: Seq<char>,
    violations: Seq<ViolationView>,
    warnings: Seq<ViolationView>,
    i: int,
)
    requires
        0 <= i < violations.len(),
    ensures
        ({
            let long = violations[i].severity.name() + " — rule: "@ + violations[i].rule
                + "\n    "@ + violations[i].message;
            &&& has_text(illegal_report(root, violations, warnings), long)
            &&& has_text(block_report(target, violations), long)
            &&& has_text(refused_text(target, violations), long)
        }),
{
    let long = violations[i].severity.name() + " — rule: "@ + violations[i].rule + "\n    "@
        + violations[i].message;
    let entries = report_entries(violations, violations.len() as int);
    lemma_entries_have(violations, violations.len() as int, i);
    let head =
        "CRITICAL ARCHITECTURAL VIOLATION\n================================\nAetherLink found "@
        + counted(violations.len(), " rule violation"@) + " in "@ + root
        + ".\nThe build is ILLEGAL until every issue below is resolved.\n\n"@;
    let tail = warnings_section(warnings)
        + "Fix every violation above, then re-run scan_project to verify the project is legal.\n"@;
    lemma_text_around(head, entries, tail, long);
    assert(illegal_report(root, violations, warnings) =~= head + entries + tail);
    let top = "WRITE BLOCKED\n=============\nProposed change to "@ + target + " would introduce "@
        + counted(violations.len(), " rule violation"@)
        + ".\nDo NOT write this file. Fix the issues below and call check_change again.\n\n"@;
    lemma_text_around(top, entries, Seq::empty(), long);
    assert(block_report(target, violations) =~= top + entries + Seq::empty());
    let end =
        "===\nFILE NOT WRITTEN. AetherLink refused this edit because it would break the rules above. Fix the violations and call apply_guarded_change again. The on-disk project is unchanged.\n"@;
    lemma_text_around(Seq::empty(), block_report(target, violations), end, long);
    assert(refused_text(target, violations) =~= Seq::empty() + block_report(target, violations)
        + end);
}

// ---------------------------------------------------------------------------
// Scans
// ---------------------------------------------------------------------------

proof fn lemma_by_severity(violations: Seq<ViolationView>, errors: bool, v: ViolationView)
    ensures
        by_severity(violations, errors).contains(v) <==> violations.contains(v) && (v.severity
            == Severity::Error) == errors,
    decreases violations.len(),
{
    let all = by_severity(violations, errors);
    if violations.len() > 0 {
        let front = violations.drop_last();
        let last = violations.last();
        let before = by_severity(front, errors);
        lemma_by_severity(front, errors, v);
        if violations.contains(v) {
            let k = choose|k: int| 0 <= k < violations.len() && violations[k] == v;
            if k < front.len() {
                assert(front[k] == v);
            }
        }
        if front.contains(v) {
            let k = choose|k: int| 0 <= k < front.len() && front[k] == v;
            assert(violations[k] == v);
        }
        if last == v {
            assert(violations[violations.len() - 1] == v);
        }
        if all.contains(v) {
            let k = choose|k: int| 0 <= k < all.len() && all[k] == v;
            if k < before.len() {
                assert(before[k] == v);
            }
        }
        if before.contains(v) {
            let k = choose|k: int| 0 <= k < before.len() && before[k] == v;
            assert(all[k] == v);
        }
        if last == v && last.is_error() == errors {
            assert(all[all.len() - 1] == v);
        }
    }
}

/// A violation makes a project illegal exactly where it is an error that the
/// baseline does not hold; any other is tolerated, and none is dropped.
pub proof fn law_which_violations_count(
    all: Seq<ViolationView>,
    frozen: Option<Seq<ViolationView>>,
    v: ViolationView,
)
    requires
        all.contains(v),
    ensures
        ({
            let baseline = match frozen {
                Some(f) => Some(baseline_of(f)),
                None => None,
            };
            let counts = v.severity == Severity::Error && !(frozen matches Some(f) && occurs(f, v));
            &&& illegal_violations(all, baseline).contains(v) <==> counts
            &&& !counts ==> tolerated_violations(all, baseline).contains(v)
        }),
{
    let baseline = match frozen {
        Some(f) => Some(baseline_of(f)),
        None => None,
    };
    lemma_held(frozen, v);
    law_split_loses_nothing(all, baseline);
    let new = share(all, baseline, true);
    let old = share(all, baseline, false);
    lemma_by_severity(new, true, v);
    lemma_by_severity(new, false, v);
    let k = choose|k: int| 0 <= k < all.len() && all[k] == v;
    assert(share(all, baseline, is_new(baseline, all[k])).contains(v));
    if new.contains(v) {
        let m = choose|m: int| 0 <= m < new.len() && new[m] == v;
        assert(is_new(baseline, share(all, baseline, true)[m]));
    }
    let rest = by_severity(new, false);
    if is_new(baseline, v) {
        if v.severity != Severity::Error {
            let m = choose|m: int| 0 <= m < rest.len() && rest[m] == v;
            assert((old + rest)[old.len() + m] == v);
        }
    } else {
        let m = choose|m: int| 0 <= m < old.len() && old[m] == v;
        assert((old + rest)[m] == v);
    }
}

proof fn lemma_held(frozen: Option<Seq<ViolationView>>, v: ViolationView)
    ensures
        is_new(
            match frozen {
                Some(f) => Some(baseline_of(f)),
                None => None,
            },
            v,
        ) <==> !(frozen matches Some(f) && occurs(f, v)),
{
    if frozen is Some {
        let f = frozen->0;
        let b = baseline_of(f);
        if occurs(f, v) {
            let i = choose|i: int|
                0 <= i < f.len() && fingerprint_of((#[trigger] f[i]).rule, f[i].message)
                    == fingerprint_of(v.rule, v.message);
            assert(b.entries[i] == (f[i].rule, f[i].message));
        }
        if is_frozen(b, v.fingerprint()) {
            let i = choose|i: int|
                0 <= i < b.entries.len() && fingerprint_of(
                    (#[trigger] b.entries[i]).0,
                    b.entries[i].1,
                ) == v.fingerprint();
            assert(fingerprint_of(f[i].rule, f[i].message) == v.fingerprint());
        }
    }
}

/// A scan finds a project illegal exactly where one of its violations counts. The
/// status then lists each that counts, and the user is told; a legal project is
/// announced only where it was illegal before.
pub proof fn law_one_violation_makes_a_project_illegal(
    root: Seq<char>,
    files: Seq<ScannedView>,
    disk: DiskView,
    config: RulesFileView,
    frozen: Option<Seq<ViolationView>>,
    was_illegal: bool,
    v: ViolationView,
)
    ensures
        ({
            let baseline = match frozen {
                Some(f) => Some(baseline_of(f)),
                None => None,
            };
            let all = project_violations(root, files, disk, config);
            let outcome = scan_outcome(root, files, disk, config, baseline, was_illegal);
            let counts = all.contains(v) && v.severity == Severity::Error && !(
            frozen matches Some(f) && occurs(f, v));
            &&& outcome.write is None
            &&& outcome.status is Some
            &&& counts ==> outcome.status->0.state == State::Illegal
                && outcome.status->0.violations.contains((v.rule, v.message))
                && outcome.toast is Some
            &&& outcome.status->0.state == State::Illegal ==> exists|w: ViolationView|
                #[trigger] all.contains(w) && w.severity == Severity::Error && !(
                frozen matches Some(f) && occurs(f, w))
            &&& outcome.status->0.state == State::Legal || outcome.status->0.state
                == State::Illegal
            &&& outcome.status->0.state == State::Legal ==> (outcome.toast is Some
                <==> was_illegal) && outcome.status->0.violations.len() == 0
        }),
{
    let baseline = match frozen {
        Some(f) => Some(baseline_of(f)),
        None => None,
    };
    let all = project_violations(root, files, disk, config);
    let bad = illegal_violations(all, baseline);
    let outcome = scan_outcome(root, files, disk, config, baseline, was_illegal);
    if all.contains(v) {
        law_which_violations_count(all, frozen, v);
        if bad.contains(v) {
            let k = choose|k: int| 0 <= k < bad.len() && bad[k] == v;
            assert(outcome.status->0.violations[k] == (v.rule, v.message));
        }
    }
    if bad.len() > 0 {
        let w = bad[0];
        assert(bad.contains(w));
        lemma_by_severity(share(all, baseline, true), true, w);
        law_split_loses_nothing(all, baseline);
        let new = share(all, baseline, true);
        let m = choose|m: int| 0 <= m < new.len() && new[m] == w;
        assert(all.contains(share(all, baseline, true)[m]));
        law_which_violations_count(all, frozen, w);
        assert(all.contains(w));
    }
}

/// The summary of a legal project lists each file in its place, with its path,
/// its line count and each of its imports, and says how many files, nodes and
/// edges there are.
pub proof fn law_summary_lists_every_file(
    files: Seq<ScannedView>,
    graph: GraphView,
    rules: RulesView,
    warnings: nat,
    baseline_active: bool,
    i: int,
    j: int,
)
    requires
        0 <= i < files.len(),
    ensures
        ({
            let summary = legal_summary(files, graph, rules, warnings, baseline_active)->Object_0;
            let list = summary["files"@]->Array_0;
            let file = list[i]->Object_0;
            &&& summary["status"@] == JsonNode::Text("LEGAL"@)
            &&& summary["root"@] == JsonNode::Text(graph.root)
            &&& summary["files_scanned"@] == JsonNode::Integer(files.len() as int)
            &&& summary["graph_nodes"@] == JsonNode::Integer(graph.nodes.len() as int)
            &&& summary["graph_edges"@] == JsonNode::Integer(graph.edges.len() as int)
            &&& summary["warnings_count"@] == JsonNode::Integer(warnings as int)
            &&& summary["baseline_active"@] == JsonNode::Bool(baseline_active)
            &&& list.len() == files.len()
            &&& file["path"@] == JsonNode::Text(files[i].path)
            &&& file["line_count"@] == JsonNode::Integer(files[i].line_count as int)
            &&& file["import_count"@] == JsonNode::Integer(files[i].imports.len() as int)
            &&& file["imports"@]->Array_0.len() == files[i].imports.len()
            &&& 0 <= j < files[i].imports.len() ==> file["imports"@]->Array_0[j] == JsonNode::Text(
                files[i].imports[j],
            )
        }),
{
    lemma_summary_keys();
    let list = legal_summary(
        files,
        graph,
        rules,
        warnings,
        baseline_active,
    )->Object_0["files"@]->Array_0;
    assert(list[i] == file_node(files[i]));
}

proof fn lemma_summary_keys()
    ensures
        ({
            let all = seq![
                "status"@,
                "root"@,
                "files_scanned"@,
                "graph_nodes"@,
                "graph_edges"@,
                "warnings_count"@,
                "baseline_active"@,
                "rules_loaded"@,
                "files"@,
            ];
            forall|i: int, j: int| 0 <= i < j < 9 ==> #[trigger] all[i] != #[trigger] all[j]
        }),
        "status"@ != "root"@ && "status"@ != "files_scanned"@ && "status"@ != "graph_nodes"@
            && "status"@ != "graph_edges"@ && "status"@ != "warnings_count"@ && "status"@
            != "baseline_active"@ && "status"@ != "rules_loaded"@ && "status"@ != "files"@,
        "root"@ != "files_scanned"@ && "root"@ != "graph_nodes"@ && "root"@ != "graph_edges"@
            && "root"@ != "warnings_count"@ && "root"@ != "baseline_active"@ && "root"@
            != "rules_loaded"@ && "root"@ != "files"@,
        "files_scanned"@ != "graph_nodes"@ && "files_scanned"@ != "graph_edges"@
            && "files_scanned"@ != "warnings_count"@ && "files_scanned"@ != "baseline_active"@
            && "files_scanned"@ != "rules_loaded"@ && "files_scanned"@ != "files"@,
        "graph_nodes"@ != "graph_edges"@ && "graph_nodes"@ != "warnings_count"@ && "graph_nodes"@
            != "baseline_active"@ && "graph_nodes"@ != "rules_loaded"@ && "graph_nodes"@
            != "files"@,
        "graph_edges"@ != "warnings_count"@ && "graph_edges"@ != "baseline_active"@
            && "graph_edges"@ != "rules_loaded"@ && "graph_edges"@ != "files"@,
        "warnings_count"@ != "baseline_active"@ && "warnings_count"@ != "rules_loaded"@
            && "warnings_count"@ != "files"@,
        "baseline_active"@ != "rules_loaded"@ && "baseline_active"@ != "files"@,
        "rules_loaded"@ != "files"@,
        "path"@ != "language"@ && "path"@ != "line_count"@ && "path"@ != "import_count"@ && "path"@
            != "imports"@,
        "line_count"@ != "import_count"@ && "line_count"@ != "imports"@,
        "import_count"@ != "imports"@,
{
    reveal_strlit("status");
    reveal_strlit("root");
    reveal_strlit("files_scanned");
    reveal_strlit("graph_nodes");
    reveal_strlit("graph_edges");
    reveal_strlit("warnings_count");
    reveal_strlit("baseline_active");
    reveal_strlit("rules_loaded");
    reveal_strlit("files");
    assert("status"@.len() == 6 && "root"@.len() == 4 && "files_scanned"@.len() == 13
        && "graph_nodes"@.len() == 11 && "graph_edges"@.len() == 11 && "warnings_count"@.len()
        == 14 && "baseline_active"@.len() == 15 && "rules_loaded"@.len() == 12 && "files"@.len()
        == 5);
    assert("graph_nodes"@[6] == 'n' && "graph_edges"@[6] == 'e');
    reveal_strlit("path");
    reveal_strlit("language");
    reveal_strlit("line_count");
    reveal_strlit("import_count");
    reveal_strlit("imports");
    assert("path"@.len() == 4 && "language"@.len() == 8 && "line_count"@.len() == 10
        && "import_count"@.len() == 12 && "imports"@.len() == 7);
}

// ---------------------------------------------------------------------------
// Requests
// ---------------------------------------------------------------------------

/// Each tool that the server lists can be called under its name, and a tool that
/// can be called is listed.
pub proof fn law_listed_tools_can_be_called(
    request: Map<Seq<char>, JsonNode>,
    params: Map<Seq<char>, JsonNode>,
    name: Seq<char>,
)
    requires
        request.contains_key("method"@) && request["method"@] == JsonNode::Text("tools/call"@),
        request.contains_key("params"@) && request["params"@] == JsonNode::Object(params),
        params.contains_key("name"@) && params["name"@] == JsonNode::Text(name),
    ensures
        route_of(JsonNode::Object(request)) is Call <==> exists|i: int|
            0 <= i < tool_nodes().len() && (#[trigger] tool_nodes()[i])->Object_0["name"@]
                == JsonNode::Text(name),
        route_of(JsonNode::Object(request)) is Call || route_of(JsonNode::Object(request))
            == Route::UnknownTool,
        params.contains_key("arguments"@) ==> arguments_of(JsonNode::Object(request))
            == params["arguments"@],
        name == "acquire_lease"@ ==> route_of(JsonNode::Object(request)) == Route::Call(
            Tool::AcquireLease,
        ),
        name == "release_lease"@ ==> route_of(JsonNode::Object(request)) == Route::Call(
            Tool::ReleaseLease,
        ),
        name == "scan_project"@ ==> route_of(JsonNode::Object(request)) == Route::Call(
            Tool::ScanProject,
        ),
        name == "add_rule"@ ==> route_of(JsonNode::Object(request)) == Route::Call(Tool::AddRule),
        name == "remove_rule"@ ==> route_of(JsonNode::Object(request)) == Route::Call(
            Tool::RemoveRule,
        ),
        name == "check_change"@ ==> route_of(JsonNode::Object(request)) == Route::Call(
            Tool::CheckChange,
        ),
        name == "apply_guarded_change"@ ==> route_of(JsonNode::Object(request)) == Route::Call(
            Tool::ApplyGuardedChange,
        ),
{
    reveal_strlit("tools/call");
    reveal_strlit("tools/list");
    reveal_strlit("initialize");
    assert("tools/call"@[6] == 'c' && "tools/list"@[6] == 'l' && "initialize"@[0] == 'i'
        && "tools/call"@[0] == 't');
    reveal_strlit("acquire_lease");
    reveal_strlit("release_lease");
    reveal_strlit("scan_project");
    reveal_strlit("add_rule");
    reveal_strlit("remove_rule");
    reveal_strlit("check_change");
    reveal_strlit("apply_guarded_change");
    assert("acquire_lease"@.len() == 13 && "release_lease"@.len() == 13 && "scan_project"@.len()
        == 12 && "add_rule"@.len() == 8 && "remove_rule"@.len() == 11 && "check_change"@.len()
        == 12 && "apply_guarded_change"@.len() == 20);
    assert("acquire_lease"@[0] == 'a' && "release_lease"@[0] == 'r' && "scan_project"@[0] == 's'
        && "check_change"@[0] == 'c');
    reveal_strlit("name");
    reveal_strlit("description");
    reveal_strlit("inputSchema");
    assert("name"@.len() == 4 && "description"@.len() == 11 && "inputSchema"@.len() == 11);
    let all = tool_nodes();
    assert(all[0]->Object_0["name"@] == JsonNode::Text("scan_project"@));
    assert(all[1]->Object_0["name"@] == JsonNode::Text("acquire_lease"@));
    assert(all[2]->Object_0["name"@] == JsonNode::Text("release_lease"@));
    assert(all[3]->Object_0["name"@] == JsonNode::Text("add_rule"@));
    assert(all[4]->Object_0["name"@] == JsonNode::Text("remove_rule"@));
    assert(all[5]->Object_0["name"@] == JsonNode::Text("apply_guarded_change"@));
    assert(all[6]->Object_0["name"@] == JsonNode::Text("check_change"@));
    if exists|i: int|
        0 <= i < all.len() && (#[trigger] all[i])->Object_0["name"@] == JsonNode::Text(name) {
        let i = choose|i: int|
            0 <= i < all.len() && (#[trigger] all[i])->Object_0["name"@] == JsonNode::Text(name);
        assert(0 <= i < 7);
        assert(tool_named(name) is Some);
    }
}

/// A call has an argument where the entry is a text, and that text it is; without
/// it the error names the entry.
pub proof fn law_arguments_are_texts(args: JsonNode, key: Seq<char>)
    ensures
        args matches JsonNode::Object(m) && m.contains_key(key) && m[key] is Text ==> argument(
            args,
            key,
        ) == Ok::<Seq<char>, Seq<char>>(args->Object_0[key]->Text_0),
        !(args matches JsonNode::Object(m) && m.contains_key(key) && m[key] is Text) ==> argument(
            args,
            key,
        ) == Err::<Seq<char>, Seq<char>>("missing '"@ + key + "' argument"@),
{
}

/// A line limit may be given as a number or under each of three names, a switch
/// as a truth value or under each of two, and a forbidden import by its two
/// folders; the rule then says just that.
pub proof fn law_rule_parameters_are_read(
    params: Map<Seq<char>, JsonNode>,
    n: i64,
    b: bool,
    from: Seq<char>,
    to: Seq<char>,
    key: Seq<char>,
)
    ensures
        limit_param(JsonNode::Integer(n as int)) == Some(n),
        (key == "value"@ || key == "max"@ || key == "limit"@) && params
            == Map::<Seq<char>, JsonNode>::empty().insert(key, JsonNode::Integer(n as int))
            ==> limit_param(JsonNode::Object(params)) == Some(n),
        cycles_param(JsonNode::Bool(b)) == Some(b),
        (key == "enabled"@ || key == "value"@) && params
            == Map::<Seq<char>, JsonNode>::empty().insert(key, JsonNode::Bool(b)) ==> cycles_param(
            JsonNode::Object(params),
        ) == Some(b),
        params == Map::<Seq<char>, JsonNode>::empty().insert("from"@, JsonNode::Text(from)).insert(
            "to"@,
            JsonNode::Text(to),
        ) ==> forbidden_param(JsonNode::Object(params)) == Ok::<(Seq<char>, Seq<char>), Seq<char>>(
            (from, to),
        ),
{
    reveal_strlit("value");
    reveal_strlit("max");
    reveal_strlit("limit");
    reveal_strlit("enabled");
    reveal_strlit("from");
    reveal_strlit("to");
    reveal_strlit("rule");
    assert("value"@[0] == 'v' && "max"@[0] == 'm' && "limit"@[0] == 'l' && "enabled"@[0] == 'e');
    assert("from"@[0] == 'f' && "to"@[0] == 't' && "rule"@[0] == 'r');
}

/// A rule is added under each of its names, and removed under the same.
pub proof fn law_rule_types_have_their_names(rule_type: Seq<char>, params: JsonNode, n: i64, b: bool)
    ensures
        (rule_type == "max_file_lines"@ || rule_type == "line_limit"@) && limit_param(params)
            == Some(n) ==> addition_param(rule_type, params) == Ok::<AdditionView, Seq<char>>(
            AdditionView::MaxFileLines(n),
        ),
        rule_type == "max_file_lines"@ || rule_type == "line_limit"@ ==> removal_param(
            rule_type,
            params,
        ) == Ok::<RemovalView, Seq<char>>(RemovalView::MaxFileLines),
        rule_type == "no_cycles"@ && cycles_param(params) == Some(b) ==> addition_param(
            rule_type,
            params,
        ) == Ok::<AdditionView, Seq<char>>(AdditionView::NoCycles(b)),
        rule_type == "no_cycles"@ ==> removal_param(rule_type, params) == Ok::<
            RemovalView,
            Seq<char>,
        >(RemovalView::NoCycles),
        (rule_type == "forbidden_import"@ || rule_type == "forbidden_imports"@)
            && forbidden_param(params) is Ok ==> addition_param(rule_type, params) == Ok::<
            AdditionView,
            Seq<char>,
        >(
            AdditionView::ForbiddenImport {
                from: forbidden_param(params)->Ok_0.0,
                to: forbidden_param(params)->Ok_0.1,
            },
        ) && removal_param(rule_type, params) == Ok::<RemovalView, Seq<char>>(
            RemovalView::ForbiddenImport {
                from: forbidden_param(params)->Ok_0.0,
                to: forbidden_param(params)->Ok_0.1,
            },
        ),
        rule_type != "max_file_lines"@ && rule_type != "line_limit"@ && rule_type != "no_cycles"@
            && rule_type != "forbidden_import"@ && rule_type != "forbidden_imports"@
            ==> addition_param(rule_type, params) is Err && removal_param(rule_type, params) is Err,
{
    reveal_strlit("max_file_lines");
    reveal_strlit("line_limit");
    reveal_strlit("no_cycles");
    reveal_strlit("forbidden_import");
    reveal_strlit("forbidden_imports");
    assert("max_file_lines"@.len() == 14 && "line_limit"@.len() == 10 && "no_cycles"@.len() == 9
        && "forbidden_import"@.len() == 16 && "forbidden_imports"@.len() == 17);
}

// ---------------------------------------------------------------------------
// Times and folders
// ---------------------------------------------------------------------------

/// A time is told in whole minutes and seconds that add up to its whole seconds;
/// under a minute in seconds alone.
pub proof fn law_times_add_up(nanos: u128, minutes: nat, rest: nat)
    requires
        rest < 60,
        (minutes * 60 + rest) * 1_000_000_000 <= nanos < (minutes * 60 + rest + 1) * 1_000_000_000,
    ensures
        seconds(nanos) == minutes * 60 + rest,
        duration_text(nanos) == (if minutes == 0 {
            decimal(rest) + seq!['s']
        } else {
            decimal(minutes) + seq!['m', ' '] + decimal(rest) + seq!['s']
        }),
        LEASE_DURATION == 5 * 60 * 1_000_000_000,
{
    reveal_strlit("s");
    reveal_strlit("m ");
    assert("s"@ =~= seq!['s']);
    assert("m "@ =~= seq!['m', ' ']);
    let secs = minutes * 60 + rest;
    assert(nanos as int / 1_000_000_000 == secs);
    assert(secs / 60 == minutes && secs % 60 == rest);
}

/// The folder that a written file needs is the one that holds it, and none for a
/// file that stands alone.
pub proof fn law_file_needs_its_folder(dir: Seq<char>, name: Seq<char>)
    requires
        is_plain_name(name),
    ensures
        ends_with_name(dir) ==> needed_folder(dir + seq!['/'] + name) == Some(
            dir,
        ),
        needed_folder(name) is None,
        needed_folder(seq!['/'] + name) == Some(seq!['/']),
{
    law_parent_of_child(dir, name);
}

/// The summary of a legal project tells the rules that were loaded: the limit, or
/// null without one, whether cycles are forbidden, and how many imports are.
pub proof fn law_summary_tells_the_rules(
    files: Seq<ScannedView>,
    graph: GraphView,
    rules: RulesView,
    warnings: nat,
    baseline_active: bool,
)
    ensures
        ({
            let summary = legal_summary(files, graph, rules, warnings, baseline_active)->Object_0;
            let told = summary["rules_loaded"@]->Object_0;
            &&& told["max_file_lines"@] == (match rules.max_file_lines {
                Some(n) => JsonNode::Integer(n as int),
                None => JsonNode::Null,
            })
            &&& told["no_cycles"@] == JsonNode::Bool(rules.no_cycles)
            &&& told["forbidden_imports"@] == JsonNode::Integer(
                rules.forbidden_imports.len() as int,
            )
            &&& told["default_severity"@] == JsonNode::Text(
                if rules.default_severity == Severity::Error {
                    "error"@
                } else {
                    "warning"@
                },
            )
        }),
{
    lemma_summary_keys();
    reveal_strlit("max_file_lines");
    reveal_strlit("no_cycles");
    reveal_strlit("forbidden_imports");
    reveal_strlit("default_severity");
    assert("max_file_lines"@.len() == 14 && "no_cycles"@.len() == 9 && "forbidden_imports"@.len()
        == 17 && "default_severity"@.len() == 16);
}

/// The summary after a rule was edited gives the numbers of files and edges and
/// names each violation.
pub proof fn law_short_summary_names_every_violation(
    files: nat,
    edges: nat,
    violations: Seq<ViolationView>,
    i: int,
)
    requires
        0 <= i < violations.len(),
    ensures
        has_text(
            scan_summary_text(files, edges, violations),
            violations[i].rule + " — "@ + violations[i].message,
        ),
        has_text(scan_summary_text(files, edges, violations), decimal(files) + " files, "@),
{
    let lines = joined(numbered_lines(violations, "  ["@, "] "@, " — "@), "\n"@);
    lemma_lines_have(violations, "  ["@, "] "@, " — "@, i);
    let top = "Scanned "@ + decimal(files) + " files, "@ + decimal(edges) + " graph edges.\n"@;
    let head = "\nWARNING: project currently has "@ + counted(
        violations.len(),
        " violation"@,
    ) + " of the rule set:\n"@;
    let text = violations[i].rule + " — "@ + violations[i].message;
    lemma_text_around(head, lines, "\n"@, text);
    let below = head + lines + "\n"@;
    lemma_text_around(top, below, Seq::empty(), text);
    lemma_no_more(top + below);
    assert(scan_summary_text(files, edges, violations) == top + below);
    lemma_first_lines(
        "Scanned "@,
        decimal(files),
        " files, "@,
        decimal(edges),
        " graph edges.\n"@,
        below,
    );
}

proof fn lemma_no_more(s: Seq<char>)
    ensures
        s + Seq::<char>::empty() == s,
{
    assert(s + Seq::<char>::empty() =~= s);
}

proof fn lemma_first_lines(
    a: Seq<char>,
    b: Seq<char>,
    c: Seq<char>,
    d: Seq<char>,
    e: Seq<char>,
    f: Seq<char>,
)
    ensures
        has_text(a + b + c + d + e + f, b + c),
{
    lemma_text_within(a, b + c, d + e + f);
    assert(a + (b + c) + (d + e + f) =~= a + b + c + d + e + f);
}

/// A write under the bypass goes through whatever it breaks, but what it breaks
/// is told: the status is illegal exactly where there is a violation, and lists
/// each of them, and the user is told how many there are.
pub proof fn law_bypassed_writes_are_told(
    change: ChangeView,
    path: Seq<char>,
    e: EvaluationView,
    was_illegal: bool,
    i: int,
)
    requires
        change.language != Language::Unknown,
    ensures
        ({
            let outcome = apply_outcome(change, Ok(path), Some(e), true, was_illegal);
            &&& outcome.write matches Some(w) && w.path == path && w.content == change.new_content
            &&& outcome.status matches Some(s) && (s.state == State::Illegal
                <==> e.violations.len() > 0) && (s.state == State::Legal <==> e.violations.len()
                == 0) && s.violations.len() == e.violations.len() && (0 <= i < e.violations.len()
                ==> s.violations[i] == (e.violations[i].rule, e.violations[i].message))
            &&& outcome.toast == Some(bypass_active_toast(path, e.violations.len()))
        }),
{
}

/// A write that is refused is told to the user with the number of violations, and
/// the reply names each of them; a check says the same without touching anything.
/// A clean write is followed by a legal status.
pub proof fn law_refused_writes_are_told(
    change: ChangeView,
    path: Seq<char>,
    e: EvaluationView,
    rules: RulesView,
    was_illegal: bool,
)
    requires
        change.language != Language::Unknown,
    ensures
        e.violations.len() > 0 ==> {
            let outcome = apply_outcome(change, Ok(path), Some(e), false, was_illegal);
            &&& outcome.toast == Some(write_blocked_toast(change.target, e.violations.len()))
            &&& outcome.toast == check_outcome(change, Ok(path), Some(e), rules).toast
            &&& outcome.reply == refused_text(change.target, e.violations)
        },
        e.violations.len() == 0 ==> {
            let outcome = apply_outcome(change, Ok(path), Some(e), false, was_illegal);
            &&& outcome.status matches Some(s) && s.state == State::Legal && s.violations.len() == 0
            &&& outcome.toast is Some <==> was_illegal
            &&& check_outcome(change, Ok(path), Some(e), rules).toast is None
        },
{
}

} // verus!
