//! What a proposed file edit would do to the project.
//!
//! An edit is evaluated on the project as it would be after the edit. Of the
//! violations found there, those block the edit that are errors, are not frozen
//! by the baseline, and either are new or speak of the edited file.
use vstd::hash_set::StringHashSet;
use vstd::prelude::*;

use crate::disk::{DiskSnapshot, DiskView};
use crate::graph::{
    agree, built, cycle_paths, cycles_hold, edge_paths, import_count,
    law_build_looks_at_probes_only, lemma_agree_parts, lemma_import_count, probed,
    DependencyGraph, GraphView,
};
use crate::paths::{components_below, is_same_path, same_path};
use crate::rules::baseline::{
    is_frozen, is_new, law_split_loses_nothing, share, split_against_baseline, Baseline,
    BaselineView,
};
use crate::rules::config::{effective_limit, RulesFileView};
use crate::rules::validator::{
    all_violations, crosses, cycle_violations, forbidden_violation, is_line_cause,
    law_every_violation_has_a_cause, law_forbidden_dependencies_are_flagged,
    law_long_files_are_flagged, law_severity_is_uniform, line_violation, lines_message,
    validate_with_overrides,
};
use crate::rules::{violations_view, RuleViolation, RulesFile, Severity, ViolationView};
use crate::scanner::import_laws::reads_statements;
use crate::scanner::import_parser::{source_imports, unready_language, ImportParser, ParserError};
use crate::scanner::{files_view, Language, ScannedFile, ScannedView};
use crate::text::{
    contains, decimal, has_text, joined, line_count, line_total, matches_at, views,
};

verus! {

// ---------------------------------------------------------------------------
// The project before and after
// ---------------------------------------------------------------------------

/// Whether the files fit into a dependency graph, which tells nodes and edges
/// apart by 32 bits.
pub open spec fn graph_fits(files: Seq<ScannedView>) -> bool {
    files.len() <= u32::MAX && import_count(files, files.len() as int) <= u32::MAX
}

/// A graph without files.
pub open spec fn empty_graph(root: Seq<char>) -> GraphView {
    GraphView { nodes: Seq::empty(), edges: Seq::empty(), root }
}

/// The violations of a project that consists of the files.
pub open spec fn project_violations(
    root: Seq<char>,
    files: Seq<ScannedView>,
    disk: DiskView,
    config: RulesFileView,
) -> Seq<ViolationView> {
    all_violations(files, built(empty_graph(root), files, disk), config, Some(root))
}

/// What a file is after an edit.
pub open spec fn edited(target: Seq<char>, content: Seq<char>, language: Language) -> ScannedView {
    ScannedView {
        path: target,
        language,
        imports: source_imports(content, language),
        exports: Seq::empty(),
        line_count: line_total(content) as usize,
    }
}

/// The position of the first file from `from` on with the path.
pub open spec fn file_at(files: Seq<ScannedView>, path: Seq<char>, from: int) -> Option<int>
    decreases files.len() - from,
{
    if from >= files.len() {
        None
    } else if same_path(files[from].path, path) {
        Some(from)
    } else {
        file_at(files, path, from + 1)
    }
}

/// The files of a project after one of them was edited or added.
pub open spec fn patched(files: Seq<ScannedView>, file: ScannedView) -> Seq<ScannedView> {
    match file_at(files, file.path, 0) {
        Some(i) => files.update(i, file),
        None => files.push(file),
    }
}

// ---------------------------------------------------------------------------
// What blocks an edit
// ---------------------------------------------------------------------------

/// Whether one of the violations has the fingerprint.
pub open spec fn is_known(violations: Seq<ViolationView>, fingerprint: Seq<char>) -> bool {
    exists|i: int|
        0 <= i < violations.len() && (#[trigger] violations[i]).fingerprint() == fingerprint
}

/// Whether a violation blocks an edit of `target`: it is an error, and it was
/// not there before the edit or it speaks of the target.
pub open spec fn blocks(before: Seq<ViolationView>, target: Seq<char>, v: ViolationView) -> bool {
    v.is_error() && (!is_known(before, v.fingerprint()) || has_text(v.message, target))
}

/// The violations that block an edit, or those that do not, in order.
pub open spec fn sifted(
    violations: Seq<ViolationView>,
    before: Seq<ViolationView>,
    target: Seq<char>,
    blocking: bool,
) -> Seq<ViolationView>
    decreases violations.len(),
{
    if violations.len() == 0 {
        Seq::empty()
    } else {
        let front = sifted(violations.drop_last(), before, target, blocking);
        if blocks(before, target, violations.last()) == blocking {
            front.push(violations.last())
        } else {
            front
        }
    }
}

/// The violations that block the edit.
pub open spec fn blocking_violations(
    after: Seq<ViolationView>,
    before: Seq<ViolationView>,
    baseline: Option<BaselineView>,
    target: Seq<char>,
) -> Seq<ViolationView> {
    sifted(share(after, baseline, true), before, target, true)
}

/// The violations that are reported and do not block: first those that the
/// baseline froze.
pub open spec fn reported_warnings(
    after: Seq<ViolationView>,
    before: Seq<ViolationView>,
    baseline: Option<BaselineView>,
    target: Seq<char>,
) -> Seq<ViolationView> {
    share(after, baseline, false) + sifted(share(after, baseline, true), before, target, false)
}

/// Output of the evaluation. Every consumer of it sees the same verdict.
///
/// `violations` are the *blocking* violations: new errors introduced (or
/// preserved by touching the target file) that should reject the write.
/// `warnings` are non-blocking violations.
#[derive(Debug)]
pub struct Evaluation {
    /// The file as it would be.
    pub synthetic: ScannedFile,
    /// What blocks the edit.
    pub violations: Vec<RuleViolation>,
    /// What does not block it.
    pub warnings: Vec<RuleViolation>,
}

/// What an [`Evaluation`] holds.
#[verifier::ext_equal]
pub struct EvaluationView {
    /// The file as it would be.
    pub synthetic: ScannedView,
    /// What blocks the edit.
    pub violations: Seq<ViolationView>,
    /// What does not block it.
    pub warnings: Seq<ViolationView>,
}

impl View for Evaluation {
    type V = EvaluationView;

    open spec fn view(&self) -> EvaluationView {
        EvaluationView {
            synthetic: self.synthetic@,
            violations: violations_view(self.violations@),
            warnings: violations_view(self.warnings@),
        }
    }
}

/// The verdict on an edit that makes the file `synthetic` of a file of the
/// project, or adds it.
pub open spec fn evaluation(
    root: Seq<char>,
    synthetic: ScannedView,
    files: Seq<ScannedView>,
    disk: DiskView,
    config: RulesFileView,
    baseline: Option<BaselineView>,
) -> EvaluationView {
    let after = project_violations(root, patched(files, synthetic), disk, config);
    let before = project_violations(root, files, disk, config);
    EvaluationView {
        synthetic,
        violations: blocking_violations(after, before, baseline, synthetic.path),
        warnings: reported_warnings(after, before, baseline, synthetic.path),
    }
}

// ---------------------------------------------------------------------------
// The functions
// ---------------------------------------------------------------------------

/// Whether the files fit into a dependency graph.
pub fn fits_graph(files: &[ScannedFile]) -> (r: bool)
    ensures
        r == graph_fits(files_view(files@)),
{
    let ghost all = files_view(files@);
    if files.len() as u64 > u32::MAX as u64 {
        return false;
    }
    let mut total: u64 = 0;
    let mut i: usize = 0;
    while i < files.len()
        invariant
            i <= files@.len(),
            all == files_view(files@),
            total == import_count(all, i as int),
            total <= u32::MAX,
        decreases files.len() - i,
    {
        assert(all[i as int] == files@[i as int]@);
        let n: u64 = files[i].imports.len() as u64;
        proof {
            lemma_import_count(all, i + 1, all.len() as int);
            assert(all[i as int].imports.len() == n);
        }
        if n > u32::MAX as u64 || total + n > u32::MAX as u64 {
            return false;
        }
        total += n;
        i += 1;
    }
    true
}

/// The violations of a project that consists of the files.
pub fn violations_of(
    root: &str,
    files: &[ScannedFile],
    disk: &DiskSnapshot,
    rules_file: &RulesFile,
) -> (out: Vec<RuleViolation>)
    requires
        graph_fits(files_view(files@)),
    ensures
        violations_view(out@) == project_violations(
            root@,
            files_view(files@),
            disk@,
            rules_file@,
        ),
        rules_file.rules.no_cycles ==> cycles_hold(
            built(empty_graph(root@), files_view(files@), disk@),
        ),
{
    let mut graph = DependencyGraph::new(root);
    assert(graph@ =~= empty_graph(root@));
    graph.build(files, disk);
    validate_with_overrides(files, &graph, rules_file, Some(root))
}

/// What a file is after an edit.
pub fn edited_file(target: &str, content: &str, language: Language) -> (r: Result<
    ScannedFile,
    ParserError,
>)
    ensures
        match r {
            Ok(f) => unready_language() is None && f@ == edited(target@, content@, language),
            Err(e) => unready_language() == Some(e.language),
        },
        r is Ok,
        r matches Ok(f) ==> reads_statements(content@, language, f@.imports),
{
    let parser = match ImportParser::new() {
        Ok(parser) => parser,
        Err(e) => return Err(e),
    };
    let imports = parser.parse(content, &language);
    let exports: Vec<String> = Vec::new();
    assert(views(exports@) =~= Seq::<Seq<char>>::empty());
    Ok(
        ScannedFile {
            path: target.to_owned(),
            language,
            imports,
            exports,
            line_count: line_count(content),
        },
    )
}

/// The files of a project after one of them was edited or added.
pub fn patch_files(files: &[ScannedFile], file: &ScannedFile) -> (out: Vec<ScannedFile>)
    ensures
        files_view(out@) == patched(files_view(files@), file@),
{
    let ghost all = files_view(files@);
    let ghost path = file@.path;
    let mut out: Vec<ScannedFile> = Vec::new();
    let mut at: Option<usize> = None;
    let mut i: usize = 0;
    assert(files_view(out@) =~= all.subrange(0, 0));
    while i < files.len()
        invariant
            i <= files@.len(),
            all == files_view(files@),
            path == file@.path,
            match at {
                Some(k) => k < i && file_at(all, path, 0) == Some(k as int) && files_view(out@)
                    == all.subrange(0, i as int).update(k as int, file@),
                None => file_at(all, path, 0) == file_at(all, path, i as int) && files_view(out@)
                    == all.subrange(0, i as int),
            },
        decreases files.len() - i,
    {
        let ghost before = files_view(out@);
        assert(all[i as int] == files@[i as int]@);
        if at.is_none() && is_same_path(&files[i].path, &file.path) {
            out.push(file.clone());
            at = Some(i);
            assert(files_view(out@) =~= before.push(file@));
            assert(files_view(out@) =~= all.subrange(0, i + 1).update(i as int, file@));
        } else {
            out.push(files[i].clone());
            assert(files_view(out@) =~= before.push(all[i as int]));
            proof {
                match at {
                    Some(k) => {
                        assert(files_view(out@) =~= all.subrange(0, i + 1).update(
                            k as int,
                            file@,
                        ));
                    },
                    None => {
                        assert(files_view(out@) =~= all.subrange(0, i + 1));
                    },
                }
            }
        }
        i += 1;
    }
    assert(all.subrange(0, all.len() as int) =~= all);
    if at.is_none() {
        let ghost before = files_view(out@);
        out.push(file.clone());
        assert(files_view(out@) =~= before.push(file@));
    }
    out
}

/// The paths that the evaluation of an edit needs to know of: those that the
/// imports of the files can name, before the edit and after it.
pub fn evaluation_probes(root: &str, synthetic: &ScannedFile, files: &[ScannedFile]) -> (out: Vec<
    String,
>)
    ensures
        views(out@) == probed(
            root@,
            patched(files_view(files@), synthetic@),
            patched(files_view(files@), synthetic@).len() as int,
        ) + probed(root@, files_view(files@), files@.len() as int),
{
    let graph = DependencyGraph::new(root);
    let after = patch_files(files, synthetic);
    assert(files_view(after@).len() == after@.len());
    let mut out = graph.probes(&after);
    let more = graph.probes(files);
    let ghost first = views(out@);
    let ghost second = views(more@);
    let mut i: usize = 0;
    assert(views(out@) =~= first + second.subrange(0, 0));
    while i < more.len()
        invariant
            i <= more@.len(),
            second == views(more@),
            views(out@) == first + second.subrange(0, i as int),
        decreases more.len() - i,
    {
        let ghost before = views(out@);
        out.push(more[i].clone());
        assert(views(out@) =~= before.push(second[i as int]));
        assert(views(out@) =~= first + second.subrange(0, i + 1));
        i += 1;
    }
    assert(second.subrange(0, second.len() as int) =~= second);
    out
}

fn known_fingerprints(violations: &Vec<RuleViolation>) -> (set: StringHashSet)
    ensures
        forall|f: Seq<char>| #[trigger]
            set@.contains(f) <==> is_known(violations_view(violations@), f),
{
    let ghost all = violations_view(violations@);
    let mut set = StringHashSet::new();
    let mut i: usize = 0;
    while i < violations.len()
        invariant
            i <= violations@.len(),
            all == violations_view(violations@),
            forall|f: Seq<char>| #[trigger]
                set@.contains(f) <==> exists|k: int|
                    0 <= k < i && (#[trigger] all[k]).fingerprint() == f,
        decreases violations.len() - i,
    {
        let ghost before = set@;
        let text = violations[i].fingerprint();
        let ghost added = text@;
        set.insert(text);
        proof {
            assert(all[i as int] == violations@[i as int]@);
            assert forall|f: Seq<char>| #[trigger]
                set@.contains(f) <==> exists|k: int|
                    0 <= k < i + 1 && (#[trigger] all[k]).fingerprint() == f by {
                if set@.contains(f) && f != added {
                    assert(before.contains(f));
                }
                if exists|k: int| 0 <= k < i + 1 && (#[trigger] all[k]).fingerprint() == f {
                    let k = choose|k: int|
                        0 <= k < i + 1 && (#[trigger] all[k]).fingerprint() == f;
                    if k < i {
                        assert(before.contains(f));
                    }
                }
            }
        }
        i += 1;
    }
    set
}

/// Sorts the violations after an edit into those that block it and those that
/// do not.
pub fn sort_violations(
    after: Vec<RuleViolation>,
    before: &Vec<RuleViolation>,
    baseline: Option<&Baseline>,
    target: &str,
) -> (r: (Vec<RuleViolation>, Vec<RuleViolation>))
    ensures
        violations_view(r.0@) == blocking_violations(
            violations_view(after@),
            violations_view(before@),
            match baseline {
                Some(b) => Some(b@),
                None => None,
            },
            target@,
        ),
        violations_view(r.1@) == reported_warnings(
            violations_view(after@),
            violations_view(before@),
            match baseline {
                Some(b) => Some(b@),
                None => None,
            },
            target@,
        ),
{
    let ghost held = match baseline {
        Some(b) => Some(b@),
        None => None,
    };
    let ghost old_view = violations_view(before@);
    let ghost all_after = violations_view(after@);
    let (fresh, mut warnings) = split_against_baseline(after, baseline);
    let known = known_fingerprints(before);
    let ghost all = violations_view(fresh@);
    let ghost frozen = violations_view(warnings@);
    let mut violations: Vec<RuleViolation> = Vec::new();
    let mut i: usize = 0;
    assert(all.subrange(0, 0) =~= Seq::<ViolationView>::empty());
    assert(violations_view(violations@) =~= Seq::<ViolationView>::empty());
    assert(frozen =~= frozen + Seq::<ViolationView>::empty());
    while i < fresh.len()
        invariant
            i <= fresh@.len(),
            all == violations_view(fresh@),
            old_view == violations_view(before@),
            forall|f: Seq<char>| #[trigger] known@.contains(f) <==> is_known(old_view, f),
            violations_view(violations@) == sifted(
                all.subrange(0, i as int),
                old_view,
                target@,
                true,
            ),
            violations_view(warnings@) == frozen + sifted(
                all.subrange(0, i as int),
                old_view,
                target@,
                false,
            ),
        decreases fresh.len() - i,
    {
        let v = fresh[i].clone();
        let ghost next = all.subrange(0, i + 1);
        let ghost blocked = violations_view(violations@);
        let ghost warned = violations_view(warnings@);
        assert(next.drop_last() =~= all.subrange(0, i as int));
        assert(next.last() == v@);
        if v.severity == Severity::Error && (!known.contains(&v.fingerprint()) || contains(
            &v.message,
            target,
        )) {
            violations.push(v);
            assert(violations_view(violations@) =~= blocked.push(next.last()));
        } else {
            warnings.push(v);
            assert(violations_view(warnings@) =~= warned.push(next.last()));
            assert(warned.push(next.last()) =~= frozen + sifted(
                next,
                old_view,
                target@,
                false,
            ));
        }
        i += 1;
    }
    assert(all.subrange(0, all.len() as int) =~= all);
    (violations, warnings)
}

/// The verdict on an edit that makes the file `synthetic` of a file of the
/// project, or adds it.
pub fn evaluate_edit(
    root: &str,
    synthetic: ScannedFile,
    files: &[ScannedFile],
    disk: &DiskSnapshot,
    rules_file: &RulesFile,
    baseline: Option<&Baseline>,
) -> (e: Evaluation)
    requires
        graph_fits(files_view(files@)),
        graph_fits(patched(files_view(files@), synthetic@)),
    ensures
        e@ == evaluation(
            root@,
            synthetic@,
            files_view(files@),
            disk@,
            rules_file@,
            match baseline {
                Some(b) => Some(b@),
                None => None,
            },
        ),
        rules_file.rules.no_cycles ==> cycles_hold(
            built(empty_graph(root@), files_view(files@), disk@),
        ) && cycles_hold(
            built(empty_graph(root@), patched(files_view(files@), synthetic@), disk@),
        ),
{
    let after_files = patch_files(files, &synthetic);
    let after = violations_of(root, &after_files, disk, rules_file);
    let before = violations_of(root, files, disk, rules_file);
    let (violations, warnings) = sort_violations(after, &before, baseline, &synthetic.path);
    Evaluation { synthetic, violations, warnings }
}

/// The verdict on a new content of a file. `Ok(None)` where the project is too
/// large for a dependency graph.
pub fn evaluate_content(
    root: &str,
    target: &str,
    new_content: &str,
    language: Language,
    files: &[ScannedFile],
    disk: &DiskSnapshot,
    rules_file: &RulesFile,
    baseline: Option<&Baseline>,
) -> (r: Result<Option<Evaluation>, ParserError>)
    ensures
        match r {
            Ok(e) => {
                let synthetic = edited(target@, new_content@, language);
                let all = files_view(files@);
                &&& unready_language() is None
                &&& e is Some <==> graph_fits(all) && graph_fits(patched(all, synthetic))
                &&& e matches Some(e) ==> e@ == evaluation(
                    root@,
                    synthetic,
                    all,
                    disk@,
                    rules_file@,
                    match baseline {
                        Some(b) => Some(b@),
                        None => None,
                    },
                )
                &&& e is Some && rules_file.rules.no_cycles ==> cycles_hold(
                    built(empty_graph(root@), all, disk@),
                ) && cycles_hold(built(empty_graph(root@), patched(all, synthetic), disk@))
            },
            Err(e) => unready_language() == Some(e.language),
        },
        r is Ok,
        r matches Ok(Some(e)) ==> reads_statements(new_content@, language, e@.synthetic.imports),
{
    let synthetic = match edited_file(target, new_content, language) {
        Ok(f) => f,
        Err(e) => return Err(e),
    };
    if !fits_graph(files) || !fits_graph(&patch_files(files, &synthetic)) {
        return Ok(None);
    }
    Ok(Some(evaluate_edit(root, synthetic, files, disk, rules_file, baseline)))
}

// ---------------------------------------------------------------------------
// Laws
// ---------------------------------------------------------------------------

proof fn lemma_sifted(
    violations: Seq<ViolationView>,
    before: Seq<ViolationView>,
    target: Seq<char>,
)
    ensures
        forall|i: int|
            0 <= i < violations.len() ==> sifted(
                violations,
                before,
                target,
                blocks(before, target, #[trigger] violations[i]),
            ).contains(violations[i]),
        forall|blocking: bool, i: int|
            0 <= i < sifted(violations, before, target, blocking).len() ==> violations.contains(
                #[trigger] sifted(violations, before, target, blocking)[i],
            ) && blocks(before, target, sifted(violations, before, target, blocking)[i])
                == blocking,
        sifted(violations, before, target, true).len() + sifted(
            violations,
            before,
            target,
            false,
        ).len() == violations.len(),
    decreases violations.len(),
{
    if violations.len() > 0 {
        let front = violations.drop_last();
        lemma_sifted(front, before, target);
        assert forall|i: int| 0 <= i < violations.len() implies sifted(
            violations,
            before,
            target,
            blocks(before, target, #[trigger] violations[i]),
        ).contains(violations[i]) by {
            let b = blocks(before, target, violations[i]);
            let part = sifted(front, before, target, b);
            let all = sifted(violations, before, target, b);
            if i < front.len() {
                assert(front[i] == violations[i]);
                let k = choose|k: int| 0 <= k < part.len() && part[k] == front[i];
                assert(all[k] == violations[i]);
            } else {
                assert(all[all.len() - 1] == violations[i]);
            }
        }
        assert forall|blocking: bool, i: int|
            0 <= i < sifted(violations, before, target, blocking).len() implies violations.contains(
            #[trigger] sifted(violations, before, target, blocking)[i],
        ) && blocks(before, target, sifted(violations, before, target, blocking)[i])
            == blocking by {
            let part = sifted(front, before, target, blocking);
            let all = sifted(violations, before, target, blocking);
            if i < part.len() {
                assert(all[i] == part[i]);
                assert(front.contains(part[i]));
                let k = choose|k: int| 0 <= k < front.len() && front[k] == part[i];
                assert(violations[k] == all[i]);
            } else {
                assert(violations[violations.len() - 1] == all[i]);
            }
        }
    }
}

/// What blocks an edit: exactly the errors of the edited project that the
/// baseline did not freeze and that are new or speak of the target. Every
/// other violation is reported, and none is lost.
pub proof fn law_only_unfrozen_errors_block(
    after: Seq<ViolationView>,
    before: Seq<ViolationView>,
    baseline: Option<BaselineView>,
    target: Seq<char>,
)
    ensures
        forall|v: ViolationView| #[trigger]
            blocking_violations(after, before, baseline, target).contains(v) <==> after.contains(v)
                && is_new(baseline, v) && blocks(before, target, v),
        blocking_violations(after, before, baseline, target).len() + reported_warnings(
            after,
            before,
            baseline,
            target,
        ).len() == after.len(),
{
    law_split_loses_nothing(after, baseline);
    let fresh = share(after, baseline, true);
    lemma_sifted(fresh, before, target);
    let blocking = blocking_violations(after, before, baseline, target);
    assert forall|v: ViolationView| #[trigger] blocking.contains(v) <==> after.contains(v)
        && is_new(baseline, v) && blocks(before, target, v) by {
        if blocking.contains(v) {
            let i = choose|i: int| 0 <= i < blocking.len() && blocking[i] == v;
            assert(fresh.contains(sifted(fresh, before, target, true)[i]));
            let k = choose|k: int| 0 <= k < fresh.len() && fresh[k] == v;
            assert(after.contains(share(after, baseline, true)[k]));
        }
        if after.contains(v) && is_new(baseline, v) && blocks(before, target, v) {
            let i = choose|i: int| 0 <= i < after.len() && after[i] == v;
            assert(share(after, baseline, is_new(baseline, after[i])).contains(after[i]));
            let k = choose|k: int| 0 <= k < fresh.len() && fresh[k] == v;
            assert(sifted(fresh, before, target, blocks(before, target, fresh[k])).contains(
                fresh[k],
            ));
        }
    }
}

/// Rules whose severity is a warning block no edit.
pub proof fn law_warnings_never_block(
    root: Seq<char>,
    synthetic: ScannedView,
    files: Seq<ScannedView>,
    disk: DiskView,
    config: RulesFileView,
    baseline: Option<BaselineView>,
)
    requires
        config.rules.default_severity == Severity::Warning,
    ensures
        evaluation(root, synthetic, files, disk, config, baseline).violations == Seq::<
            ViolationView,
        >::empty(),
{
    let now = patched(files, synthetic);
    let after = project_violations(root, now, disk, config);
    let before = project_violations(root, files, disk, config);
    law_severity_is_uniform(now, built(empty_graph(root), now, disk), config, Some(root));
    law_only_unfrozen_errors_block(after, before, baseline, synthetic.path);
    let blocking = blocking_violations(after, before, baseline, synthetic.path);
    if blocking.len() > 0 {
        assert(blocking.contains(blocking[0]));
        let i = choose|i: int| 0 <= i < after.len() && after[i] == blocking[0];
        assert(after[i].severity == Severity::Warning);
    }
    assert(blocking =~= Seq::<ViolationView>::empty());
}

/// An edit that leaves the violations as they were is not blocked by those that
/// do not speak of the edited file: unrelated pre-existing violations stop no
/// one.
pub proof fn law_old_violations_elsewhere_do_not_block(
    after: Seq<ViolationView>,
    before: Seq<ViolationView>,
    baseline: Option<BaselineView>,
    target: Seq<char>,
)
    requires
        forall|i: int|
            0 <= i < after.len() ==> before.contains(#[trigger] after[i]) && !has_text(
                after[i].message,
                target,
            ),
    ensures
        blocking_violations(after, before, baseline, target) == Seq::<ViolationView>::empty(),
{
    law_only_unfrozen_errors_block(after, before, baseline, target);
    let blocking = blocking_violations(after, before, baseline, target);
    if blocking.len() > 0 {
        assert(blocking.contains(blocking[0]));
        let i = choose|i: int| 0 <= i < after.len() && after[i] == blocking[0];
        let k = choose|k: int| 0 <= k < before.len() && before[k] == after[i];
        assert(before[k].fingerprint() == blocking[0].fingerprint());
    }
    assert(blocking =~= Seq::<ViolationView>::empty());
}

/// What a baseline froze blocks no edit, not even of the offending file.
pub proof fn law_frozen_violations_do_not_block(
    after: Seq<ViolationView>,
    before: Seq<ViolationView>,
    baseline: BaselineView,
    target: Seq<char>,
    v: ViolationView,
)
    requires
        is_frozen(baseline, v.fingerprint()),
    ensures
        !blocking_violations(after, before, Some(baseline), target).contains(v),
{
    law_only_unfrozen_errors_block(after, before, Some(baseline), target);
}

proof fn lemma_starts_with_text(s: Seq<char>, rest: Seq<char>)
    ensures
        has_text(s + rest, s),
{
    assert((s + rest).subrange(0, s.len() as int) =~= s);
    assert(matches_at(s + rest, s, 0));
}

/// An unfrozen error of the edited project that speaks of the edited file
/// blocks the edit.
proof fn lemma_error_on_target_blocks(
    root: Seq<char>,
    synthetic: ScannedView,
    files: Seq<ScannedView>,
    disk: DiskView,
    config: RulesFileView,
    baseline: Option<BaselineView>,
    v: ViolationView,
)
    requires
        project_violations(root, patched(files, synthetic), disk, config).contains(v),
        v.is_error(),
        is_new(baseline, v),
        has_text(v.message, synthetic.path),
    ensures
        evaluation(root, synthetic, files, disk, config, baseline).violations.contains(v),
{
    law_only_unfrozen_errors_block(
        project_violations(root, patched(files, synthetic), disk, config),
        project_violations(root, files, disk, config),
        baseline,
        synthetic.path,
    );
}

proof fn lemma_file_at_is_an_index(files: Seq<ScannedView>, path: Seq<char>, from: int)
    ensures
        file_at(files, path, from) matches Some(i) ==> from <= i < files.len(),
    decreases files.len() - from,
{
    if from < files.len() && !same_path(files[from].path, path) {
        lemma_file_at_is_an_index(files, path, from + 1);
    }
}

/// An edit that leaves the edited file longer than the limit that holds for it
/// is blocked, unless the baseline froze just that.
pub proof fn law_overlong_edit_is_blocked(
    root: Seq<char>,
    synthetic: ScannedView,
    files: Seq<ScannedView>,
    disk: DiskView,
    config: RulesFileView,
    baseline: Option<BaselineView>,
    limit: usize,
)
    requires
        config.rules.default_severity == Severity::Error,
        effective_limit(config, components_below(synthetic.path, Some(root))) == Some(limit),
        synthetic.line_count > limit,
        is_new(
            baseline,
            ViolationView {
                rule: "max_file_lines"@,
                message: lines_message(synthetic.path, synthetic.line_count, limit),
                severity: Severity::Error,
            },
        ),
    ensures
        evaluation(root, synthetic, files, disk, config, baseline).violations.contains(
            ViolationView {
                rule: "max_file_lines"@,
                message: lines_message(synthetic.path, synthetic.line_count, limit),
                severity: Severity::Error,
            },
        ),
{
    let now = patched(files, synthetic);
    lemma_file_at_is_an_index(files, synthetic.path, 0);
    let at = match file_at(files, synthetic.path, 0) {
        Some(i) => i,
        None => files.len() as int,
    };
    assert(now[at] == synthetic);
    law_long_files_are_flagged(now, built(empty_graph(root), now, disk), config, Some(root), at);
    let message = lines_message(synthetic.path, synthetic.line_count, limit);
    let v = ViolationView { rule: "max_file_lines"@, message, severity: Severity::Error };
    let rest = " has "@ + decimal(synthetic.line_count as nat) + " lines, exceeds limit of "@
        + decimal(limit as nat);
    assert(message =~= synthetic.path + rest);
    lemma_starts_with_text(synthetic.path, rest);
    lemma_error_on_target_blocks(root, synthetic, files, disk, config, baseline, v);
}

/// An edit after which the edited file imports across a forbidden boundary is
/// blocked, unless the baseline froze just that.
pub proof fn law_forbidden_edit_is_blocked(
    root: Seq<char>,
    synthetic: ScannedView,
    files: Seq<ScannedView>,
    disk: DiskView,
    config: RulesFileView,
    baseline: Option<BaselineView>,
    edge: int,
    rule: int,
)
    requires
        ({
            let graph = built(empty_graph(root), patched(files, synthetic), disk);
            &&& config.rules.default_severity == Severity::Error
            &&& 0 <= edge < graph.edges.len()
            &&& 0 <= rule < config.rules.forbidden_imports.len()
            &&& edge_paths(graph)[edge].0 == synthetic.path
            &&& crosses(edge_paths(graph)[edge], config.rules.forbidden_imports[rule])
            &&& is_new(
                baseline,
                forbidden_violation(
                    edge_paths(graph)[edge],
                    config.rules.forbidden_imports[rule],
                    Severity::Error,
                ),
            )
        }),
    ensures
        evaluation(root, synthetic, files, disk, config, baseline).violations.contains(
            forbidden_violation(
                edge_paths(built(empty_graph(root), patched(files, synthetic), disk))[edge],
                config.rules.forbidden_imports[rule],
                Severity::Error,
            ),
        ),
{
    let now = patched(files, synthetic);
    let graph = built(empty_graph(root), now, disk);
    let pair = edge_paths(graph)[edge];
    let sides = config.rules.forbidden_imports[rule];
    law_forbidden_dependencies_are_flagged(now, graph, config, Some(root), edge, rule);
    let v = forbidden_violation(pair, sides, Severity::Error);
    let rest = " (in '"@ + sides.0 + "') imports "@ + pair.1 + " (in '"@ + sides.1
        + "'), which is forbidden by rule '"@ + sides.0 + " -> "@ + sides.1 + "'"@;
    assert(v.message =~= synthetic.path + rest);
    lemma_starts_with_text(synthetic.path, rest);
    lemma_error_on_target_blocks(root, synthetic, files, disk, config, baseline, v);
}

/// The name of the rule is part of the identity of a violation: a circle has
/// never the fingerprint of a violation of another rule.
proof fn lemma_cycles_are_told_apart(
    files: Seq<ScannedView>,
    graph: GraphView,
    config: RulesFileView,
    root: Option<Seq<char>>,
    v: ViolationView,
)
    requires
        cycle_paths(graph).len() == 0,
        v.rule == "no_cycles"@,
    ensures
        !is_known(all_violations(files, graph, config, root), v.fingerprint()),
{
    reveal_strlit("no_cycles");
    reveal_strlit("max_file_lines");
    reveal_strlit("forbidden_imports");
    let all = all_violations(files, graph, config, root);
    if is_known(all, v.fingerprint()) {
        let i = choose|i: int|
            0 <= i < all.len() && (#[trigger] all[i]).fingerprint() == v.fingerprint();
        assert(all.contains(all[i]));
        law_every_violation_has_a_cause(files, graph, config, root, all[i]);
        assert(v.fingerprint()[0] == 'n');
        assert(all[i].rule == "max_file_lines"@ || all[i].rule == "forbidden_imports"@) by {
            if exists|k: int|
                0 <= k < files.len() && is_line_cause(all[i], #[trigger] files[k], config, root) {
                let k = choose|k: int|
                    0 <= k < files.len() && is_line_cause(all[i], #[trigger] files[k], config, root);
                let severity = config.rules.default_severity;
                assert(line_violation(files[k], config, root, severity)[0] == all[i]);
            }
            let c = cycle_violations(cycle_paths(graph), config.rules.default_severity);
            assert(c.len() == 0);
        }
        assert(all[i].fingerprint()[0] == all[i].rule[0]);
    }
}

/// An edit that brings files to depend on each other in a circle, where none
/// did before, is blocked, unless the baseline froze just that circle.
pub proof fn law_new_cycle_is_blocked(
    root: Seq<char>,
    synthetic: ScannedView,
    files: Seq<ScannedView>,
    disk: DiskView,
    config: RulesFileView,
    baseline: Option<BaselineView>,
    cycle: int,
)
    requires
        ({
            let graph = built(empty_graph(root), patched(files, synthetic), disk);
            &&& config.rules.default_severity == Severity::Error
            &&& config.rules.no_cycles
            &&& cycle_paths(built(empty_graph(root), files, disk)).len() == 0
            &&& 0 <= cycle < cycle_paths(graph).len()
            &&& is_new(baseline, cycle_violations(cycle_paths(graph), Severity::Error)[cycle])
        }),
    ensures
        evaluation(root, synthetic, files, disk, config, baseline).violations.contains(
            cycle_violations(
                cycle_paths(built(empty_graph(root), patched(files, synthetic), disk)),
                Severity::Error,
            )[cycle],
        ),
{
    let now = patched(files, synthetic);
    let graph = built(empty_graph(root), now, disk);
    let old_graph = built(empty_graph(root), files, disk);
    let after = project_violations(root, now, disk, config);
    let before = project_violations(root, files, disk, config);
    let c = cycle_violations(cycle_paths(graph), Severity::Error);
    let v = c[cycle];
    assert(after[after.len() - c.len() + cycle] == v);
    assert(after.contains(v));
    lemma_cycles_are_told_apart(files, old_graph, config, Some(root), v);
    law_only_unfrozen_errors_block(after, before, baseline, synthetic.path);
}

/// A text that is joined with others is in what comes out.
pub proof fn lemma_joined_has(parts: Seq<Seq<char>>, sep: Seq<char>, i: int)
    requires
        0 <= i < parts.len(),
    ensures
        has_text(joined(parts, sep), parts[i]),
    decreases parts.len(),
{
    let all = joined(parts, sep);
    if parts.len() == 1 {
        lemma_text_within(Seq::empty(), parts[0], Seq::empty());
        assert(Seq::empty() + parts[0] + Seq::empty() =~= all);
    } else {
        let front = parts.subrange(0, parts.len() - 1);
        let last = parts[parts.len() - 1];
        let before = joined(front, sep);
        if i == parts.len() - 1 {
            lemma_text_within(before + sep, last, Seq::empty());
            assert(before + sep + last + Seq::empty() =~= all);
        } else {
            lemma_joined_has(front, sep, i);
            let at = choose|at: int| #[trigger] matches_at(before, front[i], at);
            assert(all.subrange(at, at + front[i].len()) =~= before.subrange(
                at,
                at + front[i].len(),
            ));
            assert(matches_at(all, parts[i], at));
        }
    }
}

/// A text is in one that it stands in the middle of.
pub proof fn lemma_text_within(before: Seq<char>, s: Seq<char>, after: Seq<char>)
    ensures
        has_text(before + s + after, s),
{
    let all = before + s + after;
    assert(all.subrange(before.len() as int, (before.len() + s.len()) as int) =~= s);
    assert(matches_at(all, s, before.len() as int));
}

/// An edit after which the edited file is part of a circle is blocked, whatever
/// circles there were before, unless the baseline froze just that circle.
pub proof fn law_cycle_through_edit_is_blocked(
    root: Seq<char>,
    synthetic: ScannedView,
    files: Seq<ScannedView>,
    disk: DiskView,
    config: RulesFileView,
    baseline: Option<BaselineView>,
    cycle: int,
)
    requires
        ({
            let graph = built(empty_graph(root), patched(files, synthetic), disk);
            &&& config.rules.default_severity == Severity::Error
            &&& config.rules.no_cycles
            &&& 0 <= cycle < cycle_paths(graph).len()
            &&& cycle_paths(graph)[cycle].contains(synthetic.path)
            &&& is_new(baseline, cycle_violations(cycle_paths(graph), Severity::Error)[cycle])
        }),
    ensures
        evaluation(root, synthetic, files, disk, config, baseline).violations.contains(
            cycle_violations(
                cycle_paths(built(empty_graph(root), patched(files, synthetic), disk)),
                Severity::Error,
            )[cycle],
        ),
{
    let now = patched(files, synthetic);
    let graph = built(empty_graph(root), now, disk);
    let after = project_violations(root, now, disk, config);
    let c = cycle_violations(cycle_paths(graph), Severity::Error);
    let group = cycle_paths(graph)[cycle];
    let v = c[cycle];
    assert(after[after.len() - c.len() + cycle] == v);
    assert(after.contains(v));
    let i = choose|i: int| 0 <= i < group.len() && group[i] == synthetic.path;
    lemma_joined_has(group, " -> "@, i);
    let tail = joined(group, " -> "@);
    let head = "Circular dependency detected among "@ + decimal(group.len())
        + " files (starting at "@ + group[0] + "): "@;
    let at = choose|at: int| #[trigger] matches_at(tail, synthetic.path, at);
    assert(v.message =~= head + tail);
    assert(v.message.subrange(head.len() + at, head.len() + at + synthetic.path.len())
        =~= tail.subrange(at, at + synthetic.path.len()));
    assert(matches_at(v.message, synthetic.path, head.len() + at));
    lemma_error_on_target_blocks(root, synthetic, files, disk, config, baseline, v);
}

/// The verdict depends on no more of the disk than the paths that
/// [`evaluation_probes`] lists.
pub proof fn law_evaluation_looks_at_probes_only(
    root: Seq<char>,
    synthetic: ScannedView,
    files: Seq<ScannedView>,
    disk: DiskView,
    other: DiskView,
    config: RulesFileView,
    baseline: Option<BaselineView>,
)
    requires
        agree(
            disk,
            other,
            probed(root, patched(files, synthetic), patched(files, synthetic).len() as int)
                + probed(root, files, files.len() as int),
        ),
    ensures
        evaluation(root, synthetic, files, disk, config, baseline) == evaluation(
            root,
            synthetic,
            files,
            other,
            config,
            baseline,
        ),
{
    let now = patched(files, synthetic);
    lemma_agree_parts(
        disk,
        other,
        probed(root, now, now.len() as int),
        probed(root, files, files.len() as int),
    );
    law_build_looks_at_probes_only(empty_graph(root), now, disk, other);
    law_build_looks_at_probes_only(empty_graph(root), files, disk, other);
}

} // verus!
