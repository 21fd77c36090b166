//! What an edit changes and which violations stop it, whatever the project.
use vstd::prelude::*;
use vstd::string::*;

use crate::change::{
    blocking_violations, blocks, edited, empty_graph, evaluation, file_at, graph_fits, is_known,
    law_only_unfrozen_errors_block, patched, project_violations, reported_warnings, sifted,
};
use crate::disk::DiskView;
use crate::graph::build_laws::law_imports_are_counted;
use crate::graph::{built, import_count};
use crate::path_laws::law_prefixes_are_whole_components;
use crate::paths::components;
use crate::rules::baseline::{baseline_of, is_frozen, is_new, law_split_loses_nothing, share};
use crate::rules::config::{effective_limit, RulesFileView};
use crate::rules::validator::{law_long_files_are_flagged, lines_message};
use crate::rules::{fingerprint_of, Severity, ViolationView};
use crate::scanner::{Language, ScannedView};
use crate::text::{has_text, line_total, matches_at};
use crate::text_laws::law_lines_are_counted;

verus! {

/// An edit takes the place of the first file with the same components, wherever
/// it stands, and is added at the end where there is none. All other files stay
/// as they are.
pub proof fn law_edit_takes_the_place_of_the_file(
    files: Seq<ScannedView>,
    file: ScannedView,
    i: int,
)
    ensures
        0 <= i < files.len() && components(files[i].path) == components(file.path) && (forall|k: int|

            0 <= k < i ==> components((#[trigger] files[k]).path) != components(file.path)) ==> {
            &&& patched(files, file).len() == files.len()
            &&& patched(files, file)[i] == file
            &&& forall|k: int|
                0 <= k < files.len() && k != i ==> #[trigger] patched(files, file)[k] == files[k]
        },
        (forall|k: int|
            0 <= k < files.len() ==> components((#[trigger] files[k]).path) != components(
                file.path,
            )) ==> patched(files, file) == files + seq![file],
{
    if 0 <= i < files.len() && components(files[i].path) == components(file.path) && forall|k: int|
        0 <= k < i ==> components((#[trigger] files[k]).path) != components(file.path) {
        lemma_file_found(files, file.path, 0, i);
    }
    if forall|k: int|
        0 <= k < files.len() ==> components((#[trigger] files[k]).path) != components(file.path) {
        lemma_file_missing(files, file.path, 0);
        assert(patched(files, file) =~= files + seq![file]);
    }
}

proof fn lemma_file_found(files: Seq<ScannedView>, path: Seq<char>, from: int, i: int)
    requires
        0 <= from <= i < files.len(),
        components(files[i].path) == components(path),
        forall|k: int| 0 <= k < i ==> components((#[trigger] files[k]).path) != components(path),
    ensures
        file_at(files, path, from) == Some(i),
    decreases i - from,
{
    if from < i {
        assert(components(files[from].path) != components(path));
        lemma_file_found(files, path, from + 1, i);
    }
}

proof fn lemma_file_missing(files: Seq<ScannedView>, path: Seq<char>, from: int)
    requires
        0 <= from <= files.len(),
        forall|k: int|
            0 <= k < files.len() ==> components((#[trigger] files[k]).path) != components(path),
    ensures
        file_at(files, path, from) is None,
    decreases files.len() - from,
{
    if from < files.len() {
        assert(components(files[from].path) != components(path));
        lemma_file_missing(files, path, from + 1);
    }
}

/// The edited file has its path and its language, and one line more with each
/// line that is put before its content.
pub proof fn law_edited_file_is_measured_anew(
    target: Seq<char>,
    line: Seq<char>,
    content: Seq<char>,
    language: Language,
)
    requires
        !line.contains('\n'),
        line_total(content) < usize::MAX,
    ensures
        edited(target, content, language).path == target,
        edited(target, content, language).language == language,
        edited(target, Seq::empty(), language).line_count == 0,
        edited(target, line + seq!['\n'] + content, language).line_count == edited(
            target,
            content,
            language,
        ).line_count + 1,
{
    law_lines_are_counted(line, content);
}

/// Whether a violation of the same rule with the same message is among some.
pub open spec fn occurs(violations: Seq<ViolationView>, v: ViolationView) -> bool {
    exists|i: int|
        0 <= i < violations.len() && fingerprint_of(
            (#[trigger] violations[i]).rule,
            violations[i].message,
        ) == fingerprint_of(v.rule, v.message)
}

/// Whether the text occurs in another.
pub open spec fn mentions(message: Seq<char>, text: Seq<char>) -> bool {
    exists|i: int|
        0 <= i && i + text.len() <= message.len() && #[trigger] message.subrange(i, i + text.len())
            == text
}

/// An error stops an edit exactly where the baseline does not hold it and it is
/// either not among the violations without the edit or speaks of the edited
/// file. Everything else is reported and stops nothing.
pub proof fn law_what_stops_an_edit(
    after: Seq<ViolationView>,
    before: Seq<ViolationView>,
    frozen: Option<Seq<ViolationView>>,
    target: Seq<char>,
    v: ViolationView,
)
    requires
        after.contains(v),
    ensures
        ({
            let baseline = match frozen {
                Some(f) => Some(baseline_of(f)),
                None => None,
            };
            let held = frozen matches Some(f) && occurs(f, v);
            let stops = v.severity == Severity::Error && !held && (!occurs(before, v) || mentions(
                v.message,
                target,
            ));
            &&& blocking_violations(after, before, baseline, target).contains(v) <==> stops
            &&& !stops ==> reported_warnings(after, before, baseline, target).contains(v)
        }),
{
    let baseline = match frozen {
        Some(f) => Some(baseline_of(f)),
        None => None,
    };
    law_only_unfrozen_errors_block(after, before, baseline, target);
    assert(blocking_violations(after, before, baseline, target).contains(v) <==> after.contains(v)
        && is_new(baseline, v) && blocks(before, target, v));
    lemma_mentions(v.message, target);
    assert(is_new(baseline, v) <==> !(frozen matches Some(f) && occurs(f, v))) by {
        if frozen is Some {
            let f = frozen->0;
            let b = baseline_of(f);
            if occurs(f, v) {
                let i = choose|i: int|
                    0 <= i < f.len() && fingerprint_of((#[trigger] f[i]).rule, f[i].message)
                        == fingerprint_of(v.rule, v.message);
                assert(b.entries[i] == (f[i].rule, f[i].message));
            }
            if is_frozen(b, v.fingerprint()) {
                let i = choose|i: int|
                    0 <= i < b.entries.len() && fingerprint_of(
                        (#[trigger] b.entries[i]).0,
                        b.entries[i].1,
                    ) == v.fingerprint();
                assert(fingerprint_of(f[i].rule, f[i].message) == v.fingerprint());
            }
        }
    }
    assert(is_known(before, v.fingerprint()) <==> occurs(before, v)) by {
        if is_known(before, v.fingerprint()) {
            let i = choose|i: int|
                0 <= i < before.len() && (#[trigger] before[i]).fingerprint() == v.fingerprint();
            assert(fingerprint_of(before[i].rule, before[i].message) == v.fingerprint());
        }
        if occurs(before, v) {
            let i = choose|i: int|
                0 <= i < before.len() && fingerprint_of(
                    (#[trigger] before[i]).rule,
                    before[i].message,
                ) == fingerprint_of(v.rule, v.message);
            assert(before[i].fingerprint() == v.fingerprint());
        }
    }
    if !(is_new(baseline, v) && blocks(before, target, v)) {
        let k = choose|k: int| 0 <= k < after.len() && after[k] == v;
        law_split_loses_nothing(after, baseline);
        let old = share(after, baseline, false);
        let new = share(after, baseline, true);
        let rest = sifted(new, before, target, false);
        if is_new(baseline, after[k]) {
            assert(share(after, baseline, is_new(baseline, after[k])).contains(v));
            lemma_sifted_keeps(new, before, target, v);
            let m = choose|m: int| 0 <= m < rest.len() && rest[m] == v;
            assert((old + rest)[old.len() + m] == v);
        } else {
            assert(share(after, baseline, is_new(baseline, after[k])).contains(v));
            let m = choose|m: int| 0 <= m < old.len() && old[m] == v;
            assert((old + rest)[m] == v);
        }
    }
}

proof fn lemma_mentions(message: Seq<char>, text: Seq<char>)
    ensures
        has_text(message, text) <==> mentions(message, text),
{
    if has_text(message, text) {
        let i = choose|i: int| matches_at(message, text, i);
        assert(message.subrange(i, i + text.len()) == text);
    }
    if mentions(message, text) {
        let i = choose|i: int|
            0 <= i && i + text.len() <= message.len() && #[trigger] message.subrange(
                i,
                i + text.len(),
            ) == text;
        assert(matches_at(message, text, i));
    }
}

proof fn lemma_sifted_keeps(
    violations: Seq<ViolationView>,
    before: Seq<ViolationView>,
    target: Seq<char>,
    v: ViolationView,
)
    requires
        violations.contains(v),
    ensures
        sifted(violations, before, target, blocks(before, target, v)).contains(v),
    decreases violations.len(),
{
    let blocking = blocks(before, target, v);
    let front = violations.drop_last();
    let all = sifted(violations, before, target, blocking);
    let some = sifted(front, before, target, blocking);
    if violations.last() == v {
        assert(all[all.len() - 1] == v);
    } else {
        let k = choose|k: int| 0 <= k < violations.len() && violations[k] == v;
        assert(front[k] == v);
        lemma_sifted_keeps(front, before, target, v);
        let m = choose|m: int| 0 <= m < some.len() && some[m] == v;
        assert(all[m] == v);
    }
}

/// Two violations of rules without colons are the same to a baseline exactly
/// where both rule and message are.
pub proof fn law_violations_are_told_apart(a: ViolationView, b: ViolationView)
    requires
        !a.rule.contains(':'),
        !b.rule.contains(':'),
    ensures
        a.fingerprint() == b.fingerprint() <==> a.rule == b.rule && a.message == b.message,
{
    reveal_strlit("::");
    if a.fingerprint() == b.fingerprint() {
        let s = a.fingerprint();
        let t = b.fingerprint();
        if a.rule.len() < b.rule.len() {
            assert(s[a.rule.len() as int] == ':');
            assert(t[a.rule.len() as int] == b.rule[a.rule.len() as int]);
            assert(b.rule.contains(':'));
        }
        if b.rule.len() < a.rule.len() {
            assert(t[b.rule.len() as int] == ':');
            assert(s[b.rule.len() as int] == a.rule[b.rule.len() as int]);
            assert(a.rule.contains(':'));
        }
        assert(a.rule =~= s.subrange(0, a.rule.len() as int));
        assert(b.rule =~= t.subrange(0, b.rule.len() as int));
        assert(a.message =~= s.subrange((a.rule.len() + 2) as int, s.len() as int));
        assert(b.message =~= t.subrange((b.rule.len() + 2) as int, t.len() as int));
    }
}

/// An evaluation holds the violations of the project with the edit against those
/// of the project without it: an error that the edit brings, or one that speaks
/// of the edited file, stops it, unless the baseline holds it; every other
/// violation is reported. Each violation is in one of the two lists.
pub proof fn law_edits_are_held_against_the_project(
    root: Seq<char>,
    file: ScannedView,
    files: Seq<ScannedView>,
    disk: DiskView,
    config: RulesFileView,
    frozen: Option<Seq<ViolationView>>,
    v: ViolationView,
)
    requires
        project_violations(root, patched(files, file), disk, config).contains(v),
    ensures
        ({
            let baseline = match frozen {
                Some(f) => Some(baseline_of(f)),
                None => None,
            };
            let before = project_violations(root, files, disk, config);
            let judged = evaluation(root, file, files, disk, config, baseline);
            let stops = v.severity == Severity::Error && !(frozen matches Some(f) && occurs(f, v))
                && (!occurs(before, v) || mentions(v.message, file.path));
            &&& judged.synthetic == file
            &&& judged.violations.contains(v) <==> stops
            &&& !stops ==> judged.warnings.contains(v)
            &&& judged.violations.len() + judged.warnings.len() == project_violations(
                root,
                patched(files, file),
                disk,
                config,
            ).len()
        }),
{
    let baseline = match frozen {
        Some(f) => Some(baseline_of(f)),
        None => None,
    };
    let after = project_violations(root, patched(files, file), disk, config);
    let before = project_violations(root, files, disk, config);
    law_what_stops_an_edit(after, before, frozen, file.path, v);
    law_only_unfrozen_errors_block(after, before, baseline, file.path);
}

/// The violations of a project are those of its files and of the graph that is
/// built of them, with the patterns of overrides taken from the project root.
pub proof fn law_projects_are_judged_from_their_root(
    root: Seq<char>,
    files: Seq<ScannedView>,
    disk: DiskView,
    config: RulesFileView,
    i: int,
    below: Seq<Seq<char>>,
    limit: usize,
)
    requires
        0 <= i < files.len(),
        components(files[i].path) == components(root) + below,
        effective_limit(config, below) == Some(limit),
        files[i].line_count > limit,
    ensures
        project_violations(root, files, disk, config).contains(
            ViolationView {
                rule: "max_file_lines"@,
                message: lines_message(files[i].path, files[i].line_count, limit),
                severity: config.rules.default_severity,
            },
        ),
{
    law_prefixes_are_whole_components(files[i].path, root, below);
    law_long_files_are_flagged(
        files,
        built(empty_graph(root), files, disk),
        config,
        Some(root),
        i,
    );
}

/// A project fits a graph as long as neither its files nor their imports are more
/// than a position of 32 bits can number; taking a file away never makes it too
/// large.
pub proof fn law_projects_fit_up_to_the_positions(files: Seq<ScannedView>, file: ScannedView)
    ensures
        files.len() <= 0xffff_ffff && import_count(files, files.len() as int) <= 0xffff_ffff
            ==> graph_fits(files),
        files.len() > 0xffff_ffff ==> !graph_fits(files),
        import_count(files, files.len() as int) > 0xffff_ffff ==> !graph_fits(files),
        graph_fits(files.push(file)) ==> graph_fits(files),
        graph_fits(Seq::empty()),
{
    law_imports_are_counted(files, file);
}

} // verus!
