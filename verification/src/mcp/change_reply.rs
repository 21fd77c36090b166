//! What a proposed file edit is answered, and whether it is written.
use vstd::prelude::*;
use vstd::string::*;
use vstd::utf8::encode_utf8;

use super::params::{ChangeRequest, ChangeView};
use crate::change::{Evaluation, EvaluationView};
use crate::notify::{
    bypass_active, bypass_active_toast, path_escape_blocked, path_escape_toast, scan_legal,
    scan_legal_toast, toast_view, write_blocked, write_blocked_toast, Toast,
};
use crate::paths::{extension_of, extension_or_empty, parent, parent_of};
use crate::report::{
    append_counted, append_entries, counted, number_violations, numbered_lines, report_entries,
};
use crate::rules::config::RulesView;
use crate::rules::{violations_view, RuleViolation, Rules, ViolationView};
use crate::scanner::Language;
use crate::security::{SandboxError, SandboxErrorView};
use crate::status::{summaries_of, summaries_view, summarize, State, ViolationSummary};
use crate::text::{count, decimal, join, joined, opt_view};

verus! {

// ---------------------------------------------------------------------------
// Outcomes
// ---------------------------------------------------------------------------

/// A file that is to be written.
#[derive(Debug, PartialEq, Eq)]
pub struct WritePlan {
    /// Where.
    pub path: String,
    /// The folder that must exist before.
    pub parent: Option<String>,
    /// The text.
    pub content: String,
}

/// What a [`WritePlan`] holds.
pub struct PlanView {
    /// Where.
    pub path: Seq<char>,
    /// The folder that must exist before.
    pub parent: Option<Seq<char>>,
    /// The text.
    pub content: Seq<char>,
}

impl View for WritePlan {
    type V = PlanView;

    open spec fn view(&self) -> PlanView {
        PlanView { path: self.path@, parent: opt_view(self.parent), content: self.content@ }
    }
}

/// A status that is to be published.
#[derive(Debug, PartialEq, Eq)]
pub struct StatusUpdate {
    /// How the project fares.
    pub state: State,
    /// Its violations.
    pub violations: Vec<ViolationSummary>,
    /// Which tool says so.
    pub source: String,
}

/// What a [`StatusUpdate`] holds.
pub struct UpdateView {
    /// How the project fares.
    pub state: State,
    /// Its violations.
    pub violations: Seq<(Seq<char>, Seq<char>)>,
    /// Which tool says so.
    pub source: Seq<char>,
}

impl View for StatusUpdate {
    type V = UpdateView;

    open spec fn view(&self) -> UpdateView {
        UpdateView {
            state: self.state,
            violations: summaries_view(self.violations@),
            source: self.source@,
        }
    }
}

/// What is done about a proposed edit, in this order: the file is written, the
/// status is published, the toast is shown, and the reply is sent.
#[derive(Debug, PartialEq, Eq)]
pub struct Outcome {
    /// The reply.
    pub reply: String,
    /// The file that is to be written.
    pub write: Option<WritePlan>,
    /// The status that is to be published.
    pub status: Option<StatusUpdate>,
    /// The toast that is to be shown.
    pub toast: Option<Toast>,
}

/// What an [`Outcome`] holds.
pub struct OutcomeView {
    /// The reply.
    pub reply: Seq<char>,
    /// The file that is to be written.
    pub write: Option<PlanView>,
    /// The status that is to be published.
    pub status: Option<UpdateView>,
    /// The toast that is to be shown.
    pub toast: Option<(Seq<char>, Seq<char>)>,
}

impl View for Outcome {
    type V = OutcomeView;

    open spec fn view(&self) -> OutcomeView {
        OutcomeView {
            reply: self.reply@,
            write: match self.write {
                Some(w) => Some(w@),
                None => None,
            },
            status: match self.status {
                Some(s) => Some(s@),
                None => None,
            },
            toast: toast_view(self.toast),
        }
    }
}

/// A reply that changes nothing.
pub open spec fn reply_only(reply: Seq<char>, toast: Option<(Seq<char>, Seq<char>)>) -> OutcomeView {
    OutcomeView { reply, write: None, status: None, toast }
}

// ---------------------------------------------------------------------------
// Texts
// ---------------------------------------------------------------------------

/// The reply of the dry run to a file in an unknown language.
pub open spec fn unchecked_language(target: Seq<char>) -> Seq<char> {
    "WRITE BLOCKED\n=============\nUnknown language for extension '"@ + extension_or_empty(target)
        + "'. AetherLink only supports rs, ts, tsx, js, jsx, py."@
}

/// The reply of the guarded writer to a file in an unknown language.
pub open spec fn unwritten_language(target: Seq<char>) -> Seq<char> {
    "WRITE BLOCKED — UNSUPPORTED LANGUAGE\n====================================\nUnknown language for extension '"@
        + extension_or_empty(target)
        + "'. AetherLink only supports rs, ts, tsx, js, jsx, py.\nFILE NOT WRITTEN."@
}

/// The reply to a path outside the project root.
pub open spec fn escape_reply(e: SandboxErrorView) -> Seq<char> {
    "PATH ESCAPE BLOCKED — CRITICAL\n==============================\n"@ + e.text()
        + "\nFILE NOT WRITTEN. This is a security check — AetherLink will never write a file outside the project root, even if a rule would allow it."@
}

/// The report of a refused edit.
pub open spec fn block_report(target: Seq<char>, violations: Seq<ViolationView>) -> Seq<char> {
    "WRITE BLOCKED\n=============\nProposed change to "@ + target + " would introduce "@ + counted(
        violations.len(),
        " rule violation"@,
    ) + ".\nDo NOT write this file. Fix the issues below and call check_change again.\n\n"@
        + report_entries(violations, violations.len() as int)
}

/// The warnings of an approved edit.
pub open spec fn warning_block(warnings: Seq<ViolationView>) -> Seq<char> {
    if warnings.len() == 0 {
        Seq::empty()
    } else {
        "\n\n"@ + counted(warnings.len(), " non-blocking warning"@)
            + " (grandfathered or severity=warn):\n"@ + joined(
            numbered_lines(warnings, "  ("@, ") "@, ": "@),
            "\n"@,
        )
    }
}

/// A limit that may be missing.
pub open spec fn limit_text(limit: Option<usize>) -> Seq<char> {
    match limit {
        Some(n) => "Some("@ + decimal(n as nat) + ")"@,
        None => "None"@,
    }
}

/// A truth value.
pub open spec fn bool_text(b: bool) -> Seq<char> {
    if b {
        "true"@
    } else {
        "false"@
    }
}

/// The reply to an edit that would be legal.
pub open spec fn approved_text(e: EvaluationView, rules: RulesView) -> Seq<char> {
    "APPROVED: proposed change to "@ + e.synthetic.path
        + " passes all architectural rules.\n- new line count: "@ + decimal(
        e.synthetic.line_count as nat,
    ) + "\n- parsed imports: "@ + decimal(e.synthetic.imports.len())
        + "\n- rules enforced: max_file_lines="@ + limit_text(rules.max_file_lines)
        + ", no_cycles="@ + bool_text(rules.no_cycles) + ", forbidden_imports="@ + decimal(
        rules.forbidden_imports.len(),
    ) + warning_block(e.warnings)
        + "\nSafe to write — but use `apply_guarded_change` to actually save it; that tool re-validates and writes atomically so a stale `check_change` result can never be silently bypassed."@
}

/// The reply to an edit that was refused.
pub open spec fn refused_text(target: Seq<char>, violations: Seq<ViolationView>) -> Seq<char> {
    block_report(target, violations)
        + "===\nFILE NOT WRITTEN. AetherLink refused this edit because it would break the rules above. Fix the violations and call apply_guarded_change again. The on-disk project is unchanged.\n"@
}

/// The reply to an edit that was written.
pub open spec fn applied_text(e: EvaluationView, content: Seq<char>) -> Seq<char> {
    "APPLIED: "@ + e.synthetic.path + " written to disk ("@ + decimal(encode_utf8(content).len())
        + " bytes, "@ + decimal(e.synthetic.line_count as nat) + " lines, "@ + counted(
        e.synthetic.imports.len(),
        " import"@,
    ) + " parsed).\nAll architectural rules passed. Project is LEGAL."@
}

/// What is said of the rules where they were bypassed.
pub open spec fn bypassed_summary(violations: Seq<ViolationView>) -> Seq<char> {
    if violations.len() == 0 {
        "Validation would have PASSED — write was clean."@
    } else {
        "Validation would have FAILED with "@ + counted(violations.len(), " violation"@) + ":\n"@
            + joined(numbered_lines(violations, "  ["@, "] "@, ": "@), "\n"@)
    }
}

/// The reply to an edit that was written while the bypass was engaged.
pub open spec fn bypassed_text(path: Seq<char>, violations: Seq<ViolationView>) -> Seq<char> {
    "BYPASS ACTIVE — CRITICAL WARNING\n================================\nAetherLink wrote "@ + path
        + " WITHOUT enforcing architectural rules because '.aetherlink_bypass' exists in the project root.\n\n"@
        + bypassed_summary(violations)
        + "\n\nDelete .aetherlink_bypass from the project root to re-enable normal validation."@
}

// ---------------------------------------------------------------------------
// Decisions
// ---------------------------------------------------------------------------

/// The folder that must exist before a file is written.
pub open spec fn needed_folder(path: Seq<char>) -> Option<Seq<char>> {
    match parent(path) {
        Some(p) => if p.len() == 0 {
            None
        } else {
            Some(p)
        },
        None => None,
    }
}

/// How an edit is written.
pub open spec fn plan(path: Seq<char>, content: Seq<char>) -> PlanView {
    PlanView { path, parent: needed_folder(path), content }
}

/// Whether an edit comes as far as its evaluation: its language is known, and
/// its path is not refused.
pub open spec fn is_admitted(
    change: ChangeView,
    sandbox: Result<Seq<char>, SandboxErrorView>,
) -> bool {
    change.language != Language::Unknown && sandbox is Ok
}

/// What the dry run does about a proposed edit. The evaluation is there where
/// the edit comes as far as that.
pub open spec fn check_outcome(
    change: ChangeView,
    sandbox: Result<Seq<char>, SandboxErrorView>,
    evaluation: Option<EvaluationView>,
    rules: RulesView,
) -> OutcomeView {
    if change.language == Language::Unknown {
        reply_only(unchecked_language(change.target), None)
    } else {
        match sandbox {
            Err(escape) => reply_only(
                escape_reply(escape),
                Some(path_escape_toast(change.target)),
            ),
            Ok(_) => {
                let e = evaluation->0;
                if e.violations.len() == 0 {
                    reply_only(approved_text(e, rules), None)
                } else {
                    reply_only(
                        block_report(change.target, e.violations),
                        Some(write_blocked_toast(change.target, e.violations.len())),
                    )
                }
            },
        }
    }
}

/// What the guarded writer does about a proposed edit. The evaluation is there
/// where the edit comes as far as that. `bypass` tells whether the kill switch
/// is engaged, `was_illegal` whether the project broke its rules before.
pub open spec fn apply_outcome(
    change: ChangeView,
    sandbox: Result<Seq<char>, SandboxErrorView>,
    evaluation: Option<EvaluationView>,
    bypass: bool,
    was_illegal: bool,
) -> OutcomeView {
    if change.language == Language::Unknown {
        reply_only(unwritten_language(change.target), None)
    } else {
        match sandbox {
            Err(escape) => reply_only(
                escape_reply(escape),
                Some(path_escape_toast(change.target)),
            ),
            Ok(path) => {
                let e = evaluation->0;
                if bypass {
                    bypass_outcome(path, change.new_content, e.violations)
                } else if e.violations.len() > 0 {
                    reply_only(
                        refused_text(change.target, e.violations),
                        Some(write_blocked_toast(change.target, e.violations.len())),
                    )
                } else {
                    OutcomeView {
                        reply: applied_text(e, change.new_content),
                        write: Some(plan(path, change.new_content)),
                        status: Some(
                            UpdateView {
                                state: State::Legal,
                                violations: Seq::empty(),
                                source: "apply_guarded_change"@,
                            },
                        ),
                        toast: if was_illegal {
                            Some(scan_legal_toast(change.root))
                        } else {
                            None
                        },
                    }
                }
            },
        }
    }
}

/// What is done about an edit while the bypass is engaged.
pub open spec fn bypass_outcome(
    path: Seq<char>,
    content: Seq<char>,
    violations: Seq<ViolationView>,
) -> OutcomeView {
    OutcomeView {
        reply: bypassed_text(path, violations),
        write: Some(plan(path, content)),
        status: Some(
            UpdateView {
                state: if violations.len() == 0 {
                    State::Legal
                } else {
                    State::Illegal
                },
                violations: summaries_of(violations),
                source: "apply_guarded_change_BYPASS"@,
            },
        ),
        toast: Some(bypass_active_toast(path, violations.len())),
    }
}

// ---------------------------------------------------------------------------
// The functions
// ---------------------------------------------------------------------------

fn only_reply(reply: String, toast: Option<Toast>) -> (o: Outcome)
    ensures
        o@ == reply_only(reply@, toast_view(toast)),
{
    Outcome { reply, write: None, status: None, toast }
}

fn escape_text(e: &SandboxError) -> (s: String)
    ensures
        s@ == escape_reply(e@),
{
    let mut s =
        "PATH ESCAPE BLOCKED — CRITICAL\n==============================\n".to_owned();
    s.append(&e.message());
    s.append(
        "\nFILE NOT WRITTEN. This is a security check — AetherLink will never write a file outside the project root, even if a rule would allow it.",
    );
    s
}

/// The report of a refused edit.
pub fn format_block_report(target: &str, violations: &Vec<RuleViolation>) -> (s: String)
    ensures
        s@ == block_report(target@, violations_view(violations@)),
{
    let mut s = "WRITE BLOCKED\n=============\nProposed change to ".to_owned();
    s.append(target);
    s.append(" would introduce ");
    append_counted(&mut s, violations.len(), " rule violation");
    s.append(
        ".\nDo NOT write this file. Fix the issues below and call check_change again.\n\n",
    );
    append_entries(&mut s, violations);
    s
}

fn warning_text(warnings: &Vec<RuleViolation>) -> (s: String)
    ensures
        s@ == warning_block(violations_view(warnings@)),
{
    let mut s = String::new();
    assert(s@ =~= Seq::<char>::empty());
    if warnings.len() > 0 {
        s.append("\n\n");
        append_counted(&mut s, warnings.len(), " non-blocking warning");
        s.append(" (grandfathered or severity=warn):\n");
        s.append(&join(&number_violations(warnings, "  (", ") ", ": "), "\n"));
        assert(s@ =~= warning_block(violations_view(warnings@)));
    }
    s
}

fn append_limit(s: &mut String, limit: Option<usize>)
    ensures
        final(s)@ == old(s)@ + limit_text(limit),
{
    let ghost start = s@;
    match limit {
        Some(n) => {
            s.append("Some(");
            s.append(&count(n));
            s.append(")");
            assert(s@ =~= start + limit_text(limit));
        },
        None => {
            s.append("None");
        },
    }
}

fn append_bool(s: &mut String, b: bool)
    ensures
        final(s)@ == old(s)@ + bool_text(b),
{
    if b {
        s.append("true");
    } else {
        s.append("false");
    }
}

fn approved(e: &Evaluation, rules: &Rules) -> (s: String)
    ensures
        s@ == approved_text(e@, rules@),
{
    let mut s = "APPROVED: proposed change to ".to_owned();
    s.append(&e.synthetic.path);
    s.append(" passes all architectural rules.\n- new line count: ");
    s.append(&count(e.synthetic.line_count));
    s.append("\n- parsed imports: ");
    s.append(&count(e.synthetic.imports.len()));
    s.append("\n- rules enforced: max_file_lines=");
    append_limit(&mut s, rules.max_file_lines);
    s.append(", no_cycles=");
    append_bool(&mut s, rules.no_cycles);
    s.append(", forbidden_imports=");
    s.append(&count(rules.forbidden_imports.len()));
    s.append(&warning_text(&e.warnings));
    s.append(
        "\nSafe to write — but use `apply_guarded_change` to actually save it; that tool re-validates and writes atomically so a stale `check_change` result can never be silently bypassed.",
    );
    s
}

fn refused(target: &str, violations: &Vec<RuleViolation>) -> (s: String)
    ensures
        s@ == refused_text(target@, violations_view(violations@)),
{
    let mut s = format_block_report(target, violations);
    s.append(
        "===\nFILE NOT WRITTEN. AetherLink refused this edit because it would break the rules above. Fix the violations and call apply_guarded_change again. The on-disk project is unchanged.\n",
    );
    s
}

fn applied(e: &Evaluation, content: &str) -> (s: String)
    ensures
        s@ == applied_text(e@, content@),
{
    let mut s = "APPLIED: ".to_owned();
    s.append(&e.synthetic.path);
    s.append(" written to disk (");
    s.append(&count(content.as_bytes().len()));
    s.append(" bytes, ");
    s.append(&count(e.synthetic.line_count));
    s.append(" lines, ");
    append_counted(&mut s, e.synthetic.imports.len(), " import");
    s.append(" parsed).\nAll architectural rules passed. Project is LEGAL.");
    s
}

fn bypassed(path: &str, violations: &Vec<RuleViolation>) -> (s: String)
    ensures
        s@ == bypassed_text(path@, violations_view(violations@)),
{
    let mut s =
        "BYPASS ACTIVE — CRITICAL WARNING\n================================\nAetherLink wrote ".to_owned();
    s.append(path);
    s.append(
        " WITHOUT enforcing architectural rules because '.aetherlink_bypass' exists in the project root.\n\n",
    );
    let summary = if violations.len() == 0 {
        "Validation would have PASSED — write was clean.".to_owned()
    } else {
        let mut t = "Validation would have FAILED with ".to_owned();
        append_counted(&mut t, violations.len(), " violation");
        t.append(":\n");
        t.append(&join(&number_violations(violations, "  [", "] ", ": "), "\n"));
        t
    };
    s.append(&summary);
    s.append("\n\nDelete .aetherlink_bypass from the project root to re-enable normal validation.");
    s
}

fn plan_write(path: &str, content: &str) -> (w: WritePlan)
    ensures
        w@ == plan(path@, content@),
{
    let parent = match parent_of(path) {
        Some(p) => if p.as_str().is_empty() {
            None
        } else {
            Some(p)
        },
        None => None,
    };
    WritePlan { path: path.to_owned(), parent, content: content.to_owned() }
}

/// The view of an evaluation that may be missing.
pub open spec fn evaluation_view(e: Option<&Evaluation>) -> Option<EvaluationView> {
    match e {
        Some(e) => Some(e@),
        None => None,
    }
}

/// The view of a verdict of the sandbox.
pub open spec fn sandbox_view(s: Result<String, SandboxError>) -> Result<
    Seq<char>,
    SandboxErrorView,
> {
    match s {
        Ok(p) => Ok(p@),
        Err(e) => Err(e@),
    }
}

/// Whether an edit needs to be evaluated before it is answered.
pub fn needs_evaluation(change: &ChangeRequest, sandbox: &Result<String, SandboxError>) -> (r: bool)
    ensures
        r == is_admitted(change@, sandbox_view(*sandbox)),
{
    change.language != Language::Unknown && sandbox.is_ok()
}

/// Validate a proposed file edit against project rules **without** writing it.
///
/// `sandbox` is the real path of the target, or why it is refused.
pub fn run_check_change(
    change: &ChangeRequest,
    sandbox: &Result<String, SandboxError>,
    evaluation: Option<&Evaluation>,
    rules: &Rules,
) -> (o: Outcome)
    requires
        is_admitted(change@, sandbox_view(*sandbox)) ==> evaluation is Some,
    ensures
        o@ == check_outcome(change@, sandbox_view(*sandbox), evaluation_view(evaluation), rules@),
{
    if change.language == Language::Unknown {
        let mut s =
            "WRITE BLOCKED\n=============\nUnknown language for extension '".to_owned();
        s.append(&extension_of(&change.target));
        s.append("'. AetherLink only supports rs, ts, tsx, js, jsx, py.");
        return only_reply(s, None);
    }
    match sandbox {
        Err(e) => only_reply(escape_text(e), Some(path_escape_blocked(&change.target))),
        Ok(_) => {
            let e = evaluation.unwrap();
            assert(e@.violations.len() == e.violations@.len());
            if e.violations.len() == 0 {
                only_reply(approved(e, rules), None)
            } else {
                only_reply(
                    format_block_report(&change.target, &e.violations),
                    Some(write_blocked(&change.target, e.violations.len())),
                )
            }
        },
    }
}

/// **The guarded writer.** Validate, then write *only if legal*.
///
/// The sandbox comes before the bypass on purpose: even with the bypass
/// engaged, nothing is written outside the project root.
pub fn run_apply_guarded_change(
    change: &ChangeRequest,
    sandbox: &Result<String, SandboxError>,
    evaluation: Option<&Evaluation>,
    bypass: bool,
    was_illegal: bool,
) -> (o: Outcome)
    requires
        is_admitted(change@, sandbox_view(*sandbox)) ==> evaluation is Some,
    ensures
        o@ == apply_outcome(
            change@,
            sandbox_view(*sandbox),
            evaluation_view(evaluation),
            bypass,
            was_illegal,
        ),
{
    if change.language == Language::Unknown {
        let mut s =
            "WRITE BLOCKED — UNSUPPORTED LANGUAGE\n====================================\nUnknown language for extension '".to_owned();
        s.append(&extension_of(&change.target));
        s.append("'. AetherLink only supports rs, ts, tsx, js, jsx, py.\nFILE NOT WRITTEN.");
        return only_reply(s, None);
    }
    let path = match sandbox {
        Err(e) => return only_reply(escape_text(e), Some(path_escape_blocked(&change.target))),
        Ok(path) => path,
    };
    let e = evaluation.unwrap();
    assert(e@.violations.len() == e.violations@.len());
    if bypass {
        return write_with_bypass(path, &change.new_content, &e.violations);
    }
    if e.violations.len() > 0 {
        return only_reply(
            refused(&change.target, &e.violations),
            Some(write_blocked(&change.target, e.violations.len())),
        );
    }
    let none: Vec<ViolationSummary> = Vec::new();
    assert(summaries_view(none@) =~= Seq::empty());
    Outcome {
        reply: applied(e, &change.new_content),
        write: Some(plan_write(path, &change.new_content)),
        status: Some(
            StatusUpdate {
                state: State::Legal,
                violations: none,
                source: "apply_guarded_change".to_owned(),
            },
        ),
        toast: if was_illegal {
            Some(scan_legal(&change.root))
        } else {
            None
        },
    }
}

/// Bypass-mode write path. The file is written regardless of the validation
/// result, a CRITICAL warning toast is shown, and the status reflects the actual
/// outcome.
pub fn write_with_bypass(path: &str, new_content: &str, violations: &Vec<RuleViolation>) -> (o:
    Outcome)
    ensures
        o@ == bypass_outcome(path@, new_content@, violations_view(violations@)),
{
    let state = if violations.len() == 0 {
        State::Legal
    } else {
        State::Illegal
    };
    Outcome {
        reply: bypassed(path, violations),
        write: Some(plan_write(path, new_content)),
        status: Some(
            StatusUpdate {
                state,
                violations: summarize(violations),
                source: "apply_guarded_change_BYPASS".to_owned(),
            },
        ),
        toast: Some(bypass_active(path, violations.len())),
    }
}

// ---------------------------------------------------------------------------
// Laws
// ---------------------------------------------------------------------------

/// A file is written if and only if its language is known, its path lies inside
/// the project root, and no violation blocks it or the bypass is engaged; and
/// then its whole new content is written to its real path.
pub proof fn law_written_iff_legal(
    change: ChangeView,
    sandbox: Result<Seq<char>, SandboxErrorView>,
    evaluation: Option<EvaluationView>,
    bypass: bool,
    was_illegal: bool,
)
    requires
        is_admitted(change, sandbox) ==> evaluation is Some,
    ensures
        apply_outcome(change, sandbox, evaluation, bypass, was_illegal).write is Some
            <==> change.language != Language::Unknown && sandbox is Ok && (bypass
            || evaluation->0.violations.len() == 0),
        apply_outcome(change, sandbox, evaluation, bypass, was_illegal).write matches Some(w)
            ==> w.path == sandbox->Ok_0 && w.content == change.new_content,
{
}

/// A refused edit changes nothing: neither a file nor the status. A dry run
/// never does.
pub proof fn law_refusal_changes_nothing(
    change: ChangeView,
    sandbox: Result<Seq<char>, SandboxErrorView>,
    evaluation: Option<EvaluationView>,
    rules: RulesView,
    bypass: bool,
    was_illegal: bool,
)
    ensures
        apply_outcome(change, sandbox, evaluation, bypass, was_illegal).write is None
            ==> apply_outcome(
            change,
            sandbox,
            evaluation,
            bypass,
            was_illegal,
        ).status is None,
        check_outcome(change, sandbox, evaluation, rules).write is None,
        check_outcome(change, sandbox, evaluation, rules).status is None,
{
}

/// The dry run approves an edit if and only if the guarded writer would write
/// it without the bypass.
pub proof fn law_check_foretells_apply(
    change: ChangeView,
    sandbox: Result<Seq<char>, SandboxErrorView>,
    evaluation: Option<EvaluationView>,
    rules: RulesView,
    was_illegal: bool,
)
    requires
        is_admitted(change, sandbox),
        evaluation is Some,
    ensures
        check_outcome(change, sandbox, evaluation, rules).reply == (if apply_outcome(
            change,
            sandbox,
            evaluation,
            false,
            was_illegal,
        ).write is Some {
            approved_text(evaluation->0, rules)
        } else {
            block_report(change.target, evaluation->0.violations)
        }),
{
}

/// The bypass overrides the rules and not the sandbox: a path outside the
/// project root is not written even with the bypass engaged.
pub proof fn law_bypass_does_not_open_the_sandbox(
    change: ChangeView,
    escape: SandboxErrorView,
    evaluation: Option<EvaluationView>,
    was_illegal: bool,
)
    ensures
        apply_outcome(change, Err(escape), evaluation, true, was_illegal).write is None,
{
}

} // verus!
