//! What the addition or removal of a rule is answered.
//!
//! Both tools go the same way: the arguments are read, the text of
//! `AetherLink.toml` is edited and written back, the project is scanned again,
//! and the outcome of the scan ends the reply.
use vstd::prelude::*;
use vstd::string::*;

use super::params::{
    addition_param, argument, parse_rule_addition, parse_rule_removal, removal_param, required_text,
};
use super::server::member_or_null;
use crate::json::{json_get, json_node, json_null, JsonNode};
use crate::paths::join_paths;
use crate::rules::config::config_file_name;
use crate::rules::edit::{text_added, text_removed, AdditionView, RemovalView};
use crate::rules::{
    add_rule_to_toml, remove_rule_from_toml, RemovalOutcome, RuleAddition, RuleRemoval, Rules,
};
use crate::text::opt_view;

verus! {

// ---------------------------------------------------------------------------
// Arguments
// ---------------------------------------------------------------------------

/// A rule that is to be added to a project.
#[derive(Debug)]
pub struct AddRequest {
    /// The project root, as given.
    pub project_path: String,
    /// The rule.
    pub addition: RuleAddition,
}

/// A rule that is to be removed from a project.
#[derive(Debug)]
pub struct RemoveRequest {
    /// The project root, as given.
    pub project_path: String,
    /// The rule.
    pub removal: RuleRemoval,
}

/// The rule that a call of `add_rule` adds, and where.
pub open spec fn add_request(args: JsonNode) -> Result<(Seq<char>, AdditionView), Seq<char>> {
    match (argument(args, "project_path"@), argument(args, "rule_type"@)) {
        (Err(e), _) => Err(e),
        (_, Err(e)) => Err(e),
        (Ok(path), Ok(rule_type)) => match addition_param(
            rule_type,
            member_or_null(args, "params"@),
        ) {
            Ok(a) => Ok((path, a)),
            Err(e) => Err(e),
        },
    }
}

/// The rule that a call of `remove_rule` removes, and where.
pub open spec fn remove_request(args: JsonNode) -> Result<(Seq<char>, RemovalView), Seq<char>> {
    match (argument(args, "project_path"@), argument(args, "rule_type"@)) {
        (Err(e), _) => Err(e),
        (_, Err(e)) => Err(e),
        (Ok(path), Ok(rule_type)) => match removal_param(
            rule_type,
            member_or_null(args, "params"@),
        ) {
            Ok(a) => Ok((path, a)),
            Err(e) => Err(e),
        },
    }
}

fn params_of(args: &serde_json::Value) -> (v: serde_json::Value)
    ensures
        json_node(v) == member_or_null(json_node(*args), "params"@),
{
    match json_get(args, "params") {
        Some(x) => x.clone(),
        None => json_null(),
    }
}

/// Reads the arguments of `add_rule`.
pub fn read_add_rule(args: &serde_json::Value) -> (r: Result<AddRequest, String>)
    ensures
        add_request(json_node(*args)) == (match r {
            Ok(q) => Ok((q.project_path@, q.addition@)),
            Err(e) => Err(e@),
        }),
{
    let project_path = match required_text(args, "project_path") {
        Ok(s) => s,
        Err(e) => return Err(e),
    };
    let rule_type = match required_text(args, "rule_type") {
        Ok(s) => s,
        Err(e) => return Err(e),
    };
    match parse_rule_addition(&rule_type, &params_of(args)) {
        Ok(addition) => Ok(AddRequest { project_path, addition }),
        Err(e) => Err(e),
    }
}

/// Reads the arguments of `remove_rule`.
pub fn read_remove_rule(args: &serde_json::Value) -> (r: Result<RemoveRequest, String>)
    ensures
        remove_request(json_node(*args)) == (match r {
            Ok(q) => Ok((q.project_path@, q.removal@)),
            Err(e) => Err(e@),
        }),
{
    let project_path = match required_text(args, "project_path") {
        Ok(s) => s,
        Err(e) => return Err(e),
    };
    let rule_type = match required_text(args, "rule_type") {
        Ok(s) => s,
        Err(e) => return Err(e),
    };
    match parse_rule_removal(&rule_type, &params_of(args)) {
        Ok(removal) => Ok(RemoveRequest { project_path, removal }),
        Err(e) => Err(e),
    }
}

// ---------------------------------------------------------------------------
// Edits
// ---------------------------------------------------------------------------

/// What is done about a rule before the project is scanned again.
#[derive(Debug, PartialEq, Eq)]
pub struct RuleStep {
    /// The new text of `AetherLink.toml`, where it is to be written.
    pub write: Option<String>,
    /// The reply up to the outcome of the scan.
    pub head: String,
}

/// What a [`RuleStep`] holds.
pub struct StepView {
    /// The new text of `AetherLink.toml`, where it is to be written.
    pub write: Option<Seq<char>>,
    /// The reply up to the outcome of the scan.
    pub head: Seq<char>,
}

impl View for RuleStep {
    type V = StepView;

    open spec fn view(&self) -> StepView {
        StepView { write: opt_view(self.write), head: self.head@ }
    }
}

/// Where the rules of a project are written down.
pub open spec fn rules_path(project_path: Seq<char>) -> Seq<char> {
    join_paths(project_path, config_file_name())
}

/// What is done about a rule that is added.
pub open spec fn add_step(
    project_path: Seq<char>,
    addition: AdditionView,
    existing: Seq<char>,
) -> Result<StepView, Seq<char>> {
    match text_added(existing, addition) {
        Err(e) => Err(e.text()),
        Ok(updated) => Ok(
            StepView {
                write: Some(updated),
                head: "Rule added to AetherLink.toml. I am now enforcing this for you.\n- Rule: "@
                    + RuleAddition::label_of(addition) + "\n- File: "@ + rules_path(project_path)
                    + "\n\n--- Updated AetherLink.toml ---\n"@ + updated
                    + "\n--- Immediate scan results ---\n"@,
            },
        ),
    }
}

/// What is said of a removal.
pub open spec fn removal_message(removal: RemovalView, outcome: RemovalOutcome) -> Seq<char> {
    match outcome {
        RemovalOutcome::Removed => "Rule removed: "@ + RuleRemoval::label_of(removal)
            + ". I am no longer enforcing it."@,
        RemovalOutcome::NotPresent => "Rule '"@ + RuleRemoval::label_of(removal)
            + "' was not set in AetherLink.toml — nothing to remove."@,
    }
}

/// What is done about a rule that is removed. `existing` is missing where there
/// is no `AetherLink.toml`. The file is written only where the rule was in it.
pub open spec fn remove_step(
    project_path: Seq<char>,
    removal: RemovalView,
    existing: Option<Seq<char>>,
) -> Result<StepView, Seq<char>> {
    match existing {
        None => Ok(
            StepView {
                write: None,
                head: "No AetherLink.toml at "@ + rules_path(project_path)
                    + ". Nothing to remove.\n\n--- Re-scan results ---\n"@,
            },
        ),
        Some(text) => match text_removed(text, removal) {
            Err(e) => Err(e.text()),
            Ok((updated, outcome)) => Ok(
                StepView {
                    write: match outcome {
                        RemovalOutcome::Removed => Some(updated),
                        RemovalOutcome::NotPresent => None,
                    },
                    head: removal_message(removal, outcome) + "\n- File: "@ + rules_path(
                        project_path,
                    ) + "\n\n--- Updated AetherLink.toml ---\n"@ + updated
                        + "\n--- Re-scan results ---\n"@,
                },
            ),
        },
    }
}

/// The reply after the project was scanned again.
pub open spec fn rule_reply(head: Seq<char>, scan: Result<Seq<char>, Seq<char>>) -> Seq<char> {
    match scan {
        Ok(text) => head + text,
        Err(e) => head + ("(re-scan failed: "@ + e + ")"@),
    }
}

/// Add a new architectural rule to the project's `AetherLink.toml`. `existing`
/// is its text, empty where there is none.
pub fn run_add_rule(request: &AddRequest, existing: &str) -> (r: Result<RuleStep, String>)
    ensures
        add_step(request.project_path@, request.addition@, existing@) == (match r {
            Ok(s) => Ok(s@),
            Err(e) => Err(e@),
        }),
{
    let updated = match add_rule_to_toml(existing, &request.addition) {
        Ok(s) => s,
        Err(e) => return Err(e.message()),
    };
    let mut head =
        "Rule added to AetherLink.toml. I am now enforcing this for you.\n- Rule: ".to_owned();
    head.append(&request.addition.human_label());
    head.append("\n- File: ");
    head.append(&Rules::config_path(&request.project_path));
    head.append("\n\n--- Updated AetherLink.toml ---\n");
    head.append(&updated);
    head.append("\n--- Immediate scan results ---\n");
    Ok(RuleStep { write: Some(updated), head })
}

/// Remove a rule from `AetherLink.toml`. Removing a rule that isn't set is a
/// safe no-op.
pub fn run_remove_rule(request: &RemoveRequest, existing: Option<&str>) -> (r: Result<
    RuleStep,
    String,
>)
    ensures
        remove_step(
            request.project_path@,
            request.removal@,
            match existing {
                Some(s) => Some(s@),
                None => None,
            },
        ) == (match r {
            Ok(s) => Ok(s@),
            Err(e) => Err(e@),
        }),
{
    let toml_path = Rules::config_path(&request.project_path);
    let existing = match existing {
        Some(s) => s,
        None => {
            let mut head = "No AetherLink.toml at ".to_owned();
            head.append(&toml_path);
            head.append(". Nothing to remove.\n\n--- Re-scan results ---\n");
            return Ok(RuleStep { write: None, head });
        },
    };
    let (updated, outcome) = match remove_rule_from_toml(existing, &request.removal) {
        Ok(done) => done,
        Err(e) => return Err(e.message()),
    };
    let mut head = match outcome {
        RemovalOutcome::Removed => {
            let mut s = "Rule removed: ".to_owned();
            s.append(&request.removal.human_label());
            s.append(". I am no longer enforcing it.");
            s
        },
        RemovalOutcome::NotPresent => {
            let mut s = "Rule '".to_owned();
            s.append(&request.removal.human_label());
            s.append("' was not set in AetherLink.toml — nothing to remove.");
            s
        },
    };
    head.append("\n- File: ");
    head.append(&toml_path);
    head.append("\n\n--- Updated AetherLink.toml ---\n");
    head.append(&updated);
    head.append("\n--- Re-scan results ---\n");
    let write = match outcome {
        RemovalOutcome::Removed => Some(updated),
        RemovalOutcome::NotPresent => None,
    };
    Ok(RuleStep { write, head })
}

/// The reply after the project was scanned again.
pub fn finish_rule_reply(head: &str, scan: &Result<String, String>) -> (s: String)
    ensures
        s@ == rule_reply(
            head@,
            match scan {
                Ok(t) => Ok(t@),
                Err(e) => Err(e@),
            },
        ),
{
    let mut s = head.to_owned();
    match scan {
        Ok(text) => {
            s.append(text);
        },
        Err(e) => {
            let mut failed = "(re-scan failed: ".to_owned();
            failed.append(e);
            failed.append(")");
            s.append(&failed);
        },
    }
    s
}

} // verus!
