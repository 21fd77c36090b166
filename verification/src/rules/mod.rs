//! The rules of a project: how they are written down, edited and enforced.
pub mod baseline;
pub mod config;
pub mod config_laws;
pub mod edit;
pub mod edit_effects;
pub mod edit_laws;
pub mod toml_doc;
pub mod validator;
pub mod validator_laws;

pub use baseline::{split_against_baseline, Baseline, BaselineEntry};
pub use config::{ConfigError, ForbiddenImport, RuleOverride, Rules, RulesFile};
pub use edit::{
    add_rule_to_toml, remove_rule_from_toml, EditError, RemovalOutcome, RuleAddition, RuleRemoval,
};
pub use validator::{validate, validate_with_overrides};

use vstd::prelude::*;
use vstd::string::*;

verus! {

/// Whether a broken rule blocks a write or is only reported.
#[derive(Debug, Clone, Copy, PartialEq, Eq, Structural)]
pub enum Severity {
    /// The violation blocks.
    Error,
    /// The violation is reported and does not block.
    Warning,
}

impl Severity {
    /// The name of the severity.
    pub open spec fn name(self) -> Seq<char> {
        match self {
            Severity::Error => "Error"@,
            Severity::Warning => "Warning"@,
        }
    }

    /// The name of the severity in small letters.
    pub open spec fn small_name(self) -> Seq<char> {
        match self {
            Severity::Error => "error"@,
            Severity::Warning => "warning"@,
        }
    }

    /// The name of the severity.
    pub fn label(self) -> (s: String)
        ensures
            s@ == self.name(),
    {
        match self {
            Severity::Error => "Error".to_owned(),
            Severity::Warning => "Warning".to_owned(),
        }
    }

    /// The name of the severity in small letters.
    pub fn small_label(self) -> (s: String)
        ensures
            s@ == self.small_name(),
    {
        match self {
            Severity::Error => "error".to_owned(),
            Severity::Warning => "warning".to_owned(),
        }
    }
}

/// A single broken rule, surfaced to the user with enough context to fix it.
#[derive(Debug)]
pub struct RuleViolation {
    /// The name of the rule.
    pub rule: String,
    /// What breaks it.
    pub message: String,
    /// Whether it blocks.
    pub severity: Severity,
}

/// What a [`RuleViolation`] holds.
#[verifier::ext_equal]
pub struct ViolationView {
    /// The name of the rule.
    pub rule: Seq<char>,
    /// What breaks it.
    pub message: Seq<char>,
    /// Whether it blocks.
    pub severity: Severity,
}

impl View for RuleViolation {
    type V = ViolationView;

    open spec fn view(&self) -> ViolationView {
        ViolationView { rule: self.rule@, message: self.message@, severity: self.severity }
    }
}

/// The identity of a violation: its rule and its message.
pub open spec fn fingerprint_of(rule: Seq<char>, message: Seq<char>) -> Seq<char> {
    rule + "::"@ + message
}

/// The text of a fingerprint.
pub fn fingerprint_text(rule: &str, message: &str) -> (s: String)
    ensures
        s@ == fingerprint_of(rule@, message@),
{
    let mut s = rule.to_owned();
    s.append("::");
    s.append(message);
    s
}

impl ViolationView {
    /// The identity of the violation.
    pub open spec fn fingerprint(self) -> Seq<char> {
        fingerprint_of(self.rule, self.message)
    }

    /// Whether the violation blocks.
    pub open spec fn is_error(self) -> bool {
        self.severity == Severity::Error
    }
}

/// What each violation of a sequence holds.
pub open spec fn violations_view(v: Seq<RuleViolation>) -> Seq<ViolationView> {
    Seq::new(v.len(), |i: int| v[i]@)
}

impl Clone for RuleViolation {
    fn clone(&self) -> (r: Self)
        ensures
            r@ == self@,
    {
        RuleViolation {
            rule: self.rule.clone(),
            message: self.message.clone(),
            severity: self.severity,
        }
    }
}

impl RuleViolation {
    /// The identity of the violation, as a baseline remembers it.
    pub fn fingerprint(&self) -> (s: String)
        ensures
            s@ == self@.fingerprint(),
    {
        fingerprint_text(&self.rule, &self.message)
    }
}

} // verus!
