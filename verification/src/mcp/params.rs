//! The arguments of tool calls.
use vstd::prelude::*;
use vstd::string::*;

use super::lease::{as_secs, seconds};
use crate::json::{
    bool_of, get_bool, get_i64, get_text, i64_of, json_node, member, member_text, text_of, JsonNode,
};
use crate::paths::extension_of;
use crate::rules::config::{arrow_pair, parse_arrow, ArrowError};
use crate::rules::edit::{AdditionView, RemovalView};
use crate::rules::{RuleAddition, RuleRemoval};
use crate::scanner::file_scanner::path_language;
use crate::scanner::Language;
use crate::text::{decimal, number, same};

verus! {

// ---------------------------------------------------------------------------
// Required texts
// ---------------------------------------------------------------------------

/// What is said of an argument that is missing or not a string.
pub open spec fn missing_argument(key: Seq<char>) -> Seq<char> {
    "missing '"@ + key + "' argument"@
}

/// The text of an argument, or what is said where it is missing.
pub open spec fn argument(args: JsonNode, key: Seq<char>) -> Result<Seq<char>, Seq<char>> {
    match member_text(args, key) {
        Some(s) => Ok(s),
        None => Err(missing_argument(key)),
    }
}

/// The text of an argument.
pub fn required_text(args: &serde_json::Value, key: &str) -> (r: Result<String, String>)
    ensures
        argument(json_node(*args), key@) == (match r {
            Ok(s) => Ok(s@),
            Err(e) => Err(e@),
        }),
{
    match get_text(args, key) {
        Some(s) => Ok(s),
        None => {
            let mut e = "missing '".to_owned();
            e.append(key);
            e.append("' argument");
            Err(e)
        },
    }
}

// ---------------------------------------------------------------------------
// Rules
// ---------------------------------------------------------------------------

/// The two sides of an arrow rule, or what is said where there are none.
pub open spec fn arrow_param(s: Seq<char>) -> Result<(Seq<char>, Seq<char>), Seq<char>> {
    match arrow_pair(s) {
        Ok(pair) => Ok(pair),
        Err(ArrowError::MissingArrow) => Err("expected 'from -> to', got '"@ + s + "'"@),
        Err(ArrowError::EmptySide) => Err("forbidden_import has empty side: '"@ + s + "'"@),
    }
}

/// The two sides of a forbidden import: an arrow rule alone or under `rule`, or
/// else the texts under `from` and `to`.
pub open spec fn forbidden_param(params: JsonNode) -> Result<(Seq<char>, Seq<char>), Seq<char>> {
    match (text_of(Some(params)), member_text(params, "rule"@)) {
        (Some(s), _) => arrow_param(s),
        (None, Some(s)) => arrow_param(s),
        (None, None) => match (member_text(params, "from"@), member_text(params, "to"@)) {
            (None, _) => Err(
                "forbidden_import expects params like {\"from\": \"ui\", \"to\": \"db\"}"@,
            ),
            (Some(_), None) => Err("forbidden_import params missing 'to'"@),
            (Some(from), Some(to)) => Ok((from, to)),
        },
    }
}

/// The line limit: a bare integer, or one under `value`, `max` or `limit`.
pub open spec fn limit_param(params: JsonNode) -> Option<i64> {
    match (
        i64_of(Some(params)),
        i64_of(member(params, "value"@)),
        i64_of(member(params, "max"@)),
    ) {
        (Some(n), _, _) => Some(n),
        (None, Some(n), _) => Some(n),
        (None, None, Some(n)) => Some(n),
        (None, None, None) => i64_of(member(params, "limit"@)),
    }
}

/// Whether cycles are forbidden: a bare truth value, or one under `enabled` or
/// `value`.
pub open spec fn cycles_param(params: JsonNode) -> Option<bool> {
    match (bool_of(Some(params)), bool_of(member(params, "enabled"@))) {
        (Some(b), _) => Some(b),
        (None, Some(b)) => Some(b),
        (None, None) => bool_of(member(params, "value"@)),
    }
}

/// The rule types by which a tool call names a rule.
pub enum RuleType {
    /// `max_file_lines` or `line_limit`.
    Lines,
    /// `no_cycles`.
    Cycles,
    /// `forbidden_import` or `forbidden_imports`.
    Forbidden,
    /// Any other.
    Other,
}

/// The rule type that a text names.
pub open spec fn rule_type_of(s: Seq<char>) -> RuleType {
    if s == "max_file_lines"@ || s == "line_limit"@ {
        RuleType::Lines
    } else if s == "no_cycles"@ {
        RuleType::Cycles
    } else if s == "forbidden_import"@ || s == "forbidden_imports"@ {
        RuleType::Forbidden
    } else {
        RuleType::Other
    }
}

/// What is said of an unknown rule type.
pub open spec fn unknown_rule_type(s: Seq<char>) -> Seq<char> {
    "unknown rule_type '"@ + s
        + "'. Use one of: forbidden_import, line_limit (max_file_lines), no_cycles."@
}

/// The rule that a tool call adds.
pub open spec fn addition_param(rule_type: Seq<char>, params: JsonNode) -> Result<
    AdditionView,
    Seq<char>,
> {
    match rule_type_of(rule_type) {
        RuleType::Lines => match limit_param(params) {
            Some(n) => Ok(AdditionView::MaxFileLines(n)),
            None => Err(rule_type + " expects params like {\"value\": 500}"@),
        },
        RuleType::Cycles => match cycles_param(params) {
            Some(b) => Ok(AdditionView::NoCycles(b)),
            None => Err("no_cycles expects params like {\"enabled\": true}"@),
        },
        RuleType::Forbidden => match forbidden_param(params) {
            Ok((from, to)) => Ok(AdditionView::ForbiddenImport { from, to }),
            Err(e) => Err(e),
        },
        RuleType::Other => Err(unknown_rule_type(rule_type)),
    }
}

/// The rule that a tool call removes.
pub open spec fn removal_param(rule_type: Seq<char>, params: JsonNode) -> Result<
    RemovalView,
    Seq<char>,
> {
    match rule_type_of(rule_type) {
        RuleType::Lines => Ok(RemovalView::MaxFileLines),
        RuleType::Cycles => Ok(RemovalView::NoCycles),
        RuleType::Forbidden => match forbidden_param(params) {
            Ok((from, to)) => Ok(RemovalView::ForbiddenImport { from, to }),
            Err(e) => Err(e),
        },
        RuleType::Other => Err(unknown_rule_type(rule_type)),
    }
}

fn rule_type_named(s: &str) -> (r: RuleType)
    ensures
        r == rule_type_of(s@),
{
    if same(s, "max_file_lines") || same(s, "line_limit") {
        RuleType::Lines
    } else if same(s, "no_cycles") {
        RuleType::Cycles
    } else if same(s, "forbidden_import") || same(s, "forbidden_imports") {
        RuleType::Forbidden
    } else {
        RuleType::Other
    }
}

fn unknown_rule_type_text(s: &str) -> (e: String)
    ensures
        e@ == unknown_rule_type(s@),
{
    let mut e = "unknown rule_type '".to_owned();
    e.append(s);
    e.append("'. Use one of: forbidden_import, line_limit (max_file_lines), no_cycles.");
    e
}

/// The two sides of an arrow rule.
pub fn parse_arrow_pair(s: &str) -> (r: Result<(String, String), String>)
    ensures
        arrow_param(s@) == (match r {
            Ok((from, to)) => Ok((from@, to@)),
            Err(e) => Err(e@),
        }),
{
    match parse_arrow(s) {
        Ok(pair) => Ok(pair),
        Err(ArrowError::MissingArrow) => {
            let mut e = "expected 'from -> to', got '".to_owned();
            e.append(s);
            e.append("'");
            Err(e)
        },
        Err(ArrowError::EmptySide) => {
            let mut e = "forbidden_import has empty side: '".to_owned();
            e.append(s);
            e.append("'");
            Err(e)
        },
    }
}

/// Pull a `(from, to)` pair out of the loose `params` shape that is accepted
/// for forbidden imports. Used by both add and remove parsers, so the
/// supported shapes stay identical between the two tools.
pub fn parse_forbidden_params(params: &serde_json::Value) -> (r: Result<(String, String), String>)
    ensures
        forbidden_param(json_node(*params)) == (match r {
            Ok((from, to)) => Ok((from@, to@)),
            Err(e) => Err(e@),
        }),
{
    match params.as_str() {
        Some(s) => return parse_arrow_pair(s),
        None => {},
    }
    match get_text(params, "rule") {
        Some(s) => return parse_arrow_pair(&s),
        None => {},
    }
    let from = match get_text(params, "from") {
        Some(s) => s,
        None => {
            return Err(
                "forbidden_import expects params like {\"from\": \"ui\", \"to\": \"db\"}".to_owned(),
            );
        },
    };
    match get_text(params, "to") {
        Some(to) => Ok((from, to)),
        None => Err("forbidden_import params missing 'to'".to_owned()),
    }
}

/// Translate the loose `(rule_type, params)` shape coming over MCP into a typed
/// `RuleAddition`. Accepts several common phrasings so an AI client doesn't
/// have to remember the exact key names.
pub fn parse_rule_addition(rule_type: &str, params: &serde_json::Value) -> (r: Result<
    RuleAddition,
    String,
>)
    ensures
        addition_param(rule_type@, json_node(*params)) == (match r {
            Ok(a) => Ok(a@),
            Err(e) => Err(e@),
        }),
{
    match rule_type_named(rule_type) {
        RuleType::Lines => {
            let n = match params.as_i64() {
                Some(n) => Some(n),
                None => match get_i64(params, "value") {
                    Some(n) => Some(n),
                    None => match get_i64(params, "max") {
                        Some(n) => Some(n),
                        None => get_i64(params, "limit"),
                    },
                },
            };
            match n {
                Some(n) => Ok(RuleAddition::MaxFileLines(n)),
                None => {
                    let mut e = rule_type.to_owned();
                    e.append(" expects params like {\"value\": 500}");
                    Err(e)
                },
            }
        },
        RuleType::Cycles => {
            let b = match params.as_bool() {
                Some(b) => Some(b),
                None => match get_bool(params, "enabled") {
                    Some(b) => Some(b),
                    None => get_bool(params, "value"),
                },
            };
            match b {
                Some(b) => Ok(RuleAddition::NoCycles(b)),
                None => Err("no_cycles expects params like {\"enabled\": true}".to_owned()),
            }
        },
        RuleType::Forbidden => match parse_forbidden_params(params) {
            Ok((from, to)) => Ok(RuleAddition::ForbiddenImport { from, to }),
            Err(e) => Err(e),
        },
        RuleType::Other => Err(unknown_rule_type_text(rule_type)),
    }
}

/// Translate a `remove_rule` MCP call into a typed `RuleRemoval`. Mirrors
/// `parse_rule_addition` so the same loose JSON shapes work for both.
pub fn parse_rule_removal(rule_type: &str, params: &serde_json::Value) -> (r: Result<
    RuleRemoval,
    String,
>)
    ensures
        removal_param(rule_type@, json_node(*params)) == (match r {
            Ok(a) => Ok(a@),
            Err(e) => Err(e@),
        }),
{
    match rule_type_named(rule_type) {
        RuleType::Lines => Ok(RuleRemoval::MaxFileLines),
        RuleType::Cycles => Ok(RuleRemoval::NoCycles),
        RuleType::Forbidden => match parse_forbidden_params(params) {
            Ok((from, to)) => Ok(RuleRemoval::ForbiddenImport { from, to }),
            Err(e) => Err(e),
        },
        RuleType::Other => Err(unknown_rule_type_text(rule_type)),
    }
}

// ---------------------------------------------------------------------------
// Changes
// ---------------------------------------------------------------------------

/// A proposed file edit.
#[derive(Debug)]
pub struct ChangeRequest {
    /// The project root.
    pub root: String,
    /// The file.
    pub target: String,
    /// Its full new contents.
    pub new_content: String,
    /// The language of the file.
    pub language: Language,
}

/// What a [`ChangeRequest`] holds.
#[verifier::ext_equal]
pub struct ChangeView {
    /// The project root.
    pub root: Seq<char>,
    /// The file.
    pub target: Seq<char>,
    /// Its full new contents.
    pub new_content: Seq<char>,
    /// The language of the file.
    pub language: Language,
}

impl View for ChangeRequest {
    type V = ChangeView;

    open spec fn view(&self) -> ChangeView {
        ChangeView {
            root: self.root@,
            target: self.target@,
            new_content: self.new_content@,
            language: self.language,
        }
    }
}

/// The edit that a tool call proposes.
pub open spec fn change_param(args: JsonNode) -> Result<ChangeView, Seq<char>> {
    match (
        argument(args, "project_path"@),
        argument(args, "file_path"@),
        argument(args, "new_content"@),
    ) {
        (Err(e), _, _) => Err(e),
        (_, Err(e), _) => Err(e),
        (_, _, Err(e)) => Err(e),
        (Ok(root), Ok(target), Ok(new_content)) => Ok(
            ChangeView { root, target, new_content, language: path_language(target) },
        ),
    }
}

/// Common argument extraction for `check_change` and `apply_guarded_change`.
pub fn extract_change_args(args: &serde_json::Value) -> (r: Result<ChangeRequest, String>)
    ensures
        change_param(json_node(*args)) == (match r {
            Ok(c) => Ok(c@),
            Err(e) => Err(e@),
        }),
{
    let root = match required_text(args, "project_path") {
        Ok(s) => s,
        Err(e) => return Err(e),
    };
    let target = match required_text(args, "file_path") {
        Ok(s) => s,
        Err(e) => return Err(e),
    };
    let new_content = match required_text(args, "new_content") {
        Ok(s) => s,
        Err(e) => return Err(e),
    };
    let language = Language::from_extension(&extension_of(&target));
    Ok(ChangeRequest { root, target, new_content, language })
}

// ---------------------------------------------------------------------------
// Durations
// ---------------------------------------------------------------------------

/// A time span in nanoseconds as `Nm Ms`, or as `Ms` where it is shorter than a
/// minute.
pub open spec fn duration_text(nanos: u128) -> Seq<char> {
    let secs = seconds(nanos);
    if secs / 60 > 0 {
        decimal((secs / 60) as nat) + "m "@ + decimal((secs % 60) as nat) + "s"@
    } else {
        decimal((secs % 60) as nat) + "s"@
    }
}

/// Render a time span as `Nm Ms` (e.g. `4m 32s`) for human-friendly messages.
pub fn format_duration(nanos: u128) -> (s: String)
    ensures
        s@ == duration_text(nanos),
{
    let secs: u128 = as_secs(nanos);
    let m: u128 = secs / 60;
    let rest: u128 = secs % 60;
    if m > 0 {
        let mut s = number(m);
        s.append("m ");
        s.append(&number(rest));
        s.append("s");
        s
    } else {
        let mut s = number(rest);
        s.append("s");
        s
    }
}

} // verus!
