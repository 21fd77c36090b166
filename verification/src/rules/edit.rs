//! In-place editing of `AetherLink.toml`.
//!
//! The edits work on the document rather than on [`super::Rules`], so that keys
//! which the rules do not know are kept. What an edit does to a document is
//! [`added`] and [`removed`]; the functions on text read the document, apply
//! one of these and print the outcome.
use vstd::prelude::*;
use vstd::string::*;

use super::toml_doc::{
    date_key, dates_are_readable, depth_limit, entry, floats_are_readable, has_headers, holds,
    is_text_of, item_fits, no_entries, parse_toml, print_toml, table_quotes_fit, toml_array,
    toml_boolean, toml_entries, toml_entry_or, toml_integer, toml_member_mut, toml_node,
    toml_nodes, toml_parsed, toml_plain, toml_pretty, toml_quotes_fit, toml_remove, toml_string,
    toml_table, toml_writable, value_fits, TomlNode,
};
use crate::text::{
    char_views, chars_of, decimal_signed, join_chars, joined, signed_number, split, split_chars,
    trim_chars, trimmed, CharClass,
};

verus! {

// ---------------------------------------------------------------------------
// Additions and removals
// ---------------------------------------------------------------------------

/// A single rule the user wants to add. Each variant maps onto exactly one key
/// of the `[rules]` section.
#[derive(Debug, PartialEq, Eq)]
pub enum RuleAddition {
    /// Set the line limit.
    MaxFileLines(i64),
    /// Forbid or allow cycles.
    NoCycles(bool),
    /// Forbid an import.
    ForbiddenImport {
        /// The folder that must not import.
        from: String,
        /// The folder that must not be imported.
        to: String,
    },
}

/// What a [`RuleAddition`] holds.
pub enum AdditionView {
    /// Set the line limit.
    MaxFileLines(i64),
    /// Forbid or allow cycles.
    NoCycles(bool),
    /// Forbid an import.
    ForbiddenImport {
        /// The folder that must not import.
        from: Seq<char>,
        /// The folder that must not be imported.
        to: Seq<char>,
    },
}

impl Clone for RuleAddition {
    fn clone(&self) -> (out: Self)
        ensures
            out@ == self@,
    {
        match self {
            RuleAddition::MaxFileLines(n) => RuleAddition::MaxFileLines(*n),
            RuleAddition::NoCycles(b) => RuleAddition::NoCycles(*b),
            RuleAddition::ForbiddenImport { from, to } => RuleAddition::ForbiddenImport {
                from: from.clone(),
                to: to.clone(),
            },
        }
    }
}

impl View for RuleAddition {
    type V = AdditionView;

    open spec fn view(&self) -> AdditionView {
        match self {
            RuleAddition::MaxFileLines(n) => AdditionView::MaxFileLines(*n),
            RuleAddition::NoCycles(b) => AdditionView::NoCycles(*b),
            RuleAddition::ForbiddenImport { from, to } => AdditionView::ForbiddenImport {
                from: from@,
                to: to@,
            },
        }
    }
}

/// A rule the user wants to remove. Scalar rules need no value, and a forbidden
/// import is named by its two sides.
#[derive(Debug, PartialEq, Eq)]
pub enum RuleRemoval {
    /// Drop the line limit.
    MaxFileLines,
    /// Drop the rule on cycles.
    NoCycles,
    /// Allow an import again.
    ForbiddenImport {
        /// The folder that must not import.
        from: String,
        /// The folder that must not be imported.
        to: String,
    },
}

/// What a [`RuleRemoval`] holds.
pub enum RemovalView {
    /// Drop the line limit.
    MaxFileLines,
    /// Drop the rule on cycles.
    NoCycles,
    /// Allow an import again.
    ForbiddenImport {
        /// The folder that must not import.
        from: Seq<char>,
        /// The folder that must not be imported.
        to: Seq<char>,
    },
}

impl Clone for RuleRemoval {
    fn clone(&self) -> (out: Self)
        ensures
            out@ == self@,
    {
        match self {
            RuleRemoval::MaxFileLines => RuleRemoval::MaxFileLines,
            RuleRemoval::NoCycles => RuleRemoval::NoCycles,
            RuleRemoval::ForbiddenImport { from, to } => RuleRemoval::ForbiddenImport {
                from: from.clone(),
                to: to.clone(),
            },
        }
    }
}

impl View for RuleRemoval {
    type V = RemovalView;

    open spec fn view(&self) -> RemovalView {
        match self {
            RuleRemoval::MaxFileLines => RemovalView::MaxFileLines,
            RuleRemoval::NoCycles => RemovalView::NoCycles,
            RuleRemoval::ForbiddenImport { from, to } => RemovalView::ForbiddenImport {
                from: from@,
                to: to@,
            },
        }
    }
}

/// Whether a removal changed anything.
#[derive(Debug, Clone, Copy, PartialEq, Eq, Structural)]
pub enum RemovalOutcome {
    /// The rule was there and is gone.
    Removed,
    /// There was no such rule.
    NotPresent,
}

/// Why an edit is refused.
#[derive(Debug, Clone, Copy, PartialEq, Eq, Structural)]
pub enum EditError {
    /// The text is not TOML.
    Parse,
    /// `rules` is not a table.
    RulesNotTable,
    /// The line limit is not positive.
    LineLimit(i64),
    /// One side of a forbidden import is empty.
    EmptySide,
    /// `forbidden_imports` is not an array.
    ForbiddenNotArray,
    /// A string of the edited document holds too many equal quotes in a row to
    /// be written.
    Quotes,
    /// The edited document has no text.
    Print,
}

impl EditError {
    /// What the error says.
    pub open spec fn text(self) -> Seq<char> {
        match self {
            EditError::Parse => "parsing existing AetherLink.toml"@,
            EditError::RulesNotTable => "'rules' exists in AetherLink.toml but is not a table"@,
            EditError::LineLimit(n) => "max_file_lines must be positive, got "@ + decimal_signed(
                n as int,
            ),
            EditError::EmptySide => "forbidden_import 'from' and 'to' must be non-empty"@,
            EditError::ForbiddenNotArray => "'forbidden_imports' exists but is not an array"@,
            EditError::Quotes => "a string in AetherLink.toml holds too many quotes in a row"@,
            EditError::Print => "serializing updated AetherLink.toml"@,
        }
    }

    /// What the error says.
    pub fn message(self) -> (s: String)
        ensures
            s@ == self.text(),
    {
        match self {
            EditError::Parse => "parsing existing AetherLink.toml".to_owned(),
            EditError::RulesNotTable => {
                "'rules' exists in AetherLink.toml but is not a table".to_owned()
            },
            EditError::LineLimit(n) => {
                let mut s = "max_file_lines must be positive, got ".to_owned();
                s.append(&signed_number(n));
                s
            },
            EditError::EmptySide => {
                "forbidden_import 'from' and 'to' must be non-empty".to_owned()
            },
            EditError::ForbiddenNotArray => {
                "'forbidden_imports' exists but is not an array".to_owned()
            },
            EditError::Quotes => {
                "a string in AetherLink.toml holds too many quotes in a row".to_owned()
            },
            EditError::Print => "serializing updated AetherLink.toml".to_owned(),
        }
    }
}

/// The text of an arrow rule.
pub open spec fn arrow_text(from: Seq<char>, to: Seq<char>) -> Seq<char> {
    from + " -> "@ + to
}

/// The text of an arrow rule.
pub fn arrow_rule(from: &str, to: &str) -> (s: String)
    ensures
        s@ == arrow_text(from@, to@),
{
    let mut s = from.to_owned();
    s.append(" -> ");
    s.append(to);
    s
}

impl RuleAddition {
    /// The short label of an addition.
    pub open spec fn label_of(a: AdditionView) -> Seq<char> {
        match a {
            AdditionView::MaxFileLines(n) => "max_file_lines = "@ + decimal_signed(n as int),
            AdditionView::NoCycles(b) => "no_cycles = "@ + (if b {
                "true"@
            } else {
                "false"@
            }),
            AdditionView::ForbiddenImport { from, to } => "forbidden_imports += \""@ + arrow_text(
                from,
                to,
            ) + "\""@,
        }
    }

    /// Short label for log messages and CLI feedback.
    pub fn human_label(&self) -> (s: String)
        ensures
            s@ == RuleAddition::label_of(self@),
    {
        match self {
            RuleAddition::MaxFileLines(n) => {
                let mut s = "max_file_lines = ".to_owned();
                s.append(&signed_number(*n));
                s
            },
            RuleAddition::NoCycles(b) => {
                let mut s = "no_cycles = ".to_owned();
                if *b {
                    s.append("true");
                } else {
                    s.append("false");
                }
                s
            },
            RuleAddition::ForbiddenImport { from, to } => {
                let mut s = "forbidden_imports += \"".to_owned();
                s.append(&arrow_rule(from, to));
                s.append("\"");
                s
            },
        }
    }
}

impl RuleRemoval {
    /// The short label of a removal.
    pub open spec fn label_of(r: RemovalView) -> Seq<char> {
        match r {
            RemovalView::MaxFileLines => "max_file_lines"@,
            RemovalView::NoCycles => "no_cycles"@,
            RemovalView::ForbiddenImport { from, to } => "forbidden_imports -= \""@ + arrow_text(
                from,
                to,
            ) + "\""@,
        }
    }

    /// Short label for log messages and CLI feedback.
    pub fn human_label(&self) -> (s: String)
        ensures
            s@ == RuleRemoval::label_of(self@),
    {
        match self {
            RuleRemoval::MaxFileLines => "max_file_lines".to_owned(),
            RuleRemoval::NoCycles => "no_cycles".to_owned(),
            RuleRemoval::ForbiddenImport { from, to } => {
                let mut s = "forbidden_imports -= \"".to_owned();
                s.append(&arrow_rule(from, to));
                s.append("\"");
                s
            },
        }
    }
}

// ---------------------------------------------------------------------------
// What an edit does to a document
// ---------------------------------------------------------------------------

/// Each part of a sequence without the white space around it.
pub open spec fn trimmed_parts(parts: Seq<Seq<char>>) -> Seq<Seq<char>> {
    Seq::new(parts.len(), |i: int| trimmed(parts[i]))
}

/// The text of an arrow rule with exactly one blank on each side of an arrow.
pub open spec fn normal_arrow(s: Seq<char>) -> Seq<char> {
    joined(trimmed_parts(split(s, "->"@)), " -> "@)
}

/// Whether the element writes down the same rule as `rule`, up to the white
/// space around arrows and at the ends.
pub open spec fn is_rule(node: TomlNode, rule: Seq<char>) -> bool {
    match node {
        TomlNode::Text(s) => normal_arrow(s) == normal_arrow(rule),
        _ => false,
    }
}

/// Whether one of the elements writes down the rule.
pub open spec fn has_rule(a: Seq<TomlNode>, rule: Seq<char>) -> bool {
    exists|i: int| 0 <= i < a.len() && is_rule(#[trigger] a[i], rule)
}

/// The elements that do not write down the rule.
pub open spec fn without_rule(a: Seq<TomlNode>, rule: Seq<char>) -> Seq<TomlNode>
    decreases a.len(),
{
    if a.len() == 0 {
        Seq::empty()
    } else {
        let before = without_rule(a.subrange(0, a.len() - 1), rule);
        if is_rule(a[a.len() - 1], rule) {
            before
        } else {
            before.push(a[a.len() - 1])
        }
    }
}

/// The document that a text stands for. A text of white space alone is the
/// empty document.
pub open spec fn document(text: Seq<char>) -> Option<Map<Seq<char>, TomlNode>> {
    if trimmed(text).len() == 0 {
        Some(no_entries())
    } else {
        toml_parsed(text)
    }
}

/// The entries of `[rules]`; none where there is no such table.
pub open spec fn rules_table(doc: Map<Seq<char>, TomlNode>) -> Result<
    Map<Seq<char>, TomlNode>,
    EditError,
> {
    match entry(doc, "rules"@) {
        None => Ok(no_entries()),
        Some(TomlNode::Table(t)) => Ok(t),
        Some(_) => Err(EditError::RulesNotTable),
    }
}

/// The elements of `forbidden_imports`; none where there is no such array.
pub open spec fn forbidden_array(rules: Map<Seq<char>, TomlNode>) -> Result<
    Seq<TomlNode>,
    EditError,
> {
    match entry(rules, "forbidden_imports"@) {
        None => Ok(Seq::empty()),
        Some(TomlNode::Array(a)) => Ok(a),
        Some(_) => Err(EditError::ForbiddenNotArray),
    }
}

/// The entries of `[rules]` after an addition.
pub open spec fn rules_added(rules: Map<Seq<char>, TomlNode>, addition: AdditionView) -> Result<
    Map<Seq<char>, TomlNode>,
    EditError,
> {
    match addition {
        AdditionView::MaxFileLines(n) => if n <= 0 {
            Err(EditError::LineLimit(n))
        } else {
            Ok(rules.insert("max_file_lines"@, TomlNode::Integer(n)))
        },
        AdditionView::NoCycles(b) => Ok(rules.insert("no_cycles"@, TomlNode::Boolean(b))),
        AdditionView::ForbiddenImport { from, to } => if from.len() == 0 || to.len() == 0 {
            Err(EditError::EmptySide)
        } else {
            match forbidden_array(rules) {
                Err(e) => Err(e),
                Ok(a) => Ok(
                    rules.insert(
                        "forbidden_imports"@,
                        TomlNode::Array(
                            if has_rule(a, arrow_text(from, to)) {
                                a
                            } else {
                                a.push(TomlNode::Text(arrow_text(from, to)))
                            },
                        ),
                    ),
                ),
            }
        },
    }
}

/// The document after an addition.
pub open spec fn added(doc: Map<Seq<char>, TomlNode>, addition: AdditionView) -> Result<
    Map<Seq<char>, TomlNode>,
    EditError,
> {
    match rules_table(doc) {
        Err(e) => Err(e),
        Ok(rules) => match rules_added(rules, addition) {
            Err(e) => Err(e),
            Ok(after) => Ok(doc.insert("rules"@, TomlNode::Table(after))),
        },
    }
}

/// The outcome of taking `key` out of `[rules]`.
pub open spec fn key_removed(rules: Map<Seq<char>, TomlNode>, key: Seq<char>) -> (
    Map<Seq<char>, TomlNode>,
    RemovalOutcome,
) {
    (
        rules.remove(key),
        if rules.contains_key(key) {
            RemovalOutcome::Removed
        } else {
            RemovalOutcome::NotPresent
        },
    )
}

/// The entries of `[rules]` after a removal, and its outcome. An array that
/// loses its last element is dropped.
pub open spec fn rules_removed(rules: Map<Seq<char>, TomlNode>, removal: RemovalView) -> Result<
    (Map<Seq<char>, TomlNode>, RemovalOutcome),
    EditError,
> {
    match removal {
        RemovalView::MaxFileLines => Ok(key_removed(rules, "max_file_lines"@)),
        RemovalView::NoCycles => Ok(key_removed(rules, "no_cycles"@)),
        RemovalView::ForbiddenImport { from, to } => match entry(rules, "forbidden_imports"@) {
            None => Ok((rules, RemovalOutcome::NotPresent)),
            Some(TomlNode::Array(a)) => {
                let left = without_rule(a, arrow_text(from, to));
                Ok(
                    (
                        if left.len() == 0 && a.len() > 0 {
                            rules.remove("forbidden_imports"@)
                        } else {
                            rules.insert("forbidden_imports"@, TomlNode::Array(left))
                        },
                        if left.len() < a.len() {
                            RemovalOutcome::Removed
                        } else {
                            RemovalOutcome::NotPresent
                        },
                    ),
                )
            },
            Some(_) => Err(EditError::ForbiddenNotArray),
        },
    }
}

/// The document after a removal, and its outcome.
pub open spec fn removed(doc: Map<Seq<char>, TomlNode>, removal: RemovalView) -> Result<
    (Map<Seq<char>, TomlNode>, RemovalOutcome),
    EditError,
> {
    match entry(doc, "rules"@) {
        None => Ok((doc, RemovalOutcome::NotPresent)),
        Some(TomlNode::Table(rules)) => match rules_removed(rules, removal) {
            Err(e) => Err(e),
            Ok((after, outcome)) => Ok((doc.insert("rules"@, TomlNode::Table(after)), outcome)),
        },
        Some(_) => Err(EditError::RulesNotTable),
    }
}

/// The text of a rules file after an addition.
pub open spec fn text_added(existing: Seq<char>, addition: AdditionView) -> Result<
    Seq<char>,
    EditError,
> {
    match document(existing) {
        None => Err(EditError::Parse),
        Some(doc) => match added(doc, addition) {
            Err(e) => Err(e),
            Ok(after) => if !toml_quotes_fit(after) {
                Err(EditError::Quotes)
            } else {
                match toml_pretty(after) {
                    Some(s) => Ok(s),
                    None => Err(EditError::Print),
                }
            },
        },
    }
}

/// The text of a rules file after a removal, and its outcome. A text of white
/// space alone holds no rule, and becomes the empty text.
pub open spec fn text_removed(existing: Seq<char>, removal: RemovalView) -> Result<
    (Seq<char>, RemovalOutcome),
    EditError,
> {
    if trimmed(existing).len() == 0 {
        Ok((Seq::empty(), RemovalOutcome::NotPresent))
    } else {
        match toml_parsed(existing) {
            None => Err(EditError::Parse),
            Some(doc) => match removed(doc, removal) {
                Err(e) => Err(e),
                Ok((after, outcome)) => if !toml_quotes_fit(after) {
                    Err(EditError::Quotes)
                } else {
                    match toml_pretty(after) {
                        Some(s) => Ok((s, outcome)),
                        None => Err(EditError::Print),
                    }
                },
            },
        }
    }
}

/// Whether an addition to the text must succeed: the document can be edited, and
/// what comes out can be written.
pub open spec fn addition_is_owed(existing: Seq<char>, addition: AdditionView) -> bool {
    &&& document(existing) matches Some(doc)
    &&& added(doc, addition) matches Ok(after)
    &&& toml_writable(after)
    &&& toml_quotes_fit(after)
}

/// Whether a removal from the text must succeed: there is nothing in it, or the
/// document can be edited, and what comes out can be written.
pub open spec fn removal_is_owed(existing: Seq<char>, removal: RemovalView) -> bool {
    trimmed(existing).len() == 0 || {
        &&& toml_parsed(existing) matches Some(doc)
        &&& removed(doc, removal) matches Ok((after, _))
        &&& toml_writable(after)
        &&& toml_quotes_fit(after)
    }
}

/// What holds of the text that an addition gives: it is not blank, and if the
/// edited document can be written, it is a text of that document.
pub open spec fn is_text_added(
    existing: Seq<char>,
    addition: AdditionView,
    text: Seq<char>,
) -> bool {
    &&& text_added(existing, addition) == Ok::<_, EditError>(text)
    &&& trimmed(text).len() > 0
    &&& ({
        let after = added(document(existing)->0, addition)->Ok_0;
        toml_writable(after) ==> is_text_of(after, text)
    })
}

/// What holds of the text and the outcome that a removal gives: if there was a
/// document and what the edit leaves of it can be written, it is a text of that.
pub open spec fn is_text_removed(
    existing: Seq<char>,
    removal: RemovalView,
    text: Seq<char>,
    outcome: RemovalOutcome,
) -> bool {
    &&& text_removed(existing, removal) == Ok::<_, EditError>((text, outcome))
    &&& trimmed(existing).len() > 0 ==> ({
        let after = removed(toml_parsed(existing)->0, removal)->Ok_0.0;
        toml_writable(after) ==> is_text_of(after, text)
    })
}

// ---------------------------------------------------------------------------
// Edits on text
// ---------------------------------------------------------------------------

/// The text of an arrow rule with exactly one blank on each side of an arrow.
pub fn normalize_arrow_rule(s: &str) -> (out: String)
    ensures
        out@ == normal_arrow(s@),
{
    let sep = chars_of("->");
    proof {
        reveal_strlit("->");
    }
    let parts = split_chars(&chars_of(s), &sep);
    let mut trimmed_all: Vec<Vec<char>> = Vec::new();
    let mut i: usize = 0;
    while i < parts.len()
        invariant
            i <= parts@.len(),
            trimmed_all@.len() == i,
            forall|k: int| 0 <= k < i ==> #[trigger] trimmed_all@[k]@ == trimmed(parts@[k]@),
        decreases parts.len() - i,
    {
        trimmed_all.push(trim_chars(&parts[i], CharClass::Space));
        i += 1;
    }
    assert(char_views(trimmed_all@) =~= trimmed_parts(split(s@, "->"@)));
    join_chars(&trimmed_all, " -> ")
}

fn writes_rule(v: &toml::Value, rule: &str) -> (r: bool)
    ensures
        r == is_rule(toml_node(*v), rule@),
{
    match v.as_str() {
        Some(s) => {
            let a = normalize_arrow_rule(s);
            let b = normalize_arrow_rule(rule);
            a == b
        },
        None => false,
    }
}

fn any_writes_rule(a: &Vec<toml::Value>, rule: &str) -> (r: bool)
    ensures
        r == has_rule(toml_nodes(a@), rule@),
{
    let mut i: usize = 0;
    while i < a.len()
        invariant
            i <= a@.len(),
            forall|k: int| 0 <= k < i ==> !is_rule(#[trigger] toml_nodes(a@)[k], rule@),
        decreases a.len() - i,
    {
        assert(toml_nodes(a@)[i as int] == toml_node(a@[i as int]));
        if writes_rule(&a[i], rule) {
            return true;
        }
        i += 1;
    }
    false
}

fn retain_others(a: &mut Vec<toml::Value>, rule: &str)
    ensures
        toml_nodes(final(a)@) == without_rule(toml_nodes(old(a)@), rule@),
{
    let ghost all = toml_nodes(a@);
    let total: usize = a.len();
    let mut seen: usize = 0;
    let mut i: usize = 0;
    assert(all.subrange(0, 0) =~= Seq::<TomlNode>::empty());
    assert(toml_nodes(a@) =~= without_rule(all.subrange(0, 0), rule@) + all.subrange(
        0,
        total as int,
    ));
    while seen < total
        invariant
            all == toml_nodes(old(a)@),
            all.len() == total,
            i <= seen <= total,
            without_rule(all.subrange(0, seen as int), rule@).len() == i,
            toml_nodes(a@) == without_rule(all.subrange(0, seen as int), rule@) + all.subrange(
                seen as int,
                total as int,
            ),
        decreases total - seen,
    {
        let ghost done = without_rule(all.subrange(0, seen as int), rule@);
        let ghost before = toml_nodes(a@);
        proof {
            let next = all.subrange(0, seen + 1);
            assert(next.subrange(0, next.len() - 1) =~= all.subrange(0, seen as int));
            assert(toml_nodes(a@).len() == a@.len());
            assert(before[i as int] == all[seen as int]);
            assert(before[i as int] == toml_node(a@[i as int]));
        }
        if writes_rule(&a[i], rule) {
            a.remove(i);
            assert(toml_nodes(a@) =~= done + all.subrange(seen + 1, total as int)) by {
                assert forall|k: int| 0 <= k < toml_nodes(a@).len() implies toml_nodes(a@)[k]
                    == (done + all.subrange(seen + 1, total as int))[k] by {
                    if k < i {
                        assert(toml_nodes(a@)[k] == before[k]);
                    } else {
                        assert(toml_nodes(a@)[k] == before[k + 1]);
                    }
                }
            }
        } else {
            assert(before =~= done.push(all[seen as int]) + all.subrange(seen + 1, total as int));
            i += 1;
        }
        seen += 1;
    }
    assert(all.subrange(0, total as int) =~= all);
    assert(all.subrange(total as int, total as int) =~= Seq::<TomlNode>::empty());
    assert(toml_nodes(a@) =~= without_rule(all, rule@));
}

fn apply_addition(rules: &mut toml::map::Map<String, toml::Value>, addition: &RuleAddition) -> (r:
    Result<(), EditError>)
    ensures
        match r {
            Ok(_) => rules_added(toml_entries(*old(rules)), addition@) == Ok::<_, EditError>(
                toml_entries(*final(rules)),
            ),
            Err(e) => rules_added(toml_entries(*old(rules)), addition@) == Err::<
                Map<Seq<char>, TomlNode>,
                _,
            >(e),
        },
{
    match addition {
        RuleAddition::MaxFileLines(n) => {
            if *n <= 0 {
                return Err(EditError::LineLimit(*n));
            }
            rules.insert("max_file_lines".to_owned(), toml_integer(*n));
            Ok(())
        },
        RuleAddition::NoCycles(b) => {
            rules.insert("no_cycles".to_owned(), toml_boolean(*b));
            Ok(())
        },
        RuleAddition::ForbiddenImport { from, to } => {
            if from.as_str().is_empty() || to.as_str().is_empty() {
                return Err(EditError::EmptySide);
            }
            let rule = arrow_rule(from, to);
            let ghost entries = toml_entries(*rules);
            let none: Vec<toml::Value> = Vec::new();
            assert(toml_nodes(none@) =~= Seq::<TomlNode>::empty());
            let value = toml_entry_or(rules, "forbidden_imports", toml_array(none));
            match value.as_array_mut() {
                None => Err(EditError::ForbiddenNotArray),
                Some(array) => {
                    let ghost a = toml_nodes(array@);
                    assert(forbidden_array(entries) == Ok::<_, EditError>(a));
                    if !any_writes_rule(array, &rule) {
                        array.push(toml_string(rule));
                        assert(toml_nodes(array@) =~= a.push(TomlNode::Text(arrow_text(from@, to@))));
                    }
                    Ok(())
                },
            }
        },
    }
}

/// Apply a rule addition to a TOML document and return the new text.
///
/// - Empty input is treated as a fresh document.
/// - Existing rules under `[rules]` are preserved.
/// - Adding a forbidden import is idempotent: duplicates are skipped.
/// - Setting `max_file_lines` or `no_cycles` overwrites the previous value.
pub fn add_rule_to_toml(existing: &str, addition: &RuleAddition) -> (r: Result<String, EditError>)
    ensures
        text_added(existing@, addition@) == (match r {
            Ok(s) => Ok(s@),
            Err(e) => Err(e),
        }),
        addition_is_owed(existing@, addition@) ==> r is Ok,
        r matches Ok(s) ==> is_text_added(existing@, addition@, s@),
{
    let mut doc = if crate::text::trim(existing).as_str().is_empty() {
        toml::map::Map::new()
    } else {
        match parse_toml(existing) {
            Ok(doc) => doc,
            Err(_) => return Err(EditError::Parse),
        }
    };
    let ghost entries = toml_entries(doc);
    let fresh = toml_table(toml::map::Map::new());
    let rules = match toml_entry_or(&mut doc, "rules", fresh).as_table_mut() {
        None => return Err(EditError::RulesNotTable),
        Some(rules) => rules,
    };
    match apply_addition(rules, addition) {
        Err(e) => return Err(e),
        Ok(()) => {},
    }
    proof {
        assert(added(entries, addition@) == Ok::<_, EditError>(toml_entries(doc)));
        assert(toml_entries(doc).contains_key("rules"@));
    }
    if !table_quotes_fit(&doc) {
        return Err(EditError::Quotes);
    }
    match print_toml(doc) {
        Ok(s) => Ok(s),
        Err(_) => Err(EditError::Print),
    }
}

fn outcome_of(present: bool) -> (r: RemovalOutcome)
    ensures
        r == (if present {
            RemovalOutcome::Removed
        } else {
            RemovalOutcome::NotPresent
        }),
{
    if present {
        RemovalOutcome::Removed
    } else {
        RemovalOutcome::NotPresent
    }
}

fn apply_removal(rules: &mut toml::map::Map<String, toml::Value>, removal: &RuleRemoval) -> (r:
    Result<RemovalOutcome, EditError>)
    ensures
        match r {
            Ok(outcome) => rules_removed(toml_entries(*old(rules)), removal@) == Ok::<
                _,
                EditError,
            >((toml_entries(*final(rules)), outcome)),
            Err(e) => rules_removed(toml_entries(*old(rules)), removal@) == Err::<
                (Map<Seq<char>, TomlNode>, RemovalOutcome),
                _,
            >(e),
        },
{
    match removal {
        RuleRemoval::MaxFileLines => Ok(
            outcome_of(toml_remove(rules, "max_file_lines").is_some()),
        ),
        RuleRemoval::NoCycles => Ok(outcome_of(toml_remove(rules, "no_cycles").is_some())),
        RuleRemoval::ForbiddenImport { from, to } => {
            let rule = arrow_rule(from, to);
            let ghost entries = toml_entries(*rules);
            let before: usize;
            let after: usize;
            match toml_member_mut(rules, "forbidden_imports") {
                None => return Ok(RemovalOutcome::NotPresent),
                Some(value) => match value.as_array_mut() {
                    None => return Err(EditError::ForbiddenNotArray),
                    Some(array) => {
                        before = array.len();
                        let ghost a = toml_nodes(array@);
                        retain_others(array, &rule);
                        after = array.len();
                        proof {
                            assert(toml_nodes(array@).len() == after);
                            assert(a.len() == before);
                        }
                    },
                },
            }
            if after == 0 && before > 0 {
                toml_remove(rules, "forbidden_imports");
                assert(toml_entries(*rules) =~= entries.remove("forbidden_imports"@));
            }
            Ok(outcome_of(after < before))
        },
    }
}

/// Apply a rule removal to a TOML document and return the new text plus an
/// outcome flag.
///
/// - Empty input is a no-op.
/// - Removing a forbidden import only drops the matching entries. If the array
///   becomes empty, the key itself is removed.
/// - Removing a rule that is not set is not an error.
pub fn remove_rule_from_toml(existing: &str, removal: &RuleRemoval) -> (r: Result<
    (String, RemovalOutcome),
    EditError,
>)
    ensures
        text_removed(existing@, removal@) == (match r {
            Ok((s, outcome)) => Ok((s@, outcome)),
            Err(e) => Err(e),
        }),
        removal_is_owed(existing@, removal@) ==> r is Ok,
        r matches Ok((s, outcome)) ==> is_text_removed(existing@, removal@, s@, outcome),
{
    if crate::text::trim(existing).as_str().is_empty() {
        let none = String::new();
        assert(none@ =~= Seq::<char>::empty());
        return Ok((none, RemovalOutcome::NotPresent));
    }
    let mut doc = match parse_toml(existing) {
        Ok(doc) => doc,
        Err(_) => return Err(EditError::Parse),
    };
    let ghost entries = toml_entries(doc);
    let outcome = match toml_member_mut(&mut doc, "rules") {
        None => RemovalOutcome::NotPresent,
        Some(value) => match value.as_table_mut() {
            None => return Err(EditError::RulesNotTable),
            Some(rules) => match apply_removal(rules, removal) {
                Err(e) => return Err(e),
                Ok(outcome) => outcome,
            },
        },
    };
    proof {
        assert(removed(entries, removal@) == Ok::<_, EditError>((toml_entries(doc), outcome)));
    }
    if !table_quotes_fit(&doc) {
        return Err(EditError::Quotes);
    }
    match print_toml(doc) {
        Ok(s) => Ok((s, outcome)),
        Err(_) => Err(EditError::Print),
    }
}

// ---------------------------------------------------------------------------
// Laws
// ---------------------------------------------------------------------------

/// What an addition puts into a document that was not there are at most the
/// table of rules, the array of forbidden imports, and values that are neither
/// floats nor dates.
proof fn lemma_added_holds(doc: Map<Seq<char>, TomlNode>, addition: AdditionView, leaf: TomlNode)
    requires
        added(doc, addition) is Ok,
        leaf is Float || leaf is Date,
        holds(TomlNode::Table(added(doc, addition)->Ok_0), leaf),
    ensures
        holds(TomlNode::Table(doc), leaf),
{
    let rules = rules_table(doc)->Ok_0;
    let after = rules_added(rules, addition)->Ok_0;
    let done = added(doc, addition)->Ok_0;
    let root = TomlNode::Table(done);
    let k = choose|k: Seq<char>| #[trigger]
        root->Table_0.contains_key(k) && holds(root->Table_0[k], leaf);
    assert(done.contains_key(k) && holds(done[k], leaf));
    let old_root = TomlNode::Table(doc);
    if k == "rules"@ {
        let table = TomlNode::Table(after);
        assert(done[k] == table);
        let j = choose|j: Seq<char>| #[trigger]
            table->Table_0.contains_key(j) && holds(table->Table_0[j], leaf);
        assert(after.contains_key(j) && holds(after[j], leaf));
        let old_table = TomlNode::Table(rules);
        assert(holds(old_table, leaf)) by {
            if addition is ForbiddenImport && j == "forbidden_imports"@ {
                let a = forbidden_array(rules)->Ok_0;
                let array = after[j];
                let i = choose|i: int|
                    0 <= i < array->Array_0.len() && holds(#[trigger] array->Array_0[i], leaf);
                assert(i < a.len());
                assert(array->Array_0[i] == a[i]);
                let old_array = rules[j];
                assert(old_array->Array_0[i] == a[i]);
                assert(holds(old_array, leaf));
            }
            assert(old_table->Table_0.contains_key(j) && holds(old_table->Table_0[j], leaf));
        }
        assert(old_root->Table_0.contains_key(k) && holds(old_root->Table_0[k], leaf));
    } else {
        assert(old_root->Table_0.contains_key(k) && holds(old_root->Table_0[k], leaf));
    }
}

/// An addition to a document that can be written gives one that can be written,
/// and keeps a plain document plain. Left out are the documents in which
/// `forbidden_imports` is an array of tables with headers, which loses them.
pub proof fn law_added_documents_can_be_written(
    doc: Map<Seq<char>, TomlNode>,
    addition: AdditionView,
)
    requires
        toml_writable(doc),
        added(doc, addition) is Ok,
        !has_headers(forbidden_array(rules_table(doc)->Ok_0)->Ok_0),
    ensures
        toml_writable(added(doc, addition)->Ok_0),
        toml_plain(doc) ==> toml_plain(added(doc, addition)->Ok_0),
{
    reveal_strlit("$__toml_private_datetime");
    reveal_strlit("max_file_lines");
    reveal_strlit("no_cycles");
    reveal_strlit("forbidden_imports");
    assert(date_key()[0] == '$');
    assert("max_file_lines"@[0] == 'm' && "no_cycles"@[0] == 'n' && "forbidden_imports"@[0]
        == 'f');
    let rules = rules_table(doc)->Ok_0;
    let after = rules_added(rules, addition)->Ok_0;
    let done = added(doc, addition)->Ok_0;
    let old_table = TomlNode::Table(rules);
    let table = TomlNode::Table(after);
    assert(doc.contains_key("rules"@) ==> item_fits(old_table, 1));
    assert forall|k: Seq<char>| #[trigger] table->Table_0.contains_key(k) implies k != date_key()
        && item_fits(table->Table_0[k], 2) by {
        if rules.contains_key(k) {
            assert(old_table->Table_0.contains_key(k));
            assert(k != date_key() && item_fits(rules[k], 2));
        }
        if addition is ForbiddenImport && k == "forbidden_imports"@ {
            let a = forbidden_array(rules)->Ok_0;
            let array = after[k];
            let b = array->Array_0;
            assert(value_fits(TomlNode::Array(a), depth_limit())) by {
                if rules.contains_key(k) {
                    assert(item_fits(rules[k], 2));
                }
            }
            let old_array = TomlNode::Array(a);
            assert forall|i: int| 0 <= i < b.len() implies value_fits(
                #[trigger] array->Array_0[i],
                (depth_limit() - 1) as nat,
            ) by {
                if i < a.len() {
                    assert(b[i] == old_array->Array_0[i]);
                }
            }
            assert(value_fits(array, depth_limit()));
            assert(!has_headers(b)) by {
                if b.len() == a.len() {
                    assert(b =~= a);
                } else {
                    assert(b[b.len() - 1] is Text);
                }
            }
        }
    }
    assert(item_fits(table, 1));
    assert forall|k: Seq<char>| #[trigger] done.contains_key(k) implies item_fits(done[k], 1) by {
        if k != "rules"@ {
            assert(doc.contains_key(k));
        }
    }
    assert forall|v: toml::Value| #[trigger]
        holds(TomlNode::Table(done), TomlNode::Date(v)) implies holds(
        TomlNode::Table(doc),
        TomlNode::Date(v),
    ) by {
        lemma_added_holds(doc, addition, TomlNode::Date(v));
    }
    assert(dates_are_readable(done));
    if toml_plain(doc) {
        assert forall|v: toml::Value| #[trigger]
            holds(TomlNode::Table(done), TomlNode::Float(v)) implies holds(
            TomlNode::Table(doc),
            TomlNode::Float(v),
        ) by {
            lemma_added_holds(doc, addition, TomlNode::Float(v));
        }
        assert(floats_are_readable(done));
    }
}

/// What is left without a rule are exactly the elements that do not write it
/// down.
pub proof fn lemma_without_rule(a: Seq<TomlNode>, rule: Seq<char>)
    ensures
        without_rule(a, rule).len() <= a.len(),
        forall|i: int|
            0 <= i < a.len() && !is_rule(#[trigger] a[i], rule) ==> without_rule(a, rule).contains(
                a[i],
            ),
        forall|i: int|
            0 <= i < without_rule(a, rule).len() ==> a.contains(#[trigger] without_rule(a, rule)[i])
                && !is_rule(without_rule(a, rule)[i], rule),
        !has_rule(a, rule) ==> without_rule(a, rule) == a,
        has_rule(a, rule) ==> without_rule(a, rule).len() < a.len(),
    decreases a.len(),
{
    if a.len() > 0 {
        let front = a.subrange(0, a.len() - 1);
        let last = a[a.len() - 1];
        lemma_without_rule(front, rule);
        let out = without_rule(a, rule);
        assert forall|i: int| 0 <= i < a.len() && !is_rule(
            #[trigger] a[i],
            rule,
        ) implies out.contains(a[i]) by {
            if i < front.len() {
                assert(front[i] == a[i]);
                let before = without_rule(front, rule);
                let k = choose|k: int| 0 <= k < before.len() && before[k] == front[i];
                assert(out[k] == a[i]);
            } else {
                assert(out[out.len() - 1] == a[i]);
            }
        }
        assert forall|i: int| 0 <= i < out.len() implies a.contains(#[trigger] out[i]) && !is_rule(
            out[i],
            rule,
        ) by {
            if i < without_rule(front, rule).len() {
                assert(out[i] == without_rule(front, rule)[i]);
                let j = choose|j: int| 0 <= j < front.len() && front[j] == out[i];
                assert(a[j] == out[i]);
            } else {
                assert(a[a.len() - 1] == out[i]);
            }
        }
        if !has_rule(a, rule) {
            assert(!has_rule(front, rule)) by {
                if has_rule(front, rule) {
                    let j = choose|j: int| 0 <= j < front.len() && is_rule(#[trigger] front[j], rule);
                    assert(is_rule(a[j], rule));
                }
            }
            assert(!is_rule(last, rule));
            assert(out =~= a);
        } else if !is_rule(last, rule) {
            let j = choose|j: int| 0 <= j < a.len() && is_rule(#[trigger] a[j], rule);
            assert(front[j] == a[j]);
            assert(has_rule(front, rule));
        }
    } else {
        assert(without_rule(a, rule) =~= a);
    }
}

/// The key of `[rules]` that an addition writes.
pub open spec fn addition_key(addition: AdditionView) -> Seq<char> {
    match addition {
        AdditionView::MaxFileLines(_) => "max_file_lines"@,
        AdditionView::NoCycles(_) => "no_cycles"@,
        AdditionView::ForbiddenImport { .. } => "forbidden_imports"@,
    }
}

/// An addition changes one key of `[rules]`: every other rule and every other
/// section stays as it was.
pub proof fn law_addition_preserves_the_rest(
    doc: Map<Seq<char>, TomlNode>,
    addition: AdditionView,
    key: Seq<char>,
)
    requires
        added(doc, addition) is Ok,
    ensures
        key != "rules"@ ==> entry(added(doc, addition)->Ok_0, key) == entry(doc, key),
        key != addition_key(addition) ==> entry(
            rules_table(added(doc, addition)->Ok_0)->Ok_0,
            key,
        ) == entry(rules_table(doc)->Ok_0, key),
{
}

/// Adding a rule a second time changes nothing.
pub proof fn law_addition_is_idempotent(doc: Map<Seq<char>, TomlNode>, addition: AdditionView)
    requires
        added(doc, addition) is Ok,
    ensures
        added(added(doc, addition)->Ok_0, addition) == added(doc, addition),
{
    let once = added(doc, addition)->Ok_0;
    let rules = rules_table(doc)->Ok_0;
    let after = rules_added(rules, addition)->Ok_0;
    assert(rules_table(once) == Ok::<_, EditError>(after));
    match addition {
        AdditionView::ForbiddenImport { from, to } => {
            let rule = arrow_text(from, to);
            let a = forbidden_array(rules)->Ok_0;
            let b = forbidden_array(after)->Ok_0;
            if !has_rule(a, rule) {
                assert(is_rule(b[b.len() - 1], rule));
            }
            assert(has_rule(b, rule));
            assert(after.insert("forbidden_imports"@, TomlNode::Array(b)) =~= after);
        },
        AdditionView::MaxFileLines(n) => {
            assert(after.insert("max_file_lines"@, TomlNode::Integer(n)) =~= after);
        },
        AdditionView::NoCycles(b) => {
            assert(after.insert("no_cycles"@, TomlNode::Boolean(b)) =~= after);
        },
    }
    assert(once.insert("rules"@, TomlNode::Table(after)) =~= once);
}

/// Removing a rule that is not set reports so, and removing one that is set
/// leaves nothing of it: a second removal finds nothing.
pub proof fn law_removal_leaves_nothing(doc: Map<Seq<char>, TomlNode>, removal: RemovalView)
    requires
        removed(doc, removal) is Ok,
    ensures
        removed(removed(doc, removal)->Ok_0.0, removal) == Ok::<_, EditError>(
            (removed(doc, removal)->Ok_0.0, RemovalOutcome::NotPresent),
        ),
{
    let once = removed(doc, removal)->Ok_0.0;
    match entry(doc, "rules"@) {
        Some(TomlNode::Table(rules)) => {
            let after = rules_removed(rules, removal)->Ok_0.0;
            assert(entry(once, "rules"@) == Some(TomlNode::Table(after)));
            match removal {
                RemovalView::MaxFileLines => {
                    assert(after.remove("max_file_lines"@) =~= after);
                },
                RemovalView::NoCycles => {
                    assert(after.remove("no_cycles"@) =~= after);
                },
                RemovalView::ForbiddenImport { from, to } => {
                    let rule = arrow_text(from, to);
                    match entry(rules, "forbidden_imports"@) {
                        Some(TomlNode::Array(a)) => {
                            lemma_without_rule(a, rule);
                            let left = without_rule(a, rule);
                            lemma_without_rule(left, rule);
                            assert(!has_rule(left, rule));
                            if left.len() > 0 || a.len() == 0 {
                                assert(after.insert("forbidden_imports"@, TomlNode::Array(left))
                                    =~= after);
                            }
                        },
                        _ => {},
                    }
                },
            }
            assert(once.insert("rules"@, TomlNode::Table(after)) =~= once);
        },
        _ => {},
    }
}

/// The outcome tells whether a removal changed anything: where it says that the
/// rule was not there, the document is as it was, and otherwise it is not.
pub proof fn law_outcome_tells_of_change(doc: Map<Seq<char>, TomlNode>, removal: RemovalView)
    requires
        removed(doc, removal) is Ok,
    ensures
        removed(doc, removal)->Ok_0.1 == RemovalOutcome::NotPresent <==> removed(
            doc,
            removal,
        )->Ok_0.0 == doc,
{
    match entry(doc, "rules"@) {
        Some(TomlNode::Table(rules)) => {
            let (after, outcome) = rules_removed(rules, removal)->Ok_0;
            let done = removed(doc, removal)->Ok_0.0;
            assert(entry(done, "rules"@) == Some(TomlNode::Table(after)));
            match removal {
                RemovalView::MaxFileLines => {
                    if outcome == RemovalOutcome::NotPresent {
                        assert(after =~= rules);
                    } else {
                        assert(!after.contains_key("max_file_lines"@));
                    }
                },
                RemovalView::NoCycles => {
                    if outcome == RemovalOutcome::NotPresent {
                        assert(after =~= rules);
                    } else {
                        assert(!after.contains_key("no_cycles"@));
                    }
                },
                RemovalView::ForbiddenImport { from, to } => {
                    match entry(rules, "forbidden_imports"@) {
                        Some(TomlNode::Array(a)) => {
                            lemma_without_rule(a, arrow_text(from, to));
                            if outcome == RemovalOutcome::NotPresent {
                                assert(after =~= rules);
                            } else {
                                assert(entry(after, "forbidden_imports"@) != entry(
                                    rules,
                                    "forbidden_imports"@,
                                ));
                            }
                        },
                        _ => {},
                    }
                },
            }
            if outcome == RemovalOutcome::NotPresent {
                assert(done =~= doc);
            }
        },
        _ => {},
    }
}

/// A removal of a forbidden import keeps every other forbidden import, in
/// order: what is left are the elements that do not write down the rule.
pub proof fn law_removal_keeps_other_imports(
    doc: Map<Seq<char>, TomlNode>,
    from: Seq<char>,
    to: Seq<char>,
)
    requires
        removed(doc, RemovalView::ForbiddenImport { from, to }) is Ok,
        rules_table(doc) is Ok,
        forbidden_array(rules_table(doc)->Ok_0) is Ok,
    ensures
        forbidden_array(
            rules_table(removed(doc, RemovalView::ForbiddenImport { from, to })->Ok_0.0)->Ok_0,
        ) == Ok::<_, EditError>(
            without_rule(
                forbidden_array(rules_table(doc)->Ok_0)->Ok_0,
                arrow_text(from, to),
            ),
        ),
        removed(doc, RemovalView::ForbiddenImport { from, to })->Ok_0.1 == RemovalOutcome::Removed
            <==> has_rule(forbidden_array(rules_table(doc)->Ok_0)->Ok_0, arrow_text(from, to)),
{
    let a = forbidden_array(rules_table(doc)->Ok_0)->Ok_0;
    lemma_without_rule(a, arrow_text(from, to));
    if without_rule(a, arrow_text(from, to)).len() == 0 {
        assert(without_rule(a, arrow_text(from, to)) =~= Seq::<TomlNode>::empty());
    }
}

/// Adding a forbidden import that was not there and removing it again gives
/// back the document. Left out are the documents without a `[rules]` table,
/// which get one, and those with an empty `forbidden_imports`, which lose it.
pub proof fn law_add_then_remove(doc: Map<Seq<char>, TomlNode>, from: Seq<char>, to: Seq<char>)
    requires
        added(doc, AdditionView::ForbiddenImport { from, to }) is Ok,
        entry(doc, "rules"@) is Some,
        !has_rule(forbidden_array(rules_table(doc)->Ok_0)->Ok_0, arrow_text(from, to)),
        entry(rules_table(doc)->Ok_0, "forbidden_imports"@) is Some ==> forbidden_array(
            rules_table(doc)->Ok_0,
        )->Ok_0.len() > 0,
    ensures
        removed(
            added(doc, AdditionView::ForbiddenImport { from, to })->Ok_0,
            RemovalView::ForbiddenImport { from, to },
        ) == Ok::<_, EditError>((doc, RemovalOutcome::Removed)),
{
    let rule = arrow_text(from, to);
    let rules = rules_table(doc)->Ok_0;
    let a = forbidden_array(rules)->Ok_0;
    let once = added(doc, AdditionView::ForbiddenImport { from, to })->Ok_0;
    let b = a.push(TomlNode::Text(rule));
    lemma_without_rule(a, rule);
    assert(b.subrange(0, b.len() - 1) =~= a);
    assert(without_rule(b, rule) == a);
    let after = rules.insert("forbidden_imports"@, TomlNode::Array(b));
    assert(entry(once, "rules"@) == Some(TomlNode::Table(after)));
    if a.len() == 0 {
        assert(after.remove("forbidden_imports"@) =~= rules);
    } else {
        assert(after.insert("forbidden_imports"@, TomlNode::Array(a)) =~= rules);
    }
    assert(once.insert("rules"@, TomlNode::Table(rules)) =~= doc);
}

/// A scalar that was set and is removed again leaves a document without the
/// key, whatever it held before.
pub proof fn law_scalar_add_then_remove(doc: Map<Seq<char>, TomlNode>, addition: AdditionView)
    requires
        added(doc, addition) is Ok,
        !(addition is ForbiddenImport),
    ensures
        ({
            let removal = if addition is MaxFileLines {
                RemovalView::MaxFileLines
            } else {
                RemovalView::NoCycles
            };
            let after = removed(added(doc, addition)->Ok_0, removal);
            &&& after is Ok
            &&& after->Ok_0.1 == RemovalOutcome::Removed
            &&& after->Ok_0.0 == doc.insert(
                "rules"@,
                TomlNode::Table(rules_table(doc)->Ok_0.remove(addition_key(addition))),
            )
        }),
{
    let once = added(doc, addition)->Ok_0;
    let rules = rules_table(doc)->Ok_0;
    let after = rules_added(rules, addition)->Ok_0;
    assert(entry(once, "rules"@) == Some(TomlNode::Table(after)));
    assert(after.remove(addition_key(addition)) =~= rules.remove(addition_key(addition)));
    assert(once.insert("rules"@, TomlNode::Table(rules.remove(addition_key(addition))))
        =~= doc.insert("rules"@, TomlNode::Table(rules.remove(addition_key(addition)))));
}

} // verus!
