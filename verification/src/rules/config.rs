//! The rules of a project as `AetherLink.toml` writes them down.
//!
//! ```toml
//! [rules]
//! max_file_lines = 500
//! no_cycles = true
//! forbidden_imports = ["ui -> db", "api -> secret"]
//! severity = "warn"
//!
//! [[overrides]]
//! path = "data/**"
//! max_file_lines = 2000
//! ```
//!
//! A key that is missing leaves its rule off, and a key that is not listed here
//! is passed over.
use vstd::prelude::*;
use vstd::string::*;

use super::toml_doc::{
    dates_stand_alone, read_toml, reads_as, toml_parsed, toml_read, TomlNode,
};
use super::Severity;
use crate::json::{
    get_text, i64_of, json_get, json_node, json_nodes, member, member_text, no_members,
    opt_node, JsonNode,
};
use crate::paths::{components, components_of, join_path, join_paths};
use crate::text::{
    char_views, chars_of, same, same_chars, split_once, split_once_chars, string_of, trim_chars,
    trimmed, CharClass,
};

verus! {

/// The name of the file that holds the rules of a project.
pub open spec fn config_file_name() -> Seq<char> {
    "AetherLink.toml"@
}

// ---------------------------------------------------------------------------
// Arrow rules
// ---------------------------------------------------------------------------

/// What is wrong with the text of an arrow rule.
#[derive(Debug, Clone, Copy, PartialEq, Eq, Structural)]
pub enum ArrowError {
    /// There is no `->` in it.
    MissingArrow,
    /// Nothing but white space stands on one side.
    EmptySide,
}

/// The two sides of an arrow rule, without the white space around them. The
/// first `->` parts them.
pub open spec fn arrow_pair(raw: Seq<char>) -> Result<(Seq<char>, Seq<char>), ArrowError> {
    match split_once(raw, "->"@) {
        None => Err(ArrowError::MissingArrow),
        Some((from, to)) => if trimmed(from).len() == 0 || trimmed(to).len() == 0 {
            Err(ArrowError::EmptySide)
        } else {
            Ok((trimmed(from), trimmed(to)))
        },
    }
}

/// The two sides of an arrow rule, without the white space around them.
pub fn parse_arrow(raw: &str) -> (r: Result<(String, String), ArrowError>)
    ensures
        arrow_pair(raw@) == (match r {
            Ok((from, to)) => Ok((from@, to@)),
            Err(e) => Err(e),
        }),
{
    match split_once_chars(&chars_of(raw), &chars_of("->")) {
        None => Err(ArrowError::MissingArrow),
        Some((from, to)) => {
            let from = trim_chars(&from, CharClass::Space);
            let to = trim_chars(&to, CharClass::Space);
            if from.len() == 0 || to.len() == 0 {
                return Err(ArrowError::EmptySide);
            }
            Ok((string_of(&from), string_of(&to)))
        },
    }
}

/// A single forbidden-import rule: code under `from` must not import from code
/// under `to`.
#[derive(Debug, PartialEq, Eq)]
pub struct ForbiddenImport {
    /// The folder that must not import.
    pub from: String,
    /// The folder that must not be imported.
    pub to: String,
}

impl View for ForbiddenImport {
    type V = (Seq<char>, Seq<char>);

    open spec fn view(&self) -> (Seq<char>, Seq<char>) {
        (self.from@, self.to@)
    }
}

impl Clone for ForbiddenImport {
    fn clone(&self) -> (r: Self)
        ensures
            r@ == self@,
    {
        ForbiddenImport { from: self.from.clone(), to: self.to.clone() }
    }
}

/// What each rule of a sequence holds.
pub open spec fn forbidden_view(v: Seq<ForbiddenImport>) -> Seq<(Seq<char>, Seq<char>)> {
    Seq::new(v.len(), |i: int| v[i]@)
}

/// Why a text is not a forbidden-import rule.
#[derive(Debug)]
pub struct ForbiddenImportError {
    /// What is wrong with it.
    pub kind: ArrowError,
    /// The text.
    pub raw: String,
}

impl ForbiddenImportError {
    /// What the error says.
    pub open spec fn message_of(kind: ArrowError, raw: Seq<char>) -> Seq<char> {
        match kind {
            ArrowError::MissingArrow => "forbidden_imports entry must be 'from -> to', got: "@ + raw,
            ArrowError::EmptySide => "forbidden_imports entry has empty side: "@ + raw,
        }
    }

    /// What the error says.
    pub fn message(&self) -> (s: String)
        ensures
            s@ == ForbiddenImportError::message_of(self.kind, self.raw@),
    {
        let mut s = match self.kind {
            ArrowError::MissingArrow => {
                "forbidden_imports entry must be 'from -> to', got: ".to_owned()
            },
            ArrowError::EmptySide => "forbidden_imports entry has empty side: ".to_owned(),
        };
        s.append(&self.raw);
        s
    }
}

impl ForbiddenImport {
    /// Reads a rule from the form `from -> to`.
    pub fn parse(raw: &str) -> (r: Result<ForbiddenImport, ForbiddenImportError>)
        ensures
            match r {
                Ok(f) => arrow_pair(raw@) == Ok::<_, ArrowError>(f@),
                Err(e) => arrow_pair(raw@) == Err::<(Seq<char>, Seq<char>), _>(e.kind) && e.raw@
                    == raw@,
            },
    {
        match parse_arrow(raw) {
            Ok((from, to)) => Ok(ForbiddenImport { from, to }),
            Err(kind) => Err(ForbiddenImportError { kind, raw: raw.to_owned() }),
        }
    }
}

// ---------------------------------------------------------------------------
// Rules
// ---------------------------------------------------------------------------

/// The architectural laws of a project.
#[derive(Debug)]
pub struct Rules {
    /// Maximum allowed line count for any single source file. `None` disables
    /// the check.
    pub max_file_lines: Option<usize>,
    /// Forbidden folder-to-folder import edges.
    pub forbidden_imports: Vec<ForbiddenImport>,
    /// If true, the dependency graph must be acyclic.
    pub no_cycles: bool,
    /// The severity of every violation of these rules.
    pub default_severity: Severity,
}

/// What [`Rules`] hold.
#[verifier::ext_equal]
pub struct RulesView {
    /// The line limit.
    pub max_file_lines: Option<usize>,
    /// The forbidden imports.
    pub forbidden_imports: Seq<(Seq<char>, Seq<char>)>,
    /// Whether cycles are forbidden.
    pub no_cycles: bool,
    /// The severity of every violation.
    pub default_severity: Severity,
}

impl View for Rules {
    type V = RulesView;

    open spec fn view(&self) -> RulesView {
        RulesView {
            max_file_lines: self.max_file_lines,
            forbidden_imports: forbidden_view(self.forbidden_imports@),
            no_cycles: self.no_cycles,
            default_severity: self.default_severity,
        }
    }
}

/// No rules at all.
pub open spec fn empty_rules() -> RulesView {
    RulesView {
        max_file_lines: None,
        forbidden_imports: Seq::empty(),
        no_cycles: false,
        default_severity: Severity::Error,
    }
}

impl Default for Rules {
    fn default() -> (r: Self)
        ensures
            r@ == empty_rules(),
    {
        let r = Rules {
            max_file_lines: None,
            forbidden_imports: Vec::new(),
            no_cycles: false,
            default_severity: Severity::Error,
        };
        assert(r@.forbidden_imports =~= Seq::empty());
        r
    }
}

impl Clone for Rules {
    fn clone(&self) -> (r: Self)
        ensures
            r@ == self@,
    {
        let mut forbidden: Vec<ForbiddenImport> = Vec::new();
        let mut i: usize = 0;
        while i < self.forbidden_imports.len()
            invariant
                i <= self.forbidden_imports@.len(),
                forbidden@.len() == i,
                forall|k: int|
                    0 <= k < i ==> #[trigger] forbidden@[k]@ == self.forbidden_imports@[k]@,
            decreases self.forbidden_imports.len() - i,
        {
            forbidden.push(self.forbidden_imports[i].clone());
            i += 1;
        }
        assert(forbidden_view(forbidden@) =~= forbidden_view(self.forbidden_imports@));
        Rules {
            max_file_lines: self.max_file_lines,
            forbidden_imports: forbidden,
            no_cycles: self.no_cycles,
            default_severity: self.default_severity,
        }
    }
}

/// A line limit for the files that a pattern matches.
#[derive(Debug)]
pub struct RuleOverride {
    /// The pattern, matched against paths relative to the project root.
    pub path: String,
    /// The line limit, in place of the one in `[rules]`.
    pub max_file_lines: Option<usize>,
}

impl View for RuleOverride {
    type V = (Seq<char>, Option<usize>);

    open spec fn view(&self) -> (Seq<char>, Option<usize>) {
        (self.path@, self.max_file_lines)
    }
}

/// What each override of a sequence holds.
pub open spec fn overrides_view(v: Seq<RuleOverride>) -> Seq<(Seq<char>, Option<usize>)> {
    Seq::new(v.len(), |i: int| v[i]@)
}

/// Top-level shape of `AetherLink.toml`.
#[derive(Debug)]
pub struct RulesFile {
    /// The rules of the whole project.
    pub rules: Rules,
    /// The exceptions for parts of it.
    pub overrides: Vec<RuleOverride>,
}

/// What a [`RulesFile`] holds.
#[verifier::ext_equal]
pub struct RulesFileView {
    /// The rules of the whole project.
    pub rules: RulesView,
    /// The exceptions for parts of it.
    pub overrides: Seq<(Seq<char>, Option<usize>)>,
}

impl View for RulesFile {
    type V = RulesFileView;

    open spec fn view(&self) -> RulesFileView {
        RulesFileView { rules: self.rules@, overrides: overrides_view(self.overrides@) }
    }
}

/// No rules and no exceptions.
pub open spec fn empty_rules_file() -> RulesFileView {
    RulesFileView { rules: empty_rules(), overrides: Seq::empty() }
}

// ---------------------------------------------------------------------------
// Patterns
// ---------------------------------------------------------------------------

/// Whether the name matches the pattern, in which `*` stands for any run of
/// characters.
pub open spec fn name_matches(pattern: Seq<char>, name: Seq<char>) -> bool
    decreases pattern.len() + name.len(),
{
    if pattern.len() == 0 {
        name.len() == 0
    } else if pattern[0] == '*' {
        ||| name_matches(pattern.subrange(1, pattern.len() as int), name)
        ||| name.len() > 0 && name_matches(pattern, name.subrange(1, name.len() as int))
    } else {
        &&& name.len() > 0
        &&& pattern[0] == name[0]
        &&& name_matches(
            pattern.subrange(1, pattern.len() as int),
            name.subrange(1, name.len() as int),
        )
    }
}

/// Whether the components match the pattern's components, in which `**` stands
/// for any number of components.
pub open spec fn path_matches(pattern: Seq<Seq<char>>, path: Seq<Seq<char>>) -> bool
    decreases pattern.len() + path.len(),
{
    if pattern.len() == 0 {
        path.len() == 0
    } else if pattern[0] == "**"@ {
        ||| path_matches(pattern.subrange(1, pattern.len() as int), path)
        ||| path.len() > 0 && path_matches(pattern, path.subrange(1, path.len() as int))
    } else {
        &&& path.len() > 0
        &&& name_matches(pattern[0], path[0])
        &&& path_matches(
            pattern.subrange(1, pattern.len() as int),
            path.subrange(1, path.len() as int),
        )
    }
}

fn match_name(pattern: &Vec<char>, i: usize, name: &Vec<char>, j: usize) -> (r: bool)
    requires
        i <= pattern@.len(),
        j <= name@.len(),
    ensures
        r == name_matches(
            pattern@.subrange(i as int, pattern@.len() as int),
            name@.subrange(j as int, name@.len() as int),
        ),
    decreases pattern@.len() - i + name@.len() - j,
{
    let ghost p = pattern@.subrange(i as int, pattern@.len() as int);
    let ghost n = name@.subrange(j as int, name@.len() as int);
    if i == pattern.len() {
        return j == name.len();
    }
    proof {
        assert(p.subrange(1, p.len() as int) =~= pattern@.subrange(i + 1, pattern@.len() as int));
        if j < name.len() {
            assert(n.subrange(1, n.len() as int) =~= name@.subrange(j + 1, name@.len() as int));
        }
    }
    if pattern[i] == '*' {
        match_name(pattern, i + 1, name, j) || (j < name.len() && match_name(
            pattern,
            i,
            name,
            j + 1,
        ))
    } else {
        j < name.len() && pattern[i] == name[j] && match_name(pattern, i + 1, name, j + 1)
    }
}

fn match_path(pattern: &Vec<Vec<char>>, i: usize, path: &Vec<Vec<char>>, j: usize) -> (r: bool)
    requires
        i <= pattern@.len(),
        j <= path@.len(),
    ensures
        r == path_matches(
            char_views(pattern@).subrange(i as int, pattern@.len() as int),
            char_views(path@).subrange(j as int, path@.len() as int),
        ),
    decreases pattern@.len() - i + path@.len() - j,
{
    let ghost p = char_views(pattern@).subrange(i as int, pattern@.len() as int);
    let ghost n = char_views(path@).subrange(j as int, path@.len() as int);
    if i == pattern.len() {
        return j == path.len();
    }
    proof {
        assert(p.subrange(1, p.len() as int) =~= char_views(pattern@).subrange(
            i + 1,
            pattern@.len() as int,
        ));
        assert(p[0] == pattern@[i as int]@);
        if j < path.len() {
            assert(n[0] == path@[j as int]@);
            assert(n.subrange(1, n.len() as int) =~= char_views(path@).subrange(
                j + 1,
                path@.len() as int,
            ));
        }
    }
    if same_chars(&pattern[i], &chars_of("**")) {
        match_path(pattern, i + 1, path, j) || (j < path.len() && match_path(
            pattern,
            i,
            path,
            j + 1,
        ))
    } else {
        proof {
            if j < path.len() {
                assert(pattern@[i as int]@.subrange(0, pattern@[i as int]@.len() as int)
                    =~= pattern@[i as int]@);
                assert(path@[j as int]@.subrange(0, path@[j as int]@.len() as int)
                    =~= path@[j as int]@);
            }
        }
        j < path.len() && match_name(&pattern[i], 0, &path[j], 0) && match_path(
            pattern,
            i + 1,
            path,
            j + 1,
        )
    }
}

/// The line limit that holds for a path: that of the last override that matches
/// it and sets one, else that of the rules.
pub open spec fn limit_after(
    overrides: Seq<(Seq<char>, Option<usize>)>,
    n: int,
    base: Option<usize>,
    path: Seq<Seq<char>>,
) -> Option<usize>
    decreases n,
{
    if n <= 0 {
        base
    } else if overrides[n - 1].1 is Some && path_matches(components(overrides[n - 1].0), path) {
        overrides[n - 1].1
    } else {
        limit_after(overrides, n - 1, base, path)
    }
}

/// The line limit that holds for a path relative to the project root.
pub open spec fn effective_limit(file: RulesFileView, path: Seq<Seq<char>>) -> Option<usize> {
    limit_after(file.overrides, file.overrides.len() as int, file.rules.max_file_lines, path)
}

impl RulesFile {
    /// The line limit that holds for a path, given by its components relative
    /// to the project root.
    pub fn effective_max_file_lines(&self, path: &Vec<Vec<char>>) -> (r: Option<usize>)
        ensures
            r == effective_limit(self@, char_views(path@)),
    {
        let mut i: usize = self.overrides.len();
        while i > 0
            invariant
                i <= self.overrides@.len(),
                effective_limit(self@, char_views(path@)) == limit_after(
                    self@.overrides,
                    i as int,
                    self@.rules.max_file_lines,
                    char_views(path@),
                ),
            decreases i,
        {
            let o = &self.overrides[i - 1];
            assert(self@.overrides[i - 1] == o@);
            if o.max_file_lines.is_some() {
                let pattern = components_of(&o.path);
                proof {
                    assert(char_views(pattern@).subrange(0, pattern@.len() as int) =~= char_views(
                        pattern@,
                    ));
                    assert(char_views(path@).subrange(0, path@.len() as int) =~= char_views(path@));
                }
                if match_path(&pattern, 0, path, 0) {
                    return o.max_file_lines;
                }
            }
            i -= 1;
        }
        self.rules.max_file_lines
    }
}

// ---------------------------------------------------------------------------
// Reading `AetherLink.toml`
// ---------------------------------------------------------------------------

/// Why a text is not a rules file.
#[derive(Debug, Clone, Copy, PartialEq, Eq, Structural)]
pub enum ConfigError {
    /// The text is not TOML.
    Syntax,
    /// `rules` is neither a table nor an array with a line limit.
    RulesShape,
    /// A line limit is not a whole number, or it is negative or too large.
    LineLimit,
    /// `forbidden_imports` is not an array of texts of the form `from -> to`.
    ForbiddenImports,
    /// `no_cycles` is not a truth value.
    NoCycles,
    /// The severity is neither `"error"` nor `"warn"` nor `"warning"`.
    Severity,
    /// `overrides` is not an array of tables with a `path`.
    Overrides,
}

/// The line limit that a value writes down, where there is one.
pub open spec fn limit_in(node: Option<JsonNode>) -> Result<Option<usize>, ConfigError> {
    match node {
        None => Ok(None),
        Some(_) => match i64_of(node) {
            Some(n) => if 0 <= n <= usize::MAX {
                Ok(Some(n as usize))
            } else {
                Err(ConfigError::LineLimit)
            },
            None => Err(ConfigError::LineLimit),
        },
    }
}

/// The rule that an element of `forbidden_imports` writes down.
pub open spec fn forbidden_element(node: JsonNode) -> Option<(Seq<char>, Seq<char>)> {
    match node {
        JsonNode::Text(s) => match arrow_pair(s) {
            Ok(p) => Some(p),
            Err(_) => None,
        },
        _ => None,
    }
}

/// The forbidden imports that a value writes down, where there is one.
pub open spec fn forbidden_in(node: Option<JsonNode>) -> Result<
    Seq<(Seq<char>, Seq<char>)>,
    ConfigError,
> {
    match node {
        None => Ok(Seq::empty()),
        Some(JsonNode::Array(a)) => if forall|i: int|
            0 <= i < a.len() ==> (#[trigger] forbidden_element(a[i])) is Some {
            Ok(Seq::new(a.len(), |i: int| forbidden_element(a[i])->0))
        } else {
            Err(ConfigError::ForbiddenImports)
        },
        Some(_) => Err(ConfigError::ForbiddenImports),
    }
}

/// The truth value that a value writes down, where there is one.
pub open spec fn cycles_in(node: Option<JsonNode>) -> Result<bool, ConfigError> {
    match node {
        None => Ok(false),
        Some(JsonNode::Bool(b)) => Ok(b),
        Some(_) => Err(ConfigError::NoCycles),
    }
}

/// The severity that a value names.
pub open spec fn severity_named(node: JsonNode) -> Result<Severity, ConfigError> {
    match node {
        JsonNode::Text(s) => if s == "error"@ {
            Ok(Severity::Error)
        } else if s == "warn"@ || s == "warning"@ {
            Ok(Severity::Warning)
        } else {
            Err(ConfigError::Severity)
        },
        _ => Err(ConfigError::Severity),
    }
}

/// The severity under `default_severity`, or else under `severity`.
pub open spec fn severity_in(rules: JsonNode) -> Result<Severity, ConfigError> {
    match member(rules, "default_severity"@) {
        Some(node) => severity_named(node),
        None => match member(rules, "severity"@) {
            Some(node) => severity_named(node),
            None => Ok(Severity::Error),
        },
    }
}

/// Rules from what was read for each part of them; the first thing that is wrong
/// counts.
pub open spec fn rules_from(
    limit: Result<Option<usize>, ConfigError>,
    forbidden: Result<Seq<(Seq<char>, Seq<char>)>, ConfigError>,
    cycles: Result<bool, ConfigError>,
    severity: Result<Severity, ConfigError>,
) -> Result<RulesView, ConfigError> {
    match (limit, forbidden, cycles, severity) {
        (Err(e), _, _, _) => Err(e),
        (_, Err(e), _, _) => Err(e),
        (_, _, Err(e), _) => Err(e),
        (_, _, _, Err(e)) => Err(e),
        (Ok(limit), Ok(forbidden), Ok(cycles), Ok(severity)) => Ok(
            RulesView {
                max_file_lines: limit,
                forbidden_imports: forbidden,
                no_cycles: cycles,
                default_severity: severity,
            },
        ),
    }
}

/// The element at a position, where there is one.
pub open spec fn element(a: Seq<JsonNode>, i: int) -> Option<JsonNode> {
    if 0 <= i < a.len() {
        Some(a[i])
    } else {
        None
    }
}

/// The rules that the value of `rules` writes down: by their names in a table,
/// or in an array the line limit, the forbidden imports and whether cycles are
/// forbidden, in this order. What comes after the line limit may be left out,
/// and what comes after the three is passed over.
pub open spec fn rules_in(node: JsonNode) -> Result<RulesView, ConfigError> {
    match node {
        JsonNode::Object(_) => rules_from(
            limit_in(member(node, "max_file_lines"@)),
            forbidden_in(member(node, "forbidden_imports"@)),
            cycles_in(member(node, "no_cycles"@)),
            severity_in(node),
        ),
        JsonNode::Array(a) => if a.len() == 0 {
            Err(ConfigError::RulesShape)
        } else {
            rules_from(
                limit_in(Some(a[0])),
                forbidden_in(element(a, 1)),
                cycles_in(element(a, 2)),
                Ok(Severity::Error),
            )
        },
        _ => Err(ConfigError::RulesShape),
    }
}

/// The override that an element of `overrides` writes down.
pub open spec fn override_element(node: JsonNode) -> Option<(Seq<char>, Option<usize>)> {
    match (member_text(node, "path"@), limit_in(member(node, "max_file_lines"@))) {
        (Some(p), Ok(limit)) => Some((p, limit)),
        _ => None,
    }
}

/// The overrides that a value writes down, where there is one.
pub open spec fn overrides_in(node: Option<JsonNode>) -> Result<
    Seq<(Seq<char>, Option<usize>)>,
    ConfigError,
> {
    match node {
        None => Ok(Seq::empty()),
        Some(JsonNode::Array(a)) => if forall|i: int|
            0 <= i < a.len() ==> (#[trigger] override_element(a[i])) is Some {
            Ok(Seq::new(a.len(), |i: int| override_element(a[i])->0))
        } else {
            Err(ConfigError::Overrides)
        },
        Some(_) => Err(ConfigError::Overrides),
    }
}

/// The rules that a document writes down.
pub open spec fn document_rules(doc: JsonNode) -> Result<RulesView, ConfigError> {
    match member(doc, "rules"@) {
        None => Ok(empty_rules()),
        Some(node) => rules_in(node),
    }
}

/// The rules file that a document writes down.
pub open spec fn document_config(doc: JsonNode) -> Result<RulesFileView, ConfigError> {
    match (document_rules(doc), overrides_in(member(doc, "overrides"@))) {
        (Err(e), _) => Err(e),
        (_, Err(e)) => Err(e),
        (Ok(rules), Ok(overrides)) => Ok(RulesFileView { rules, overrides }),
    }
}

/// The rules file that a text writes down.
pub open spec fn text_config(text: Seq<char>) -> Result<RulesFileView, ConfigError> {
    match toml_read(text) {
        None => Err(ConfigError::Syntax),
        Some(doc) => document_config(doc),
    }
}

/// What holds of the rules that a text is read as: they are what it writes
/// down, a text of white space alone is the empty document, and otherwise the
/// rules are read from the same document that an edit would change.
pub open spec fn is_text_read(text: Seq<char>, rules: RulesView) -> bool {
    &&& text_config(text) is Ok
    &&& text_config(text)->Ok_0.rules == rules
    &&& trimmed(text).len() == 0 ==> toml_read(text)->0 == JsonNode::Object(no_members())
    &&& toml_parsed(text) matches Some(doc) ==> dates_stand_alone(toml_read(text)->0) ==> reads_as(
        TomlNode::Table(doc),
        toml_read(text)->0,
    )
}

fn read_limit(v: Option<&serde_json::Value>) -> (r: Result<Option<usize>, ConfigError>)
    ensures
        r == limit_in(opt_node(v)),
{
    match v {
        None => Ok(None),
        Some(v) => match v.as_i64() {
            Some(n) => if 0 <= n && n as u64 <= usize::MAX as u64 {
                Ok(Some(n as usize))
            } else {
                Err(ConfigError::LineLimit)
            },
            None => Err(ConfigError::LineLimit),
        },
    }
}

fn read_forbidden(v: Option<&serde_json::Value>) -> (r: Result<Vec<ForbiddenImport>, ConfigError>)
    ensures
        forbidden_in(opt_node(v)) == (match r {
            Ok(f) => Ok(forbidden_view(f@)),
            Err(e) => Err(e),
        }),
{
    let mut out: Vec<ForbiddenImport> = Vec::new();
    let value = match v {
        None => {
            assert(forbidden_view(out@) =~= Seq::empty());
            return Ok(out);
        },
        Some(value) => value,
    };
    let a = match value.as_array() {
        None => return Err(ConfigError::ForbiddenImports),
        Some(a) => a,
    };
    let ghost nodes = json_nodes(a@);
    let mut i: usize = 0;
    while i < a.len()
        invariant
            i <= a@.len(),
            nodes == json_nodes(a@),
            opt_node(v) == Some(JsonNode::Array(nodes)),
            out@.len() == i,
            forall|k: int|
                0 <= k < i ==> #[trigger] forbidden_element(nodes[k]) == Some(out@[k]@),
        decreases a.len() - i,
    {
        assert(nodes[i as int] == json_node(a@[i as int]));
        match a[i].as_str() {
            None => {
                assert(forbidden_element(nodes[i as int]) is None);
                return Err(ConfigError::ForbiddenImports);
            },
            Some(s) => match ForbiddenImport::parse(s) {
                Err(_) => {
                    assert(forbidden_element(nodes[i as int]) is None);
                    return Err(ConfigError::ForbiddenImports);
                },
                Ok(f) => {
                    out.push(f);
                },
            },
        }
        i += 1;
    }
    assert(forbidden_view(out@) =~= Seq::new(
        nodes.len(),
        |i: int| forbidden_element(nodes[i])->0,
    ));
    Ok(out)
}

fn read_cycles(v: Option<&serde_json::Value>) -> (r: Result<bool, ConfigError>)
    ensures
        r == cycles_in(opt_node(v)),
{
    match v {
        None => Ok(false),
        Some(v) => match v.as_bool() {
            Some(b) => Ok(b),
            None => Err(ConfigError::NoCycles),
        },
    }
}

fn read_severity_value(v: &serde_json::Value) -> (r: Result<Severity, ConfigError>)
    ensures
        r == severity_named(json_node(*v)),
{
    match v.as_str() {
        Some(s) => if same(s, "error") {
            Ok(Severity::Error)
        } else if same(s, "warn") || same(s, "warning") {
            Ok(Severity::Warning)
        } else {
            Err(ConfigError::Severity)
        },
        None => Err(ConfigError::Severity),
    }
}

fn read_severity(rules: &serde_json::Value) -> (r: Result<Severity, ConfigError>)
    ensures
        r == severity_in(json_node(*rules)),
{
    match json_get(rules, "default_severity") {
        Some(v) => read_severity_value(v),
        None => match json_get(rules, "severity") {
            Some(v) => read_severity_value(v),
            None => Ok(Severity::Error),
        },
    }
}

fn read_parts(
    limit: Option<&serde_json::Value>,
    forbidden: Option<&serde_json::Value>,
    cycles: Option<&serde_json::Value>,
    severity: Result<Severity, ConfigError>,
) -> (r: Result<Rules, ConfigError>)
    ensures
        rules_from(
            limit_in(opt_node(limit)),
            forbidden_in(opt_node(forbidden)),
            cycles_in(opt_node(cycles)),
            severity,
        ) == (match r {
            Ok(v) => Ok(v@),
            Err(e) => Err(e),
        }),
{
    let max_file_lines = match read_limit(limit) {
        Ok(v) => v,
        Err(e) => return Err(e),
    };
    let forbidden_imports = match read_forbidden(forbidden) {
        Ok(v) => v,
        Err(e) => return Err(e),
    };
    let no_cycles = match read_cycles(cycles) {
        Ok(v) => v,
        Err(e) => return Err(e),
    };
    let default_severity = match severity {
        Ok(v) => v,
        Err(e) => return Err(e),
    };
    Ok(Rules { max_file_lines, forbidden_imports, no_cycles, default_severity })
}

fn element_of(a: &Vec<serde_json::Value>, i: usize) -> (r: Option<&serde_json::Value>)
    ensures
        opt_node(r) == element(json_nodes(a@), i as int),
{
    if i < a.len() {
        Some(&a[i])
    } else {
        None
    }
}

fn read_rules(rules: &serde_json::Value) -> (r: Result<Rules, ConfigError>)
    ensures
        rules_in(json_node(*rules)) == (match r {
            Ok(v) => Ok(v@),
            Err(e) => Err(e),
        }),
{
    match rules.as_array() {
        Some(a) => {
            if a.len() == 0 {
                return Err(ConfigError::RulesShape);
            }
            assert(json_nodes(a@)[0] == json_node(a@[0]));
            read_parts(Some(&a[0]), element_of(a, 1), element_of(a, 2), Ok(Severity::Error))
        },
        None => if rules.is_object() {
            read_parts(
                json_get(rules, "max_file_lines"),
                json_get(rules, "forbidden_imports"),
                json_get(rules, "no_cycles"),
                read_severity(rules),
            )
        } else {
            Err(ConfigError::RulesShape)
        },
    }
}

fn read_override(v: &serde_json::Value) -> (r: Option<RuleOverride>)
    ensures
        override_element(json_node(*v)) == (match r {
            Some(o) => Some(o@),
            None => None::<(Seq<char>, Option<usize>)>,
        }),
{
    let path = match get_text(v, "path") {
        Some(path) => path,
        None => return None,
    };
    match read_limit(json_get(v, "max_file_lines")) {
        Ok(max_file_lines) => Some(RuleOverride { path, max_file_lines }),
        Err(_) => None,
    }
}

fn read_overrides(v: Option<&serde_json::Value>) -> (r: Result<Vec<RuleOverride>, ConfigError>)
    ensures
        overrides_in(opt_node(v)) == (match r {
            Ok(o) => Ok(overrides_view(o@)),
            Err(e) => Err(e),
        }),
{
    let mut out: Vec<RuleOverride> = Vec::new();
    let value = match v {
        None => {
            assert(overrides_view(out@) =~= Seq::empty());
            return Ok(out);
        },
        Some(value) => value,
    };
    let a = match value.as_array() {
        None => return Err(ConfigError::Overrides),
        Some(a) => a,
    };
    let ghost nodes = json_nodes(a@);
    let mut i: usize = 0;
    while i < a.len()
        invariant
            i <= a@.len(),
            nodes == json_nodes(a@),
            opt_node(v) == Some(JsonNode::Array(nodes)),
            out@.len() == i,
            forall|k: int|
                0 <= k < i ==> #[trigger] override_element(nodes[k]) == Some(out@[k]@),
        decreases a.len() - i,
    {
        assert(nodes[i as int] == json_node(a@[i as int]));
        match read_override(&a[i]) {
            Some(o) => {
                out.push(o);
            },
            None => {
                assert(override_element(nodes[i as int]) is None);
                return Err(ConfigError::Overrides);
            },
        }
        i += 1;
    }
    assert(overrides_view(out@) =~= Seq::new(nodes.len(), |i: int| override_element(nodes[i])->0));
    Ok(out)
}

impl RulesFile {
    /// Reads the text of `AetherLink.toml`.
    pub fn from_toml_str(text: &str) -> (r: Result<RulesFile, ConfigError>)
        ensures
            text_config(text@) == (match r {
                Ok(f) => Ok(f@),
                Err(e) => Err(e),
            }),
            r matches Ok(f) ==> is_text_read(text@, f.rules@),
    {
        let doc = match read_toml(text) {
            Ok(doc) => doc,
            Err(_) => return Err(ConfigError::Syntax),
        };
        let rules = match json_get(&doc, "rules") {
            None => Rules::default(),
            Some(v) => match read_rules(v) {
                Ok(rules) => rules,
                Err(e) => return Err(e),
            },
        };
        let overrides = match read_overrides(json_get(&doc, "overrides")) {
            Ok(overrides) => overrides,
            Err(e) => return Err(e),
        };
        Ok(RulesFile { rules, overrides })
    }

    /// The rules file of a project: the one that `text` writes down, or no rules
    /// where the project has no `AetherLink.toml`.
    pub fn load(text: Option<&str>) -> (r: Result<RulesFile, ConfigError>)
        ensures
            match text {
                Some(t) => text_config(t@),
                None => Ok(empty_rules_file()),
            } == (match r {
                Ok(f) => Ok(f@),
                Err(e) => Err(e),
            }),
    {
        match text {
            Some(t) => RulesFile::from_toml_str(t),
            None => {
                let f = RulesFile { rules: Rules::default(), overrides: Vec::new() };
                assert(f@.overrides =~= Seq::empty());
                Ok(f)
            },
        }
    }
}

impl Rules {
    /// Reads the rules from the text of `AetherLink.toml`.
    pub fn from_toml_str(text: &str) -> (r: Result<Rules, ConfigError>)
        ensures
            match text_config(text@) {
                Ok(f) => Ok(f.rules),
                Err(e) => Err(e),
            } == (match r {
                Ok(v) => Ok(v@),
                Err(e) => Err(e),
            }),
            r matches Ok(v) ==> is_text_read(text@, v@),
    {
        match RulesFile::from_toml_str(text) {
            Ok(f) => Ok(f.rules),
            Err(e) => Err(e),
        }
    }

    /// The rules of a project: those that `text` writes down, or none where the
    /// project has no `AetherLink.toml`.
    pub fn load(text: Option<&str>) -> (r: Result<Rules, ConfigError>)
        ensures
            match text {
                Some(t) => match text_config(t@) {
                    Ok(f) => Ok(f.rules),
                    Err(e) => Err(e),
                },
                None => Ok(empty_rules()),
            } == (match r {
                Ok(v) => Ok(v@),
                Err(e) => Err(e),
            }),
    {
        match text {
            Some(t) => Rules::from_toml_str(t),
            None => Ok(Rules::default()),
        }
    }

    /// Where the rules of a project are written down.
    pub fn config_path(project_root: &str) -> (p: String)
        ensures
            p@ == join_paths(project_root@, config_file_name()),
    {
        join_path(project_root, "AetherLink.toml")
    }
}

} // verus!
