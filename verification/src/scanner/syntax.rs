//! Queries on syntax trees, as `tree-sitter` answers them.
use streaming_iterator::StreamingIterator;
use tree_sitter::{Language, Parser, Query, QueryCursor};
use tree_sitter_javascript::LANGUAGE as JAVASCRIPT;
use tree_sitter_python::LANGUAGE as PYTHON;
use tree_sitter_rust::LANGUAGE as RUST;
use tree_sitter_typescript::LANGUAGE_TYPESCRIPT as TYPESCRIPT;
use vstd::prelude::*;

use crate::text::joined;

verus! {

/// The grammars that sources are parsed with.
#[derive(Debug, Clone, Copy, PartialEq, Eq, Structural)]
pub enum Grammar {
    /// The grammar of the crate `tree-sitter-rust`.
    Rust,
    /// The grammar of the crate `tree-sitter-python`.
    Python,
    /// The grammar of the crate `tree-sitter-javascript`.
    JavaScript,
    /// The TypeScript grammar of the crate `tree-sitter-typescript`.
    TypeScript,
}

/// What `tree-sitter` captures of a source: for each match of the query in
/// order the name and the text of each capture; `None` where it takes the
/// grammar or the query for invalid, or gives no tree.
pub uninterp spec fn captured(grammar: Grammar, query: Seq<char>, source: Seq<char>) -> Option<
    Seq<(Seq<char>, Seq<char>)>,
>;

/// Pairs of strings by their views.
pub open spec fn pair_views(v: Seq<(String, String)>) -> Seq<(Seq<char>, Seq<char>)> {
    Seq::new(v.len(), |i: int| (v[i].0@, v[i].1@))
}

// ---------------------------------------------------------------------------
// Words and paths
// ---------------------------------------------------------------------------

/// The words that have a meaning of their own in a grammar.
pub open spec fn reserved(grammar: Grammar) -> Seq<Seq<char>> {
    match grammar {
        Grammar::Rust => seq![
            "_"@, "as"@, "async"@, "await"@, "b"@, "bool"@, "break"@, "char"@, "const"@,
            "continue"@, "crate"@, "default"@, "dyn"@, "else"@, "enum"@,
            seq!['e', 'x', 't', 'e', 'r', 'n'], "f32"@, "f64"@, "false"@, "fn"@, "for"@, "gen"@,
            "i128"@, "i16"@, "i32"@, "i64"@, "i8"@, "if"@, "impl"@, "in"@, "isize"@, "let"@,
            "loop"@, "macro_rules"@, "match"@, "mod"@, "move"@, "mut"@, "pub"@, "raw"@, "ref"@,
            "return"@, "self"@, "static"@, "str"@, "struct"@, "super"@, "trait"@, "true"@,
            "try"@, "type"@, "u128"@, "u16"@, "u32"@, "u64"@, "u8"@, "union"@, "unsafe"@, "use"@,
            "usize"@, "where"@, "while"@, "yield"@,
        ],
        Grammar::Python => seq![
            "False"@, "None"@, "True"@, "_"@, "__future__"@, "and"@, "as"@, "assert"@, "async"@,
            "await"@, "break"@, "case"@, "class"@, "continue"@, "def"@, "del"@, "elif"@, "else"@,
            "except"@, "exec"@, "finally"@, "for"@, "from"@, "global"@, "if"@, "import"@, "in"@,
            "is"@, "lambda"@, "match"@, "nonlocal"@, "not"@, "or"@, "pass"@, "print"@, "raise"@,
            "return"@, "try"@, "type"@, "while"@, "with"@, "yield"@,
        ],
        Grammar::JavaScript | Grammar::TypeScript => seq![
            "E"@, "_"@, "abstract"@, "accessor"@, "any"@, "as"@, "assert"@, "asserts"@, "async"@,
            "await"@, "boolean"@, "break"@, "case"@, "catch"@, "class"@, "const"@, "continue"@,
            "debugger"@, "declare"@, "default"@, "delete"@, "do"@, "e"@, "else"@, "enum"@,
            "export"@, "extends"@, "false"@, "finally"@, "for"@, "from"@, "function"@, "get"@,
            "global"@, "if"@, "implements"@, "import"@, "in"@, "infer"@, "instanceof"@,
            "interface"@, "is"@, "keyof"@, "let"@, "meta"@, "module"@, "n"@, "namespace"@,
            "never"@, "new"@, "null"@, "number"@, "object"@, "of"@, "override"@, "package"@,
            "private"@, "protected"@, "public"@, "readonly"@, "require"@, "return"@,
            "satisfies"@, "set"@, "static"@, "string"@, "super"@, "switch"@, "symbol"@,
            "target"@, "this"@, "throw"@, "true"@, "try"@, "type"@, "typeof"@, "undefined"@,
            "unique"@, "unknown"@, "using"@, "var"@, "void"@, "while"@, "with"@, "yield"@,
        ],
    }
}

/// Whether `c` is an ASCII letter or an underscore.
pub open spec fn is_letter(c: char) -> bool {
    'a' <= c <= 'z' || 'A' <= c <= 'Z' || c == '_'
}

/// Whether the text is an identifier of ASCII characters and not a reserved
/// word.
pub open spec fn is_identifier(grammar: Grammar, s: Seq<char>) -> bool {
    &&& s.len() > 0
    &&& is_letter(s[0])
    &&& forall|i: int| 0 <= i < s.len() ==> is_letter(#[trigger] s[i]) || '0' <= s[i] <= '9'
    &&& !reserved(grammar).contains(s)
}

/// Whether the texts are the segments of a Rust path.
pub open spec fn are_segments(segments: Seq<Seq<char>>) -> bool {
    &&& segments.len() > 0
    &&& is_identifier(Grammar::Rust, segments[0]) || segments[0] == "crate"@ || segments[0]
        == "self"@ || segments[0] == "super"@
    &&& forall|i: int|
        1 <= i < segments.len() ==> is_identifier(Grammar::Rust, #[trigger] segments[i])
}

/// What a `use` declaration can name.
pub enum UseTree {
    /// `a::b`.
    Path(Seq<Seq<char>>),
    /// `a::b::*`.
    Glob(Seq<Seq<char>>),
    /// `a::b as c`.
    Renamed(Seq<Seq<char>>, Seq<char>),
    /// `a::b::{c, d}`.
    Group(Seq<Seq<char>>, Seq<Seq<Seq<char>>>),
}

/// The text of a path.
pub open spec fn path_text(segments: Seq<Seq<char>>) -> Seq<char> {
    joined(segments, "::"@)
}

impl UseTree {
    /// Whether each part is well formed.
    pub open spec fn is_proper(self) -> bool {
        match self {
            UseTree::Path(path) => are_segments(path),
            UseTree::Glob(path) => are_segments(path),
            UseTree::Renamed(path, name) => are_segments(path) && is_identifier(
                Grammar::Rust,
                name,
            ),
            UseTree::Group(path, members) => {
                &&& are_segments(path)
                &&& members.len() > 0
                &&& forall|i: int| 0 <= i < members.len() ==> are_segments(#[trigger] members[i])
            },
        }
    }

    /// Its text.
    pub open spec fn text(self) -> Seq<char> {
        match self {
            UseTree::Path(path) => path_text(path),
            UseTree::Glob(path) => path_text(path) + "::*"@,
            UseTree::Renamed(path, name) => path_text(path) + " as "@ + name,
            UseTree::Group(path, members) => path_text(path) + "::{"@ + joined(
                Seq::new(members.len(), |i: int| path_text(members[i])),
                ", "@,
            ) + "}"@,
        }
    }
}

/// Whether the text is a dotted Python name.
pub open spec fn is_dotted(names: Seq<Seq<char>>) -> bool {
    names.len() > 0 && forall|i: int|
        0 <= i < names.len() ==> is_identifier(Grammar::Python, #[trigger] names[i])
}

/// Whether the text can stand between the quotes of a script's string: ASCII
/// characters other than quotes, backslashes and control characters.
pub open spec fn is_string_body(s: Seq<char>) -> bool {
    forall|i: int|
        0 <= i < s.len() ==> ' ' <= #[trigger] s[i] <= '~' && s[i] != '"' && s[i] != '\'' && s[i]
            != '\\'
}

/// A string of a script, with its quotes.
pub open spec fn quoted(double: bool, body: Seq<char>) -> Seq<char> {
    if double {
        seq!['"'] + body + seq!['"']
    } else {
        seq!['\''] + body + seq!['\'']
    }
}

// ---------------------------------------------------------------------------
// Statements and patterns
// ---------------------------------------------------------------------------

/// What stands between `import` and the string of a script's import.
pub enum ImportClause {
    /// Nothing.
    Bare,
    /// `x from`.
    Default(Seq<char>),
    /// `{ x } from`.
    Named(Seq<char>),
    /// `* as x from`.
    Namespace(Seq<char>),
}

impl ImportClause {
    /// Whether its name, if it has one, is an identifier.
    pub open spec fn is_proper(self, grammar: Grammar) -> bool {
        match self {
            ImportClause::Bare => true,
            ImportClause::Default(name) => is_identifier(grammar, name),
            ImportClause::Named(name) => is_identifier(grammar, name),
            ImportClause::Namespace(name) => is_identifier(grammar, name),
        }
    }

    /// Its text.
    pub open spec fn text(self) -> Seq<char> {
        match self {
            ImportClause::Bare => Seq::empty(),
            ImportClause::Default(name) => name + " from "@,
            ImportClause::Named(name) => "{ "@ + name + " } from "@,
            ImportClause::Namespace(name) => "* as "@ + name + " from "@,
        }
    }
}

/// A statement that takes one line.
pub enum Statement {
    /// An empty line.
    Blank,
    /// Rust: `use tree;`.
    Use(UseTree),
    /// Rust: `mod name;`.
    Module(Seq<char>),
    /// Rust: `mod name {}`.
    InlineModule(Seq<char>),
    /// Python: `import a.b`, with any number of modules.
    Import(Seq<Seq<Seq<char>>>),
    /// Python: `from a.b import c`.
    From(Seq<Seq<char>>, Seq<char>),
    /// Python: `from ..a.b import c`, with any number of leading dots and of names
    /// behind them.
    FromRelative(Seq<char>, Seq<Seq<char>>, Seq<char>),
    /// Scripts: `import clause 'path';`.
    Load(ImportClause, bool, Seq<char>),
    /// Scripts: `const name = function('path');`.
    Call(Seq<char>, Seq<char>, bool, Seq<char>),
}

impl Statement {
    /// Whether each part is well formed and the statement belongs to the grammar.
    pub open spec fn is_proper(self, grammar: Grammar) -> bool {
        let script = grammar == Grammar::JavaScript || grammar == Grammar::TypeScript;
        match self {
            Statement::Blank => true,
            Statement::Use(tree) => grammar == Grammar::Rust && tree.is_proper(),
            Statement::Module(name) => grammar == Grammar::Rust && is_identifier(grammar, name),
            Statement::InlineModule(name) => grammar == Grammar::Rust && is_identifier(
                grammar,
                name,
            ),
            Statement::Import(modules) => {
                &&& grammar == Grammar::Python
                &&& modules.len() > 0
                &&& forall|i: int| 0 <= i < modules.len() ==> is_dotted(#[trigger] modules[i])
            },
            Statement::From(module, name) => grammar == Grammar::Python && is_dotted(module)
                && is_identifier(grammar, name),
            Statement::FromRelative(dots, module, name) => {
                &&& grammar == Grammar::Python
                &&& dots.len() > 0
                &&& forall|i: int| 0 <= i < dots.len() ==> #[trigger] dots[i] == '.'
                &&& module.len() == 0 || is_dotted(module)
                &&& is_identifier(grammar, name)
            },
            Statement::Load(clause, _, path) => script && clause.is_proper(grammar)
                && is_string_body(path),
            Statement::Call(name, function, _, path) => {
                &&& script
                &&& is_identifier(grammar, name)
                &&& is_identifier(grammar, function) || function == "require"@
                &&& is_string_body(path)
            },
        }
    }

    /// Its text.
    pub open spec fn text(self) -> Seq<char> {
        match self {
            Statement::Blank => Seq::empty(),
            Statement::Use(tree) => "use "@ + tree.text() + ";"@,
            Statement::Module(name) => "mod "@ + name + ";"@,
            Statement::InlineModule(name) => "mod "@ + name + " {}"@,
            Statement::Import(modules) => "import "@ + joined(
                Seq::new(modules.len(), |i: int| joined(modules[i], "."@)),
                ", "@,
            ),
            Statement::From(module, name) => "from "@ + joined(module, "."@) + " import "@ + name,
            Statement::FromRelative(dots, module, name) => "from "@ + dots + joined(module, "."@)
                + " import "@ + name,
            Statement::Load(clause, double, path) => "import "@ + clause.text() + quoted(
                double,
                path,
            ) + ";"@,
            Statement::Call(name, function, double, path) => "const "@ + name + " = "@ + function
                + "("@ + quoted(double, path) + ");"@,
        }
    }
}

/// The text of statements, one on each line.
pub open spec fn statements_text(statements: Seq<Statement>) -> Seq<char> {
    joined(Seq::new(statements.len(), |i: int| statements[i].text()), "\n"@)
}

/// A pattern of a query.
pub enum Pattern {
    /// The argument of a `use` declaration, whatever it is.
    UseArgument,
    /// The name of a `mod` declaration without a body.
    ModuleName,
    /// A dotted name that an `import` statement names.
    ImportName,
    /// The dotted name behind `from`.
    FromName,
    /// The relative name behind `from`.
    FromRelative,
    /// The string of an `import` statement.
    ImportSource,
    /// The string that `require` is called with.
    RequireArgument,
}

impl Pattern {
    /// Whether the pattern is one of the grammar.
    pub open spec fn belongs_to(self, grammar: Grammar) -> bool {
        match self {
            Pattern::UseArgument | Pattern::ModuleName => grammar == Grammar::Rust,
            Pattern::ImportName | Pattern::FromName | Pattern::FromRelative => grammar
                == Grammar::Python,
            Pattern::ImportSource | Pattern::RequireArgument => grammar == Grammar::JavaScript
                || grammar == Grammar::TypeScript,
        }
    }

    /// How the pattern is written.
    pub open spec fn text(self) -> Seq<char> {
        match self {
            Pattern::UseArgument => "(use_declaration argument: (_) @import)"@,
            Pattern::ModuleName => "(mod_item name: (identifier) @mod_name !body)"@,
            Pattern::ImportName => "(import_statement name: (dotted_name) @import)"@,
            Pattern::FromName => "(import_from_statement module_name: (dotted_name) @import)"@,
            Pattern::FromRelative => {
                "(import_from_statement module_name: (relative_import) @import)"@
            },
            Pattern::ImportSource => "(import_statement source: (string) @import)"@,
            Pattern::RequireArgument => {
                "(call_expression function: (identifier) @_func arguments: (arguments (string) @import) (#eq? @_func \"require\"))"@
            },
        }
    }

    /// What the pattern captures of a statement: the name of each capture and its
    /// text.
    pub open spec fn captures(self, statement: Statement) -> Seq<(Seq<char>, Seq<char>)> {
        match (self, statement) {
            (Pattern::UseArgument, Statement::Use(tree)) => seq![("import"@, tree.text())],
            (Pattern::ModuleName, Statement::Module(name)) => seq![("mod_name"@, name)],
            (Pattern::ImportName, Statement::Import(modules)) => Seq::new(
                modules.len(),
                |i: int| ("import"@, joined(modules[i], "."@)),
            ),
            (Pattern::FromName, Statement::From(module, _)) => seq![
                ("import"@, joined(module, "."@)),
            ],
            (Pattern::FromRelative, Statement::FromRelative(dots, module, _)) => seq![
                ("import"@, dots + joined(module, "."@)),
            ],
            (Pattern::ImportSource, Statement::Load(_, double, path)) => seq![
                ("import"@, quoted(double, path)),
            ],
            (Pattern::RequireArgument, Statement::Call(_, function, double, path)) => {
                if function == "require"@ {
                    seq![("_func"@, function), ("import"@, quoted(double, path))]
                } else {
                    Seq::empty()
                }
            },
            _ => Seq::empty(),
        }
    }
}

/// What a query of several patterns captures of a statement.
pub open spec fn statement_captures(patterns: Seq<Pattern>, statement: Statement) -> Seq<
    (Seq<char>, Seq<char>),
> {
    Seq::new(patterns.len(), |i: int| patterns[i].captures(statement)).flatten()
}

/// What a query of several patterns captures of statements, one after the
/// other.
pub open spec fn line_captures(patterns: Seq<Pattern>, statements: Seq<Statement>) -> Seq<
    (Seq<char>, Seq<char>),
> {
    Seq::new(statements.len(), |i: int| statement_captures(patterns, statements[i])).flatten()
}

/// The text of a query of several patterns.
pub open spec fn patterns_text(patterns: Seq<Pattern>) -> Seq<char> {
    joined(Seq::new(patterns.len(), |i: int| patterns[i].text()), " "@)
}

/// Whether the patterns are different ones of the grammar, and the statements
/// are well formed, in it, and not too long for its offsets.
pub open spec fn can_be_queried(
    grammar: Grammar,
    patterns: Seq<Pattern>,
    statements: Seq<Statement>,
) -> bool {
    &&& patterns.len() > 0
    &&& patterns.no_duplicates()
    &&& forall|i: int| 0 <= i < patterns.len() ==> (#[trigger] patterns[i]).belongs_to(grammar)
    &&& forall|i: int| 0 <= i < statements.len() ==> (#[trigger] statements[i]).is_proper(grammar)
    &&& statements_text(statements).len() < 0x4000_0000
}

/// Whether `all` is what the patterns that the query consists of capture of the
/// statements that the source consists of, where the two are of that form.
pub open spec fn captures_lines(
    grammar: Grammar,
    query: Seq<char>,
    source: Seq<char>,
    all: Seq<(Seq<char>, Seq<char>)>,
) -> bool {
    forall|patterns: Seq<Pattern>, statements: Seq<Statement>|
        #![trigger patterns_text(patterns), statements_text(statements)]
        can_be_queried(grammar, patterns, statements) && query == patterns_text(patterns) && source
            == statements_text(statements) ==> all == line_captures(patterns, statements)
}

/// Whether the query consists of known patterns and the source of known
/// statements.
pub open spec fn is_listed(grammar: Grammar, query: Seq<char>, source: Seq<char>) -> bool {
    exists|patterns: Seq<Pattern>, statements: Seq<Statement>|
        #![trigger patterns_text(patterns), statements_text(statements)]
        can_be_queried(grammar, patterns, statements) && query == patterns_text(patterns) && source
            == statements_text(statements)
}

/// `tree_sitter::QueryCursor::matches` on the tree that
/// `tree_sitter::Parser::parse` makes of the source with the grammar, for the
/// query that `tree_sitter::Query::new` makes of the text. What is captured
/// depends on the grammar, the query and the source alone. A node of the tree
/// begins and ends between characters of the source.
///
/// Of a source that consists of the statements that [`Statement`] lists, one on
/// each line, a query that consists of the patterns that [`Pattern`] lists
/// captures what [`Pattern::captures`] says, statement by statement. This is what
/// the grammars say of those statements: the argument of a `use` declaration is
/// one named node whatever its shape, the name of an import is a `dotted_name` or
/// a `relative_import`, and a string node reaches from quote to quote. Of other
/// sources and other queries no more is stated than that the result depends on
/// nothing else.
#[verifier::external_body]
pub(crate) fn captures(grammar: Grammar, query: &str, source: &str) -> (r: Option<
    Vec<(String, String)>,
>)
    ensures
        captured(grammar, query@, source@) == (match r {
            Some(v) => Some(pair_views(v@)),
            None => None,
        }),
        r matches Some(v) ==> captures_lines(grammar, query@, source@, pair_views(v@)),
        r is None ==> !is_listed(grammar, query@, source@),
{
    let language = Language::new(match grammar {
        Grammar::Rust => RUST,
        Grammar::Python => PYTHON,
        Grammar::JavaScript => JAVASCRIPT,
        Grammar::TypeScript => TYPESCRIPT,
    });
    let mut parser = Parser::new();
    parser.set_language(&language).ok()?;
    let query = Query::new(&language, query).ok()?;
    let tree = parser.parse(source, None)?;
    let mut out = vec![];
    let names = query.capture_names();
    QueryCursor::new().matches(&query, tree.root_node(), source.as_bytes()).for_each(|m| out.extend(
        m.captures.iter().map(|c| (names[c.index as usize].into(), source[c.node.byte_range()].into()))));
    Some(out)
}

} // verus!
