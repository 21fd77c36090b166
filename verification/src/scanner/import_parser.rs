//! Imports out of source code.
use vstd::prelude::*;

use super::import_laws::{
    are_statements_of, lemma_captures_are_imports, lemma_empty_source_is_listed,
    lemma_query_is_listed, listed_imports, reads_statements,
};
use super::syntax::{captured, captures, pair_views, statements_text, Grammar, Statement};
use super::Language;
use crate::text::{chars_of, string_of, trim_chars, trimmed_of, views, CharClass};

verus! {

/// The grammar of a language.
pub open spec fn grammar_of(language: Language) -> Grammar {
    match language {
        Language::Rust => Grammar::Rust,
        Language::Python => Grammar::Python,
        Language::JavaScript => Grammar::JavaScript,
        _ => Grammar::TypeScript,
    }
}

/// The query for the imports of a language: in Rust `use` declarations and `mod`
/// declarations without a body, in Python `import X` and `from X import Y`, in
/// JavaScript and TypeScript `import ... from 'X'` and `require('X')`.
pub open spec fn query_of(language: Language) -> Seq<char> {
    match language {
        Language::Rust => {
            "(use_declaration argument: (_) @import) (mod_item name: (identifier) @mod_name !body)"@
        },
        Language::Python => {
            "(import_statement name: (dotted_name) @import) (import_from_statement module_name: (dotted_name) @import) (import_from_statement module_name: (relative_import) @import)"@
        },
        _ => {
            "(import_statement source: (string) @import) (call_expression function: (identifier) @_func arguments: (arguments (string) @import) (#eq? @_func \"require\"))"@
        },
    }
}

/// The import that a capture stands for. Captures whose names start with an
/// underscore only help the query; quotes around the text are stripped, and
/// nothing is left out of an empty text.
pub open spec fn capture_import(capture: (Seq<char>, Seq<char>)) -> Seq<Seq<char>> {
    let cleaned = trimmed_of(capture.1, CharClass::Quote);
    if (capture.0.len() > 0 && capture.0[0] == '_') || cleaned.len() == 0 {
        Seq::empty()
    } else {
        seq![cleaned]
    }
}

/// The imports that the first `n` captures stand for, in order.
pub open spec fn capture_imports(all: Seq<(Seq<char>, Seq<char>)>, n: int) -> Seq<Seq<char>>
    decreases n,
{
    if n <= 0 {
        Seq::empty()
    } else {
        capture_imports(all, n - 1) + capture_import(all[n - 1])
    }
}

/// The imports of a source. A source in an unknown language has none.
pub open spec fn source_imports(source: Seq<char>, language: Language) -> Seq<Seq<char>> {
    if language == Language::Unknown {
        Seq::empty()
    } else {
        match captured(grammar_of(language), query_of(language), source) {
            Some(all) => capture_imports(all, all.len() as int),
            None => Seq::empty(),
        }
    }
}

/// Whether the grammar and the query of the language are valid.
pub open spec fn is_ready(language: Language) -> bool {
    captured(grammar_of(language), query_of(language), ""@) is Some
}

/// The first language, in the order of the checks, whose grammar or query is
/// not valid.
pub open spec fn unready_language() -> Option<Language> {
    if !is_ready(Language::Rust) {
        Some(Language::Rust)
    } else if !is_ready(Language::Python) {
        Some(Language::Python)
    } else if !is_ready(Language::JavaScript) {
        Some(Language::JavaScript)
    } else if !is_ready(Language::TypeScript) {
        Some(Language::TypeScript)
    } else {
        None
    }
}

/// Extracts import/dependency strings from source code using tree-sitter.
#[derive(Debug)]
pub struct ImportParser {}

/// A language whose imports cannot be queried.
#[derive(Debug, Clone, Copy, PartialEq, Eq, Structural)]
pub struct ParserError {
    /// The language.
    pub language: Language,
}

fn query_text(language: Language) -> (s: &'static str)
    ensures
        s@ == query_of(language),
{
    match language {
        Language::Rust => {
            "(use_declaration argument: (_) @import) (mod_item name: (identifier) @mod_name !body)"
        },
        Language::Python => {
            "(import_statement name: (dotted_name) @import) (import_from_statement module_name: (dotted_name) @import) (import_from_statement module_name: (relative_import) @import)"
        },
        _ => {
            "(import_statement source: (string) @import) (call_expression function: (identifier) @_func arguments: (arguments (string) @import) (#eq? @_func \"require\"))"
        },
    }
}

fn grammar_for(language: Language) -> (g: Grammar)
    ensures
        g == grammar_of(language),
{
    match language {
        Language::Rust => Grammar::Rust,
        Language::Python => Grammar::Python,
        Language::JavaScript => Grammar::JavaScript,
        _ => Grammar::TypeScript,
    }
}

fn check_language(language: Language) -> (r: Result<(), ParserError>)
    ensures
        r == (if is_ready(language) {
            Ok::<(), ParserError>(())
        } else {
            Err::<(), ParserError>(ParserError { language })
        }),
        language != Language::Unknown ==> r is Ok,
{
    proof {
        if language != Language::Unknown {
            lemma_empty_source_is_listed(language);
        }
    }
    match captures(grammar_for(language), query_text(language), "") {
        Some(_) => Ok(()),
        None => Err(ParserError { language }),
    }
}

/// The imports that the captures of a query stand for, in order.
pub fn imports_from_captures(all: &Vec<(String, String)>) -> (out: Vec<String>)
    ensures
        views(out@) == capture_imports(pair_views(all@), all@.len() as int),
{
    let mut out: Vec<String> = Vec::new();
    let ghost pairs = pair_views(all@);
    let mut i: usize = 0;
    assert(views(out@) =~= Seq::<Seq<char>>::empty());
    while i < all.len()
        invariant
            i <= all@.len(),
            pairs == pair_views(all@),
            views(out@) == capture_imports(pairs, i as int),
        decreases all.len() - i,
    {
        let ghost before = views(out@);
        let name = chars_of(&all[i].0);
        let cleaned = trim_chars(&chars_of(&all[i].1), CharClass::Quote);
        assert(pairs[i as int] == (name@, all@[i as int].1@));
        if !(name.len() > 0 && name[0] == '_') && cleaned.len() > 0 {
            out.push(string_of(&cleaned));
            assert(views(out@) =~= before + seq![cleaned@]);
        } else {
            assert(views(out@) =~= before + Seq::<Seq<char>>::empty());
        }
        i += 1;
    }
    out
}

impl ImportParser {
    /// Checks the grammar and the query of each language.
    pub fn new() -> (r: Result<ImportParser, ParserError>)
        ensures
            unready_language() == (match r {
                Ok(_) => None,
                Err(e) => Some(e.language),
            }),
            r is Ok,
    {
        match check_language(Language::Rust) {
            Ok(()) => {},
            Err(e) => return Err(e),
        }
        match check_language(Language::Python) {
            Ok(()) => {},
            Err(e) => return Err(e),
        }
        match check_language(Language::JavaScript) {
            Ok(()) => {},
            Err(e) => return Err(e),
        }
        match check_language(Language::TypeScript) {
            Ok(()) => {},
            Err(e) => return Err(e),
        }
        Ok(ImportParser {  })
    }

    /// Parse imports from source code for the given language.
    pub fn parse(&self, source: &str, language: &Language) -> (out: Vec<String>)
        ensures
            views(out@) == source_imports(source@, *language),
            reads_statements(source@, *language, views(out@)),
    {
        let none: Vec<String> = Vec::new();
        assert(views(none@) =~= Seq::<Seq<char>>::empty());
        if *language == Language::Unknown {
            return none;
        }
        match captures(grammar_for(*language), query_text(*language), source) {
            Some(all) => {
                proof {
                    lemma_captures_are_imports(source@, *language, pair_views(all@));
                }
                imports_from_captures(&all)
            },
            None => {
                proof {
                    assert forall|statements: Seq<Statement>|
                        #![trigger statements_text(statements)]
                        are_statements_of(*language, statements) && source@ == statements_text(
                            statements,
                        ) implies views(none@) == listed_imports(statements) by {
                        lemma_query_is_listed(source@, *language, statements);
                    }
                }
                none
            },
        }
    }
}

} // verus!
