//! Which imports a source has, whatever its statements.
use vstd::prelude::*;
use vstd::string::*;

use super::import_parser::{capture_import, capture_imports, grammar_of, query_of};
use super::syntax::{
    are_segments, can_be_queried, captures_lines, is_dotted, is_identifier, is_letter, is_listed,
    is_string_body, line_captures, path_text, patterns_text, quoted, statement_captures,
    statements_text, Grammar, ImportClause, Pattern, Statement, UseTree,
};
use super::Language;
use crate::text::{joined, CharClass};
use crate::text_laws::{all_in, law_parts_are_joined_in_order, law_trim_removes_the_ends};

verus! {

/// The patterns for the imports of a language.
pub open spec fn patterns_of(language: Language) -> Seq<Pattern> {
    match language {
        Language::Rust => seq![Pattern::UseArgument, Pattern::ModuleName],
        Language::Python => seq![
            Pattern::ImportName,
            Pattern::FromName,
            Pattern::FromRelative,
        ],
        _ => seq![Pattern::ImportSource, Pattern::RequireArgument],
    }
}

proof fn lemma_rust_query()
    ensures
        query_of(Language::Rust) == patterns_text(patterns_of(Language::Rust)),
{
    let patterns = patterns_of(Language::Rust);
    let texts = Seq::new(patterns.len(), |i: int| patterns[i].text());
    let p = "(use_declaration argument: (_) @import)"@;
    let q = "(mod_item name: (identifier) @mod_name !body)"@;
    assert(texts =~= seq![p] + seq![q]);
    law_parts_are_joined_in_order(p, seq![q], " "@);
    assert(joined(seq![q], " "@) == q);
    reveal_strlit("(use_declaration argument: (_) @import)");
    reveal_strlit("(mod_item name: (identifier) @mod_name !body)");
    reveal_strlit(" ");
    reveal_strlit(
        "(use_declaration argument: (_) @import) (mod_item name: (identifier) @mod_name !body)",
    );
    assert(query_of(Language::Rust) =~= p + " "@ + q);
}

proof fn lemma_python_query()
    ensures
        query_of(Language::Python) == patterns_text(patterns_of(Language::Python)),
{
    let patterns = patterns_of(Language::Python);
    let texts = Seq::new(patterns.len(), |i: int| patterns[i].text());
    let p = "(import_statement name: (dotted_name) @import)"@;
    let q = "(import_from_statement module_name: (dotted_name) @import)"@;
    let r = "(import_from_statement module_name: (relative_import) @import)"@;
    assert(texts =~= seq![p] + (seq![q] + seq![r]));
    law_parts_are_joined_in_order(p, seq![q] + seq![r], " "@);
    law_parts_are_joined_in_order(q, seq![r], " "@);
    assert(joined(seq![r], " "@) == r);
    reveal_strlit("(import_statement name: (dotted_name) @import)");
    reveal_strlit("(import_from_statement module_name: (dotted_name) @import)");
    reveal_strlit("(import_from_statement module_name: (relative_import) @import)");
    reveal_strlit(" ");
    reveal_strlit(
        "(import_statement name: (dotted_name) @import) (import_from_statement module_name: (dotted_name) @import) (import_from_statement module_name: (relative_import) @import)",
    );
    assert(query_of(Language::Python) =~= p + " "@ + (q + " "@ + r));
}

proof fn lemma_script_query(language: Language)
    requires
        language == Language::JavaScript || language == Language::TypeScript,
    ensures
        query_of(language) == patterns_text(patterns_of(language)),
{
    let patterns = patterns_of(language);
    let texts = Seq::new(patterns.len(), |i: int| patterns[i].text());
    let p = "(import_statement source: (string) @import)"@;
    let q =
        "(call_expression function: (identifier) @_func arguments: (arguments (string) @import) (#eq? @_func \"require\"))"@;
    assert(texts =~= seq![p] + seq![q]);
    law_parts_are_joined_in_order(p, seq![q], " "@);
    assert(joined(seq![q], " "@) == q);
    reveal_strlit("(import_statement source: (string) @import)");
    reveal_strlit(
        "(call_expression function: (identifier) @_func arguments: (arguments (string) @import) (#eq? @_func \"require\"))",
    );
    reveal_strlit(" ");
    reveal_strlit(
        "(import_statement source: (string) @import) (call_expression function: (identifier) @_func arguments: (arguments (string) @import) (#eq? @_func \"require\"))",
    );
    assert(query_of(language) =~= p + " "@ + q);
}

// ---------------------------------------------------------------------------
// Statements
// ---------------------------------------------------------------------------

/// What a statement imports: the argument of a `use` declaration, whatever its
/// shape; the name of a module that is in a file of its own; each module that an
/// `import` names; what stands behind `from`; the path that a script imports or
/// requires.
pub open spec fn statement_imports(statement: Statement) -> Seq<Seq<char>> {
    match statement {
        Statement::Use(tree) => seq![tree.text()],
        Statement::Module(name) => seq![name],
        Statement::Import(modules) => Seq::new(
            modules.len(),
            |i: int| joined(modules[i], seq!['.']),
        ),
        Statement::From(module, _) => seq![joined(module, seq!['.'])],
        Statement::FromRelative(dots, module, _) => seq![dots + joined(module, seq!['.'])],
        Statement::Load(_, _, path) => if path.len() > 0 {
            seq![path]
        } else {
            Seq::empty()
        },
        Statement::Call(_, function, _, path) => if function == "require"@ && path.len() > 0 {
            seq![path]
        } else {
            Seq::empty()
        },
        _ => Seq::empty(),
    }
}

/// What statements import, one after the other.
pub open spec fn listed_imports(statements: Seq<Statement>) -> Seq<Seq<char>> {
    Seq::new(statements.len(), |i: int| statement_imports(statements[i])).flatten()
}

/// Whether `imports` is what the source imports, where it consists of one
/// statement on each line.
pub open spec fn reads_statements(
    source: Seq<char>,
    language: Language,
    imports: Seq<Seq<char>>,
) -> bool {
    forall|statements: Seq<Statement>|
        #![trigger statements_text(statements)]
        are_statements_of(language, statements) && source == statements_text(statements)
            ==> imports == listed_imports(statements)
}

/// Whether the statements are well formed, in the language, and not too long to
/// be parsed.
pub open spec fn are_statements_of(language: Language, statements: Seq<Statement>) -> bool {
    &&& language != Language::Unknown
    &&& forall|i: int|
        0 <= i < statements.len() ==> (#[trigger] statements[i]).is_proper(grammar_of(language))
    &&& statements_text(statements).len() < 0x4000_0000
}

proof fn lemma_imports_add(
    a: Seq<(Seq<char>, Seq<char>)>,
    b: Seq<(Seq<char>, Seq<char>)>,
    n: int,
)
    requires
        0 <= n <= b.len(),
    ensures
        capture_imports(a + b, a.len() + n) == capture_imports(a, a.len() as int)
            + capture_imports(b, n),
    decreases n,
{
    if n == 0 {
        lemma_imports_front(a, a + b, a.len() as int);
        assert(capture_imports(a, a.len() as int) + Seq::<Seq<char>>::empty() =~= capture_imports(
            a,
            a.len() as int,
        ));
    } else {
        lemma_imports_add(a, b, n - 1);
        assert((a + b)[a.len() + n - 1] == b[n - 1]);
        assert(capture_imports(a + b, a.len() + n) =~= capture_imports(a, a.len() as int)
            + capture_imports(b, n));
    }
}

proof fn lemma_imports_front(
    a: Seq<(Seq<char>, Seq<char>)>,
    b: Seq<(Seq<char>, Seq<char>)>,
    n: int,
)
    requires
        0 <= n <= a.len(),
        a.is_prefix_of(b),
    ensures
        capture_imports(a, n) == capture_imports(b, n),
    decreases n,
{
    if n > 0 {
        lemma_imports_front(a, b, n - 1);
        assert(a[n - 1] == b[n - 1]);
    }
}

proof fn lemma_imports_each(
    all: Seq<(Seq<char>, Seq<char>)>,
    texts: Seq<Seq<char>>,
    n: int,
)
    requires
        0 <= n <= all.len(),
        all.len() == texts.len(),
        forall|i: int| 0 <= i < all.len() ==> capture_import(#[trigger] all[i]) == seq![texts[i]],
    ensures
        capture_imports(all, n) == texts.subrange(0, n),
    decreases n,
{
    if n > 0 {
        lemma_imports_each(all, texts, n - 1);
        assert(capture_import(all[n - 1]) == seq![texts[n - 1]]);
        assert(texts.subrange(0, n - 1) + seq![texts[n - 1]] =~= texts.subrange(0, n));
    } else {
        assert(texts.subrange(0, 0) =~= Seq::<Seq<char>>::empty());
    }
}

proof fn lemma_unquoted(name: Seq<char>, text: Seq<char>)
    requires
        name == "import"@ || name == "mod_name"@,
        text.len() > 0,
        text[0] != '"' && text[0] != '\'',
        text.last() != '"' && text.last() != '\'',
    ensures
        capture_import((name, text)) == seq![text],
{
    reveal_strlit("import");
    reveal_strlit("mod_name");
    let none = Seq::<char>::empty();
    law_trim_removes_the_ends(none, text, none, CharClass::Quote);
    assert(none + text + none =~= text);
}

proof fn lemma_quoted(double: bool, body: Seq<char>)
    requires
        is_string_body(body),
    ensures
        capture_import(("import"@, quoted(double, body))) == (if body.len() > 0 {
            seq![body]
        } else {
            Seq::empty()
        }),
{
    reveal_strlit("import");
    let quote = if double {
        seq!['"']
    } else {
        seq!['\'']
    };
    law_trim_removes_the_ends(quote, body, quote, CharClass::Quote);
    assert(quoted(double, body) == quote + body + quote);
}

proof fn lemma_joined_ends(parts: Seq<Seq<char>>, sep: Seq<char>)
    requires
        parts.len() > 0,
        parts[0].len() > 0,
        parts.last().len() > 0,
    ensures
        joined(parts, sep).len() > 0,
        joined(parts, sep)[0] == parts[0][0],
        joined(parts, sep).last() == parts.last().last(),
{
    let others = parts.subrange(1, parts.len() as int);
    assert(seq![parts[0]] + others =~= parts);
    law_parts_are_joined_in_order(parts[0], others, sep);
    if others.len() == 0 {
        assert(parts =~= seq![parts[0]]);
    }
}

proof fn lemma_identifier_ends(grammar: Grammar, name: Seq<char>)
    requires
        is_identifier(grammar, name),
    ensures
        name[0] != '"' && name[0] != '\'',
        name.last() != '"' && name.last() != '\'',
{
    assert(is_letter(name[name.len() - 1]) || '0' <= name[name.len() - 1] <= '9');
}

proof fn lemma_path_ends(segments: Seq<Seq<char>>)
    requires
        are_segments(segments),
    ensures
        path_text(segments).len() > 0,
        path_text(segments)[0] != '"' && path_text(segments)[0] != '\'',
        path_text(segments).last() != '"' && path_text(segments).last() != '\'',
{
    reveal_strlit("crate");
    reveal_strlit("self");
    reveal_strlit("super");
    if is_identifier(Grammar::Rust, segments[0]) {
        lemma_identifier_ends(Grammar::Rust, segments[0]);
    }
    if segments.len() > 1 {
        lemma_identifier_ends(Grammar::Rust, segments[segments.len() - 1]);
    }
    lemma_joined_ends(segments, "::"@);
}

proof fn lemma_tree_ends(tree: UseTree)
    requires
        tree.is_proper(),
    ensures
        tree.text().len() > 0,
        tree.text()[0] != '"' && tree.text()[0] != '\'',
        tree.text().last() != '"' && tree.text().last() != '\'',
{
    match tree {
        UseTree::Path(path) => {
            lemma_path_ends(path);
        },
        UseTree::Glob(path) => {
            lemma_path_ends(path);
            reveal_strlit("::*");
            assert(tree.text().last() == "::*"@[2]);
        },
        UseTree::Renamed(path, name) => {
            lemma_path_ends(path);
            lemma_identifier_ends(Grammar::Rust, name);
            assert(tree.text().last() == name.last());
        },
        UseTree::Group(path, members) => {
            lemma_path_ends(path);
            reveal_strlit("}");
            assert(tree.text().last() == "}"@[0]);
        },
    }
}

proof fn lemma_dotted_ends(names: Seq<Seq<char>>)
    requires
        is_dotted(names),
    ensures
        joined(names, "."@) == joined(names, seq!['.']),
        joined(names, "."@).len() > 0,
        joined(names, "."@)[0] != '"' && joined(names, "."@)[0] != '\'',
        joined(names, "."@).last() != '"' && joined(names, "."@).last() != '\'',
{
    reveal_strlit(".");
    assert("."@ =~= seq!['.']);
    lemma_identifier_ends(Grammar::Python, names[0]);
    lemma_identifier_ends(Grammar::Python, names[names.len() - 1]);
    lemma_joined_ends(names, "."@);
}

proof fn lemma_one_capture(all: Seq<(Seq<char>, Seq<char>)>, c: (Seq<char>, Seq<char>))
    requires
        all == seq![c],
    ensures
        capture_imports(all, all.len() as int) == capture_import(c),
{
    assert(capture_imports(all, 0) =~= Seq::<Seq<char>>::empty());
    assert(capture_imports(all, 1) =~= capture_import(c));
}

proof fn lemma_captures_joined(patterns: Seq<Pattern>, statement: Statement)
    requires
        patterns.len() == 2 || patterns.len() == 3,
    ensures
        statement_captures(patterns, statement) == patterns[0].captures(statement)
            + patterns[1].captures(statement) + (if patterns.len() == 3 {
            patterns[2].captures(statement)
        } else {
            Seq::empty()
        }),
{
    let each = Seq::new(patterns.len(), |i: int| patterns[i].captures(statement));
    let a = patterns[0].captures(statement);
    let b = patterns[1].captures(statement);
    let rest = each.drop_first();
    let more = rest.drop_first();
    assert(each.flatten() == each.first() + rest.flatten());
    assert(rest.flatten() == rest.first() + more.flatten());
    if patterns.len() == 3 {
        let none = more.drop_first();
        assert(more.flatten() == more.first() + none.flatten());
        assert(none.flatten() =~= Seq::empty());
        assert(each.flatten() =~= a + b + patterns[2].captures(statement));
    } else {
        assert(more.flatten() =~= Seq::empty());
        assert(each.flatten() =~= a + b + Seq::<(Seq<char>, Seq<char>)>::empty());
    }
}

proof fn lemma_statement(language: Language, statement: Statement)
    requires
        language != Language::Unknown,
        statement.is_proper(grammar_of(language)),
    ensures
        ({
            let all = statement_captures(patterns_of(language), statement);
            capture_imports(all, all.len() as int) == statement_imports(statement)
        }),
{
    let patterns = patterns_of(language);
    let all = statement_captures(patterns, statement);
    lemma_captures_joined(patterns, statement);
    match statement {
        Statement::Use(tree) => {
            lemma_tree_ends(tree);
            lemma_unquoted("import"@, tree.text());
            assert(all =~= seq![("import"@, tree.text())]);
            lemma_one_capture(all, ("import"@, tree.text()));
        },
        Statement::Module(name) => {
            lemma_identifier_ends(Grammar::Rust, name);
            lemma_unquoted("mod_name"@, name);
            assert(all =~= seq![("mod_name"@, name)]);
            lemma_one_capture(all, ("mod_name"@, name));
        },
        Statement::Import(modules) => {
            let texts = statement_imports(statement);
            assert(all =~= Seq::new(modules.len(), |i: int| ("import"@, joined(modules[i], "."@))));
            assert forall|i: int| 0 <= i < all.len() implies capture_import(#[trigger] all[i])
                == seq![texts[i]] by {
                assert(is_dotted(modules[i]));
                lemma_dotted_ends(modules[i]);
                lemma_unquoted("import"@, joined(modules[i], "."@));
            }
            lemma_imports_each(all, texts, all.len() as int);
            assert(texts.subrange(0, texts.len() as int) =~= texts);
        },
        Statement::From(module, _) => {
            lemma_dotted_ends(module);
            lemma_unquoted("import"@, joined(module, "."@));
            assert(all =~= seq![("import"@, joined(module, "."@))]);
            lemma_one_capture(all, ("import"@, joined(module, "."@)));
        },
        Statement::FromRelative(dots, module, _) => {
            let text = dots + joined(module, "."@);
            reveal_strlit(".");
            assert("."@ =~= seq!['.']);
            assert(dots[0] == '.');
            assert(dots[dots.len() - 1] == '.');
            if module.len() > 0 {
                lemma_dotted_ends(module);
                assert(text.last() == joined(module, "."@).last());
            } else {
                assert(text =~= dots);
            }
            assert(text[0] == dots[0]);
            lemma_unquoted("import"@, text);
            assert(all =~= seq![("import"@, text)]);
            lemma_one_capture(all, ("import"@, text));
        },
        Statement::Load(_, double, path) => {
            lemma_quoted(double, path);
            assert(all =~= seq![("import"@, quoted(double, path))]);
            lemma_one_capture(all, ("import"@, quoted(double, path)));
        },
        Statement::Call(_, function, double, path) => {
            if function == "require"@ {
                lemma_quoted(double, path);
                let helper = ("_func"@, function);
                let main = ("import"@, quoted(double, path));
                assert(all =~= seq![helper] + seq![main]);
                lemma_imports_add(seq![helper], seq![main], 1);
                lemma_one_capture(seq![helper], helper);
                lemma_one_capture(seq![main], main);
                reveal_strlit("_func");
                assert(capture_import(helper) =~= Seq::empty());
                assert(capture_imports(all, 2) =~= capture_import(main));
            } else {
                assert(all =~= Seq::empty());
            }
        },
        _ => {
            assert(all =~= Seq::empty());
        },
    }
}

proof fn lemma_lines(language: Language, statements: Seq<Statement>)
    requires
        language != Language::Unknown,
        forall|i: int|
            0 <= i < statements.len() ==> (#[trigger] statements[i]).is_proper(
                grammar_of(language),
            ),
    ensures
        ({
            let all = line_captures(patterns_of(language), statements);
            capture_imports(all, all.len() as int) == listed_imports(statements)
        }),
    decreases statements.len(),
{
    let patterns = patterns_of(language);
    let lines = Seq::new(statements.len(), |i: int| statement_captures(patterns, statements[i]));
    let imports = Seq::new(statements.len(), |i: int| statement_imports(statements[i]));
    if statements.len() == 0 {
        assert(lines.flatten() =~= Seq::empty());
        assert(imports.flatten() =~= Seq::empty());
    } else {
        let rest = statements.drop_first();
        assert forall|i: int| 0 <= i < rest.len() implies (#[trigger] rest[i]).is_proper(
            grammar_of(language),
        ) by {
            assert(rest[i] == statements[i + 1]);
        }
        lemma_lines(language, rest);
        lemma_statement(language, statements[0]);
        assert(lines.drop_first() =~= Seq::new(
            rest.len(),
            |i: int| statement_captures(patterns, rest[i]),
        ));
        assert(imports.drop_first() =~= Seq::new(
            rest.len(),
            |i: int| statement_imports(rest[i]),
        ));
        let a = statement_captures(patterns, statements[0]);
        let b = line_captures(patterns, rest);
        assert(lines.flatten() == lines.first() + lines.drop_first().flatten());
        assert(imports.flatten() == imports.first() + imports.drop_first().flatten());
        lemma_imports_add(a, b, b.len() as int);
    }
}

/// What the query of a language captures of statements are their imports.
pub proof fn lemma_captures_are_imports(
    source: Seq<char>,
    language: Language,
    all: Seq<(Seq<char>, Seq<char>)>,
)
    requires
        language != Language::Unknown,
        captures_lines(grammar_of(language), query_of(language), source, all),
    ensures
        reads_statements(source, language, capture_imports(all, all.len() as int)),
{
    let grammar = grammar_of(language);
    let patterns = patterns_of(language);
    lemma_query(language);
    assert forall|statements: Seq<Statement>|
        #![trigger statements_text(statements)]
        are_statements_of(language, statements) && source == statements_text(
            statements,
        ) implies capture_imports(all, all.len() as int) == listed_imports(statements) by {
        assert(can_be_queried(grammar, patterns, statements));
        assert(query_of(language) == patterns_text(patterns));
        assert(all == line_captures(patterns, statements));
        lemma_lines(language, statements);
    }
}

/// A query is valid for a source of statements.
pub proof fn lemma_query_is_listed(
    source: Seq<char>,
    language: Language,
    statements: Seq<Statement>,
)
    requires
        are_statements_of(language, statements),
        source == statements_text(statements),
    ensures
        is_listed(grammar_of(language), query_of(language), source),
{
    lemma_query(language);
    let patterns = patterns_of(language);
    assert(can_be_queried(grammar_of(language), patterns, statements));
    assert(query_of(language) == patterns_text(patterns));
}

/// The query of a language is valid for the empty source.
pub proof fn lemma_empty_source_is_listed(language: Language)
    requires
        language != Language::Unknown,
    ensures
        is_listed(grammar_of(language), query_of(language), ""@),
{
    let none = Seq::<Statement>::empty();
    reveal_strlit("");
    assert(Seq::new(none.len(), |i: int| none[i].text()) =~= Seq::<Seq<char>>::empty());
    law_parts_are_joined_in_order(Seq::empty(), Seq::empty(), "\n"@);
    assert(statements_text(none) =~= ""@);
    lemma_query_is_listed(""@, language, none);
}

proof fn lemma_query(language: Language)
    requires
        language != Language::Unknown,
    ensures
        query_of(language) == patterns_text(patterns_of(language)),
        patterns_of(language).len() > 0,
        patterns_of(language).no_duplicates(),
        forall|i: int|
            0 <= i < patterns_of(language).len() ==> (#[trigger] patterns_of(
                language,
            )[i]).belongs_to(grammar_of(language)),
{
    match language {
        Language::Rust => {
            lemma_rust_query();
        },
        Language::Python => {
            lemma_python_query();
        },
        _ => {
            lemma_script_query(language);
        },
    }
}

// ---------------------------------------------------------------------------
// Laws
// ---------------------------------------------------------------------------

proof fn lemma_single_line(statement: Statement)
    ensures
        statements_text(seq![statement]) == statement.text(),
        listed_imports(seq![statement]) == statement_imports(statement),
{
    let one = seq![statement];
    let texts = Seq::new(one.len(), |i: int| one[i].text());
    assert(texts =~= seq![statement.text()]);
    law_parts_are_joined_in_order(statement.text(), Seq::empty(), "\n"@);
    let imports = Seq::new(one.len(), |i: int| statement_imports(one[i]));
    assert(imports.drop_first() =~= Seq::<Seq<Seq<char>>>::empty());
    assert(imports.flatten() == imports.first() + imports.drop_first().flatten());
    assert(imports.flatten() =~= statement_imports(statement));
}

/// A `use` declaration imports its argument, be it a path, a path with a star, a
/// path with another name, or a path with a group of paths.
pub proof fn law_use_declarations_import_their_argument(
    tree: UseTree,
    source: Seq<char>,
    imports: Seq<Seq<char>>,
)
    requires
        tree.is_proper(),
        source == "use "@ + tree.text() + ";"@,
        source.len() < 0x4000_0000,
        reads_statements(source, Language::Rust, imports),
    ensures
        imports == seq![tree.text()],
{
    let statement = Statement::Use(tree);
    lemma_single_line(statement);
    assert(seq![statement][0].is_proper(Grammar::Rust));
    assert(are_statements_of(Language::Rust, seq![statement]));
    assert(source == statements_text(seq![statement]));
}

/// A module declaration imports the module where it is in a file of its own, and
/// nothing where its body follows.
pub proof fn law_module_declarations_import_the_module(
    name: Seq<char>,
    source: Seq<char>,
    imports: Seq<Seq<char>>,
)
    requires
        is_identifier(Grammar::Rust, name),
        source.len() < 0x4000_0000,
        reads_statements(source, Language::Rust, imports),
    ensures
        source == "mod "@ + name + ";"@ ==> imports == seq![name],
        source == "mod "@ + name + " {}"@ ==> imports.len() == 0,
{
    let statement = Statement::Module(name);
    lemma_single_line(statement);
    assert(seq![statement][0].is_proper(Grammar::Rust));
    if source == "mod "@ + name + ";"@ {
        assert(are_statements_of(Language::Rust, seq![statement]));
        assert(source == statements_text(seq![statement]));
    }
    let block = Statement::InlineModule(name);
    lemma_single_line(block);
    assert(seq![block][0].is_proper(Grammar::Rust));
    if source == "mod "@ + name + " {}"@ {
        assert(are_statements_of(Language::Rust, seq![block]));
        assert(source == statements_text(seq![block]));
    }
}

/// A Python `from` statement imports the module that it names, absolute or
/// relative, and an `import` statement the module behind it.
pub proof fn law_python_statements_import_the_module(
    dots: Seq<char>,
    module: Seq<Seq<char>>,
    name: Seq<char>,
    source: Seq<char>,
    imports: Seq<Seq<char>>,
)
    requires
        forall|i: int| 0 <= i < dots.len() ==> #[trigger] dots[i] == '.',
        is_dotted(module) || (module.len() == 0 && dots.len() > 0),
        is_identifier(Grammar::Python, name),
        source.len() < 0x4000_0000,
        reads_statements(source, Language::Python, imports),
    ensures
        source == "from "@ + (dots + joined(module, seq!['.'])) + " import "@ + name ==> imports
            == seq![dots + joined(module, seq!['.'])],
        dots.len() == 0 && source == "import "@ + joined(module, seq!['.']) ==> imports == seq![
            joined(module, seq!['.']),
        ],
{
    reveal_strlit(".");
    assert("."@ =~= seq!['.']);
    let text = joined(module, seq!['.']);
    if source == "from "@ + (dots + text) + " import "@ + name {
        let statement = if dots.len() == 0 {
            Statement::From(module, name)
        } else {
            Statement::FromRelative(dots, module, name)
        };
        lemma_single_line(statement);
        assert(seq![statement][0].is_proper(Grammar::Python));
        if dots.len() == 0 {
            assert(dots + text =~= text);
        }
        assert(statement.text() =~= source);
        assert(are_statements_of(Language::Python, seq![statement]));
        assert(source == statements_text(seq![statement]));
    }
    if dots.len() == 0 && source == "import "@ + text {
        let modules = seq![module];
        let statement = Statement::Import(modules);
        lemma_single_line(statement);
        assert(modules[0] == module);
        assert(seq![statement][0].is_proper(Grammar::Python));
        let texts = Seq::new(modules.len(), |i: int| joined(modules[i], "."@));
        assert(texts =~= seq![text]);
        law_parts_are_joined_in_order(text, Seq::empty(), ", "@);
        assert(statement.text() =~= source);
        assert(are_statements_of(Language::Python, seq![statement]));
        assert(source == statements_text(seq![statement]));
        assert(statement_imports(statement) =~= seq![text]);
    }
}

/// A script imports the path between the quotes, of either kind, whatever it
/// binds, and the path that it requires; a call of another function imports
/// nothing.
pub proof fn law_scripts_import_the_path(
    language: Language,
    clause: ImportClause,
    name: Seq<char>,
    function: Seq<char>,
    double: bool,
    path: Seq<char>,
    source: Seq<char>,
    imports: Seq<Seq<char>>,
)
    requires
        language == Language::JavaScript || language == Language::TypeScript,
        clause.is_proper(grammar_of(language)),
        is_identifier(grammar_of(language), name),
        is_identifier(grammar_of(language), function),
        is_string_body(path),
        path.len() > 0,
        source.len() < 0x4000_0000,
        reads_statements(source, language, imports),
    ensures
        source == "import "@ + clause.text() + quoted(double, path) + ";"@ ==> imports == seq![path],
        source == "const "@ + name + " = "@ + "require"@ + "("@ + quoted(double, path) + ");"@
            ==> imports == seq![path],
        function != "require"@ && source == "const "@ + name + " = "@ + function + "("@ + quoted(
            double,
            path,
        ) + ");"@ ==> imports.len() == 0,
{
    let load = Statement::Load(clause, double, path);
    lemma_single_line(load);
    assert(seq![load][0].is_proper(grammar_of(language)));
    if source == load.text() {
        assert(are_statements_of(language, seq![load]));
        assert(source == statements_text(seq![load]));
    }
    let require = Statement::Call(name, "require"@, double, path);
    lemma_single_line(require);
    assert(seq![require][0].is_proper(grammar_of(language)));
    if source == require.text() {
        assert(are_statements_of(language, seq![require]));
        assert(source == statements_text(seq![require]));
    }
    let call = Statement::Call(name, function, double, path);
    lemma_single_line(call);
    assert(seq![call][0].is_proper(grammar_of(language)));
    if source == call.text() {
        assert(are_statements_of(language, seq![call]));
        assert(source == statements_text(seq![call]));
    }
}

/// A further line adds its imports behind those of the lines before it.
pub proof fn law_lines_add_their_imports(
    language: Language,
    statements: Seq<Statement>,
    last: Statement,
    before: Seq<Seq<char>>,
    after: Seq<Seq<char>>,
)
    requires
        are_statements_of(language, statements.push(last)),
        are_statements_of(language, statements),
        reads_statements(statements_text(statements), language, before),
        reads_statements(statements_text(statements.push(last)), language, after),
    ensures
        after == before + statement_imports(last),
{
    let more = statements.push(last);
    assert(before == listed_imports(statements));
    assert(after == listed_imports(more));
    let a = Seq::new(statements.len(), |i: int| statement_imports(statements[i]));
    let b = Seq::new(more.len(), |i: int| statement_imports(more[i]));
    assert(b =~= a.push(statement_imports(last)));
    lemma_flatten_push(a, statement_imports(last));
}

proof fn lemma_flatten_push(a: Seq<Seq<Seq<char>>>, last: Seq<Seq<char>>)
    ensures
        a.push(last).flatten() == a.flatten() + last,
    decreases a.len(),
{
    let b = a.push(last);
    if a.len() == 0 {
        assert(b.drop_first() =~= Seq::<Seq<Seq<char>>>::empty());
        assert(b.flatten() == b.first() + b.drop_first().flatten());
        assert(b.flatten() =~= a.flatten() + last);
    } else {
        lemma_flatten_push(a.drop_first(), last);
        assert(b.drop_first() =~= a.drop_first().push(last));
        assert(b.flatten() == b.first() + b.drop_first().flatten());
        assert(a.flatten() == a.first() + a.drop_first().flatten());
        assert(b.flatten() =~= a.flatten() + last);
    }
}

/// A capture is an import with the quotes at its ends taken away, unless its name
/// starts with an underscore or nothing is left; imports come in the order of the
/// captures.
pub proof fn law_captures_become_imports(
    all: Seq<(Seq<char>, Seq<char>)>,
    name: Seq<char>,
    pre: Seq<char>,
    mid: Seq<char>,
    post: Seq<char>,
)
    requires
        all_in(pre, CharClass::Quote),
        all_in(post, CharClass::Quote),
        mid.len() > 0 ==> !CharClass::Quote.has(mid[0]) && !CharClass::Quote.has(
            mid[mid.len() - 1],
        ),
    ensures
        capture_imports(all, 0).len() == 0,
        capture_imports(all.push((name, pre + mid + post)), (all.len() + 1) as int)
            == capture_imports(all, all.len() as int) + (if mid.len() == 0 || (name.len() > 0
            && name[0] == '_') {
            Seq::empty()
        } else {
            seq![mid]
        }),
{
    law_trim_removes_the_ends(pre, mid, post, CharClass::Quote);
    let more = all.push((name, pre + mid + post));
    lemma_imports_front(all, more, all.len() as int);
}

} // verus!
