//! What the rules file comes to, whatever it says: arrow rules, patterns, line
//! limits and the reading of a document.
use vstd::prelude::*;
use vstd::string::*;

use super::config::{
    arrow_pair, document_config, effective_limit, forbidden_element, forbidden_in, limit_after,
    name_matches, override_element, overrides_in, path_matches, ArrowError, RulesFileView,
};
use super::Severity;
use crate::json::JsonNode;
use crate::paths::components;
use crate::text::CharClass;
use crate::text_laws::{
    all_in, law_search_finds_the_first, law_trim_removes_the_ends, stands_first, stands_nowhere,
};

verus! {

// ---------------------------------------------------------------------------
// Arrow rules
// ---------------------------------------------------------------------------

/// Whether `side` is a folder name with blanks around it.
pub open spec fn is_padded(side: Seq<char>, name: Seq<char>) -> bool {
    exists|pre: Seq<char>, post: Seq<char>|
        all_in(pre, CharClass::Space) && all_in(post, CharClass::Space) && side == #[trigger] (pre
            + name + post)
}

/// Whether `name` is not empty and has no blank at its ends.
pub open spec fn is_unpadded(name: Seq<char>) -> bool {
    &&& name.len() > 0
    &&& !CharClass::Space.has(name[0])
    &&& !CharClass::Space.has(name[name.len() - 1])
}

/// An arrow rule reads as the two names around its first arrow, whatever blanks
/// stand around them. Without an arrow, or with nothing but blanks on one side,
/// it is no rule.
pub proof fn law_arrow_parts_two_names(
    raw: Seq<char>,
    k: int,
    from: Seq<char>,
    to: Seq<char>,
)
    ensures
        stands_nowhere(raw, seq!['-', '>']) ==> arrow_pair(raw) == Err::<
            (Seq<char>, Seq<char>),
            ArrowError,
        >(ArrowError::MissingArrow),
        stands_first(raw, seq!['-', '>'], k) ==> {
            let left = raw.subrange(0, k);
            let right = raw.subrange(k + 2, raw.len() as int);
            &&& is_unpadded(from) && is_unpadded(to) && is_padded(left, from) && is_padded(
                right,
                to,
            ) ==> arrow_pair(raw) == Ok::<(Seq<char>, Seq<char>), ArrowError>((from, to))
            &&& all_in(left, CharClass::Space) || all_in(right, CharClass::Space) ==> arrow_pair(
                raw,
            ) == Err::<(Seq<char>, Seq<char>), ArrowError>(ArrowError::EmptySide)
        },
{
    reveal_strlit("->");
    assert("->"@ =~= seq!['-', '>']);
    law_search_finds_the_first(raw, seq!['-', '>'], k);
    if stands_first(raw, seq!['-', '>'], k) {
        let left = raw.subrange(0, k);
        let right = raw.subrange(k + 2, raw.len() as int);
        lemma_padded(left, from);
        lemma_padded(right, to);
        lemma_blank(left);
        lemma_blank(right);
    }
}

/// A trim takes the blanks around a name away.
pub proof fn lemma_padded(side: Seq<char>, name: Seq<char>)
    ensures
        is_unpadded(name) && is_padded(side, name) ==> crate::text::trimmed(side) == name,
{
    if is_unpadded(name) && is_padded(side, name) {
        let (pre, post) = choose|pre: Seq<char>, post: Seq<char>|
            all_in(pre, CharClass::Space) && all_in(post, CharClass::Space) && side == #[trigger] (
            pre + name + post);
        law_trim_removes_the_ends(pre, name, post, CharClass::Space);
    }
}

proof fn lemma_blank(side: Seq<char>)
    ensures
        all_in(side, CharClass::Space) ==> crate::text::trimmed(side).len() == 0,
{
    if all_in(side, CharClass::Space) {
        let none = Seq::<char>::empty();
        law_trim_removes_the_ends(side, none, none, CharClass::Space);
        assert(side + none + none =~= side);
    }
}

// ---------------------------------------------------------------------------
// Patterns
// ---------------------------------------------------------------------------

/// A name pattern without a star matches that name alone.
pub proof fn law_plain_pattern_matches_itself(pattern: Seq<char>, name: Seq<char>)
    requires
        forall|i: int| 0 <= i < pattern.len() ==> #[trigger] pattern[i] != '*',
    ensures
        name_matches(pattern, name) <==> pattern == name,
    decreases pattern.len(),
{
    if pattern.len() == 0 {
        assert(name.len() == 0 ==> pattern =~= name);
    } else {
        let p = pattern.subrange(1, pattern.len() as int);
        assert forall|i: int| 0 <= i < p.len() implies #[trigger] p[i] != '*' by {
            assert(p[i] == pattern[i + 1]);
        }
        if name.len() > 0 {
            let n = name.subrange(1, name.len() as int);
            law_plain_pattern_matches_itself(p, n);
            if p == n && pattern[0] == name[0] {
                assert(pattern =~= seq![pattern[0]] + p);
                assert(name =~= seq![name[0]] + n);
            }
        }
    }
}

/// Whether the name falls into a front part that one pattern matches, an end
/// that the other matches, and any characters between them.
pub open spec fn falls_apart(
    front: Seq<char>,
    back: Seq<char>,
    name: Seq<char>,
    i: int,
    j: int,
) -> bool {
    &&& 0 <= i <= j <= name.len()
    &&& name_matches(front, name.subrange(0, i))
    &&& name_matches(back, name.subrange(j, name.len() as int))
}

/// A star stands for any run of characters: what stands before it matches the
/// front of the name, what stands behind it matches the end, and between the
/// two there may be anything.
pub proof fn law_star_matches_any_run(front: Seq<char>, back: Seq<char>, name: Seq<char>)
    ensures
        name_matches(front + seq!['*'] + back, name) <==> exists|i: int, j: int|
            falls_apart(front, back, name, i, j),
{
    if name_matches(front + seq!['*'] + back, name) {
        lemma_star_found(front, back, name);
    }
    if exists|i: int, j: int| falls_apart(front, back, name, i, j) {
        let (i, j) = choose|i: int, j: int| falls_apart(front, back, name, i, j);
        lemma_star_holds(front, back, name, i, j);
    }
}

proof fn lemma_star_found(front: Seq<char>, back: Seq<char>, name: Seq<char>)
    requires
        name_matches(front + seq!['*'] + back, name),
    ensures
        exists|i: int, j: int| falls_apart(front, back, name, i, j),
    decreases front.len() + name.len(),
{
    let pattern = front + seq!['*'] + back;
    let p = pattern.subrange(1, pattern.len() as int);
    let n = name.subrange(1, name.len() as int);
    if front.len() == 0 {
        assert(pattern[0] == '*');
        assert(p =~= back);
        if name_matches(back, name) {
            assert(name.subrange(0, name.len() as int) =~= name);
            assert(falls_apart(front, back, name, 0, 0));
        } else {
            lemma_star_found(front, back, n);
            let (i, j) = choose|i: int, j: int| falls_apart(front, back, n, i, j);
            assert(i == 0);
            assert(n.subrange(j, n.len() as int) =~= name.subrange(j + 1, name.len() as int));
            assert(name.subrange(0, 0) =~= n.subrange(0, 0));
            assert(falls_apart(front, back, name, 0, j + 1));
        }
    } else {
        let f = front.subrange(1, front.len() as int);
        assert(pattern[0] == front[0]);
        assert(p =~= f + seq!['*'] + back);
        if front[0] == '*' && name_matches(p, name) {
            lemma_star_found(f, back, name);
            let (i, j) = choose|i: int, j: int| falls_apart(f, back, name, i, j);
            assert(falls_apart(front, back, name, i, j));
        } else {
            let short = if front[0] == '*' {
                front
            } else {
                f
            };
            lemma_star_found(short, back, n);
            let (i, j) = choose|i: int, j: int| falls_apart(short, back, n, i, j);
            let start = name.subrange(0, i + 1);
            assert(start.subrange(1, start.len() as int) =~= n.subrange(0, i));
            assert(n.subrange(j, n.len() as int) =~= name.subrange(j + 1, name.len() as int));
            assert(falls_apart(front, back, name, i + 1, j + 1));
        }
    }
}

proof fn lemma_star_holds(front: Seq<char>, back: Seq<char>, name: Seq<char>, i: int, j: int)
    requires
        falls_apart(front, back, name, i, j),
    ensures
        name_matches(front + seq!['*'] + back, name),
    decreases front.len() + name.len(),
{
    let pattern = front + seq!['*'] + back;
    let p = pattern.subrange(1, pattern.len() as int);
    let n = name.subrange(1, name.len() as int);
    let start = name.subrange(0, i);
    if front.len() == 0 {
        assert(pattern[0] == '*');
        assert(p =~= back);
        assert(i == 0);
        if j == 0 {
            assert(name.subrange(0, name.len() as int) =~= name);
        } else {
            assert(n.subrange(j - 1, n.len() as int) =~= name.subrange(j, name.len() as int));
            assert(n.subrange(0, 0) =~= start);
            lemma_star_holds(front, back, n, 0, j - 1);
        }
    } else {
        let f = front.subrange(1, front.len() as int);
        assert(pattern[0] == front[0]);
        assert(p =~= f + seq!['*'] + back);
        if front[0] == '*' && name_matches(f, start) {
            lemma_star_holds(f, back, name, i, j);
        } else {
            let short = if front[0] == '*' {
                front
            } else {
                f
            };
            assert(start.len() > 0);
            assert(start.subrange(1, start.len() as int) =~= n.subrange(0, i - 1));
            assert(n.subrange(j - 1, n.len() as int) =~= name.subrange(j, name.len() as int));
            lemma_star_holds(short, back, n, i - 1, j - 1);
        }
    }
}

/// A pattern without a double star matches the paths with as many components,
/// each of which matches its own part of the pattern.
pub proof fn law_pattern_goes_by_components(pattern: Seq<Seq<char>>, path: Seq<Seq<char>>)
    requires
        forall|i: int| 0 <= i < pattern.len() ==> #[trigger] pattern[i] != seq!['*', '*'],
    ensures
        path_matches(pattern, path) <==> {
            &&& pattern.len() == path.len()
            &&& forall|i: int|
                0 <= i < path.len() ==> name_matches(#[trigger] pattern[i], path[i])
        },
    decreases pattern.len(),
{
    reveal_strlit("**");
    assert("**"@ =~= seq!['*', '*']);
    if pattern.len() > 0 && path.len() > 0 {
        let p = pattern.subrange(1, pattern.len() as int);
        let n = path.subrange(1, path.len() as int);
        assert forall|i: int| 0 <= i < p.len() implies #[trigger] p[i] != seq!['*', '*'] by {
            assert(p[i] == pattern[i + 1]);
        }
        law_pattern_goes_by_components(p, n);
        if path_matches(pattern, path) {
            assert forall|i: int| 0 <= i < path.len() implies name_matches(
                #[trigger] pattern[i],
                path[i],
            ) by {
                if i > 0 {
                    assert(name_matches(p[i - 1], n[i - 1]));
                }
            }
        }
        if pattern.len() == path.len() && forall|i: int|
            0 <= i < path.len() ==> name_matches(#[trigger] pattern[i], path[i]) {
            assert forall|i: int| 0 <= i < n.len() implies name_matches(#[trigger] p[i], n[i]) by {
                assert(p[i] == pattern[i + 1]);
            }
        }
    }
}

/// Whether the path falls into a front part that one pattern matches, an end
/// that the other matches, and any components between them.
pub open spec fn path_falls_apart(
    front: Seq<Seq<char>>,
    back: Seq<Seq<char>>,
    path: Seq<Seq<char>>,
    i: int,
    j: int,
) -> bool {
    &&& 0 <= i <= j <= path.len()
    &&& path_matches(front, path.subrange(0, i))
    &&& path_matches(back, path.subrange(j, path.len() as int))
}

/// A double star stands for any number of components, none included.
pub proof fn law_double_star_matches_any_depth(
    front: Seq<Seq<char>>,
    back: Seq<Seq<char>>,
    path: Seq<Seq<char>>,
)
    ensures
        path_matches(front + seq![seq!['*', '*']] + back, path) <==> exists|i: int, j: int|
            path_falls_apart(front, back, path, i, j),
{
    reveal_strlit("**");
    assert("**"@ =~= seq!['*', '*']);
    if path_matches(front + seq!["**"@] + back, path) {
        lemma_double_star_found(front, back, path);
    }
    if exists|i: int, j: int| path_falls_apart(front, back, path, i, j) {
        let (i, j) = choose|i: int, j: int| path_falls_apart(front, back, path, i, j);
        lemma_double_star_holds(front, back, path, i, j);
    }
}

proof fn lemma_double_star_found(
    front: Seq<Seq<char>>,
    back: Seq<Seq<char>>,
    path: Seq<Seq<char>>,
)
    requires
        path_matches(front + seq!["**"@] + back, path),
    ensures
        exists|i: int, j: int| path_falls_apart(front, back, path, i, j),
    decreases front.len() + path.len(),
{
    let pattern = front + seq!["**"@] + back;
    let p = pattern.subrange(1, pattern.len() as int);
    let n = path.subrange(1, path.len() as int);
    if front.len() == 0 {
        assert(pattern[0] == "**"@);
        assert(p =~= back);
        if path_matches(back, path) {
            assert(path.subrange(0, path.len() as int) =~= path);
            assert(path_falls_apart(front, back, path, 0, 0));
        } else {
            lemma_double_star_found(front, back, n);
            let (i, j) = choose|i: int, j: int| path_falls_apart(front, back, n, i, j);
            assert(i == 0);
            assert(n.subrange(j, n.len() as int) =~= path.subrange(j + 1, path.len() as int));
            assert(path.subrange(0, 0) =~= n.subrange(0, 0));
            assert(path_falls_apart(front, back, path, 0, j + 1));
        }
    } else {
        let f = front.subrange(1, front.len() as int);
        assert(pattern[0] == front[0]);
        assert(p =~= f + seq!["**"@] + back);
        if front[0] == "**"@ && path_matches(p, path) {
            lemma_double_star_found(f, back, path);
            let (i, j) = choose|i: int, j: int| path_falls_apart(f, back, path, i, j);
            assert(path_falls_apart(front, back, path, i, j));
        } else {
            let short = if front[0] == "**"@ {
                front
            } else {
                f
            };
            lemma_double_star_found(short, back, n);
            let (i, j) = choose|i: int, j: int| path_falls_apart(short, back, n, i, j);
            let start = path.subrange(0, i + 1);
            assert(start.subrange(1, start.len() as int) =~= n.subrange(0, i));
            assert(n.subrange(j, n.len() as int) =~= path.subrange(j + 1, path.len() as int));
            assert(path_falls_apart(front, back, path, i + 1, j + 1));
        }
    }
}

proof fn lemma_double_star_holds(
    front: Seq<Seq<char>>,
    back: Seq<Seq<char>>,
    path: Seq<Seq<char>>,
    i: int,
    j: int,
)
    requires
        path_falls_apart(front, back, path, i, j),
    ensures
        path_matches(front + seq!["**"@] + back, path),
    decreases front.len() + path.len(),
{
    let pattern = front + seq!["**"@] + back;
    let p = pattern.subrange(1, pattern.len() as int);
    let n = path.subrange(1, path.len() as int);
    let start = path.subrange(0, i);
    if front.len() == 0 {
        assert(pattern[0] == "**"@);
        assert(p =~= back);
        assert(i == 0);
        if j == 0 {
            assert(path.subrange(0, path.len() as int) =~= path);
        } else {
            assert(n.subrange(j - 1, n.len() as int) =~= path.subrange(j, path.len() as int));
            assert(n.subrange(0, 0) =~= start);
            lemma_double_star_holds(front, back, n, 0, j - 1);
        }
    } else {
        let f = front.subrange(1, front.len() as int);
        assert(pattern[0] == front[0]);
        assert(p =~= f + seq!["**"@] + back);
        if front[0] == "**"@ && path_matches(f, start) {
            lemma_double_star_holds(f, back, path, i, j);
        } else {
            let short = if front[0] == "**"@ {
                front
            } else {
                f
            };
            assert(start.len() > 0);
            assert(start.subrange(1, start.len() as int) =~= n.subrange(0, i - 1));
            assert(n.subrange(j - 1, n.len() as int) =~= path.subrange(j, path.len() as int));
            lemma_double_star_holds(short, back, n, i - 1, j - 1);
        }
    }
}

// ---------------------------------------------------------------------------
// Line limits
// ---------------------------------------------------------------------------

/// Whether an override sets the limit of a path.
pub open spec fn sets_limit(o: (Seq<char>, Option<usize>), path: Seq<Seq<char>>) -> bool {
    o.1 is Some && path_matches(components(o.0), path)
}

/// The limit of a path is that of the last override that sets one for it,
/// wherever it stands among the others; without one it is that of the rules.
pub proof fn law_last_override_wins(file: RulesFileView, path: Seq<Seq<char>>, k: int)
    ensures
        0 <= k < file.overrides.len() && sets_limit(file.overrides[k], path) && (forall|m: int|
            k < m < file.overrides.len() ==> !sets_limit(#[trigger] file.overrides[m], path))
            ==> effective_limit(file, path) == file.overrides[k].1,
        (forall|m: int|
            0 <= m < file.overrides.len() ==> !sets_limit(#[trigger] file.overrides[m], path))
            ==> effective_limit(file, path) == file.rules.max_file_lines,
{
    let all = file.overrides;
    if 0 <= k < all.len() && sets_limit(all[k], path) && forall|m: int|
        k < m < all.len() ==> !sets_limit(#[trigger] all[m], path) {
        lemma_limit_found(all, all.len() as int, file.rules.max_file_lines, path, k);
    }
    if forall|m: int| 0 <= m < all.len() ==> !sets_limit(#[trigger] all[m], path) {
        lemma_limit_of_rules(all, all.len() as int, file.rules.max_file_lines, path);
    }
}

proof fn lemma_limit_found(
    all: Seq<(Seq<char>, Option<usize>)>,
    n: int,
    base: Option<usize>,
    path: Seq<Seq<char>>,
    k: int,
)
    requires
        0 <= k < n <= all.len(),
        sets_limit(all[k], path),
        forall|m: int| k < m < n ==> !sets_limit(#[trigger] all[m], path),
    ensures
        limit_after(all, n, base, path) == all[k].1,
    decreases n,
{
    if n - 1 > k {
        assert(!sets_limit(all[n - 1], path));
        lemma_limit_found(all, n - 1, base, path, k);
    }
}

proof fn lemma_limit_of_rules(
    all: Seq<(Seq<char>, Option<usize>)>,
    n: int,
    base: Option<usize>,
    path: Seq<Seq<char>>,
)
    requires
        0 <= n <= all.len(),
        forall|m: int| 0 <= m < n ==> !sets_limit(#[trigger] all[m], path),
    ensures
        limit_after(all, n, base, path) == base,
    decreases n,
{
    if n > 0 {
        assert(!sets_limit(all[n - 1], path));
        lemma_limit_of_rules(all, n - 1, base, path);
    }
}

// ---------------------------------------------------------------------------
// Reading
// ---------------------------------------------------------------------------

/// A document that is read has every one of its rules in the result, each as it
/// is written: the line limit, each of the forbidden imports in its place,
/// whether cycles are forbidden, the severity, and each override in its place.
/// What is not written is switched off.
pub proof fn law_every_rule_is_read(
    doc: Map<Seq<char>, JsonNode>,
    rules: Map<Seq<char>, JsonNode>,
)
    requires
        doc.contains_key("rules"@),
        doc["rules"@] == JsonNode::Object(rules),
        document_config(JsonNode::Object(doc)) is Ok,
    ensures
        ({
            let read = document_config(JsonNode::Object(doc))->Ok_0;
            &&& match read.rules.max_file_lines {
                Some(n) => rules.contains_key("max_file_lines"@) && rules["max_file_lines"@]
                    == JsonNode::Integer(n as int),
                None => !rules.contains_key("max_file_lines"@),
            }
            &&& read.rules.no_cycles <==> rules.contains_key("no_cycles"@) && rules["no_cycles"@]
                == JsonNode::Bool(true)
            &&& if rules.contains_key("forbidden_imports"@) {
                &&& rules["forbidden_imports"@] matches JsonNode::Array(a)
                &&& a.len() == read.rules.forbidden_imports.len()
                &&& forall|i: int|
                    0 <= i < a.len() ==> (#[trigger] a[i] matches JsonNode::Text(s) && arrow_pair(s)
                        == Ok::<(Seq<char>, Seq<char>), ArrowError>(
                        read.rules.forbidden_imports[i],
                    ))
            } else {
                read.rules.forbidden_imports.len() == 0
            }
            &&& if doc.contains_key("overrides"@) {
                &&& doc["overrides"@] matches JsonNode::Array(a)
                &&& a.len() == read.overrides.len()
                &&& forall|i: int|
                    0 <= i < a.len() ==> (#[trigger] a[i] matches JsonNode::Object(o)
                        && o.contains_key("path"@) && o["path"@] == JsonNode::Text(
                        read.overrides[i].0,
                    ) && match read.overrides[i].1 {
                        Some(n) => o.contains_key("max_file_lines"@) && o["max_file_lines"@]
                            == JsonNode::Integer(n as int),
                        None => !o.contains_key("max_file_lines"@),
                    })
            } else {
                read.overrides.len() == 0
            }
            &&& if rules.contains_key("default_severity"@) {
                rules["default_severity"@] matches JsonNode::Text(s) && is_severity(
                    s,
                    read.rules.default_severity,
                )
            } else if rules.contains_key("severity"@) {
                rules["severity"@] matches JsonNode::Text(s) && is_severity(
                    s,
                    read.rules.default_severity,
                )
            } else {
                read.rules.default_severity == Severity::Error
            }
        }),
{
    let read = document_config(JsonNode::Object(doc))->Ok_0;
    if rules.contains_key("forbidden_imports"@) {
        let a = rules["forbidden_imports"@]->Array_0;
        assert forall|i: int| 0 <= i < a.len() implies (#[trigger] a[i] matches JsonNode::Text(s)
            && arrow_pair(s) == Ok::<(Seq<char>, Seq<char>), ArrowError>(
            read.rules.forbidden_imports[i],
        )) by {
            assert(forbidden_element(a[i]) is Some);
        }
    }
    if doc.contains_key("overrides"@) {
        let a = doc["overrides"@]->Array_0;
        assert forall|i: int| 0 <= i < a.len() implies (#[trigger] a[i] matches JsonNode::Object(o)
            && o.contains_key("path"@) && o["path"@] == JsonNode::Text(read.overrides[i].0)
            && match read.overrides[i].1 {
            Some(n) => o.contains_key("max_file_lines"@) && o["max_file_lines"@]
                == JsonNode::Integer(n as int),
            None => !o.contains_key("max_file_lines"@),
        }) by {
            assert(override_element(a[i]) is Some);
        }
    }
}

/// Whether the text is the name of the severity.
pub open spec fn is_severity(s: Seq<char>, severity: Severity) -> bool {
    match severity {
        Severity::Error => s == "error"@,
        Severity::Warning => s == "warn"@ || s == "warning"@,
    }
}

/// Whether the entry for `key`, if there is one, is a line limit.
pub open spec fn is_limit_entry(m: Map<Seq<char>, JsonNode>, key: Seq<char>) -> bool {
    m.contains_key(key) ==> (m[key] matches JsonNode::Integer(n) && 0 <= n <= usize::MAX && n
        <= i64::MAX)
}

/// Whether the entry for `key`, if there is one, is the name of a severity.
pub open spec fn is_severity_entry(m: Map<Seq<char>, JsonNode>, key: Seq<char>) -> bool {
    m.contains_key(key) ==> (m[key] matches JsonNode::Text(s) && (s == "error"@ || s == "warn"@ || s
        == "warning"@))
}

/// A document is read exactly where each entry has its shape. A severity under
/// its short name counts only where the long one is missing, and entries of
/// other names do not matter.
pub proof fn law_which_documents_are_read(
    doc: Map<Seq<char>, JsonNode>,
    rules: Map<Seq<char>, JsonNode>,
)
    requires
        doc.contains_key("rules"@),
        doc["rules"@] == JsonNode::Object(rules),
    ensures
        document_config(JsonNode::Object(doc)) is Ok <==> {
            &&& is_limit_entry(rules, "max_file_lines"@)
            &&& rules.contains_key("no_cycles"@) ==> rules["no_cycles"@] is Bool
            &&& rules.contains_key("forbidden_imports"@) ==> {
                &&& rules["forbidden_imports"@] is Array
                &&& forall|i: int|
                    0 <= i < rules["forbidden_imports"@]->Array_0.len() ==> (
                    #[trigger] rules["forbidden_imports"@]->Array_0[i] matches JsonNode::Text(s)
                        && arrow_pair(s) is Ok)
            }
            &&& is_severity_entry(rules, "default_severity"@)
            &&& !rules.contains_key("default_severity"@) ==> is_severity_entry(rules, "severity"@)
            &&& doc.contains_key("overrides"@) ==> {
                &&& doc["overrides"@] is Array
                &&& forall|i: int|
                    0 <= i < doc["overrides"@]->Array_0.len() ==> (
                    #[trigger] doc["overrides"@]->Array_0[i] matches JsonNode::Object(o)
                        && o.contains_key("path"@) && o["path"@] is Text && is_limit_entry(
                        o,
                        "max_file_lines"@,
                    ))
            }
        },
{
    let forbidden = if rules.contains_key("forbidden_imports"@) {
        Some(rules["forbidden_imports"@])
    } else {
        None
    };
    if forbidden is Some && forbidden->0 is Array {
        let a = forbidden->0->Array_0;
        if forbidden_in(forbidden) is Ok {
            assert forall|i: int| 0 <= i < a.len() implies (#[trigger] a[i] matches JsonNode::Text(
                s,
            ) && arrow_pair(s) is Ok) by {
                assert(forbidden_element(a[i]) is Some);
            }
        }
        if forall|i: int|
            0 <= i < a.len() ==> (#[trigger] a[i] matches JsonNode::Text(s) && arrow_pair(
                s,
            ) is Ok) {
            assert forall|i: int| 0 <= i < a.len() implies (#[trigger] forbidden_element(
                a[i],
            )) is Some by {
                assert(a[i] is Text);
            }
            assert(forbidden_in(forbidden) is Ok);
        }
    }
    let overrides = if doc.contains_key("overrides"@) {
        Some(doc["overrides"@])
    } else {
        None
    };
    if overrides is Some && overrides->0 is Array {
        let a = overrides->0->Array_0;
        if overrides_in(overrides) is Ok {
            assert forall|i: int| 0 <= i < a.len() implies (
            #[trigger] a[i] matches JsonNode::Object(o) && o.contains_key("path"@)
                && o["path"@] is Text && is_limit_entry(o, "max_file_lines"@)) by {
                assert(override_element(a[i]) is Some);
            }
        }
        if forall|i: int|
            0 <= i < a.len() ==> (#[trigger] a[i] matches JsonNode::Object(o) && o.contains_key(
                "path"@,
            ) && o["path"@] is Text && is_limit_entry(o, "max_file_lines"@)) {
            assert forall|i: int| 0 <= i < a.len() implies (#[trigger] override_element(
                a[i],
            )) is Some by {
                assert(a[i] is Object);
            }
            assert(overrides_in(overrides) is Ok);
        }
    }
}

/// Rules that are written as an array are read by their places: the line limit,
/// then the forbidden imports, then whether cycles are forbidden. The last two may
/// be left out, and further elements do not matter.
pub proof fn law_rules_are_read_by_their_places(
    doc: Map<Seq<char>, JsonNode>,
    rules: Seq<JsonNode>,
)
    requires
        doc.contains_key("rules"@),
        doc["rules"@] == JsonNode::Array(rules),
        document_config(JsonNode::Object(doc)) is Ok,
    ensures
        ({
            let read = document_config(JsonNode::Object(doc))->Ok_0.rules;
            &&& rules.len() > 0
            &&& read.max_file_lines matches Some(n) && rules[0] == JsonNode::Integer(n as int)
            &&& if rules.len() > 1 {
                &&& rules[1] matches JsonNode::Array(a)
                &&& a.len() == read.forbidden_imports.len()
                &&& forall|i: int|
                    0 <= i < a.len() ==> (#[trigger] a[i] matches JsonNode::Text(s) && arrow_pair(s)
                        == Ok::<(Seq<char>, Seq<char>), ArrowError>(read.forbidden_imports[i]))
            } else {
                read.forbidden_imports.len() == 0
            }
            &&& if rules.len() > 2 {
                rules[2] == JsonNode::Bool(read.no_cycles)
            } else {
                !read.no_cycles
            }
            &&& read.default_severity == Severity::Error
        }),
{
    let read = document_config(JsonNode::Object(doc))->Ok_0.rules;
    if rules.len() > 1 {
        let a = rules[1]->Array_0;
        assert forall|i: int| 0 <= i < a.len() implies (#[trigger] a[i] matches JsonNode::Text(s)
            && arrow_pair(s) == Ok::<(Seq<char>, Seq<char>), ArrowError>(
            read.forbidden_imports[i],
        )) by {
            assert(forbidden_element(a[i]) is Some);
        }
    }
}

/// A document without rules switches every rule off.
pub proof fn law_no_rules_switch_all_off(doc: Map<Seq<char>, JsonNode>)
    requires
        !doc.contains_key("rules"@),
        !doc.contains_key("overrides"@),
    ensures
        document_config(JsonNode::Object(doc)) matches Ok(read) && read.rules.max_file_lines is None
            && read.rules.forbidden_imports.len() == 0 && !read.rules.no_cycles
            && read.rules.default_severity == Severity::Error && read.overrides.len() == 0,
{
}

} // verus!
