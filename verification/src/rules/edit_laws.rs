//! What is read back of an edited rules file.
use vstd::prelude::*;

use super::config::{
    arrow_pair, cycles_in, document_config, document_rules, empty_rules, forbidden_element,
    forbidden_in, is_text_read, limit_in, override_element, overrides_in, rules_in, severity_in,
    severity_named, text_config, ArrowError, ConfigError, RulesFileView, RulesView,
};
use super::edit::{
    added, addition_is_owed, arrow_text, document, forbidden_array, has_rule, is_rule,
    is_text_added, is_text_removed, law_add_then_remove, law_outcome_tells_of_change,
    lemma_without_rule, normal_arrow, removal_is_owed, removed, rules_added, rules_removed,
    rules_table, trimmed_parts, without_rule, AdditionView, EditError, RemovalOutcome,
    RemovalView,
};
use super::toml_doc::{
    alike, date_key, dates_stand_alone, entry, lemma_table_quotes, no_entries, node_quotes_fit,
    reads_as, toml_parsed, toml_plain, toml_quotes_fit, toml_read, toml_writable, TomlNode,
};
use crate::json::{member, no_members, text_of, JsonNode};
use crate::text::{
    first_match, has_text, is_space, joined, lemma_first_match, matches_at, split, split_from,
    trimmed, trimmed_end, trimmed_start, CharClass,
};

verus! {

/// Whether a text can stand on a side of an arrow rule as it is: there is no
/// white space around it and no arrow in it.
pub open spec fn is_side(s: Seq<char>) -> bool {
    s.len() > 0 && trimmed(s) == s && !has_text(s, "->"@)
}

// ---------------------------------------------------------------------------
// Trimming
// ---------------------------------------------------------------------------

proof fn lemma_trimmed_start(s: Seq<char>, class: CharClass) -> (a: int)
    ensures
        0 <= a <= s.len(),
        trimmed_start(s, class) == s.subrange(a, s.len() as int),
        a == 0 <==> s.len() == 0 || !class.has(s[0]),
    decreases s.len(),
{
    if s.len() > 0 && class.has(s[0]) {
        let rest = s.subrange(1, s.len() as int);
        let a = lemma_trimmed_start(rest, class);
        assert(rest.subrange(a, rest.len() as int) =~= s.subrange(a + 1, s.len() as int));
        a + 1
    } else {
        assert(s.subrange(0, s.len() as int) =~= s);
        0
    }
}

proof fn lemma_trimmed_end(s: Seq<char>, class: CharClass) -> (b: int)
    ensures
        0 <= b <= s.len(),
        trimmed_end(s, class) == s.subrange(0, b),
        b == s.len() <==> s.len() == 0 || !class.has(s[s.len() - 1]),
    decreases s.len(),
{
    if s.len() > 0 && class.has(s[s.len() - 1]) {
        let rest = s.subrange(0, s.len() - 1);
        let b = lemma_trimmed_end(rest, class);
        assert(rest.subrange(0, b) =~= s.subrange(0, b));
        b
    } else {
        assert(s.subrange(0, s.len() as int) =~= s);
        s.len() as int
    }
}

proof fn lemma_trimmed_range(s: Seq<char>) -> (r: (int, int))
    ensures
        0 <= r.0 <= r.1 <= s.len(),
        trimmed(s) == s.subrange(r.0, r.1),
{
    let a = lemma_trimmed_start(s, CharClass::Space);
    let start = trimmed_start(s, CharClass::Space);
    let b = lemma_trimmed_end(start, CharClass::Space);
    assert(start.subrange(0, b) =~= s.subrange(a, a + b));
    (a, a + b)
}

proof fn lemma_side_ends(s: Seq<char>)
    requires
        s.len() > 0,
        trimmed(s) == s,
    ensures
        !is_space(s[0]),
        !is_space(s[s.len() - 1]),
{
    let a = lemma_trimmed_start(s, CharClass::Space);
    let start = trimmed_start(s, CharClass::Space);
    let b = lemma_trimmed_end(start, CharClass::Space);
    assert(s.len() == b);
    assert(a == 0);
    assert(start =~= s);
}

proof fn lemma_blank_after(s: Seq<char>)
    requires
        s.len() > 0,
        trimmed(s) == s,
    ensures
        trimmed(s.push(' ')) == s,
{
    lemma_side_ends(s);
    let t = s.push(' ');
    assert(trimmed_start(t, CharClass::Space) == t);
    assert(t.subrange(0, t.len() - 1) =~= s);
}

proof fn lemma_blank_before(s: Seq<char>)
    requires
        s.len() > 0,
        trimmed(s) == s,
    ensures
        trimmed(seq![' '] + s) == s,
{
    lemma_side_ends(s);
    let t = seq![' '] + s;
    assert(t.subrange(1, t.len() as int) =~= s);
    assert(trimmed_start(s, CharClass::Space) == s);
    assert(trimmed_start(t, CharClass::Space) == s);
}

// ---------------------------------------------------------------------------
// Splitting
// ---------------------------------------------------------------------------

proof fn lemma_split_from(s: Seq<char>, sep: Seq<char>, start: int, at: int)
    requires
        sep.len() > 0,
        0 <= start <= at,
    ensures
        split_from(s, sep, start, at) == (match first_match(s, sep, at) {
            Some(i) => seq![s.subrange(start, i)] + split_from(
                s,
                sep,
                i + sep.len(),
                i + sep.len(),
            ),
            None => seq![s.subrange(start, s.len() as int)],
        }),
        split_from(s, sep, start, at).len() > 0,
    decreases s.len() - at + 1,
{
    if at + sep.len() <= s.len() && !matches_at(s, sep, at) {
        lemma_split_from(s, sep, start, at + 1);
    }
}

/// The two characters of an arrow at a position.
proof fn lemma_arrow_at(s: Seq<char>, i: int)
    ensures
        matches_at(s, "->"@, i) <==> 0 <= i && i + 2 <= s.len() && s[i] == '-' && s[i + 1] == '>',
{
    reveal_strlit("->");
    if 0 <= i && i + 2 <= s.len() {
        assert(s.subrange(i, i + 2)[0] == s[i]);
        assert(s.subrange(i, i + 2)[1] == s[i + 1]);
        if s[i] == '-' && s[i + 1] == '>' {
            assert(s.subrange(i, i + 2) =~= "->"@);
        }
    }
}

/// A text with an arrow behind a text without one: its first arrow is that one.
proof fn lemma_first_arrow(front: Seq<char>, rest: Seq<char>)
    requires
        !has_text(front, "->"@),
    ensures
        first_match(front + " -> "@ + rest, "->"@, 0) == Some(front.len() as int + 1),
{
    reveal_strlit(" -> ");
    let s = front + " -> "@ + rest;
    let p = front.len() as int + 1;
    assert(s[p - 1] == ' ' && s[p] == '-' && s[p + 1] == '>');
    lemma_arrow_at(s, p);
    lemma_first_match(s, "->"@, 0);
    let i = first_match(s, "->"@, 0)->0;
    if i < p {
        lemma_arrow_at(s, i);
        lemma_arrow_at(front, i);
        if i + 2 <= front.len() {
            assert(front[i] == s[i] && front[i + 1] == s[i + 1]);
            assert(matches_at(front, "->"@, i));
        }
    }
}

/// A part of a text without arrows has none.
proof fn lemma_part_without_arrow(s: Seq<char>, a: int, b: int)
    requires
        0 <= a <= b <= s.len(),
        forall|k: int| a <= k && k + 2 <= b ==> !#[trigger] matches_at(s, "->"@, k),
    ensures
        !has_text(s.subrange(a, b), "->"@),
{
    let t = s.subrange(a, b);
    if has_text(t, "->"@) {
        let i = choose|i: int| matches_at(t, "->"@, i);
        lemma_arrow_at(t, i);
        lemma_arrow_at(s, a + i);
        assert(t[i] == s[a + i] && t[i + 1] == s[a + i + 1]);
        assert(matches_at(s, "->"@, a + i));
    }
}

proof fn lemma_trimmed_without_arrow(s: Seq<char>)
    requires
        !has_text(s, "->"@),
    ensures
        !has_text(trimmed(s), "->"@),
{
    let r = lemma_trimmed_range(s);
    lemma_part_without_arrow(s, r.0, r.1);
}

/// Joining from the front.
proof fn lemma_joined_front(parts: Seq<Seq<char>>, sep: Seq<char>)
    requires
        parts.len() > 1,
    ensures
        joined(parts, sep) == parts[0] + sep + joined(
            parts.subrange(1, parts.len() as int),
            sep,
        ),
    decreases parts.len(),
{
    let front = parts.subrange(0, parts.len() - 1);
    let rest = parts.subrange(1, parts.len() as int);
    if parts.len() == 2 {
        assert(front.len() == 1 && rest.len() == 1);
        assert(joined(front, sep) == parts[0]);
        assert(joined(rest, sep) == parts[1]);
    } else {
        lemma_joined_front(front, sep);
        assert(front.subrange(1, front.len() as int) =~= rest.subrange(0, rest.len() - 1));
        assert(rest[rest.len() - 1] == parts[parts.len() - 1]);
        assert(joined(parts, sep) =~= parts[0] + sep + joined(rest, sep));
    }
}

/// The text of an arrow rule with proper sides is in its normal form.
proof fn lemma_normal_form(from: Seq<char>, to: Seq<char>)
    requires
        is_side(from),
        is_side(to),
    ensures
        normal_arrow(arrow_text(from, to)) == arrow_text(from, to),
{
    reveal_strlit("->");
    reveal_strlit(" -> ");
    let rule = arrow_text(from, to);
    let p = from.len() as int + 1;
    lemma_first_arrow(from, to);
    lemma_split_from(rule, "->"@, 0, 0);
    lemma_split_from(rule, "->"@, p + 2, p + 2);
    lemma_first_match(rule, "->"@, p + 2);
    match first_match(rule, "->"@, p + 2) {
        Some(i) => {
            lemma_arrow_at(rule, i);
            assert(rule[p + 2] == ' ');
            let k = i - (p + 3);
            lemma_arrow_at(to, k);
            assert(to[k] == rule[i] && to[k + 1] == rule[i + 1]);
            assert(matches_at(to, "->"@, k));
        },
        None => {},
    }
    let parts = split(rule, "->"@);
    assert(rule.subrange(0, p) =~= from.push(' '));
    assert(rule.subrange(p + 2, rule.len() as int) =~= seq![' '] + to);
    assert(parts =~= seq![from.push(' '), seq![' '] + to]);
    lemma_blank_after(from);
    lemma_blank_before(to);
    let t = trimmed_parts(parts);
    assert(t =~= seq![from, to]);
    assert(t.subrange(0, 1) =~= seq![from]);
    assert(joined(seq![from], " -> "@) == from);
}

/// An element that writes down the same rule as `from -> to`, with whatever
/// white space, reads as that rule.
pub proof fn law_same_rule_reads_the_same(s: Seq<char>, from: Seq<char>, to: Seq<char>)
    requires
        is_side(from),
        is_side(to),
        is_rule(TomlNode::Text(s), arrow_text(from, to)),
    ensures
        arrow_pair(s) == Ok::<_, ArrowError>((from, to)),
{
    reveal_strlit("->");
    reveal_strlit(" -> ");
    lemma_normal_form(from, to);
    lemma_first_arrow(from, to);
    let rule = arrow_text(from, to);
    let parts = split(s, "->"@);
    let t = trimmed_parts(parts);
    assert(joined(t, " -> "@) == rule);
    lemma_split_from(s, "->"@, 0, 0);
    lemma_first_match(s, "->"@, 0);
    match first_match(s, "->"@, 0) {
        None => {
            lemma_part_without_arrow(s, 0, s.len() as int);
            lemma_trimmed_without_arrow(parts[0]);
            assert(t[0] == rule);
            lemma_first_match(rule, "->"@, 0);
            assert(has_text(rule, "->"@));
        },
        Some(i) => {
            lemma_part_without_arrow(s, 0, i);
            lemma_trimmed_without_arrow(s.subrange(0, i));
            let rest = split_from(s, "->"@, i + 2, i + 2);
            lemma_split_from(s, "->"@, i + 2, i + 2);
            assert(parts == seq![s.subrange(0, i)] + rest);
            assert(parts[0] == s.subrange(0, i));
            let others = t.subrange(1, t.len() as int);
            lemma_joined_front(t, " -> "@);
            lemma_first_arrow(t[0], joined(others, " -> "@));
            assert(t[0].len() == from.len());
            assert(t[0] =~= from) by {
                assert forall|k: int| 0 <= k < from.len() implies t[0][k] == from[k] by {
                    assert(rule[k] == from[k]);
                    assert((t[0] + " -> "@ + joined(others, " -> "@))[k] == t[0][k]);
                }
            }
            assert(joined(others, " -> "@) =~= to) by {
                let j = joined(others, " -> "@);
                assert((t[0] + " -> "@ + j).len() == rule.len());
                assert forall|k: int| 0 <= k < to.len() implies j[k] == to[k] by {
                    assert(rule[from.len() + 4 + k] == to[k]);
                    assert((t[0] + " -> "@ + j)[t[0].len() + 4 + k] == j[k]);
                }
            }
            if others.len() > 1 {
                lemma_joined_front(others, " -> "@);
                let a = others[0];
                let b = joined(others.subrange(1, others.len() as int), " -> "@);
                lemma_arrow_at(to, a.len() as int + 1);
                assert((a + " -> "@ + b)[a.len() as int + 1] == '-');
                assert((a + " -> "@ + b)[a.len() as int + 2] == '>');
                assert(matches_at(to, "->"@, a.len() as int + 1));
            }
            assert(rest.len() == 1);
            match first_match(s, "->"@, i + 2) {
                Some(j) => {
                    lemma_first_match(s, "->"@, i + 2);
                    lemma_split_from(s, "->"@, j + 2, j + 2);
                },
                None => {},
            }
            assert(others[0] == trimmed(rest[0]));
            assert(rest[0] == s.subrange(i + 2, s.len() as int));
        },
    }
}

// ---------------------------------------------------------------------------
// What an edit does to the rules
// ---------------------------------------------------------------------------

/// The rules after an addition. An import that is forbidden already is not
/// forbidden again.
pub open spec fn rules_after(rules: RulesView, addition: AdditionView) -> RulesView {
    match addition {
        AdditionView::MaxFileLines(n) => RulesView { max_file_lines: Some(n as usize), ..rules },
        AdditionView::NoCycles(b) => RulesView { no_cycles: b, ..rules },
        AdditionView::ForbiddenImport { from, to } => if rules.forbidden_imports.contains(
            (from, to),
        ) {
            rules
        } else {
            RulesView { forbidden_imports: rules.forbidden_imports.push((from, to)), ..rules }
        },
    }
}

/// Whether an addition can be read back: a limit fits the machine, and the sides
/// of a forbidden import are proper.
pub open spec fn is_readable(addition: AdditionView) -> bool {
    match addition {
        AdditionView::MaxFileLines(n) => n <= usize::MAX,
        AdditionView::NoCycles(_) => true,
        AdditionView::ForbiddenImport { from, to } => is_side(from) && is_side(to),
    }
}

proof fn lemma_keys_differ()
    ensures
        "max_file_lines"@ != "no_cycles"@,
        "max_file_lines"@ != "forbidden_imports"@,
        "max_file_lines"@ != "default_severity"@,
        "max_file_lines"@ != "severity"@,
        "no_cycles"@ != "forbidden_imports"@,
        "no_cycles"@ != "default_severity"@,
        "no_cycles"@ != "severity"@,
        "forbidden_imports"@ != "default_severity"@,
        "forbidden_imports"@ != "severity"@,
        "rules"@ != "overrides"@,
        "path"@ != date_key(),
{
    reveal_strlit("max_file_lines");
    reveal_strlit("no_cycles");
    reveal_strlit("forbidden_imports");
    reveal_strlit("default_severity");
    reveal_strlit("severity");
    reveal_strlit("rules");
    reveal_strlit("overrides");
    reveal_strlit("path");
    reveal_strlit("$__toml_private_datetime");
    assert("path"@[0] == 'p' && date_key()[0] == '$');
    assert("max_file_lines"@[0] == 'm' && "no_cycles"@[0] == 'n' && "forbidden_imports"@[0] == 'f'
        && "default_severity"@[0] == 'd' && "severity"@[0] == 's' && "rules"@[0] == 'r'
        && "overrides"@[0] == 'o');
}

/// Whether what is read for a key is what the document holds there.
spec fn entry_reads_as(node: Option<TomlNode>, json: Option<JsonNode>) -> bool {
    match node {
        Some(node) => json matches Some(json) && reads_as(node, json),
        None => json is None,
    }
}

proof fn lemma_entry_reads(t: Map<Seq<char>, TomlNode>, json: JsonNode, key: Seq<char>)
    requires
        reads_as(TomlNode::Table(t), json),
    ensures
        json is Object,
        entry_reads_as(entry(t, key), member(json, key)),
{
    let node = TomlNode::Table(t);
    let m = json->Object_0;
    assert(node->Table_0.dom() == m.dom());
    if t.contains_key(key) {
        assert(node->Table_0.contains_key(key));
    }
    assert(t.dom().contains(key) == m.dom().contains(key));
}

/// Two values that are read of the same node are the same, as far as rules are
/// read from them.
proof fn lemma_reads_alike(node: TomlNode, a: JsonNode, b: JsonNode)
    requires
        reads_as(node, a),
        reads_as(node, b),
    ensures
        limit_in(Some(a)) == limit_in(Some(b)),
        cycles_in(Some(a)) == cycles_in(Some(b)),
        severity_named(a) == severity_named(b),
        forbidden_element(a) == forbidden_element(b),
        text_of(Some(a)) == text_of(Some(b)),
{
}

proof fn lemma_forbidden_alike(node: TomlNode, a: JsonNode, b: JsonNode)
    requires
        reads_as(node, a),
        reads_as(node, b),
    ensures
        forbidden_in(Some(a)) == forbidden_in(Some(b)),
{
    if node is Array {
        let x = a->Array_0;
        let y = b->Array_0;
        assert forall|i: int| 0 <= i < x.len() implies forbidden_element(x[i])
            == forbidden_element(y[i]) by {
            lemma_reads_alike(node->Array_0[i], x[i], y[i]);
        }
        assert(forbidden_in(Some(a)) is Ok ==> forbidden_in(Some(b)) is Ok) by {
            if forbidden_in(Some(a)) is Ok {
                assert forall|i: int| 0 <= i < y.len() implies (#[trigger] forbidden_element(
                    y[i],
                )) is Some by {
                    assert(forbidden_element(x[i]) is Some);
                }
            }
        }
        assert(forbidden_in(Some(b)) is Ok ==> forbidden_in(Some(a)) is Ok) by {
            if forbidden_in(Some(b)) is Ok {
                assert forall|i: int| 0 <= i < x.len() implies (#[trigger] forbidden_element(
                    x[i],
                )) is Some by {
                    assert(forbidden_element(y[i]) is Some);
                }
            }
        }
        if forbidden_in(Some(a)) is Ok {
            assert(forbidden_in(Some(a))->Ok_0 =~= forbidden_in(Some(b))->Ok_0);
        }
    }
}

proof fn lemma_override_alike(node: TomlNode, a: JsonNode, b: JsonNode)
    requires
        reads_as(node, a),
        reads_as(node, b),
    ensures
        override_element(a) == override_element(b),
{
    lemma_keys_differ();
    match node {
        TomlNode::Table(t) => {
            lemma_entry_reads(t, a, "path"@);
            lemma_entry_reads(t, b, "path"@);
            lemma_entry_reads(t, a, "max_file_lines"@);
            lemma_entry_reads(t, b, "max_file_lines"@);
            if t.contains_key("path"@) {
                lemma_reads_alike(t["path"@], member(a, "path"@)->0, member(b, "path"@)->0);
            }
            if t.contains_key("max_file_lines"@) {
                lemma_reads_alike(
                    t["max_file_lines"@],
                    member(a, "max_file_lines"@)->0,
                    member(b, "max_file_lines"@)->0,
                );
            }
        },
        TomlNode::Date(_) => {
            assert(!a->Object_0.dom().contains("path"@));
            assert(!b->Object_0.dom().contains("path"@));
        },
        _ => {},
    }
}

proof fn lemma_overrides_alike(node: TomlNode, a: JsonNode, b: JsonNode)
    requires
        reads_as(node, a),
        reads_as(node, b),
    ensures
        overrides_in(Some(a)) == overrides_in(Some(b)),
{
    if node is Array {
        let x = a->Array_0;
        let y = b->Array_0;
        assert forall|i: int| 0 <= i < x.len() implies override_element(x[i]) == override_element(
            y[i],
        ) by {
            lemma_override_alike(node->Array_0[i], x[i], y[i]);
        }
        assert(overrides_in(Some(a)) is Ok ==> overrides_in(Some(b)) is Ok) by {
            if overrides_in(Some(a)) is Ok {
                assert forall|i: int| 0 <= i < y.len() implies (#[trigger] override_element(
                    y[i],
                )) is Some by {
                    assert(override_element(x[i]) is Some);
                }
            }
        }
        assert(overrides_in(Some(b)) is Ok ==> overrides_in(Some(a)) is Ok) by {
            if overrides_in(Some(b)) is Ok {
                assert forall|i: int| 0 <= i < x.len() implies (#[trigger] override_element(
                    x[i],
                )) is Some by {
                    assert(override_element(y[i]) is Some);
                }
            }
        }
        if overrides_in(Some(a)) is Ok {
            assert(overrides_in(Some(a))->Ok_0 =~= overrides_in(Some(b))->Ok_0);
        }
    }
}

/// What is read for the same entry is the same.
proof fn lemma_entries_alike(node: Option<TomlNode>, a: Option<JsonNode>, b: Option<JsonNode>)
    requires
        entry_reads_as(node, a),
        entry_reads_as(node, b),
    ensures
        limit_in(a) == limit_in(b),
        cycles_in(a) == cycles_in(b),
        forbidden_in(a) == forbidden_in(b),
        overrides_in(a) == overrides_in(b),
        a is Some <==> b is Some,
        a is Some ==> severity_named(a->0) == severity_named(b->0),
{
    if node is Some {
        lemma_reads_alike(node->0, a->0, b->0);
        lemma_forbidden_alike(node->0, a->0, b->0);
        lemma_overrides_alike(node->0, a->0, b->0);
    }
}

/// The severity is read from two keys.
proof fn lemma_severity_alike(
    s: Map<Seq<char>, TomlNode>,
    t: Map<Seq<char>, TomlNode>,
    a: JsonNode,
    b: JsonNode,
)
    requires
        reads_as(TomlNode::Table(s), a),
        reads_as(TomlNode::Table(t), b),
        entry(s, "default_severity"@) == entry(t, "default_severity"@),
        entry(s, "severity"@) == entry(t, "severity"@),
    ensures
        severity_in(a) == severity_in(b),
{
    lemma_entry_reads(s, a, "default_severity"@);
    lemma_entry_reads(t, b, "default_severity"@);
    lemma_entry_reads(s, a, "severity"@);
    lemma_entry_reads(t, b, "severity"@);
    lemma_entries_alike(
        entry(s, "default_severity"@),
        member(a, "default_severity"@),
        member(b, "default_severity"@),
    );
    lemma_entries_alike(entry(s, "severity"@), member(a, "severity"@), member(b, "severity"@));
}

/// What is read for the table of rules of a document that has one or none.
proof fn lemma_rules_read(doc: Map<Seq<char>, TomlNode>, json: JsonNode) -> (rules: JsonNode)
    requires
        reads_as(TomlNode::Table(doc), json),
        rules_table(doc) is Ok,
    ensures
        reads_as(TomlNode::Table(rules_table(doc)->Ok_0), rules),
        document_rules(json) == rules_in(rules),
{
    lemma_entry_reads(doc, json, "rules"@);
    match entry(doc, "rules"@) {
        Some(_) => member(json, "rules"@)->0,
        None => {
            let rules = JsonNode::Object(no_members());
            let node = TomlNode::Table(no_entries());
            assert(node->Table_0.dom() =~= rules->Object_0.dom());
            assert(reads_as(node, rules));
            assert(forbidden_in(member(rules, "forbidden_imports"@))->Ok_0 =~= Seq::empty());
            assert(rules_in(rules) == Ok::<_, ConfigError>(empty_rules()));
            rules
        },
    }
}

/// What is read for the overrides of two documents that have the same.
proof fn lemma_overrides_kept(
    doc: Map<Seq<char>, TomlNode>,
    done: Map<Seq<char>, TomlNode>,
    before: JsonNode,
    after: JsonNode,
)
    requires
        reads_as(TomlNode::Table(doc), before),
        reads_as(TomlNode::Table(done), after),
        entry(doc, "overrides"@) == entry(done, "overrides"@),
    ensures
        overrides_in(member(before, "overrides"@)) == overrides_in(member(after, "overrides"@)),
{
    lemma_entry_reads(doc, before, "overrides"@);
    lemma_entry_reads(done, after, "overrides"@);
    lemma_entries_alike(
        entry(doc, "overrides"@),
        member(before, "overrides"@),
        member(after, "overrides"@),
    );
}

/// What was added is enforced: the rules that are read of the edited document
/// are the rules before, with the added one set. A forbidden import that was
/// there already changes nothing, and is among them.
pub proof fn law_added_rule_is_read_back(
    doc: Map<Seq<char>, TomlNode>,
    addition: AdditionView,
    before: JsonNode,
    after: JsonNode,
)
    requires
        added(doc, addition) is Ok,
        reads_as(TomlNode::Table(doc), before),
        reads_as(TomlNode::Table(added(doc, addition)->Ok_0), after),
        document_config(before) is Ok,
        is_readable(addition),
    ensures
        document_config(after) == Ok::<_, ConfigError>(
            RulesFileView {
                rules: rules_after(document_config(before)->Ok_0.rules, addition),
                overrides: document_config(before)->Ok_0.overrides,
            },
        ),
        addition matches AdditionView::ForbiddenImport { from, to } ==> document_config(
            after,
        )->Ok_0.rules.forbidden_imports.contains((from, to)),
{
    lemma_keys_differ();
    let old_table = rules_table(doc)->Ok_0;
    let table = rules_added(old_table, addition)->Ok_0;
    let done = added(doc, addition)->Ok_0;
    assert(entry(done, "rules"@) == Some(TomlNode::Table(table)));
    assert(rules_table(done) == Ok::<_, EditError>(table));
    assert(entry(done, "overrides"@) == entry(doc, "overrides"@));
    lemma_overrides_kept(doc, done, before, after);
    let old_rules = lemma_rules_read(doc, before);
    let rules = lemma_rules_read(done, after);
    lemma_severity_alike(old_table, table, old_rules, rules);
    lemma_entry_reads(old_table, old_rules, "max_file_lines"@);
    lemma_entry_reads(old_table, old_rules, "no_cycles"@);
    lemma_entry_reads(old_table, old_rules, "forbidden_imports"@);
    lemma_entry_reads(table, rules, "max_file_lines"@);
    lemma_entry_reads(table, rules, "no_cycles"@);
    lemma_entry_reads(table, rules, "forbidden_imports"@);
    if !(addition is MaxFileLines) {
        lemma_entries_alike(
            entry(table, "max_file_lines"@),
            member(old_rules, "max_file_lines"@),
            member(rules, "max_file_lines"@),
        );
    }
    if !(addition is NoCycles) {
        lemma_entries_alike(
            entry(table, "no_cycles"@),
            member(old_rules, "no_cycles"@),
            member(rules, "no_cycles"@),
        );
    }
    match addition {
        AdditionView::ForbiddenImport { from, to } => {
            lemma_added_forbidden(
                old_table,
                from,
                to,
                member(old_rules, "forbidden_imports"@),
                member(rules, "forbidden_imports"@),
            );
        },
        _ => {
            lemma_entries_alike(
                entry(table, "forbidden_imports"@),
                member(old_rules, "forbidden_imports"@),
                member(rules, "forbidden_imports"@),
            );
        },
    }
}

proof fn lemma_added_forbidden(
    table: Map<Seq<char>, TomlNode>,
    from: Seq<char>,
    to: Seq<char>,
    old_json: Option<JsonNode>,
    json: Option<JsonNode>,
)
    requires
        is_side(from),
        is_side(to),
        rules_added(table, AdditionView::ForbiddenImport { from, to }) is Ok,
        entry_reads_as(entry(table, "forbidden_imports"@), old_json),
        entry_reads_as(
            entry(
                rules_added(table, AdditionView::ForbiddenImport { from, to })->Ok_0,
                "forbidden_imports"@,
            ),
            json,
        ),
        forbidden_in(old_json) is Ok,
    ensures
        ({
            let before = forbidden_in(old_json)->Ok_0;
            &&& forbidden_in(json) == Ok::<_, ConfigError>(if before.contains((from, to)) {
                before
            } else {
                before.push((from, to))
            })
            &&& forbidden_in(json)->Ok_0.contains((from, to))
        }),
{
    let rule = arrow_text(from, to);
    let a = forbidden_array(table)->Ok_0;
    let before = forbidden_in(old_json)->Ok_0;
    let done = entry(
        rules_added(table, AdditionView::ForbiddenImport { from, to })->Ok_0,
        "forbidden_imports"@,
    )->0;
    let b = done->Array_0;
    let x = json->0->Array_0;
    assert forall|i: int| 0 <= i < a.len() implies #[trigger] a[i] is Text && forbidden_element(
        JsonNode::Text(a[i]->Text_0),
    ) == Some(before[i]) by {
        let old = entry(table, "forbidden_imports"@)->0;
        let y = old_json->0->Array_0;
        assert(reads_as(old->Array_0[i], y[i]));
        assert(forbidden_element(y[i]) is Some);
    }
    assert(before.len() == a.len());
    assert forall|i: int| 0 <= i < b.len() implies #[trigger] x[i] == JsonNode::Text(
        b[i]->Text_0,
    ) by {
        assert(reads_as(done->Array_0[i], x[i]));
        if i < a.len() {
            assert(b[i] == a[i]);
            assert(a[i] is Text);
        }
    }
    if has_rule(a, rule) {
        let i = choose|i: int| 0 <= i < a.len() && is_rule(#[trigger] a[i], rule);
        law_same_rule_reads_the_same(a[i]->Text_0, from, to);
        assert(before[i] == (from, to));
        assert forall|i: int| 0 <= i < x.len() implies (#[trigger] forbidden_element(x[i]))
            == Some(before[i]) by {
            assert(b[i] == a[i]);
            assert(a[i] is Text);
            assert(x[i] == JsonNode::Text(b[i]->Text_0));
        }
        assert(forbidden_in(json)->Ok_0 =~= before);
    } else {
        assert(!before.contains((from, to))) by {
            if before.contains((from, to)) {
                let i = choose|i: int| 0 <= i < before.len() && before[i] == (from, to);
                assert(a[i] is Text);
                lemma_reading_is_writing(a[i]->Text_0, from, to);
                assert(is_rule(a[i], rule));
            }
        }
        assert(is_rule(TomlNode::Text(rule), rule));
        law_same_rule_reads_the_same(rule, from, to);
        assert forall|i: int| 0 <= i < x.len() implies (#[trigger] forbidden_element(x[i]))
            == Some(before.push((from, to))[i]) by {
            assert(x[i] == JsonNode::Text(b[i]->Text_0));
            if i < a.len() {
                assert(b[i] == a[i]);
                assert(a[i] is Text);
            }
        }
        assert(forbidden_in(json)->Ok_0 =~= before.push((from, to)));
        assert(before.push((from, to))[before.len() as int] == (from, to));
    }
}

/// A text that reads as a rule with proper sides writes down that rule.
proof fn lemma_reading_is_writing(s: Seq<char>, from: Seq<char>, to: Seq<char>)
    requires
        is_side(from),
        is_side(to),
        arrow_pair(s) == Ok::<_, ArrowError>((from, to)),
    ensures
        is_rule(TomlNode::Text(s), arrow_text(from, to)),
{
    reveal_strlit("->");
    reveal_strlit(" -> ");
    lemma_normal_form(from, to);
    lemma_split_from(s, "->"@, 0, 0);
    lemma_first_match(s, "->"@, 0);
    let i = first_match(s, "->"@, 0)->0;
    let front = s.subrange(0, i);
    let back = s.subrange(i + 2, s.len() as int);
    lemma_split_from(s, "->"@, i + 2, i + 2);
    lemma_first_match(s, "->"@, i + 2);
    match first_match(s, "->"@, i + 2) {
        Some(j) => {
            let r = lemma_trimmed_range(back);
            let k = j - (i + 2);
            lemma_arrow_at(s, j);
            lemma_arrow_at(back, k);
            assert(back[k] == '-' && back[k + 1] == '>');
            lemma_arrow_survives(back, k);
        },
        None => {},
    }
    let parts = split(s, "->"@);
    assert(parts =~= seq![front, back]);
    let t = trimmed_parts(parts);
    assert(t =~= seq![from, to]);
    assert(t.subrange(0, 1) =~= seq![from]);
    assert(joined(seq![from], " -> "@) == from);
}

/// Trimming keeps an arrow.
proof fn lemma_arrow_survives(s: Seq<char>, k: int)
    requires
        matches_at(s, "->"@, k),
    ensures
        has_text(trimmed(s), "->"@),
{
    lemma_arrow_at(s, k);
    lemma_start_keeps(s, k);
    let a = lemma_trimmed_start(s, CharClass::Space);
    let start = trimmed_start(s, CharClass::Space);
    assert(start[k - a] == s[k] && start[k + 1 - a] == s[k + 1]);
    lemma_end_keeps(start, k + 1 - a);
    let b = lemma_trimmed_end(start, CharClass::Space);
    let t = trimmed(s);
    assert(t[k - a] == '-' && t[k + 1 - a] == '>');
    lemma_arrow_at(t, k - a);
    assert(matches_at(t, "->"@, k - a));
}

/// Trimming at the front stops before a character that is no white space.
proof fn lemma_start_keeps(s: Seq<char>, k: int)
    requires
        0 <= k < s.len(),
        !is_space(s[k]),
    ensures
        s.len() - trimmed_start(s, CharClass::Space).len() <= k,
    decreases s.len(),
{
    if is_space(s[0]) {
        let rest = s.subrange(1, s.len() as int);
        assert(rest[k - 1] == s[k]);
        lemma_start_keeps(rest, k - 1);
    }
}

/// Trimming at the end stops behind a character that is no white space.
proof fn lemma_end_keeps(s: Seq<char>, k: int)
    requires
        0 <= k < s.len(),
        !is_space(s[k]),
    ensures
        k < trimmed_end(s, CharClass::Space).len(),
    decreases s.len(),
{
    if is_space(s[s.len() - 1]) {
        let rest = s.subrange(0, s.len() - 1);
        assert(rest[k] == s[k]);
        lemma_end_keeps(rest, k);
    }
}

/// What was removed is no longer enforced, and everything else still is: of the
/// rules that are read of the edited document, a removed limit is missing,
/// removed cycles are allowed, and of the forbidden imports the removed one is
/// gone and the others are there.
pub proof fn law_removed_rule_is_gone(
    doc: Map<Seq<char>, TomlNode>,
    removal: RemovalView,
    before: JsonNode,
    after: JsonNode,
)
    requires
        removed(doc, removal) is Ok,
        reads_as(TomlNode::Table(doc), before),
        reads_as(TomlNode::Table(removed(doc, removal)->Ok_0.0), after),
        document_config(before) is Ok,
        removal matches RemovalView::ForbiddenImport { from, to } ==> is_side(from) && is_side(to),
    ensures
        ({
            let old_config = document_config(before)->Ok_0;
            let config = document_config(after);
            &&& config is Ok
            &&& config->Ok_0.overrides == old_config.overrides
            &&& match removal {
                RemovalView::MaxFileLines => config->Ok_0.rules == (RulesView {
                    max_file_lines: None,
                    ..old_config.rules
                }),
                RemovalView::NoCycles => config->Ok_0.rules == (RulesView {
                    no_cycles: false,
                    ..old_config.rules
                }),
                RemovalView::ForbiddenImport { from, to } => {
                    &&& config->Ok_0.rules == (RulesView {
                        forbidden_imports: config->Ok_0.rules.forbidden_imports,
                        ..old_config.rules
                    })
                    &&& forall|pair: (Seq<char>, Seq<char>)| #[trigger]
                        config->Ok_0.rules.forbidden_imports.contains(pair) <==> pair != (from, to)
                            && old_config.rules.forbidden_imports.contains(pair)
                },
            }
        }),
{
    lemma_keys_differ();
    let done = removed(doc, removal)->Ok_0.0;
    assert(entry(done, "overrides"@) == entry(doc, "overrides"@));
    lemma_overrides_kept(doc, done, before, after);
    let old_table = rules_table(doc)->Ok_0;
    let table = rules_table(done)->Ok_0;
    let old_rules = lemma_rules_read(doc, before);
    let rules = lemma_rules_read(done, after);
    match entry(doc, "rules"@) {
        Some(_) => {
            assert(table == rules_removed(old_table, removal)->Ok_0.0);
        },
        None => {
            assert(done == doc);
        },
    }
    lemma_severity_alike(old_table, table, old_rules, rules);
    lemma_entry_reads(old_table, old_rules, "max_file_lines"@);
    lemma_entry_reads(old_table, old_rules, "no_cycles"@);
    lemma_entry_reads(old_table, old_rules, "forbidden_imports"@);
    lemma_entry_reads(table, rules, "max_file_lines"@);
    lemma_entry_reads(table, rules, "no_cycles"@);
    lemma_entry_reads(table, rules, "forbidden_imports"@);
    if !(removal is MaxFileLines) {
        lemma_entries_alike(
            entry(table, "max_file_lines"@),
            member(old_rules, "max_file_lines"@),
            member(rules, "max_file_lines"@),
        );
    }
    if !(removal is NoCycles) {
        lemma_entries_alike(
            entry(table, "no_cycles"@),
            member(old_rules, "no_cycles"@),
            member(rules, "no_cycles"@),
        );
    }
    match removal {
        RemovalView::ForbiddenImport { from, to } => {
            let a = elements_of(entry(old_table, "forbidden_imports"@));
            assert(elements_of(entry(table, "forbidden_imports"@)) =~= without_rule(
                a,
                arrow_text(from, to),
            ));
            lemma_removed_forbidden(
                entry(old_table, "forbidden_imports"@),
                entry(table, "forbidden_imports"@),
                from,
                to,
                member(old_rules, "forbidden_imports"@),
                member(rules, "forbidden_imports"@),
            );
        },
        _ => {
            lemma_entries_alike(
                entry(table, "forbidden_imports"@),
                member(old_rules, "forbidden_imports"@),
                member(rules, "forbidden_imports"@),
            );
        },
    }
}

/// The elements of an array that may be missing.
spec fn elements_of(node: Option<TomlNode>) -> Seq<TomlNode> {
    match node {
        Some(TomlNode::Array(a)) => a,
        _ => Seq::empty(),
    }
}

/// The forbidden imports that are read of an array of texts.
proof fn lemma_forbidden_read(node: Option<TomlNode>, json: Option<JsonNode>)
    requires
        node is Some ==> node->0 is Array,
        entry_reads_as(node, json),
        forall|i: int|
            0 <= i < elements_of(node).len() ==> (#[trigger] elements_of(node)[i]) is Text
                && arrow_pair(elements_of(node)[i]->Text_0) is Ok,
    ensures
        forbidden_in(json) is Ok,
        forbidden_in(json)->Ok_0.len() == elements_of(node).len(),
        forall|i: int|
            0 <= i < elements_of(node).len() ==> #[trigger] forbidden_in(json)->Ok_0[i]
                == arrow_pair(elements_of(node)[i]->Text_0)->Ok_0,
{
    if node is Some {
        let a = node->0;
        let x = json->0->Array_0;
        assert forall|i: int| 0 <= i < x.len() implies (#[trigger] forbidden_element(x[i]))
            == Some(arrow_pair(elements_of(node)[i]->Text_0)->Ok_0) by {
            assert(reads_as(a->Array_0[i], x[i]));
            assert(elements_of(node)[i] is Text);
        }
    }
}

proof fn lemma_removed_forbidden(
    old_node: Option<TomlNode>,
    node: Option<TomlNode>,
    from: Seq<char>,
    to: Seq<char>,
    old_json: Option<JsonNode>,
    json: Option<JsonNode>,
)
    requires
        is_side(from),
        is_side(to),
        old_node is Some ==> old_node->0 is Array,
        node is Some ==> node->0 is Array,
        elements_of(node) == without_rule(elements_of(old_node), arrow_text(from, to)),
        entry_reads_as(old_node, old_json),
        entry_reads_as(node, json),
        forbidden_in(old_json) is Ok,
    ensures
        forbidden_in(json) is Ok,
        forall|pair: (Seq<char>, Seq<char>)| #[trigger]
            forbidden_in(json)->Ok_0.contains(pair) <==> pair != (from, to) && forbidden_in(
                old_json,
            )->Ok_0.contains(pair),
{
    let rule = arrow_text(from, to);
    let a = elements_of(old_node);
    let left = elements_of(node);
    let before = forbidden_in(old_json)->Ok_0;
    lemma_without_rule(a, rule);
    assert forall|i: int| 0 <= i < a.len() implies (#[trigger] a[i]) is Text && arrow_pair(
        a[i]->Text_0,
    ) is Ok by {
        let y = old_json->0->Array_0;
        assert(reads_as(old_node->0->Array_0[i], y[i]));
        assert(forbidden_element(y[i]) is Some);
    }
    assert forall|i: int| 0 <= i < left.len() implies (#[trigger] left[i]) is Text && arrow_pair(
        left[i]->Text_0,
    ) is Ok by {
        let k = choose|k: int| 0 <= k < a.len() && a[k] == left[i];
        assert(a[k] is Text);
    }
    lemma_forbidden_read(old_node, old_json);
    lemma_forbidden_read(node, json);
    let done = forbidden_in(json)->Ok_0;
    assert forall|pair: (Seq<char>, Seq<char>)| #[trigger]
        done.contains(pair) <==> pair != (from, to) && before.contains(pair) by {
        if done.contains(pair) {
            let i = choose|i: int| 0 <= i < done.len() && done[i] == pair;
            assert(left[i] is Text);
            let k = choose|k: int| 0 <= k < a.len() && a[k] == left[i];
            assert(before[k] == pair);
            if pair == (from, to) {
                lemma_reading_is_writing(left[i]->Text_0, from, to);
                assert(is_rule(left[i], rule));
            }
        }
        if pair != (from, to) && before.contains(pair) {
            let k = choose|k: int| 0 <= k < before.len() && before[k] == pair;
            assert(a[k] is Text);
            if is_rule(a[k], rule) {
                law_same_rule_reads_the_same(a[k]->Text_0, from, to);
            }
            assert(left.contains(a[k]));
            let i = choose|i: int| 0 <= i < left.len() && left[i] == a[k];
            assert(done[i] == pair);
        }
    }
}

// ---------------------------------------------------------------------------
// One edit after another
// ---------------------------------------------------------------------------

/// An addition is enforced from the text on that it gives: where the rules were
/// read from a text, and a rule was added to that text, the new text is read as
/// the rules with the added one set. Left out are edited documents that cannot
/// be written, and texts in which a table has the key of a date among others.
pub proof fn law_added_text_is_read_back(
    existing: Seq<char>,
    rules: RulesView,
    addition: AdditionView,
    text: Seq<char>,
)
    requires
        is_text_read(existing, rules),
        is_text_added(existing, addition, text),
        is_readable(addition),
        toml_writable(added(document(existing)->0, addition)->Ok_0),
        dates_stand_alone(toml_read(existing)->0),
    ensures
        text_config(text) is Ok,
        text_config(text)->Ok_0.rules == rules_after(rules, addition),
{
    let doc = document(existing)->0;
    let before = toml_read(existing)->0;
    if trimmed(existing).len() == 0 {
        let node = TomlNode::Table(doc);
        assert(node->Table_0.dom() =~= before->Object_0.dom());
        assert(reads_as(node, before));
    }
    law_added_rule_is_read_back(doc, addition, before, toml_read(text)->0);
}

/// Trees that are equal but for floats hold the same strings.
proof fn lemma_alike_quotes(a: TomlNode, b: TomlNode)
    requires
        alike(a, b),
        node_quotes_fit(a),
    ensures
        node_quotes_fit(b),
    decreases a,
{
    match a {
        TomlNode::Array(x) => {
            let y = b->Array_0;
            assert forall|i: int| 0 <= i < y.len() implies node_quotes_fit(
                #[trigger] b->Array_0[i],
            ) by {
                assert(decreases_to!(a => a->Array_0[i]));
                assert(alike(a->Array_0[i], y[i]));
                lemma_alike_quotes(a->Array_0[i], y[i]);
            }
        },
        TomlNode::Table(x) => {
            let y = b->Table_0;
            assert(a->Table_0.dom() == y.dom());
            assert forall|k: Seq<char>| #[trigger]
                b->Table_0.contains_key(k) implies node_quotes_fit(b->Table_0[k]) by {
                assert(a->Table_0.contains_key(k));
                assert(decreases_to!(a => a->Table_0[k]));
                lemma_alike_quotes(a->Table_0[k], y[k]);
            }
        },
        _ => {},
    }
}

proof fn lemma_alike_entry(
    a: Map<Seq<char>, TomlNode>,
    b: Map<Seq<char>, TomlNode>,
    key: Seq<char>,
)
    requires
        alike(TomlNode::Table(a), TomlNode::Table(b)),
    ensures
        a.contains_key(key) == b.contains_key(key),
        a.contains_key(key) ==> alike(a[key], b[key]),
{
    let x = TomlNode::Table(a);
    let y = TomlNode::Table(b);
    assert(x->Table_0.dom() == y->Table_0.dom());
    assert(a.dom().contains(key) == b.dom().contains(key));
    if a.contains_key(key) {
        assert(x->Table_0.contains_key(key));
    }
}

/// A document that is equal but for floats to one after an addition is left as
/// it is by the same addition.
proof fn lemma_addition_is_there(
    doc: Map<Seq<char>, TomlNode>,
    addition: AdditionView,
    other: Map<Seq<char>, TomlNode>,
)
    requires
        added(doc, addition) is Ok,
        alike(TomlNode::Table(added(doc, addition)->Ok_0), TomlNode::Table(other)),
    ensures
        added(other, addition) == Ok::<_, EditError>(other),
{
    let done = added(doc, addition)->Ok_0;
    let table = rules_added(rules_table(doc)->Ok_0, addition)->Ok_0;
    assert(done["rules"@] == TomlNode::Table(table));
    lemma_alike_entry(done, other, "rules"@);
    let x = done["rules"@];
    let rules = other["rules"@]->Table_0;
    assert(other["rules"@] == TomlNode::Table(rules));
    match addition {
        AdditionView::MaxFileLines(n) => {
            lemma_alike_entry(table, rules, "max_file_lines"@);
            assert(rules.insert("max_file_lines"@, TomlNode::Integer(n)) =~= rules);
        },
        AdditionView::NoCycles(b) => {
            lemma_alike_entry(table, rules, "no_cycles"@);
            assert(rules.insert("no_cycles"@, TomlNode::Boolean(b)) =~= rules);
        },
        AdditionView::ForbiddenImport { from, to } => {
            lemma_alike_entry(table, rules, "forbidden_imports"@);
            let rule = arrow_text(from, to);
            let a = forbidden_array(rules_table(doc)->Ok_0)->Ok_0;
            let array = table["forbidden_imports"@];
            let other_array = rules["forbidden_imports"@];
            let b = array->Array_0;
            let i = if has_rule(a, rule) {
                choose|i: int| 0 <= i < a.len() && is_rule(#[trigger] a[i], rule)
            } else {
                b.len() - 1
            };
            assert(is_rule(b[i], rule));
            assert(alike(array->Array_0[i], other_array->Array_0[i]));
            assert(is_rule(other_array->Array_0[i], rule));
            assert(has_rule(other_array->Array_0, rule));
            assert(rules.insert(
                "forbidden_imports"@,
                TomlNode::Array(other_array->Array_0),
            ) =~= rules);
        },
    }
    assert(other.insert("rules"@, TomlNode::Table(rules)) =~= other);
}

/// Adding the same rule to the text that an addition gave must succeed, and
/// gives a text that reads as the same document: adding twice is adding once.
pub proof fn law_added_text_stays(
    existing: Seq<char>,
    addition: AdditionView,
    once: Seq<char>,
    twice: Seq<char>,
)
    requires
        is_text_added(existing, addition, once),
        toml_writable(added(document(existing)->0, addition)->Ok_0),
    ensures
        addition_is_owed(once, addition),
        is_text_added(once, addition, twice) ==> toml_parsed(twice) == toml_parsed(once)
            && toml_parsed(once) is Some,
{
    let doc = document(existing)->0;
    let after = added(doc, addition)->Ok_0;
    let read = toml_parsed(once)->0;
    lemma_addition_is_there(doc, addition, read);
    lemma_table_quotes(after);
    lemma_table_quotes(read);
    lemma_alike_quotes(TomlNode::Table(after), TomlNode::Table(read));
}

/// Adding a forbidden import to a text and removing it from the text that comes
/// out must succeed, and gives a text that reads as the document at the start.
/// Left out are the documents for which [`super::edit::law_add_then_remove`]
/// does not hold, and those that are not plain.
pub proof fn law_text_is_back_where_it_started(
    existing: Seq<char>,
    from: Seq<char>,
    to: Seq<char>,
    more: Seq<char>,
    less: Seq<char>,
    outcome: RemovalOutcome,
)
    requires
        is_text_added(existing, AdditionView::ForbiddenImport { from, to }, more),
        toml_plain(document(existing)->0),
        toml_plain(
            added(document(existing)->0, AdditionView::ForbiddenImport { from, to })->Ok_0,
        ),
        entry(document(existing)->0, "rules"@) is Some,
        ({
            let a = forbidden_array(rules_table(document(existing)->0)->Ok_0)->Ok_0;
            &&& !has_rule(a, arrow_text(from, to))
            &&& entry(rules_table(document(existing)->0)->Ok_0, "forbidden_imports"@) is Some
                ==> a.len() > 0
        }),
    ensures
        removal_is_owed(more, RemovalView::ForbiddenImport { from, to }),
        is_text_removed(more, RemovalView::ForbiddenImport { from, to }, less, outcome) ==> outcome
            == RemovalOutcome::Removed && toml_parsed(less) == toml_parsed(existing)
            && toml_parsed(existing) is Some,
{
    let doc = document(existing)->0;
    law_add_then_remove(doc, from, to);
    lemma_quotes_before_addition(doc, from, to);
}

/// The outcome of a removal tells whether the text reads as another document
/// than before.
pub proof fn law_outcome_tells_of_text(
    existing: Seq<char>,
    removal: RemovalView,
    text: Seq<char>,
    outcome: RemovalOutcome,
)
    requires
        is_text_removed(existing, removal, text, outcome),
        trimmed(existing).len() > 0,
        toml_plain(removed(toml_parsed(existing)->0, removal)->Ok_0.0),
    ensures
        outcome == RemovalOutcome::NotPresent <==> toml_parsed(text) == toml_parsed(existing),
{
    law_outcome_tells_of_change(toml_parsed(existing)->0, removal);
}

/// The strings of a document are among those of the document after an import
/// was forbidden.
proof fn lemma_quotes_before_addition(
    doc: Map<Seq<char>, TomlNode>,
    from: Seq<char>,
    to: Seq<char>,
)
    requires
        added(doc, AdditionView::ForbiddenImport { from, to }) is Ok,
        toml_quotes_fit(added(doc, AdditionView::ForbiddenImport { from, to })->Ok_0),
    ensures
        toml_quotes_fit(doc),
{
    let addition = AdditionView::ForbiddenImport { from, to };
    let rules = rules_table(doc)->Ok_0;
    let after = rules_added(rules, addition)->Ok_0;
    let done = added(doc, addition)->Ok_0;
    assert(done.contains_key("rules"@));
    assert(node_quotes_fit(done["rules"@]));
    assert(done["rules"@] == TomlNode::Table(after));
    lemma_table_quotes(after);
    assert forall|k: Seq<char>| #[trigger] rules.contains_key(k) implies node_quotes_fit(
        rules[k],
    ) by {
        assert(after.contains_key(k));
        if k == "forbidden_imports"@ {
            let a = forbidden_array(rules)->Ok_0;
            let b = after[k]->Array_0;
            assert(node_quotes_fit(after[k]));
            assert forall|i: int| 0 <= i < a.len() implies node_quotes_fit(#[trigger] a[i]) by {
                assert(b[i] == a[i]);
                assert(node_quotes_fit(b[i]));
            }
        }
    }
    assert forall|k: Seq<char>| #[trigger] doc.contains_key(k) implies node_quotes_fit(doc[k]) by {
        assert(done.contains_key(k));
    }
}

} // verus!
