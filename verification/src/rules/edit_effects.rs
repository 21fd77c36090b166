//! What adding and removing a rule does to a document, entry by entry.
use vstd::prelude::*;
use vstd::string::*;

use super::edit::{
    added, arrow_text, document, has_rule, is_rule, normal_arrow, removed, text_removed,
    trimmed_parts, without_rule, AdditionView, EditError, RemovalOutcome, RemovalView,
};
use super::config_laws::{is_padded, is_unpadded, lemma_padded};
use super::toml_doc::TomlNode;
use crate::text::{split, CharClass};
use crate::text_laws::{
    all_in, law_parts_are_joined_in_order, law_pieces_lie_between_separators,
    law_trim_removes_the_ends, stands_first, stands_nowhere,
};

verus! {

/// Whether the document has no `rules`, or a table of that name.
pub open spec fn has_room(doc: Map<Seq<char>, TomlNode>) -> bool {
    doc.contains_key("rules"@) ==> doc["rules"@] is Table
}

/// The rules that the document holds, none where it has no table for them.
pub open spec fn rules_of(doc: Map<Seq<char>, TomlNode>) -> Map<Seq<char>, TomlNode> {
    if doc.contains_key("rules"@) {
        doc["rules"@]->Table_0
    } else {
        Map::empty()
    }
}

/// The forbidden imports that the document holds, none where it has no list of
/// them.
pub open spec fn imports_of(doc: Map<Seq<char>, TomlNode>) -> Seq<TomlNode> {
    if rules_of(doc).contains_key("forbidden_imports"@) {
        rules_of(doc)["forbidden_imports"@]->Array_0
    } else {
        Seq::empty()
    }
}

/// A line limit is added exactly where it is positive and there is room for it;
/// it then stands in the document, whatever stood there before.
pub proof fn law_added_limit_stands(doc: Map<Seq<char>, TomlNode>, n: i64)
    ensures
        added(doc, AdditionView::MaxFileLines(n)) is Ok <==> n > 0 && has_room(doc),
        added(doc, AdditionView::MaxFileLines(n)) matches Ok(after) ==> {
            &&& after.contains_key("rules"@)
            &&& rules_of(after).contains_key("max_file_lines"@)
            &&& rules_of(after)["max_file_lines"@] == TomlNode::Integer(n)
        },
        has_room(doc) && n <= 0 ==> added(doc, AdditionView::MaxFileLines(n)) == Err::<
            Map<Seq<char>, TomlNode>,
            EditError,
        >(EditError::LineLimit(n)),
{
}

/// A switch is added wherever there is room for it, and then stands in the
/// document with its value.
pub proof fn law_added_switch_stands(doc: Map<Seq<char>, TomlNode>, b: bool)
    ensures
        added(doc, AdditionView::NoCycles(b)) is Ok <==> has_room(doc),
        added(doc, AdditionView::NoCycles(b)) matches Ok(after) ==> {
            &&& after.contains_key("rules"@)
            &&& rules_of(after).contains_key("no_cycles"@)
            &&& rules_of(after)["no_cycles"@] == TomlNode::Boolean(b)
        },
{
}

/// A forbidden import is added exactly where it has two sides and there is room
/// for it. The imports before it stay in their order; it is added at the end,
/// unless the same rule is there already.
pub proof fn law_added_import_stands(
    doc: Map<Seq<char>, TomlNode>,
    from: Seq<char>,
    to: Seq<char>,
)
    ensures
        added(doc, AdditionView::ForbiddenImport { from, to }) is Ok <==> {
            &&& from.len() > 0
            &&& to.len() > 0
            &&& has_room(doc)
            &&& rules_of(doc).contains_key("forbidden_imports"@)
                ==> rules_of(doc)["forbidden_imports"@] is Array
        },
        added(doc, AdditionView::ForbiddenImport { from, to }) matches Ok(after) ==> {
            &&& imports_of(doc).is_prefix_of(imports_of(after))
            &&& if exists|i: int|
                0 <= i < imports_of(doc).len() && is_rule(
                    #[trigger] imports_of(doc)[i],
                    from + " -> "@ + to,
                ) {
                imports_of(after) == imports_of(doc)
            } else {
                imports_of(after) == imports_of(doc) + seq![
                    TomlNode::Text(from + " -> "@ + to),
                ]
            }
        },
{
    if added(doc, AdditionView::ForbiddenImport { from, to }) is Ok {
        let after = added(doc, AdditionView::ForbiddenImport { from, to })->Ok_0;
        let a = imports_of(doc);
        let rule = from + " -> "@ + to;
        assert(arrow_text(from, to) == rule);
        assert(rules_of(after).contains_key("forbidden_imports"@));
        if has_rule(a, rule) {
            assert(imports_of(after) == a);
            assert(a =~= a.subrange(0, a.len() as int));
        } else {
            assert(imports_of(after) =~= a + seq![TomlNode::Text(rule)]);
            assert(a =~= imports_of(after).subrange(0, a.len() as int));
        }
    }
}

/// After a removal the entry is not there, and the outcome tells whether it was.
pub proof fn law_removed_entry_is_gone(
    doc: Map<Seq<char>, TomlNode>,
    removal: RemovalView,
    key: Seq<char>,
)
    requires
        removal == RemovalView::MaxFileLines && key == "max_file_lines"@ || removal
            == RemovalView::NoCycles && key == "no_cycles"@,
    ensures
        removed(doc, removal) is Ok <==> has_room(doc),
        removed(doc, removal) matches Ok((after, outcome)) ==> {
            &&& !rules_of(after).contains_key(key)
            &&& outcome == (if rules_of(doc).contains_key(key) {
                RemovalOutcome::Removed
            } else {
                RemovalOutcome::NotPresent
            })
            &&& forall|other: Seq<char>|
                other != key ==> rules_of(after).contains_key(other) == rules_of(
                    doc,
                ).contains_key(other) && #[trigger] rules_of(after)[other] == rules_of(doc)[other]
        },
{
}

/// A removal takes away every spelling of the forbidden import and keeps all
/// other entries in their order.
pub proof fn law_removed_import_is_gone(
    doc: Map<Seq<char>, TomlNode>,
    from: Seq<char>,
    to: Seq<char>,
)
    ensures
        removed(doc, RemovalView::ForbiddenImport { from, to }) matches Ok((after, _))
            ==> imports_of(after) == imports_of(doc).filter(
            |x: TomlNode|
                !(x matches TomlNode::Text(s) && normal_arrow(s) == normal_arrow(
                    from + " -> "@ + to,
                )),
        ),
{
    let rule = from + " -> "@ + to;
    assert(arrow_text(from, to) == rule);
    let keep = |x: TomlNode|
        !(x matches TomlNode::Text(s) && normal_arrow(s) == normal_arrow(rule));
    if removed(doc, RemovalView::ForbiddenImport { from, to }) is Ok {
        let after = removed(doc, RemovalView::ForbiddenImport { from, to })->Ok_0.0;
        let a = imports_of(doc);
        lemma_filtered(a, rule);
        if a.len() == 0 {
            reveal(Seq::filter);
            assert(without_rule(a, rule).len() == 0);
            assert(imports_of(after) =~= a.filter(keep));
        } else {
            let left = without_rule(a, rule);
            if left.len() == 0 {
                assert(imports_of(after) =~= left);
            } else {
                assert(rules_of(after).contains_key("forbidden_imports"@));
                assert(imports_of(after) == left);
            }
        }
    }
}

proof fn lemma_filtered(a: Seq<TomlNode>, rule: Seq<char>)
    ensures
        without_rule(a, rule) == a.filter(
            |x: TomlNode| !(x matches TomlNode::Text(s) && normal_arrow(s) == normal_arrow(rule)),
        ),
    decreases a.len(),
{
    reveal(Seq::filter);
    if a.len() > 0 {
        assert(a.subrange(0, a.len() - 1) =~= a.drop_last());
        lemma_filtered(a.drop_last(), rule);
    } else {
        assert(without_rule(a, rule) =~= a);
    }
}

/// A rule is the same whatever blanks stand around its two names: its normal form
/// has one on each side of the arrow.
pub proof fn law_blanks_around_names_do_not_matter(
    raw: Seq<char>,
    k: int,
    from: Seq<char>,
    to: Seq<char>,
)
    requires
        stands_first(raw, seq!['-', '>'], k),
        stands_nowhere(raw.subrange(k + 2, raw.len() as int), seq!['-', '>']),
        is_unpadded(from),
        is_unpadded(to),
        is_padded(raw.subrange(0, k), from),
        is_padded(raw.subrange(k + 2, raw.len() as int), to),
    ensures
        normal_arrow(raw) == from + seq![' ', '-', '>', ' '] + to,
{
    let left = raw.subrange(0, k);
    let right = raw.subrange(k + 2, raw.len() as int);
    let arrow = seq!['-', '>'];
    reveal_strlit("->");
    reveal_strlit(" -> ");
    assert("->"@ =~= arrow);
    assert(" -> "@ =~= seq![' ', '-', '>', ' ']);
    law_pieces_lie_between_separators(raw, arrow, k);
    law_pieces_lie_between_separators(right, arrow, 0);
    lemma_padded(left, from);
    lemma_padded(right, to);
    assert(split(raw, arrow) =~= seq![left, right]);
    assert(trimmed_parts(split(raw, arrow)) =~= seq![from] + seq![to]);
    law_parts_are_joined_in_order(from, seq![to], " -> "@);
    law_parts_are_joined_in_order(to, Seq::empty(), " -> "@);
}

/// A text of white space alone is the empty document: a rule can be added to it,
/// and there is nothing to remove from it.
pub proof fn law_blank_text_is_the_empty_document(blank: Seq<char>, removal: RemovalView)
    requires
        all_in(blank, CharClass::Space),
    ensures
        document(blank) == Some(Map::<Seq<char>, TomlNode>::empty()),
        text_removed(blank, removal) == Ok::<(Seq<char>, RemovalOutcome), EditError>(
            (Seq::empty(), RemovalOutcome::NotPresent),
        ),
{
    let none = Seq::<char>::empty();
    law_trim_removes_the_ends(blank, none, none, CharClass::Space);
    assert(blank + none + none =~= blank);
}

} // verus!
