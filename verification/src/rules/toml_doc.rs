//! TOML documents, as `toml` holds them.
//!
//! A `toml::Value` is opaque to the verifier. [`toml_node`] names what a value
//! holds as a tree of plain values, [`toml_entries`] what a table holds, and
//! every function on values is stated over those two. The functions of `toml`
//! that the library calls are given their contracts here; none of these
//! contracts is proved.
use vstd::prelude::*;

use crate::json::{json_node, no_members, JsonNode};
use crate::text::{chars_of, has_text, trimmed};

verus! {

// ---------------------------------------------------------------------------
// What a value holds
// ---------------------------------------------------------------------------

/// What a TOML value holds.
pub enum TomlNode {
    /// A string.
    Text(Seq<char>),
    /// An integer.
    Integer(i64),
    /// A truth value.
    Boolean(bool),
    /// A float.
    Float(toml::Value),
    /// A date or a time.
    Date(toml::Value),
    /// An array.
    Array(Seq<TomlNode>),
    /// A table.
    Table(Map<Seq<char>, TomlNode>),
}

/// The type `toml::Value`.
#[verifier::external_type_specification]
#[verifier::external_body]
pub struct ExTomlValue(toml::Value);

/// The type `toml::map::Map`.
#[verifier::external_type_specification]
#[verifier::external_body]
#[verifier::reject_recursive_types(K)]
#[verifier::reject_recursive_types(V)]
pub struct ExTomlMap<K, V>(toml::map::Map<K, V>);

/// The type `toml::de::Error`.
#[verifier::external_type_specification]
#[verifier::external_body]
pub struct ExTomlReadError(toml::de::Error);

/// The type `toml::ser::Error`.
#[verifier::external_type_specification]
#[verifier::external_body]
pub struct ExTomlWriteError(toml::ser::Error);

/// What a `toml::Value` holds.
pub uninterp spec fn toml_node(v: toml::Value) -> TomlNode;

/// What a `toml::Table` holds.
pub uninterp spec fn toml_entries(t: toml::map::Map<String, toml::Value>) -> Map<
    Seq<char>,
    TomlNode,
>;

/// The entries of the document that the text reads as, `None` where it is not
/// TOML.
pub uninterp spec fn toml_parsed(text: Seq<char>) -> Option<Map<Seq<char>, TomlNode>>;

/// What `toml::from_str` reads a text as, as a `serde_json::Value`: tables are
/// objects, and so are dates, with the one key [`date_key`]. `None` where the
/// text is not TOML.
pub uninterp spec fn toml_read(text: Seq<char>) -> Option<JsonNode>;

/// The text of a document, `None` where it has none.
pub uninterp spec fn toml_pretty(entries: Map<Seq<char>, TomlNode>) -> Option<Seq<char>>;

/// What each value of a sequence holds.
pub open spec fn toml_nodes(v: Seq<toml::Value>) -> Seq<TomlNode> {
    Seq::new(v.len(), |i: int| toml_node(v[i]))
}

/// What each value of a sequence of references holds.
pub open spec fn toml_ref_nodes(v: Seq<&toml::Value>) -> Seq<TomlNode> {
    Seq::new(v.len(), |i: int| toml_node(*v[i]))
}

/// The entries of an empty table.
pub open spec fn no_entries() -> Map<Seq<char>, TomlNode> {
    Map::empty()
}

/// The entry for `key`, where there is one.
pub open spec fn entry(t: Map<Seq<char>, TomlNode>, key: Seq<char>) -> Option<TomlNode> {
    if t.contains_key(key) {
        Some(t[key])
    } else {
        None
    }
}

// ---------------------------------------------------------------------------
// Which documents can be written
// ---------------------------------------------------------------------------

/// The key that stands for dates inside `toml`.
pub open spec fn date_key() -> Seq<char> {
    "$__toml_private_datetime"@
}

/// How many keys a header may have, and how many arrays and tables may lie in
/// each other in a value.
pub open spec fn depth_limit() -> nat {
    79
}

/// Whether the tree is `leaf` or holds it.
pub open spec fn holds(node: TomlNode, leaf: TomlNode) -> bool
    decreases node,
{
    node == leaf || match node {
        TomlNode::Array(a) => exists|i: int| 0 <= i < a.len() && holds(#[trigger] a[i], leaf),
        TomlNode::Table(t) => exists|k: Seq<char>| #[trigger]
            t.contains_key(k) && holds(t[k], leaf),
        _ => false,
    }
}

/// Whether a text reads as a document that holds the float or the date.
pub open spec fn is_read_from(leaf: TomlNode, text: Seq<char>) -> bool {
    toml_parsed(text) matches Some(doc) && holds(TomlNode::Table(doc), leaf)
}

/// Whether each date in the document is one that can be read.
pub open spec fn dates_are_readable(entries: Map<Seq<char>, TomlNode>) -> bool {
    forall|v: toml::Value| #[trigger]
        holds(TomlNode::Table(entries), TomlNode::Date(v)) ==> exists|text: Seq<char>| #[trigger]
            is_read_from(TomlNode::Date(v), text)
}

/// Whether each float in the document is one that can be read from a text
/// without `-nan`.
pub open spec fn floats_are_readable(entries: Map<Seq<char>, TomlNode>) -> bool {
    forall|v: toml::Value| #[trigger]
        holds(TomlNode::Table(entries), TomlNode::Float(v)) ==> exists|text: Seq<char>| #[trigger]
            is_read_from(TomlNode::Float(v), text) && !has_text(text, "-nan"@)
}

/// Whether an array is written as an array of tables, each with a header.
pub open spec fn has_headers(a: Seq<TomlNode>) -> bool {
    a.len() > 0 && forall|i: int| 0 <= i < a.len() ==> #[trigger] a[i] is Table
}

/// Whether at most `depth` arrays and tables lie in each other, and no table has
/// the [`date_key`].
pub open spec fn value_fits(node: TomlNode, depth: nat) -> bool
    decreases depth,
{
    match node {
        TomlNode::Array(a) => depth > 0 && forall|i: int|
            0 <= i < a.len() ==> value_fits(#[trigger] a[i], (depth - 1) as nat),
        TomlNode::Table(t) => depth > 0 && forall|k: Seq<char>| #[trigger]
            t.contains_key(k) ==> k != date_key() && value_fits(t[k], (depth - 1) as nat),
        _ => true,
    }
}

/// Whether what stands under `keys` keys can be written and read again: no
/// header in it has too many keys, no value is too deep, and no table has the
/// [`date_key`].
pub open spec fn item_fits(node: TomlNode, keys: nat) -> bool
    decreases depth_limit() + 1 - keys, node,
{
    match node {
        TomlNode::Table(t) => keys <= depth_limit() && forall|k: Seq<char>| #[trigger]
            t.contains_key(k) ==> k != date_key() && item_fits(t[k], keys + 1),
        TomlNode::Array(a) => if has_headers(a) {
            forall|i: int| 0 <= i < a.len() ==> item_fits(#[trigger] a[i], keys)
        } else {
            value_fits(node, depth_limit())
        },
        _ => true,
    }
}

/// Whether every entry of the document can be written and read again, as far as
/// its depth and its keys go.
pub open spec fn shape_fits(entries: Map<Seq<char>, TomlNode>) -> bool {
    forall|k: Seq<char>| #[trigger] entries.contains_key(k) ==> item_fits(entries[k], 1)
}

/// Whether a document can be written: its shape fits, and its dates are ones
/// that can be read.
pub open spec fn toml_writable(entries: Map<Seq<char>, TomlNode>) -> bool {
    shape_fits(entries) && dates_are_readable(entries)
}

/// Whether a document can be written and is then read as it was: besides, no
/// float in it is a `nan` with a sign.
pub open spec fn toml_plain(entries: Map<Seq<char>, TomlNode>) -> bool {
    toml_writable(entries) && floats_are_readable(entries)
}

/// What is read of a text is plain, if its shape fits and either it holds no
/// float or there is no `-nan` in the text.
pub proof fn law_read_documents_are_plain(text: Seq<char>)
    requires
        toml_parsed(text) is Some,
        shape_fits(toml_parsed(text)->0),
    ensures
        toml_writable(toml_parsed(text)->0),
        !has_text(text, "-nan"@) ==> toml_plain(toml_parsed(text)->0),
        (forall|v: toml::Value|
            !(#[trigger] holds(TomlNode::Table(toml_parsed(text)->0), TomlNode::Float(v))))
            ==> toml_plain(toml_parsed(text)->0),
{
    let doc = toml_parsed(text)->0;
    assert forall|v: toml::Value| #[trigger]
        holds(TomlNode::Table(doc), TomlNode::Date(v)) implies exists|text: Seq<char>| #[trigger]
        is_read_from(TomlNode::Date(v), text) by {
        assert(is_read_from(TomlNode::Date(v), text));
    }
    if !has_text(text, "-nan"@) {
        assert forall|v: toml::Value| #[trigger]
            holds(TomlNode::Table(doc), TomlNode::Float(v)) implies exists|text: Seq<char>|
            #[trigger]
            is_read_from(TomlNode::Float(v), text) && !has_text(text, "-nan"@) by {
            assert(is_read_from(TomlNode::Float(v), text));
        }
    }
}

// ---------------------------------------------------------------------------
// What is read of a document
// ---------------------------------------------------------------------------

/// Whether the two trees are equal but for the floats in them.
pub open spec fn alike(a: TomlNode, b: TomlNode) -> bool
    decreases a,
{
    match a {
        TomlNode::Float(_) => b is Float,
        TomlNode::Array(x) => b matches TomlNode::Array(y) && x.len() == y.len() && forall|i: int|
            0 <= i < x.len() ==> alike(#[trigger] x[i], y[i]),
        TomlNode::Table(x) => b matches TomlNode::Table(y) && x.dom() == y.dom() && forall|
            k: Seq<char>,
        | #[trigger]
            x.contains_key(k) ==> alike(x[k], y[k]),
        _ => a == b,
    }
}

/// Whether a value is what the node is as a `serde_json::Value`. Of a float only
/// that it is none of the other things is said; a date is an object with the
/// one key [`date_key`].
pub open spec fn reads_as(node: TomlNode, json: JsonNode) -> bool
    decreases node,
{
    match node {
        TomlNode::Text(s) => json == JsonNode::Text(s),
        TomlNode::Integer(n) => json == JsonNode::Integer(n as int),
        TomlNode::Boolean(b) => json == JsonNode::Bool(b),
        TomlNode::Float(_) => json is Null || json is Other,
        TomlNode::Date(_) => json matches JsonNode::Object(m) && m.dom() == set![date_key()],
        TomlNode::Array(a) => json matches JsonNode::Array(b) && a.len() == b.len() && forall|
            i: int,
        |
            0 <= i < a.len() ==> reads_as(#[trigger] a[i], b[i]),
        TomlNode::Table(t) => json matches JsonNode::Object(m) && t.dom() == m.dom() && forall|
            k: Seq<char>,
        | #[trigger]
            t.contains_key(k) ==> reads_as(t[k], m[k]),
    }
}

/// Whether the [`date_key`] stands alone in each object that has it.
pub open spec fn date_keys_stand_alone(json: JsonNode) -> bool
    decreases json,
{
    match json {
        JsonNode::Array(a) => forall|i: int|
            0 <= i < a.len() ==> date_keys_stand_alone(#[trigger] a[i]),
        JsonNode::Object(m) => {
            &&& m.contains_key(date_key()) ==> m.dom() == set![date_key()]
            &&& forall|k: Seq<char>| #[trigger]
                m.contains_key(k) ==> date_keys_stand_alone(m[k])
        },
        _ => true,
    }
}

/// Whether the [`date_key`] stands alone in each object that has it, below the
/// document itself.
pub open spec fn dates_stand_alone(document: JsonNode) -> bool {
    forall|k: Seq<char>| #[trigger]
        document->Object_0.contains_key(k) ==> date_keys_stand_alone(document->Object_0[k])
}

/// What holds of the text of a document that can be written: it reads as the
/// document, but for a `nan` that lost its sign, and what it reads as can be
/// written and read once more without loss.
pub open spec fn is_text_of(entries: Map<Seq<char>, TomlNode>, text: Seq<char>) -> bool {
    &&& toml_parsed(text) matches Some(doc)
    &&& alike(TomlNode::Table(entries), TomlNode::Table(doc))
    &&& toml_plain(doc)
    &&& toml_plain(entries) ==> doc == entries
    &&& toml_read(text) matches Some(json)
    &&& reads_as(TomlNode::Table(entries), json)
}

// ---------------------------------------------------------------------------
// Quotes
// ---------------------------------------------------------------------------

/// The number of equal quotes in a row that a string may not reach.
pub const QUOTE_RUN: usize = 256;

/// Whether there are `n` times the same character from a position on.
pub open spec fn is_run(s: Seq<char>, at: int, n: int, c: char) -> bool {
    0 <= at && at + n <= s.len() && forall|k: int| at <= k < at + n ==> #[trigger] s[k] == c
}

/// Whether a string holds `n` times the same character in a row.
pub open spec fn has_run(s: Seq<char>, n: int, c: char) -> bool {
    exists|at: int| #[trigger] is_run(s, at, n, c)
}

/// Whether a string holds less than [`QUOTE_RUN`] equal quotes in a row.
pub open spec fn quotes_fit_in(s: Seq<char>) -> bool {
    !has_run(s, QUOTE_RUN as int, '"') && !has_run(s, QUOTE_RUN as int, '\'')
}

/// Whether every string in the tree holds less than [`QUOTE_RUN`] equal quotes
/// in a row.
pub open spec fn node_quotes_fit(node: TomlNode) -> bool
    decreases node,
{
    match node {
        TomlNode::Text(s) => quotes_fit_in(s),
        TomlNode::Array(a) => forall|i: int|
            0 <= i < a.len() ==> node_quotes_fit(#[trigger] a[i]),
        TomlNode::Table(t) => forall|k: Seq<char>| #[trigger]
            t.contains_key(k) ==> node_quotes_fit(t[k]),
        _ => true,
    }
}

/// Whether every string in the document holds less than [`QUOTE_RUN`] equal
/// quotes in a row.
pub open spec fn toml_quotes_fit(entries: Map<Seq<char>, TomlNode>) -> bool {
    forall|k: Seq<char>| #[trigger] entries.contains_key(k) ==> node_quotes_fit(entries[k])
}

/// The strings of a table are those of its entries.
pub proof fn lemma_table_quotes(t: Map<Seq<char>, TomlNode>)
    ensures
        node_quotes_fit(TomlNode::Table(t)) == toml_quotes_fit(t),
{
    let node = TomlNode::Table(t);
    if node_quotes_fit(node) {
        assert forall|k: Seq<char>| #[trigger] t.contains_key(k) implies node_quotes_fit(t[k]) by {
            assert(node->Table_0.contains_key(k));
        }
    }
    if toml_quotes_fit(t) {
        assert(forall|k: Seq<char>| #[trigger]
            node->Table_0.contains_key(k) ==> node_quotes_fit(node->Table_0[k]));
    }
}

// ---------------------------------------------------------------------------
// Reading
// ---------------------------------------------------------------------------

/// `toml::Value::as_str`: the text of a string, `None` for any other value.
pub assume_specification[ toml::Value::as_str ](v: &toml::Value) -> (r: Option<&str>)
    ensures
        match r {
            Some(s) => toml_node(*v) == TomlNode::Text(s@),
            None => !(toml_node(*v) is Text),
        },
;

/// `toml::Value::as_array`: the elements of an array, `None` for any other
/// value.
pub assume_specification[ toml::Value::as_array ](v: &toml::Value) -> (r: Option<&Vec<toml::Value>>)
    ensures
        match r {
            Some(a) => toml_node(*v) == TomlNode::Array(toml_nodes(a@)),
            None => !(toml_node(*v) is Array),
        },
;

/// `toml::Value::as_table`: the entries of a table, `None` for any other value.
pub assume_specification[ toml::Value::as_table ](v: &toml::Value) -> (r: Option<
    &toml::map::Map<String, toml::Value>,
>)
    ensures
        match r {
            Some(t) => toml_node(*v) == TomlNode::Table(toml_entries(*t)),
            None => !(toml_node(*v) is Table),
        },
;

/// `toml::map::Map::values`: the values of a table, in some order.
#[verifier::external_body]
fn toml_values<'a>(t: &'a toml::map::Map<String, toml::Value>) -> (r: Vec<&'a toml::Value>)
    ensures
        toml_ref_nodes(r@).to_set() == toml_entries(*t).values(),
{
    t.values().collect()
}

// ---------------------------------------------------------------------------
// Changing in place
// ---------------------------------------------------------------------------

/// `toml::Value::as_table_mut`: the entries of a table, to change them in
/// place, `None` for any other value.
pub assume_specification[ toml::Value::as_table_mut ](v: &mut toml::Value) -> (r: Option<
    &mut toml::map::Map<String, toml::Value>,
>)
    ensures
        match r {
            Some(t) => {
                &&& toml_node(*old(v)) == TomlNode::Table(toml_entries(*t))
                &&& toml_node(*final(v)) == TomlNode::Table(toml_entries(*final(t)))
            },
            None => !(toml_node(*old(v)) is Table) && *final(v) == *old(v),
        },
;

/// `toml::Value::as_array_mut`: the elements of an array, to change them in
/// place, `None` for any other value.
pub assume_specification[ toml::Value::as_array_mut ](v: &mut toml::Value) -> (r: Option<
    &mut Vec<toml::Value>,
>)
    ensures
        match r {
            Some(a) => {
                &&& toml_node(*old(v)) == TomlNode::Array(toml_nodes(a@))
                &&& toml_node(*final(v)) == TomlNode::Array(toml_nodes(final(a)@))
            },
            None => !(toml_node(*old(v)) is Array) && *final(v) == *old(v),
        },
;

/// `toml::map::Map::entry` and `Entry::or_insert`: the value for `key`, to
/// change it in place, after `default` was put there if the key was missing.
#[verifier::external_body]
pub(crate) fn toml_entry_or<'a>(
    t: &'a mut toml::map::Map<String, toml::Value>,
    key: &str,
    default: toml::Value,
) -> (r: &'a mut toml::Value)
    ensures
        toml_node(*r) == (if toml_entries(*old(t)).contains_key(key@) {
            toml_entries(*old(t))[key@]
        } else {
            toml_node(default)
        }),
        toml_entries(*final(t)) == toml_entries(*old(t)).insert(key@, toml_node(*final(r))),
{
    t.entry(key).or_insert(default)
}

/// `toml::map::Map::get_mut`: the value for `key`, to change it in place,
/// `None` where the key is missing.
#[verifier::external_body]
pub(crate) fn toml_member_mut<'a>(t: &'a mut toml::map::Map<String, toml::Value>, key: &str) -> (r:
    Option<&'a mut toml::Value>)
    ensures
        match r {
            Some(x) => {
                &&& toml_entries(*old(t)).contains_key(key@)
                &&& toml_node(*x) == toml_entries(*old(t))[key@]
                &&& toml_entries(*final(t)) == toml_entries(*old(t)).insert(
                    key@,
                    toml_node(*final(x)),
                )
            },
            None => !toml_entries(*old(t)).contains_key(key@) && *final(t) == *old(t),
        },
{
    t.get_mut(key)
}

/// `toml::map::Map::insert`: puts the value at the key, in place of the value
/// that was there, which it returns.
pub assume_specification[ toml::map::Map::<String, toml::Value>::insert ](
    t: &mut toml::map::Map<String, toml::Value>,
    k: String,
    v: toml::Value,
) -> (r: Option<toml::Value>)
    ensures
        toml_entries(*final(t)) == toml_entries(*old(t)).insert(k@, toml_node(v)),
        match r {
            Some(x) => toml_entries(*old(t)).contains_key(k@) && toml_node(x) == toml_entries(
                *old(t),
            )[k@],
            None => !toml_entries(*old(t)).contains_key(k@),
        },
;

/// `toml::map::Map::remove`: takes the key out and returns its value, `None`
/// where the key is missing.
#[verifier::external_body]
pub(crate) fn toml_remove(t: &mut toml::map::Map<String, toml::Value>, key: &str) -> (r: Option<
    toml::Value,
>)
    ensures
        toml_entries(*final(t)) == toml_entries(*old(t)).remove(key@),
        match r {
            Some(x) => toml_entries(*old(t)).contains_key(key@) && toml_node(x) == toml_entries(
                *old(t),
            )[key@],
            None => !toml_entries(*old(t)).contains_key(key@),
        },
{
    t.remove(key)
}

// ---------------------------------------------------------------------------
// Building
// ---------------------------------------------------------------------------

/// `toml::map::Map::new`: a table without entries.
pub assume_specification[ toml::map::Map::<String, toml::Value>::new ]() -> (r: toml::map::Map<
    String,
    toml::Value,
>)
    ensures
        toml_entries(r) == no_entries(),
;

/// `toml::Value::Table`: the value of a table.
#[verifier::external_body]
pub(crate) fn toml_table(t: toml::map::Map<String, toml::Value>) -> (r: toml::Value)
    ensures
        toml_node(r) == TomlNode::Table(toml_entries(t)),
{
    toml::Value::Table(t)
}

/// `toml::Value::Array`: the value of an array.
#[verifier::external_body]
pub(crate) fn toml_array(a: Vec<toml::Value>) -> (r: toml::Value)
    ensures
        toml_node(r) == TomlNode::Array(toml_nodes(a@)),
{
    toml::Value::Array(a)
}

/// `toml::Value::String`: the value of a string.
#[verifier::external_body]
pub(crate) fn toml_string(s: String) -> (r: toml::Value)
    ensures
        toml_node(r) == TomlNode::Text(s@),
{
    toml::Value::String(s)
}

/// `toml::Value::Integer`: the value of an integer.
#[verifier::external_body]
pub(crate) fn toml_integer(n: i64) -> (r: toml::Value)
    ensures
        toml_node(r) == TomlNode::Integer(n),
{
    toml::Value::Integer(n)
}

/// `toml::Value::Boolean`: a truth value.
#[verifier::external_body]
pub(crate) fn toml_boolean(b: bool) -> (r: toml::Value)
    ensures
        toml_node(r) == TomlNode::Boolean(b),
{
    toml::Value::Boolean(b)
}

// ---------------------------------------------------------------------------
// Text
// ---------------------------------------------------------------------------

/// `str::parse` to a `toml::Table`: reads a text as a TOML document. What it
/// reads is named, not stated.
#[verifier::external_body]
pub(crate) fn parse_toml(text: &str) -> (r: Result<
    toml::map::Map<String, toml::Value>,
    toml::de::Error,
>)
    ensures
        toml_parsed(text@) == (match r {
            Ok(t) => Some(toml_entries(t)),
            Err(_) => None,
        }),
{
    text.parse::<toml::Table>()
}

/// `toml::from_str` to a `serde_json::Value`: reads a text as a TOML document.
/// What it reads is named, not stated, but for a text of white space alone,
/// which is the empty document where it is TOML. Every text that reads as a
/// `toml::Table` is read, and as the same document, unless a table in it has the
/// [`date_key`] among others.
#[verifier::external_body]
pub(crate) fn read_toml(text: &str) -> (r: Result<serde_json::Value, toml::de::Error>)
    ensures
        toml_read(text@) == (match r {
            Ok(v) => Some(json_node(v)),
            Err(_) => None,
        }),
        r matches Ok(v) ==> json_node(v) is Object,
        r is Err ==> toml_parsed(text@) is None,
        r matches Ok(v) ==> (toml_parsed(text@) matches Some(doc) ==> (dates_stand_alone(
            json_node(v),
        ) ==> reads_as(TomlNode::Table(doc), json_node(v)))),
        trimmed(text@).len() == 0 ==> (r matches Ok(v) ==> json_node(v) == JsonNode::Object(
            no_members(),
        )),
{
    toml::from_str::<serde_json::Value>(text)
}

/// `toml::to_string_pretty` of a table: the text of a document. The text is
/// named, not stated; that of a document with entries is not white space alone.
/// A document that can be written has a text, and reading that text gives the
/// document back, but for the sign of a `nan`, which the writer drops. The
/// reader takes up to 79 keys in a header and up to 79 arrays and tables in each
/// other in a value. The writer counts the equal quotes in a row of a string in
/// a byte, which must not overflow.
#[verifier::external_body]
pub(crate) fn print_toml(t: toml::map::Map<String, toml::Value>) -> (r: Result<
    String,
    toml::ser::Error,
>)
    requires
        toml_quotes_fit(toml_entries(t)),
    ensures
        toml_pretty(toml_entries(t)) == (match r {
            Ok(s) => Some(s@),
            Err(_) => None,
        }),
        toml_writable(toml_entries(t)) ==> r is Ok,
        r matches Ok(s) ==> (toml_writable(toml_entries(t)) ==> is_text_of(toml_entries(t), s@)),
        r matches Ok(s) ==> (toml_entries(t) != no_entries() ==> trimmed(s@).len() > 0),
{
    toml::to_string_pretty(&toml::Value::Table(t))
}

// ---------------------------------------------------------------------------
// Quotes
// ---------------------------------------------------------------------------

fn run_in(s: &Vec<char>, c: char) -> (r: bool)
    ensures
        r == has_run(s@, QUOTE_RUN as int, c),
{
    let mut run: usize = 0;
    let mut i: usize = 0;
    while i < s.len()
        invariant
            i <= s@.len(),
            run < QUOTE_RUN,
            is_run(s@, i - run, run as int, c),
            i > run ==> s@[i - run - 1] != c,
            forall|at: int|
                at + QUOTE_RUN <= i ==> !(#[trigger] is_run(s@, at, QUOTE_RUN as int, c)),
        decreases s.len() - i,
    {
        if s[i] == c {
            run += 1;
        } else {
            run = 0;
        }
        i += 1;
        if run == QUOTE_RUN {
            assert(is_run(s@, i - run, QUOTE_RUN as int, c));
            return true;
        }
        assert forall|at: int| at + QUOTE_RUN <= i implies !(#[trigger] is_run(
            s@,
            at,
            QUOTE_RUN as int,
            c,
        )) by {
            if at >= 0 && at + QUOTE_RUN == i {
                assert(s@[i - run - 1] != c);
            }
        }
    }
    false
}

fn value_quotes_fit(v: &toml::Value) -> (r: bool)
    ensures
        r == node_quotes_fit(toml_node(*v)),
    decreases toml_node(*v), 1int,
{
    match v.as_str() {
        Some(s) => {
            let chars = chars_of(s);
            return !run_in(&chars, '"') && !run_in(&chars, '\'');
        },
        None => {},
    }
    match v.as_array() {
        Some(a) => {
            let mut i: usize = 0;
            while i < a.len()
                invariant
                    i <= a@.len(),
                    toml_node(*v) == TomlNode::Array(toml_nodes(a@)),
                    forall|k: int| 0 <= k < i ==> node_quotes_fit(#[trigger] toml_nodes(a@)[k]),
                decreases a.len() - i,
            {
                assert(toml_nodes(a@)[i as int] == toml_node(a@[i as int]));
                assert(decreases_to!(toml_node(*v) => toml_node(*v)->Array_0[i as int]));
                if !value_quotes_fit(&a[i]) {
                    return false;
                }
                i += 1;
            }
            return true;
        },
        None => {},
    }
    match v.as_table() {
        Some(t) => table_quotes_fit(t),
        None => true,
    }
}

/// Whether every string in the document holds less than [`QUOTE_RUN`] equal
/// quotes in a row.
pub(crate) fn table_quotes_fit(t: &toml::map::Map<String, toml::Value>) -> (r: bool)
    ensures
        r == toml_quotes_fit(toml_entries(*t)),
    decreases TomlNode::Table(toml_entries(*t)), 0int,
{
    let values = toml_values(t);
    let ghost entries = toml_entries(*t);
    let ghost nodes = toml_ref_nodes(values@);
    let mut i: usize = 0;
    while i < values.len()
        invariant
            i <= values@.len(),
            entries == toml_entries(*t),
            nodes == toml_ref_nodes(values@),
            nodes.to_set() == entries.values(),
            forall|k: int| 0 <= k < i ==> node_quotes_fit(#[trigger] nodes[k]),
        decreases values.len() - i,
    {
        let ghost node = nodes[i as int];
        assert(nodes.to_set().contains(node));
        let ghost key = choose|k: Seq<char>| #[trigger]
            entries.contains_key(k) && entries[k] == node;
        assert(decreases_to!(TomlNode::Table(entries) => TomlNode::Table(entries)->Table_0[key]));
        if !value_quotes_fit(values[i]) {
            return false;
        }
        i += 1;
    }
    assert forall|k: Seq<char>| #[trigger] entries.contains_key(k) implies node_quotes_fit(
        entries[k],
    ) by {
        assert(entries.values().contains(entries[k]));
        assert(nodes.to_set().contains(entries[k]));
        assert(nodes.contains(entries[k]));
    }
    true
}

} // verus!
