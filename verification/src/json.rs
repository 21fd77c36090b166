//! JSON values, as `serde_json` holds them.
//!
//! A `serde_json::Value` is opaque to the verifier. [`json_node`] names what a
//! value holds as a tree of plain values, [`json_entries`] what an object
//! holds, and every function on values is stated over those two. The functions
//! of `serde_json` that the library calls are given their contracts here; none
//! of these contracts is proved.
use vstd::prelude::*;

verus! {

// ---------------------------------------------------------------------------
// What a value holds
// ---------------------------------------------------------------------------

/// What a JSON value holds.
pub enum JsonNode {
    /// The literal `null`.
    Null,
    /// A truth value.
    Bool(bool),
    /// A number written without fraction and exponent that fits 64 bits.
    Integer(int),
    /// Any other number.
    Other(serde_json::Value),
    /// A string.
    Text(Seq<char>),
    /// An array.
    Array(Seq<JsonNode>),
    /// An object.
    Object(Map<Seq<char>, JsonNode>),
}

/// The type `serde_json::Value`.
#[verifier::external_type_specification]
#[verifier::external_body]
pub struct ExJsonValue(serde_json::Value);

/// The type `serde_json::Map`.
#[verifier::external_type_specification]
#[verifier::external_body]
#[verifier::reject_recursive_types(K)]
#[verifier::reject_recursive_types(V)]
pub struct ExJsonMap<K, V>(serde_json::Map<K, V>);

/// The type `serde_json::Error`.
#[verifier::external_type_specification]
#[verifier::external_body]
pub struct ExJsonError(serde_json::Error);

/// What a `serde_json::Value` holds.
pub uninterp spec fn json_node(v: serde_json::Value) -> JsonNode;

/// What a `serde_json::Map` holds.
pub uninterp spec fn json_entries(m: serde_json::Map<String, serde_json::Value>) -> Map<
    Seq<char>,
    JsonNode,
>;

/// What the text reads as, `None` where it is not JSON.
pub uninterp spec fn json_parsed(text: Seq<char>) -> Option<JsonNode>;

/// The text of a value on one line.
pub uninterp spec fn json_compact(node: JsonNode) -> Seq<char>;

/// The text of a value with an indent of two spaces.
pub uninterp spec fn json_pretty(node: JsonNode) -> Seq<char>;

/// What each value of a sequence holds.
pub open spec fn json_nodes(v: Seq<serde_json::Value>) -> Seq<JsonNode> {
    Seq::new(v.len(), |i: int| json_node(v[i]))
}

/// What a value holds, where there is one.
pub open spec fn opt_node(v: Option<&serde_json::Value>) -> Option<JsonNode> {
    match v {
        Some(v) => Some(json_node(*v)),
        None => None,
    }
}

/// The entries of an empty object.
pub open spec fn no_members() -> Map<Seq<char>, JsonNode> {
    Map::empty()
}

/// The value for `key`, where `node` is an object that has one.
pub open spec fn member(node: JsonNode, key: Seq<char>) -> Option<JsonNode> {
    match node {
        JsonNode::Object(m) => if m.contains_key(key) {
            Some(m[key])
        } else {
            None
        },
        _ => None,
    }
}

/// The text of `node`, where it is a string.
pub open spec fn text_of(node: Option<JsonNode>) -> Option<Seq<char>> {
    match node {
        Some(JsonNode::Text(s)) => Some(s),
        _ => None,
    }
}

/// The truth value of `node`, where it is one.
pub open spec fn bool_of(node: Option<JsonNode>) -> Option<bool> {
    match node {
        Some(JsonNode::Bool(b)) => Some(b),
        _ => None,
    }
}

/// The integer of `node`, where it is one that fits an `i64`.
pub open spec fn i64_of(node: Option<JsonNode>) -> Option<i64> {
    match node {
        Some(JsonNode::Integer(n)) => if i64::MIN <= n <= i64::MAX {
            Some(n as i64)
        } else {
            None
        },
        _ => None,
    }
}

/// The text of the member `key`, where there is one and it is a string.
pub open spec fn member_text(node: JsonNode, key: Seq<char>) -> Option<Seq<char>> {
    text_of(member(node, key))
}

/// Whether the tree holds no [`JsonNode::Other`] and is at most `depth` deep.
pub open spec fn plain_json(node: JsonNode, depth: nat) -> bool
    decreases depth,
{
    match node {
        JsonNode::Other(_) => false,
        JsonNode::Array(a) => depth > 0 && forall|i: int|
            0 <= i < a.len() ==> plain_json(#[trigger] a[i], (depth - 1) as nat),
        JsonNode::Object(m) => depth > 0 && forall|k: Seq<char>|
            m.contains_key(k) ==> plain_json(#[trigger] m[k], (depth - 1) as nat),
        _ => true,
    }
}

// ---------------------------------------------------------------------------
// Reading
// ---------------------------------------------------------------------------

/// `serde_json::Value::as_str`: the text of a string, `None` for any other
/// value.
pub assume_specification[ serde_json::Value::as_str ](v: &serde_json::Value) -> (r: Option<&str>)
    ensures
        text_of(Some(json_node(*v))) == (match r {
            Some(s) => Some(s@),
            None => None::<Seq<char>>,
        }),
;

/// `serde_json::Value::as_bool`: a truth value, `None` for any other value.
pub assume_specification[ serde_json::Value::as_bool ](v: &serde_json::Value) -> (r: Option<bool>)
    ensures
        r == bool_of(Some(json_node(*v))),
;

/// `serde_json::Value::as_i64`: an integer that fits an `i64`, `None` for any
/// other value.
pub assume_specification[ serde_json::Value::as_i64 ](v: &serde_json::Value) -> (r: Option<i64>)
    ensures
        r == i64_of(Some(json_node(*v))),
;

/// `serde_json::Value::as_array`: the elements of an array, `None` for any
/// other value.
pub assume_specification[ serde_json::Value::as_array ](v: &serde_json::Value) -> (r: Option<
    &Vec<serde_json::Value>,
>)
    ensures
        match r {
            Some(a) => json_node(*v) == JsonNode::Array(json_nodes(a@)),
            None => !(json_node(*v) is Array),
        },
;

/// `serde_json::Value::is_object`: whether a value is an object.
pub assume_specification[ serde_json::Value::is_object ](v: &serde_json::Value) -> (r: bool)
    ensures
        r == (json_node(*v) is Object),
;

/// `serde_json::Value::get` with a string: the member of that name of an
/// object, `None` where there is none and for any other value.
#[verifier::external_body]
pub(crate) fn json_get<'a>(v: &'a serde_json::Value, key: &str) -> (r: Option<&'a serde_json::Value>)
    ensures
        member(json_node(*v), key@) == (match r {
            Some(x) => Some(json_node(*x)),
            None => None::<JsonNode>,
        }),
{
    v.get(key)
}

/// `serde_json::Value::clone`: a value that holds the same.
pub assume_specification[ <serde_json::Value as Clone>::clone ](v: &serde_json::Value) -> (r:
    serde_json::Value)
    ensures
        json_node(r) == json_node(*v),
;

/// The text of the member `key`, where there is one and it is a string.
pub fn get_text(v: &serde_json::Value, key: &str) -> (r: Option<String>)
    ensures
        crate::text::opt_view(r) == member_text(json_node(*v), key@),
{
    match json_get(v, key) {
        Some(x) => match x.as_str() {
            Some(s) => Some(s.to_owned()),
            None => None,
        },
        None => None,
    }
}

/// The text of the member `key`, or the empty text.
pub open spec fn member_text_or_empty(node: JsonNode, key: Seq<char>) -> Seq<char> {
    match member_text(node, key) {
        Some(s) => s,
        None => Seq::empty(),
    }
}

/// The text of the member `key`, or the empty text.
pub fn get_text_or_empty(v: &serde_json::Value, key: &str) -> (r: String)
    ensures
        r@ == member_text_or_empty(json_node(*v), key@),
{
    match get_text(v, key) {
        Some(s) => s,
        None => String::new(),
    }
}

/// The truth value of the member `key`, where there is one and it is one.
pub fn get_bool(v: &serde_json::Value, key: &str) -> (r: Option<bool>)
    ensures
        r == bool_of(member(json_node(*v), key@)),
{
    match json_get(v, key) {
        Some(x) => x.as_bool(),
        None => None,
    }
}

/// The integer of the member `key`, where there is one and it fits an `i64`.
pub fn get_i64(v: &serde_json::Value, key: &str) -> (r: Option<i64>)
    ensures
        r == i64_of(member(json_node(*v), key@)),
{
    match json_get(v, key) {
        Some(x) => x.as_i64(),
        None => None,
    }
}

// ---------------------------------------------------------------------------
// Changing in place
// ---------------------------------------------------------------------------

/// `serde_json::Value::as_object_mut`: the entries of an object, to change
/// them in place, `None` for any other value.
pub assume_specification[ serde_json::Value::as_object_mut ](v: &mut serde_json::Value) -> (r:
    Option<&mut serde_json::Map<String, serde_json::Value>>)
    ensures
        match r {
            Some(m) => {
                &&& json_node(*old(v)) == JsonNode::Object(json_entries(*m))
                &&& json_node(*final(v)) == JsonNode::Object(json_entries(*final(m)))
            },
            None => !(json_node(*old(v)) is Object) && *final(v) == *old(v),
        },
;

/// `serde_json::Value::as_array_mut`: the elements of an array, to change them
/// in place, `None` for any other value.
pub assume_specification[ serde_json::Value::as_array_mut ](v: &mut serde_json::Value) -> (r:
    Option<&mut Vec<serde_json::Value>>)
    ensures
        match r {
            Some(a) => {
                &&& json_node(*old(v)) == JsonNode::Array(json_nodes(a@))
                &&& json_node(*final(v)) == JsonNode::Array(json_nodes(final(a)@))
            },
            None => !(json_node(*old(v)) is Array) && *final(v) == *old(v),
        },
;

/// `serde_json::Map::entry` and `Entry::or_insert`: the value for `key`, to
/// change it in place, after `default` was put there if the key was missing.
#[verifier::external_body]
pub(crate) fn json_entry_or<'a>(
    m: &'a mut serde_json::Map<String, serde_json::Value>,
    key: &str,
    default: serde_json::Value,
) -> (r: &'a mut serde_json::Value)
    ensures
        json_node(*r) == (if json_entries(*old(m)).contains_key(key@) {
            json_entries(*old(m))[key@]
        } else {
            json_node(default)
        }),
        json_entries(*final(m)) == json_entries(*old(m)).insert(key@, json_node(*final(r))),
{
    m.entry(key).or_insert(default)
}

/// `serde_json::Map::get_mut`: the value for `key`, to change it in place,
/// `None` where the key is missing.
#[verifier::external_body]
pub(crate) fn json_member_mut<'a>(
    m: &'a mut serde_json::Map<String, serde_json::Value>,
    key: &str,
) -> (r: Option<&'a mut serde_json::Value>)
    ensures
        match r {
            Some(x) => {
                &&& json_entries(*old(m)).contains_key(key@)
                &&& json_node(*x) == json_entries(*old(m))[key@]
                &&& json_entries(*final(m)) == json_entries(*old(m)).insert(
                    key@,
                    json_node(*final(x)),
                )
            },
            None => !json_entries(*old(m)).contains_key(key@) && *final(m) == *old(m),
        },
{
    m.get_mut(key)
}

/// `serde_json::Map::insert`: puts the value at the key, in place of the value
/// that was there, which it returns.
pub assume_specification[ serde_json::Map::<String, serde_json::Value>::insert ](
    m: &mut serde_json::Map<String, serde_json::Value>,
    k: String,
    v: serde_json::Value,
) -> (r: Option<serde_json::Value>)
    ensures
        json_entries(*final(m)) == json_entries(*old(m)).insert(k@, json_node(v)),
        match r {
            Some(x) => json_entries(*old(m)).contains_key(k@) && json_node(x) == json_entries(
                *old(m),
            )[k@],
            None => !json_entries(*old(m)).contains_key(k@),
        },
;

// ---------------------------------------------------------------------------
// Building
// ---------------------------------------------------------------------------

/// `serde_json::Map::new`: an object without entries.
pub assume_specification[ serde_json::Map::<String, serde_json::Value>::new ]() -> (r:
    serde_json::Map<String, serde_json::Value>)
    ensures
        json_entries(r) == no_members(),
;

/// `serde_json::Value::Object`: the value of an object.
#[verifier::external_body]
pub(crate) fn json_object(m: serde_json::Map<String, serde_json::Value>) -> (r: serde_json::Value)
    ensures
        json_node(r) == JsonNode::Object(json_entries(m)),
{
    serde_json::Value::Object(m)
}

/// `serde_json::Value::Array`: the value of an array.
#[verifier::external_body]
pub(crate) fn json_array(a: Vec<serde_json::Value>) -> (r: serde_json::Value)
    ensures
        json_node(r) == JsonNode::Array(json_nodes(a@)),
{
    serde_json::Value::Array(a)
}

/// `serde_json::Value::String`: the value of a string.
#[verifier::external_body]
pub(crate) fn json_string(s: String) -> (r: serde_json::Value)
    ensures
        json_node(r) == JsonNode::Text(s@),
{
    serde_json::Value::String(s)
}

/// `serde_json::Value::Bool`: a truth value.
#[verifier::external_body]
pub(crate) fn json_bool(b: bool) -> (r: serde_json::Value)
    ensures
        json_node(r) == JsonNode::Bool(b),
{
    serde_json::Value::Bool(b)
}

/// `serde_json::Value::Null`: the literal `null`.
#[verifier::external_body]
pub(crate) fn json_null() -> (r: serde_json::Value)
    ensures
        json_node(r) == JsonNode::Null,
{
    serde_json::Value::Null
}

/// `serde_json::Value::from` of an `i64`: the value of an integer.
#[verifier::external_body]
pub(crate) fn json_integer(n: i64) -> (r: serde_json::Value)
    ensures
        json_node(r) == JsonNode::Integer(n as int),
{
    serde_json::Value::from(n)
}

/// `serde_json::Value::from` of a `usize`: the value of an integer.
#[verifier::external_body]
pub(crate) fn json_count(n: usize) -> (r: serde_json::Value)
    ensures
        json_node(r) == JsonNode::Integer(n as int),
{
    serde_json::Value::from(n)
}

/// The value of a string.
pub fn json_text(s: &str) -> (r: serde_json::Value)
    ensures
        json_node(r) == JsonNode::Text(s@),
{
    json_string(s.to_owned())
}

/// Puts the value at the key.
pub fn put(m: &mut serde_json::Map<String, serde_json::Value>, key: &str, v: serde_json::Value)
    ensures
        json_entries(*final(m)) == json_entries(*old(m)).insert(key@, json_node(v)),
{
    m.insert(key.to_owned(), v);
}

/// The array of the given strings.
pub fn json_texts(items: &Vec<String>) -> (r: serde_json::Value)
    ensures
        json_node(r) == JsonNode::Array(
            Seq::new(items@.len(), |i: int| JsonNode::Text(items@[i]@)),
        ),
{
    let mut out: Vec<serde_json::Value> = Vec::new();
    let mut i: usize = 0;
    while i < items.len()
        invariant
            i <= items@.len(),
            out@.len() == i,
            forall|k: int|
                0 <= k < i ==> json_node(#[trigger] out@[k]) == JsonNode::Text(items@[k]@),
        decreases items.len() - i,
    {
        out.push(json_text(&items[i]));
        i += 1;
    }
    assert(json_nodes(out@) =~= Seq::new(items@.len(), |i: int| JsonNode::Text(items@[i]@)));
    json_array(out)
}

// ---------------------------------------------------------------------------
// Text
// ---------------------------------------------------------------------------

/// `serde_json::from_str` to a `Value`: reads a text as JSON. What it reads is
/// named, not stated.
#[verifier::external_body]
pub(crate) fn parse_json(text: &str) -> (r: Result<serde_json::Value, serde_json::Error>)
    ensures
        json_parsed(text@) == (match r {
            Ok(v) => Some(json_node(v)),
            Err(_) => None::<JsonNode>,
        }),
{
    serde_json::from_str(text)
}

/// `serde_json::to_string_pretty` of a `Value`: the indented text of a value,
/// which every value has. The text is named, not stated. It holds no carriage
/// return: the writer ends lines with a line feed and writes control characters
/// in strings as escapes. Reading the text, alone or with a line feed behind it,
/// gives the value back where it holds no fraction and is not deeper than the
/// reader goes, which is 127 levels.
#[verifier::external_body]
pub(crate) fn print_json(v: &serde_json::Value) -> (r: Result<String, serde_json::Error>)
    ensures
        r is Ok,
        r matches Ok(s) ==> s@ == json_pretty(json_node(*v)),
        r matches Ok(s) ==> !s@.contains('\r'),
        r matches Ok(s) ==> (plain_json(json_node(*v), 100) ==> json_parsed(s@) == Some(
            json_node(*v),
        ) && json_parsed(s@.push('\n')) == Some(json_node(*v))),
{
    serde_json::to_string_pretty(v)
}

/// `serde_json::to_string` of a `Value`: the text of a value without blanks,
/// which every value has. The text is named, not stated. It is one line: the
/// writer writes no line feed, and control characters in strings as escapes.
/// Reading the text gives the value back where it holds no fraction and is not
/// deeper than the reader goes, which is 127 levels.
#[verifier::external_body]
pub(crate) fn print_json_line(v: &serde_json::Value) -> (r: Result<String, serde_json::Error>)
    ensures
        r is Ok,
        r matches Ok(s) ==> s@ == json_compact(json_node(*v)),
        r matches Ok(s) ==> !s@.contains('\n'),
        r matches Ok(s) ==> (plain_json(json_node(*v), 100) ==> json_parsed(s@) == Some(
            json_node(*v),
        )),
{
    serde_json::to_string(v)
}

} // verus!
