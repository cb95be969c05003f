//! JSON documents, as the `serde_json` crate holds, reads and writes them.
//!
//! A document is a `serde_json::Value`. What it holds has the name `json_tree`; what the crate's
//! methods do is stated over that name, and everything else in this crate reads documents
//! through the functions of this module.

use crate::binary64;
use serde_json::Value;
use vstd::prelude::*;

verus! {

/// A JSON number.
///
/// It is a natural number, a negative whole number or a double; the three readings of it tell
/// which.
pub ghost struct JsonNumber {
    /// The number as a `u64`, where it is a natural number.
    pub natural: Option<u64>,
    /// The number as an `i64`, where it is whole and in range.
    pub whole: Option<i64>,
    /// The bits of the double that is nearest to the number.
    pub double: u64,
}

/// What a JSON document holds.
pub ghost enum JsonTree {
    Null,
    Flag(bool),
    Number(JsonNumber),
    Text(Seq<char>),
    List(Seq<JsonTree>),
    Object(Map<Seq<char>, JsonTree>),
}

impl JsonTree {
    /// The value under `key`, where the document is an object that has one.
    pub open spec fn field(self, key: Seq<char>) -> Option<JsonTree> {
        match self {
            JsonTree::Object(fields) => if fields.contains_key(key) {
                Some(fields[key])
            } else {
                None
            },
            _ => None,
        }
    }

    /// The document as a natural number.
    pub open spec fn natural(self) -> Option<u64> {
        match self {
            JsonTree::Number(n) => n.natural,
            _ => None,
        }
    }

    /// The bits of the double that the document stands for.
    pub open spec fn double(self) -> Option<u64> {
        match self {
            JsonTree::Number(n) => Some(n.double),
            _ => None,
        }
    }

    /// The document as a text.
    pub open spec fn text(self) -> Option<Seq<char>> {
        match self {
            JsonTree::Text(s) => Some(s),
            _ => None,
        }
    }

    /// The document as a list.
    pub open spec fn list(self) -> Option<Seq<JsonTree>> {
        match self {
            JsonTree::List(items) => Some(items),
            _ => None,
        }
    }
}

/// The JSON document of the `serde_json` crate.
#[verifier::external_type_specification]
#[verifier::external_body]
pub struct ExValue(serde_json::Value);

/// What a document of the `serde_json` crate holds.
pub uninterp spec fn json_tree(value: serde_json::Value) -> JsonTree;

/// What the items of a list of documents hold.
pub open spec fn json_trees(values: Seq<Value>) -> Seq<JsonTree> {
    Seq::new(values.len(), |i: int| json_tree(values[i]))
}

/// What an optional document holds.
pub open spec fn json_tree_of(value: Option<Value>) -> Option<JsonTree> {
    match value {
        Some(v) => Some(json_tree(v)),
        None => None,
    }
}

/// `serde_json::Value::get` with a text: the value under `key`, where the document is an object
/// that has one, and nothing otherwise.
#[verifier::external_body]
pub(crate) fn field<'a>(value: &'a Value, key: &str) -> (found: Option<&'a Value>)
    ensures
        found matches Some(v) ==> json_tree(*value).field(key@) == Some(json_tree(*v)),
        found is None ==> json_tree(*value).field(key@) is None,
{
    value.get(key)
}

/// `serde_json::Value::as_u64`: the number, where the document is a natural number.
pub assume_specification[ serde_json::Value::as_u64 ](value: &Value) -> (n: Option<u64>)
    ensures
        n == json_tree(*value).natural(),
;

/// `serde_json::Value::as_f64`: the double that a number stands for, here by its bits.
#[verifier::external_body]
pub(crate) fn double_bits(value: &Value) -> (bits: Option<u64>)
    ensures
        bits == json_tree(*value).double(),
{
    match value.as_f64() {
        Some(double) => Some(double.to_bits()),
        None => None,
    }
}

/// `serde_json::Value::as_array`: the items, where the document is a list.
#[verifier::external_body]
pub(crate) fn items(value: &Value) -> (found: Option<&Vec<Value>>)
    ensures
        found matches Some(values) ==> json_tree(*value).list() == Some(json_trees(values@)),
        found is None ==> json_tree(*value).list() is None,
{
    value.as_array()
}

/// `serde_json::Value::as_str`: the text, where the document is one.
#[verifier::external_body]
pub(crate) fn text(value: &Value) -> (found: Option<&str>)
    ensures
        found matches Some(s) ==> json_tree(*value).text() == Some(s@),
        found is None ==> json_tree(*value).text() is None,
{
    value.as_str()
}

/// `Clone` of `serde_json::Value`: a document that holds the same.
pub assume_specification[ <serde_json::Value as Clone>::clone ](value: &Value) -> (copy: Value)
    ensures
        json_tree(copy) == json_tree(*value),
;

/// The document that a text stands for, or nothing where the text is no JSON.
pub uninterp spec fn parsed_text(text: Seq<char>) -> Option<JsonTree>;

/// `serde_json::from_str` into a document: what a text stands for.
#[verifier::external_body]
pub(crate) fn parse_text(text: &str) -> (found: Option<Value>)
    ensures
        json_tree_of(found) == parsed_text(text@),
{
    serde_json::from_str(text).ok()
}

/// The bytes in which a document is written, or nothing where it cannot be.
pub uninterp spec fn rendered(tree: JsonTree) -> Option<Seq<u8>>;

/// `serde_json::to_vec` of a document: the bytes in which it is written, without white space
/// and with the fields of an object in the order of their keys.
#[verifier::external_body]
pub(crate) fn render(value: &Value) -> (bytes: Option<Vec<u8>>)
    ensures
        bytes matches Some(b) ==> rendered(json_tree(*value)) == Some(b@),
        bytes is None ==> rendered(json_tree(*value)) is None,
{
    serde_json::to_vec(value).ok()
}

/// How deep lists and objects may lie in each other in what `serde_json` reads.
pub const DEEPEST: usize = 127;

/// Where a reader of JSON stands between two bytes.
pub ghost struct Scan {
    /// How many lists and objects are open.
    pub open: int,
    /// The most that ever were.
    pub deepest: int,
    /// Whether a text has begun and not ended.
    pub quoted: bool,
    /// Whether the next character of that text is escaped.
    pub escaped: bool,
}

/// Where a reader of JSON stands behind the bytes.
pub open spec fn scan(bytes: Seq<u8>) -> Scan
    decreases bytes.len(),
{
    if bytes.len() == 0 {
        Scan { open: 0, deepest: 0, quoted: false, escaped: false }
    } else {
        let s = scan(bytes.drop_last());
        let b = bytes.last();
        if s.quoted && s.escaped {
            Scan { escaped: false, ..s }
        } else if s.quoted {
            Scan { quoted: b != 0x22, escaped: b == 0x5C, ..s }
        } else if b == 0x22 {
            Scan { quoted: true, ..s }
        } else if b == 0x5B || b == 0x7B {
            Scan {
                open: s.open + 1,
                deepest: if s.open + 1 > s.deepest {
                    s.open + 1
                } else {
                    s.deepest
                },
                ..s
            }
        } else if b == 0x5D || b == 0x7D {
            Scan { open: s.open - 1, ..s }
        } else {
            s
        }
    }
}

/// How deep lists and objects lie in each other in bytes that are JSON.
pub open spec fn nesting(bytes: Seq<u8>) -> int {
    scan(bytes).deepest
}

/// Whether lists and objects lie no more than `n` deep in each other in a document.
pub open spec fn nested_within(tree: JsonTree, n: nat) -> bool
    decreases n,
{
    match tree {
        JsonTree::List(items) => n > 0 && forall|i: int|
            0 <= i < items.len() ==> nested_within(#[trigger] items[i], (n - 1) as nat),
        JsonTree::Object(fields) => n > 0 && forall|key: Seq<char>|
            fields.contains_key(key) ==> nested_within(#[trigger] fields[key], (n - 1) as nat),
        _ => true,
    }
}

/// Whether all numbers down to `n` lists and objects deep are whole, and nothing lies deeper.
pub open spec fn whole_within(tree: JsonTree, n: nat) -> bool
    decreases n,
{
    match tree {
        JsonTree::Number(number) => number.natural is Some || number.whole is Some,
        JsonTree::List(items) => n > 0 && forall|i: int|
            0 <= i < items.len() ==> whole_within(#[trigger] items[i], (n - 1) as nat),
        JsonTree::Object(fields) => n > 0 && forall|key: Seq<char>|
            fields.contains_key(key) ==> whole_within(#[trigger] fields[key], (n - 1) as nat),
        _ => true,
    }
}

/// Whether a number is not whole, or too large to be taken for whole.
pub open spec fn is_fraction(number: JsonNumber) -> bool {
    number.natural is None && number.whole is None
}

/// Whether two documents, with lists and objects no more than `n` deep in each other, are the
/// same but for the values of fractions.
pub open spec fn alike(a: JsonTree, b: JsonTree, n: nat) -> bool
    decreases n,
{
    match (a, b) {
        (JsonTree::Number(x), JsonTree::Number(y)) => if is_fraction(x) {
            is_fraction(y)
        } else {
            x == y
        },
        (JsonTree::List(xs), JsonTree::List(ys)) => n > 0 && xs.len() == ys.len() && forall|i: int|
            0 <= i < xs.len() ==> alike(#[trigger] xs[i], #[trigger] ys[i], (n - 1) as nat),
        (JsonTree::Object(xs), JsonTree::Object(ys)) => n > 0 && xs.dom() == ys.dom()
            && forall|key: Seq<char>|
            xs.contains_key(key) ==> alike(
                #[trigger] xs[key],
                #[trigger] ys[key],
                (n - 1) as nat,
            ),
        _ => a == b,
    }
}

/// Documents that are the same but for the values of fractions are the same where there are none.
pub proof fn law_alike_without_fractions(a: JsonTree, b: JsonTree, n: nat)
    requires
        alike(a, b, n),
        whole_within(a, n),
    ensures
        a == b,
    decreases n,
{
    match (a, b) {
        (JsonTree::List(xs), JsonTree::List(ys)) => {
            assert forall|i: int| 0 <= i < xs.len() implies xs[i] == ys[i] by {
                law_alike_without_fractions(xs[i], ys[i], (n - 1) as nat);
            }
            assert(xs =~= ys);
        },
        (JsonTree::Object(xs), JsonTree::Object(ys)) => {
            assert forall|key: Seq<char>| xs.contains_key(key) implies xs[key] == ys[key] by {
                law_alike_without_fractions(xs[key], ys[key], (n - 1) as nat);
            }
            assert(xs =~= ys);
        },
        _ => {},
    }
}

/// An object of two fields, the first of which was written beforehand.
pub ghost struct JsonPair {
    pub first_key: Seq<char>,
    /// The text of the first field.
    pub first: Seq<char>,
    pub second_key: Seq<char>,
    /// What the second field holds.
    pub second: JsonTree,
}

/// Whether a key can be written as it is: it is made of small letters alone.
pub open spec fn is_plain_key(key: Seq<char>) -> bool {
    forall|i: int| #![trigger key[i]] 0 <= i < key.len() ==> 'a' <= key[i] <= 'z'
}

impl JsonPair {
    /// The bytes of the object, where the second field can be written.
    pub open spec fn bytes(self) -> Seq<u8> {
        vstd::utf8::encode_utf8("{\""@) + vstd::utf8::encode_utf8(self.first_key)
            + vstd::utf8::encode_utf8("\":"@) + vstd::utf8::encode_utf8(self.first)
            + vstd::utf8::encode_utf8(",\""@) + vstd::utf8::encode_utf8(self.second_key)
            + vstd::utf8::encode_utf8("\":"@) + rendered(self.second)->Some_0
            + vstd::utf8::encode_utf8("}"@)
    }

    /// Whether both fields are JSON, under different keys that can be written as they are, and
    /// neither lies so deep that it cannot be read inside an object.
    pub open spec fn is_sound(self) -> bool {
        &&& is_plain_key(self.first_key)
        &&& is_plain_key(self.second_key)
        &&& self.first_key != self.second_key
        &&& parsed_text(self.first) is Some
        &&& nesting(vstd::utf8::encode_utf8(self.first)) < DEEPEST
        &&& rendered(self.second) is Some
        &&& nested_within(self.second, (DEEPEST - 1) as nat)
    }

    /// Whether a document is the object: the first field holds what its text stands for, and
    /// the second one what it held, but for the values of fractions.
    pub open spec fn reads_as(self, tree: JsonTree) -> bool {
        &&& tree.field(self.first_key) == parsed_text(self.first)
        &&& tree.field(self.second_key) is Some
        &&& alike(
            self.second,
            tree.field(self.second_key)->Some_0,
            (DEEPEST - 1) as nat,
        )
    }
}

/// The document that a file stands for, or nothing where its bytes are no JSON.
pub uninterp spec fn parsed_bytes(bytes: Seq<u8>) -> Option<JsonTree>;

/// `serde_json::from_slice` into a document: what the bytes of a file stand for.
///
/// The bytes of a text are read as `serde_json::from_str` reads the text. The bytes of an object
/// of two fields are read as that object, as long as lists and objects do not lie too deep in
/// each other: a field holds what its text alone would be read as. For a field that
/// `serde_json::to_vec` wrote this is what was written, with fractions in place of fractions;
/// nothing is claimed of the value of a fraction, the last bit of which may change.
#[verifier::external_body]
pub(crate) fn parse_bytes(bytes: &[u8]) -> (found: Option<Value>)
    ensures
        json_tree_of(found) == parsed_bytes(bytes@),
        forall|t: Seq<char>|
            bytes@ == #[trigger] vstd::utf8::encode_utf8(t) ==> json_tree_of(found)
                == parsed_text(t),
        forall|pair: JsonPair|
            bytes@ == #[trigger] pair.bytes() && pair.is_sound() ==> found is Some
                && pair.reads_as(json_tree(found->Some_0)),
{
    serde_json::from_slice(bytes).ok()
}

/// What the document of a natural number holds.
pub open spec fn natural_tree(n: u64) -> JsonTree {
    JsonTree::Number(
        JsonNumber {
            natural: Some(n),
            whole: if n <= i64::MAX {
                Some(n as i64)
            } else {
                None
            },
            double: binary64::bits_of_whole(n as nat) as u64,
        },
    )
}

/// `serde_json::Value::from` of a `u64`: the document of a natural number.
#[verifier::external_body]
pub(crate) fn natural(n: u64) -> (value: Value)
    ensures
        json_tree(value) == natural_tree(n),
{
    Value::from(n)
}

/// `serde_json::Value::from` of a `String`: the document of a text.
#[verifier::external_body]
pub(crate) fn text_value(s: String) -> (value: Value)
    ensures
        json_tree(value) == JsonTree::Text(s@),
{
    Value::from(s)
}

/// `serde_json::Value::from` of a `Vec`: the document of a list.
#[verifier::external_body]
pub(crate) fn list(values: Vec<Value>) -> (value: Value)
    ensures
        json_tree(value) == JsonTree::List(json_trees(values@)),
{
    Value::from(values)
}

/// `serde_json::Value::from` of `()`: the document that holds nothing.
#[verifier::external_body]
pub(crate) fn null() -> (value: Value)
    ensures
        json_tree(value) == JsonTree::Null,
{
    Value::from(())
}

/// The map from keys to documents of the `serde_json` crate.
#[verifier::external_type_specification]
#[verifier::external_body]
#[verifier::reject_recursive_types(K)]
#[verifier::reject_recursive_types(V)]
pub struct ExMap<K, V>(serde_json::Map<K, V>);

/// What a map of the `serde_json` crate holds.
pub uninterp spec fn json_fields(map: serde_json::Map<String, Value>) -> Map<Seq<char>, JsonTree>;

/// `serde_json::Map::new`: a map without fields.
#[verifier::external_body]
pub(crate) fn no_fields() -> (map: serde_json::Map<String, Value>)
    ensures
        json_fields(map).dom() == Set::<Seq<char>>::empty(),
{
    serde_json::Map::new()
}

/// `serde_json::Map::insert`: sets a field, in place of the one that had the key before.
#[verifier::external_body]
pub(crate) fn set_field(map: &mut serde_json::Map<String, Value>, key: &str, value: Value)
    ensures
        json_fields(*final(map)) == json_fields(*old(map)).insert(key@, json_tree(value)),
{
    map.insert(key.to_owned(), value);
}

/// `serde_json::Value::from` of a map: the document of an object.
#[verifier::external_body]
pub(crate) fn object(map: serde_json::Map<String, Value>) -> (value: Value)
    ensures
        json_tree(value) == JsonTree::Object(json_fields(map)),
{
    Value::from(map)
}

/// The document of a natural number, or the one that holds nothing.
pub open spec fn natural_or_null(n: Option<u64>) -> JsonTree {
    match n {
        Some(n) => natural_tree(n),
        None => JsonTree::Null,
    }
}

/// The document of a natural number, or the one that holds nothing.
pub(crate) fn natural_or_null_value(n: Option<u64>) -> (value: Value)
    ensures
        json_tree(value) == natural_or_null(n),
{
    match n {
        Some(n) => natural(n),
        None => null(),
    }
}

/// A copy of a document, or the document that holds nothing.
pub open spec fn tree_or_null(tree: Option<JsonTree>) -> JsonTree {
    match tree {
        Some(t) => t,
        None => JsonTree::Null,
    }
}

/// A copy of the value under `key`, or the document that holds nothing.
pub(crate) fn field_or_null(value: &Value, key: &str) -> (copy: Value)
    ensures
        json_tree(copy) == tree_or_null(json_tree(*value).field(key@)),
{
    match field(value, key) {
        Some(v) => v.clone(),
        None => null(),
    }
}

/// The bytes in which a document is written, or those of an empty object where it cannot be.
pub open spec fn rendered_or_empty(tree: JsonTree) -> Seq<u8> {
    match rendered(tree) {
        Some(bytes) => bytes,
        None => vstd::utf8::encode_utf8("{}"@),
    }
}

/// The bytes in which a document is written, or those of an empty object where it cannot be.
pub(crate) fn render_or_empty(value: &Value) -> (bytes: Vec<u8>)
    ensures
        bytes@ == rendered_or_empty(json_tree(*value)),
{
    match render(value) {
        Some(bytes) => bytes,
        None => "{}".as_bytes_vec(),
    }
}

} // verus!
