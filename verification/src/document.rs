//! JSON documents of the `serde_json` crate: parsing, printing, taking one apart and
//! putting one together.

use vstd::prelude::*;
use crate::tree::{Numeral, Tree};

verus! {

/// A JSON number of `serde_json`.
#[verifier::external_type_specification]
#[verifier::external_body]
pub struct ExNumber(serde_json::Number);

/// A JSON document of `serde_json`.
#[verifier::external_type_specification]
#[verifier::external_body]
pub struct ExValue(serde_json::Value);

/// Why `serde_json` could not print.
#[verifier::external_type_specification]
#[verifier::external_body]
pub struct ExError(serde_json::Error);

/// The number that a `serde_json::Number` holds.
pub uninterp spec fn numeral(number: serde_json::Number) -> Numeral;

/// What a `serde_json::Value` holds.
pub uninterp spec fn document_tree(document: serde_json::Value) -> Tree;

/// What a text is as JSON, by `serde_json::from_str`; none if it is no JSON.
pub uninterp spec fn json_parse(text: Seq<char>) -> Option<Tree>;

/// Why a text is no JSON: the text of the error that `serde_json::from_str` gives for it.
pub uninterp spec fn json_refusal(text: Seq<char>) -> Seq<char>;

/// The text that `serde_json::to_string` gives a value.
pub uninterp spec fn json_text(tree: Tree) -> Seq<char>;

/// How deep arrays and objects can nest in a text that `serde_json` parses.
pub const DEPTH_LIMIT: u8 = 127;

/// Whether a value comes back as it was from its text: no double is in it, and arrays and
/// objects nest no deeper than this. (The parser rounds some doubles to a neighbour.)
pub open spec fn comes_back(value: Tree, depth: nat) -> bool
    decreases value,
{
    match value {
        Tree::Number(Numeral::Float(_)) => false,
        Tree::Array(items) => depth > 0 && forall|i: int|
            0 <= i < items.len() ==> comes_back(#[trigger] items[i], (depth - 1) as nat),
        Tree::Object(entries) => depth > 0 && forall|i: int|
            0 <= i < entries.len() ==> comes_back((#[trigger] entries[i]).1, (depth - 1) as nat),
        _ => true,
    }
}

/// Whether a text is parsed as a value, if the value is one that comes back from its text.
pub open spec fn carries(text: Seq<char>, value: Tree) -> bool {
    comes_back(value, DEPTH_LIMIT as nat) ==> json_parse(text) == Some(value)
}

/// Whether one text comes before another: at the first place where they differ it has the
/// smaller code point, or it ends there.
pub open spec fn precedes(a: Seq<char>, b: Seq<char>) -> bool {
    exists|i: int|
        #![trigger a.take(i)]
        0 <= i <= a.len() && i < b.len() && a.take(i) == b.take(i) && (i == a.len() || (
        a[i] as u32) < (b[i] as u32))
}

/// Whether entries stand in the order of their keys, none of them twice.
pub open spec fn in_key_order<T>(entries: Seq<(String, T)>) -> bool {
    forall|i: int, j: int|
        0 <= i < j < entries.len() ==> precedes(
            (#[trigger] entries[i]).0@,
            (#[trigger] entries[j]).0@,
        )
}

/// The outermost layer of a document.
pub enum Node {
    Null,
    Bool(bool),
    Number(serde_json::Number),
    String(String),
    Array(Vec<serde_json::Value>),
    Object(Vec<(String, serde_json::Value)>),
}

impl Node {
    /// The value that this layer and the documents below it make.
    pub open spec fn tree(self) -> Tree {
        match self {
            Node::Null => Tree::Null,
            Node::Bool(b) => Tree::Bool(b),
            Node::Number(n) => Tree::Number(numeral(n)),
            Node::String(s) => Tree::String(s@),
            Node::Array(items) => Tree::Array(items@.map_values(|d| document_tree(d))),
            Node::Object(entries) => Tree::Object(
                entries@.map_values(|e: (String, serde_json::Value)| (e.0@, document_tree(e.1))),
            ),
        }
    }

    /// Whether the entries, where the layer is an object, stand in the order of their keys.
    pub open spec fn in_order(self) -> bool {
        self matches Node::Object(entries) ==> in_key_order(entries@)
    }
}

/// The clone of a `serde_json::Number` is the same number.
pub assume_specification[ <serde_json::Number as Clone>::clone ](
    number: &serde_json::Number,
) -> (copy: serde_json::Number)
    ensures
        numeral(copy) == numeral(*number),
;

/// `serde_json::Number::as_u64` answers with an integer from zero up, and with no other number.
pub assume_specification[ serde_json::Number::as_u64 ](number: &serde_json::Number) -> (integer:
    Option<u64>)
    ensures
        integer == match numeral(*number) {
            Numeral::PosInt(n) => Some(n),
            _ => None,
        },
;

/// `serde_json::Number::as_i64` answers with an integer that fits, and with no other number.
pub assume_specification[ serde_json::Number::as_i64 ](number: &serde_json::Number) -> (integer:
    Option<i64>)
    ensures
        integer == match numeral(*number) {
            Numeral::PosInt(n) => if n <= i64::MAX {
                Some(n as i64)
            } else {
                None
            },
            Numeral::NegInt(n) => Some(n),
            Numeral::Float(_) => None,
        },
;

/// `serde_json::Number::as_f64`, by the bits of the double: of a number that is held as a
/// double it gives that double.
#[verifier::external_body]
fn float_bits(number: &serde_json::Number) -> (bits: Option<u64>)
    requires
        numeral(*number) is Float,
    ensures
        bits == Some(numeral(*number)->Float_0),
{
    number.as_f64().map(|double| double.to_bits())
}

/// The number that a `serde_json::Number` holds.
pub(crate) fn read_number(number: &serde_json::Number) -> (reading: Numeral)
    ensures
        reading == numeral(*number),
{
    if let Some(n) = number.as_u64() {
        return Numeral::PosInt(n);
    }
    if let Some(n) = number.as_i64() {
        return Numeral::NegInt(n);
    }
    Numeral::Float(float_bits(number).unwrap())
}

/// Takes a `serde_json::Value` apart, one layer deep. The layer and the documents below it
/// make the same value. The entries of a `serde_json::Map` come out in the order of their
/// keys, each key once.
#[verifier::external_body]
pub(crate) fn open_document(document: serde_json::Value) -> (node: Node)
    ensures
        node.tree() == document_tree(document),
        node.in_order(),
{
    match document {
        serde_json::Value::Null => Node::Null,
        serde_json::Value::Bool(b) => Node::Bool(b),
        serde_json::Value::Number(n) => Node::Number(n),
        serde_json::Value::String(s) => Node::String(s),
        serde_json::Value::Array(items) => Node::Array(items),
        serde_json::Value::Object(entries) => Node::Object(entries.into_iter().collect()),
    }
}

/// Puts a `serde_json::Value` together out of one layer. The document holds what the layer
/// and the documents below it make. A `serde_json::Map` keeps its entries in the order of
/// their keys, so entries that stand in that order are kept as they are.
#[verifier::external_body]
pub(crate) fn close_document(node: Node) -> (document: serde_json::Value)
    requires
        node.in_order(),
    ensures
        document_tree(document) == node.tree(),
{
    match node {
        Node::Null => serde_json::Value::Null,
        Node::Bool(b) => serde_json::Value::Bool(b),
        Node::Number(n) => serde_json::Value::Number(n),
        Node::String(s) => serde_json::Value::String(s),
        Node::Array(items) => serde_json::Value::Array(items),
        Node::Object(entries) => serde_json::Value::Object(entries.into_iter().collect()),
    }
}

/// `serde_json::from_str`, into a `serde_json::Value`: the document that the text writes
/// down, or, where the text is no JSON document, the text of the error, as `to_string` of
/// `serde_json::Error` gives it. Which texts are documents, and what each of them holds, is a
/// function of the text alone, and so is the text of the error, which says what was wrong and at
/// which line and column; they have the names `json_parse` and `json_refusal` here.
#[verifier::external_body]
pub(crate) fn parse_document(text: &str) -> (parsed: Result<serde_json::Value, String>)
    ensures
        match parsed {
            Ok(document) => json_parse(text@) == Some(document_tree(document)),
            Err(reason) => json_parse(text@) is None && reason@ == json_refusal(text@),
        },
{
    serde_json::from_str(text).map_err(|error: serde_json::Error| error.to_string())
}

/// `serde_json::to_string` of a `serde_json::Value`: the compact JSON text of the document.
/// It depends on what the document holds alone, and has the name `json_text` here. Printing
/// fails on a map with keys other than strings, or where a writer fails; a document has no
/// such map, and the writer is a vector. The text has no line end in it, since strings are
/// written with theirs escaped, and it is parsed as the document again, also with a line end
/// behind it. That is not said of documents with doubles in them, which the parser may round,
/// nor of those that nest deeper than the parser goes.
#[verifier::external_body]
pub(crate) fn print_document(document: &serde_json::Value) -> (printed: Result<
    String,
    serde_json::Error,
>)
    ensures
        printed is Ok,
        printed->Ok_0@ == json_text(document_tree(*document)),
        !printed->Ok_0@.contains('\n'),
        carries(printed->Ok_0@, document_tree(*document)),
        carries(printed->Ok_0@.push('\n'), document_tree(*document)),
{
    serde_json::to_string(document)
}

/// Which values come back from their texts: all that hold no double and nest no deeper than the
/// depth that is left.
pub proof fn lemma_comes_back_by_kind(value: Tree, depth: nat)
    ensures
        value is Null || value is Bool || value is String ==> comes_back(value, depth),
        value matches Tree::Number(number) ==> comes_back(value, depth) == !(number is Float),
        value matches Tree::Array(items) ==> comes_back(value, depth) == (depth > 0 && forall|
            i: int,
        |
            0 <= i < items.len() ==> comes_back(#[trigger] items[i], (depth - 1) as nat)),
        value matches Tree::Object(entries) ==> comes_back(value, depth) == (depth > 0 && forall|
            i: int,
        |
            0 <= i < entries.len() ==> comes_back((#[trigger] entries[i]).1, (depth - 1) as nat)),
{
}

/// Entries that stand in the order of their keys have no key twice.
pub proof fn lemma_keys_in_order_differ<T>(entries: Seq<(String, T)>, i: int, j: int)
    requires
        in_key_order(entries),
        0 <= i < entries.len(),
        0 <= j < entries.len(),
        i != j,
    ensures
        entries[i].0@ != entries[j].0@,
{
    let (first, second) = if i < j {
        (entries[i].0@, entries[j].0@)
    } else {
        (entries[j].0@, entries[i].0@)
    };
    assert(precedes(first, second));
}

} // verus!
