//! JSON values.

use vstd::prelude::*;
use crate::document::{
    carries, close_document, document_tree, in_key_order, json_parse, json_refusal,
    json_text, numeral, open_document, parse_document, precedes, print_document, read_number, Node,
};
use crate::tree::{
    is_nonzero, is_zero_float, same_number, same_tree, Numeral, Tree, NEGATIVE_ZERO,
};

verus! {

/// A JSON value.
#[derive(Debug)]
pub enum Json {
    Null,
    Bool(bool),
    Number(serde_json::Number),
    String(String),
    Array(Vec<Json>),
    Object(Object),
}

/// The entries of a JSON object, in the order of their keys.
#[derive(Debug)]
pub struct Object {
    entries: Vec<(String, Json)>,
}

impl Object {
    /// The entries.
    pub closed spec fn list(self) -> Seq<(String, Json)> {
        self.entries@
    }

    #[verifier::type_invariant]
    spec fn keys_ascend(self) -> bool {
        in_key_order(self.entries@)
    }
}

/// The value that a `Json` stands for.
pub open spec fn tree_of(value: Json) -> Tree
    decreases value,
{
    match value {
        Json::Null => Tree::Null,
        Json::Bool(b) => Tree::Bool(b),
        Json::Number(n) => Tree::Number(numeral(n)),
        Json::String(s) => Tree::String(s@),
        Json::Array(items) => Tree::Array(
            Seq::new(
                items@.len(),
                |i: int|
                    if 0 <= i < items@.len() {
                        tree_of(items@[i])
                    } else {
                        Tree::Null
                    },
            ),
        ),
        Json::Object(object) => Tree::Object(
            Seq::new(
                object.list().len(),
                |i: int|
                    if 0 <= i < object.list().len() {
                        (object.list()[i].0@, tree_of(object.list()[i].1))
                    } else {
                        (Seq::empty(), Tree::Null)
                    },
            ),
        ),
    }
}

impl View for Json {
    type V = Tree;

    open spec fn view(&self) -> Tree {
        tree_of(*self)
    }
}

/// An item of an array is a smaller value than the array.
proof fn lemma_item_is_smaller(value: Json, i: int)
    requires
        value is Array,
        0 <= i < value->Array_0@.len(),
    ensures
        decreases_to!(value => value->Array_0@[i]),
{
    assert(decreases_to!(value => value->Array_0));
    assert(decreases_to!(value->Array_0 => value->Array_0@));
    assert(decreases_to!(value->Array_0@ => value->Array_0@[i]));
}

/// The value of an entry of an object is a smaller value than the object.
proof fn lemma_entry_is_smaller(value: Json, i: int)
    requires
        value is Object,
        0 <= i < value->Object_0.entries@.len(),
    ensures
        decreases_to!(value => value->Object_0.entries@[i].1),
{
    let object = value->Object_0;
    assert(decreases_to!(value => value->Object_0));
    assert(decreases_to!(object => object.entries));
    assert(decreases_to!(object.entries => object.entries@));
    assert(decreases_to!(object.entries@ => object.entries@[i]));
    assert(decreases_to!(object.entries@[i] => object.entries@[i].1));
}

/// Entries with the same keys stand in the same order.
proof fn lemma_same_keys_same_order<S, T>(a: Seq<(String, S)>, b: Seq<(String, T)>)
    requires
        in_key_order(a),
        a.len() == b.len(),
        forall|i: int| 0 <= i < b.len() ==> (#[trigger] b[i]).0@ == a[i].0@,
    ensures
        in_key_order(b),
{
    assert forall|i: int, j: int| 0 <= i < j < b.len() implies precedes(
        (#[trigger] b[i]).0@,
        (#[trigger] b[j]).0@,
    ) by {
        assert(precedes(a[i].0@, a[j].0@));
    }
}

/// Whether a double is zero, of either sign.
fn float_is_zero(bits: u64) -> (zero: bool)
    ensures
        zero == is_zero_float(bits),
{
    bits == 0 || bits == NEGATIVE_ZERO
}

/// Whether two numbers are the same.
fn numbers_same(a: Numeral, b: Numeral) -> (same: bool)
    ensures
        same == same_number(a, b),
{
    match (a, b) {
        (Numeral::PosInt(x), Numeral::PosInt(y)) => x == y,
        (Numeral::NegInt(x), Numeral::NegInt(y)) => x == y,
        (Numeral::Float(x), Numeral::Float(y)) => x == y || (float_is_zero(x) && float_is_zero(y)),
        _ => false,
    }
}

/// Whether a number differs from zero.
pub(crate) fn number_is_nonzero(number: &serde_json::Number) -> (nonzero: bool)
    ensures
        nonzero == is_nonzero(numeral(*number)),
{
    match read_number(number) {
        Numeral::PosInt(n) => n != 0,
        Numeral::NegInt(n) => n != 0,
        Numeral::Float(bits) => !float_is_zero(bits),
    }
}

impl Json {
    /// The value that a `serde_json` document holds.
    pub fn from_document(document: serde_json::Value) -> (value: Json)
        ensures
            value@ == document_tree(document),
        decreases document_tree(document),
    {
        let ghost whole = document_tree(document);
        match open_document(document) {
            Node::Null => Json::Null,
            Node::Bool(b) => Json::Bool(b),
            Node::Number(n) => Json::Number(n),
            Node::String(s) => Json::String(s),
            Node::Array(parts) => {
                let ghost trees = whole->Array_0;
                let mut items: Vec<Json> = Vec::new();
                for part in it: parts
                    invariant
                        whole == document_tree(document),
                        whole == Tree::Array(trees),
                        trees.len() == it.seq().len(),
                        forall|i: int|
                            0 <= i < trees.len() ==> trees[i] == document_tree(
                                #[trigger] it.seq()[i],
                            ),
                        items.len() == it.index(),
                        forall|i: int|
                            0 <= i < items.len() ==> tree_of(#[trigger] items@[i]) == trees[i],
                {
                    assert(decreases_to!(whole => whole->Array_0));
                    assert(decreases_to!(trees => trees[it.index()]));
                    items.push(Json::from_document(part));
                }
                let value = Json::Array(items);
                assert(value@->Array_0 =~= trees);
                value
            },
            Node::Object(parts) => {
                let ghost trees = whole->Object_0;
                let ghost keys = parts@;
                let mut entries: Vec<(String, Json)> = Vec::new();
                for part in it: parts
                    invariant
                        whole == document_tree(document),
                        whole == Tree::Object(trees),
                        keys == it.seq(),
                        trees.len() == keys.len(),
                        forall|i: int|
                            0 <= i < trees.len() ==> trees[i] == (
                                (#[trigger] keys[i]).0@,
                                document_tree(keys[i].1),
                            ),
                        entries.len() == it.index(),
                        forall|i: int|
                            0 <= i < entries.len() ==> (#[trigger] entries@[i]).0 == keys[i].0
                                && tree_of(entries@[i].1) == trees[i].1,
                {
                    assert(decreases_to!(whole => whole->Object_0));
                    assert(decreases_to!(trees => trees[it.index()]));
                    assert(decreases_to!(trees[it.index()] => trees[it.index()].1));
                    entries.push((part.0, Json::from_document(part.1)));
                }
                proof {
                    lemma_same_keys_same_order(keys, entries@);
                }
                let value = Json::Object(Object { entries });
                assert(value@->Object_0 =~= trees);
                value
            },
        }
    }

    /// A `serde_json` document that holds the value.
    pub fn to_document(&self) -> (document: serde_json::Value)
        ensures
            document_tree(document) == self@,
        decreases self,
    {
        let node = match self {
            Json::Null => Node::Null,
            Json::Bool(b) => Node::Bool(*b),
            Json::Number(n) => Node::Number(n.clone()),
            Json::String(s) => Node::String(s.clone()),
            Json::Array(items) => {
                let mut parts: Vec<serde_json::Value> = Vec::new();
                for i in 0..items.len()
                    invariant
                        *self == Json::Array(*items),
                        parts.len() == i,
                        forall|k: int|
                            0 <= k < parts.len() ==> document_tree(#[trigger] parts@[k])
                                == tree_of(items@[k]),
                {
                    proof {
                        lemma_item_is_smaller(*self, i as int);
                    }
                    parts.push(items[i].to_document());
                }
                let node = Node::Array(parts);
                assert(node.tree()->Array_0 =~= self@->Array_0);
                node
            },
            Json::Object(object) => {
                proof {
                    use_type_invariant(object);
                }
                let entries = &object.entries;
                let mut parts: Vec<(String, serde_json::Value)> = Vec::new();
                for i in 0..entries.len()
                    invariant
                        *self == Json::Object(*object),
                        *entries == object.entries,
                        parts.len() == i,
                        forall|k: int|
                            0 <= k < parts.len() ==> (#[trigger] parts@[k]).0@ == entries@[k].0@
                                && document_tree(parts@[k].1) == tree_of(entries@[k].1),
                {
                    proof {
                        lemma_entry_is_smaller(*self, i as int);
                    }
                    parts.push((entries[i].0.clone(), entries[i].1.to_document()));
                }
                proof {
                    lemma_same_keys_same_order(entries@, parts@);
                }
                let node = Node::Object(parts);
                assert(node.tree()->Object_0 =~= self@->Object_0);
                node
            },
        };
        close_document(node)
    }

    /// Whether two values are the same.
    pub fn same(&self, other: &Json) -> (same: bool)
        ensures
            same == same_tree(self@, other@),
        decreases self,
    {
        match (self, other) {
            (Json::Null, Json::Null) => true,
            (Json::Bool(x), Json::Bool(y)) => *x == *y,
            (Json::Number(x), Json::Number(y)) => numbers_same(read_number(x), read_number(y)),
            (Json::String(x), Json::String(y)) => *x == *y,
            (Json::Array(x), Json::Array(y)) => {
                if x.len() != y.len() {
                    return false;
                }
                for i in 0..x.len()
                    invariant
                        *self == Json::Array(*x),
                        *other == Json::Array(*y),
                        x.len() == y.len(),
                        forall|k: int|
                            0 <= k < i ==> same_tree(
                                #[trigger] self@->Array_0[k],
                                other@->Array_0[k],
                            ),
                {
                    proof {
                        lemma_item_is_smaller(*self, i as int);
                    }
                    assert(self@->Array_0[i as int] == tree_of(x@[i as int]));
                    assert(other@->Array_0[i as int] == tree_of(y@[i as int]));
                    if !x[i].same(&y[i]) {
                        return false;
                    }
                }
                true
            },
            (Json::Object(x), Json::Object(y)) => {
                let (x, y) = (&x.entries, &y.entries);
                if x.len() != y.len() {
                    return false;
                }
                for i in 0..x.len()
                    invariant
                        *self is Object,
                        *other is Object,
                        *x == self->Object_0.entries,
                        *y == other->Object_0.entries,
                        x.len() == y.len(),
                        forall|k: int|
                            0 <= k < i ==> (#[trigger] self@->Object_0[k]).0 == other@->Object_0[k].0
                                && same_tree(self@->Object_0[k].1, other@->Object_0[k].1),
                {
                    proof {
                        lemma_entry_is_smaller(*self, i as int);
                    }
                    assert(self@->Object_0[i as int] == (x@[i as int].0@, tree_of(x@[i as int].1)));
                    assert(other@->Object_0[i as int] == (y@[i as int].0@, tree_of(y@[i as int].1)));
                    if x[i].0 != y[i].0 || !x[i].1.same(&y[i].1) {
                        return false;
                    }
                }
                true
            },
            _ => false,
        }
    }

    /// Parses a JSON text, or says why it is none.
    pub fn parse(text: &str) -> (parsed: Result<Json, String>)
        ensures
            match parsed {
                Ok(value) => json_parse(text@) == Some(value@),
                Err(reason) => json_parse(text@) is None && reason@ == json_refusal(text@),
            },
    {
        match parse_document(text) {
            Ok(document) => Ok(Json::from_document(document)),
            Err(reason) => Err(reason),
        }
    }

    /// The compact JSON text of the value, in one line.
    pub fn to_text(&self) -> (text: String)
        ensures
            text@ == json_text(self@),
            !text@.contains('\n'),
            carries(text@, self@),
            carries(text@.push('\n'), self@),
    {
        print_document(&self.to_document()).unwrap()
    }
}

impl Clone for Json {
    fn clone(&self) -> (copy: Json)
        ensures
            copy@ == self@,
        decreases self,
    {
        match self {
            Json::Null => Json::Null,
            Json::Bool(b) => Json::Bool(*b),
            Json::Number(n) => Json::Number(n.clone()),
            Json::String(s) => Json::String(s.clone()),
            Json::Array(items) => {
                let mut copies: Vec<Json> = Vec::new();
                for i in 0..items.len()
                    invariant
                        *self == Json::Array(*items),
                        copies.len() == i,
                        forall|k: int|
                            0 <= k < copies.len() ==> tree_of(#[trigger] copies@[k]) == tree_of(
                                items@[k],
                            ),
                {
                    proof {
                        lemma_item_is_smaller(*self, i as int);
                    }
                    copies.push(items[i].clone());
                }
                let copy = Json::Array(copies);
                assert(copy@->Array_0 =~= self@->Array_0);
                copy
            },
            Json::Object(object) => {
                proof {
                    use_type_invariant(object);
                }
                let entries = &object.entries;
                let mut copies: Vec<(String, Json)> = Vec::new();
                for i in 0..entries.len()
                    invariant
                        *self == Json::Object(*object),
                        *entries == object.entries,
                        copies.len() == i,
                        forall|k: int|
                            0 <= k < copies.len() ==> (#[trigger] copies@[k]).0@ == entries@[k].0@
                                && tree_of(copies@[k].1) == tree_of(entries@[k].1),
                {
                    proof {
                        lemma_entry_is_smaller(*self, i as int);
                    }
                    copies.push((entries[i].0.clone(), entries[i].1.clone()));
                }
                proof {
                    lemma_same_keys_same_order(entries@, copies@);
                }
                let copy = Json::Object(Object { entries: copies });
                assert(copy@->Object_0 =~= self@->Object_0);
                copy
            },
        }
    }
}

impl PartialEq for Json {
    fn eq(&self, other: &Json) -> (equal: bool) {
        self.same(other)
    }
}

impl vstd::std_specs::cmp::PartialEqSpecImpl for Json {
    open spec fn obeys_eq_spec() -> bool {
        true
    }

    open spec fn eq_spec(&self, other: &Json) -> bool {
        same_tree(self@, other@)
    }
}

/// What a value of each kind stands for.
pub proof fn lemma_values_by_kind(
    b: bool,
    number: serde_json::Number,
    string: String,
    items: Vec<Json>,
    object: Object,
    i: int,
)
    ensures
        Json::Null@ == Tree::Null,
        Json::Bool(b)@ == Tree::Bool(b),
        Json::Number(number)@ == Tree::Number(numeral(number)),
        Json::String(string)@ == Tree::String(string@),
        Json::Array(items)@ is Array && Json::Array(items)@->Array_0.len() == items@.len(),
        0 <= i < items@.len() ==> Json::Array(items)@->Array_0[i] == items@[i]@,
        Json::Object(object)@ is Object && Json::Object(object)@->Object_0.len()
            == object.list().len(),
        0 <= i < object.list().len() ==> Json::Object(object)@->Object_0[i] == (
            object.list()[i].0@,
            object.list()[i].1@,
        ),
{
}

} // verus!
