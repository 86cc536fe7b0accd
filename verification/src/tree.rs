//! The mathematical model of a JSON value, and when two values are the same.

use vstd::prelude::*;

verus! {

/// What a JSON number is: an integer, or a finite double given by its bits.
#[derive(Clone, Copy, Debug, PartialEq, Eq, Structural)]
pub enum Numeral {
    /// An integer from zero up.
    PosInt(u64),
    /// An integer below zero.
    NegInt(i64),
    /// A double, as its IEEE 754 bits.
    Float(u64),
}

/// The bits of negative zero.
pub const NEGATIVE_ZERO: u64 = 0x8000_0000_0000_0000;

/// Whether these are the bits of a double that is zero, of either sign.
pub open spec fn is_zero_float(bits: u64) -> bool {
    bits == 0 || bits == NEGATIVE_ZERO
}

/// Whether a number differs from zero.
pub open spec fn is_nonzero(number: Numeral) -> bool {
    match number {
        Numeral::PosInt(n) => n != 0,
        Numeral::NegInt(n) => n != 0,
        Numeral::Float(bits) => !is_zero_float(bits),
    }
}

/// Whether two numbers are the same: of one kind and numerically equal. Doubles are
/// finite here, so they are equal when their bits are, or when both are zero.
pub open spec fn same_number(a: Numeral, b: Numeral) -> bool {
    match (a, b) {
        (Numeral::PosInt(x), Numeral::PosInt(y)) => x == y,
        (Numeral::NegInt(x), Numeral::NegInt(y)) => x == y,
        (Numeral::Float(x), Numeral::Float(y)) => x == y || (is_zero_float(x) && is_zero_float(
            y,
        )),
        _ => false,
    }
}

/// A JSON value. The entries of an object stand in the order of their keys.
pub enum Tree {
    Null,
    Bool(bool),
    Number(Numeral),
    String(Seq<char>),
    Array(Seq<Tree>),
    Object(Seq<(Seq<char>, Tree)>),
}

/// Whether two values are the same: equal, but for the sign of a zero in them.
pub open spec fn same_tree(a: Tree, b: Tree) -> bool
    decreases a,
{
    match (a, b) {
        (Tree::Null, Tree::Null) => true,
        (Tree::Bool(x), Tree::Bool(y)) => x == y,
        (Tree::Number(x), Tree::Number(y)) => same_number(x, y),
        (Tree::String(x), Tree::String(y)) => x == y,
        (Tree::Array(x), Tree::Array(y)) => {
            &&& x.len() == y.len()
            &&& forall|i: int| 0 <= i < x.len() ==> same_tree(#[trigger] x[i], y[i])
        },
        (Tree::Object(x), Tree::Object(y)) => {
            &&& x.len() == y.len()
            &&& forall|i: int|
                0 <= i < x.len() ==> (#[trigger] x[i]).0 == y[i].0 && same_tree(x[i].1, y[i].1)
        },
        _ => false,
    }
}

/// Every value is the same as itself.
pub proof fn lemma_same_tree_reflexive(a: Tree)
    ensures
        same_tree(a, a),
    decreases a,
{
    match a {
        Tree::Array(x) => {
            assert forall|i: int| 0 <= i < x.len() implies same_tree(#[trigger] x[i], x[i]) by {
                lemma_same_tree_reflexive(x[i]);
            }
        },
        Tree::Object(x) => {
            assert forall|i: int| 0 <= i < x.len() implies same_tree(
                (#[trigger] x[i]).1,
                x[i].1,
            ) by {
                lemma_same_tree_reflexive(x[i].1);
            }
        },
        _ => {},
    }
}

/// Sameness does not depend on which of the two values comes first.
pub proof fn lemma_same_tree_symmetric(a: Tree, b: Tree)
    requires
        same_tree(a, b),
    ensures
        same_tree(b, a),
    decreases a,
{
    match (a, b) {
        (Tree::Array(x), Tree::Array(y)) => {
            assert forall|i: int| 0 <= i < y.len() implies same_tree(#[trigger] y[i], x[i]) by {
                lemma_same_tree_symmetric(x[i], y[i]);
            }
        },
        (Tree::Object(x), Tree::Object(y)) => {
            assert forall|i: int| 0 <= i < y.len() implies (#[trigger] y[i]).0 == x[i].0
                && same_tree(y[i].1, x[i].1) by {
                assert(x[i].0 == y[i].0);
                lemma_same_tree_symmetric(x[i].1, y[i].1);
            }
        },
        _ => {},
    }
}

/// Two values that are the same as a third are the same as each other.
pub proof fn lemma_same_tree_transitive(a: Tree, b: Tree, c: Tree)
    requires
        same_tree(a, b),
        same_tree(b, c),
    ensures
        same_tree(a, c),
    decreases a,
{
    match (a, b, c) {
        (Tree::Array(x), Tree::Array(y), Tree::Array(z)) => {
            assert forall|i: int| 0 <= i < x.len() implies same_tree(#[trigger] x[i], z[i]) by {
                assert(same_tree(y[i], z[i]));
                lemma_same_tree_transitive(x[i], y[i], z[i]);
            }
        },
        (Tree::Object(x), Tree::Object(y), Tree::Object(z)) => {
            assert forall|i: int| 0 <= i < x.len() implies (#[trigger] x[i]).0 == z[i].0
                && same_tree(x[i].1, z[i].1) by {
                assert(y[i].0 == z[i].0);
                lemma_same_tree_transitive(x[i].1, y[i].1, z[i].1);
            }
        },
        _ => {},
    }
}

/// Whether no double is anywhere in a value.
pub open spec fn without_doubles(value: Tree) -> bool
    decreases value,
{
    match value {
        Tree::Number(number) => !(number is Float),
        Tree::Array(items) => forall|i: int|
            0 <= i < items.len() ==> without_doubles(#[trigger] items[i]),
        Tree::Object(entries) => forall|i: int|
            0 <= i < entries.len() ==> without_doubles((#[trigger] entries[i]).1),
        _ => true,
    }
}

/// Sameness tells values apart: without doubles, only equal values are the same.
pub proof fn lemma_same_without_doubles_is_equal(a: Tree, b: Tree)
    requires
        same_tree(a, b),
        without_doubles(a),
    ensures
        a == b,
    decreases a,
{
    match (a, b) {
        (Tree::Array(x), Tree::Array(y)) => {
            assert forall|i: int| 0 <= i < x.len() implies x[i] == y[i] by {
                lemma_same_without_doubles_is_equal(x[i], y[i]);
            }
            assert(x =~= y);
        },
        (Tree::Object(x), Tree::Object(y)) => {
            assert forall|i: int| 0 <= i < x.len() implies x[i] == y[i] by {
                lemma_same_without_doubles_is_equal(x[i].1, y[i].1);
            }
            assert(x =~= y);
        },
        _ => {},
    }
}

/// Which values are the same as a value of each kind. Only the two zeros among the doubles, and
/// what holds them, are the same without being equal.
pub proof fn lemma_sameness_by_kind(a: Tree, b: Tree)
    ensures
        same_tree(a, b) == match a {
            Tree::Number(Numeral::Float(x)) => {
                ||| b == a
                ||| {
                    &&& x == 0 || x == 0x8000_0000_0000_0000u64
                    &&& b == Tree::Number(Numeral::Float(0)) || b == Tree::Number(
                        Numeral::Float(0x8000_0000_0000_0000u64),
                    )
                }
            },
            Tree::Array(x) => b is Array && {
                let y = b->Array_0;
                &&& x.len() == y.len()
                &&& forall|i: int| 0 <= i < x.len() ==> same_tree(#[trigger] x[i], y[i])
            },
            Tree::Object(x) => b is Object && {
                let y = b->Object_0;
                &&& x.len() == y.len()
                &&& forall|i: int|
                    0 <= i < x.len() ==> (#[trigger] x[i]).0 == y[i].0 && same_tree(
                        x[i].1,
                        y[i].1,
                    )
            },
            _ => b == a,
        },
{
}

} // verus!
