//! The operators that combine two stored values into one.

use vstd::prelude::*;
use crate::json::Json;
use crate::tree::{is_nonzero, same_tree, Numeral, Tree};

verus! {

/// An operator on two values.
#[derive(Clone, Copy, Debug, PartialEq, Eq, Structural)]
pub enum Operation {
    Or,
    And,
}

/// What an operator reads of a value: a number counts as true when it is not zero, a boolean
/// counts as itself, and any other value has no truth.
pub open spec fn truth(value: Tree) -> Option<bool> {
    match value {
        Tree::Number(n) => Some(is_nonzero(n)),
        Tree::Bool(b) => Some(b),
        _ => None,
    }
}

impl Operation {
    /// How the operator is written.
    pub open spec fn text(self) -> Seq<char> {
        match self {
            Operation::Or => "or"@,
            Operation::And => "and"@,
        }
    }

    /// The operator that is written like this, if there is one.
    pub open spec fn named(text: Seq<char>) -> Option<Operation> {
        if text == "or"@ {
            Some(Operation::Or)
        } else if text == "and"@ {
            Some(Operation::And)
        } else {
            None
        }
    }

    /// What the operator makes of two values. Conjunction needs a truth of both of them and
    /// is null without; disjunction takes a missing truth for false.
    pub open spec fn applied(self, left: Tree, right: Tree) -> Tree {
        match self {
            Operation::And => match (truth(left), truth(right)) {
                (Some(a), Some(b)) => Tree::Bool(a && b),
                _ => Tree::Null,
            },
            Operation::Or => Tree::Bool(
                truth(left) == Some(true) || truth(right) == Some(true),
            ),
        }
    }

    /// Reads an operator.
    pub fn parse(op: &str) -> (parsed: Option<Operation>)
        ensures
            parsed == Operation::named(op@),
    {
        if *op == *"or" {
            Some(Operation::Or)
        } else if *op == *"and" {
            Some(Operation::And)
        } else {
            None
        }
    }

    /// Combines two values.
    pub fn apply(self, op1: Json, op2: Json) -> (result: Json)
        ensures
            result@ == self.applied(op1@, op2@),
    {
        let op1 = op1.truth();
        let op2 = op2.truth();
        match self {
            Operation::And => match (op1, op2) {
                (Some(a), Some(b)) => Json::Bool(a && b),
                _ => Json::Null,
            },
            Operation::Or => match (op1, op2) {
                (Some(true), _) => Json::Bool(true),
                (_, Some(true)) => Json::Bool(true),
                _ => Json::Bool(false),
            },
        }
    }

    /// Writes the operator.
    pub fn to_text(self) -> (text: &'static str)
        ensures
            text@ == self.text(),
    {
        match self {
            Operation::Or => "or",
            Operation::And => "and",
        }
    }
}

impl Json {
    /// What an operator reads of the value.
    pub fn truth(&self) -> (read: Option<bool>)
        ensures
            read == truth(self@),
    {
        match self {
            Json::Number(n) => Some(crate::json::number_is_nonzero(n)),
            Json::Bool(b) => Some(*b),
            _ => None,
        }
    }
}

/// What an operator is written as is read as that operator, and as no other.
pub proof fn lemma_parse_undoes_to_text(operation: Operation, text: Seq<char>)
    ensures
        Operation::named(operation.text()) == Some(operation),
        Operation::named(text) == Some(operation) ==> text == operation.text(),
{
    reveal_strlit("or");
    reveal_strlit("and");
    assert("or"@.len() == 2 && "and"@.len() == 3);
}

/// On booleans the operators are those of logic. Conjunction gives a boolean or null, and
/// disjunction always a boolean.
pub proof fn lemma_applied_is_logic(a: bool, b: bool, left: Tree, right: Tree)
    ensures
        Operation::And.applied(Tree::Bool(a), Tree::Bool(b)) == Tree::Bool(a && b),
        Operation::Or.applied(Tree::Bool(a), Tree::Bool(b)) == Tree::Bool(a || b),
        Operation::And.applied(left, right) is Bool || Operation::And.applied(left, right) is Null,
        Operation::Or.applied(left, right) is Bool,
{
}

/// What the operators make of two values, of whichever kinds they are. True is what is the
/// boolean or a number other than zero; a truth is what is a number or a boolean. Disjunction is
/// true if one of the values is true, and false otherwise. Conjunction is null if one of the
/// values is no truth, and otherwise true if both are true.
pub proof fn lemma_applied_to_any(left: Tree, right: Tree)
    ensures
        ({
            let is_true = |value: Tree|
                value == Tree::Bool(true) || (value is Number && value != Tree::Number(
                    Numeral::PosInt(0),
                ) && value != Tree::Number(Numeral::NegInt(0)) && value != Tree::Number(
                    Numeral::Float(0),
                ) && value != Tree::Number(Numeral::Float(0x8000_0000_0000_0000u64)));
            let is_truth = |value: Tree| value is Number || value is Bool;
            &&& Operation::Or.applied(left, right) == Tree::Bool(is_true(left) || is_true(right))
            &&& Operation::And.applied(left, right) == if is_truth(left) && is_truth(right) {
                Tree::Bool(is_true(left) && is_true(right))
            } else {
                Tree::Null
            }
            &&& truth(left) == if is_truth(left) {
                Some(is_true(left))
            } else {
                None
            }
        }),
{
}

/// The operators are written `or` and `and`, and nothing else is read as an operator.
pub proof fn lemma_operators_by_name(text: Seq<char>)
    ensures
        Operation::named(text) == if text == seq!['o', 'r'] {
            Some(Operation::Or)
        } else if text == seq!['a', 'n', 'd'] {
            Some(Operation::And)
        } else {
            None
        },
        Operation::Or.text() == seq!['o', 'r'],
        Operation::And.text() == seq!['a', 'n', 'd'],
{
    reveal_strlit("or");
    reveal_strlit("and");
    assert("or"@ =~= seq!['o', 'r']);
    assert("and"@ =~= seq!['a', 'n', 'd']);
    assert(seq!['o', 'r'].len() != seq!['a', 'n', 'd'].len());
}

/// The operators do not care which value comes first.
pub proof fn lemma_applied_commutes(operation: Operation, left: Tree, right: Tree)
    ensures
        operation.applied(left, right) == operation.applied(right, left),
{
}

/// The operators do not tell apart values that are the same.
pub proof fn lemma_applied_respects_sameness(
    operation: Operation,
    left: Tree,
    right: Tree,
    other_left: Tree,
    other_right: Tree,
)
    requires
        same_tree(left, other_left),
        same_tree(right, other_right),
    ensures
        operation.applied(left, right) == operation.applied(other_left, other_right),
{
}

} // verus!
