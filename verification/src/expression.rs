//! Conditions on stored values, and what to do about them, as a configuration names them. They
//! are only read from it so far: nothing evaluates a condition or runs a command.

use vstd::prelude::*;
use crate::json::Json;
use crate::text::texts;

verus! {

/// A condition on stored values.
#[derive(Debug)]
pub enum Expression {
    /// The value under a key.
    Variable(String),
    /// A value that is given.
    Static(Json),
    Not(Box<Expression>),
    And(Box<Expression>, Box<Expression>),
    Or(Box<Expression>, Box<Expression>),
    Equals(Box<Expression>, Box<Expression>),
}

/// What a configuration names to do about a condition.
#[derive(Debug)]
pub enum Reaction {
    /// A command: a program and its arguments.
    Command(Vec<String>),
}

/// A condition, and what a configuration names to do about it.
#[derive(Debug)]
pub struct Listener {
    /// The condition.
    pub condition: Expression,
    /// Whether the reaction is meant for every value, or only for a change.
    pub sensible: bool,
    /// What is meant for when the condition is true.
    pub operation: Option<Reaction>,
    /// What is meant for when the condition is false.
    pub operation_false: Option<Reaction>,
}

impl Expression {
    /// The keys that the condition reads, from left to right, as often as they stand there.
    pub open spec fn variables(self) -> Seq<Seq<char>>
        decreases self,
    {
        match self {
            Expression::Variable(key) => seq![key@],
            Expression::Static(_) => Seq::empty(),
            Expression::Not(inner) => inner.variables(),
            Expression::And(left, right) => left.variables() + right.variables(),
            Expression::Or(left, right) => left.variables() + right.variables(),
            Expression::Equals(left, right) => left.variables() + right.variables(),
        }
    }

    /// The keys that the condition reads, from left to right, as often as they stand there.
    pub fn get_listeners(&self) -> (keys: Vec<String>)
        ensures
            texts(keys@) == self.variables(),
        decreases self,
    {
        match self {
            Expression::And(left, right) | Expression::Equals(left, right) | Expression::Or(
                left,
                right,
            ) => {
                let mut keys = left.get_listeners();
                let mut more = right.get_listeners();
                let ghost (first, second) = (keys@, more@);
                keys.append(&mut more);
                assert(texts(keys@) =~= texts(first) + texts(second));
                keys
            },
            Expression::Not(inner) => inner.get_listeners(),
            Expression::Static(_) => {
                let keys: Vec<String> = Vec::new();
                assert(texts(keys@) =~= self.variables());
                keys
            },
            Expression::Variable(key) => {
                let mut keys: Vec<String> = Vec::new();
                keys.push(key.clone());
                assert(texts(keys@) =~= self.variables());
                keys
            },
        }
    }
}

/// A condition reads the keys that its parts read, those of the left part first; which connective
/// it is makes no difference, a given value reads none, and a variable reads its key.
pub proof fn lemma_parts_are_read(
    key: String,
    given: Json,
    left: Box<Expression>,
    right: Box<Expression>,
)
    ensures
        Expression::Variable(key).variables() == seq![key@],
        Expression::Static(given).variables() == Seq::<Seq<char>>::empty(),
        Expression::Not(left).variables() == left.variables(),
        Expression::And(left, right).variables() == left.variables() + right.variables(),
        Expression::Or(left, right).variables() == left.variables() + right.variables(),
        Expression::Equals(left, right).variables() == left.variables() + right.variables(),
{
}

} // verus!
