//! Listening to what an operator makes of the values under two keys.

use vstd::prelude::*;
use crate::json::Json;
use crate::operation::{lemma_applied_respects_sameness, Operation};
use crate::storage::{known, lemma_changes_lead_to_value, Contents, Insertion};
use crate::tree::{same_tree, Tree};

verus! {

/// One of the two values of an expression.
#[derive(Clone, Copy, Debug, PartialEq, Eq, Structural)]
pub enum Side {
    Left,
    Right,
}

/// An expression, with the last value known of each side.
#[derive(Debug)]
pub struct Joint {
    operation: Operation,
    left: Json,
    right: Json,
}

/// What is known of an expression.
pub struct Expressed {
    pub operation: Operation,
    pub left: Tree,
    pub right: Tree,
}

impl Expressed {
    /// What the operator makes of the values.
    pub open spec fn value(self) -> Tree {
        self.operation.applied(self.left, self.right)
    }

    /// What is known after one side has a new value.
    pub open spec fn heard(self, side: Side, value: Tree) -> Expressed {
        match side {
            Side::Left => Expressed { left: value, ..self },
            Side::Right => Expressed { right: value, ..self },
        }
    }

    /// What is known after some changes, in their order.
    pub open spec fn after(self, changes: Seq<(Side, Tree)>) -> Expressed
        decreases changes.len(),
    {
        if changes.len() == 0 {
            self
        } else {
            self.after(changes.drop_last()).heard(changes.last().0, changes.last().1)
        }
    }
}

/// The values that some changes give one side, in their order.
pub open spec fn values_of(changes: Seq<(Side, Tree)>, side: Side) -> Seq<Tree>
    decreases changes.len(),
{
    if changes.len() == 0 {
        Seq::empty()
    } else {
        let before = values_of(changes.drop_last(), side);
        if changes.last().0 == side {
            before.push(changes.last().1)
        } else {
            before
        }
    }
}

impl View for Joint {
    type V = Expressed;

    closed spec fn view(&self) -> Expressed {
        Expressed { operation: self.operation, left: self.left@, right: self.right@ }
    }
}

impl Joint {
    /// An expression whose sides have these values.
    pub fn new(operation: Operation, left: Json, right: Json) -> (joint: Joint)
        ensures
            joint@ == (Expressed { operation, left: left@, right: right@ }),
    {
        Joint { operation, left, right }
    }

    /// What the operator makes of the values.
    pub fn current(&self) -> (value: Json)
        ensures
            value@ == self@.value(),
    {
        self.operation.apply(self.left.clone(), self.right.clone())
    }

    /// Takes what came from one side: a new value, or nothing more. With a value, gives what
    /// the operator makes of the values now; without, gives nothing, and listening ends.
    pub fn hear(&mut self, side: Side, news: Option<Json>) -> (told: Option<Json>)
        ensures
            match news {
                Some(value) => {
                    &&& final(self)@ == old(self)@.heard(side, value@)
                    &&& told matches Some(result) && result@ == final(self)@.value()
                },
                None => told is None && final(self)@ == old(self)@,
            },
    {
        match news {
            Some(value) => {
                match side {
                    Side::Left => {
                        self.left = value;
                    },
                    Side::Right => {
                        self.right = value;
                    },
                }
                Some(self.current())
            },
            None => None,
        }
    }
}

/// What happens to the feed of an expression, which passes the value of the expression on.
#[derive(Debug)]
pub enum FeedEvent {
    /// The feed begins.
    Begun,
    /// The first value was passed on, or there was nobody to pass it on to.
    Opened(bool),
    /// A value came from one side, or nothing more comes from there.
    Came(Side, Option<Json>),
    /// A later value was passed on, or there was nobody to pass it on to.
    Passed(bool),
}

/// What the feed of an expression does next.
#[derive(Debug)]
pub enum FeedStep {
    /// Pass the value on.
    Pass(Json),
    /// Wait for what comes from the sides.
    Wait,
    /// End.
    End,
}

/// Whether a step, and what is known of the expression with it, are what the feed of an
/// expression does when something happens.
pub open spec fn feeds(
    before: Expressed,
    event: FeedEvent,
    step: FeedStep,
    after: Expressed,
) -> bool {
    match event {
        FeedEvent::Begun => {
            &&& step matches FeedStep::Pass(value) && value@ == before.value()
            &&& after == before
        },
        FeedEvent::Came(side, Some(news)) => {
            &&& step matches FeedStep::Pass(value) && value@ == after.value()
            &&& after == before.heard(side, news@)
        },
        FeedEvent::Opened(_) | FeedEvent::Passed(true) => {
            &&& step is Wait
            &&& after == before
        },
        FeedEvent::Came(_, None) | FeedEvent::Passed(false) => {
            &&& step is End
            &&& after == before
        },
    }
}

impl Joint {
    /// What the feed of the expression does when something happens. The value that the
    /// expression begins with is passed on first, and the feed goes on even if nobody was there
    /// to take it.
    pub fn next_feed(&mut self, event: FeedEvent) -> (step: FeedStep)
        ensures
            feeds(old(self)@, event, step, final(self)@),
    {
        match event {
            FeedEvent::Begun => FeedStep::Pass(self.current()),
            FeedEvent::Came(side, news) => match self.hear(side, news) {
                Some(value) => FeedStep::Pass(value),
                None => FeedStep::End,
            },
            FeedEvent::Opened(_) | FeedEvent::Passed(true) => FeedStep::Wait,
            FeedEvent::Passed(false) => FeedStep::End,
        }
    }
}

/// What a feed passes on: at first what the operator makes of the values that it begins with,
/// and after each value that comes what the operator makes of that value and the last one of the
/// other side. It ends when a side does, or when nobody takes a later value, and not before.
pub proof fn lemma_feed_passes_on(
    before: Expressed,
    event: FeedEvent,
    step: FeedStep,
    after: Expressed,
)
    requires
        feeds(before, event, step, after),
    ensures
        event is Begun ==> step is Pass && step->Pass_0@ == before.operation.applied(
            before.left,
            before.right,
        ),
        event matches FeedEvent::Came(Side::Left, Some(news)) ==> {
            &&& step is Pass
            &&& step->Pass_0@ == before.operation.applied(news@, before.right)
            &&& after == (Expressed { left: news@, ..before })
        },
        event matches FeedEvent::Came(Side::Right, Some(news)) ==> {
            &&& step is Pass
            &&& step->Pass_0@ == before.operation.applied(before.left, news@)
            &&& after == (Expressed { right: news@, ..before })
        },
        !(event is Came) ==> after == before,
        step is Wait <==> event is Opened || event == FeedEvent::Passed(true),
        step is End <==> event == FeedEvent::Passed(false) || (event is Came
            && event->Came_1 is None),
{
}

/// An expression knows of each side the last value that the side was given, or the one that it
/// began with.
pub proof fn lemma_last_values_count(start: Expressed, changes: Seq<(Side, Tree)>)
    ensures
        start.after(changes) == (Expressed {
            operation: start.operation,
            left: known(start.left, values_of(changes, Side::Left)),
            right: known(start.right, values_of(changes, Side::Right)),
        }),
    decreases changes.len(),
{
    if changes.len() > 0 {
        lemma_last_values_count(start, changes.drop_last());
    }
}

/// A value that one side hears takes the place of that side's value, and the other side keeps
/// its own; the value of the expression is what the operator makes of the two.
pub proof fn lemma_sides_hear_apart(expressed: Expressed, value: Tree, other: Tree)
    ensures
        expressed.value() == expressed.operation.applied(expressed.left, expressed.right),
        expressed.heard(Side::Left, value).value() == expressed.operation.applied(
            value,
            expressed.right,
        ),
        expressed.heard(Side::Right, value).value() == expressed.operation.applied(
            expressed.left,
            value,
        ),
        expressed.heard(Side::Left, value).heard(Side::Right, other) == expressed.heard(
            Side::Right,
            other,
        ).heard(Side::Left, value),
        expressed.heard(Side::Left, value).heard(Side::Right, other).value()
            == expressed.operation.applied(value, other),
{
}

/// An expression whose sides know the values under two keys has the value that the operator
/// makes of what stands under the keys.
pub proof fn lemma_expression_follows(
    expressed: Expressed,
    contents: Contents,
    left: Seq<char>,
    right: Seq<char>,
)
    requires
        same_tree(expressed.left, contents.read(left)),
        same_tree(expressed.right, contents.read(right)),
    ensures
        expressed.value() == expressed.operation.applied(
            contents.read(left),
            contents.read(right),
        ),
{
    lemma_applied_respects_sameness(
        expressed.operation,
        expressed.left,
        expressed.right,
        contents.read(left),
        contents.read(right),
    );
}

/// Who listens to an expression and has heard of the changes under its two keys, in whichever
/// order those of the one came between those of the other, is told what the operator makes of
/// what stands under the keys now.
pub proof fn lemma_expression_is_current(
    contents: Contents,
    operation: Operation,
    left: Seq<char>,
    right: Seq<char>,
    insertions: Seq<Insertion>,
    changes: Seq<(Side, Tree)>,
)
    requires
        values_of(changes, Side::Left) == contents.changes(left, insertions),
        values_of(changes, Side::Right) == contents.changes(right, insertions),
    ensures
        ({
            let start = Expressed {
                operation,
                left: contents.read(left),
                right: contents.read(right),
            };
            let after = contents.after(insertions);
            start.after(changes).value() == operation.applied(after.read(left), after.read(right))
        }),
{
    let start = Expressed { operation, left: contents.read(left), right: contents.read(right) };
    lemma_last_values_count(start, changes);
    lemma_changes_lead_to_value(contents, left, insertions);
    lemma_changes_lead_to_value(contents, right, insertions);
    lemma_expression_follows(start.after(changes), contents.after(insertions), left, right);
}

} // verus!
