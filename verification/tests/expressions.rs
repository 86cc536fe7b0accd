use buzz::expression::{Expression, Listener, Reaction};
use buzz::joint::{FeedEvent, FeedStep, Joint, Side};
use buzz::json::Json;
use buzz::operation::Operation;

fn json(text: &str) -> Json {
    Json::parse(text).unwrap()
}

fn key(name: &str) -> Box<Expression> {
    Box::new(Expression::Variable(name.to_string()))
}

#[test]
fn the_keys_of_a_condition_come_from_left_to_right() {
    let condition = Expression::And(
        key("a"),
        Box::new(Expression::Or(
            Box::new(Expression::Not(key("b"))),
            Box::new(Expression::Equals(
                Box::new(Expression::Static(Json::Bool(true))),
                Box::new(Expression::And(key("c"), key("a"))),
            )),
        )),
    );
    assert_eq!(condition.get_listeners(), ["a", "b", "c", "a"]);
}

#[test]
fn a_given_value_has_no_keys() {
    assert!(Expression::Static(json("[\"a\"]")).get_listeners().is_empty());
    assert_eq!(key("x").get_listeners(), ["x"]);
}

#[test]
fn a_listener_holds_a_condition_and_reactions() {
    let listener = Listener {
        condition: Expression::Not(key("door")),
        sensible: false,
        operation: Some(Reaction::Command(vec!["beep".to_string()])),
        operation_false: None,
    };
    assert_eq!(listener.condition.get_listeners(), ["door"]);
}

#[test]
fn an_expression_has_the_value_of_its_operator() {
    let joint = Joint::new(Operation::Or, json("0"), json("null"));
    assert_eq!(joint.current(), json("false"));
    let joint = Joint::new(Operation::And, json("0"), json("null"));
    assert_eq!(joint.current(), json("null"));
}

#[test]
fn the_last_value_of_each_side_counts() {
    let mut joint = Joint::new(Operation::And, Json::Null, Json::Null);
    assert_eq!(joint.hear(Side::Left, Some(json("true"))), Some(json("null")));
    assert_eq!(joint.hear(Side::Right, Some(json("1"))), Some(json("true")));
    assert_eq!(joint.hear(Side::Right, Some(json("0"))), Some(json("false")));
    assert_eq!(joint.hear(Side::Left, Some(json("\"x\""))), Some(json("null")));
    assert_eq!(joint.current(), json("null"));
}

#[test]
fn an_expression_ends_with_one_of_its_sides() {
    let mut joint = Joint::new(Operation::Or, json("true"), json("false"));
    assert_eq!(joint.hear(Side::Right, None), None);
    assert_eq!(joint.hear(Side::Left, None), None);
    assert_eq!(joint.current(), json("true"));
}

#[test]
fn a_feed_begins_with_the_value_whoever_takes_it() {
    let mut joint = Joint::new(Operation::Or, json("true"), json("false"));
    assert!(matches!(
        joint.next_feed(FeedEvent::Begun),
        FeedStep::Pass(value) if value == json("true"),
    ));
    assert!(matches!(joint.next_feed(FeedEvent::Opened(false)), FeedStep::Wait));
    assert!(matches!(joint.next_feed(FeedEvent::Opened(true)), FeedStep::Wait));
}

#[test]
fn a_feed_ends_when_nobody_takes_a_later_value() {
    let mut joint = Joint::new(Operation::Or, json("true"), json("false"));
    let news = FeedEvent::Came(Side::Left, Some(json("false")));
    assert!(matches!(joint.next_feed(news), FeedStep::Pass(value) if value == json("false")));
    assert!(matches!(joint.next_feed(FeedEvent::Passed(true)), FeedStep::Wait));
    assert!(matches!(joint.next_feed(FeedEvent::Passed(false)), FeedStep::End));
    assert!(matches!(joint.next_feed(FeedEvent::Came(Side::Left, None)), FeedStep::End));
}
