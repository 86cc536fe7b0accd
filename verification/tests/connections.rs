use buzz::connection::{answer, greeted, next_step, receive, Event, Received, Response, Step};
use buzz::joint::{FeedEvent, FeedStep, Side};
use buzz::json::Json;
use buzz::request::{encode_sequence, Refusal, Request};
use buzz::storage::{Notice, Storage};

fn json(text: &str) -> Json {
    Json::parse(text).unwrap()
}

fn ask(storage: &mut Storage, parts: &[&str]) -> Response {
    let parts: Vec<String> = parts.iter().map(|part| part.to_string()).collect();
    receive(storage, Received::Bytes(encode_sequence(&parts)))
}

fn passed(step: FeedStep) -> String {
    match step {
        FeedStep::Pass(value) => value.to_text(),
        other => panic!("{other:?}"),
    }
}

#[test]
fn get_answers_what_was_set() {
    let mut storage = Storage::default();
    let done = ask(&mut storage, &["set", "lamp", "{\"on\": true, \"by\": null}"]);
    assert!(matches!(done, Response::Done(Notice::Silent)));
    match ask(&mut storage, &["get", "lamp"]) {
        Response::Reply(text) => {
            assert_eq!(text, "{\"by\":null,\"on\":true}");
            assert_eq!(json(&text), *storage.get("lamp"));
        }
        _ => panic!("no reply"),
    }
}

#[test]
fn white_space_behind_a_value_does_not_count() {
    let mut storage = Storage::default();
    let done = ask(&mut storage, &["set", "lamp", "[1, 2] \n\u{3000}"]);
    assert!(matches!(done, Response::Done(Notice::Silent)));
    assert!(matches!(ask(&mut storage, &["get", "lamp"]), Response::Reply(text) if text == "[1,2]"));
}

#[test]
fn the_lines_of_a_listener_follow_the_changes() {
    let mut storage = Storage::default();
    ask(&mut storage, &["set", "k", "1"]);
    let Response::Greet { key, line: mut written } = ask(&mut storage, &["listen", "k"]) else {
        panic!("no greeting");
    };
    let mut receiver = greeted(&mut storage, key, true).unwrap();
    for text in ["1", "2", "null"] {
        ask(&mut storage, &["set", "k", text]);
    }
    while let Ok(value) = receiver.try_recv() {
        match next_step(Event::Heard(value)) {
            Step::Write(line) => written.push_str(&line),
            other => panic!("{other:?}"),
        }
    }
    assert_eq!(written, "1\n2\nnull\n");
}

#[test]
fn get_answers_null_for_nothing() {
    let mut storage = Storage::default();
    assert!(matches!(ask(&mut storage, &["get", "lamp"]), Response::Reply(text) if text == "null"));
}

#[test]
fn set_tells_listeners() {
    let mut storage = Storage::default();
    let mut receiver = storage.listen("lamp".to_string());
    assert!(matches!(ask(&mut storage, &["set", "lamp", "1"]), Response::Done(Notice::Sent)));
    assert_eq!(receiver.try_recv().unwrap(), json("1"));
    drop(receiver);
    assert!(matches!(
        ask(&mut storage, &["set", "lamp", "2"]),
        Response::Done(Notice::Unheard(refused)) if refused.error.0 == json("2"),
    ));
    assert_eq!(*storage.get("lamp"), json("2"));
}

#[test]
fn listen_greets_and_follows() {
    let mut storage = Storage::default();
    ask(&mut storage, &["set", "lamp", "[1, 2]"]);
    match ask(&mut storage, &["listen", "lamp"]) {
        Response::Greet { key, line } => {
            assert_eq!(key, "lamp");
            assert_eq!(line, "[1,2]\n");
            let mut receiver = greeted(&mut storage, key, true).unwrap();
            ask(&mut storage, &["set", "lamp", "3"]);
            assert_eq!(receiver.try_recv().unwrap(), json("3"));
        }
        _ => panic!("no greeting"),
    }
}

#[test]
fn a_greeting_that_fails_leaves_no_listener() {
    let mut storage = Storage::default();
    assert!(matches!(ask(&mut storage, &["listen", "lamp"]), Response::Greet { .. }));
    assert!(greeted(&mut storage, "lamp".to_string(), false).is_none());
    assert!(matches!(ask(&mut storage, &["set", "lamp", "1"]), Response::Done(Notice::Silent)));
}

#[test]
fn an_expression_is_followed() {
    let mut storage = Storage::default();
    ask(&mut storage, &["set", "a", "true"]);
    match ask(&mut storage, &["listen", "$", "a", "and", "b"]) {
        Response::Follow { mut joint, mut left, mut right } => {
            assert_eq!(passed(joint.next_feed(FeedEvent::Begun)), "null");
            assert!(matches!(joint.next_feed(FeedEvent::Opened(true)), FeedStep::Wait));
            ask(&mut storage, &["set", "b", "2"]);
            let news = right.try_recv().ok();
            assert_eq!(passed(joint.next_feed(FeedEvent::Came(Side::Right, news))), "true");
            assert!(matches!(joint.next_feed(FeedEvent::Passed(true)), FeedStep::Wait));
            ask(&mut storage, &["set", "a", "0"]);
            let news = left.try_recv().ok();
            assert_eq!(passed(joint.next_feed(FeedEvent::Came(Side::Left, news))), "false");
            assert!(matches!(joint.next_feed(FeedEvent::Passed(false)), FeedStep::End));
        }
        _ => panic!("no expression"),
    }
}

#[test]
fn an_expression_can_name_one_key_twice() {
    let mut storage = Storage::default();
    match ask(&mut storage, &["listen", "$", "a", "or", "a"]) {
        Response::Follow { joint, mut left, mut right } => {
            assert_eq!(joint.current(), Json::Bool(false));
            ask(&mut storage, &["set", "a", "true"]);
            assert_eq!(left.try_recv().unwrap(), json("true"));
            assert_eq!(right.try_recv().unwrap(), json("true"));
        }
        _ => panic!("no expression"),
    }
}

#[test]
fn requests_can_be_answered_without_bytes() {
    let mut storage = Storage::default();
    let request = Request::Put { key: "a".to_string(), value: json("7") };
    assert!(matches!(answer(&mut storage, request), Response::Done(Notice::Silent)));
    let request = Request::Get { key: "a".to_string() };
    assert!(matches!(answer(&mut storage, request), Response::Reply(text) if text == "7"));
}

#[test]
fn silence_is_refused() {
    let mut storage = Storage::default();
    for received in [
        Received::Nothing,
        Received::Failed,
        Received::Bytes(Vec::new()),
        Received::Bytes(b" \n\t".to_vec()),
    ] {
        assert!(matches!(
            receive(&mut storage, received),
            Response::Refuse(Refusal::UnknownCommand(command)) if command.is_empty(),
        ));
    }
}

#[test]
fn a_refused_request_changes_nothing() {
    let mut storage = Storage::default();
    ask(&mut storage, &["set", "a", "1"]);
    for parts in [
        vec!["set", "a"],
        vec!["set", "a", "oops"],
        vec!["unset", "a"],
        vec!["listen", "$", "a", "xor", "b"],
        vec!["listen", "$", "a", "and"],
    ] {
        assert!(matches!(ask(&mut storage, &parts), Response::Refuse(_)));
    }
    let garbled = receive(&mut storage, Received::Bytes(vec![0xff, 0xfe]));
    assert!(matches!(garbled, Response::Refuse(Refusal::NotText)));
    assert_eq!(*storage.get("a"), json("1"));
    assert!(matches!(ask(&mut storage, &["set", "a", "2"]), Response::Done(Notice::Silent)));
}

#[test]
fn values_are_told_in_lines() {
    let step = next_step(Event::Heard(json("{\"a\": \"x\\ny\"}")));
    assert!(matches!(step, Step::Write(line) if line == "{\"a\":\"x\\ny\"}\n"));
}

#[test]
fn lines_are_told_apart() {
    let mut written = String::new();
    for text in ["\"a\\nb\"", "[1, 2]", "null"] {
        written.push_str(&json(text).to_line());
    }
    assert_eq!(
        buzz::text::split(&written, '\n'),
        ["\"a\\nb\"", "[1,2]", "null", ""],
    );
}

#[test]
fn a_connection_goes_on_or_ends() {
    assert!(matches!(next_step(Event::Finished), Step::Shutdown));
    assert!(matches!(next_step(Event::Replied(true)), Step::Shutdown));
    assert!(matches!(next_step(Event::Replied(false)), Step::Shutdown));
    assert!(matches!(next_step(Event::Wrote(true)), Step::Wait));
    assert!(matches!(next_step(Event::Wrote(false)), Step::Abandon));
    assert!(matches!(next_step(Event::Lost), Step::Abandon));
    assert!(matches!(next_step(Event::PeerClosed), Step::Abandon));
    assert!(matches!(next_step(Event::PeerSpoke), Step::Wait));
    assert!(matches!(next_step(Event::Interrupted), Step::Shutdown));
}
