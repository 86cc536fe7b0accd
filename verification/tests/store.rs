use buzz::json::Json;
use buzz::storage::{Notice, Storage};
use tokio::sync::broadcast::error::TryRecvError;
use tokio::sync::broadcast::Receiver;

fn json(text: &str) -> Json {
    Json::parse(text).unwrap()
}

fn put(storage: &mut Storage, key: &str, text: &str) -> &'static str {
    match storage.insert(key.to_string(), json(text)) {
        Notice::Silent => "silent",
        Notice::Sent => "sent",
        Notice::Unheard(refused) => {
            assert_eq!(refused.error.0, json(text));
            "unheard"
        }
    }
}

fn heard(receiver: &mut Receiver<Json>) -> Vec<String> {
    let mut texts = Vec::new();
    while let Ok(value) = receiver.try_recv() {
        texts.push(value.to_text());
    }
    texts
}

#[test]
fn a_missing_key_reads_as_null() {
    let storage = Storage::default();
    assert_eq!(*storage.get("a"), Json::Null);
}

#[test]
fn a_key_reads_as_what_was_last_put_there() {
    let mut storage = Storage::default();
    assert_eq!(put(&mut storage, "a", "1"), "silent");
    assert_eq!(put(&mut storage, "b", "[2]"), "silent");
    assert_eq!(put(&mut storage, "a", "\"x\""), "silent");
    assert_eq!(storage.get("a").to_text(), "\"x\"");
    assert_eq!(storage.get("b").to_text(), "[2]");
    assert_eq!(*storage.get("c"), Json::Null);
}

#[test]
fn the_same_value_replaces_the_one_that_is_there() {
    let mut storage = Storage::default();
    put(&mut storage, "a", "0.0");
    put(&mut storage, "a", "-0.0");
    assert_eq!(storage.get("a").to_text(), "-0.0");
}

#[test]
fn removing_takes_the_value_away() {
    let mut storage = Storage::default();
    put(&mut storage, "a", "1");
    put(&mut storage, "b", "2");
    let mut receiver = storage.listen("a".to_string());
    storage.remove("a");
    storage.remove("c");
    assert_eq!(*storage.get("a"), Json::Null);
    assert_eq!(*storage.get("b"), json("2"));
    assert!(heard(&mut receiver).is_empty());
}

#[test]
fn listeners_hear_of_changes_in_order() {
    let mut storage = Storage::default();
    put(&mut storage, "a", "1");
    let mut receiver = storage.listen("a".to_string());
    assert!(heard(&mut receiver).is_empty());
    assert_eq!(put(&mut storage, "a", "2"), "sent");
    assert_eq!(put(&mut storage, "b", "5"), "silent");
    assert_eq!(put(&mut storage, "a", "3"), "sent");
    assert_eq!(put(&mut storage, "a", "3"), "silent");
    assert_eq!(put(&mut storage, "a", "2"), "sent");
    assert_eq!(heard(&mut receiver), ["2", "3", "2"]);
}

#[test]
fn the_value_that_is_there_tells_nobody() {
    let mut storage = Storage::default();
    put(&mut storage, "a", "{\"x\": [0.0, 1]}");
    let mut receiver = storage.listen("a".to_string());
    assert_eq!(put(&mut storage, "a", "{\"x\": [-0.0, 1]}"), "silent");
    assert_eq!(put(&mut storage, "a", "{\"x\": [0, 1]}"), "sent");
    assert_eq!(heard(&mut receiver), ["{\"x\":[0,1]}"]);
}

#[test]
fn null_over_nothing_tells_nobody() {
    let mut storage = Storage::default();
    let mut receiver = storage.listen("a".to_string());
    assert_eq!(put(&mut storage, "a", "null"), "silent");
    assert_eq!(put(&mut storage, "a", "1"), "sent");
    storage.remove("a");
    assert_eq!(put(&mut storage, "a", "null"), "silent");
    assert_eq!(heard(&mut receiver), ["1"]);
}

#[test]
fn listeners_of_one_key_share_a_channel() {
    let mut storage = Storage::default();
    let mut first = storage.listen("a".to_string());
    put(&mut storage, "a", "1");
    let mut second = storage.listen("a".to_string());
    put(&mut storage, "a", "2");
    assert_eq!(heard(&mut first), ["1", "2"]);
    assert_eq!(heard(&mut second), ["2"]);
}

#[test]
fn listeners_of_other_keys_hear_nothing() {
    let mut storage = Storage::default();
    let mut a = storage.listen("a".to_string());
    let mut b = storage.listen("b".to_string());
    put(&mut storage, "b", "1");
    assert!(heard(&mut a).is_empty());
    assert_eq!(heard(&mut b), ["1"]);
}

#[test]
fn a_change_that_nobody_hears_is_kept() {
    let mut storage = Storage::default();
    drop(storage.listen("a".to_string()));
    assert_eq!(put(&mut storage, "a", "1"), "unheard");
    assert_eq!(*storage.get("a"), json("1"));
    let mut receiver = storage.listen("a".to_string());
    assert_eq!(put(&mut storage, "a", "1"), "silent");
    assert_eq!(put(&mut storage, "a", "2"), "sent");
    assert_eq!(heard(&mut receiver), ["2"]);
}

#[test]
fn listeners_that_are_let_go_hear_no_more() {
    let mut storage = Storage::default();
    let mut a = storage.listen("a".to_string());
    let mut b = storage.listen("b".to_string());
    put(&mut storage, "a", "1");
    storage.unsubscribe("a");
    assert_eq!(put(&mut storage, "a", "2"), "silent");
    assert_eq!(put(&mut storage, "b", "3"), "sent");
    assert_eq!(*storage.get("a"), json("2"));
    assert_eq!(heard(&mut a), ["1"]);
    assert!(matches!(a.try_recv(), Err(TryRecvError::Closed)));
    assert_eq!(heard(&mut b), ["3"]);
}

#[test]
fn who_listens_again_hears_what_comes_then() {
    let mut storage = Storage::default();
    let _before = storage.listen("a".to_string());
    put(&mut storage, "a", "1");
    storage.unsubscribe("a");
    let mut after = storage.listen("a".to_string());
    assert_eq!(put(&mut storage, "a", "2"), "sent");
    assert_eq!(heard(&mut after), ["2"]);
}

#[test]
fn a_listener_that_falls_behind_loses_the_oldest() {
    let mut storage = Storage::default();
    let mut receiver = storage.listen("a".to_string());
    for n in 1..=100 {
        put(&mut storage, "a", &n.to_string());
    }
    assert_eq!(heard(&mut receiver).len(), 100);
    for n in 1..=300 {
        put(&mut storage, "a", &n.to_string());
    }
    assert!(matches!(receiver.try_recv(), Err(TryRecvError::Lagged(_))));
    assert_eq!(heard(&mut receiver).last().unwrap(), "300");
}

#[test]
fn a_value_comes_again_after_it_was_taken_away() {
    let mut storage = Storage::default();
    let mut receiver = storage.listen("a".to_string());
    assert_eq!(put(&mut storage, "a", "1"), "sent");
    storage.remove("a");
    assert_eq!(put(&mut storage, "a", "1"), "sent");
    assert_eq!(heard(&mut receiver), ["1", "1"]);
    assert!(matches!(receiver.try_recv(), Err(TryRecvError::Empty)));
}

#[test]
fn each_change_is_sent_or_handed_back() {
    let mut storage = Storage::default();
    let receiver = storage.listen("a".to_string());
    assert_eq!(put(&mut storage, "a", "1"), "sent");
    drop(receiver);
    assert_eq!(put(&mut storage, "a", "1"), "silent");
    assert_eq!(put(&mut storage, "a", "2"), "unheard");
    assert_eq!(put(&mut storage, "a", "2"), "silent");
    assert_eq!(put(&mut storage, "a", "3"), "unheard");
}

#[test]
fn a_key_whose_receivers_are_gone_can_be_let_go() {
    let mut storage = Storage::default();
    drop(storage.listen("a".to_string()));
    assert_eq!(put(&mut storage, "a", "1"), "unheard");
    storage.unsubscribe("a");
    assert_eq!(put(&mut storage, "a", "2"), "silent");
    let _receiver = storage.listen("a".to_string());
    storage.unsubscribe("a");
    assert_eq!(put(&mut storage, "a", "3"), "silent");
}
