use buzz::operation::Operation;
use buzz::request::{encode_sequence, Refusal, Request};
use buzz::text::{join, split, trim};

fn strings(parts: &[&str]) -> Vec<String> {
    parts.iter().map(|part| part.to_string()).collect()
}

fn sent(parts: &[&str]) -> Result<Request, Refusal> {
    Request::from_bytes(encode_sequence(&strings(parts)))
}

fn key_got(text: &str) -> String {
    match Request::from_bytes(text.as_bytes().to_vec()) {
        Ok(Request::Get { key }) => key,
        other => panic!("{other:?}"),
    }
}

#[test]
fn texts_split_at_separators() {
    assert_eq!(split("a\0bc\0d", '\0'), strings(&["a", "bc", "d"]));
    assert_eq!(split("", '\0'), strings(&[""]));
    assert_eq!(split("\0", '\0'), strings(&["", ""]));
    assert_eq!(split("é\0\0→𐀀", '\0'), strings(&["é", "", "→𐀀"]));
    assert_eq!(split("a,b", '\0'), strings(&["a,b"]));
    assert_eq!(split("aébéc", 'é'), strings(&["a", "b", "c"]));
}

#[test]
fn texts_join_with_separators() {
    assert_eq!(join(&strings(&["a", "bc", "d"]), "\0"), "a\0bc\0d");
    assert_eq!(join(&strings(&[]), "\0"), "");
    assert_eq!(join(&strings(&["x"]), ", "), "x");
    assert_eq!(join(&strings(&["", ""]), ", "), ", ");
}

#[test]
fn splitting_undoes_joining_and_joining_splitting() {
    for parts in [vec!["a"], vec![""], vec!["", ""], vec!["a", "", "é b", "c"]] {
        let parts = strings(&parts);
        assert_eq!(split(&join(&parts, "\0"), '\0'), parts);
    }
    for text in ["", "a", "\0", "a\0b\0\0", "\0é"] {
        assert_eq!(join(&split(text, '\0'), "\0"), text);
    }
}

#[test]
fn arguments_are_sent_with_zero_bytes_between() {
    assert_eq!(encode_sequence(&strings(&["set", "a", "é"])), b"set\0a\0\xc3\xa9".to_vec());
    assert_eq!(encode_sequence(&strings(&[])), b"".to_vec());
    assert_eq!(encode_sequence(&strings(&["get"])), b"get".to_vec());
}

#[test]
fn set_takes_a_key_and_a_value() {
    match sent(&["set", "lamp", "{\"on\": true}"]) {
        Ok(Request::Put { key, value }) => {
            assert_eq!(key, "lamp");
            assert_eq!(value.to_text(), "{\"on\":true}");
        }
        other => panic!("{other:?}"),
    }
}

#[test]
fn more_arguments_are_passed_over() {
    assert!(matches!(sent(&["set", "a", "1", "rest"]), Ok(Request::Put { .. })));
    assert!(matches!(sent(&["get", "a", "b"]), Ok(Request::Get { key }) if key == "a"));
    assert!(matches!(sent(&["listen", "a", "b"]), Ok(Request::Listen { key }) if key == "a"));
    assert!(matches!(sent(&["listen", "$", "a", "or", "b", "c"]), Ok(Request::Join { .. })));
}

#[test]
fn listen_takes_a_key_or_an_expression() {
    assert!(matches!(sent(&["listen", "a"]), Ok(Request::Listen { key }) if key == "a"));
    assert!(matches!(sent(&["listen", "$a"]), Ok(Request::Listen { key }) if key == "$a"));
    match sent(&["listen", "$", "a", "and", "b"]) {
        Ok(Request::Join { left, operation, right }) => {
            assert_eq!(left, "a");
            assert_eq!(operation, Operation::And);
            assert_eq!(right, "b");
        }
        other => panic!("{other:?}"),
    }
}

#[test]
fn arguments_arrive_as_they_were_sent() {
    assert!(matches!(sent(&["get", "a b\n c"]), Ok(Request::Get { key }) if key == "a b\n c"));
    assert!(matches!(sent(&["get", ""]), Ok(Request::Get { key }) if key.is_empty()));
    assert!(matches!(sent(&["get", " a"]), Ok(Request::Get { key }) if key == " a"));
}

#[test]
fn white_space_at_the_ends_is_dropped() {
    assert_eq!(key_got("  get\0a\n"), "a");
    assert_eq!(key_got("\t\r\nget\0a b \u{3000}"), "a b");
    assert!(matches!(sent(&["get", "a "]), Ok(Request::Get { key }) if key == "a"));
    assert!(matches!(
        Request::from_bytes(b"get \0a".to_vec()),
        Err(Refusal::UnknownCommand(command)) if command == "get ",
    ));
}

#[test]
fn white_space_between_arguments_stays() {
    match Request::from_bytes(b" \nlisten\0$\0 a \0or\0 b \n".to_vec()) {
        Ok(Request::Join { left, operation, right }) => {
            assert_eq!(left, " a ");
            assert_eq!(operation, Operation::Or);
            assert_eq!(right, " b");
        }
        other => panic!("{other:?}"),
    }
    assert!(matches!(sent(&["get", " \t"]), Ok(Request::Get { key }) if key.is_empty()));
    assert!(matches!(sent(&[" ", "a"]), Err(Refusal::UnknownCommand(name)) if name.is_empty()));
}

#[test]
fn white_space_is_that_of_unicode() {
    for c in '\0'..=char::MAX {
        let white = matches!(
            c as u32,
            0x9..=0xd
                | 0x20
                | 0x85
                | 0xa0
                | 0x1680
                | 0x2000..=0x200a
                | 0x2028
                | 0x2029
                | 0x202f
                | 0x205f
                | 0x3000
        );
        assert_eq!(c.is_whitespace(), white, "{c:?}");
        let text = format!("{c}a{c}");
        assert_eq!(trim(&text), text.trim(), "{c:?}");
        assert_eq!(trim(&text) == "a", white, "{c:?}");
        if white {
            assert_eq!(key_got(&format!("{c}get\0a{c}")), "a");
        }
    }
    for text in ["", " ", " \t\n", "a", " a b ", "é\u{a0}", "\u{3000}\u{85}é→ 𐀀"] {
        assert_eq!(trim(text), text.trim());
    }
    assert_eq!(key_got("get\0a\u{200b}"), "a\u{200b}");
    assert_eq!(key_got("get\0a\u{feff}"), "a\u{feff}");
}

#[test]
fn what_is_no_text_is_refused() {
    for bytes in [vec![0xff], b"get\0\xc3".to_vec(), vec![0xed, 0xa0, 0x80], vec![0xc0, 0x80]] {
        assert!(matches!(Request::from_bytes(bytes), Err(Refusal::NotText)));
    }
}

#[test]
fn too_few_arguments_are_refused() {
    for (parts, wanted, came) in [
        (vec!["set"], 2, 0),
        (vec!["set", "a"], 2, 1),
        (vec!["get"], 1, 0),
        (vec!["listen"], 1, 0),
        (vec!["listen", "$"], 4, 1),
        (vec!["listen", "$", "a"], 4, 2),
        (vec!["listen", "$", "a", "and"], 4, 3),
    ] {
        match sent(&parts) {
            Err(Refusal::TooFewArguments { command, needed, received }) => {
                assert_eq!(command, parts[0]);
                assert_eq!(needed, wanted);
                assert_eq!(received, came);
            }
            other => panic!("{other:?}"),
        }
    }
}

#[test]
fn a_value_that_is_no_json_is_refused() {
    match sent(&["set", "a", "{oops"]) {
        Err(Refusal::BadValue { key, value, reason }) => {
            assert_eq!(key, "a");
            assert_eq!(value, "{oops");
            assert_eq!(reason, "key must be a string at line 1 column 2");
        }
        other => panic!("{other:?}"),
    }
}

#[test]
fn an_unknown_operator_is_refused() {
    assert!(matches!(
        sent(&["listen", "$", "a", "xor", "b"]),
        Err(Refusal::UnknownOperation(name)) if name == "xor",
    ));
}

#[test]
fn an_unknown_command_is_refused() {
    assert!(matches!(sent(&["put", "a"]), Err(Refusal::UnknownCommand(name)) if name == "put"));
    assert!(matches!(sent(&["SET", "a"]), Err(Refusal::UnknownCommand(name)) if name == "SET"));
    assert!(matches!(sent(&[""]), Err(Refusal::UnknownCommand(name)) if name.is_empty()));
}

#[test]
fn arguments_are_read_without_bytes_too() {
    let parsed = Request::from_arguments(&strings(&["get", "a\0b"]));
    assert!(matches!(parsed, Ok(Request::Get { key }) if key == "a\0b"));
}
