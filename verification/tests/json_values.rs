use buzz::json::Json;
use serde_json::Value;

fn json(text: &str) -> Json {
    Json::parse(text).unwrap()
}

fn document(text: &str) -> Value {
    serde_json::from_str(text).unwrap()
}

fn nested(depth: usize) -> String {
    format!("{}{}", "[".repeat(depth), "]".repeat(depth))
}

const SAMPLES: [&str; 26] = [
    "null",
    "true",
    "false",
    "0",
    "1",
    "-1",
    "0.0",
    "-0.0",
    "1.0",
    "1.5",
    "18446744073709551615",
    "-9223372036854775808",
    "1e300",
    "\"\"",
    "\"1\"",
    "\"a\\nb\"",
    "[]",
    "[null]",
    "[1, 2]",
    "[2, 1]",
    "[[0.0], {}]",
    "[[-0.0], {}]",
    "{}",
    "{\"a\": 1}",
    "{\"a\": 1, \"b\": [true]}",
    "{\"b\": [true], \"a\": 1}",
];

#[test]
fn text_round_trip() {
    let value = json("{\"b\": [1, -2, 0.5, true, null], \"a\": \"x\"}");
    assert_eq!(value.to_text(), "{\"a\":\"x\",\"b\":[1,-2,0.5,true,null]}");
}

#[test]
fn texts_are_those_of_the_documents() {
    for sample in SAMPLES {
        let text = json(sample).to_text();
        assert_eq!(text, serde_json::to_string(&document(sample)).unwrap());
        assert!(!text.contains('\n'));
        assert_eq!(json(&text), json(sample));
        assert_eq!(json(&format!("{text}\n")), json(sample));
    }
}

#[test]
fn documents_come_back() {
    for sample in SAMPLES {
        let value = Json::from_document(document(sample));
        assert_eq!(value, json(sample));
        assert_eq!(value.to_document(), document(sample));
    }
}

#[test]
fn sameness_is_that_of_documents() {
    for a in SAMPLES {
        for b in SAMPLES {
            let same = document(a) == document(b);
            assert_eq!(json(a).same(&json(b)), same, "{a} and {b}");
            assert_eq!(json(a) == json(b), same, "{a} and {b}");
        }
    }
}

#[test]
fn clones_are_the_same() {
    for sample in SAMPLES {
        let value = json(sample);
        let copy = value.clone();
        assert_eq!(copy, value);
        assert_eq!(copy.to_text(), value.to_text());
    }
}

#[test]
fn zeros_of_both_signs_are_the_same() {
    assert_eq!(json("0.0"), json("-0.0"));
    assert_eq!(json("{\"a\": [0.0]}"), json("{\"a\": [-0.0]}"));
    assert_eq!(json("-0.0").to_text(), "-0.0");
    assert_eq!(json("-0.0").clone().to_text(), "-0.0");
}

#[test]
fn integers_are_no_doubles() {
    assert_ne!(json("1"), json("1.0"));
    assert_ne!(json("0"), json("-0.0"));
    assert_ne!(json("1"), json("-1"));
    assert_ne!(json("true"), json("1"));
}

#[test]
fn extreme_integers_keep_their_digits() {
    for digits in ["18446744073709551615", "9223372036854775808", "-9223372036854775808"] {
        assert_eq!(json(digits).to_text(), digits);
    }
}

#[test]
fn keys_stand_in_order() {
    let value = json("{\"z\": 1, \"\u{10000}\": 2, \"\u{ffff}\": 3, \"é\": 4, \"\": 5, \"za\": 6}");
    assert_eq!(
        value.to_text(),
        "{\"\":5,\"z\":1,\"za\":6,\"é\":4,\"\u{ffff}\":3,\"\u{10000}\":2}",
    );
}

#[test]
fn the_last_of_two_equal_keys_counts() {
    assert_eq!(json("{\"a\": 1, \"a\": 2}").to_text(), "{\"a\":2}");
}

#[test]
fn line_ends_are_escaped() {
    assert_eq!(json("\"a\\nb\"").to_text(), "\"a\\nb\"");
    assert_eq!(json("{\"\\n\": [\"\\r\\n\"]}").to_text(), "{\"\\n\":[\"\\r\\n\"]}");
    assert_eq!(json("[\n1,\n2\n]").to_text(), "[1,2]");
}

#[test]
fn lines_end_in_a_line_end() {
    assert_eq!(json("[1, 2]").to_line(), "[1,2]\n");
    assert_eq!(Json::Null.to_line(), "null\n");
}

#[test]
fn what_is_no_json_is_an_error() {
    for text in ["", " ", "nul", "1 2", "[1,]", "{a: 1}", "'a'", "01", "\"a"] {
        let error = serde_json::from_str::<Value>(text).unwrap_err();
        assert_eq!(Json::parse(text).unwrap_err(), error.to_string(), "{text}");
    }
}

#[test]
fn nesting_has_a_limit() {
    assert_eq!(json(&nested(127)).to_text(), nested(127));
    assert!(Json::parse(&nested(128)).is_err());
}

#[test]
fn truth_is_of_numbers_and_booleans() {
    for (text, truth) in [
        ("true", Some(true)),
        ("false", Some(false)),
        ("0", Some(false)),
        ("0.0", Some(false)),
        ("-0.0", Some(false)),
        ("1", Some(true)),
        ("-1", Some(true)),
        ("0.001", Some(true)),
        ("18446744073709551615", Some(true)),
        ("5e-324", Some(true)),
        ("null", None),
        ("\"true\"", None),
        ("[1]", None),
        ("{}", None),
    ] {
        assert_eq!(json(text).truth(), truth, "{text}");
    }
}
