use buzz::client::{print_step, stream_step, Incoming, Message, PrintStep, StreamStep, LINE_END};
use buzz::config::{default_socket_path, Config, ConfigError, ConfigFile};
use buzz::expression::{Expression, Listener};
use buzz::json::Json;
use buzz::server::{Arrival, Attempt, Opening, Outcome, Server, Task};

#[test]
fn a_free_address_is_bound_at_once() {
    assert_eq!(Opening::Bind.advance(Outcome::Done), Opening::Open);
}

#[test]
fn an_address_in_use_is_freed_once() {
    let opening = Opening::Bind.advance(Outcome::InUse);
    assert_eq!(opening, Opening::Remove);
    let opening = opening.advance(Outcome::Done);
    assert_eq!(opening, Opening::Rebind);
    assert_eq!(opening.advance(Outcome::Done), Opening::Open);
    assert_eq!(opening.advance(Outcome::InUse), Opening::Failed(Attempt::Rebind));
    assert_eq!(opening.advance(Outcome::Failed), Opening::Failed(Attempt::Rebind));
}

#[test]
fn opening_fails_where_an_attempt_does() {
    assert_eq!(Opening::Bind.advance(Outcome::Failed), Opening::Failed(Attempt::Bind));
    assert_eq!(Opening::Remove.advance(Outcome::Failed), Opening::Failed(Attempt::Remove));
}

#[test]
fn opening_settles_in_three_attempts() {
    let outcomes = [Outcome::Done, Outcome::InUse, Outcome::Failed];
    for first in outcomes {
        for second in outcomes {
            for third in outcomes {
                let opening = Opening::Bind.advance(first).advance(second).advance(third);
                assert!(matches!(opening, Opening::Open | Opening::Failed(_)));
                assert_eq!(opening.advance(first), opening);
            }
        }
    }
}

#[test]
fn connections_are_numbered_from_zero() {
    let mut server = Server::default();
    assert_eq!(server.next_task(Arrival::Connected), Task::Serve(0));
    assert_eq!(server.next_task(Arrival::Rejected), Task::Wait);
    assert_eq!(server.next_task(Arrival::Connected), Task::Serve(1));
    assert_eq!(server.conn_increment(), 2);
    assert_eq!(server.next_task(Arrival::Interrupted), Task::Stop);
    assert_eq!(server.next_task(Arrival::Connected), Task::Serve(3));
}

#[test]
fn the_ith_connection_has_the_number_i() {
    let mut server = Server::default();
    let mut numbers = Vec::new();
    for i in 0..30 {
        let arrival = if i % 3 == 0 { Arrival::Rejected } else { Arrival::Connected };
        match server.next_task(arrival) {
            Task::Serve(number) => numbers.push(number),
            task => assert_eq!(task, Task::Wait),
        }
    }
    assert_eq!(numbers, (0..20).collect::<Vec<u16>>());
}

#[test]
fn numbers_of_connections_run_out() {
    let mut server = Server::default();
    for number in 0..u16::MAX {
        assert!(server.has_number());
        assert_eq!(server.conn_increment(), number);
    }
    assert!(!server.has_number());
}

#[test]
fn a_stream_hands_on_what_it_reads() {
    let step = stream_step(Incoming::Read("\"é\"\n".as_bytes().to_vec()));
    assert!(matches!(step, StreamStep::Forward(text) if text == "\"é\"\n"));
    assert!(matches!(stream_step(Incoming::Read(vec![0xff])), StreamStep::Garbled));
    assert!(matches!(stream_step(Incoming::Read(Vec::new())), StreamStep::Shutdown));
}

#[test]
fn a_stream_ends() {
    assert!(matches!(stream_step(Incoming::Ended), StreamStep::End));
    assert!(matches!(stream_step(Incoming::Failed), StreamStep::End));
    assert!(matches!(stream_step(Incoming::Stopped), StreamStep::Shutdown));
}

#[test]
fn a_line_is_read_whole() {
    let value = Json::parse("[\"a\\nb\", \"\u{10a}\u{a0a}\u{10a0a}\"]").unwrap();
    let bytes = value.to_line().into_bytes();
    assert_eq!(bytes.iter().position(|byte| *byte == LINE_END), Some(bytes.len() - 1));
    match stream_step(Incoming::Read(bytes)) {
        StreamStep::Forward(text) => assert_eq!(Json::parse(&text).unwrap(), value),
        other => panic!("{other:?}"),
    }
}

#[test]
fn a_client_prints_what_comes() {
    let step = print_step(Message::Text("null\n".to_string()));
    assert!(matches!(step, PrintStep::Print(text) if text == "null\n"));
    assert!(matches!(print_step(Message::Printed(true)), PrintStep::Wait));
    assert!(matches!(print_step(Message::Printed(false)), PrintStep::End));
    assert!(matches!(print_step(Message::Lagged), PrintStep::Wait));
    assert!(matches!(print_step(Message::Closed), PrintStep::Shutdown));
    assert!(matches!(print_step(Message::Interrupted), PrintStep::Shutdown));
}

#[test]
fn a_missing_configuration_is_an_error() {
    assert!(matches!(Config::from_file(ConfigFile::Missing), Err(ConfigError::NotFound)));
}

#[test]
fn a_malformed_configuration_is_an_error() {
    let error = toml::from_str::<toml::Table>("socket_path = ").unwrap_err();
    let reason = error.to_string();
    match Config::from_file(ConfigFile::Malformed(error)) {
        Err(ConfigError::ParseError(error)) => assert_eq!(error.to_string(), reason),
        other => panic!("{other:?}"),
    }
}

#[test]
fn a_configuration_can_leave_things_out() {
    let file = ConfigFile::Settings { socket_path: None, listeners: None };
    let config = Config::from_file(file).unwrap();
    assert_eq!(config.socket_path, "config.toml");
    assert_eq!(config.socket_path, default_socket_path());
    assert!(config.listeners.is_none());
}

#[test]
fn a_configuration_is_taken_as_it_is() {
    let listener = Listener {
        condition: Expression::Variable("a".to_string()),
        sensible: true,
        operation: None,
        operation_false: None,
    };
    let file = ConfigFile::Settings {
        socket_path: Some("/run/buzz".to_string()),
        listeners: Some(vec![listener]),
    };
    let config = Config::from_file(file).unwrap();
    assert_eq!(config.socket_path, "/run/buzz");
    let listeners = config.listeners.unwrap();
    assert_eq!(listeners.len(), 1);
    assert_eq!(listeners[0].condition.get_listeners(), ["a"]);
}
