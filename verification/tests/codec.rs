use irc_relay::message::{Command, Message, ReplyCode, Response, ToIrcMessage};

fn parse_ok(line: &str) -> Message {
    match Message::from(line) {
        Ok(m) => m,
        Err(_) => panic!("line should parse: {:?}", line),
    }
}

#[test]
fn parses_prefix_command_and_params() {
    let m = parse_ok(":a!b@c NICK zed");
    assert_eq!(m.prefix, "a!b@c");
    assert_eq!(m.command, Command::Nick);
    assert_eq!(m.params, vec!["zed".to_string()]);
}

#[test]
fn trailing_parameter_preserves_spaces() {
    let m = parse_ok(":a PRIVMSG #chan :hello world");
    assert_eq!(m.prefix, "a");
    assert_eq!(m.command, Command::PrivMsg);
    assert_eq!(m.params, vec!["#chan".to_string(), "hello world".to_string()]);
}

#[test]
fn command_is_case_insensitive() {
    let m = parse_ok(":a nick zed");
    assert_eq!(m.command, Command::Nick);
    let m = parse_ok(":a PrivMsg bob :hi");
    assert_eq!(m.command, Command::PrivMsg);
}

#[test]
fn unknown_command_token_parses_to_unknown() {
    let m = parse_ok(":a FROBNICATE x y");
    assert_eq!(m.command, Command::Unknown);
    assert_eq!(m.params, vec!["x".to_string(), "y".to_string()]);
}

#[test]
fn command_without_params_parses() {
    let m = parse_ok(":a QUIT");
    assert_eq!(m.command, Command::Quit);
    assert!(m.params.is_empty());
}

#[test]
fn missing_prefix_marker_is_malformed() {
    let e = Message::from("NICK zed").unwrap_err();
    assert_eq!(e.prefix, "");
    assert_eq!(e.code, 0);
    assert!(e.params.is_empty());
}

#[test]
fn missing_command_is_malformed() {
    assert!(Message::from(":onlyprefix").is_err());
    assert!(Message::from("").is_err());
    assert!(Message::from(":a ").is_err());
}

#[test]
fn serializes_message_with_trailing_marker() {
    let m = Message::new("srv", Command::Nick, vec!["zed".to_string()]);
    assert_eq!(m.serialize(), ":srv NICK :zed");
    assert_eq!(m.to_irc_message(), ":srv NICK :zed\r\n");
}

#[test]
fn serializes_message_without_params() {
    let m = Message::new("srv", Command::Quit, Vec::new());
    assert_eq!(m.serialize(), ":srv QUIT");
}

#[test]
fn serializes_response_with_three_digit_code() {
    let r = Response::new(
        "srv",
        ReplyCode::ERR_NOSUCHNICK,
        vec!["The given nick was not found.".to_string()],
    );
    assert_eq!(r.serialize(), ":srv 401 :The given nick was not found.");
}

#[test]
fn response_code_is_zero_padded() {
    let r = Response::new("srv", ReplyCode::RPL_WELCOME, vec!["hello".to_string()]);
    assert_eq!(r.serialize(), ":srv 001 :hello");
    assert_eq!(ReplyCode::RPL_WELCOME.code(), 1);
    assert_eq!(ReplyCode::ERR_USERSDONTMATCH.code(), 502);
}

#[test]
fn serialized_message_parses_back() {
    let m = Message::new(
        "nick!user@host",
        Command::PrivMsg,
        vec!["#room".to_string(), "hello there world".to_string()],
    );
    let back = parse_ok(&m.serialize());
    assert_eq!(back.prefix, m.prefix);
    assert_eq!(back.command, m.command);
    assert_eq!(back.params, m.params);
}

#[test]
fn empty_prefix_round_trips() {
    let m = Message::new("", Command::Away, Vec::new());
    assert_eq!(m.serialize(), ": AWAY");
    let back = parse_ok(": AWAY");
    assert_eq!(back.prefix, "");
    assert_eq!(back.command, Command::Away);
}
