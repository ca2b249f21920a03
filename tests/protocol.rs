use arcdb::server::{next_action, ClientResponse, SessionAction, ARC_CRLF, ARC_ERR, ARC_OK};
use arcdb::text::split_tokens;

#[test]
fn empty_success_serializes_to_status_only() {
    assert_eq!(ClientResponse::Success(String::new()).to_wire(), "+OK\r\n");
}

#[test]
fn success_with_body_serializes_to_two_lines() {
    assert_eq!(ClientResponse::Success("pong".to_string()).to_wire(), "+OK\r\npong\r\n");
}

#[test]
fn failure_serializes_to_two_lines() {
    assert_eq!(
        ClientResponse::Failure("key not found".to_string()).to_wire(),
        "-ERR\r\nkey not found\r\n"
    );
}

#[test]
fn response_text_has_no_final_terminator() {
    assert_eq!(ClientResponse::Success(String::new()).to_string(), ARC_OK);
    assert_eq!(
        ClientResponse::Failure("x".to_string()).to_string(),
        format!("{}{}x", ARC_ERR, ARC_CRLF)
    );
}

#[test]
fn failed_read_answers_invalid_input() {
    match next_action(None) {
        SessionAction::Respond(r) => assert_eq!(r.to_wire(), "-ERR\r\ninvalid input\r\n"),
        _ => panic!("expected a response"),
    }
}

#[test]
fn quit_closes_with_goodbye() {
    for line in ["quit", "QUIT\r\n", "  Quit \n"] {
        match next_action(Some(line)) {
            SessionAction::Close(r) => assert_eq!(r.to_wire(), "+OK\r\ndisconnecting. bye!\r\n"),
            _ => panic!("expected the session to close"),
        }
    }
}

#[test]
fn other_lines_are_folded_and_dispatched() {
    match next_action(Some("SET Key Value\r\n")) {
        SessionAction::Dispatch(l) => assert_eq!(l, "set key value\r\n"),
        _ => panic!("expected a dispatch"),
    }
    match next_action(Some("quit now")) {
        SessionAction::Dispatch(l) => assert_eq!(l, "quit now"),
        _ => panic!("expected a dispatch"),
    }
}

#[test]
fn split_tokens_on_whitespace_runs() {
    assert_eq!(split_tokens("  a\tbb  c\n"), vec!["a", "bb", "c"]);
    assert_eq!(split_tokens(""), Vec::<&str>::new());
    assert_eq!(split_tokens(" \t\r\n"), Vec::<&str>::new());
    assert_eq!(split_tokens("x\u{a0}y\u{2003}z"), vec!["x", "y", "z"]);
    assert_eq!(split_tokens("one"), vec!["one"]);
}
