use adam::framing::{step_for_line, LineStep, PARSE_ERROR_CODE};

#[test]
fn blank_lines_are_skipped() {
    assert!(matches!(step_for_line(""), LineStep::Skip));
    assert!(matches!(step_for_line("  \t \r"), LineStep::Skip));
}

#[test]
fn json_lines_are_dispatched_trimmed() {
    match step_for_line("  {\"jsonrpc\":\"2.0\",\"id\":1,\"method\":\"tools/list\"}\r") {
        LineStep::Dispatch(message) => {
            assert_eq!(message["method"], "tools/list");
            assert_eq!(message["id"], 1);
        }
        _ => panic!("expected a dispatched message"),
    }
}

#[test]
fn lines_that_are_not_json_get_the_parse_error_code() {
    match step_for_line("{not json") {
        LineStep::ParseError { code, error } => {
            assert_eq!(code, -32700);
            assert_eq!(code, PARSE_ERROR_CODE);
            assert!(!error.to_string().is_empty());
        }
        _ => panic!("expected a parse error"),
    }
}

#[test]
fn the_dispatched_message_is_the_trimmed_line_parsed() {
    match step_for_line(" 12 ") {
        LineStep::Dispatch(message) => assert_eq!(message, serde_json::Value::from(12)),
        _ => panic!("expected a dispatched message"),
    }
}
