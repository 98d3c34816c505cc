use envhist::protocol::Reading;
use envhist::EnvResponse;

#[test]
fn a_request_is_the_line_without_the_white_space_around_it() {
    let dispatching = Reading::accepted().line("  {\"GetSession\":{\"pid\":1}}\r\n");
    assert_eq!(dispatching.text(), "{\"GetSession\":{\"pid\":1}}");
}

#[test]
fn a_line_of_white_space_is_a_request_too_and_is_answered() {
    let mut connection = Reading::accepted();
    for line in ["\n", "   \r\n", "\t\n"] {
        let dispatching = connection.line(line);
        assert_eq!(dispatching.text(), "");
        let responding = dispatching.malformed("EOF while parsing a value at line 1 column 0");
        assert_eq!(
            responding.answer(),
            &EnvResponse::Error {
                message: "Failed to parse event: EOF while parsing a value at line 1 column 0".to_string()
            }
        );
        let (reading, frame) = responding.written("{\"Error\":{\"message\":\"...\"}}");
        assert_eq!(frame, "{\"Error\":{\"message\":\"...\"}}\n");
        connection = reading;
    }
}

#[test]
fn a_malformed_request_is_answered_and_the_connection_goes_on() {
    let dispatching = Reading::accepted().line("not json\n");
    let responding = dispatching.malformed("expected ident at line 1 column 2");
    assert_eq!(
        responding.answer(),
        &EnvResponse::Error { message: "Failed to parse event: expected ident at line 1 column 2".to_string() }
    );
    let (reading, frame) = responding.written("{\"Error\":{\"message\":\"...\"}}");
    assert_eq!(frame, "{\"Error\":{\"message\":\"...\"}}\n");
    // the next line is read as any other
    let next = reading.line("{\"GetSession\":{\"pid\":1}}\n");
    assert_eq!(next.text(), "{\"GetSession\":{\"pid\":1}}");
}

#[test]
fn an_answer_is_framed_as_one_line() {
    let responding = Reading::accepted().line("x").answered(EnvResponse::Done);
    assert_eq!(responding.answer(), &EnvResponse::Done);
    let (_, frame) = responding.written("\"Ok\"");
    assert_eq!(frame, "\"Ok\"\n");
}

#[test]
fn every_line_is_answered_in_turn() {
    let lines = ["a\n", "\n", "b\n", " \n", "c\n"];
    let mut connection = Reading::accepted();
    let mut frames = Vec::new();
    for line in lines {
        let dispatching = connection.line(line);
        let text = dispatching.text().to_string();
        let (reading, frame) = dispatching.answered(EnvResponse::Done).written(&format!("<{}>", text));
        frames.push(frame);
        connection = reading;
    }
    assert_eq!(frames, vec!["<a>\n", "<>\n", "<b>\n", "<>\n", "<c>\n"]);
}
