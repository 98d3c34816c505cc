use envhist::client::{ask_session, get_session, read_reply, send_capture, send_set, send_unset, ReplyLine};
use envhist::session::{Session, Timestamp};
use envhist::{Env, EnvEvent, EnvResponse};

#[test]
fn events_are_built_from_their_parts() {
    assert_eq!(
        send_set(100, "FOO".to_string(), "bar".to_string()),
        EnvEvent::SetVar { pid: 100, key: "FOO".to_string(), value: "bar".to_string() }
    );
    assert_eq!(send_unset(100, "FOO".to_string()), EnvEvent::Unset { pid: 100, key: "FOO".to_string() });
    let mut env = Env::new();
    env.insert("A".to_string(), "1".to_string());
    assert_eq!(send_capture(7, env.clone()), EnvEvent::Capture { pid: 7, env });
    assert_eq!(ask_session(9), EnvEvent::GetSession { pid: 9 });
}

#[test]
fn a_blank_reply_counts_as_done() {
    assert_eq!(read_reply(""), ReplyLine::Taken { response: EnvResponse::Done });
    assert_eq!(read_reply(" \n"), ReplyLine::Taken { response: EnvResponse::Done });
}

#[test]
fn any_other_reply_is_to_be_parsed_without_the_white_space_around_it() {
    assert_eq!(read_reply("\"Ok\"\n"), ReplyLine::Encoded { text: "\"Ok\"".to_string() });
    assert_eq!(read_reply("  x y \r\n"), ReplyLine::Encoded { text: "x y".to_string() });
}

#[test]
fn get_session_takes_the_session_from_the_reply() {
    let session = Session::starting(1, 2, "zsh".to_string(), Timestamp::new(3, 4));
    assert_eq!(get_session(Some(EnvResponse::Session { session: session.clone() })), Ok(Some(session)));
}

#[test]
fn get_session_reports_the_error_of_the_daemon() {
    assert_eq!(
        get_session(Some(EnvResponse::Error { message: "no".to_string() })),
        Err("Daemon error fetching session: no".to_string())
    );
}

#[test]
fn get_session_without_a_daemon_or_with_another_reply_gives_none() {
    assert_eq!(get_session(None), Ok(None));
    assert_eq!(get_session(Some(EnvResponse::Done)), Ok(None));
}
