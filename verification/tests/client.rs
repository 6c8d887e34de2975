use simple_chat::client::{command_message, display_line, interpret_input, Command, Output};
use simple_chat::message::{encode, ClientMessage, DecodeError, ServerMessage};

#[test]
fn typed_leave_in_any_case_leaves() {
    assert!(matches!(interpret_input("leave"), Command::Leave));
    assert!(matches!(interpret_input("  LeAvE \n"), Command::Leave));
    assert!(matches!(interpret_input("leaves"), Command::Usage));
}

#[test]
fn typed_send_sends_the_rest() {
    match interpret_input("send hello there\n") {
        Command::Send(s) => assert_eq!(s, "hello there"),
        _ => panic!("expected send"),
    }
    match interpret_input("send  spaced") {
        Command::Send(s) => assert_eq!(s, " spaced"),
        _ => panic!("expected send"),
    }
    assert!(matches!(interpret_input("send"), Command::Usage));
    assert!(matches!(interpret_input("SEND x"), Command::Usage));
    assert!(matches!(interpret_input("hello"), Command::Usage));
    assert!(matches!(interpret_input("   "), Command::Nothing));
    assert!(matches!(interpret_input(""), Command::Nothing));
}

#[test]
fn commands_map_to_messages() {
    assert_eq!(command_message(&Command::Leave), Some(ClientMessage::Leave));
    assert_eq!(
        command_message(&Command::Send("x".into())),
        Some(ClientMessage::Send {
            content: "x".into()
        })
    );
    assert_eq!(command_message(&Command::Usage), None);
    assert_eq!(command_message(&Command::SendUsage), None);
    assert_eq!(command_message(&Command::Nothing), None);
}

fn shown(line: &str) -> Output {
    display_line(line)
}

#[test]
fn server_lines_are_shown() {
    let m = encode(&ServerMessage::Message {
        username: "bob".into(),
        content: "hey".into(),
    });
    assert!(matches!(shown(&m), Output::Show(s) if s == "[bob] hey"));
    let j = encode(&ServerMessage::Joined {
        username: "bob".into(),
    });
    assert!(matches!(shown(&j), Output::Show(s) if s == "* bob joined the chat"));
    let l = encode(&ServerMessage::Left {
        username: "bob".into(),
    });
    assert!(matches!(shown(&l), Output::Show(s) if s == "* bob left the chat"));
    let e = encode(&ServerMessage::Error {
        reason: "username already taken".into(),
    });
    assert!(matches!(shown(&e), Output::Stop(s) if s == "error: username already taken"));
    assert!(matches!(
        shown("nonsense"),
        Output::Malformed(DecodeError::Syntax)
    ));
    assert!(matches!(
        shown("{\"type\":\"joined\"}"),
        Output::Malformed(DecodeError::MissingField)
    ));
}
