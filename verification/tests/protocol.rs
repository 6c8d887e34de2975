use simple_chat::message::{decode, encode, ClientMessage, DecodeError, ServerMessage};

#[test]
fn client_message_round_trip() {
    let cases = vec![
        ClientMessage::Join {
            username: "alice".into(),
        },
        ClientMessage::Leave,
        ClientMessage::Send {
            content: "hello world".into(),
        },
    ];

    for msg in cases {
        let encoded = encode(&msg);
        let decoded: ClientMessage = decode(&encoded).unwrap();
        assert_eq!(msg, decoded);
    }
}

#[test]
fn server_message_round_trip() {
    let cases = vec![
        ServerMessage::Joined {
            username: "bob".into(),
        },
        ServerMessage::Left {
            username: "bob".into(),
        },
        ServerMessage::Message {
            username: "bob".into(),
            content: "hey".into(),
        },
        ServerMessage::Error {
            reason: "username taken".into(),
        },
    ];

    for msg in cases {
        let encoded = encode(&msg);
        let decoded: ServerMessage = decode(&encoded).unwrap();
        assert_eq!(msg, decoded);
    }
}

#[test]
fn decode_invalid_json_is_err() {
    let result: Result<ClientMessage, DecodeError> = decode("not json");
    assert!(result.is_err());
}

#[test]
fn encode_produces_newline_terminated_json() {
    let msg = ClientMessage::Leave;
    let encoded = encode(&msg);
    assert!(encoded.ends_with('\n'));
    assert_eq!(encoded.matches('\n').count(), 1);
}

#[test]
fn encode_writes_compact_tagged_json() {
    assert_eq!(
        encode(&ClientMessage::Join {
            username: "alice".into()
        }),
        "{\"type\":\"join\",\"username\":\"alice\"}\n"
    );
    assert_eq!(encode(&ClientMessage::Leave), "{\"type\":\"leave\"}\n");
    assert_eq!(
        encode(&ClientMessage::Send {
            content: "hi".into()
        }),
        "{\"type\":\"send\",\"content\":\"hi\"}\n"
    );
    assert_eq!(
        encode(&ServerMessage::Message {
            username: "bob".into(),
            content: "hey".into()
        }),
        "{\"type\":\"message\",\"username\":\"bob\",\"content\":\"hey\"}\n"
    );
    assert_eq!(
        encode(&ServerMessage::Joined {
            username: "bob".into()
        }),
        "{\"type\":\"joined\",\"username\":\"bob\"}\n"
    );
    assert_eq!(
        encode(&ServerMessage::Left {
            username: "bob".into()
        }),
        "{\"type\":\"left\",\"username\":\"bob\"}\n"
    );
    assert_eq!(
        encode(&ServerMessage::Error {
            reason: "nope".into()
        }),
        "{\"type\":\"error\",\"reason\":\"nope\"}\n"
    );
}

#[test]
fn encode_escapes_string_contents() {
    let msg = ClientMessage::Send {
        content: "say \"hi\"\\\nnext\u{1}\u{7f}é".into(),
    };
    let encoded = encode(&msg);
    assert_eq!(
        encoded,
        "{\"type\":\"send\",\"content\":\"say \\\"hi\\\"\\\\\\nnext\\u0001\u{7f}é\"}\n"
    );
    assert_eq!(encoded.matches('\n').count(), 1);
    let back: ClientMessage = decode(&encoded).unwrap();
    assert_eq!(back, msg);
}

#[test]
fn round_trip_keeps_awkward_text() {
    let texts = ["", " padded ", "tab\there", "{\"type\":\"leave\"}", "\u{8}\u{c}\r", "日本語 😀"];
    for t in texts {
        let msg = ServerMessage::Message {
            username: t.into(),
            content: t.into(),
        };
        let back: ServerMessage = decode(&encode(&msg)).unwrap();
        assert_eq!(back, msg);
    }
}

#[test]
fn decode_reads_other_layouts_of_the_same_object() {
    let m: ClientMessage =
        decode("  { \"username\" : \"al\\u0069ce\" ,\n \"type\":\"join\" }  \r\n").unwrap();
    assert_eq!(
        m,
        ClientMessage::Join {
            username: "alice".into()
        }
    );
    let m: ClientMessage = decode("{\"type\":\"leave\",\"extra\":\"ignored\"}").unwrap();
    assert_eq!(m, ClientMessage::Leave);
    let m: ServerMessage =
        decode("{\"content\":\"c\",\"username\":\"u\",\"type\":\"message\"}").unwrap();
    assert_eq!(
        m,
        ServerMessage::Message {
            username: "u".into(),
            content: "c".into()
        }
    );
}

#[test]
fn decode_errors_say_what_is_wrong() {
    let r: Result<ClientMessage, DecodeError> = decode("{}");
    assert_eq!(r, Err(DecodeError::MissingField));
    let r: Result<ClientMessage, DecodeError> = decode("{\"type\":\"join\"}");
    assert_eq!(r, Err(DecodeError::MissingField));
    let r: Result<ClientMessage, DecodeError> =
        decode("{\"type\":\"send\",\"content\":\"a\",\"content\":\"b\"}");
    assert_eq!(r, Err(DecodeError::DuplicateField));
    let r: Result<ClientMessage, DecodeError> = decode("{\"type\":\"leave\",\"type\":\"leave\"}");
    assert_eq!(r, Err(DecodeError::DuplicateField));
    let r: Result<ClientMessage, DecodeError> = decode("{\"type\":\"shout\"}");
    assert_eq!(r, Err(DecodeError::UnknownType));
    let r: Result<ServerMessage, DecodeError> = decode("{\"type\":\"join\",\"username\":\"a\"}");
    assert_eq!(r, Err(DecodeError::UnknownType));
    let r: Result<ClientMessage, DecodeError> = decode("{\"type\":\"send\",\"content\":1}");
    assert_eq!(r, Err(DecodeError::InvalidType));
    let r: Result<ClientMessage, DecodeError> = decode("{\"type\":7}");
    assert_eq!(r, Err(DecodeError::InvalidType));
    let r: Result<ClientMessage, DecodeError> = decode("{\"type\":\"leave\"} x");
    assert_eq!(r, Err(DecodeError::Syntax));
    let r: Result<ClientMessage, DecodeError> = decode("{\"type\":\"le\\qave\"}");
    assert_eq!(r, Err(DecodeError::Syntax));
    let r: Result<ClientMessage, DecodeError> = decode("{\"type\":\"leave\",}");
    assert_eq!(r, Err(DecodeError::Syntax));
    let r: Result<ClientMessage, DecodeError> = decode("");
    assert_eq!(r, Err(DecodeError::Syntax));
}

#[test]
fn decode_error_descriptions() {
    assert_eq!(DecodeError::Syntax.describe(), "not a JSON object or array");
    assert_eq!(DecodeError::MissingField.describe(), "missing field");
    assert_eq!(DecodeError::DuplicateField.describe(), "duplicate field");
    assert_eq!(DecodeError::UnknownType.describe(), "unknown message type");
    assert_eq!(DecodeError::InvalidType.describe(), "member value is not a string");
    assert_eq!(DecodeError::WrongLength.describe(), "too many elements");
}

#[test]
fn decode_skips_members_of_any_json_type_it_does_not_read() {
    let m: ClientMessage = decode("{\"type\":\"leave\",\"n\":1}").unwrap();
    assert_eq!(m, ClientMessage::Leave);
    let m: ClientMessage = decode(
        "{\"ts\": -12.5e3, \"ok\": true, \"no\": false, \"none\": null, \"type\": \"send\", \
         \"tags\": [1, \"a]\", {\"k\": [\"}\"]}], \"meta\": {\"x\": {}}, \"content\": \"hi\"}",
    )
    .unwrap();
    assert_eq!(
        m,
        ClientMessage::Send {
            content: "hi".into()
        }
    );
    let m: ServerMessage =
        decode("{\"type\":\"joined\",\"username\":\"bob\",\"extra\":[]}").unwrap();
    assert_eq!(
        m,
        ServerMessage::Joined {
            username: "bob".into()
        }
    );
}

#[test]
fn decode_refuses_members_that_are_no_json_value() {
    for line in [
        "{\"type\":\"leave\",\"n\":01}",
        "{\"type\":\"leave\",\"n\":tru}",
        "{\"type\":\"leave\",\"n\":1e400}",
        "{\"type\":\"leave\",\"n\":[1,}",
        "{\"type\":\"leave\",\"n\":[1}",
        "{\"type\":\"leave\",\"n\":{1:2}}",
        "{\"type\":\"leave\",\"n\":\"bad\\q\"}",
    ] {
        let r: Result<ClientMessage, DecodeError> = decode(line);
        assert_eq!(r, Err(DecodeError::Syntax), "{}", line);
    }
}

fn nested(depth: usize) -> String {
    format!("{}{}", "[".repeat(depth), "]".repeat(depth))
}

#[test]
fn decode_takes_values_nested_as_deep_as_serde_json_does() {
    let ok = format!("{{\"type\":\"leave\",\"n\":{}}}", nested(126));
    let r: Result<ClientMessage, DecodeError> = decode(&ok);
    assert_eq!(r, Ok(ClientMessage::Leave));
    let too_deep = format!("{{\"type\":\"leave\",\"n\":{}}}", nested(127));
    let r: Result<ClientMessage, DecodeError> = decode(&too_deep);
    assert_eq!(r, Err(DecodeError::Syntax));
}

#[test]
fn decode_reads_the_array_form() {
    let m: ClientMessage = decode("[\"join\", \"alice\"]").unwrap();
    assert_eq!(
        m,
        ClientMessage::Join {
            username: "alice".into()
        }
    );
    let m: ClientMessage = decode(" [\"leave\"] ").unwrap();
    assert_eq!(m, ClientMessage::Leave);
    let m: ServerMessage = decode("[\"message\",\"bob\",\"hey\"]").unwrap();
    assert_eq!(
        m,
        ServerMessage::Message {
            username: "bob".into(),
            content: "hey".into()
        }
    );
    let r: Result<ClientMessage, DecodeError> = decode("[]");
    assert_eq!(r, Err(DecodeError::MissingField));
    let r: Result<ClientMessage, DecodeError> = decode("[\"join\"]");
    assert_eq!(r, Err(DecodeError::MissingField));
    let r: Result<ClientMessage, DecodeError> = decode("[\"leave\", 1]");
    assert_eq!(r, Err(DecodeError::WrongLength));
    let r: Result<ClientMessage, DecodeError> = decode("[\"send\", \"a\", \"b\"]");
    assert_eq!(r, Err(DecodeError::WrongLength));
    let r: Result<ClientMessage, DecodeError> = decode("[\"send\", 5]");
    assert_eq!(r, Err(DecodeError::InvalidType));
    let r: Result<ClientMessage, DecodeError> = decode("[1, \"a\"]");
    assert_eq!(r, Err(DecodeError::InvalidType));
    let r: Result<ClientMessage, DecodeError> = decode("[\"shout\"]");
    assert_eq!(r, Err(DecodeError::UnknownType));
    let r: Result<ClientMessage, DecodeError> = decode("[\"leave\",]");
    assert_eq!(r, Err(DecodeError::Syntax));
}
