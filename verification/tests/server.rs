use simple_chat::message::{encode, ClientMessage, ServerMessage};
use simple_chat::registry::{Registry, MAX_USERNAME_LEN};
use simple_chat::session::{
    announce_join, broadcast, depart, handshake, on_event, Admission, SessionAction,
    SessionEvent,
};

fn join_line(name: &str) -> String {
    encode(&ClientMessage::Join {
        username: name.into(),
    })
}

fn send_line(text: &str) -> String {
    encode(&ClientMessage::Send {
        content: text.into(),
    })
}

fn connect(registry: &mut Registry, name: &str, conn: u64) -> String {
    match handshake(registry, &join_line(name), conn) {
        Admission::Admitted(n) => n,
        Admission::Refused(m) => panic!("refused: {:?}", m),
    }
}

fn conns(list: &[(String, u64)]) -> Vec<u64> {
    let mut v: Vec<u64> = list.iter().map(|(_, c)| *c).collect();
    v.sort();
    v
}

fn refusal(admission: Admission) -> String {
    match admission {
        Admission::Refused(ServerMessage::Error { reason }) => reason,
        Admission::Refused(other) => panic!("unexpected message {:?}", other),
        Admission::Admitted(n) => panic!("admitted {}", n),
    }
}

#[test]
fn user_join_is_broadcast() {
    let mut users = Registry::new();
    let alice = connect(&mut users, "alice", 1);
    let first = announce_join(&users, &alice);
    assert!(first.recipients.is_empty());
    let bob = connect(&mut users, "bob", 2);
    let notice = announce_join(&users, &bob);
    assert_eq!(conns(&notice.recipients), vec![1]);
    assert_eq!(
        notice.message,
        ServerMessage::Joined {
            username: "bob".into()
        }
    );
}

#[test]
fn message_is_broadcast_to_others() {
    let mut users = Registry::new();
    let _alice = connect(&mut users, "alice", 1);
    let bob = connect(&mut users, "bob", 2);
    let action = on_event(&bob, &SessionEvent::Line(send_line("hello from bob")));
    let msg = match action {
        SessionAction::Relay(m) => m,
        _ => panic!("expected a relay"),
    };
    assert_eq!(
        msg,
        ServerMessage::Message {
            username: "bob".into(),
            content: "hello from bob".into(),
        }
    );
    let out = broadcast(&users, &bob, msg);
    assert_eq!(conns(&out.recipients), vec![1]);
    assert!(out.recipients.iter().all(|(name, _)| name != "bob"));
}

#[test]
fn leave_is_broadcast() {
    let mut users = Registry::new();
    let _alice = connect(&mut users, "alice", 1);
    let bob = connect(&mut users, "bob", 2);
    let line = encode(&ClientMessage::Leave);
    assert!(matches!(
        on_event(&bob, &SessionEvent::Line(line)),
        SessionAction::End
    ));
    let out = depart(&mut users, &bob);
    assert_eq!(conns(&out.recipients), vec![1]);
    assert_eq!(
        out.message,
        ServerMessage::Left {
            username: "bob".into()
        }
    );
}

#[test]
fn duplicate_username_is_rejected() {
    let mut users = Registry::new();
    let _alice = connect(&mut users, "alice", 1);
    let second = handshake(&mut users, &join_line("alice"), 2);
    assert_eq!(refusal(second), "username already taken");
    let again = handshake(&mut users, &join_line("  alice "), 3);
    assert_eq!(refusal(again), "username already taken");
    assert_eq!(conns(&users.recipients("")), vec![1]);
}

#[test]
fn disconnect_triggers_leave_broadcast() {
    let mut users = Registry::new();
    let _alice = connect(&mut users, "alice", 1);
    let bob = connect(&mut users, "bob", 2);
    assert!(matches!(
        on_event(&bob, &SessionEvent::Closed),
        SessionAction::End
    ));
    let out = depart(&mut users, &bob);
    assert_eq!(conns(&out.recipients), vec![1]);
    assert_eq!(
        out.message,
        ServerMessage::Left {
            username: "bob".into()
        }
    );
}

#[test]
fn multiple_users_receive_messages() {
    let mut users = Registry::new();
    let alice = connect(&mut users, "alice", 1);
    let _bob = connect(&mut users, "bob", 2);
    let _charlie = connect(&mut users, "charlie", 3);
    let msg = match on_event(&alice, &SessionEvent::Line(send_line("hey everyone"))) {
        SessionAction::Relay(m) => m,
        _ => panic!("expected a relay"),
    };
    assert_eq!(
        msg,
        ServerMessage::Message {
            username: "alice".into(),
            content: "hey everyone".into(),
        }
    );
    let out = broadcast(&users, &alice, msg);
    assert_eq!(conns(&out.recipients), vec![2, 3]);
}

#[test]
fn empty_username_is_rejected() {
    let mut users = Registry::new();
    let r = handshake(&mut users, &join_line("  "), 1);
    assert_eq!(refusal(r), "username cannot be empty");
    assert!(users.recipients("").is_empty());
}

#[test]
fn username_too_long_is_rejected() {
    let mut users = Registry::new();
    let long_name = "a".repeat(100);
    let r = handshake(&mut users, &join_line(&long_name), 1);
    assert_eq!(refusal(r), "username too long");
    assert!(users.recipients("").is_empty());
}

#[test]
fn username_length_counts_utf8_bytes() {
    let mut users = Registry::new();
    let exact = "a".repeat(MAX_USERNAME_LEN);
    assert!(matches!(
        handshake(&mut users, &join_line(&exact), 1),
        Admission::Admitted(_)
    ));
    // 11 characters of three bytes each: 33 bytes.
    let wide = "語".repeat(11);
    assert_eq!(refusal(handshake(&mut users, &join_line(&wide), 2)), "username too long");
    // 10 of them and two ASCII letters: 32 bytes.
    let fits = format!("{}ab", "語".repeat(10));
    assert!(matches!(
        handshake(&mut users, &join_line(&fits), 3),
        Admission::Admitted(_)
    ));
}

#[test]
fn handshake_trims_the_name() {
    let mut users = Registry::new();
    match handshake(&mut users, &join_line("\t carol \u{3000}"), 7) {
        Admission::Admitted(n) => assert_eq!(n, "carol"),
        Admission::Refused(m) => panic!("refused {:?}", m),
    }
    let out = depart(&mut users, "carol");
    assert!(out.recipients.is_empty());
    assert!(users.recipients("").is_empty());
}

#[test]
fn first_message_must_be_a_join() {
    let mut users = Registry::new();
    let r = handshake(&mut users, &send_line("hi"), 1);
    assert_eq!(refusal(r), "first message must be a join");
    let r = handshake(&mut users, "garbage", 1);
    assert_eq!(refusal(r), "first message must be a join");
    assert!(users.recipients("").is_empty());
}

#[test]
fn session_ignores_second_join_and_bad_lines() {
    assert!(matches!(
        on_event("alice", &SessionEvent::Line(join_line("mallory"))),
        SessionAction::IgnoreJoin
    ));
    assert!(matches!(
        on_event("alice", &SessionEvent::Line("{oops".into())),
        SessionAction::IgnoreMalformed(_)
    ));
}

#[test]
fn rejoining_after_leaving_is_allowed() {
    let mut users = Registry::new();
    let alice = connect(&mut users, "alice", 1);
    let _ = depart(&mut users, &alice);
    let again = connect(&mut users, "alice", 2);
    assert_eq!(again, "alice");
    assert_eq!(conns(&users.recipients("bob")), vec![2]);
}

#[test]
fn attach_replaces_the_connection() {
    let mut users = Registry::new();
    let alice = connect(&mut users, "alice", 1);
    users.attach(alice.clone(), 9);
    assert_eq!(conns(&users.recipients("")), vec![9]);
    assert_eq!(users.remove(&alice), Some(9));
    assert_eq!(users.remove(&alice), None);
    assert!(users.claim("bob".into(), 4));
    assert!(!users.claim("bob".into(), 5));
    assert_eq!(conns(&users.recipients("")), vec![4]);
}
