use crate::message::{decode, decoded, ClientMessage, ClientModel, ServerMessage, ServerModel};
use crate::registry::{all_names_valid, is_recipient_list, valid_username, Registry, MAX_USERNAME_LEN};
use crate::text::{chars_of, lemma_trim_idempotent, trim, trim_text, utf8_len_exceeds};
use vstd::prelude::*;
use vstd::utf8::encode_utf8;

verus! {


/// The reason sent to a client whose first message is not a join.
pub open spec fn reason_not_join() -> Seq<char> {
    "first message must be a join"@
}

/// The reason sent to a client whose name is empty once trimmed.
pub open spec fn reason_empty() -> Seq<char> {
    "username cannot be empty"@
}

/// The reason sent to a client whose name is too long.
pub open spec fn reason_too_long() -> Seq<char> {
    "username too long"@
}

/// The reason sent to a client whose name another user has.
pub open spec fn reason_taken() -> Seq<char> {
    "username already taken"@
}


/// What the server does with the first line of a connection.
pub enum Admission {
    /// The user joins under this name.
    Admitted(String),
    /// The server sends this message back and closes the connection.
    Refused(ServerMessage),
}

/// What an `Admission` holds.
pub enum AdmissionModel {
    Admitted(Seq<char>),
    Refused(ServerModel),
}

impl View for Admission {
    type V = AdmissionModel;

    open spec fn view(&self) -> AdmissionModel {
        match self {
            Admission::Admitted(name) => AdmissionModel::Admitted(name@),
            Admission::Refused(msg) => AdmissionModel::Refused(msg@),
        }
    }
}

/// The answer to the first line `first` of a connection while `users` are
/// connected: a join, under its name trimmed, that is not empty, not longer
/// than `MAX_USERNAME_LEN` bytes and no user's name, is admitted; anything
/// else is refused with the reason for it.
pub open spec fn admission(first: Seq<char>, users: Map<Seq<char>, u64>) -> AdmissionModel {
    match decoded::<ClientMessage>(first) {
        Ok(ClientModel::Join { username }) => {
            let name = trim(username);
            if name.len() == 0 {
                AdmissionModel::Refused(ServerModel::Error { reason: reason_empty() })
            } else if encode_utf8(name).len() > MAX_USERNAME_LEN {
                AdmissionModel::Refused(ServerModel::Error { reason: reason_too_long() })
            } else if users.contains_key(name) {
                AdmissionModel::Refused(ServerModel::Error { reason: reason_taken() })
            } else {
                AdmissionModel::Admitted(name)
            }
        },
        _ => AdmissionModel::Refused(ServerModel::Error { reason: reason_not_join() }),
    }
}

/// The handshake of a connection: reads its first line and, where it admits
/// the user, claims the name for `conn` in the registry in one step.
pub fn handshake(registry: &mut Registry, first_line: &str, conn: u64) -> (r: Admission)
    ensures
        r@ == admission(first_line@, old(registry)@),
        final(registry)@ == match r@ {
            AdmissionModel::Admitted(name) => old(registry)@.insert(name, conn),
            AdmissionModel::Refused(_) => old(registry)@,
        },
        all_names_valid(final(registry)@),
{
    proof {
        use_type_invariant(&*registry);
        Registry::lemma_names_are_valid(*registry);
    }
    let username = match decode::<ClientMessage>(first_line) {
        Ok(ClientMessage::Join { username }) => username,
        _ => {
            return Admission::Refused(
                ServerMessage::Error { reason: String::from_str("first message must be a join") },
            );
        },
    };
    let name = String::from_str(trim_text(username.as_str()));
    if name.as_str().is_empty() {
        return Admission::Refused(
            ServerMessage::Error { reason: String::from_str("username cannot be empty") },
        );
    }
    if utf8_len_exceeds(&chars_of(name.as_str()), MAX_USERNAME_LEN) {
        return Admission::Refused(
            ServerMessage::Error { reason: String::from_str("username too long") },
        );
    }
    proof {
        lemma_trim_idempotent(username@);
    }
    if registry.claim(name.clone(), conn) {
        Admission::Admitted(name)
    } else {
        Admission::Refused(ServerMessage::Error { reason: String::from_str("username already taken") })
    }
}

/// A name that the handshake lets in is a valid name that no user had, and
/// the registry then holds it.
pub proof fn law_admitted_names_are_valid_and_new(first: Seq<char>, users: Map<Seq<char>, u64>)
    ensures
        admission(first, users) matches AdmissionModel::Admitted(name) ==> valid_username(name)
            && !users.contains_key(name),
{
    if let AdmissionModel::Admitted(name) = admission(first, users) {
        if let Ok(ClientModel::Join { username }) = decoded::<ClientMessage>(first) {
            lemma_trim_idempotent(username);
        }
    }
}

/// What the handshake answers a first line, case by case, in terms of the
/// decoded line, the trimmed name, its UTF-8 length and the users present:
/// a line that is no join is refused as such; a join is refused for an empty
/// name, then for a name over `MAX_USERNAME_LEN` bytes, then for a name that
/// a user has; every other join is let in under exactly its trimmed name.
pub proof fn law_handshake_answers(first: Seq<char>, users: Map<Seq<char>, u64>)
    ensures
        !(decoded::<ClientMessage>(first) matches Ok(ClientModel::Join { .. })) ==> admission(
            first,
            users,
        ) == AdmissionModel::Refused(ServerModel::Error { reason: reason_not_join() }),
        forall|username: Seq<char>|
            decoded::<ClientMessage>(first) == Ok::<ClientModel, crate::message::DecodeError>(
                ClientModel::Join { username },
            ) ==> {
                let name = trim(username);
                &&& name.len() == 0 ==> admission(first, users) == AdmissionModel::Refused(
                    ServerModel::Error { reason: reason_empty() },
                )
                &&& name.len() > 0 && encode_utf8(name).len() > MAX_USERNAME_LEN ==> admission(
                    first,
                    users,
                ) == AdmissionModel::Refused(ServerModel::Error { reason: reason_too_long() })
                &&& name.len() > 0 && encode_utf8(name).len() <= MAX_USERNAME_LEN
                    && users.contains_key(name) ==> admission(first, users)
                    == AdmissionModel::Refused(ServerModel::Error { reason: reason_taken() })
                &&& name.len() > 0 && encode_utf8(name).len() <= MAX_USERNAME_LEN
                    && !users.contains_key(name) ==> admission(first, users)
                    == AdmissionModel::Admitted(name)
            },
{
}

/// A join under a name that is, once trimmed, not empty, at most
/// `MAX_USERNAME_LEN` bytes and no user's name, is let in under exactly
/// that trimmed name.
pub proof fn law_valid_new_name_is_admitted(
    first: Seq<char>,
    users: Map<Seq<char>, u64>,
    username: Seq<char>,
)
    requires
        decoded::<ClientMessage>(first) == Ok::<ClientModel, crate::message::DecodeError>(
            ClientModel::Join { username },
        ),
        trim(username).len() > 0,
        encode_utf8(trim(username)).len() <= MAX_USERNAME_LEN,
        !users.contains_key(trim(username)),
    ensures
        admission(first, users) == AdmissionModel::Admitted(trim(username)),
{
    law_handshake_answers(first, users);
}

/// Names stay unique: once the handshake lets a user in under a name, a
/// later join under the same name, once trimmed, is refused as taken.
pub proof fn law_second_join_under_a_name_is_refused(
    first: Seq<char>,
    second: Seq<char>,
    users: Map<Seq<char>, u64>,
    conn: u64,
    username: Seq<char>,
)
    requires
        admission(first, users) is Admitted,
        decoded::<ClientMessage>(second) == Ok::<ClientModel, crate::message::DecodeError>(
            ClientModel::Join { username },
        ),
        trim(username) == admission(first, users)->Admitted_0,
    ensures
        admission(second, users.insert(trim(username), conn)) == (AdmissionModel::Refused(
            ServerModel::Error { reason: reason_taken() },
        )),
{
    law_admitted_names_are_valid_and_new(first, users);
}

/// Leaving undoes joining: a user that the handshake lets in and that then
/// departs leaves the registry as it was before.
pub proof fn law_depart_undoes_join(first: Seq<char>, users: Map<Seq<char>, u64>, conn: u64)
    ensures
        admission(first, users) matches AdmissionModel::Admitted(name) ==> users.insert(
            name,
            conn,
        ).remove(name) == users,
{
    if let AdmissionModel::Admitted(name) = admission(first, users) {
        assert(users.insert(name, conn).remove(name) =~= users);
    }
}

/// A message and the users it goes to, each with its connection.
pub struct Broadcast {
    pub recipients: Vec<(String, u64)>,
    pub message: ServerMessage,
}

/// `message`, for every user but `sender`.
pub fn broadcast(registry: &Registry, sender: &str, message: ServerMessage) -> (b: Broadcast)
    ensures
        is_recipient_list(b.recipients@, registry@, sender@),
        b.message == message,
{
    Broadcast { recipients: registry.recipients(sender), message }
}

/// The notice that `username` joined, for every other user.
pub fn announce_join(registry: &Registry, username: &str) -> (b: Broadcast)
    ensures
        is_recipient_list(b.recipients@, registry@, username@),
        b.message@ == (ServerModel::Joined { username: username@ }),
{
    broadcast(registry, username, ServerMessage::Joined { username: String::from_str(username) })
}

/// The end of `username`'s connection: the user leaves the registry, and the
/// notice that it left goes to every user that stays.
pub fn depart(registry: &mut Registry, username: &str) -> (b: Broadcast)
    ensures
        final(registry)@ == old(registry)@.remove(username@),
        all_names_valid(final(registry)@),
        is_recipient_list(b.recipients@, final(registry)@, username@),
        b.message@ == (ServerModel::Left { username: username@ }),
{
    let _ = registry.remove(username);
    broadcast(registry, username, ServerMessage::Left { username: String::from_str(username) })
}

/// What happens on a connection once its user has joined.
pub enum SessionEvent {
    /// The client sent this line.
    Line(String),
    /// The client is gone: its input ended or failed, or the server shuts
    /// down.
    Closed,
}

/// What the server does on a session event.
pub enum SessionAction {
    /// Sends this message to every other user.
    Relay(ServerMessage),
    /// Ignores a second join.
    IgnoreJoin,
    /// Ignores a line that is no message, for this reason.
    IgnoreMalformed(crate::message::DecodeError),
    /// Ends the session.
    End,
}

/// What a `SessionAction` holds.
pub enum SessionActionModel {
    Relay(ServerModel),
    IgnoreJoin,
    IgnoreMalformed(crate::message::DecodeError),
    End,
}

impl View for SessionAction {
    type V = SessionActionModel;

    open spec fn view(&self) -> SessionActionModel {
        match self {
            SessionAction::Relay(m) => SessionActionModel::Relay(m@),
            SessionAction::IgnoreJoin => SessionActionModel::IgnoreJoin,
            SessionAction::IgnoreMalformed(e) => SessionActionModel::IgnoreMalformed(*e),
            SessionAction::End => SessionActionModel::End,
        }
    }
}

/// What the server does when `username`'s client sends the line `line`
/// (`None` where the client is gone): a sent text goes to the others under
/// the user's name, a leave or the end of the connection ends the session,
/// and a second join or a line that is no message is ignored.
pub open spec fn session_step(username: Seq<char>, line: Option<Seq<char>>) -> SessionActionModel {
    match line {
        None => SessionActionModel::End,
        Some(l) => match decoded::<ClientMessage>(l) {
            Ok(ClientModel::Send { content }) => SessionActionModel::Relay(
                ServerModel::Message { username, content },
            ),
            Ok(ClientModel::Leave) => SessionActionModel::End,
            Ok(ClientModel::Join { .. }) => SessionActionModel::IgnoreJoin,
            Err(e) => SessionActionModel::IgnoreMalformed(e),
        },
    }
}

/// Every text that a joined user sends goes to the others whole, under the
/// user's name; a leave and the end of the connection end the session; a
/// second join and a line that is no message are ignored.
pub proof fn law_session_answers(username: Seq<char>, line: Seq<char>)
    ensures
        forall|content: Seq<char>|
            decoded::<ClientMessage>(line) == Ok::<ClientModel, crate::message::DecodeError>(
                ClientModel::Send { content },
            ) ==> session_step(username, Some(line)) == SessionActionModel::Relay(
                ServerModel::Message { username, content },
            ),
        decoded::<ClientMessage>(line) == Ok::<ClientModel, crate::message::DecodeError>(
            ClientModel::Leave,
        ) ==> session_step(username, Some(line)) == SessionActionModel::End,
        decoded::<ClientMessage>(line) matches Ok(ClientModel::Join { .. }) ==> session_step(
            username,
            Some(line),
        ) == SessionActionModel::IgnoreJoin,
        decoded::<ClientMessage>(line) matches Err(e) ==> session_step(username, Some(line))
            == SessionActionModel::IgnoreMalformed(e),
        session_step(username, None) == SessionActionModel::End,
{
}

/// The line that a session event carries, if any.
pub open spec fn event_line(event: &SessionEvent) -> Option<Seq<char>> {
    match event {
        SessionEvent::Line(l) => Some(l@),
        SessionEvent::Closed => None,
    }
}

/// The server's decision on one event of `username`'s session.
pub fn on_event(username: &str, event: &SessionEvent) -> (a: SessionAction)
    ensures
        a@ == session_step(username@, event_line(event)),
{
    match event {
        SessionEvent::Closed => SessionAction::End,
        SessionEvent::Line(line) => match decode::<ClientMessage>(line.as_str()) {
            Ok(ClientMessage::Send { content }) => SessionAction::Relay(
                ServerMessage::Message { username: String::from_str(username), content },
            ),
            Ok(ClientMessage::Leave) => SessionAction::End,
            Ok(ClientMessage::Join { .. }) => SessionAction::IgnoreJoin,
            Err(e) => SessionAction::IgnoreMalformed(e),
        },
    }
}

} // verus!
