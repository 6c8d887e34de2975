use crate::message::{decode, decoded, ClientMessage, DecodeError, ServerMessage, ServerModel};
use crate::text::{is_unicode_ws, trim, trim_end, trim_start, trim_text};
use vstd::prelude::*;

verus! {

/// `c` with an ASCII capital letter made small.
pub open spec fn ascii_lower(c: char) -> char {
    if 'A' <= c <= 'Z' {
        ((c as u32) + 32) as char
    } else {
        c
    }
}

/// `a` and `b` are the same text but for the case of ASCII letters.
pub open spec fn eq_ignoring_ascii_case(a: Seq<char>, b: Seq<char>) -> bool {
    a.len() == b.len() && forall|i: int| 0 <= i < a.len() ==> ascii_lower(#[trigger] a[i]) == ascii_lower(b[i])
}

/// `str::eq_ignore_ascii_case`: whether the texts are the same but for the
/// case of ASCII letters.
#[verifier::external_body]
fn same_ignoring_ascii_case(a: &str, b: &str) -> (r: bool)
    ensures
        r == eq_ignoring_ascii_case(a@, b@),
{
    a.eq_ignore_ascii_case(b)
}

/// `str::strip_prefix`: the text behind `prefix`, where `s` starts with it.
#[verifier::external_body]
fn strip_prefix<'a>(s: &'a str, prefix: &str) -> (r: Option<&'a str>)
    ensures
        match r {
            Some(rest) => prefix@.is_prefix_of(s@) && rest@ == s@.skip(prefix@.len() as int),
            None => !prefix@.is_prefix_of(s@),
        },
{
    s.strip_prefix(prefix)
}

/// What the client does with a line that its user typed.
pub enum Command {
    /// Sends a leave and stops.
    Leave,
    /// Sends this text to the room.
    Send(String),
    /// Shows how `send` is used.
    SendUsage,
    /// Shows the commands.
    Usage,
    /// Does nothing.
    Nothing,
}

/// What a `Command` holds.
pub enum CommandModel {
    Leave,
    Send(Seq<char>),
    SendUsage,
    Usage,
    Nothing,
}

impl View for Command {
    type V = CommandModel;

    open spec fn view(&self) -> CommandModel {
        match self {
            Command::Leave => CommandModel::Leave,
            Command::Send(s) => CommandModel::Send(s@),
            Command::SendUsage => CommandModel::SendUsage,
            Command::Usage => CommandModel::Usage,
            Command::Nothing => CommandModel::Nothing,
        }
    }
}

/// The command in the typed line `line`, once trimmed: `leave` in any case of
/// its letters; `send ` and a text that is not empty; any other text asks for
/// the usage; an empty line does nothing.
pub open spec fn command_of(line: Seq<char>) -> CommandModel {
    let t = trim(line);
    if eq_ignoring_ascii_case(t, "leave"@) {
        CommandModel::Leave
    } else if "send "@.is_prefix_of(t) {
        let content = t.skip("send "@.len() as int);
        if content.len() == 0 {
            CommandModel::SendUsage
        } else {
            CommandModel::Send(content)
        }
    } else if t.len() > 0 {
        CommandModel::Usage
    } else {
        CommandModel::Nothing
    }
}

/// A typed line `send ` and a text that is not empty and does not end in
/// whitespace sends exactly that text.
pub proof fn law_send_sends_the_text(content: Seq<char>)
    requires
        content.len() > 0,
        !is_unicode_ws(content.last()),
    ensures
        command_of("send "@ + content) == CommandModel::Send(content),
{
    reveal_strlit("send ");
    reveal_strlit("leave");
    let line = "send "@ + content;
    assert(line[0] == 's');
    assert(trim_start(line) == line);
    assert(line.last() == content.last());
    assert(trim_end(line) == line);
    assert(trim(line) == line);
    assert(line.len() != "leave"@.len());
    assert("send "@.is_prefix_of(line)) by {
        assert(line.take(5) =~= "send "@);
    }
    assert(line.skip(5) =~= content);
}

/// A typed line that is `leave`, with its letters in any case and any
/// whitespace around it, leaves.
pub proof fn law_leave_in_any_case_leaves(line: Seq<char>)
    requires
        eq_ignoring_ascii_case(trim(line), "leave"@),
    ensures
        command_of(line) == CommandModel::Leave,
{
}

/// A typed line that is only whitespace does nothing.
pub proof fn law_blank_line_does_nothing(line: Seq<char>)
    requires
        trim(line).len() == 0,
    ensures
        command_of(line) == CommandModel::Nothing,
{
    reveal_strlit("leave");
    reveal_strlit("send ");
    assert(trim(line).len() != "leave"@.len());
    assert(!"send "@.is_prefix_of(trim(line)));
}

/// A typed line with text that is neither `leave` in any case nor starts with
/// `send ` asks for the usage.
pub proof fn law_other_text_asks_for_usage(line: Seq<char>)
    requires
        trim(line).len() > 0,
        !eq_ignoring_ascii_case(trim(line), "leave"@),
        !"send "@.is_prefix_of(trim(line)),
    ensures
        command_of(line) == CommandModel::Usage,
{
}

/// A typed line that is, once trimmed, `send ` and a text sends exactly that
/// text, whatever whitespace stands around the line.
pub proof fn law_send_sends_the_trimmed_text(line: Seq<char>, content: Seq<char>)
    requires
        trim(line) == "send "@ + content,
        content.len() > 0,
    ensures
        command_of(line) == CommandModel::Send(content),
{
    reveal_strlit("send ");
    reveal_strlit("leave");
    let t = trim(line);
    assert(t.len() != "leave"@.len());
    assert("send "@.is_prefix_of(t)) by {
        assert(t.take(5) =~= "send "@);
    }
    assert(t.skip(5) =~= content);
}

/// The command in a line that the user typed.
pub fn interpret_input(line: &str) -> (c: Command)
    ensures
        c@ == command_of(line@),
{
    let trimmed = trim_text(line);
    if same_ignoring_ascii_case(trimmed, "leave") {
        return Command::Leave;
    }
    match strip_prefix(trimmed, "send ") {
        Some(content) => {
            if content.is_empty() {
                Command::SendUsage
            } else {
                Command::Send(String::from_str(content))
            }
        },
        None => {
            if !trimmed.is_empty() {
                Command::Usage
            } else {
                Command::Nothing
            }
        },
    }
}

/// The message that a command sends, if any.
pub fn command_message(c: &Command) -> (m: Option<ClientMessage>)
    ensures
        match c@ {
            CommandModel::Leave => m matches Some(msg) && msg@ == crate::message::ClientModel::Leave,
            CommandModel::Send(s) => m matches Some(msg) && msg@
                == (crate::message::ClientModel::Send { content: s }),
            _ => m is None,
        },
{
    match c {
        Command::Leave => Some(ClientMessage::Leave),
        Command::Send(s) => Some(ClientMessage::Send { content: s.clone() }),
        _ => None,
    }
}

/// What the client shows for a line that the server sent.
pub enum Output {
    /// A line for standard output.
    Show(String),
    /// The line is no message, for this reason; the client warns on standard
    /// error, in serde_json's words, and reads on.
    Malformed(DecodeError),
    /// A line for standard error; the client stops reading from the server.
    Stop(String),
}

/// What an `Output` holds.
pub enum OutputModel {
    Show(Seq<char>),
    Malformed(DecodeError),
    Stop(Seq<char>),
}

impl View for Output {
    type V = OutputModel;

    open spec fn view(&self) -> OutputModel {
        match self {
            Output::Show(s) => OutputModel::Show(s@),
            Output::Malformed(e) => OutputModel::Malformed(*e),
            Output::Stop(s) => OutputModel::Stop(s@),
        }
    }
}

/// What the client shows for the server's line `line`: a message as
/// `[name] text`, a join and a leave as a notice, an error as `error: reason`
/// after which it stops, and a line that is no message as a warning about it.
pub open spec fn display_of(line: Seq<char>) -> OutputModel {
    match decoded::<ServerMessage>(line) {
        Ok(ServerModel::Message { username, content }) => OutputModel::Show(
            "["@ + username + "] "@ + content,
        ),
        Ok(ServerModel::Joined { username }) => OutputModel::Show(
            "* "@ + username + " joined the chat"@,
        ),
        Ok(ServerModel::Left { username }) => OutputModel::Show(
            "* "@ + username + " left the chat"@,
        ),
        Ok(ServerModel::Error { reason }) => OutputModel::Stop("error: "@ + reason),
        Err(e) => OutputModel::Malformed(e),
    }
}

/// What the client shows for a server line, by the message that the line
/// decodes to: a text message whole as `[name] text`, a join and a leave as
/// notices with the name, an error as `error: reason` after which the client
/// stops, and a line that is no message as a warning with the reason.
pub proof fn law_display_answers(line: Seq<char>)
    ensures
        forall|username: Seq<char>, content: Seq<char>|
            decoded::<ServerMessage>(line) == Ok::<ServerModel, DecodeError>(
                ServerModel::Message { username, content },
            ) ==> display_of(line) == OutputModel::Show("["@ + username + "] "@ + content),
        forall|username: Seq<char>|
            decoded::<ServerMessage>(line) == Ok::<ServerModel, DecodeError>(
                ServerModel::Joined { username },
            ) ==> display_of(line) == OutputModel::Show("* "@ + username + " joined the chat"@),
        forall|username: Seq<char>|
            decoded::<ServerMessage>(line) == Ok::<ServerModel, DecodeError>(
                ServerModel::Left { username },
            ) ==> display_of(line) == OutputModel::Show("* "@ + username + " left the chat"@),
        forall|reason: Seq<char>|
            decoded::<ServerMessage>(line) == Ok::<ServerModel, DecodeError>(
                ServerModel::Error { reason },
            ) ==> display_of(line) == OutputModel::Stop("error: "@ + reason),
        decoded::<ServerMessage>(line) matches Err(e) ==> display_of(line)
            == OutputModel::Malformed(e),
{
}

/// A text message is shown whole: the shown line is `[`, the sender's name,
/// `] ` and every character of the text, in order.
pub proof fn law_message_shown_whole(line: Seq<char>, username: Seq<char>, content: Seq<char>)
    requires
        decoded::<ServerMessage>(line) == Ok::<ServerModel, DecodeError>(
            ServerModel::Message { username, content },
        ),
    ensures
        display_of(line) matches OutputModel::Show(shown) && shown.len() == username.len()
            + content.len() + 3 && shown.skip(username.len() + 3int) == content && shown.take(
            username.len() + 1int,
        ) == seq!['['] + username,
{
    reveal_strlit("[");
    reveal_strlit("] ");
    let shown = "["@ + username + "] "@ + content;
    assert(shown.skip(username.len() + 3int) =~= content);
    assert(shown.take(username.len() + 1int) =~= seq!['['] + username);
}

/// Joins two texts.
fn join(a: &str, b: &str) -> (r: String)
    ensures
        r@ == a@ + b@,
{
    let mut r = String::from_str(a);
    r.append(b);
    r
}

/// What the client shows for a line that the server sent.
pub fn display_line(line: &str) -> (d: Output)
    ensures
        d@ == display_of(line@),
{
    match decode::<ServerMessage>(line) {
        Ok(ServerMessage::Message { username, content }) => {
            let head = join("[", username.as_str());
            let head = join(head.as_str(), "] ");
            Output::Show(join(head.as_str(), content.as_str()))
        },
        Ok(ServerMessage::Joined { username }) => {
            let head = join("* ", username.as_str());
            Output::Show(join(head.as_str(), " joined the chat"))
        },
        Ok(ServerMessage::Left { username }) => {
            let head = join("* ", username.as_str());
            Output::Show(join(head.as_str(), " left the chat"))
        },
        Ok(ServerMessage::Error { reason }) => Output::Stop(join("error: ", reason.as_str())),
        Err(e) => Output::Malformed(e),
    }
}

} // verus!
