use crate::json::{
    as_read, escape_all, lemma_escape_plain, json_quote, json_string_value, lemma_object_text_no_line_feed,
    lemma_parse_object_text, member_text, members_tail_text, no_line_feed, object_text,
    parse_array, parse_object, quote_string, reads_back, Member,
};
use crate::reader::{elements_view, opt_view, pairs_view, read_array, read_object};
use crate::text::{chars_of, lemma_trim_idempotent, lemma_trim_line, trim, trim_text};
use vstd::prelude::*;

verus! {

broadcast use vstd::seq_lib::group_seq_properties;

/// Why a line is not a message.
#[derive(Clone, Copy, Debug, PartialEq, Eq)]
pub enum DecodeError {
    /// The line is neither a JSON object nor a JSON array.
    Syntax,
    /// A member or element that the message needs, the `type` among them, is
    /// missing.
    MissingField,
    /// A member that the message reads occurs more than once.
    DuplicateField,
    /// The `type` member names no message.
    UnknownType,
    /// A member or element that the message reads, or the array's first
    /// element, has a value other than a string.
    InvalidType,
    /// An array holds more elements than the message has fields.
    WrongLength,
}

impl DecodeError {
    /// A sentence that says what is wrong.
    pub fn describe(&self) -> (r: String)
        ensures
            r@ == self.spec_describe(),
    {
        match self {
            DecodeError::Syntax => String::from_str("not a JSON object or array"),
            DecodeError::MissingField => String::from_str("missing field"),
            DecodeError::DuplicateField => String::from_str("duplicate field"),
            DecodeError::UnknownType => String::from_str("unknown message type"),
            DecodeError::InvalidType => String::from_str("member value is not a string"),
            DecodeError::WrongLength => String::from_str("too many elements"),
        }
    }

    /// The sentence that `describe` returns.
    pub open spec fn spec_describe(&self) -> Seq<char> {
        match self {
            DecodeError::Syntax => "not a JSON object or array"@,
            DecodeError::MissingField => "missing field"@,
            DecodeError::DuplicateField => "duplicate field"@,
            DecodeError::UnknownType => "unknown message type"@,
            DecodeError::InvalidType => "member value is not a string"@,
            DecodeError::WrongLength => "too many elements"@,
        }
    }
}

/// A message that a client sends to the server.
#[derive(Clone, Debug, PartialEq, Eq)]
pub enum ClientMessage {
    Join { username: String },
    Leave,
    Send { content: String },
}

/// A message that the server sends to a client.
#[derive(Clone, Debug, PartialEq, Eq)]
pub enum ServerMessage {
    Joined { username: String },
    Left { username: String },
    Message { username: String, content: String },
    Error { reason: String },
}

/// What a `ClientMessage` holds.
pub enum ClientModel {
    Join { username: Seq<char> },
    Leave,
    Send { content: Seq<char> },
}

/// What a `ServerMessage` holds.
pub enum ServerModel {
    Joined { username: Seq<char> },
    Left { username: Seq<char> },
    Message { username: Seq<char>, content: Seq<char> },
    Error { reason: Seq<char> },
}

impl View for ClientMessage {
    type V = ClientModel;

    open spec fn view(&self) -> ClientModel {
        match self {
            ClientMessage::Join { username } => ClientModel::Join { username: username@ },
            ClientMessage::Leave => ClientModel::Leave,
            ClientMessage::Send { content } => ClientModel::Send { content: content@ },
        }
    }
}

impl View for ServerMessage {
    type V = ServerModel;

    open spec fn view(&self) -> ServerModel {
        match self {
            ServerMessage::Joined { username } => ServerModel::Joined { username: username@ },
            ServerMessage::Left { username } => ServerModel::Left { username: username@ },
            ServerMessage::Message { username, content } => ServerModel::Message {
                username: username@,
                content: content@,
            },
            ServerMessage::Error { reason } => ServerModel::Error { reason: reason@ },
        }
    }
}

// ---------------------------------------------------------------------------
// Member names and type tags.
// ---------------------------------------------------------------------------

pub open spec fn key_type() -> Seq<char> {
    seq!['t', 'y', 'p', 'e']
}

pub open spec fn key_username() -> Seq<char> {
    seq!['u', 's', 'e', 'r', 'n', 'a', 'm', 'e']
}

pub open spec fn key_content() -> Seq<char> {
    seq!['c', 'o', 'n', 't', 'e', 'n', 't']
}

pub open spec fn key_reason() -> Seq<char> {
    seq!['r', 'e', 'a', 's', 'o', 'n']
}

pub open spec fn tag_join() -> Seq<char> {
    seq!['j', 'o', 'i', 'n']
}

pub open spec fn tag_leave() -> Seq<char> {
    seq!['l', 'e', 'a', 'v', 'e']
}

pub open spec fn tag_send() -> Seq<char> {
    seq!['s', 'e', 'n', 'd']
}

pub open spec fn tag_joined() -> Seq<char> {
    seq!['j', 'o', 'i', 'n', 'e', 'd']
}

pub open spec fn tag_left() -> Seq<char> {
    seq!['l', 'e', 'f', 't']
}

pub open spec fn tag_message() -> Seq<char> {
    seq!['m', 'e', 's', 's', 'a', 'g', 'e']
}

pub open spec fn tag_error() -> Seq<char> {
    seq!['e', 'r', 'r', 'o', 'r']
}

// ---------------------------------------------------------------------------
// Reading members.
// ---------------------------------------------------------------------------

/// How many members of `fs` have the name `k`.
pub open spec fn count_key(fs: Seq<Member>, k: Seq<char>) -> nat
    decreases fs.len(),
{
    if fs.len() == 0 {
        0
    } else {
        count_key(fs.drop_last(), k) + if fs.last().0 == k {
            1nat
        } else {
            0nat
        }
    }
}

/// The value of the first member of `fs` with the name `k`.
pub open spec fn first_value(fs: Seq<Member>, k: Seq<char>) -> Option<Seq<char>>
    decreases fs.len(),
{
    if fs.len() == 0 {
        None
    } else if count_key(fs.drop_last(), k) > 0 {
        first_value(fs.drop_last(), k)
    } else {
        fs.last().1
    }
}

/// The value of the member `k` of `fs`, which must occur exactly once and
/// have a string value.
pub open spec fn field(fs: Seq<Member>, k: Seq<char>) -> Result<Seq<char>, DecodeError> {
    if count_key(fs, k) == 0 {
        Err(DecodeError::MissingField)
    } else if count_key(fs, k) > 1 {
        Err(DecodeError::DuplicateField)
    } else {
        match first_value(fs, k) {
            Some(v) => Ok(v),
            None => Err(DecodeError::InvalidType),
        }
    }
}

/// The `i`-th element of `es`, which must be there and be a string.
pub open spec fn element(es: Seq<Option<Seq<char>>>, i: int) -> Result<Seq<char>, DecodeError> {
    if 0 <= i < es.len() {
        match es[i] {
            Some(v) => Ok(v),
            None => Err(DecodeError::InvalidType),
        }
    } else {
        Err(DecodeError::MissingField)
    }
}

/// The `i`-th element of `es`: its text where it is there and a string.
fn read_element_at(es: &Vec<Option<String>>, i: usize) -> (r: Result<String, DecodeError>)
    ensures
        match r {
            Ok(v) => element(elements_view(es@), i as int) == Ok::<Seq<char>, DecodeError>(v@),
            Err(e) => element(elements_view(es@), i as int) == Err::<Seq<char>, DecodeError>(e),
        },
{
    if i < es.len() {
        match &es[i] {
            Some(v) => Ok(v.clone()),
            None => Err(DecodeError::InvalidType),
        }
    } else {
        Err(DecodeError::MissingField)
    }
}

proof fn lemma_count_concat(a: Seq<Member>, b: Seq<Member>, k: Seq<char>)
    ensures
        count_key(a + b, k) == count_key(a, k) + count_key(b, k),
    decreases b.len(),
{
    if b.len() == 0 {
        assert(a + b =~= a);
    } else {
        lemma_count_concat(a, b.drop_last(), k);
        assert((a + b).drop_last() =~= a + b.drop_last());
        assert((a + b).last() == b.last());
    }
}

proof fn lemma_first_value_concat(a: Seq<Member>, b: Seq<Member>, k: Seq<char>)
    ensures
        count_key(a, k) > 0 ==> first_value(a + b, k) == first_value(a, k),
        count_key(a, k) == 0 && count_key(b, k) > 0 ==> first_value(a + b, k) == first_value(b, k),
    decreases b.len(),
{
    if b.len() == 0 {
        assert(a + b =~= a);
    } else {
        lemma_first_value_concat(a, b.drop_last(), k);
        lemma_count_concat(a, b.drop_last(), k);
        assert((a + b).drop_last() =~= a + b.drop_last());
        assert((a + b).last() == b.last());
    }
}

proof fn lemma_single_member(m: Member, k: Seq<char>)
    ensures
        count_key(seq![m], k) == if m.0 == k {
            1nat
        } else {
            0nat
        },
        m.0 == k ==> first_value(seq![m], k) == m.1,
{
    assert(seq![m].drop_last() =~= Seq::<Member>::empty());
}

/// The members `fs` with the `i`-th and the `j`-th exchanged.
pub open spec fn swap_members(fs: Seq<Member>, i: int, j: int) -> Seq<Member> {
    fs.update(i, fs[j]).update(j, fs[i])
}

proof fn lemma_field_swap(fs: Seq<Member>, i: int, j: int, k: Seq<char>)
    requires
        0 <= i < j < fs.len(),
    ensures
        field(swap_members(fs, i, j), k) == field(fs, k),
{
    let a = fs.take(i);
    let x = fs[i];
    let b = fs.subrange(i + 1, j);
    let y = fs[j];
    let c = fs.skip(j + 1);
    let ro = seq![x] + (b + (seq![y] + c));
    let rs = seq![y] + (b + (seq![x] + c));
    assert(fs =~= a + ro);
    assert(swap_members(fs, i, j) =~= a + rs);
    lemma_single_member(x, k);
    lemma_single_member(y, k);
    lemma_count_concat(seq![y], c, k);
    lemma_count_concat(seq![x], c, k);
    lemma_count_concat(b, seq![y] + c, k);
    lemma_count_concat(b, seq![x] + c, k);
    lemma_count_concat(seq![x], b + (seq![y] + c), k);
    lemma_count_concat(seq![y], b + (seq![x] + c), k);
    lemma_count_concat(a, ro, k);
    lemma_count_concat(a, rs, k);
    lemma_first_value_concat(seq![y], c, k);
    lemma_first_value_concat(seq![x], c, k);
    lemma_first_value_concat(b, seq![y] + c, k);
    lemma_first_value_concat(b, seq![x] + c, k);
    lemma_first_value_concat(seq![x], b + (seq![y] + c), k);
    lemma_first_value_concat(seq![y], b + (seq![x] + c), k);
    lemma_first_value_concat(a, ro, k);
    lemma_first_value_concat(a, rs, k);
}

/// The order of an object's members does not matter: exchanging any two
/// members, and so any reordering, leaves the decoded message, or the error,
/// as it was.
pub proof fn law_member_order_does_not_matter(fs: Seq<Member>, i: int, j: int)
    requires
        0 <= i < j < fs.len(),
    ensures
        ClientMessage::spec_from_fields(swap_members(fs, i, j)) == ClientMessage::spec_from_fields(
            fs,
        ),
        ServerMessage::spec_from_fields(swap_members(fs, i, j)) == ServerMessage::spec_from_fields(
            fs,
        ),
{
    lemma_field_swap(fs, i, j, key_type());
    lemma_field_swap(fs, i, j, key_username());
    lemma_field_swap(fs, i, j, key_content());
    lemma_field_swap(fs, i, j, key_reason());
}

/// Members that no message reads change nothing: adding one whose name is
/// none of `type`, `username`, `content` and `reason` leaves the decoded
/// message, or the error, as it was.
pub proof fn law_unread_members_are_ignored(fs: Seq<Member>, extra: Member)
    requires
        extra.0 != "type"@,
        extra.0 != "username"@,
        extra.0 != "content"@,
        extra.0 != "reason"@,
    ensures
        ClientMessage::spec_from_fields(fs.push(extra)) == ClientMessage::spec_from_fields(fs),
        ServerMessage::spec_from_fields(fs.push(extra)) == ServerMessage::spec_from_fields(fs),
{
    lemma_literal_names();
    assert(fs.push(extra).drop_last() =~= fs);
    assert(fs.push(extra).last() == extra);
}

/// A member that a message reads must occur exactly once: an object without
/// `type`, or with it twice, is no message; nor is a join without its name
/// or with it twice, a send without its text or with it twice, and so on.
pub proof fn law_read_members_occur_once(fs: Seq<Member>)
    ensures
        count_key(fs, "type"@) == 0 ==> ClientMessage::spec_from_fields(fs) == Err::<
            ClientModel,
            DecodeError,
        >(DecodeError::MissingField) && ServerMessage::spec_from_fields(fs) == Err::<
            ServerModel,
            DecodeError,
        >(DecodeError::MissingField),
        count_key(fs, "type"@) > 1 ==> ClientMessage::spec_from_fields(fs) == Err::<
            ClientModel,
            DecodeError,
        >(DecodeError::DuplicateField) && ServerMessage::spec_from_fields(fs) == Err::<
            ServerModel,
            DecodeError,
        >(DecodeError::DuplicateField),
        field(fs, "type"@) == Ok::<Seq<char>, DecodeError>("join"@) && count_key(fs, "username"@)
            != 1 ==> ClientMessage::spec_from_fields(fs) is Err,
        field(fs, "type"@) == Ok::<Seq<char>, DecodeError>("send"@) && count_key(fs, "content"@)
            != 1 ==> ClientMessage::spec_from_fields(fs) is Err,
        field(fs, "type"@) == Ok::<Seq<char>, DecodeError>("joined"@) && count_key(
            fs,
            "username"@,
        ) != 1 ==> ServerMessage::spec_from_fields(fs) is Err,
        field(fs, "type"@) == Ok::<Seq<char>, DecodeError>("left"@) && count_key(fs, "username"@)
            != 1 ==> ServerMessage::spec_from_fields(fs) is Err,
        field(fs, "type"@) == Ok::<Seq<char>, DecodeError>("message"@) && (count_key(
            fs,
            "username"@,
        ) != 1 || count_key(fs, "content"@) != 1) ==> ServerMessage::spec_from_fields(fs) is Err,
        field(fs, "type"@) == Ok::<Seq<char>, DecodeError>("error"@) && count_key(fs, "reason"@)
            != 1 ==> ServerMessage::spec_from_fields(fs) is Err,
{
    lemma_literal_names();
}

/// Whitespace around a line does not change what it decodes to.
pub proof fn law_whitespace_around_a_line_is_ignored<M: WireMessage>(line: Seq<char>)
    ensures
        decoded::<M>(line) == decoded::<M>(trim(line)),
{
    lemma_trim_idempotent(line);
}

/// The members that a message's encoder writes, taken by their views.
pub open spec fn fields_view(v: Seq<(String, String)>) -> Seq<(Seq<char>, Seq<char>)> {
    Seq::new(v.len(), |i: int| (v[i].0@, v[i].1@))
}

/// The member `key` of `fs`: its value where it occurs exactly once.
fn read_field(fs: &Vec<(String, Option<String>)>, key: &str) -> (r: Result<String, DecodeError>)
    ensures
        match r {
            Ok(v) => field(pairs_view(fs@), key@) == Ok::<Seq<char>, DecodeError>(v@),
            Err(e) => field(pairs_view(fs@), key@) == Err::<Seq<char>, DecodeError>(e),
        },
{
    let ghost all = pairs_view(fs@);
    let key = String::from_str(key);
    let mut count: usize = 0;
    let mut found: Option<String> = None;
    let mut i: usize = 0;
    while i < fs.len()
        invariant
            i <= fs.len(),
            all == pairs_view(fs@),
            count == count_key(all.take(i as int), key@),
            count > 0 ==> opt_view(found) == first_value(all.take(i as int), key@),
            count <= i,
        decreases fs.len() - i,
    {
        assert(all.take(i + 1).drop_last() =~= all.take(i as int));
        assert(all.take(i + 1).last() == all[i as int]);
        if fs[i].0 == key {
            if count == 0 {
                found = fs[i].1.clone();
            }
            count = count + 1;
        }
        i = i + 1;
    }
    assert(all.take(fs.len() as int) =~= all);
    if count == 0 {
        Err(DecodeError::MissingField)
    } else if count > 1 {
        Err(DecodeError::DuplicateField)
    } else {
        match found {
            Some(v) => Ok(v),
            None => Err(DecodeError::InvalidType),
        }
    }
}

/// A message type with a text form: a JSON object whose first member `type`
/// names the kind of message, followed by the message's fields in order.
pub trait WireMessage: View + Sized {
    /// The members of the object that stands for `m`.
    spec fn spec_fields(m: Self::V) -> Seq<(Seq<char>, Seq<char>)>;

    /// The message that the members `fs` stand for, or why they stand for none.
    spec fn spec_from_fields(fs: Seq<Member>) -> Result<Self::V, DecodeError>;

    /// The members of the object that stands for this message.
    fn fields(&self) -> (r: Vec<(String, String)>)
        ensures
            fields_view(r@) == Self::spec_fields(self@),
    ;

    /// The message that the members `fs` stand for.
    fn from_fields(fs: &Vec<(String, Option<String>)>) -> (r: Result<Self, DecodeError>)
        ensures
            match r {
                Ok(m) => Self::spec_from_fields(pairs_view(fs@)) == Ok::<Self::V, DecodeError>(m@),
                Err(e) => Self::spec_from_fields(pairs_view(fs@)) == Err::<Self::V, DecodeError>(e),
            },
    ;

    /// The message that the array `es` stands for: its first element names the
    /// kind of message, the others are its fields in order.
    spec fn spec_from_elements(es: Seq<Option<Seq<char>>>) -> Result<Self::V, DecodeError>;

    /// The message that the array elements `es` stand for.
    fn from_elements(es: &Vec<Option<String>>) -> (r: Result<Self, DecodeError>)
        ensures
            match r {
                Ok(m) => Self::spec_from_elements(elements_view(es@)) == Ok::<Self::V, DecodeError>(m@),
                Err(e) => Self::spec_from_elements(elements_view(es@)) == Err::<Self::V, DecodeError>(e),
            },
    ;

    /// A message's members stand for that message.
    proof fn lemma_fields_read_back(m: Self::V)
        ensures
            Self::spec_from_fields(as_read(Self::spec_fields(m))) == Ok::<Self::V, DecodeError>(m),
    ;
}


/// The literals that the code writes are the names and tags of the spec.
proof fn lemma_literal_names()
    ensures
        "type"@ == key_type(),
        "username"@ == key_username(),
        "content"@ == key_content(),
        "reason"@ == key_reason(),
        "join"@ == tag_join(),
        "leave"@ == tag_leave(),
        "send"@ == tag_send(),
        "joined"@ == tag_joined(),
        "left"@ == tag_left(),
        "message"@ == tag_message(),
        "error"@ == tag_error(),
{
    reveal_strlit("type");
    reveal_strlit("username");
    reveal_strlit("content");
    reveal_strlit("reason");
    reveal_strlit("join");
    reveal_strlit("leave");
    reveal_strlit("send");
    reveal_strlit("joined");
    reveal_strlit("left");
    reveal_strlit("message");
    reveal_strlit("error");
    assert("type"@ =~= key_type());
    assert("username"@ =~= key_username());
    assert("content"@ =~= key_content());
    assert("reason"@ =~= key_reason());
    assert("join"@ =~= tag_join());
    assert("leave"@ =~= tag_leave());
    assert("send"@ =~= tag_send());
    assert("joined"@ =~= tag_joined());
    assert("left"@ =~= tag_left());
    assert("message"@ =~= tag_message());
    assert("error"@ =~= tag_error());
}

/// A pair of owned strings from two literals.
fn pair(k: &str, v: &str) -> (r: (String, String))
    ensures
        r.0@ == k@,
        r.1@ == v@,
{
    (String::from_str(k), String::from_str(v))
}

impl WireMessage for ClientMessage {
    open spec fn spec_fields(m: ClientModel) -> Seq<(Seq<char>, Seq<char>)> {
        match m {
            ClientModel::Join { username } => seq![
                (key_type(), tag_join()),
                (key_username(), username),
            ],
            ClientModel::Leave => seq![(key_type(), tag_leave())],
            ClientModel::Send { content } => seq![
                (key_type(), tag_send()),
                (key_content(), content),
            ],
        }
    }

    open spec fn spec_from_fields(fs: Seq<Member>) -> Result<ClientModel, DecodeError> {
        match field(fs, key_type()) {
            Err(e) => Err(e),
            Ok(tag) => if tag == tag_join() {
                match field(fs, key_username()) {
                    Ok(u) => Ok(ClientModel::Join { username: u }),
                    Err(e) => Err(e),
                }
            } else if tag == tag_leave() {
                Ok(ClientModel::Leave)
            } else if tag == tag_send() {
                match field(fs, key_content()) {
                    Ok(c) => Ok(ClientModel::Send { content: c }),
                    Err(e) => Err(e),
                }
            } else {
                Err(DecodeError::UnknownType)
            },
        }
    }

    fn fields(&self) -> (r: Vec<(String, String)>) {
        proof {
            lemma_literal_names();
        }
        let mut r: Vec<(String, String)> = Vec::new();
        match self {
            ClientMessage::Join { username } => {
                r.push(pair("type", "join"));
                r.push(pair("username", username.as_str()));
            },
            ClientMessage::Leave => {
                r.push(pair("type", "leave"));
            },
            ClientMessage::Send { content } => {
                r.push(pair("type", "send"));
                r.push(pair("content", content.as_str()));
            },
        }
        assert(fields_view(r@) =~= Self::spec_fields(self@));
        r
    }

    fn from_fields(fs: &Vec<(String, Option<String>)>) -> (r: Result<ClientMessage, DecodeError>) {
        proof {
            lemma_literal_names();
        }
        let tag = match read_field(fs, "type") {
            Ok(t) => t,
            Err(e) => return Err(e),
        };
        if tag == String::from_str("join") {
            match read_field(fs, "username") {
                Ok(u) => Ok(ClientMessage::Join { username: u }),
                Err(e) => Err(e),
            }
        } else if tag == String::from_str("leave") {
            Ok(ClientMessage::Leave)
        } else if tag == String::from_str("send") {
            match read_field(fs, "content") {
                Ok(c) => Ok(ClientMessage::Send { content: c }),
                Err(e) => Err(e),
            }
        } else {
            Err(DecodeError::UnknownType)
        }
    }

    open spec fn spec_from_elements(es: Seq<Option<Seq<char>>>) -> Result<ClientModel, DecodeError> {
        match element(es, 0) {
            Err(e) => Err(e),
            Ok(tag) => if tag == tag_join() {
                match element(es, 1) {
                    Ok(u) => if es.len() > 2 {
                        Err(DecodeError::WrongLength)
                    } else {
                        Ok(ClientModel::Join { username: u })
                    },
                    Err(e) => Err(e),
                }
            } else if tag == tag_leave() {
                if es.len() > 1 {
                    Err(DecodeError::WrongLength)
                } else {
                    Ok(ClientModel::Leave)
                }
            } else if tag == tag_send() {
                match element(es, 1) {
                    Ok(c) => if es.len() > 2 {
                        Err(DecodeError::WrongLength)
                    } else {
                        Ok(ClientModel::Send { content: c })
                    },
                    Err(e) => Err(e),
                }
            } else {
                Err(DecodeError::UnknownType)
            },
        }
    }

    fn from_elements(es: &Vec<Option<String>>) -> (r: Result<ClientMessage, DecodeError>) {
        proof {
            lemma_literal_names();
        }
        let tag = match read_element_at(es, 0) {
            Ok(t) => t,
            Err(e) => return Err(e),
        };
        if tag == String::from_str("join") {
            match read_element_at(es, 1) {
                Ok(u) => if es.len() > 2 {
                    Err(DecodeError::WrongLength)
                } else {
                    Ok(ClientMessage::Join { username: u })
                },
                Err(e) => Err(e),
            }
        } else if tag == String::from_str("leave") {
            if es.len() > 1 {
                Err(DecodeError::WrongLength)
            } else {
                Ok(ClientMessage::Leave)
            }
        } else if tag == String::from_str("send") {
            match read_element_at(es, 1) {
                Ok(c) => if es.len() > 2 {
                    Err(DecodeError::WrongLength)
                } else {
                    Ok(ClientMessage::Send { content: c })
                },
                Err(e) => Err(e),
            }
        } else {
            Err(DecodeError::UnknownType)
        }
    }

    proof fn lemma_fields_read_back(m: ClientModel) {
        reveal_with_fuel(count_key, 3);
        reveal_with_fuel(first_value, 3);
        let fs = as_read(Self::spec_fields(m));
        assert(key_username() != key_type());
        assert(key_content() != key_type());
        assert(tag_join() != tag_leave());
        assert(tag_join() != tag_send()) by {
            assert(tag_join()[0] != tag_send()[0]);
        }
        assert(tag_leave() != tag_send());
        match m {
            ClientModel::Join { username } => {
                assert(fs.drop_last() =~= seq![(key_type(), Some(tag_join()))]);
                assert(fs.drop_last().drop_last() =~= Seq::<Member>::empty());
            },
            ClientModel::Leave => {
                assert(fs.drop_last() =~= Seq::<Member>::empty());
            },
            ClientModel::Send { content } => {
                assert(fs.drop_last() =~= seq![(key_type(), Some(tag_send()))]);
                assert(fs.drop_last().drop_last() =~= Seq::<Member>::empty());
            },
        }
    }
}


impl WireMessage for ServerMessage {
    open spec fn spec_fields(m: ServerModel) -> Seq<(Seq<char>, Seq<char>)> {
        match m {
            ServerModel::Joined { username } => seq![
                (key_type(), tag_joined()),
                (key_username(), username),
            ],
            ServerModel::Left { username } => seq![
                (key_type(), tag_left()),
                (key_username(), username),
            ],
            ServerModel::Message { username, content } => seq![
                (key_type(), tag_message()),
                (key_username(), username),
                (key_content(), content),
            ],
            ServerModel::Error { reason } => seq![
                (key_type(), tag_error()),
                (key_reason(), reason),
            ],
        }
    }

    open spec fn spec_from_fields(fs: Seq<Member>) -> Result<ServerModel, DecodeError> {
        match field(fs, key_type()) {
            Err(e) => Err(e),
            Ok(tag) => if tag == tag_joined() {
                match field(fs, key_username()) {
                    Ok(u) => Ok(ServerModel::Joined { username: u }),
                    Err(e) => Err(e),
                }
            } else if tag == tag_left() {
                match field(fs, key_username()) {
                    Ok(u) => Ok(ServerModel::Left { username: u }),
                    Err(e) => Err(e),
                }
            } else if tag == tag_message() {
                match field(fs, key_username()) {
                    Ok(u) => match field(fs, key_content()) {
                        Ok(c) => Ok(ServerModel::Message { username: u, content: c }),
                        Err(e) => Err(e),
                    },
                    Err(e) => Err(e),
                }
            } else if tag == tag_error() {
                match field(fs, key_reason()) {
                    Ok(r) => Ok(ServerModel::Error { reason: r }),
                    Err(e) => Err(e),
                }
            } else {
                Err(DecodeError::UnknownType)
            },
        }
    }

    fn fields(&self) -> (r: Vec<(String, String)>) {
        proof {
            lemma_literal_names();
        }
        let mut r: Vec<(String, String)> = Vec::new();
        match self {
            ServerMessage::Joined { username } => {
                r.push(pair("type", "joined"));
                r.push(pair("username", username.as_str()));
            },
            ServerMessage::Left { username } => {
                r.push(pair("type", "left"));
                r.push(pair("username", username.as_str()));
            },
            ServerMessage::Message { username, content } => {
                r.push(pair("type", "message"));
                r.push(pair("username", username.as_str()));
                r.push(pair("content", content.as_str()));
            },
            ServerMessage::Error { reason } => {
                r.push(pair("type", "error"));
                r.push(pair("reason", reason.as_str()));
            },
        }
        assert(fields_view(r@) =~= Self::spec_fields(self@));
        r
    }

    fn from_fields(fs: &Vec<(String, Option<String>)>) -> (r: Result<ServerMessage, DecodeError>) {
        proof {
            lemma_literal_names();
        }
        let tag = match read_field(fs, "type") {
            Ok(t) => t,
            Err(e) => return Err(e),
        };
        if tag == String::from_str("joined") {
            match read_field(fs, "username") {
                Ok(u) => Ok(ServerMessage::Joined { username: u }),
                Err(e) => Err(e),
            }
        } else if tag == String::from_str("left") {
            match read_field(fs, "username") {
                Ok(u) => Ok(ServerMessage::Left { username: u }),
                Err(e) => Err(e),
            }
        } else if tag == String::from_str("message") {
            match read_field(fs, "username") {
                Ok(u) => match read_field(fs, "content") {
                    Ok(c) => Ok(ServerMessage::Message { username: u, content: c }),
                    Err(e) => Err(e),
                },
                Err(e) => Err(e),
            }
        } else if tag == String::from_str("error") {
            match read_field(fs, "reason") {
                Ok(r) => Ok(ServerMessage::Error { reason: r }),
                Err(e) => Err(e),
            }
        } else {
            Err(DecodeError::UnknownType)
        }
    }

    open spec fn spec_from_elements(es: Seq<Option<Seq<char>>>) -> Result<ServerModel, DecodeError> {
        match element(es, 0) {
            Err(e) => Err(e),
            Ok(tag) => if tag == tag_joined() || tag == tag_left() || tag == tag_error() {
                match element(es, 1) {
                    Ok(v) => if es.len() > 2 {
                        Err(DecodeError::WrongLength)
                    } else if tag == tag_joined() {
                        Ok(ServerModel::Joined { username: v })
                    } else if tag == tag_left() {
                        Ok(ServerModel::Left { username: v })
                    } else {
                        Ok(ServerModel::Error { reason: v })
                    },
                    Err(e) => Err(e),
                }
            } else if tag == tag_message() {
                match element(es, 1) {
                    Ok(u) => match element(es, 2) {
                        Ok(c) => if es.len() > 3 {
                            Err(DecodeError::WrongLength)
                        } else {
                            Ok(ServerModel::Message { username: u, content: c })
                        },
                        Err(e) => Err(e),
                    },
                    Err(e) => Err(e),
                }
            } else {
                Err(DecodeError::UnknownType)
            },
        }
    }

    fn from_elements(es: &Vec<Option<String>>) -> (r: Result<ServerMessage, DecodeError>) {
        proof {
            lemma_literal_names();
        }
        let tag = match read_element_at(es, 0) {
            Ok(t) => t,
            Err(e) => return Err(e),
        };
        let joined = tag == String::from_str("joined");
        let left = tag == String::from_str("left");
        let error = tag == String::from_str("error");
        if joined || left || error {
            match read_element_at(es, 1) {
                Ok(v) => if es.len() > 2 {
                    Err(DecodeError::WrongLength)
                } else if joined {
                    Ok(ServerMessage::Joined { username: v })
                } else if left {
                    Ok(ServerMessage::Left { username: v })
                } else {
                    Ok(ServerMessage::Error { reason: v })
                },
                Err(e) => Err(e),
            }
        } else if tag == String::from_str("message") {
            match read_element_at(es, 1) {
                Ok(u) => match read_element_at(es, 2) {
                    Ok(c) => if es.len() > 3 {
                        Err(DecodeError::WrongLength)
                    } else {
                        Ok(ServerMessage::Message { username: u, content: c })
                    },
                    Err(e) => Err(e),
                },
                Err(e) => Err(e),
            }
        } else {
            Err(DecodeError::UnknownType)
        }
    }

    proof fn lemma_fields_read_back(m: ServerModel) {
        reveal_with_fuel(count_key, 4);
        reveal_with_fuel(first_value, 4);
        let fs = as_read(Self::spec_fields(m));
        let empty = Seq::<Member>::empty();
        assert(key_username() != key_type());
        assert(key_content() != key_type());
        assert(key_reason() != key_type());
        assert(key_content() != key_username());
        assert(tag_joined() != tag_left());
        assert(tag_joined() != tag_message());
        assert(tag_joined() != tag_error());
        assert(tag_left() != tag_message());
        assert(tag_left() != tag_error()) by {
            assert(tag_left()[0] != tag_error()[0]);
        }
        assert(tag_message() != tag_error());
        match m {
            ServerModel::Joined { username } => {
                assert(fs.drop_last() =~= seq![(key_type(), Some(tag_joined()))]);
                assert(fs.drop_last().drop_last() =~= empty);
            },
            ServerModel::Left { username } => {
                assert(fs.drop_last() =~= seq![(key_type(), Some(tag_left()))]);
                assert(fs.drop_last().drop_last() =~= empty);
            },
            ServerModel::Message { username, content } => {
                assert(fs.drop_last() =~= seq![
                    (key_type(), Some(tag_message())),
                    (key_username(), Some(username)),
                ]);
                assert(fs.drop_last().drop_last() =~= seq![(key_type(), Some(tag_message()))]);
                assert(fs.drop_last().drop_last().drop_last() =~= empty);
            },
            ServerModel::Error { reason } => {
                assert(fs.drop_last() =~= seq![(key_type(), Some(tag_error()))]);
                assert(fs.drop_last().drop_last() =~= empty);
            },
        }
    }
}

/// What decoding the line `line` gives, once whitespace at either end is
/// gone: the message that the JSON object, or else the JSON array, in it
/// stands for.
pub open spec fn decoded<M: WireMessage>(line: Seq<char>) -> Result<M::V, DecodeError> {
    match parse_object(trim(line)) {
        Some(fs) => M::spec_from_fields(fs),
        None => match parse_array(trim(line)) {
            Some(es) => M::spec_from_elements(es),
            None => Err(DecodeError::Syntax),
        },
    }
}

/// The line that stands for `m`: its JSON object and a line feed.
pub open spec fn encoded<M: WireMessage>(m: M::V) -> Seq<char> {
    object_text(M::spec_fields(m)) + seq!['\n']
}

proof fn lemma_members_tail_push(fs: Seq<(Seq<char>, Seq<char>)>, m: (Seq<char>, Seq<char>))
    ensures
        members_tail_text(fs.push(m)) == members_tail_text(fs) + seq![','] + member_text(m),
    decreases fs.len(),
{
    if fs.len() == 0 {
        assert(fs.push(m).drop_first() =~= fs);
        assert(fs.push(m)[0] == m);
        assert(members_tail_text(fs) =~= Seq::<char>::empty());
        assert(members_tail_text(fs.push(m)) == seq![','] + member_text(m) + members_tail_text(
            fs,
        ));
        assert(members_tail_text(fs.push(m)) =~= seq![','] + member_text(m));
        assert(members_tail_text(fs) =~= Seq::<char>::empty());
        assert(members_tail_text(fs) + seq![','] + member_text(m) =~= seq![','] + member_text(m));
    } else {
        lemma_members_tail_push(fs.drop_first(), m);
        assert(fs.push(m).drop_first() =~= fs.drop_first().push(m));
        assert(fs.push(m)[0] == fs[0]);
        assert(members_tail_text(fs.push(m)) =~= members_tail_text(fs) + seq![','] + member_text(
            m,
        ));
    }
}

/// The text of the first `i` members of `fv` behind the opening brace.
pub open spec fn members_prefix_text(fv: Seq<(Seq<char>, Seq<char>)>, i: int) -> Seq<char> {
    if i == 0 {
        Seq::empty()
    } else {
        member_text(fv[0]) + members_tail_text(fv.subrange(1, i))
    }
}

proof fn lemma_members_prefix_step(fv: Seq<(Seq<char>, Seq<char>)>, i: int)
    requires
        0 <= i < fv.len(),
    ensures
        members_prefix_text(fv, i + 1) == if i == 0 {
            member_text(fv[i])
        } else {
            members_prefix_text(fv, i) + seq![','] + member_text(fv[i])
        },
{
    if i == 0 {
        assert(fv.subrange(1, 1) =~= Seq::<(Seq<char>, Seq<char>)>::empty());
        assert(members_tail_text(fv.subrange(1, 1)) =~= Seq::<char>::empty());
        assert(members_prefix_text(fv, 1) =~= member_text(fv[0]));
    } else {
        lemma_members_tail_push(fv.subrange(1, i), fv[i]);
        assert(fv.subrange(1, i).push(fv[i]) =~= fv.subrange(1, i + 1));
        assert(members_prefix_text(fv, i + 1) =~= members_prefix_text(fv, i) + seq![',']
            + member_text(fv[i]));
    }
}

proof fn lemma_encoded_line<M: WireMessage>(m: M::V, line: Seq<char>)
    requires
        line == seq!['{'] + members_prefix_text(M::spec_fields(m), M::spec_fields(m).len() as int)
            + seq!['}'] + seq!['\n'],
        reads_back(M::spec_fields(m)),
    ensures
        line == encoded::<M>(m),
        line.len() > 0,
        line.last() == '\n',
        no_line_feed(line.drop_last()),
        decoded::<M>(line) == Ok::<M::V, DecodeError>(m),
{
    let fv = M::spec_fields(m);
    let body = object_text(fv);
    if fv.len() > 0 {
        assert(fv.drop_first() =~= fv.subrange(1, fv.len() as int));
        assert(line =~= body + seq!['\n']);
    } else {
        assert(line =~= body + seq!['\n']);
    }
    lemma_parse_object_text(fv);
    lemma_object_text_no_line_feed(fv);
    assert(body[0] == '{');
    assert(body.last() == '}');
    lemma_trim_line(body);
    assert(line.drop_last() =~= body);
    M::lemma_fields_read_back(m);
}

/// The member names and type tags are written as they are.
proof fn lemma_names_written_plainly()
    ensures
        escape_all(key_type()) == key_type(),
        escape_all(key_username()) == key_username(),
        escape_all(key_content()) == key_content(),
        escape_all(key_reason()) == key_reason(),
        escape_all(tag_join()) == tag_join(),
        escape_all(tag_leave()) == tag_leave(),
        escape_all(tag_send()) == tag_send(),
        escape_all(tag_joined()) == tag_joined(),
        escape_all(tag_left()) == tag_left(),
        escape_all(tag_message()) == tag_message(),
        escape_all(tag_error()) == tag_error(),
{
    lemma_escape_plain(key_type());
    lemma_escape_plain(key_username());
    lemma_escape_plain(key_content());
    lemma_escape_plain(key_reason());
    lemma_escape_plain(tag_join());
    lemma_escape_plain(tag_leave());
    lemma_escape_plain(tag_send());
    lemma_escape_plain(tag_joined());
    lemma_escape_plain(tag_left());
    lemma_escape_plain(tag_message());
    lemma_escape_plain(tag_error());
}

/// The start of a join's line, up to the name's literal.
pub open spec fn join_start() -> Seq<char> {
    "{\"type\":\"join\",\"username\":"@
}

/// The whole line of a leave.
pub open spec fn leave_line() -> Seq<char> {
    "{\"type\":\"leave\"}\n"@
}

/// The start of a send's line, up to the text's literal.
pub open spec fn send_start() -> Seq<char> {
    "{\"type\":\"send\",\"content\":"@
}

/// The end of every line: the closing brace and a line feed.
pub open spec fn line_end() -> Seq<char> {
    "}\n"@
}

/// The start of a joined notice's line, up to the name's literal.
pub open spec fn joined_start() -> Seq<char> {
    "{\"type\":\"joined\",\"username\":"@
}

/// The start of a left notice's line, up to the name's literal.
pub open spec fn left_start() -> Seq<char> {
    "{\"type\":\"left\",\"username\":"@
}

/// The start of a text message's line, up to the name's literal.
pub open spec fn message_start() -> Seq<char> {
    "{\"type\":\"message\",\"username\":"@
}

/// What stands between a text message's name and its text's literal.
pub open spec fn content_sep() -> Seq<char> {
    ",\"content\":"@
}

/// The start of an error's line, up to the reason's literal.
pub open spec fn error_start() -> Seq<char> {
    "{\"type\":\"error\",\"reason\":"@
}

proof fn lemma_line_pieces()
    ensures
        join_start() =~= seq!['{'] + json_quote(key_type()) + seq![':'] + json_quote(tag_join()) + seq![','] + json_quote(key_username()) + seq![':'],
        leave_line() =~= seq!['{'] + json_quote(key_type()) + seq![':'] + json_quote(tag_leave()) + seq!['}', '\n'],
        send_start() =~= seq!['{'] + json_quote(key_type()) + seq![':'] + json_quote(tag_send()) + seq![','] + json_quote(key_content()) + seq![':'],
        line_end() =~= seq!['}', '\n'],
        joined_start() =~= seq!['{'] + json_quote(key_type()) + seq![':'] + json_quote(tag_joined()) + seq![','] + json_quote(key_username()) + seq![':'],
        left_start() =~= seq!['{'] + json_quote(key_type()) + seq![':'] + json_quote(tag_left()) + seq![','] + json_quote(key_username()) + seq![':'],
        message_start() =~= seq!['{'] + json_quote(key_type()) + seq![':'] + json_quote(tag_message()) + seq![','] + json_quote(key_username()) + seq![':'],
        content_sep() =~= seq![','] + json_quote(key_content()) + seq![':'],
        error_start() =~= seq!['{'] + json_quote(key_type()) + seq![':'] + json_quote(tag_error()) + seq![','] + json_quote(key_reason()) + seq![':'],
{
    lemma_names_written_plainly();
    reveal_strlit("{\"type\":\"join\",\"username\":");
    reveal_strlit("{\"type\":\"leave\"}\n");
    reveal_strlit("{\"type\":\"send\",\"content\":");
    reveal_strlit("}\n");
    reveal_strlit("{\"type\":\"joined\",\"username\":");
    reveal_strlit("{\"type\":\"left\",\"username\":");
    reveal_strlit("{\"type\":\"message\",\"username\":");
    reveal_strlit(",\"content\":");
    reveal_strlit("{\"type\":\"error\",\"reason\":");
}

proof fn lemma_tail_of_one(m: (Seq<char>, Seq<char>))
    ensures
        members_tail_text(seq![m]) == seq![','] + member_text(m),
{
    assert(seq![m].drop_first() =~= Seq::<(Seq<char>, Seq<char>)>::empty());
    assert(members_tail_text(Seq::<(Seq<char>, Seq<char>)>::empty()) =~= Seq::<char>::empty());
    assert(members_tail_text(seq![m]) =~= seq![','] + member_text(m));
}

/// The exact line that each client message is written as: compact JSON with
/// the `type` member first, then the message's field, then a line feed.
pub proof fn law_client_line_text(m: ClientModel)
    ensures
        m matches ClientModel::Join { username } ==> encoded::<ClientMessage>(m)
            == join_start() + json_quote(username) + line_end(),
        m matches ClientModel::Leave ==> encoded::<ClientMessage>(m) == leave_line(),
        m matches ClientModel::Send { content } ==> encoded::<ClientMessage>(m)
            == send_start() + json_quote(content) + line_end(),
{
    lemma_line_pieces();
    let fs = ClientMessage::spec_fields(m);
    match m {
        ClientModel::Join { username } => {
            assert(fs.drop_first() =~= seq![(key_username(), username)]);
            assert(fs.drop_first().drop_first() =~= Seq::<(Seq<char>, Seq<char>)>::empty());
            lemma_tail_of_one((key_username(), username));
            assert(encoded::<ClientMessage>(m) =~= join_start()
                + json_quote(username) + line_end());
        },
        ClientModel::Leave => {
            assert(fs.drop_first() =~= Seq::<(Seq<char>, Seq<char>)>::empty());
            assert(encoded::<ClientMessage>(m) =~= leave_line());
        },
        ClientModel::Send { content } => {
            assert(fs.drop_first() =~= seq![(key_content(), content)]);
            assert(fs.drop_first().drop_first() =~= Seq::<(Seq<char>, Seq<char>)>::empty());
            lemma_tail_of_one((key_content(), content));
            assert(encoded::<ClientMessage>(m) =~= send_start()
                + json_quote(content) + line_end());
        },
    }
}

/// A message in the array form: the tag, then the message's fields in order.
pub proof fn law_array_form(username: Seq<char>, content: Seq<char>, reason: Seq<char>)
    ensures
        ClientMessage::spec_from_elements(seq![Some("join"@), Some(username)])
            == Ok::<ClientModel, DecodeError>(ClientModel::Join { username }),
        ClientMessage::spec_from_elements(seq![Some("leave"@)]) == Ok::<ClientModel, DecodeError>(
            ClientModel::Leave,
        ),
        ClientMessage::spec_from_elements(seq![Some("send"@), Some(content)])
            == Ok::<ClientModel, DecodeError>(ClientModel::Send { content }),
        ServerMessage::spec_from_elements(seq![Some("joined"@), Some(username)])
            == Ok::<ServerModel, DecodeError>(ServerModel::Joined { username }),
        ServerMessage::spec_from_elements(seq![Some("left"@), Some(username)])
            == Ok::<ServerModel, DecodeError>(ServerModel::Left { username }),
        ServerMessage::spec_from_elements(seq![Some("message"@), Some(username), Some(content)])
            == Ok::<ServerModel, DecodeError>(ServerModel::Message { username, content }),
        ServerMessage::spec_from_elements(seq![Some("error"@), Some(reason)])
            == Ok::<ServerModel, DecodeError>(ServerModel::Error { reason }),
{
    lemma_literal_names();
    assert(tag_join() != tag_leave());
    assert(tag_join() != tag_send()) by {
        assert(tag_join()[0] != tag_send()[0]);
    }
    assert(tag_leave() != tag_send());
    assert(tag_joined() != tag_left());
    assert(tag_joined() != tag_message());
    assert(tag_joined() != tag_error());
    assert(tag_left() != tag_message());
    assert(tag_left() != tag_error()) by {
        assert(tag_left()[0] != tag_error()[0]);
    }
    assert(tag_message() != tag_error());
}

/// The line of a server message with one field after the tag.
proof fn lemma_server_line_one(m: ServerModel, start: Seq<char>, key: Seq<char>, v: Seq<char>)
    requires
        ServerMessage::spec_fields(m) == seq![(key_type(), start), (key, v)],
    ensures
        encoded::<ServerMessage>(m) == seq!['{'] + json_quote(key_type()) + seq![':'] + json_quote(
            start,
        ) + seq![','] + json_quote(key) + seq![':'] + json_quote(v) + seq!['}', '\n'],
{
    let fs = ServerMessage::spec_fields(m);
    assert(fs.drop_first() =~= seq![(key, v)]);
    lemma_tail_of_one((key, v));
    assert(encoded::<ServerMessage>(m) =~= seq!['{'] + json_quote(key_type()) + seq![':']
        + json_quote(start) + seq![','] + json_quote(key) + seq![':'] + json_quote(v) + seq![
        '}',
        '\n',
    ]);
}

proof fn lemma_server_line_message(username: Seq<char>, content: Seq<char>)
    ensures
        encoded::<ServerMessage>(ServerModel::Message { username, content }) == message_start()
            + json_quote(username) + content_sep() + json_quote(content) + line_end(),
{
    lemma_line_pieces();
    let m = ServerModel::Message { username, content };
    let fs = ServerMessage::spec_fields(m);
    assert(fs.drop_first() =~= seq![(key_username(), username), (key_content(), content)]);
    assert(fs.drop_first().drop_first() =~= seq![(key_content(), content)]);
    lemma_tail_of_one((key_content(), content));
    assert(members_tail_text(fs.drop_first()) =~= seq![','] + member_text(
        (key_username(), username),
    ) + seq![','] + member_text((key_content(), content)));
    assert(encoded::<ServerMessage>(m) =~= message_start() + json_quote(username) + content_sep()
        + json_quote(content) + line_end());
}

/// The exact line that each server message is written as: compact JSON with
/// the `type` member first, then the message's fields in order, then a line
/// feed.
pub proof fn law_server_line_text(m: ServerModel)
    ensures
        m matches ServerModel::Joined { username } ==> encoded::<ServerMessage>(m)
            == joined_start() + json_quote(username) + line_end(),
        m matches ServerModel::Left { username } ==> encoded::<ServerMessage>(m)
            == left_start() + json_quote(username) + line_end(),
        m matches ServerModel::Message { username, content } ==> encoded::<ServerMessage>(m)
            == message_start() + json_quote(username)
            + content_sep() + json_quote(content) + line_end(),
        m matches ServerModel::Error { reason } ==> encoded::<ServerMessage>(m)
            == error_start() + json_quote(reason) + line_end(),
{
    lemma_line_pieces();
    match m {
        ServerModel::Joined { username } => {
            lemma_server_line_one(m, tag_joined(), key_username(), username);
            assert(encoded::<ServerMessage>(m) =~= joined_start() + json_quote(username)
                + line_end());
        },
        ServerModel::Left { username } => {
            lemma_server_line_one(m, tag_left(), key_username(), username);
            assert(encoded::<ServerMessage>(m) =~= left_start() + json_quote(username)
                + line_end());
        },
        ServerModel::Message { username, content } => {
            lemma_server_line_message(username, content);
        },
        ServerModel::Error { reason } => {
            lemma_server_line_one(m, tag_error(), key_reason(), reason);
            assert(encoded::<ServerMessage>(m) =~= error_start() + json_quote(reason)
                + line_end());
        },
    }
}

/// The text of a message: its JSON object, then a line feed.
///
/// The line holds no other line feed, and decoding it gives back the message.
pub fn encode<M: WireMessage>(msg: &M) -> (r: String)
    ensures
        r@ == encoded::<M>(msg@),
        r@.len() > 0,
        r@.last() == '\n',
        no_line_feed(r@.drop_last()),
        decoded::<M>(r@) == Ok::<M::V, DecodeError>(msg@),
{
    let fs = msg.fields();
    let ghost fv = fields_view(fs@);
    proof {
        reveal_strlit("{");
        reveal_strlit("}");
        reveal_strlit(",");
        reveal_strlit(":");
        reveal_strlit("\n");
    }
    let mut out = String::from_str("{");
    let mut i: usize = 0;
    while i < fs.len()
        invariant
            i <= fs.len(),
            fv == fields_view(fs@),
            fv == M::spec_fields(msg@),
            out@ == seq!['{'] + members_prefix_text(fv, i as int),
            forall|j: int|
                0 <= j < i ==> json_string_value(#[trigger] json_quote(fv[j].0)) == Some(fv[j].0)
                    && json_string_value(json_quote(fv[j].1)) == Some(fv[j].1),
        decreases fs.len() - i,
    {
        proof {
            reveal_strlit(",");
            reveal_strlit(":");
        }
        let ghost before = out@;
        if i > 0 {
            out.append(",");
        }
        let ghost sep = out@;
        let k = quote_string(fs[i].0.as_str());
        out.append(k.as_str());
        out.append(":");
        let v = quote_string(fs[i].1.as_str());
        out.append(v.as_str());
        proof {
            assert(fv[i as int] == (fs@[i as int].0@, fs@[i as int].1@));
            assert(out@ =~= sep + member_text(fv[i as int]));
            lemma_members_prefix_step(fv, i as int);
            if i == 0 {
                assert(sep == before);
            } else {
                assert(sep =~= before + seq![',']);
            }
            assert(out@ =~= seq!['{'] + members_prefix_text(fv, i + 1));
        }
        i = i + 1;
    }
    proof {
        reveal_strlit("}");
        reveal_strlit("\n");
    }
    let ghost body = out@;
    out.append("}");
    out.append("\n");
    proof {
        assert(i == fs.len());
        assert(out@ =~= body + seq!['}'] + seq!['\n']);
        lemma_encoded_line::<M>(msg@, out@);
    }
    out
}

/// The message in the line `line`, once whitespace at either end is gone.
pub fn decode<M: WireMessage>(line: &str) -> (r: Result<M, DecodeError>)
    ensures
        match r {
            Ok(m) => decoded::<M>(line@) == Ok::<M::V, DecodeError>(m@),
            Err(e) => decoded::<M>(line@) == Err::<M::V, DecodeError>(e),
        },
{
    let text = trim_text(line);
    let chars = chars_of(text);
    match read_object(&chars) {
        Some(fs) => M::from_fields(&fs),
        None => match read_array(&chars) {
            Some(es) => M::from_elements(&es),
            None => Err(DecodeError::Syntax),
        },
    }
}

} // verus!
