use vstd::prelude::*;

verus! {

/// The character that serde_json writes for a low hex digit.
pub open spec fn hex_digit(n: int) -> char {
    if n < 10 {
        ((n + 48) as u32) as char
    } else {
        ((n + 87) as u32) as char
    }
}

/// How serde_json writes one character inside a string literal: `"` and `\`
/// behind a backslash, the five controls with a short escape by their letter,
/// the other controls below U+0020 as `\u00XX` with lower-case hex digits, and
/// every other character as it is.
pub open spec fn escape_char(c: char) -> Seq<char> {
    if c == '"' {
        seq!['\\', '"']
    } else if c == '\\' {
        seq!['\\', '\\']
    } else if c == '\u{8}' {
        seq!['\\', 'b']
    } else if c == '\u{c}' {
        seq!['\\', 'f']
    } else if c == '\n' {
        seq!['\\', 'n']
    } else if c == '\r' {
        seq!['\\', 'r']
    } else if c == '\t' {
        seq!['\\', 't']
    } else if (c as u32) < 0x20 {
        seq!['\\', 'u', '0', '0', hex_digit((c as u32) as int / 16), hex_digit((c as u32) as int % 16)]
    } else {
        seq![c]
    }
}

/// The escaped body of a string literal.
pub open spec fn escape_all(s: Seq<char>) -> Seq<char>
    decreases s.len(),
{
    if s.len() == 0 {
        Seq::empty()
    } else {
        escape_char(s[0]) + escape_all(s.drop_first())
    }
}

/// The JSON string literal that serde_json writes for `s`.
pub open spec fn json_quote(s: Seq<char>) -> Seq<char> {
    seq!['"'] + escape_all(s) + seq!['"']
}

/// What serde_json reads from the JSON text `literal` as a `String`, where it
/// reads one.
pub uninterp spec fn json_string_value(literal: Seq<char>) -> Option<Seq<char>>;

/// `serde_json::to_string` on a `&str`: the string literal of `s`, which
/// `serde_json::from_str` reads back as `s`.
#[verifier::external_body]
pub(crate) fn quote_string(s: &str) -> (r: String)
    ensures
        r@ == json_quote(s@),
        json_string_value(r@) == Some(s@),
{
    match serde_json::to_string(s) {
        Ok(text) => text,
        Err(_) => String::new(),
    }
}


// ---------------------------------------------------------------------------
// The grammar that the decoder reads: a JSON object or array. Strings are
// read; other values are stepped over and left to serde_json to judge. Each
// function reads a prefix of `s` and says how many characters it took.
// ---------------------------------------------------------------------------

/// JSON's insignificant whitespace.
pub open spec fn is_json_ws(c: char) -> bool {
    c == ' ' || c == '\t' || c == '\n' || c == '\r'
}

/// The length of the run of JSON whitespace that `s` starts with.
pub open spec fn ws_len(s: Seq<char>) -> nat
    decreases s.len(),
{
    if s.len() > 0 && is_json_ws(s[0]) {
        1 + ws_len(s.skip(1))
    } else {
        0
    }
}

/// Where `s`, the text right behind an opening quote, has the quote that
/// closes the literal: the number of characters up to and with that quote.
/// A backslash always takes the character behind it along.
pub open spec fn literal_tail_len(s: Seq<char>) -> Option<nat>
    decreases s.len(),
{
    if s.len() == 0 {
        None
    } else if s[0] == '"' {
        Some(1)
    } else if s[0] == '\\' {
        if s.len() >= 2 {
            match literal_tail_len(s.skip(2)) {
                Some(n) => Some(n + 2),
                None => None,
            }
        } else {
            None
        }
    } else {
        match literal_tail_len(s.skip(1)) {
            Some(n) => Some(n + 1),
            None => None,
        }
    }
}

/// A string literal at the start of `s`: its value and its length.
#[verifier::opaque]
pub open spec fn parse_string(s: Seq<char>) -> Option<(Seq<char>, nat)> {
    if s.len() > 0 && s[0] == '"' {
        match literal_tail_len(s.skip(1)) {
            Some(n) => match json_string_value(s.take(n + 1int)) {
                Some(v) => Some((v, n + 1)),
                None => None,
            },
            None => None,
        }
    } else {
        None
    }
}

/// A member of an object as the decoder reads it: its name, and its value
/// where that value is a string (`None` for any other JSON value).
pub type Member = (Seq<char>, Option<Seq<char>>);

/// Characters that end a number, `true`, `false` or `null` inside an object.
pub open spec fn ends_scalar(c: char) -> bool {
    is_json_ws(c) || c == ',' || c == '}' || c == ']'
}

/// The length of the run of characters that `s` starts with and that end no
/// scalar.
pub open spec fn scalar_len(s: Seq<char>) -> nat
    decreases s.len(),
{
    if s.len() > 0 && !ends_scalar(s[0]) {
        1 + scalar_len(s.skip(1))
    } else {
        0
    }
}

/// How deep arrays and objects may nest in a member's value. serde_json stops
/// at 127 levels, and the message object itself takes one of them.
pub open spec fn max_value_depth() -> nat {
    126
}

/// Where the array or object in which `s` stands, `depth` levels deep,
/// closes: the number of characters up to and with its closing bracket.
/// String literals are stepped over whole.
pub open spec fn nested_tail_len(s: Seq<char>, depth: nat) -> Option<nat>
    decreases s.len(),
{
    if s.len() == 0 {
        None
    } else if s[0] == '"' {
        match literal_tail_len(s.skip(1)) {
            Some(n) => if n + 1 <= s.len() {
                match nested_tail_len(s.skip(n + 1int), depth) {
                    Some(m) => Some(m + n + 1),
                    None => None,
                }
            } else {
                None
            },
            None => None,
        }
    } else if s[0] == '{' || s[0] == '[' {
        if depth + 1 > max_value_depth() {
            None
        } else {
            match nested_tail_len(s.skip(1), depth + 1) {
                Some(m) => Some(m + 1),
                None => None,
            }
        }
    } else if s[0] == '}' || s[0] == ']' {
        if depth <= 1 {
            Some(1)
        } else {
            match nested_tail_len(s.skip(1), (depth - 1) as nat) {
                Some(m) => Some(m + 1),
                None => None,
            }
        }
    } else {
        match nested_tail_len(s.skip(1), depth) {
            Some(m) => Some(m + 1),
            None => None,
        }
    }
}

/// The length of the JSON value other than a string that `s` starts with:
/// an array or object up to its closing bracket, or else the run up to the
/// next delimiter. serde_json then judges whether that text is a value.
pub open spec fn value_len(s: Seq<char>) -> Option<nat> {
    if s.len() > 0 && (s[0] == '{' || s[0] == '[') {
        match nested_tail_len(s.skip(1), 1) {
            Some(n) => Some(n + 1),
            None => None,
        }
    } else if scalar_len(s) > 0 {
        Some(scalar_len(s))
    } else {
        None
    }
}

/// Whether serde_json reads the text `value` as a JSON value
/// (`serde_json::Value`).
pub uninterp spec fn json_value_accepted(value: Seq<char>) -> bool;

/// A JSON value at the start of `s`: `Some` of its text where it is a
/// string, `None` where it is another value; and its length.
#[verifier::opaque]
pub open spec fn parse_element(s: Seq<char>) -> Option<(Option<Seq<char>>, nat)> {
    if s.len() > 0 && s[0] == '"' {
        match parse_string(s) {
            Some((v, d)) => Some((Some(v), d)),
            None => None,
        }
    } else {
        match value_len(s) {
            Some(n) => if n <= s.len() && json_value_accepted(s.take(n as int)) {
                Some((None, n))
            } else {
                None
            },
            None => None,
        }
    }
}

/// A member `"key" : value` at the start of `s`.
#[verifier::opaque]
pub open spec fn parse_member(s: Seq<char>) -> Option<(Member, nat)> {
    match parse_string(s) {
        Some((k, a)) => {
            let b = a + ws_len(s.skip(a as int)) as int;
            if b < s.len() && s[b] == ':' {
                let c = b + 1 + ws_len(s.skip(b + 1));
                match parse_element(s.skip(c)) {
                    Some((v, d)) => Some(((k, v), (c + d) as nat)),
                    None => None,
                }
            } else {
                None
            }
        },
        None => None,
    }
}

/// What follows the first member of an object: `, member` any number of
/// times, then the closing brace.
pub open spec fn parse_members_tail(s: Seq<char>) -> Option<(Seq<Member>, nat)>
    decreases s.len(),
{
    let a = ws_len(s) as int;
    if a < s.len() && s[a] == '}' {
        Some((Seq::empty(), (a + 1) as nat))
    } else if a < s.len() && s[a] == ',' {
        let b = a + 1 + ws_len(s.skip(a + 1));
        match parse_member(s.skip(b)) {
            Some((m, c)) => if b + c <= s.len() {
                match parse_members_tail(s.skip(b + c)) {
                    Some((ms, d)) => Some((seq![m] + ms, (b + c + d) as nat)),
                    None => None,
                }
            } else {
                None
            },
            None => None,
        }
    } else {
        None
    }
}

/// The members of the object that `t` is, in their order, where `t` is a JSON
/// object with nothing before or after it.
pub open spec fn parse_object(t: Seq<char>) -> Option<Seq<Member>> {
    if t.len() > 0 && t[0] == '{' {
        let a = 1 + ws_len(t.skip(1)) as int;
        if a < t.len() && t[a] == '}' {
            if a + 1 == t.len() {
                Some(Seq::empty())
            } else {
                None
            }
        } else {
            match parse_member(t.skip(a)) {
                Some((m, c)) => if a + c <= t.len() {
                    match parse_members_tail(t.skip(a + c)) {
                        Some((ms, d)) => if a + c + d == t.len() {
                            Some(seq![m] + ms)
                        } else {
                            None
                        },
                        None => None,
                    }
                } else {
                    None
                },
                None => None,
            }
        }
    } else {
        None
    }
}

/// What follows the first element of an array: `, element` any number of
/// times, then the closing bracket.
pub open spec fn parse_elements_tail(s: Seq<char>) -> Option<(Seq<Option<Seq<char>>>, nat)>
    decreases s.len(),
{
    let a = ws_len(s) as int;
    if a < s.len() && s[a] == ']' {
        Some((Seq::empty(), (a + 1) as nat))
    } else if a < s.len() && s[a] == ',' {
        let b = a + 1 + ws_len(s.skip(a + 1));
        match parse_element(s.skip(b)) {
            Some((e, c)) => if b + c <= s.len() {
                match parse_elements_tail(s.skip(b + c)) {
                    Some((es, d)) => Some((seq![e] + es, (b + c + d) as nat)),
                    None => None,
                }
            } else {
                None
            },
            None => None,
        }
    } else {
        None
    }
}

/// The elements of the array that `t` is, in their order, where `t` is a JSON
/// array with nothing before or after it.
pub open spec fn parse_array(t: Seq<char>) -> Option<Seq<Option<Seq<char>>>> {
    if t.len() > 0 && t[0] == '[' {
        let a = 1 + ws_len(t.skip(1)) as int;
        if a < t.len() && t[a] == ']' {
            if a + 1 == t.len() {
                Some(Seq::empty())
            } else {
                None
            }
        } else {
            match parse_element(t.skip(a)) {
                Some((e, c)) => if a + c <= t.len() {
                    match parse_elements_tail(t.skip(a + c)) {
                        Some((es, d)) => if a + c + d == t.len() {
                            Some(seq![e] + es)
                        } else {
                            None
                        },
                        None => None,
                    }
                } else {
                    None
                },
                None => None,
            }
        }
    } else {
        None
    }
}

// ---------------------------------------------------------------------------
// The text that the encoder writes: compact JSON, members in order.
// ---------------------------------------------------------------------------

/// `"key":"value"`.
pub open spec fn member_text(m: (Seq<char>, Seq<char>)) -> Seq<char> {
    json_quote(m.0) + seq![':'] + json_quote(m.1)
}

/// `,"key":"value"` for each member.
pub open spec fn members_tail_text(fs: Seq<(Seq<char>, Seq<char>)>) -> Seq<char>
    decreases fs.len(),
{
    if fs.len() == 0 {
        Seq::empty()
    } else {
        seq![','] + member_text(fs[0]) + members_tail_text(fs.drop_first())
    }
}

/// The compact JSON object with the members `fs`, in order.
pub open spec fn object_text(fs: Seq<(Seq<char>, Seq<char>)>) -> Seq<char> {
    if fs.len() == 0 {
        seq!['{', '}']
    } else {
        seq!['{'] + member_text(fs[0]) + members_tail_text(fs.drop_first()) + seq!['}']
    }
}

/// The members that the decoder reads from `object_text(fs)`.
pub open spec fn as_read(fs: Seq<(Seq<char>, Seq<char>)>) -> Seq<Member> {
    Seq::new(fs.len(), |i: int| (fs[i].0, Some(fs[i].1)))
}

/// serde_json reads each key and value back from its literal.
pub open spec fn reads_back(fs: Seq<(Seq<char>, Seq<char>)>) -> bool {
    forall|i: int|
        0 <= i < fs.len() ==> json_string_value(#[trigger] json_quote(fs[i].0)) == Some(fs[i].0)
            && json_string_value(json_quote(fs[i].1)) == Some(fs[i].1)
}

/// Characters that the literal scanner steps over one at a time.
pub open spec fn is_plain(c: char) -> bool {
    c != '"' && c != '\\'
}

proof fn lemma_plain_prefix(p: Seq<char>, x: Seq<char>)
    requires
        forall|i: int| 0 <= i < p.len() ==> is_plain(#[trigger] p[i]),
    ensures
        literal_tail_len(p + x) == match literal_tail_len(x) {
            Some(n) => Some(n + p.len()),
            None => None::<nat>,
        },
    decreases p.len(),
{
    if p.len() > 0 {
        let t = p + x;
        assert(t[0] == p[0]);
        assert(t.skip(1) =~= p.drop_first() + x);
        assert forall|i: int| 0 <= i < p.drop_first().len() implies is_plain(
            #[trigger] p.drop_first()[i],
        ) by {
            assert(p.drop_first()[i] == p[i + 1]);
        }
        lemma_plain_prefix(p.drop_first(), x);
    } else {
        assert(p + x =~= x);
    }
}

proof fn lemma_hex_digit_plain(n: int)
    requires
        0 <= n < 16,
    ensures
        is_plain(hex_digit(n)),
        hex_digit(n) != '\n',
{
}

/// The scanner finds the end of the literal that the escaper wrote.
proof fn lemma_scan_escaped(s: Seq<char>, rest: Seq<char>)
    ensures
        literal_tail_len(escape_all(s) + seq!['"'] + rest) == Some((escape_all(s).len() + 1) as nat),
    decreases s.len(),
{
    let tail = escape_all(s.drop_first()) + seq!['"'] + rest;
    if s.len() == 0 {
        assert(escape_all(s) + seq!['"'] + rest =~= seq!['"'] + rest);
    } else {
        lemma_scan_escaped(s.drop_first(), rest);
        let c = s[0];
        let e = escape_char(c);
        assert(escape_all(s) + seq!['"'] + rest =~= e + tail);
        let t = e + tail;
        if e.len() == 1 {
            assert(is_plain(e[0]));
            lemma_plain_prefix(e, tail);
        } else if e.len() == 2 {
            assert(t[0] == '\\');
            assert(t.skip(2) =~= tail);
        } else {
            let code = (c as u32) as int;
            lemma_hex_digit_plain(code / 16);
            lemma_hex_digit_plain(code % 16);
            assert(t[0] == '\\');
            let digits = seq!['0', '0', hex_digit(code / 16), hex_digit(code % 16)];
            assert(t.skip(2) =~= digits + tail);
            lemma_plain_prefix(digits, tail);
        }
    }
}


/// Text without quotes, backslashes or control characters is written as it
/// is inside a string literal.
pub proof fn lemma_escape_plain(s: Seq<char>)
    requires
        forall|i: int|
            0 <= i < s.len() ==> (#[trigger] s[i] as u32) >= 0x20 && s[i] != '"' && s[i] != '\\',
    ensures
        escape_all(s) == s,
    decreases s.len(),
{
    if s.len() > 0 {
        assert forall|i: int| 0 <= i < s.drop_first().len() implies (
        #[trigger] s.drop_first()[i] as u32) >= 0x20 && s.drop_first()[i] != '"'
            && s.drop_first()[i] != '\\' by {
            assert(s.drop_first()[i] == s[i + 1]);
        }
        lemma_escape_plain(s.drop_first());
        assert((s[0] as u32) >= 0x20);
        assert(escape_all(s) =~= seq![s[0]] + s.drop_first());
        assert(seq![s[0]] + s.drop_first() =~= s);
    }
}

proof fn lemma_parse_quoted(s: Seq<char>, rest: Seq<char>)
    requires
        json_string_value(json_quote(s)) == Some(s),
    ensures
        parse_string(json_quote(s) + rest) == Some((s, json_quote(s).len())),
{
    reveal(parse_string);
    let q = json_quote(s);
    let t = q + rest;
    assert(t[0] == '"');
    assert(t.skip(1) =~= escape_all(s) + seq!['"'] + rest);
    lemma_scan_escaped(s, rest);
    assert(t.take(q.len() as int) =~= q);
}

proof fn lemma_parse_member_text(m: (Seq<char>, Seq<char>), rest: Seq<char>)
    requires
        json_string_value(json_quote(m.0)) == Some(m.0),
        json_string_value(json_quote(m.1)) == Some(m.1),
    ensures
        parse_member(member_text(m) + rest) == Some(((m.0, Some(m.1)), member_text(m).len())),
{
    reveal(parse_member);
    reveal(parse_element);
    let qk = json_quote(m.0);
    let qv = json_quote(m.1);
    let t = member_text(m) + rest;
    let rest1 = seq![':'] + qv + rest;
    assert(t =~= qk + rest1);
    lemma_parse_quoted(m.0, rest1);
    let a = qk.len() as int;
    assert(t.skip(a) =~= rest1);
    assert(ws_len(rest1) == 0);
    assert(t[a] == ':');
    assert(t.skip(a + 1) =~= qv + rest);
    assert((qv + rest)[0] == '"');
    assert(ws_len(qv + rest) == 0);
    assert(t[a + 1] == '"');
    lemma_parse_quoted(m.1, rest);
}

proof fn lemma_reads_back_tail(fs: Seq<(Seq<char>, Seq<char>)>)
    requires
        fs.len() > 0,
        reads_back(fs),
    ensures
        reads_back(fs.drop_first()),
        json_string_value(json_quote(fs[0].0)) == Some(fs[0].0),
        json_string_value(json_quote(fs[0].1)) == Some(fs[0].1),
{
    let tail = fs.drop_first();
    assert forall|i: int| 0 <= i < tail.len() implies json_string_value(
        #[trigger] json_quote(tail[i].0),
    ) == Some(tail[i].0) && json_string_value(json_quote(tail[i].1)) == Some(tail[i].1) by {
        assert(tail[i] == fs[i + 1]);
        assert(json_string_value(json_quote(fs[i + 1].0)) == Some(fs[i + 1].0));
    }
    assert(json_string_value(json_quote(fs[0].0)) == Some(fs[0].0));
}

proof fn lemma_parse_members_tail_text(fs: Seq<(Seq<char>, Seq<char>)>, rest: Seq<char>)
    requires
        reads_back(fs),
    ensures
        parse_members_tail(members_tail_text(fs) + seq!['}'] + rest) == Some(
            (as_read(fs), (members_tail_text(fs).len() + 1) as nat),
        ),
    decreases fs.len(),
{
    let t = members_tail_text(fs) + seq!['}'] + rest;
    if fs.len() == 0 {
        assert(t =~= seq!['}'] + rest);
        assert(ws_len(t) == 0);
        assert(as_read(fs) =~= Seq::<Member>::empty());
    } else {
        let tail = fs.drop_first();
        lemma_reads_back_tail(fs);
        lemma_parse_members_tail_text(tail, rest);
        let rest2 = members_tail_text(tail) + seq!['}'] + rest;
        assert(t =~= seq![','] + (member_text(fs[0]) + rest2));
        assert(ws_len(t) == 0);
        assert(t[0] == ',');
        let mt = member_text(fs[0]) + rest2;
        assert(t.skip(1) =~= mt);
        assert(mt[0] == '"');
        assert(ws_len(mt) == 0);
        lemma_parse_member_text(fs[0], rest2);
        let c = member_text(fs[0]).len() as int;
        assert(t.skip(1 + c) =~= rest2);
        assert(ws_len(t.skip(1)) == 0);
        assert(parse_member(t.skip(1)) == Some(((fs[0].0, Some(fs[0].1)), c as nat)));
        assert(1 + c <= t.len());
        assert(parse_members_tail(t.skip(1 + c)) == Some(
            (as_read(tail), (members_tail_text(tail).len() + 1) as nat),
        ));
        assert(seq![(fs[0].0, Some(fs[0].1))] + as_read(tail) =~= as_read(fs));
        assert(t.len() == 1 + c + members_tail_text(tail).len() + 1 + rest.len());
    }
}

/// The decoder's grammar reads back every member list that the encoder's text
/// holds, where serde_json reads back each literal.
pub proof fn lemma_parse_object_text(fs: Seq<(Seq<char>, Seq<char>)>)
    requires
        reads_back(fs),
    ensures
        parse_object(object_text(fs)) == Some(as_read(fs)),
{
    let t = object_text(fs);
    if fs.len() == 0 {
        assert(t.skip(1) =~= seq!['}']);
        assert(ws_len(t.skip(1)) == 0);
        assert(as_read(fs) =~= Seq::<Member>::empty());
    } else {
        let tail = fs.drop_first();
        lemma_reads_back_tail(fs);
        let rest2 = members_tail_text(tail) + seq!['}'];
        let mt = member_text(fs[0]) + rest2;
        assert(t =~= seq!['{'] + mt);
        assert(t.skip(1) =~= mt);
        assert(mt[0] == '"');
        assert(ws_len(mt) == 0);
        lemma_parse_member_text(fs[0], rest2);
        let c = member_text(fs[0]).len() as int;
        assert(t.skip(1 + c) =~= rest2);
        lemma_parse_members_tail_text(tail, Seq::empty());
        assert(rest2 + Seq::<char>::empty() =~= rest2);
        assert(parse_member(t.skip(1)) == Some(((fs[0].0, Some(fs[0].1)), c as nat)));
        assert(t[1] == '"');
        assert(parse_members_tail(t.skip(1 + c)) == Some(
            (as_read(tail), (members_tail_text(tail).len() + 1) as nat),
        ));
        assert(t.len() == 1 + c + members_tail_text(tail).len() + 1);
        assert(seq![(fs[0].0, Some(fs[0].1))] + as_read(tail) =~= as_read(fs));
    }
}

/// `s` holds no line feed.
pub open spec fn no_line_feed(s: Seq<char>) -> bool {
    forall|i: int| 0 <= i < s.len() ==> s[i] != '\n'
}

proof fn lemma_no_line_feed_concat(a: Seq<char>, b: Seq<char>)
    requires
        no_line_feed(a),
        no_line_feed(b),
    ensures
        no_line_feed(a + b),
{
    assert forall|i: int| 0 <= i < (a + b).len() implies (a + b)[i] != '\n' by {
        if i < a.len() {
            assert((a + b)[i] == a[i]);
        } else {
            assert((a + b)[i] == b[i - a.len()]);
        }
    }
}

proof fn lemma_escape_no_line_feed(s: Seq<char>)
    ensures
        no_line_feed(escape_all(s)),
    decreases s.len(),
{
    if s.len() > 0 {
        lemma_escape_no_line_feed(s.drop_first());
        let c = s[0];
        let e = escape_char(c);
        if (c as u32) < 0x20 && e.len() == 6 {
            lemma_hex_digit_plain((c as u32) as int / 16);
            lemma_hex_digit_plain((c as u32) as int % 16);
        }
        assert(no_line_feed(e));
        lemma_no_line_feed_concat(e, escape_all(s.drop_first()));
    }
}

proof fn lemma_member_no_line_feed(m: (Seq<char>, Seq<char>))
    ensures
        no_line_feed(member_text(m)),
{
    lemma_escape_no_line_feed(m.0);
    lemma_escape_no_line_feed(m.1);
    let q = seq!['"'];
    assert(no_line_feed(q));
    assert(no_line_feed(seq![':']));
    lemma_no_line_feed_concat(q, escape_all(m.0));
    lemma_no_line_feed_concat(q + escape_all(m.0), q);
    lemma_no_line_feed_concat(q, escape_all(m.1));
    lemma_no_line_feed_concat(q + escape_all(m.1), q);
    lemma_no_line_feed_concat(json_quote(m.0), seq![':']);
    lemma_no_line_feed_concat(json_quote(m.0) + seq![':'], json_quote(m.1));
}

proof fn lemma_members_tail_no_line_feed(fs: Seq<(Seq<char>, Seq<char>)>)
    ensures
        no_line_feed(members_tail_text(fs)),
    decreases fs.len(),
{
    if fs.len() > 0 {
        lemma_members_tail_no_line_feed(fs.drop_first());
        lemma_member_no_line_feed(fs[0]);
        assert(no_line_feed(seq![',']));
        lemma_no_line_feed_concat(seq![','], member_text(fs[0]));
        lemma_no_line_feed_concat(
            seq![','] + member_text(fs[0]),
            members_tail_text(fs.drop_first()),
        );
    }
}

/// The encoder's text holds no line feed, so a line feed can end it.
pub proof fn lemma_object_text_no_line_feed(fs: Seq<(Seq<char>, Seq<char>)>)
    ensures
        no_line_feed(object_text(fs)),
{
    if fs.len() > 0 {
        lemma_member_no_line_feed(fs[0]);
        lemma_members_tail_no_line_feed(fs.drop_first());
        assert(no_line_feed(seq!['{']));
        assert(no_line_feed(seq!['}']));
        lemma_no_line_feed_concat(seq!['{'], member_text(fs[0]));
        lemma_no_line_feed_concat(
            seq!['{'] + member_text(fs[0]),
            members_tail_text(fs.drop_first()),
        );
        lemma_no_line_feed_concat(
            seq!['{'] + member_text(fs[0]) + members_tail_text(fs.drop_first()),
            seq!['}'],
        );
    } else {
        assert(no_line_feed(seq!['{', '}']));
    }
}

} // verus!
