use crate::json::{
    ends_scalar, is_json_ws, json_string_value, json_value_accepted, literal_tail_len,
    max_value_depth, nested_tail_len, parse_array, parse_element, parse_elements_tail,
    parse_member, parse_members_tail, parse_object, parse_string, scalar_len, value_len, ws_len, Member,
};
use vstd::prelude::*;

verus! {

/// A member's value as the decoder reads it, taken by its view.
pub open spec fn opt_view(o: Option<String>) -> Option<Seq<char>> {
    match o {
        Some(s) => Some(s@),
        None => None,
    }
}

/// The members of a decoded object, taken by their views.
pub open spec fn pairs_view(v: Seq<(String, Option<String>)>) -> Seq<Member> {
    Seq::new(v.len(), |i: int| (v[i].0@, opt_view(v[i].1)))
}

proof fn lemma_skip_skip(s: Seq<char>, a: int, b: int)
    requires
        0 <= a,
        0 <= b,
        a + b <= s.len(),
    ensures
        s.skip(a).skip(b) == s.skip(a + b),
{
    assert(s.skip(a).skip(b) =~= s.skip(a + b));
}

proof fn lemma_literal_tail_len_bound(s: Seq<char>)
    ensures
        literal_tail_len(s) matches Some(n) ==> 1 <= n <= s.len(),
    decreases s.len(),
{
    if s.len() >= 2 {
        lemma_literal_tail_len_bound(s.skip(2));
    }
    if s.len() >= 1 {
        lemma_literal_tail_len_bound(s.skip(1));
    }
}

fn is_ws_char(c: char) -> (b: bool)
    ensures
        b == is_json_ws(c),
{
    c == ' ' || c == '\t' || c == '\n' || c == '\r'
}

/// The position behind the run of whitespace that starts at `p`.
fn skip_ws(chars: &Vec<char>, p: usize) -> (q: usize)
    requires
        p <= chars.len(),
    ensures
        q == p + ws_len(chars@.skip(p as int)),
        q <= chars.len(),
{
    let mut q = p;
    while q < chars.len() && is_ws_char(chars[q])
        invariant
            p <= q <= chars.len(),
            ws_len(chars@.skip(p as int)) == (q - p) + ws_len(chars@.skip(q as int)),
        decreases chars.len() - q,
    {
        proof {
            lemma_skip_skip(chars@, q as int, 1);
            assert(chars@.skip(q as int)[0] == chars@[q as int]);
        }
        q = q + 1;
    }
    proof {
        if q < chars.len() {
            assert(chars@.skip(q as int)[0] == chars@[q as int]);
        }
    }
    q
}

/// The position behind the quote that closes the literal whose body starts at
/// `p`.
fn scan_literal(chars: &Vec<char>, p: usize) -> (r: Option<usize>)
    requires
        p <= chars.len(),
    ensures
        match literal_tail_len(chars@.skip(p as int)) {
            Some(n) => r == Some((p + n) as usize) && p + n <= chars.len(),
            None => r is None,
        },
{
    let mut q = p;
    loop
        invariant
            p <= q <= chars.len(),
            literal_tail_len(chars@.skip(p as int)) == match literal_tail_len(
                chars@.skip(q as int),
            ) {
                Some(n) => Some((n + (q - p)) as nat),
                None => None::<nat>,
            },
        decreases chars.len() - q,
    {
        proof {
            lemma_literal_tail_len_bound(chars@.skip(q as int));
        }
        if q >= chars.len() {
            return None;
        }
        let c = chars[q];
        assert(chars@.skip(q as int)[0] == c);
        if c == '"' {
            return Some(q + 1);
        }
        if c == '\\' {
            if q + 1 >= chars.len() {
                return None;
            }
            proof {
                lemma_skip_skip(chars@, q as int, 2);
            }
            q = q + 2;
        } else {
            proof {
                lemma_skip_skip(chars@, q as int, 1);
            }
            q = q + 1;
        }
    }
}

/// `serde_json::from_str::<String>` on the characters `start..end`: the
/// string that serde_json reads from that text, where it reads one.
#[verifier::external_body]
fn read_json_string(chars: &Vec<char>, start: usize, end: usize) -> (r: Option<String>)
    requires
        start <= end <= chars.len(),
    ensures
        match r {
            Some(v) => json_string_value(chars@.subrange(start as int, end as int)) == Some(v@),
            None => json_string_value(chars@.subrange(start as int, end as int)) is None,
        },
{
    let text: String = chars[start..end].iter().collect();
    match serde_json::from_str::<String>(&text) {
        Ok(v) => Some(v),
        Err(_) => None,
    }
}

/// The string literal that starts at `p`, and the position behind it.
fn read_string(chars: &Vec<char>, p: usize) -> (r: Option<(String, usize)>)
    requires
        p <= chars.len(),
    ensures
        match parse_string(chars@.skip(p as int)) {
            Some((v, n)) => r matches Some((s, e)) && s@ == v && e == p + n && e <= chars.len(),
            None => r is None,
        },
{
    reveal(parse_string);
    if p < chars.len() && chars[p] == '"' {
        assert(chars@.skip(p as int)[0] == chars@[p as int]);
        proof {
            lemma_skip_skip(chars@, p as int, 1);
        }
        match scan_literal(chars, p + 1) {
            Some(e) => {
                assert(chars@.skip(p as int).take(e - p) =~= chars@.subrange(p as int, e as int));
                match read_json_string(chars, p, e) {
                    Some(v) => Some((v, e)),
                    None => None,
                }
            },
            None => None,
        }
    } else {
        proof {
            if p < chars.len() {
                assert(chars@.skip(p as int)[0] == chars@[p as int]);
            }
        }
        None
    }
}

/// The position behind the run of characters from `p` on that end no scalar.
fn scan_scalar(chars: &Vec<char>, p: usize) -> (q: usize)
    requires
        p <= chars.len(),
    ensures
        q == p + scalar_len(chars@.skip(p as int)),
        q <= chars.len(),
{
    let mut q = p;
    while q < chars.len() && !is_scalar_end(chars[q])
        invariant
            p <= q <= chars.len(),
            scalar_len(chars@.skip(p as int)) == (q - p) + scalar_len(chars@.skip(q as int)),
        decreases chars.len() - q,
    {
        proof {
            lemma_skip_skip(chars@, q as int, 1);
            assert(chars@.skip(q as int)[0] == chars@[q as int]);
        }
        q = q + 1;
    }
    proof {
        if q < chars.len() {
            assert(chars@.skip(q as int)[0] == chars@[q as int]);
        }
    }
    q
}

fn is_scalar_end(c: char) -> (b: bool)
    ensures
        b == ends_scalar(c),
{
    is_ws_char(c) || c == ',' || c == '}' || c == ']'
}

/// The position behind the bracket that closes the array or object whose
/// contents start at `p`.
fn scan_nested(chars: &Vec<char>, p: usize) -> (r: Option<usize>)
    requires
        p <= chars.len(),
    ensures
        match nested_tail_len(chars@.skip(p as int), 1) {
            Some(n) => r == Some((p + n) as usize) && p + n <= chars.len(),
            None => r is None,
        },
{
    let mut q = p;
    let mut depth: usize = 1;
    loop
        invariant
            p <= q <= chars.len(),
            1 <= depth <= max_value_depth(),
            nested_tail_len(chars@.skip(p as int), 1) == match nested_tail_len(
                chars@.skip(q as int),
                depth as nat,
            ) {
                Some(n) => Some((n + (q - p)) as nat),
                None => None::<nat>,
            },
        decreases chars.len() - q,
    {
        if q >= chars.len() {
            return None;
        }
        let c = chars[q];
        assert(chars@.skip(q as int)[0] == c);
        if c == '"' {
            proof {
                lemma_skip_skip(chars@, q as int, 1);
            }
            match scan_literal(chars, q + 1) {
                Some(e) => {
                    proof {
                        lemma_skip_skip(chars@, q as int, e - q);
                    }
                    q = e;
                },
                None => {
                    return None;
                },
            }
        } else if c == '{' || c == '[' {
            if depth + 1 > 126 {
                return None;
            }
            proof {
                lemma_skip_skip(chars@, q as int, 1);
            }
            depth = depth + 1;
            q = q + 1;
        } else if c == '}' || c == ']' {
            if depth <= 1 {
                return Some(q + 1);
            }
            proof {
                lemma_skip_skip(chars@, q as int, 1);
            }
            depth = depth - 1;
            q = q + 1;
        } else {
            proof {
                lemma_skip_skip(chars@, q as int, 1);
            }
            q = q + 1;
        }
    }
}

/// The position behind the JSON value other than a string that starts at
/// `p`, by the bounds that `value_len` draws.
fn scan_value(chars: &Vec<char>, p: usize) -> (r: Option<usize>)
    requires
        p <= chars.len(),
    ensures
        match value_len(chars@.skip(p as int)) {
            Some(n) => r == Some((p + n) as usize) && p + n <= chars.len(),
            None => r is None,
        },
{
    let ghost s = chars@.skip(p as int);
    if p < chars.len() && (chars[p] == '{' || chars[p] == '[') {
        assert(s[0] == chars@[p as int]);
        proof {
            lemma_skip_skip(chars@, p as int, 1);
        }
        scan_nested(chars, p + 1)
    } else {
        assert(p < chars.len() ==> s[0] == chars@[p as int]);
        let q = scan_scalar(chars, p);
        if q > p {
            Some(q)
        } else {
            None
        }
    }
}

/// `serde_json::from_str::<serde_json::Value>` on the characters
/// `start..end`: whether serde_json reads that text as a JSON value.
#[verifier::external_body]
fn accepts_json_value(chars: &Vec<char>, start: usize, end: usize) -> (ok: bool)
    requires
        start <= end <= chars.len(),
    ensures
        ok == json_value_accepted(chars@.subrange(start as int, end as int)),
{
    let text: String = chars[start..end].iter().collect();
    match serde_json::from_str::<serde_json::Value>(&text) {
        Ok(_) => true,
        Err(_) => false,
    }
}

/// The JSON value that starts at `p`: its text where it is a string, `None`
/// where it is another value; and the position behind it.
fn read_element(chars: &Vec<char>, p: usize) -> (r: Option<(Option<String>, usize)>)
    requires
        p <= chars.len(),
    ensures
        match parse_element(chars@.skip(p as int)) {
            Some((v, n)) => r matches Some((e, q)) && opt_view(e) == v && q == p + n && q
                <= chars.len(),
            None => r is None,
        },
{
    reveal(parse_element);
    let ghost s = chars@.skip(p as int);
    assert(p < chars.len() ==> s[0] == chars@[p as int]);
    if p < chars.len() && chars[p] == '"' {
        match read_string(chars, p) {
            Some((v, d)) => Some((Some(v), d)),
            None => None,
        }
    } else {
        match scan_value(chars, p) {
            Some(e) => {
                assert(s.take(e - p) =~= chars@.subrange(p as int, e as int));
                if accepts_json_value(chars, p, e) {
                    Some((None, e))
                } else {
                    None
                }
            },
            None => None,
        }
    }
}

/// The member that starts at `p`, and the position behind it.
fn read_member(chars: &Vec<char>, p: usize) -> (r: Option<((String, Option<String>), usize)>)
    requires
        p <= chars.len(),
    ensures
        match parse_member(chars@.skip(p as int)) {
            Some((m, n)) => r matches Some((kv, e)) && kv.0@ == m.0 && opt_view(kv.1) == m.1 && e
                == p + n && e <= chars.len(),
            None => r is None,
        },
{
    reveal(parse_member);
    let ghost s = chars@.skip(p as int);
    match read_string(chars, p) {
        Some((k, a)) => {
            proof {
                lemma_skip_skip(chars@, p as int, a - p);
            }
            let b = skip_ws(chars, a);
            assert(b < chars.len() ==> s[b - p] == chars@[b as int]);
            if b < chars.len() && chars[b] == ':' {
                proof {
                    lemma_skip_skip(chars@, p as int, b + 1 - p);
                }
                let c = skip_ws(chars, b + 1);
                proof {
                    lemma_skip_skip(chars@, p as int, c - p);
                }
                match read_element(chars, c) {
                    Some((v, d)) => Some(((k, v), d)),
                    None => None,
                }
            } else {
                None
            }
        },
        None => None,
    }
}

/// The members that follow the first one, from `p` on, and the position
/// behind the closing brace.
fn read_members_tail(chars: &Vec<char>, p: usize) -> (r: Option<(Vec<(String, Option<String>)>, usize)>)
    requires
        p <= chars.len(),
    ensures
        match parse_members_tail(chars@.skip(p as int)) {
            Some((ms, n)) => r matches Some((v, e)) && pairs_view(v@) == ms && e == p + n && e
                <= chars.len(),
            None => r is None,
        },
{
    let mut acc: Vec<(String, Option<String>)> = Vec::new();
    let mut q = p;
    loop
        invariant
            p <= q <= chars.len(),
            parse_members_tail(chars@.skip(p as int)) == match parse_members_tail(
                chars@.skip(q as int),
            ) {
                Some((ms, n)) => Some((pairs_view(acc@) + ms, (n + (q - p)) as nat)),
                None => None::<(Seq<Member>, nat)>,
            },
        decreases chars.len() - q,
    {
        let ghost s = chars@.skip(q as int);
        let a = skip_ws(chars, q);
        assert(a < chars.len() ==> s[a - q] == chars@[a as int]);
        if a < chars.len() && chars[a] == '}' {
            assert(pairs_view(acc@) + Seq::empty() =~= pairs_view(acc@));
            return Some((acc, a + 1));
        }
        if !(a < chars.len() && chars[a] == ',') {
            return None;
        }
        proof {
            lemma_skip_skip(chars@, q as int, a + 1 - q);
        }
        let b = skip_ws(chars, a + 1);
        proof {
            lemma_skip_skip(chars@, q as int, b - q);
        }
        match read_member(chars, b) {
            Some((m, c)) => {
                proof {
                    lemma_skip_skip(chars@, q as int, c - q);
                }
                let ghost before = pairs_view(acc@);
                let ghost mv = (m.0@, opt_view(m.1));
                acc.push(m);
                assert(pairs_view(acc@) =~= before.push(mv));
                assert forall|ms: Seq<Member>|
                    #![trigger before + (seq![mv] + ms)]
                    before + (seq![mv] + ms) =~= pairs_view(acc@) + ms by {
                    assert(before + (seq![mv] + ms) =~= pairs_view(acc@) + ms);
                }
                q = c;
            },
            None => {
                return None;
            },
        }
    }
}

/// The members of the object that `chars` is, where it is one.
pub fn read_object(chars: &Vec<char>) -> (r: Option<Vec<(String, Option<String>)>>)
    ensures
        match parse_object(chars@) {
            Some(fs) => r matches Some(v) && pairs_view(v@) == fs,
            None => r is None,
        },
{
    let ghost t = chars@;
    if !(chars.len() > 0 && chars[0] == '{') {
        return None;
    }
    let a = skip_ws(chars, 1);
    if a < chars.len() && chars[a] == '}' {
        if a + 1 == chars.len() {
            let empty: Vec<(String, Option<String>)> = Vec::new();
            assert(pairs_view(empty@) =~= Seq::empty());
            return Some(empty);
        } else {
            return None;
        }
    }
    assert(t.skip(0) =~= t);
    match read_member(chars, a) {
        Some((m, c)) => {
            match read_members_tail(chars, c) {
                Some((rest, e)) => {
                    if e == chars.len() {
                        let mut v: Vec<(String, Option<String>)> = Vec::new();
                        v.push(m);
                        let mut rest = rest;
                        let ghost rv = pairs_view(rest@);
                        v.append(&mut rest);
                        assert(pairs_view(v@) =~= seq![(m.0@, opt_view(m.1))] + rv);
                        Some(v)
                    } else {
                        None
                    }
                },
                None => None,
            }
        },
        None => None,
    }
}


/// The elements that follow the first one, from `p` on, and the position
/// behind the closing bracket.
fn read_elements_tail(chars: &Vec<char>, p: usize) -> (r: Option<(Vec<Option<String>>, usize)>)
    requires
        p <= chars.len(),
    ensures
        match parse_elements_tail(chars@.skip(p as int)) {
            Some((es, n)) => r matches Some((v, e)) && elements_view(v@) == es && e == p + n && e
                <= chars.len(),
            None => r is None,
        },
{
    let mut acc: Vec<Option<String>> = Vec::new();
    let mut q = p;
    loop
        invariant
            p <= q <= chars.len(),
            parse_elements_tail(chars@.skip(p as int)) == match parse_elements_tail(
                chars@.skip(q as int),
            ) {
                Some((es, n)) => Some((elements_view(acc@) + es, (n + (q - p)) as nat)),
                None => None::<(Seq<Option<Seq<char>>>, nat)>,
            },
        decreases chars.len() - q,
    {
        let ghost s = chars@.skip(q as int);
        let a = skip_ws(chars, q);
        assert(a < chars.len() ==> s[a - q] == chars@[a as int]);
        if a < chars.len() && chars[a] == ']' {
            assert(elements_view(acc@) + Seq::empty() =~= elements_view(acc@));
            return Some((acc, a + 1));
        }
        if !(a < chars.len() && chars[a] == ',') {
            return None;
        }
        proof {
            lemma_skip_skip(chars@, q as int, a + 1 - q);
        }
        let b = skip_ws(chars, a + 1);
        proof {
            lemma_skip_skip(chars@, q as int, b - q);
        }
        match read_element(chars, b) {
            Some((e, c)) => {
                proof {
                    lemma_skip_skip(chars@, q as int, c - q);
                }
                let ghost before = elements_view(acc@);
                let ghost ev = opt_view(e);
                acc.push(e);
                assert(elements_view(acc@) =~= before.push(ev));
                assert forall|es: Seq<Option<Seq<char>>>|
                    #![trigger before + (seq![ev] + es)]
                    before + (seq![ev] + es) =~= elements_view(acc@) + es by {
                    assert(before + (seq![ev] + es) =~= elements_view(acc@) + es);
                }
                q = c;
            },
            None => {
                return None;
            },
        }
    }
}

/// The elements of an array, taken by their views.
pub open spec fn elements_view(v: Seq<Option<String>>) -> Seq<Option<Seq<char>>> {
    Seq::new(v.len(), |i: int| opt_view(v[i]))
}

/// The elements of the array that `chars` is.
pub fn read_array(chars: &Vec<char>) -> (r: Option<Vec<Option<String>>>)
    ensures
        match parse_array(chars@) {
            Some(es) => r matches Some(v) && elements_view(v@) == es,
            None => r is None,
        },
{
    let ghost t = chars@;
    if !(chars.len() > 0 && chars[0] == '[') {
        return None;
    }
    let a = skip_ws(chars, 1);
    if a < chars.len() && chars[a] == ']' {
        if a + 1 == chars.len() {
            let empty: Vec<Option<String>> = Vec::new();
            assert(elements_view(empty@) =~= Seq::empty());
            return Some(empty);
        } else {
            return None;
        }
    }
    assert(t.skip(0) =~= t);
    match read_element(chars, a) {
        Some((e, c)) => {
            match read_elements_tail(chars, c) {
                Some((rest, end)) => {
                    if end == chars.len() {
                        let ghost ev = opt_view(e);
                        let mut v: Vec<Option<String>> = Vec::new();
                        v.push(e);
                        let mut rest = rest;
                        let ghost rv = elements_view(rest@);
                        v.append(&mut rest);
                        assert(elements_view(v@) =~= seq![ev] + rv);
                        Some(v)
                    } else {
                        None
                    }
                },
                None => None,
            }
        },
        None => None,
    }
}

} // verus!
