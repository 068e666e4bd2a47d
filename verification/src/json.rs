//! A verified reader and writer for the JSON subset the wire frames use:
//! one flat object of at most three members whose values are strings or
//! booleans. Standard JSON lexing applies — insignificant whitespace,
//! any member order, string escapes (`\" \\ \/ \b \f \n \r \t` and
//! `\uXXXX` for Unicode scalar values), and a ban on raw control
//! characters. The spec functions are the grammar; every executable
//! function returns exactly what its spec function denotes.

use crate::text::{char_from_u32, chars_to_string};
use vstd::prelude::*;

verus! {

/// A member value: the frames carry only strings and booleans.
pub enum JsonVal {
    S(String),
    B(bool),
}

pub ghost enum JsonValV {
    S(Seq<char>),
    B(bool),
}

impl View for JsonVal {
    type V = JsonValV;

    open spec fn view(&self) -> JsonValV {
        match self {
            JsonVal::S(s) => JsonValV::S(s@),
            JsonVal::B(b) => JsonValV::B(*b),
        }
    }
}

pub open spec fn is_ws(c: char) -> bool {
    c == ' ' || c == '\t' || c == '\n' || c == '\r'
}

/// The first index at or after `i` holding a non-whitespace character
/// (or the end of input).
pub open spec fn ws_end(s: Seq<char>, i: int) -> int
    decreases s.len() - i when 0 <= i
{
    if i < 0 || i >= s.len() {
        i
    } else if is_ws(s[i]) {
        ws_end(s, i + 1)
    } else {
        i
    }
}

pub proof fn lemma_ws_end_bounds(s: Seq<char>, i: int)
    requires
        0 <= i <= s.len(),
    ensures
        i <= ws_end(s, i) <= s.len(),
    decreases s.len() - i,
{
    if i < s.len() && is_ws(s[i]) {
        lemma_ws_end_bounds(s, i + 1);
    }
}

/// The numeric value of one hexadecimal digit.
pub open spec fn hex_digit_val(c: char) -> Option<u32> {
    let u = c as u32;
    if 48 <= u <= 57 {
        Some((u - 48) as u32)
    } else if 97 <= u <= 102 {
        Some((u - 87) as u32)
    } else if 65 <= u <= 70 {
        Some((u - 55) as u32)
    } else {
        None
    }
}

/// The value of the four hexadecimal digits at `i`.
pub open spec fn hex4(s: Seq<char>, i: int) -> Option<u32> {
    if 0 <= i && i + 4 <= s.len() {
        match (hex_digit_val(s[i]), hex_digit_val(s[i + 1]), hex_digit_val(s[i + 2]), hex_digit_val(
            s[i + 3],
        )) {
            (Some(a), Some(b), Some(c), Some(d)) => Some(
                ((a * 4096 + b * 256 + c * 16 + d) as u32),
            ),
            _ => None,
        }
    } else {
        None
    }
}

/// What a single-character escape stands for.
pub open spec fn unescape_char(e: char) -> Option<char> {
    if e == '"' {
        Some('"')
    } else if e == '\\' {
        Some('\\')
    } else if e == '/' {
        Some('/')
    } else if e == 'n' {
        Some('\n')
    } else if e == 't' {
        Some('\t')
    } else if e == 'r' {
        Some('\r')
    } else if e == 'b' {
        Some('\u{0008}')
    } else if e == 'f' {
        Some('\u{000C}')
    } else {
        None
    }
}

pub open spec fn str_cons(c: char, rest: Option<(Seq<char>, int)>) -> Option<(Seq<char>, int)> {
    match rest {
        Some((t, j)) => Some((seq![c] + t, j)),
        None => None,
    }
}

/// The body of a string literal, read from just after the opening quote:
/// the decoded characters and the index just past the closing quote.
pub open spec fn parse_string_body(s: Seq<char>, i: int) -> Option<(Seq<char>, int)>
    decreases s.len() - i when 0 <= i
{
    if i < 0 || i >= s.len() {
        None
    } else if s[i] == '"' {
        Some((Seq::empty(), i + 1))
    } else if s[i] == '\\' {
        if i + 1 >= s.len() {
            None
        } else if s[i + 1] == 'u' {
            match hex4(s, i + 2) {
                Some(v) => if vstd::utf8::is_scalar(v) {
                    str_cons(v as char, parse_string_body(s, i + 6))
                } else {
                    None
                },
                None => None,
            }
        } else {
            match unescape_char(s[i + 1]) {
                Some(c) => str_cons(c, parse_string_body(s, i + 2)),
                None => None,
            }
        }
    } else if (s[i] as u32) < 0x20 {
        None
    } else {
        str_cons(s[i], parse_string_body(s, i + 1))
    }
}

/// A string literal starting at `i` (at its opening quote).
pub open spec fn parse_string(s: Seq<char>, i: int) -> Option<(Seq<char>, int)> {
    if 0 <= i < s.len() && s[i] == '"' {
        parse_string_body(s, i + 1)
    } else {
        None
    }
}

/// A `true` or `false` literal starting at `i`.
pub open spec fn parse_bool(s: Seq<char>, i: int) -> Option<(bool, int)> {
    if 0 <= i && i + 4 <= s.len() && s[i] == 't' && s[i + 1] == 'r' && s[i + 2] == 'u' && s[i + 3]
        == 'e' {
        Some((true, i + 4))
    } else if 0 <= i && i + 5 <= s.len() && s[i] == 'f' && s[i + 1] == 'a' && s[i + 2] == 'l' && s[i
        + 3] == 's' && s[i + 4] == 'e' {
        Some((false, i + 5))
    } else {
        None
    }
}

/// A member value starting at `i`.
pub open spec fn parse_value(s: Seq<char>, i: int) -> Option<(JsonValV, int)> {
    if 0 <= i < s.len() && s[i] == '"' {
        match parse_string(s, i) {
            Some((t, j)) => Some((JsonValV::S(t), j)),
            None => None,
        }
    } else {
        match parse_bool(s, i) {
            Some((b, j)) => Some((JsonValV::B(b), j)),
            None => None,
        }
    }
}

/// One `"key" : value` member, leading whitespace allowed.
pub open spec fn parse_member(s: Seq<char>, i: int) -> Option<((Seq<char>, JsonValV), int)> {
    let j = ws_end(s, i);
    match parse_string(s, j) {
        Some((key, j2)) => {
            let j3 = ws_end(s, j2);
            if 0 <= j3 < s.len() && s[j3] == ':' {
                let j4 = ws_end(s, j3 + 1);
                match parse_value(s, j4) {
                    Some((v, j5)) => Some(((key, v), j5)),
                    None => None,
                }
            } else {
                None
            }
        },
        None => None,
    }
}

/// A flat object of at most three members, starting at its `{`. The
/// frames never carry more; a longer object is a protocol error.
pub open spec fn parse_object(s: Seq<char>, i: int) -> Option<(Seq<(Seq<char>, JsonValV)>, int)> {
    if !(0 <= i < s.len() && s[i] == '{') {
        None
    } else {
        let j = ws_end(s, i + 1);
        if 0 <= j < s.len() && s[j] == '}' {
            Some((Seq::empty(), j + 1))
        } else {
            match parse_member(s, i + 1) {
                Some((p1, k1)) => {
                    let t1 = ws_end(s, k1);
                    if 0 <= t1 < s.len() && s[t1] == '}' {
                        Some((seq![p1], t1 + 1))
                    } else if 0 <= t1 < s.len() && s[t1] == ',' {
                        match parse_member(s, t1 + 1) {
                            Some((p2, k2)) => {
                                let t2 = ws_end(s, k2);
                                if 0 <= t2 < s.len() && s[t2] == '}' {
                                    Some((seq![p1, p2], t2 + 1))
                                } else if 0 <= t2 < s.len() && s[t2] == ',' {
                                    match parse_member(s, t2 + 1) {
                                        Some((p3, k3)) => {
                                            let t3 = ws_end(s, k3);
                                            if 0 <= t3 < s.len() && s[t3] == '}' {
                                                Some((seq![p1, p2, p3], t3 + 1))
                                            } else {
                                                None
                                            }
                                        },
                                        None => None,
                                    }
                                } else {
                                    None
                                }
                            },
                            None => None,
                        }
                    } else {
                        None
                    }
                },
                None => None,
            }
        }
    }
}

/// A whole frame: one object and nothing but whitespace around it.
pub open spec fn parse_frame(s: Seq<char>) -> Option<Seq<(Seq<char>, JsonValV)>> {
    let i = ws_end(s, 0);
    match parse_object(s, i) {
        Some((ps, j)) => if 0 <= j <= s.len() && ws_end(s, j) == s.len() {
            Some(ps)
        } else {
            None
        },
        None => None,
    }
}

/// The first member carrying the key, if any.
pub open spec fn lookup_field(ps: Seq<(Seq<char>, JsonValV)>, key: Seq<char>) -> Option<JsonValV>
    decreases ps.len(),
{
    if ps.len() == 0 {
        None
    } else if ps[0].0 == key {
        Some(ps[0].1)
    } else {
        lookup_field(ps.drop_first(), key)
    }
}

/// Whether two members share a key (serde rejects duplicate fields; so
/// do the frames).
pub open spec fn has_dup_key(ps: Seq<(Seq<char>, JsonValV)>) -> bool {
    exists|i: int, j: int| 0 <= i < j < ps.len() && (#[trigger] ps[i]).0 == (#[trigger] ps[j]).0
}


fn is_ws_exec(c: char) -> (r: bool)
    ensures
        r == is_ws(c),
{
    c == ' ' || c == '\t' || c == '\n' || c == '\r'
}

/// Skips insignificant whitespace.
fn skip_ws(s: &Vec<char>, i: usize) -> (j: usize)
    requires
        i <= s@.len(),
    ensures
        j as int == ws_end(s@, i as int),
        i <= j <= s@.len(),
{
    proof {
        lemma_ws_end_bounds(s@, i as int);
    }
    let n = s.len();
    let mut j = i;
    while j < n && is_ws_exec(s[j])
        invariant
            i <= j <= n,
            n == s@.len(),
            ws_end(s@, i as int) == ws_end(s@, j as int),
        decreases n - j,
    {
        j += 1;
    }
    j
}

fn hex_digit_exec(c: char) -> (r: Option<u32>)
    ensures
        r == hex_digit_val(c),
{
    let u = c as u32;
    if 48 <= u && u <= 57 {
        Some(u - 48)
    } else if 97 <= u && u <= 102 {
        Some(u - 87)
    } else if 65 <= u && u <= 70 {
        Some(u - 55)
    } else {
        None
    }
}

fn hex4_exec(s: &Vec<char>, i: usize) -> (r: Option<u32>)
    requires
        i <= s@.len(),
    ensures
        r == hex4(s@, i as int),
{
    let n = s.len();
    if n < 4 || i > n - 4 {
        return None;
    }
    match (hex_digit_exec(s[i]), hex_digit_exec(s[i + 1]), hex_digit_exec(s[i + 2]), hex_digit_exec(
        s[i + 3],
    )) {
        (Some(a), Some(b), Some(c), Some(d)) => Some(a * 4096 + b * 256 + c * 16 + d),
        _ => None,
    }
}

fn unescape_exec(e: char) -> (r: Option<char>)
    ensures
        r == unescape_char(e),
{
    if e == '"' {
        Some('"')
    } else if e == '\\' {
        Some('\\')
    } else if e == '/' {
        Some('/')
    } else if e == 'n' {
        Some('\n')
    } else if e == 't' {
        Some('\t')
    } else if e == 'r' {
        Some('\r')
    } else if e == 'b' {
        Some('\u{0008}')
    } else if e == 'f' {
        Some('\u{000C}')
    } else {
        None
    }
}

/// Reads a string literal's body, from just after the opening quote.
fn parse_string_body_exec(s: &Vec<char>, i: usize) -> (r: Option<(String, usize)>)
    requires
        i <= s@.len(),
    ensures
        match r {
            Some((t, j)) => parse_string_body(s@, i as int) == Some((t@, j as int)) && j <= s@.len(),
            None => parse_string_body(s@, i as int) is None,
        },
{
    let n = s.len();
    let mut out: Vec<char> = Vec::new();
    let mut cur = i;
    loop
        invariant
            cur <= n,
            n == s@.len(),
            match parse_string_body(s@, cur as int) {
                Some((t, j)) => parse_string_body(s@, i as int) == Some((out@ + t, j)),
                None => parse_string_body(s@, i as int) is None,
            },
        decreases n - cur,
    {
        if cur >= n {
            return None;
        }
        let c = s[cur];
        if c == '"' {
            proof {
                assert(out@ + Seq::<char>::empty() =~= out@);
            }
            return Some((chars_to_string(out), cur + 1));
        }
        if c == '\\' {
            if cur + 1 >= n {
                return None;
            }
            let e = s[cur + 1];
            if e == 'u' {
                match hex4_exec(s, cur + 2) {
                    Some(v) => {
                        match char_from_u32(v) {
                            Some(ch) => {
                                proof {
                                    vstd::utf8::char_u32_cast(ch, v);
                                }
                                let ghost oldout = out@;
                                out.push(ch);
                                proof {
                                    let rest = parse_string_body(s@, cur as int + 6);
                                    assert(parse_string_body(s@, cur as int) == str_cons(ch, rest));
                                    if let Some((t, j)) = rest {
                                        assert(oldout + (seq![ch] + t) =~= out@ + t);
                                    }
                                }
                                cur = cur + 6;
                            },
                            None => {
                                return None;
                            },
                        }
                    },
                    None => {
                        return None;
                    },
                }
            } else {
                match unescape_exec(e) {
                    Some(ch) => {
                        let ghost oldout = out@;
                        out.push(ch);
                        proof {
                            let rest = parse_string_body(s@, cur as int + 2);
                            assert(parse_string_body(s@, cur as int) == str_cons(ch, rest));
                            if let Some((t, j)) = rest {
                                assert(oldout + (seq![ch] + t) =~= out@ + t);
                            }
                        }
                        cur = cur + 2;
                    },
                    None => {
                        return None;
                    },
                }
            }
        } else if (c as u32) < 0x20 {
            return None;
        } else {
            let ghost oldout = out@;
            out.push(c);
            proof {
                let rest = parse_string_body(s@, cur as int + 1);
                assert(parse_string_body(s@, cur as int) == str_cons(c, rest));
                if let Some((t, j)) = rest {
                    assert(oldout + (seq![c] + t) =~= out@ + t);
                }
            }
            cur = cur + 1;
        }
    }
}

/// Reads a string literal at `i`.
fn parse_string_exec(s: &Vec<char>, i: usize) -> (r: Option<(String, usize)>)
    requires
        i <= s@.len(),
    ensures
        match r {
            Some((t, j)) => parse_string(s@, i as int) == Some((t@, j as int)) && j <= s@.len(),
            None => parse_string(s@, i as int) is None,
        },
{
    if i < s.len() && s[i] == '"' {
        parse_string_body_exec(s, i + 1)
    } else {
        None
    }
}

/// Reads a `true` or `false` literal at `i`.
fn parse_bool_exec(s: &Vec<char>, i: usize) -> (r: Option<(bool, usize)>)
    requires
        i <= s@.len(),
    ensures
        match r {
            Some((b, j)) => parse_bool(s@, i as int) == Some((b, j as int)) && j <= s@.len(),
            None => parse_bool(s@, i as int) is None,
        },
{
    let n = s.len();
    if n >= 4 && i <= n - 4 && s[i] == 't' && s[i + 1] == 'r' && s[i + 2] == 'u' && s[i + 3] == 'e' {
        Some((true, i + 4))
    } else if n >= 5 && i <= n - 5 && s[i] == 'f' && s[i + 1] == 'a' && s[i + 2] == 'l' && s[i + 3]
        == 's' && s[i + 4] == 'e' {
        Some((false, i + 5))
    } else {
        None
    }
}

/// Reads a member value at `i`.
fn parse_value_exec(s: &Vec<char>, i: usize) -> (r: Option<(JsonVal, usize)>)
    requires
        i <= s@.len(),
    ensures
        match r {
            Some((v, j)) => parse_value(s@, i as int) == Some((v@, j as int)) && j <= s@.len(),
            None => parse_value(s@, i as int) is None,
        },
{
    if i < s.len() && s[i] == '"' {
        match parse_string_exec(s, i) {
            Some((t, j)) => Some((JsonVal::S(t), j)),
            None => None,
        }
    } else {
        match parse_bool_exec(s, i) {
            Some((b, j)) => Some((JsonVal::B(b), j)),
            None => None,
        }
    }
}

/// Reads one `"key": value` member starting at `i`.
fn parse_member_exec(s: &Vec<char>, i: usize) -> (r: Option<((String, JsonVal), usize)>)
    requires
        i <= s@.len(),
    ensures
        match r {
            Some(((k, v), j)) => parse_member(s@, i as int) == Some(((k@, v@), j as int)) && j
                <= s@.len(),
            None => parse_member(s@, i as int) is None,
        },
{
    let j = skip_ws(s, i);
    match parse_string_exec(s, j) {
        Some((key, j2)) => {
            let j3 = skip_ws(s, j2);
            if j3 < s.len() && s[j3] == ':' {
                let j4 = skip_ws(s, j3 + 1);
                match parse_value_exec(s, j4) {
                    Some((v, j5)) => Some(((key, v), j5)),
                    None => None,
                }
            } else {
                None
            }
        },
        None => None,
    }
}

pub open spec fn members_view(ps: Seq<(String, JsonVal)>) -> Seq<(Seq<char>, JsonValV)> {
    ps.map_values(|p: (String, JsonVal)| (p.0@, p.1@))
}

/// Reads a flat object (at most three members) starting at `i`.
fn parse_object_exec(s: &Vec<char>, i: usize) -> (r: Option<(Vec<(String, JsonVal)>, usize)>)
    requires
        i <= s@.len(),
    ensures
        match r {
            Some((ps, j)) => parse_object(s@, i as int) == Some((members_view(ps@), j as int)) && j
                <= s@.len(),
            None => parse_object(s@, i as int) is None,
        },
{
    if !(i < s.len() && s[i] == '{') {
        return None;
    }
    let j = skip_ws(s, i + 1);
    let mut ps: Vec<(String, JsonVal)> = Vec::new();
    if j < s.len() && s[j] == '}' {
        proof {
            assert(members_view(ps@) =~= Seq::<(Seq<char>, JsonValV)>::empty());
        }
        return Some((ps, j + 1));
    }
    match parse_member_exec(s, i + 1) {
        Some((p1, k1)) => {
            let ghost p1v = (p1.0@, p1.1@);
            let t1 = skip_ws(s, k1);
            if t1 < s.len() && s[t1] == '}' {
                ps.push(p1);
                proof {
                    assert(members_view(ps@) =~= seq![p1v]);
                }
                return Some((ps, t1 + 1));
            }
            if t1 < s.len() && s[t1] == ',' {
                match parse_member_exec(s, t1 + 1) {
                    Some((p2, k2)) => {
                        let ghost p2v = (p2.0@, p2.1@);
                        let t2 = skip_ws(s, k2);
                        if t2 < s.len() && s[t2] == '}' {
                            ps.push(p1);
                            ps.push(p2);
                            proof {
                                assert(members_view(ps@) =~= seq![p1v, p2v]);
                            }
                            return Some((ps, t2 + 1));
                        }
                        if t2 < s.len() && s[t2] == ',' {
                            match parse_member_exec(s, t2 + 1) {
                                Some((p3, k3)) => {
                                    let ghost p3v = (p3.0@, p3.1@);
                                    let t3 = skip_ws(s, k3);
                                    if t3 < s.len() && s[t3] == '}' {
                                        ps.push(p1);
                                        ps.push(p2);
                                        ps.push(p3);
                                        proof {
                                            assert(members_view(ps@) =~= seq![p1v, p2v, p3v]);
                                        }
                                        return Some((ps, t3 + 1));
                                    }
                                    return None;
                                },
                                None => {
                                    return None;
                                },
                            }
                        }
                        return None;
                    },
                    None => {
                        return None;
                    },
                }
            }
            return None;
        },
        None => {
            return None;
        },
    }
}

/// Reads a whole frame: one object, with nothing but whitespace around
/// it, spanning the entire input.
pub fn parse_frame_exec(s: &Vec<char>) -> (r: Option<Vec<(String, JsonVal)>>)
    ensures
        match r {
            Some(ps) => parse_frame(s@) == Some(members_view(ps@)),
            None => parse_frame(s@) is None,
        },
{
    let i = skip_ws(s, 0);
    match parse_object_exec(s, i) {
        Some((ps, j)) => {
            let k = skip_ws(s, j);
            if k == s.len() {
                Some(ps)
            } else {
                proof {
                    lemma_ws_end_bounds(s@, j as int);
                }
                None
            }
        },
        None => None,
    }
}

/// Looks a key up among the members, first match first, as serde reads a
/// struct field.
pub fn find_field<'a>(ps: &'a Vec<(String, JsonVal)>, key: &str) -> (r: Option<&'a JsonVal>)
    ensures
        match r {
            Some(v) => lookup_field(members_view(ps@), key@) == Some(v@),
            None => lookup_field(members_view(ps@), key@) is None,
        },
{
    let n = ps.len();
    let mut i: usize = 0;
    while i < n
        invariant
            i <= n,
            n == ps@.len(),
            forall|k: int| 0 <= k < i ==> (#[trigger] members_view(ps@)[k]).0 != key@,
        decreases n - i,
    {
        if crate::text::str_eq(ps[i].0.as_str(), key) {
            proof {
                lemma_lookup_field_found(members_view(ps@), key@, i as int);
            }
            return Some(&ps[i].1);
        }
        i += 1;
    }
    proof {
        lemma_lookup_field_absent(members_view(ps@), key@);
    }
    None
}

proof fn lemma_lookup_field_found(ps: Seq<(Seq<char>, JsonValV)>, key: Seq<char>, i: int)
    requires
        0 <= i < ps.len(),
        ps[i].0 == key,
        forall|k: int| 0 <= k < i ==> (#[trigger] ps[k]).0 != key,
    ensures
        lookup_field(ps, key) == Some(ps[i].1),
    decreases i,
{
    if i == 0 {
    } else {
        lemma_lookup_field_found(ps.drop_first(), key, i - 1);
    }
}

proof fn lemma_lookup_field_absent(ps: Seq<(Seq<char>, JsonValV)>, key: Seq<char>)
    requires
        forall|k: int| 0 <= k < ps.len() ==> (#[trigger] ps[k]).0 != key,
    ensures
        lookup_field(ps, key) is None,
    decreases ps.len(),
{
    if ps.len() > 0 {
        lemma_lookup_field_absent(ps.drop_first(), key);
    }
}

/// Whether two members share a key.
pub fn members_have_dup(ps: &Vec<(String, JsonVal)>) -> (r: bool)
    ensures
        r == has_dup_key(members_view(ps@)),
{
    let n = ps.len();
    let mut i: usize = 0;
    while i < n
        invariant
            i <= n,
            n == ps@.len(),
            forall|a: int, b: int|
                0 <= a < b < n && a < i ==> (#[trigger] members_view(ps@)[a]).0
                    != (#[trigger] members_view(ps@)[b]).0,
        decreases n - i,
    {
        let mut j = i + 1;
        while j < n
            invariant
                i < j <= n,
                i < n,
                n == ps@.len(),
                forall|b: int|
                    i < b < j ==> (#[trigger] members_view(ps@)[b]).0 != members_view(ps@)[i as int].0,
            decreases n - j,
        {
            if crate::text::str_eq(ps[i].0.as_str(), ps[j].0.as_str()) {
                proof {
                    assert((members_view(ps@)[i as int]).0 == (members_view(ps@)[j as int]).0);
                }
                return true;
            }
            j += 1;
        }
        i += 1;
    }
    false
}


/// The lowercase hexadecimal digit for a value below sixteen.
pub open spec fn hex_char(v: u32) -> char {
    if v < 10 {
        ((48 + v) as char)
    } else {
        ((87 + v) as char)
    }
}

/// How one character is written inside a JSON string literal: the named
/// escapes for the quote, the backslash and the common controls, a
/// `\u00XX` escape for the remaining control characters, and the
/// character itself otherwise.
pub open spec fn escape_char(c: char) -> Seq<char> {
    if c == '"' {
        seq!['\\', '"']
    } else if c == '\\' {
        seq!['\\', '\\']
    } else if c == '\n' {
        seq!['\\', 'n']
    } else if c == '\r' {
        seq!['\\', 'r']
    } else if c == '\t' {
        seq!['\\', 't']
    } else if c == '\u{0008}' {
        seq!['\\', 'b']
    } else if c == '\u{000C}' {
        seq!['\\', 'f']
    } else if (c as u32) < 0x20 {
        seq!['\\', 'u', '0', '0', hex_char((c as u32) / 16), hex_char((c as u32) % 16)]
    } else {
        seq![c]
    }
}

/// How a whole string is written inside a JSON string literal.
pub open spec fn escape_string(s: Seq<char>) -> Seq<char>
    decreases s.len(),
{
    if s.len() == 0 {
        Seq::empty()
    } else {
        escape_string(s.drop_last()) + escape_char(s.last())
    }
}

fn hex_char_exec(v: u32) -> (r: char)
    requires
        v < 16,
    ensures
        r == hex_char(v),
{
    let u = if v < 10 {
        48 + v
    } else {
        87 + v
    };
    proof {
        assert(vstd::utf8::is_scalar(u));
    }
    match char_from_u32(u) {
        Some(c) => {
            proof {
                vstd::utf8::char_u32_cast(c, u);
            }
            c
        },
        None => vstd::pervasive::unreached(),
    }
}

/// Appends a string's JSON-escaped form to a character vector.
pub fn escape_into(out: &mut Vec<char>, s: &str)
    ensures
        final(out)@ == old(out)@ + escape_string(s@),
{
    let n = s.unicode_len();
    let mut i: usize = 0;
    proof {
        assert(out@ =~= old(out)@ + escape_string(s@.take(0)));
    }
    while i < n
        invariant
            i <= n,
            n == s@.len(),
            out@ == old(out)@ + escape_string(s@.take(i as int)),
        decreases n - i,
    {
        let ghost pre = out@;
        let c = s.get_char(i);
        if c == '"' {
            out.push('\\');
            out.push('"');
        } else if c == '\\' {
            out.push('\\');
            out.push('\\');
        } else if c == '\n' {
            out.push('\\');
            out.push('n');
        } else if c == '\r' {
            out.push('\\');
            out.push('r');
        } else if c == '\t' {
            out.push('\\');
            out.push('t');
        } else {
            let u = c as u32;
            if u == 0x08 {
                proof {
                    vstd::utf8::char_u32_cast(c, u);
                    assert(c == '\u{0008}');
                }
                out.push('\\');
                out.push('b');
            } else if u == 0x0C {
                proof {
                    vstd::utf8::char_u32_cast(c, u);
                    assert(c == '\u{000C}');
                }
                out.push('\\');
                out.push('f');
            } else if u < 0x20 {
                out.push('\\');
                out.push('u');
                out.push('0');
                out.push('0');
                out.push(hex_char_exec(u / 16));
                out.push(hex_char_exec(u % 16));
            } else {
                out.push(c);
            }
        }
        proof {
            assert(out@ =~= pre + escape_char(c));
            assert(s@.take(i as int + 1).drop_last() =~= s@.take(i as int));
            assert(escape_string(s@.take(i as int + 1)) == escape_string(s@.take(i as int))
                + escape_char(c));
            assert(out@ =~= old(out)@ + escape_string(s@.take(i as int + 1)));
        }
        i += 1;
    }
    proof {
        assert(s@.take(n as int) =~= s@);
    }
}



/// A character that JSON writes as itself, unescaped.
pub open spec fn is_plain_char(c: char) -> bool {
    c != '"' && c != '\\' && (c as u32) >= 0x20
}

/// A string of plain characters is its own escaped form.
pub proof fn lemma_escape_ordinary(x: Seq<char>)
    requires
        forall|k: int| 0 <= k < x.len() ==> is_plain_char(#[trigger] x[k]),
    ensures
        escape_string(x) == x,
    decreases x.len(),
{
    if x.len() == 0 {
        assert(escape_string(x) =~= x);
    } else {
        lemma_escape_ordinary(x.drop_last());
        let c = x.last();
        assert(is_plain_char(c));
        assert(escape_char(c) =~= seq![c]);
        assert(escape_string(x) =~= x.drop_last() + seq![c]);
        assert(x.drop_last() + seq![c] =~= x);
    }
}


/// A plain string sitting verbatim in the input, closed by a quote,
/// reads back as itself: the workhorse for the fixed keys and tags of
/// the frame grammar, which unfolding the reader character by character
/// would make needlessly expensive.
pub proof fn lemma_parse_plain_at(s: Seq<char>, i: int, x: Seq<char>)
    requires
        0 <= i,
        i + x.len() + 1 <= s.len(),
        forall|k: int| 0 <= k < x.len() ==> s[i + k] == #[trigger] x[k],
        forall|k: int| 0 <= k < x.len() ==> is_plain_char(#[trigger] x[k]),
        s[i + x.len()] == '"',
    ensures
        parse_string_body(s, i) == Some((x, i + x.len() + 1)),
{
    lemma_escape_ordinary(x);
    let pre = s.subrange(0, i);
    let post = s.subrange(i + x.len() + 1, s.len() as int);
    assert(s =~= pre + escape_string(x) + seq!['"'] + post);
    lemma_parse_string_escaped(pre, x, post);
    assert(pre.len() + escape_string(x).len() + 1 == i + x.len() + 1);
}

/// Escaping also unfolds from the left, character by character.
proof fn lemma_escape_unfold_left(x: Seq<char>)
    requires
        x.len() > 0,
    ensures
        escape_string(x) == escape_char(x[0]) + escape_string(x.drop_first()),
    decreases x.len(),
{
    if x.len() == 1 {
        assert(x.drop_last() =~= Seq::<char>::empty());
        assert(x.drop_first() =~= Seq::<char>::empty());
        assert(escape_string(x) =~= escape_char(x[0]) + escape_string(x.drop_first()));
    } else {
        let d = x.drop_last();
        lemma_escape_unfold_left(d);
        assert(d.drop_first() =~= x.drop_first().drop_last());
        assert(x.drop_first().last() == x.last());
        assert(escape_string(x) == (escape_char(x[0]) + escape_string(x.drop_first().drop_last()))
            + escape_char(x.drop_first().last()));
        assert(escape_string(x.drop_first()) == escape_string(x.drop_first().drop_last())
            + escape_char(x.drop_first().last()));
        assert(escape_string(x) =~= escape_char(x[0]) + escape_string(x.drop_first()));
    }
}

/// Reading a hexadecimal digit back gives the value it was written for.
proof fn lemma_hex_char_val(v: u32)
    requires
        v < 16,
    ensures
        hex_digit_val(hex_char(v)) == Some(v),
{
}

/// Decoding inverts encoding, for a string literal's content: the body
/// reader, set right after an opening quote, reads an escaped string
/// back verbatim and stops just past the closing quote.
pub proof fn lemma_parse_string_escaped(pre: Seq<char>, x: Seq<char>, post: Seq<char>)
    ensures
        ({
            let s = pre + escape_string(x) + seq!['"'] + post;
            parse_string_body(s, pre.len() as int) == Some(
                (x, pre.len() + escape_string(x).len() + 1 as int),
            )
        }),
    decreases x.len(),
{
    let s = pre + escape_string(x) + seq!['"'] + post;
    let i = pre.len() as int;
    if x.len() == 0 {
        assert(escape_string(x) =~= Seq::<char>::empty());
        assert(s[i] == '"');
        assert(parse_string_body(s, i) == Some((Seq::<char>::empty(), i + 1)));
        assert(x =~= Seq::<char>::empty());
    } else {
        let c = x[0];
        let x1 = x.drop_first();
        lemma_escape_unfold_left(x);
        let e = escape_char(c);
        let pre1 = pre + e;
        lemma_parse_string_escaped(pre1, x1, post);
        let s1 = pre1 + escape_string(x1) + seq!['"'] + post;
        assert(s =~= s1);
        let rest = parse_string_body(s, pre1.len() as int);
        assert(rest == Some((x1, pre1.len() + escape_string(x1).len() + 1 as int)));
        assert(forall|k: int| 0 <= k < e.len() ==> s[i + k] == e[k]) by {
            assert(forall|k: int|
                0 <= k < e.len() ==> s[i + k] == (e + escape_string(x1) + seq!['"'] + post)[k]);
        }
        let u = c as u32;
        if c == '"' || c == '\\' || c == '\n' || c == '\r' || c == '\t' || c == '\u{0008}' || c
            == '\u{000C}' {
            assert(e.len() == 2 && s[i] == '\\' && unescape_char(s[i + 1]) == Some(c));
            assert(parse_string_body(s, i) == str_cons(c, rest));
        } else if u < 0x20 {
            assert(e == seq!['\\', 'u', '0', '0', hex_char(u / 16), hex_char(u % 16)]);
            assert(e.len() == 6 && s[i] == '\\' && s[i + 1] == 'u');
            assert(s[i + 2] == '0' && s[i + 3] == '0' && s[i + 4] == hex_char(u / 16) && s[i + 5]
                == hex_char(u % 16));
            lemma_hex_char_val(u / 16);
            lemma_hex_char_val(u % 16);
            assert(i + 6 <= s.len());
            assert(hex4(s, i + 2) == Some(((0 * 4096 + 0 * 256 + (u / 16) * 16 + u % 16) as u32)));
            assert((u / 16) * 16 + u % 16 == u) by (nonlinear_arith)
                requires
                    u < 0x20,
            ;
            assert(hex4(s, i + 2) == Some(u));
            assert(vstd::utf8::is_scalar(u));
            vstd::utf8::char_u32_cast(c, u);
            assert((u as char) == c);
            assert(parse_string_body(s, i) == str_cons(c, rest));
        } else {
            assert(e =~= seq![c]);
            assert(s[i] == c);
            assert(c != '"' && c != '\\' && !((c as u32) < 0x20));
            assert(parse_string_body(s, i) == str_cons(c, rest));
        }
        assert(pre1.len() + escape_string(x1).len() + 1 == pre.len() + escape_string(x).len() + 1);
        assert(seq![c] + x1 =~= x);
        assert(parse_string_body(s, i) == Some((x, pre.len() + escape_string(x).len() + 1 as int)));
    }
}

} // verus!
