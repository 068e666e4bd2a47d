//! The wire protocol: JSON frames over a persistent bidirectional
//! connection, tagged by a `type` discriminator.
//!
//! Client to server: `{"type":"init_chat","addressee_nickname":...}`
//! (the handshake) and `{"type":"msg","msg":...}` (a chat message).
//! Server to client: `{"type":"chat_init_success"}`,
//! `{"type":"chat_init_failure","error":...}`, and
//! `{"type":"msg","msg":...,"is_sender":...}`.

use crate::json::{
    escape_into, escape_string, find_field, has_dup_key, is_plain_char, lemma_parse_plain_at,
    lemma_parse_string_escaped, lookup_field,
    members_have_dup, members_view, parse_bool, parse_frame, parse_frame_exec, parse_member,
    parse_object, parse_string, parse_string_body, parse_value, ws_end, JsonVal, JsonValV,
};
use crate::notifications::{Notification, NotificationV};
use crate::text::{chars_to_string, push_str_chars, str_eq, str_to_chars};
use vstd::prelude::*;

verus! {

/// A frame a client sends.
pub enum Request {
    InitChat { addressee_nickname: String },
    Msg { msg: String },
}

pub ghost enum ReqV {
    InitChat { addressee_nickname: Seq<char> },
    Msg { msg: Seq<char> },
}

impl View for Request {
    type V = ReqV;

    open spec fn view(&self) -> ReqV {
        match self {
            Request::InitChat { addressee_nickname } => ReqV::InitChat {
                addressee_nickname: addressee_nickname@,
            },
            Request::Msg { msg } => ReqV::Msg { msg: msg@ },
        }
    }
}

/// A frame the server sends.
pub enum Response {
    ChatInitSuccess,
    ChatInitFailure { error: String },
    Msg { msg: String, is_sender: bool },
}

pub ghost enum RespV {
    ChatInitSuccess,
    ChatInitFailure { error: Seq<char> },
    Msg { msg: Seq<char>, is_sender: bool },
}

impl View for Response {
    type V = RespV;

    open spec fn view(&self) -> RespV {
        match self {
            Response::ChatInitSuccess => RespV::ChatInitSuccess,
            Response::ChatInitFailure { error } => RespV::ChatInitFailure { error: error@ },
            Response::Msg { msg, is_sender } => RespV::Msg { msg: msg@, is_sender: *is_sender },
        }
    }
}


/// The request a frame's members denote, if any: the `type` member picks
/// the variant, the remaining member carries its field, no member may
/// repeat and none may be left over.
pub open spec fn spec_request_of(ps: Seq<(Seq<char>, JsonValV)>) -> Option<ReqV> {
    if has_dup_key(ps) {
        None
    } else {
        match lookup_field(ps, "type"@) {
            Some(JsonValV::S(t)) => if t == "init_chat"@ {
                if ps.len() == 2 {
                    match lookup_field(ps, "addressee_nickname"@) {
                        Some(JsonValV::S(n)) => Some(ReqV::InitChat { addressee_nickname: n }),
                        _ => None,
                    }
                } else {
                    None
                }
            } else if t == "msg"@ {
                if ps.len() == 2 {
                    match lookup_field(ps, "msg"@) {
                        Some(JsonValV::S(m)) => Some(ReqV::Msg { msg: m }),
                        _ => None,
                    }
                } else {
                    None
                }
            } else {
                None
            },
            _ => None,
        }
    }
}

/// The request a whole frame denotes, if it parses and has the right
/// shape.
pub open spec fn spec_decode_request(s: Seq<char>) -> Option<ReqV> {
    match parse_frame(s) {
        Some(ps) => spec_request_of(ps),
        None => None,
    }
}

/// The response a frame's members denote, if any.
pub open spec fn spec_response_of(ps: Seq<(Seq<char>, JsonValV)>) -> Option<RespV> {
    if has_dup_key(ps) {
        None
    } else {
        match lookup_field(ps, "type"@) {
            Some(JsonValV::S(t)) => if t == "chat_init_success"@ {
                if ps.len() == 1 {
                    Some(RespV::ChatInitSuccess)
                } else {
                    None
                }
            } else if t == "chat_init_failure"@ {
                if ps.len() == 2 {
                    match lookup_field(ps, "error"@) {
                        Some(JsonValV::S(e)) => Some(RespV::ChatInitFailure { error: e }),
                        _ => None,
                    }
                } else {
                    None
                }
            } else if t == "msg"@ {
                if ps.len() == 3 {
                    match (lookup_field(ps, "msg"@), lookup_field(ps, "is_sender"@)) {
                        (Some(JsonValV::S(m)), Some(JsonValV::B(b))) => Some(
                            RespV::Msg { msg: m, is_sender: b },
                        ),
                        _ => None,
                    }
                } else {
                    None
                }
            } else {
                None
            },
            _ => None,
        }
    }
}

/// The response a whole frame denotes, if it parses and has the right
/// shape.
pub open spec fn spec_decode_response(s: Seq<char>) -> Option<RespV> {
    match parse_frame(s) {
        Some(ps) => spec_response_of(ps),
        None => None,
    }
}

/// A request's canonical wire form.
pub open spec fn spec_encode_request(r: ReqV) -> Seq<char> {
    match r {
        ReqV::InitChat { addressee_nickname } => "{\"type\":\"init_chat\",\"addressee_nickname\":\""@
            + escape_string(addressee_nickname) + "\"}"@,
        ReqV::Msg { msg } => "{\"type\":\"msg\",\"msg\":\""@ + escape_string(msg) + "\"}"@,
    }
}

/// A response's canonical wire form.
pub open spec fn spec_encode_response(r: RespV) -> Seq<char> {
    match r {
        RespV::ChatInitSuccess => "{\"type\":\"chat_init_success\"}"@,
        RespV::ChatInitFailure { error } => "{\"type\":\"chat_init_failure\",\"error\":\""@
            + escape_string(error) + "\"}"@,
        RespV::Msg { msg, is_sender } => "{\"type\":\"msg\",\"msg\":\""@ + escape_string(msg)
            + "\",\"is_sender\":"@ + (if is_sender {
            "true"@
        } else {
            "false"@
        }) + "}"@,
    }
}

/// A notification event's wire payload.
pub open spec fn spec_encode_notification(n: NotificationV) -> Seq<char> {
    "{\"addressee_nickname\":\""@ + escape_string(n.addressee_nickname) + "\",\"message\":\""@
        + escape_string(n.message) + "\"}"@
}

impl Request {
    /// Decodes a client frame: exactly the texts whose JSON form carries
    /// the shape of one request variant.
    pub fn from(s: &str) -> (r: Option<Request>)
        ensures
            match r {
                Some(q) => spec_decode_request(s@) == Some(q@),
                None => spec_decode_request(s@) is None,
            },
    {
        let chars = str_to_chars(s);
        match parse_frame_exec(&chars) {
            Some(ps) => request_of_members(&ps),
            None => None,
        }
    }

    /// Encodes a client frame in its canonical form.
    pub fn as_json_str(&self) -> (r: String)
        ensures
            r@ == spec_encode_request(self@),
    {
        let mut out: Vec<char> = Vec::new();
        match self {
            Request::InitChat { addressee_nickname } => {
                push_str_chars(&mut out, "{\"type\":\"init_chat\",\"addressee_nickname\":\"");
                escape_into(&mut out, addressee_nickname.as_str());
                push_str_chars(&mut out, "\"}");
            },
            Request::Msg { msg } => {
                push_str_chars(&mut out, "{\"type\":\"msg\",\"msg\":\"");
                escape_into(&mut out, msg.as_str());
                push_str_chars(&mut out, "\"}");
            },
        }
        proof {
            assert(out@ =~= spec_encode_request(self@));
        }
        chars_to_string(out)
    }
}

fn request_of_members(ps: &Vec<(String, JsonVal)>) -> (r: Option<Request>)
    ensures
        match r {
            Some(q) => spec_request_of(members_view(ps@)) == Some(q@),
            None => spec_request_of(members_view(ps@)) is None,
        },
{
    if members_have_dup(ps) {
        return None;
    }
    match find_field(ps, "type") {
        Some(tv) => match tv {
            JsonVal::S(t) => {
                if str_eq(t.as_str(), "init_chat") {
                    if ps.len() != 2 {
                        return None;
                    }
                    match find_field(ps, "addressee_nickname") {
                        Some(nv) => match nv {
                            JsonVal::S(n) => Some(
                                Request::InitChat { addressee_nickname: n.clone() },
                            ),
                            _ => None,
                        },
                        None => None,
                    }
                } else if str_eq(t.as_str(), "msg") {
                    if ps.len() != 2 {
                        return None;
                    }
                    match find_field(ps, "msg") {
                        Some(mv) => match mv {
                            JsonVal::S(m) => Some(Request::Msg { msg: m.clone() }),
                            _ => None,
                        },
                        None => None,
                    }
                } else {
                    None
                }
            },
            _ => None,
        },
        None => None,
    }
}

impl Response {
    /// Decodes a server frame: exactly the texts whose JSON form carries
    /// the shape of one response variant.
    pub fn from(s: &str) -> (r: Option<Response>)
        ensures
            match r {
                Some(q) => spec_decode_response(s@) == Some(q@),
                None => spec_decode_response(s@) is None,
            },
    {
        let chars = str_to_chars(s);
        match parse_frame_exec(&chars) {
            Some(ps) => response_of_members(&ps),
            None => None,
        }
    }

    /// Encodes a server frame in its canonical form.
    pub fn as_json_str(&self) -> (r: String)
        ensures
            r@ == spec_encode_response(self@),
    {
        let mut out: Vec<char> = Vec::new();
        match self {
            Response::ChatInitSuccess => {
                push_str_chars(&mut out, "{\"type\":\"chat_init_success\"}");
            },
            Response::ChatInitFailure { error } => {
                push_str_chars(&mut out, "{\"type\":\"chat_init_failure\",\"error\":\"");
                escape_into(&mut out, error.as_str());
                push_str_chars(&mut out, "\"}");
            },
            Response::Msg { msg, is_sender } => {
                push_str_chars(&mut out, "{\"type\":\"msg\",\"msg\":\"");
                escape_into(&mut out, msg.as_str());
                push_str_chars(&mut out, "\",\"is_sender\":");
                if *is_sender {
                    push_str_chars(&mut out, "true");
                } else {
                    push_str_chars(&mut out, "false");
                }
                push_str_chars(&mut out, "}");
            },
        }
        proof {
            assert(out@ =~= spec_encode_response(self@));
        }
        chars_to_string(out)
    }
}

fn response_of_members(ps: &Vec<(String, JsonVal)>) -> (r: Option<Response>)
    ensures
        match r {
            Some(q) => spec_response_of(members_view(ps@)) == Some(q@),
            None => spec_response_of(members_view(ps@)) is None,
        },
{
    if members_have_dup(ps) {
        return None;
    }
    match find_field(ps, "type") {
        Some(tv) => match tv {
            JsonVal::S(t) => {
                if str_eq(t.as_str(), "chat_init_success") {
                    if ps.len() == 1 {
                        Some(Response::ChatInitSuccess)
                    } else {
                        None
                    }
                } else if str_eq(t.as_str(), "chat_init_failure") {
                    if ps.len() != 2 {
                        return None;
                    }
                    match find_field(ps, "error") {
                        Some(ev) => match ev {
                            JsonVal::S(e) => Some(Response::ChatInitFailure { error: e.clone() }),
                            _ => None,
                        },
                        None => None,
                    }
                } else if str_eq(t.as_str(), "msg") {
                    if ps.len() != 3 {
                        return None;
                    }
                    match (find_field(ps, "msg"), find_field(ps, "is_sender")) {
                        (Some(mv), Some(bv)) => match (mv, bv) {
                            (JsonVal::S(m), JsonVal::B(b)) => Some(
                                Response::Msg { msg: m.clone(), is_sender: *b },
                            ),
                            _ => None,
                        },
                        _ => None,
                    }
                } else {
                    None
                }
            },
            _ => None,
        },
        None => None,
    }
}

impl Notification {
    /// Encodes one push event as its wire payload.
    pub fn as_json_str(&self) -> (r: String)
        ensures
            r@ == spec_encode_notification(self@),
    {
        let mut out: Vec<char> = Vec::new();
        push_str_chars(&mut out, "{\"addressee_nickname\":\"");
        escape_into(&mut out, self.addressee_nickname.as_str());
        push_str_chars(&mut out, "\",\"message\":\"");
        escape_into(&mut out, self.message.as_str());
        push_str_chars(&mut out, "\"}");
        proof {
            assert(out@ =~= spec_encode_notification(self@));
        }
        chars_to_string(out)
    }
}


/// Round trip: decoding a request's canonical wire form gives the
/// request back, whatever its text fields hold.
pub proof fn lemma_request_round_trip(r: ReqV)
    ensures
        spec_decode_request(spec_encode_request(r)) == Some(r),
{
    match r {
        ReqV::InitChat { addressee_nickname } => lemma_round_trip_init_chat(addressee_nickname),
        ReqV::Msg { msg } => lemma_round_trip_req_msg(msg),
    }
}

/// Round trip: decoding a response's canonical wire form gives the
/// response back, whatever its text fields hold.
pub proof fn lemma_response_round_trip(r: RespV)
    ensures
        spec_decode_response(spec_encode_response(r)) == Some(r),
{
    match r {
        RespV::ChatInitSuccess => lemma_round_trip_success(),
        RespV::ChatInitFailure { error } => lemma_round_trip_failure(error),
        RespV::Msg { msg, is_sender } => lemma_round_trip_resp_msg(msg, is_sender),
    }
}

proof fn lemma_plain_tags()
    ensures
        forall|k: int| 0 <= k < "type"@.len() ==> is_plain_char(#[trigger] "type"@[k]),
        forall|k: int| 0 <= k < "msg"@.len() ==> is_plain_char(#[trigger] "msg"@[k]),
        forall|k: int| 0 <= k < "error"@.len() ==> is_plain_char(#[trigger] "error"@[k]),
        forall|k: int| 0 <= k < "is_sender"@.len() ==> is_plain_char(#[trigger] "is_sender"@[k]),
        forall|k: int| 0 <= k < "init_chat"@.len() ==> is_plain_char(#[trigger] "init_chat"@[k]),
        forall|k: int|
            0 <= k < "chat_init_success"@.len() ==> is_plain_char(
                #[trigger] "chat_init_success"@[k],
            ),
        forall|k: int|
            0 <= k < "chat_init_failure"@.len() ==> is_plain_char(
                #[trigger] "chat_init_failure"@[k],
            ),
        "type"@.len() == 4 && "msg"@.len() == 3 && "error"@.len() == 5 && "is_sender"@.len() == 9
            && "init_chat"@.len() == 9 && "chat_init_success"@.len() == 17
            && "chat_init_failure"@.len() == 17,
        "type"@ != "msg"@ && "type"@ != "error"@ && "type"@ != "is_sender"@ && "msg"@ != "error"@
            && "msg"@ != "is_sender"@ && "error"@ != "is_sender"@,
        "init_chat"@ != "msg"@,
        "chat_init_success"@ != "chat_init_failure"@ && "chat_init_success"@ != "msg"@
            && "chat_init_failure"@ != "msg"@,
{
    reveal_strlit("type");
    reveal_strlit("msg");
    reveal_strlit("error");
    reveal_strlit("is_sender");
    reveal_strlit("init_chat");
    reveal_strlit("chat_init_success");
    reveal_strlit("chat_init_failure");
    assert("chat_init_success"@[10] != "chat_init_failure"@[10]);
}

#[verifier::rlimit(60)]
proof fn lemma_round_trip_req_msg(m: Seq<char>)
    ensures
        spec_decode_request(spec_encode_request(ReqV::Msg { msg: m })) == Some(ReqV::Msg { msg: m }),
{
    let a = "{\"type\":\"msg\",\"msg\":\""@;
    let e = escape_string(m);
    let s = spec_encode_request(ReqV::Msg { msg: m });
    reveal_strlit("{\"type\":\"msg\",\"msg\":\"");
    reveal_strlit("\"}");
    reveal_strlit("type");
    reveal_strlit("msg");
    reveal_strlit("init_chat");
    lemma_plain_tags();
    reveal_with_fuel(ws_end, 3);
    reveal_with_fuel(lookup_field, 4);
    assert(a.len() == 21);
    assert(s =~= a + e + seq!['"'] + seq!['}']);
    lemma_parse_string_escaped(a, m, seq!['}']);
    let pos = 21 + e.len() as int;
    assert(parse_string_body(s, 21) == Some((m, pos + 1)));
    lemma_parse_plain_at(s, 2, "type"@);
    lemma_parse_plain_at(s, 9, "msg"@);
    assert(parse_member(s, 1) == Some((("type"@, JsonValV::S("msg"@)), 13int)));
    lemma_parse_plain_at(s, 15, "msg"@);
    assert(s[19] == ':' && s[20] == '"');
    assert(parse_member(s, 14) == Some((("msg"@, JsonValV::S(m)), pos + 1)));
    assert(s[pos + 1] == '}');
    let members = seq![("type"@, JsonValV::S("msg"@)), ("msg"@, JsonValV::S(m))];
    assert(parse_object(s, 0) == Some((members, pos + 2)));
    assert(pos + 2 == s.len());
    assert(parse_frame(s) == Some(members));
    assert(!has_dup_key(members)) by {
        assert(members[0].0 != members[1].0);
    }
    assert(members.drop_first() =~= seq![("msg"@, JsonValV::S(m))]);
    assert(lookup_field(members, "type"@) == Some(JsonValV::S("msg"@)));
    assert(lookup_field(members, "msg"@) == Some(JsonValV::S(m)));
    assert(spec_request_of(members) == Some(ReqV::Msg { msg: m }));
}

#[verifier::rlimit(60)]
proof fn lemma_round_trip_init_chat(n: Seq<char>)
    ensures
        spec_decode_request(spec_encode_request(ReqV::InitChat { addressee_nickname: n })) == Some(
            ReqV::InitChat { addressee_nickname: n },
        ),
{
    let a = "{\"type\":\"init_chat\",\"addressee_nickname\":\""@;
    let e = escape_string(n);
    let s = spec_encode_request(ReqV::InitChat { addressee_nickname: n });
    reveal_strlit("{\"type\":\"init_chat\",\"addressee_nickname\":\"");
    reveal_strlit("\"}");
    reveal_strlit("type");
    reveal_strlit("init_chat");
    reveal_strlit("addressee_nickname");
    reveal_strlit("msg");
    lemma_plain_tags();
    reveal_with_fuel(ws_end, 3);
    reveal_with_fuel(lookup_field, 4);
    assert(a.len() == 42);
    assert(s =~= a + e + seq!['"'] + seq!['}']);
    lemma_parse_string_escaped(a, n, seq!['}']);
    let pos = 42 + e.len() as int;
    assert(parse_string_body(s, 42) == Some((n, pos + 1)));
    lemma_parse_plain_at(s, 2, "type"@);
    lemma_parse_plain_at(s, 9, "init_chat"@);
    assert(parse_member(s, 1) == Some((("type"@, JsonValV::S("init_chat"@)), 19int)));
    assert(forall|k: int|
        0 <= k < "addressee_nickname"@.len() ==> is_plain_char(
            #[trigger] "addressee_nickname"@[k],
        ));
    assert("addressee_nickname"@.len() == 18);
    lemma_parse_plain_at(s, 21, "addressee_nickname"@);
    assert(s[40] == ':' && s[41] == '"');
    assert(parse_member(s, 20) == Some((("addressee_nickname"@, JsonValV::S(n)), pos + 1)));
    assert(s[pos + 1] == '}');
    let members = seq![
        ("type"@, JsonValV::S("init_chat"@)),
        ("addressee_nickname"@, JsonValV::S(n)),
    ];
    assert(parse_object(s, 0) == Some((members, pos + 2)));
    assert(pos + 2 == s.len());
    assert(parse_frame(s) == Some(members));
    assert("type"@ != "addressee_nickname"@);
    assert(!has_dup_key(members)) by {
        assert(members[0].0 != members[1].0);
    }
    assert(members.drop_first() =~= seq![("addressee_nickname"@, JsonValV::S(n))]);
    assert(lookup_field(members, "type"@) == Some(JsonValV::S("init_chat"@)));
    assert("type"@ != "addressee_nickname"@ && "msg"@ != "addressee_nickname"@);
    assert(lookup_field(members, "addressee_nickname"@) == Some(JsonValV::S(n)));
    assert(spec_request_of(members) == Some(ReqV::InitChat { addressee_nickname: n }));
}

#[verifier::rlimit(60)]
proof fn lemma_round_trip_success()
    ensures
        spec_decode_response(spec_encode_response(RespV::ChatInitSuccess)) == Some(
            RespV::ChatInitSuccess,
        ),
{
    let s = spec_encode_response(RespV::ChatInitSuccess);
    reveal_strlit("{\"type\":\"chat_init_success\"}");
    reveal_strlit("type");
    reveal_strlit("chat_init_success");
    lemma_plain_tags();
    reveal_with_fuel(ws_end, 3);
    reveal_with_fuel(lookup_field, 3);
    assert(s.len() == 28);
    lemma_parse_plain_at(s, 2, "type"@);
    lemma_parse_plain_at(s, 9, "chat_init_success"@);
    let members = seq![("type"@, JsonValV::S("chat_init_success"@))];
    assert(parse_member(s, 1) == Some((("type"@, JsonValV::S("chat_init_success"@)), 27int)));
    assert(s[27] == '}');
    assert(parse_object(s, 0) == Some((members, 28int)));
    assert(parse_frame(s) == Some(members));
    assert(!has_dup_key(members));
    assert(lookup_field(members, "type"@) == Some(JsonValV::S("chat_init_success"@)));
    assert(spec_response_of(members) == Some(RespV::ChatInitSuccess));
}

#[verifier::rlimit(60)]
proof fn lemma_round_trip_failure(e: Seq<char>)
    ensures
        spec_decode_response(spec_encode_response(RespV::ChatInitFailure { error: e })) == Some(
            RespV::ChatInitFailure { error: e },
        ),
{
    let a = "{\"type\":\"chat_init_failure\",\"error\":\""@;
    let esc = escape_string(e);
    let s = spec_encode_response(RespV::ChatInitFailure { error: e });
    reveal_strlit("{\"type\":\"chat_init_failure\",\"error\":\"");
    reveal_strlit("\"}");
    reveal_strlit("type");
    reveal_strlit("error");
    reveal_strlit("chat_init_failure");
    reveal_strlit("chat_init_success");
    lemma_plain_tags();
    reveal_with_fuel(ws_end, 3);
    reveal_with_fuel(lookup_field, 4);
    assert(a.len() == 37);
    assert(s =~= a + esc + seq!['"'] + seq!['}']);
    lemma_parse_string_escaped(a, e, seq!['}']);
    let pos = 37 + esc.len() as int;
    assert(parse_string_body(s, 37) == Some((e, pos + 1)));
    lemma_parse_plain_at(s, 2, "type"@);
    lemma_parse_plain_at(s, 9, "chat_init_failure"@);
    assert(parse_member(s, 1) == Some((("type"@, JsonValV::S("chat_init_failure"@)), 27int)));
    lemma_parse_plain_at(s, 29, "error"@);
    assert(s[35] == ':' && s[36] == '"');
    assert(parse_member(s, 28) == Some((("error"@, JsonValV::S(e)), pos + 1)));
    assert(s[pos + 1] == '}');
    let members = seq![("type"@, JsonValV::S("chat_init_failure"@)), ("error"@, JsonValV::S(e))];
    assert(parse_object(s, 0) == Some((members, pos + 2)));
    assert(pos + 2 == s.len());
    assert(parse_frame(s) == Some(members));
    assert(!has_dup_key(members)) by {
        assert(members[0].0 != members[1].0);
    }
    assert(members.drop_first() =~= seq![("error"@, JsonValV::S(e))]);
    assert(lookup_field(members, "type"@) == Some(JsonValV::S("chat_init_failure"@)));
    assert(lookup_field(members, "error"@) == Some(JsonValV::S(e)));
    assert(spec_response_of(members) == Some(RespV::ChatInitFailure { error: e }));
}

#[verifier::rlimit(60)]
proof fn lemma_resp_msg_front(m: Seq<char>, b: bool)
    ensures
        ({
            let s = spec_encode_response(RespV::Msg { msg: m, is_sender: b });
            let pos = 21 + escape_string(m).len() as int;
            &&& s.len() == pos + 15 + (if b { 4int } else { 5int })
            &&& s[0] == '{' && s[1] == '"' && s[13] == ','
            &&& parse_member(s, 1) == Some((("type"@, JsonValV::S("msg"@)), 13int))
            &&& parse_member(s, 14) == Some((("msg"@, JsonValV::S(m)), pos + 1))
            &&& s[pos + 1] == ','
        }),
{
    let a = "{\"type\":\"msg\",\"msg\":\""@;
    let esc = escape_string(m);
    let boolseq = if b {
        "true"@
    } else {
        "false"@
    };
    let s = spec_encode_response(RespV::Msg { msg: m, is_sender: b });
    reveal_strlit("{\"type\":\"msg\",\"msg\":\"");
    reveal_strlit("\",\"is_sender\":");
    reveal_strlit(",\"is_sender\":");
    reveal_strlit("}");
    reveal_strlit("type");
    reveal_strlit("msg");
    reveal_strlit("true");
    reveal_strlit("false");
    lemma_plain_tags();
    reveal_with_fuel(ws_end, 3);
    assert(a.len() == 21);
    let post = ",\"is_sender\":"@ + boolseq + "}"@;
    assert(s =~= a + esc + seq!['"'] + post);
    lemma_parse_string_escaped(a, m, post);
    let pos = 21 + esc.len() as int;
    assert(parse_string_body(s, 21) == Some((m, pos + 1)));
    lemma_parse_plain_at(s, 2, "type"@);
    lemma_parse_plain_at(s, 9, "msg"@);
    assert(parse_member(s, 1) == Some((("type"@, JsonValV::S("msg"@)), 13int)));
    lemma_parse_plain_at(s, 15, "msg"@);
    assert(s[19] == ':' && s[20] == '"');
    assert(parse_member(s, 14) == Some((("msg"@, JsonValV::S(m)), pos + 1)));
    assert(s[pos + 1] == ',');
}

#[verifier::rlimit(60)]
proof fn lemma_resp_msg_third(m: Seq<char>, b: bool)
    ensures
        ({
            let s = spec_encode_response(RespV::Msg { msg: m, is_sender: b });
            let pos = 21 + escape_string(m).len() as int;
            let end = pos + 14 + (if b { 4int } else { 5int });
            &&& parse_member(s, pos + 2) == Some((("is_sender"@, JsonValV::B(b)), end))
            &&& s[end] == '}'
            &&& end + 1 == s.len()
        }),
{
    let a = "{\"type\":\"msg\",\"msg\":\""@;
    let esc = escape_string(m);
    let boolseq = if b {
        "true"@
    } else {
        "false"@
    };
    let s = spec_encode_response(RespV::Msg { msg: m, is_sender: b });
    reveal_strlit("{\"type\":\"msg\",\"msg\":\"");
    reveal_strlit("\",\"is_sender\":");
    reveal_strlit(",\"is_sender\":");
    reveal_strlit("}");
    reveal_strlit("is_sender");
    reveal_strlit("true");
    reveal_strlit("false");
    lemma_plain_tags();
    reveal_with_fuel(ws_end, 3);
    assert(a.len() == 21);
    let post = ",\"is_sender\":"@ + boolseq + "}"@;
    assert(s =~= a + esc + seq!['"'] + post);
    let pos = 21 + esc.len() as int;
    assert(forall|k: int| 0 <= k < post.len() ==> s[pos + 1 + k] == post[k]);
    assert(s[pos + 2] == '"');
    lemma_parse_plain_at(s, pos + 3, "is_sender"@);
    assert(parse_string_body(s, pos + 3) == Some(("is_sender"@, pos + 13)));
    assert(s[pos + 13] == ':');
    assert(ws_end(s, pos + 14) == pos + 14);
    let end = pos + 14 + boolseq.len() as int;
    if b {
        assert(s[pos + 14] == 't' && s[pos + 15] == 'r' && s[pos + 16] == 'u' && s[pos + 17]
            == 'e');
        assert(parse_bool(s, pos + 14) == Some((true, end)));
    } else {
        assert(s[pos + 14] == 'f' && s[pos + 15] == 'a' && s[pos + 16] == 'l' && s[pos + 17] == 's'
            && s[pos + 18] == 'e');
        assert(parse_bool(s, pos + 14) == Some((false, end)));
    }
    assert(s[pos + 14] != '"');
    assert(parse_value(s, pos + 14) == Some((JsonValV::B(b), end)));
    assert(parse_member(s, pos + 2) == Some((("is_sender"@, JsonValV::B(b)), end)));
    assert(s[end] == '}');
    assert(end + 1 == s.len());
}

#[verifier::rlimit(60)]
proof fn lemma_resp_msg_frame(m: Seq<char>, b: bool)
    ensures
        parse_frame(spec_encode_response(RespV::Msg { msg: m, is_sender: b })) == Some(
            seq![
                ("type"@, JsonValV::S("msg"@)),
                ("msg"@, JsonValV::S(m)),
                ("is_sender"@, JsonValV::B(b)),
            ],
        ),
{
    lemma_resp_msg_front(m, b);
    lemma_resp_msg_third(m, b);
    let s = spec_encode_response(RespV::Msg { msg: m, is_sender: b });
    let pos = 21 + escape_string(m).len() as int;
    let end = pos + 14 + (if b { 4int } else { 5int });
    reveal_with_fuel(ws_end, 3);
    assert(ws_end(s, 0) == 0);
    assert(ws_end(s, 1) == 1);
    assert(ws_end(s, 13) == 13);
    assert(ws_end(s, pos + 1) == pos + 1);
    assert(ws_end(s, end) == end);
    assert(ws_end(s, end + 1) == end + 1);
    let members = seq![
        ("type"@, JsonValV::S("msg"@)),
        ("msg"@, JsonValV::S(m)),
        ("is_sender"@, JsonValV::B(b)),
    ];
    assert(parse_object(s, 0) == Some((members, end + 1)));
    assert(parse_frame(s) == Some(members));
}

#[verifier::rlimit(60)]
proof fn lemma_round_trip_resp_msg(m: Seq<char>, b: bool)
    ensures
        spec_decode_response(spec_encode_response(RespV::Msg { msg: m, is_sender: b })) == Some(
            RespV::Msg { msg: m, is_sender: b },
        ),
{
    lemma_resp_msg_frame(m, b);
    lemma_plain_tags();
    reveal_with_fuel(lookup_field, 5);
    let members = seq![
        ("type"@, JsonValV::S("msg"@)),
        ("msg"@, JsonValV::S(m)),
        ("is_sender"@, JsonValV::B(b)),
    ];
    assert(!has_dup_key(members)) by {
        assert(members[0].0 != members[1].0);
        assert(members[0].0 != members[2].0);
        assert(members[1].0 != members[2].0);
    }
    assert(members.drop_first() =~= seq![("msg"@, JsonValV::S(m)), ("is_sender"@, JsonValV::B(b))]);
    assert(members.drop_first().drop_first() =~= seq![("is_sender"@, JsonValV::B(b))]);
    assert(lookup_field(members, "type"@) == Some(JsonValV::S("msg"@)));
    assert(lookup_field(members, "msg"@) == Some(JsonValV::S(m)));
    assert(lookup_field(members, "is_sender"@) == Some(JsonValV::B(b)));
    assert(spec_response_of(members) == Some(RespV::Msg { msg: m, is_sender: b }));
}

} // verus!
