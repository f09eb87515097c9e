//! The request/response envelope shared by both transports, with its
//! wire form: a compact JSON object, the same on the socket and on the
//! framed standard streams.

use vstd::prelude::*;
use crate::json::{
    enc, Json, JsonV, json_decode_spec, json_encode, json_parse_text, view_fields, wf_char,
    wf_fields, wf_json, wf_str,
};

verus! {

broadcast use vstd::string::group_string_axioms;

/// The outcome a peer reports: the only two states the schema admits.
#[derive(Clone, Copy, PartialEq, Eq, Structural, Debug)]
pub enum Status {
    Success,
    Error,
}

/// The error payload of a response, as the peer reported it.
pub struct ExtensionError {
    pub code: String,
    pub message: String,
}

/// Model of an error payload.
pub struct ExtensionErrorV {
    pub code: Seq<char>,
    pub message: Seq<char>,
}

impl View for ExtensionError {
    type V = ExtensionErrorV;

    open spec fn view(&self) -> ExtensionErrorV {
        ExtensionErrorV { code: self.code@, message: self.message@ }
    }
}

/// An envelope request: a fresh id, a command name, and an optional
/// structured payload.
pub struct Request {
    pub id: String,
    pub command: String,
    pub params: Option<Json>,
}

/// Model of a request.
pub struct RequestV {
    pub id: Seq<char>,
    pub command: Seq<char>,
    pub params: Option<JsonV>,
}

impl View for Request {
    type V = RequestV;

    open spec fn view(&self) -> RequestV {
        RequestV {
            id: self.id@,
            command: self.command@,
            params: match self.params {
                Option::None => None,
                Option::Some(p) => Some(p@),
            },
        }
    }
}

/// An envelope response: the id it answers, the reported status, and
/// the optional payload or error.
pub struct Response {
    pub id: String,
    pub status: Status,
    pub data: Option<Json>,
    pub error: Option<ExtensionError>,
}

/// Model of a response.
pub struct ResponseV {
    pub id: Seq<char>,
    pub status: Status,
    pub data: Option<JsonV>,
    pub error: Option<ExtensionErrorV>,
}

impl View for Response {
    type V = ResponseV;

    open spec fn view(&self) -> ResponseV {
        ResponseV {
            id: self.id@,
            status: self.status,
            data: match self.data {
                Option::None => None,
                Option::Some(d) => Some(d@),
            },
            error: match self.error {
                Option::None => None,
                Option::Some(e) => Some(e@),
            },
        }
    }
}

/// A request the wire form round-trips: any strings at all, and a
/// well-formed payload when one rides along.
pub open spec fn wf_request(r: RequestV) -> bool {
    match r.params {
        Option::None => true,
        Option::Some(p) => wf_json(p),
    }
}

/// A response the wire form round-trips: any strings at all, and a
/// well-formed payload when one rides along.
pub open spec fn wf_response(r: ResponseV) -> bool {
    match r.data {
        Option::None => true,
        Option::Some(d) => wf_json(d),
    }
}

/// The status strings on the wire.
pub open spec fn status_str(st: Status) -> Seq<char> {
    match st {
        Status::Success => "success"@,
        Status::Error => "error"@,
    }
}

/// The JSON object a request becomes: `id` and `command` always, then
/// `params` when present, in that order.
pub open spec fn request_jsonv(r: RequestV) -> JsonV {
    JsonV::Obj(
        seq![("id"@, JsonV::Str(r.id)), ("command"@, JsonV::Str(r.command))]
            + match r.params {
            Option::None => Seq::empty(),
            Option::Some(p) => seq![("params"@, p)],
        },
    )
}

/// The JSON object a response becomes: `id` and `status` always, then
/// `data` and `error` when present, in that order.
pub open spec fn response_jsonv(r: ResponseV) -> JsonV {
    JsonV::Obj(
        seq![("id"@, JsonV::Str(r.id)), ("status"@, JsonV::Str(status_str(r.status)))]
            + (match r.data {
            Option::None => Seq::empty(),
            Option::Some(d) => seq![("data"@, d)],
        }) + (match r.error {
            Option::None => Seq::empty(),
            Option::Some(e) => seq![
                ("error"@, JsonV::Obj(seq![("code"@, JsonV::Str(e.code)), ("message"@, JsonV::Str(e.message))])),
            ],
        }),
    )
}

/// The characters a request puts on the wire.
pub open spec fn request_wire(r: RequestV) -> Seq<char> {
    enc(request_jsonv(r))
}

/// The characters a response puts on the wire.
pub open spec fn response_wire(r: ResponseV) -> Seq<char> {
    enc(response_jsonv(r))
}

/// The first value bound to `key`, read front to back.  A duplicated
/// field is read by its first binding; later ones are ignored.
pub open spec fn lookup(fs: Seq<(Seq<char>, JsonV)>, key: Seq<char>) -> Option<JsonV>
    decreases fs.len(),
{
    if fs.len() == 0 {
        None
    } else if fs[0].0 == key {
        Some(fs[0].1)
    } else {
        lookup(fs.drop_first(), key)
    }
}

/// How a JSON value reads back as a request: an object whose `id` and
/// `command` are strings; `params` is kept verbatim when present.
pub open spec fn request_of_jsonv(v: JsonV) -> Option<RequestV> {
    match v {
        JsonV::Obj(fs) => {
            match (lookup(fs, "id"@), lookup(fs, "command"@)) {
                (Option::Some(JsonV::Str(id)), Option::Some(JsonV::Str(command))) => Some(
                    RequestV { id, command, params: lookup(fs, "params"@) },
                ),
                _ => None,
            }
        },
        _ => None,
    }
}

/// How a JSON value reads back as an error payload.
pub open spec fn error_of_jsonv(v: JsonV) -> Option<ExtensionErrorV> {
    match v {
        JsonV::Obj(fs) => {
            match (lookup(fs, "code"@), lookup(fs, "message"@)) {
                (Option::Some(JsonV::Str(code)), Option::Some(JsonV::Str(message))) => Some(
                    ExtensionErrorV { code, message },
                ),
                _ => None,
            }
        },
        _ => None,
    }
}

/// How a JSON value reads back as a response: an object whose `id` is a
/// string and whose `status` is one of the two admitted words; `data`
/// is kept verbatim when present, and `error`, when present, must be a
/// well-formed error payload.
pub open spec fn response_of_jsonv(v: JsonV) -> Option<ResponseV> {
    match v {
        JsonV::Obj(fs) => {
            match (lookup(fs, "id"@), lookup(fs, "status"@)) {
                (Option::Some(JsonV::Str(id)), Option::Some(JsonV::Str(st))) => {
                    if st == "success"@ || st == "error"@ {
                        let status = if st == "success"@ {
                            Status::Success
                        } else {
                            Status::Error
                        };
                        match lookup(fs, "error"@) {
                            Option::None => Some(
                                ResponseV { id, status, data: lookup(fs, "data"@), error: None },
                            ),
                            Option::Some(ev) => match error_of_jsonv(ev) {
                                Option::None => None,
                                Option::Some(e) => Some(
                                    ResponseV {
                                        id,
                                        status,
                                        data: lookup(fs, "data"@),
                                        error: Some(e),
                                    },
                                ),
                            },
                        }
                    } else {
                        None
                    }
                },
                _ => None,
            }
        },
        _ => None,
    }
}

/// What a complete text frame means as a request.
pub open spec fn decode_request_spec(s: Seq<char>) -> Option<RequestV> {
    match json_decode_spec(s) {
        Option::None => None,
        Option::Some(v) => request_of_jsonv(v),
    }
}

/// What a complete text frame means as a response.
pub open spec fn decode_response_spec(s: Seq<char>) -> Option<ResponseV> {
    match json_decode_spec(s) {
        Option::None => None,
        Option::Some(v) => response_of_jsonv(v),
    }
}

/// The field names and status words of the wire schema are pairwise
/// distinct and are well-formed text.
pub proof fn lemma_keys()
    ensures
        "id"@ != "status"@,
        "id"@ != "data"@,
        "id"@ != "error"@,
        "status"@ != "data"@,
        "status"@ != "error"@,
        "data"@ != "error"@,
        "id"@ != "command"@,
        "id"@ != "params"@,
        "command"@ != "params"@,
        "code"@ != "message"@,
        "success"@ != "error"@,
        wf_str("id"@),
        wf_str("status"@),
        wf_str("data"@),
        wf_str("error"@),
        wf_str("command"@),
        wf_str("params"@),
        wf_str("code"@),
        wf_str("message"@),
        wf_str("success"@),
        "id"@.len() == 2,
        "status"@.len() == 6,
        "data"@.len() == 4,
        "error"@.len() == 5,
        "command"@.len() == 7,
        "params"@.len() == 6,
        "code"@.len() == 4,
        "message"@.len() == 7,
        "success"@.len() == 7,
{
    reveal_strlit("id");
    reveal_strlit("status");
    reveal_strlit("data");
    reveal_strlit("error");
    reveal_strlit("command");
    reveal_strlit("params");
    reveal_strlit("code");
    reveal_strlit("message");
    reveal_strlit("success");
    assert("id"@.len() == 2);
    assert("status"@.len() == 6);
    assert("data"@.len() == 4);
    assert("error"@.len() == 5);
    assert("command"@.len() == 7);
    assert("params"@.len() == 6);
    assert("code"@.len() == 4);
    assert("message"@.len() == 7);
    assert("success"@.len() == 7);
    assert("status"@[0] == 's' && "params"@[0] == 'p');
    assert(wf_str("id"@)) by {
        assert forall|i: int| 0 <= i < 2 implies wf_char("id"@[i]) by {
            assert("id"@[0] == 'i' && "id"@[1] == 'd');
        }
    }
    assert(wf_str("status"@)) by {
        assert forall|i: int| 0 <= i < 6 implies wf_char("status"@[i]) by {
            assert("status"@[0] == 's' && "status"@[1] == 't' && "status"@[2] == 'a' && "status"@[3]
                == 't' && "status"@[4] == 'u' && "status"@[5] == 's');
        }
    }
    assert(wf_str("data"@)) by {
        assert forall|i: int| 0 <= i < 4 implies wf_char("data"@[i]) by {
            assert("data"@[0] == 'd' && "data"@[1] == 'a' && "data"@[2] == 't' && "data"@[3] == 'a');
        }
    }
    assert(wf_str("error"@)) by {
        assert forall|i: int| 0 <= i < 5 implies wf_char("error"@[i]) by {
            assert("error"@[0] == 'e' && "error"@[1] == 'r' && "error"@[2] == 'r' && "error"@[3]
                == 'o' && "error"@[4] == 'r');
        }
    }
    assert(wf_str("command"@)) by {
        assert forall|i: int| 0 <= i < 7 implies wf_char("command"@[i]) by {
            assert("command"@[0] == 'c' && "command"@[1] == 'o' && "command"@[2] == 'm'
                && "command"@[3] == 'm' && "command"@[4] == 'a' && "command"@[5] == 'n'
                && "command"@[6] == 'd');
        }
    }
    assert(wf_str("params"@)) by {
        assert forall|i: int| 0 <= i < 6 implies wf_char("params"@[i]) by {
            assert("params"@[0] == 'p' && "params"@[1] == 'a' && "params"@[2] == 'r' && "params"@[3]
                == 'a' && "params"@[4] == 'm' && "params"@[5] == 's');
        }
    }
    assert(wf_str("code"@)) by {
        assert forall|i: int| 0 <= i < 4 implies wf_char("code"@[i]) by {
            assert("code"@[0] == 'c' && "code"@[1] == 'o' && "code"@[2] == 'd' && "code"@[3] == 'e');
        }
    }
    assert(wf_str("message"@)) by {
        assert forall|i: int| 0 <= i < 7 implies wf_char("message"@[i]) by {
            assert("message"@[0] == 'm' && "message"@[1] == 'e' && "message"@[2] == 's'
                && "message"@[3] == 's' && "message"@[4] == 'a' && "message"@[5] == 'g'
                && "message"@[6] == 'e');
        }
    }
    assert(wf_str("success"@)) by {
        assert forall|i: int| 0 <= i < 7 implies wf_char("success"@[i]) by {
            assert("success"@[0] == 's' && "success"@[1] == 'u' && "success"@[2] == 'c'
                && "success"@[3] == 'c' && "success"@[4] == 'e' && "success"@[5] == 's'
                && "success"@[6] == 's');
        }
    }
}

/// The wire word for a status.
pub fn status_string(st: Status) -> (r: String)
    ensures
        r@ == status_str(st),
{
    match st {
        Status::Success => String::from_str("success"),
        Status::Error => String::from_str("error"),
    }
}

/// Serializes a request to its wire text.
pub fn encode_request(r: Request) -> (out: String)
    ensures
        out@ == request_wire(r@),
{
    let ghost rv = r@;
    let mut fs: Vec<(String, Json)> = Vec::new();
    fs.push((String::from_str("id"), Json::Str(r.id)));
    fs.push((String::from_str("command"), Json::Str(r.command)));
    match r.params {
        Option::None => {},
        Option::Some(p) => {
            fs.push((String::from_str("params"), p));
        },
    }
    let j = Json::Obj(fs);
    proof {
        assert(view_fields(j->Obj_0) =~= request_jsonv(rv)->Obj_0);
    }
    json_encode(&j)
}

/// Serializes a response to its wire text.
pub fn encode_response(r: Response) -> (out: String)
    ensures
        out@ == response_wire(r@),
{
    let ghost rv = r@;
    let mut fs: Vec<(String, Json)> = Vec::new();
    fs.push((String::from_str("id"), Json::Str(r.id)));
    fs.push((String::from_str("status"), Json::Str(status_string(r.status))));
    match r.data {
        Option::None => {},
        Option::Some(d) => {
            fs.push((String::from_str("data"), d));
        },
    }
    match r.error {
        Option::None => {},
        Option::Some(e) => {
            let mut efs: Vec<(String, Json)> = Vec::new();
            efs.push((String::from_str("code"), Json::Str(e.code)));
            efs.push((String::from_str("message"), Json::Str(e.message)));
            proof {
                assert(view_fields(efs) =~= seq![
                    ("code"@, JsonV::Str(e.code@)),
                    ("message"@, JsonV::Str(e.message@)),
                ]);
            }
            fs.push((String::from_str("error"), Json::Obj(efs)));
        },
    }
    let j = Json::Obj(fs);
    proof {
        assert(view_fields(j->Obj_0) =~= response_jsonv(rv)->Obj_0);
    }
    json_encode(&j)
}

/// Reads an error payload out of a JSON value, as `error_of_jsonv`
/// describes.
fn error_from_json(v: Json) -> (r: Option<ExtensionError>)
    ensures
        match r {
            Option::Some(e) => error_of_jsonv(v@) == Some(e@),
            Option::None => error_of_jsonv(v@) is None,
        },
{
    let ghost vv = v@;
    let mut fs = match v {
        Json::Obj(fs) => fs,
        _ => {
            return None;
        },
    };
    let ghost orig = view_fields(fs);
    assert(vv == JsonV::Obj(orig));
    let mut code: Option<String> = None;
    let mut message: Option<String> = None;
    #[verifier::loop_isolation(false)]
    while fs.len() > 0
        invariant
            vv == JsonV::Obj(orig),
            match code {
                Option::Some(s) => lookup(orig, "code"@) == Some(JsonV::Str(s@)),
                Option::None => lookup(orig, "code"@) == lookup(view_fields(fs), "code"@),
            },
            match message {
                Option::Some(s) => lookup(orig, "message"@) == Some(JsonV::Str(s@)),
                Option::None => lookup(orig, "message"@) == lookup(view_fields(fs), "message"@),
            },
        decreases fs@.len(),
    {
        let ghost pre = view_fields(fs);
        let (k, val) = fs.remove(0);
        proof {
            lemma_keys();
            assert(view_fields(fs) =~= pre.drop_first());
            assert(pre[0] == (k@, val@));
        }
        if crate::text::str_eq(k.as_str(), "code") {
            if code.is_none() {
                match val {
                    Json::Str(s) => {
                        code = Some(s);
                    },
                    _ => {
                        assert(lookup(orig, "code"@) == Some(val@));
                        return None;
                    },
                }
            }
        } else if crate::text::str_eq(k.as_str(), "message") {
            if message.is_none() {
                match val {
                    Json::Str(s) => {
                        message = Some(s);
                    },
                    _ => {
                        assert(lookup(orig, "message"@) == Some(val@));
                        return None;
                    },
                }
            }
        }
    }
    proof {
        lemma_keys();
        assert(view_fields(fs) =~= Seq::<(Seq<char>, JsonV)>::empty());
    }
    match (code, message) {
        (Option::Some(c), Option::Some(m)) => Some(ExtensionError { code: c, message: m }),
        _ => None,
    }
}

/// Reads a response out of a JSON value, as `response_of_jsonv`
/// describes.
pub fn response_from_json(v: Json) -> (r: Option<Response>)
    ensures
        match r {
            Option::Some(resp) => response_of_jsonv(v@) == Some(resp@),
            Option::None => response_of_jsonv(v@) is None,
        },
{
    let ghost vv = v@;
    let mut fs = match v {
        Json::Obj(fs) => fs,
        _ => {
            return None;
        },
    };
    let ghost orig = view_fields(fs);
    assert(vv == JsonV::Obj(orig));
    let mut id: Option<String> = None;
    let mut status: Option<Status> = None;
    let mut data: Option<Json> = None;
    let mut err: Option<ExtensionError> = None;
    let ghost mut gerr: JsonV = JsonV::Null;
    #[verifier::loop_isolation(false)]
    while fs.len() > 0
        invariant
            vv == JsonV::Obj(orig),
            match id {
                Option::Some(s) => lookup(orig, "id"@) == Some(JsonV::Str(s@)),
                Option::None => lookup(orig, "id"@) == lookup(view_fields(fs), "id"@),
            },
            match status {
                Option::Some(st) => lookup(orig, "status"@) == Some(
                    JsonV::Str(status_str(st)),
                ),
                Option::None => lookup(orig, "status"@) == lookup(view_fields(fs), "status"@),
            },
            match data {
                Option::Some(d) => lookup(orig, "data"@) == Some(d@),
                Option::None => lookup(orig, "data"@) == lookup(view_fields(fs), "data"@),
            },
            match err {
                Option::Some(e) => lookup(orig, "error"@) == Some(gerr) && error_of_jsonv(gerr)
                    == Some(e@),
                Option::None => lookup(orig, "error"@) == lookup(view_fields(fs), "error"@),
            },
        decreases fs@.len(),
    {
        let ghost pre = view_fields(fs);
        let (k, val) = fs.remove(0);
        proof {
            lemma_keys();
            assert(view_fields(fs) =~= pre.drop_first());
            assert(pre[0] == (k@, val@));
        }
        if crate::text::str_eq(k.as_str(), "id") {
            if id.is_none() {
                match val {
                    Json::Str(s) => {
                        id = Some(s);
                    },
                    _ => {
                        assert(lookup(orig, "id"@) == Some(val@));
                        return None;
                    },
                }
            }
        } else if crate::text::str_eq(k.as_str(), "status") {
            if status.is_none() {
                match val {
                    Json::Str(s) => {
                        if crate::text::str_eq(s.as_str(), "success") {
                            status = Some(Status::Success);
                        } else if crate::text::str_eq(s.as_str(), "error") {
                            status = Some(Status::Error);
                        } else {
                            assert(lookup(orig, "status"@) == Some(JsonV::Str(s@)));
                            return None;
                        }
                    },
                    _ => {
                        assert(lookup(orig, "status"@) == Some(val@));
                        return None;
                    },
                }
            }
        } else if crate::text::str_eq(k.as_str(), "data") {
            if data.is_none() {
                data = Some(val);
            }
        } else if crate::text::str_eq(k.as_str(), "error") {
            if err.is_none() {
                proof {
                    gerr = val@;
                }
                match error_from_json(val) {
                    Option::Some(e) => {
                        err = Some(e);
                    },
                    Option::None => {
                        assert(lookup(orig, "error"@) == Some(gerr));
                        assert(error_of_jsonv(gerr) is None);
                        return None;
                    },
                }
            }
        }
    }
    proof {
        lemma_keys();
        assert(view_fields(fs) =~= Seq::<(Seq<char>, JsonV)>::empty());
    }
    match (id, status) {
        (Option::Some(i), Option::Some(st)) => {
            Some(Response { id: i, status: st, data, error: err })
        },
        _ => None,
    }
}

/// Reads a request out of a JSON value, as `request_of_jsonv` describes.
pub fn request_from_json(v: Json) -> (r: Option<Request>)
    ensures
        match r {
            Option::Some(req) => request_of_jsonv(v@) == Some(req@),
            Option::None => request_of_jsonv(v@) is None,
        },
{
    let ghost vv = v@;
    let mut fs = match v {
        Json::Obj(fs) => fs,
        _ => {
            return None;
        },
    };
    let ghost orig = view_fields(fs);
    assert(vv == JsonV::Obj(orig));
    let mut id: Option<String> = None;
    let mut command: Option<String> = None;
    let mut params: Option<Json> = None;
    #[verifier::loop_isolation(false)]
    while fs.len() > 0
        invariant
            vv == JsonV::Obj(orig),
            match id {
                Option::Some(s) => lookup(orig, "id"@) == Some(JsonV::Str(s@)),
                Option::None => lookup(orig, "id"@) == lookup(view_fields(fs), "id"@),
            },
            match command {
                Option::Some(s) => lookup(orig, "command"@) == Some(JsonV::Str(s@)),
                Option::None => lookup(orig, "command"@) == lookup(view_fields(fs), "command"@),
            },
            match params {
                Option::Some(p) => lookup(orig, "params"@) == Some(p@),
                Option::None => lookup(orig, "params"@) == lookup(view_fields(fs), "params"@),
            },
        decreases fs@.len(),
    {
        let ghost pre = view_fields(fs);
        let (k, val) = fs.remove(0);
        proof {
            lemma_keys();
            assert(view_fields(fs) =~= pre.drop_first());
            assert(pre[0] == (k@, val@));
        }
        if crate::text::str_eq(k.as_str(), "id") {
            if id.is_none() {
                match val {
                    Json::Str(s) => {
                        id = Some(s);
                    },
                    _ => {
                        assert(lookup(orig, "id"@) == Some(val@));
                        return None;
                    },
                }
            }
        } else if crate::text::str_eq(k.as_str(), "command") {
            if command.is_none() {
                match val {
                    Json::Str(s) => {
                        command = Some(s);
                    },
                    _ => {
                        assert(lookup(orig, "command"@) == Some(val@));
                        return None;
                    },
                }
            }
        } else if crate::text::str_eq(k.as_str(), "params") {
            if params.is_none() {
                params = Some(val);
            }
        }
    }
    proof {
        lemma_keys();
        assert(view_fields(fs) =~= Seq::<(Seq<char>, JsonV)>::empty());
    }
    match (id, command) {
        (Option::Some(i), Option::Some(c)) => Some(Request { id: i, command: c, params }),
        _ => None,
    }
}

/// Decodes one text frame as a response, as `decode_response_spec`
/// describes; anything else is no response.
pub fn decode_response(text: &str) -> (r: Option<Response>)
    ensures
        match r {
            Option::Some(resp) => decode_response_spec(text@) == Some(resp@),
            Option::None => decode_response_spec(text@) is None,
        },
{
    match json_parse_text(text) {
        Option::None => None,
        Option::Some(v) => response_from_json(v),
    }
}

/// Decodes one text frame as a request, as `decode_request_spec`
/// describes.
pub fn decode_request(text: &str) -> (r: Option<Request>)
    ensures
        match r {
            Option::Some(req) => decode_request_spec(text@) == Some(req@),
            Option::None => decode_request_spec(text@) is None,
        },
{
    match json_parse_text(text) {
        Option::None => None,
        Option::Some(v) => request_from_json(v),
    }
}

/// Round trip for responses: decoding the wire text of any well-formed
/// response yields that response back, whatever combination of `data`
/// and `error` it carries.  The length bound only keeps the parser's
/// fuel inside a machine word.
pub proof fn lemma_response_round_trip(r: ResponseV)
    requires
        wf_response(r),
        response_wire(r).len() < crate::json::len_cap(),
    ensures
        decode_response_spec(response_wire(r)) == Some(r),
{
    reveal_with_fuel(lookup, 6);
    lemma_keys();
    let jv = response_jsonv(r);
    let fs = jv->Obj_0;
    let idf = ("id"@, JsonV::Str(r.id));
    let stf = ("status"@, JsonV::Str(status_str(r.status)));
    assert(wf_str(status_str(r.status)));
    assert(wf_json(JsonV::Str(r.id)));
    assert(wf_json(JsonV::Str(status_str(r.status))));
    match (r.data, r.error) {
        (Option::None, Option::None) => {
            assert(fs =~= seq![idf, stf]);
            assert(wf_fields(fs, 2));
            assert(wf_fields(fs, 1));
            assert(wf_fields(fs, 0));
            let t1 = fs.drop_first();
            assert(t1 =~= seq![stf]);
            assert(t1.drop_first() =~= Seq::<(Seq<char>, JsonV)>::empty());
            assert(lookup(fs, "id"@) == Some(JsonV::Str(r.id)));
            assert(lookup(fs, "status"@) == Some(JsonV::Str(status_str(r.status))));
            assert(lookup(fs, "data"@) is None);
            assert(lookup(fs, "error"@) is None);
        },
        (Option::Some(d), Option::None) => {
            let df = ("data"@, d);
            assert(fs =~= seq![idf, stf, df]);
            assert(wf_fields(fs, 3));
            assert(wf_fields(fs, 2));
            assert(wf_fields(fs, 1));
            assert(wf_fields(fs, 0));
            let t1 = fs.drop_first();
            let t2 = t1.drop_first();
            assert(t1 =~= seq![stf, df]);
            assert(t2 =~= seq![df]);
            assert(t2.drop_first() =~= Seq::<(Seq<char>, JsonV)>::empty());
            assert(lookup(fs, "id"@) == Some(JsonV::Str(r.id)));
            assert(lookup(fs, "status"@) == Some(JsonV::Str(status_str(r.status))));
            assert(lookup(fs, "data"@) == Some(d));
            assert(lookup(fs, "error"@) is None);
        },
        (Option::None, Option::Some(e)) => {
            let eobj = JsonV::Obj(
                seq![("code"@, JsonV::Str(e.code)), ("message"@, JsonV::Str(e.message))],
            );
            assert(wf_json(JsonV::Str(e.code)));
            assert(wf_json(JsonV::Str(e.message)));
            let ef = ("error"@, eobj);
            assert(fs =~= seq![idf, stf, ef]);
            let efs = eobj->Obj_0;
            assert(efs.drop_first() =~= seq![("message"@, JsonV::Str(e.message))]);
            assert(efs.drop_first().drop_first() =~= Seq::<(Seq<char>, JsonV)>::empty());
            assert(wf_fields(efs, 2));
            assert(wf_fields(efs, 1));
            assert(wf_fields(efs, 0));
            assert(wf_json(eobj));
            assert(wf_fields(fs, 3));
            assert(wf_fields(fs, 2));
            assert(wf_fields(fs, 1));
            assert(wf_fields(fs, 0));
            let t1 = fs.drop_first();
            let t2 = t1.drop_first();
            assert(t1 =~= seq![stf, ef]);
            assert(t2 =~= seq![ef]);
            assert(t2.drop_first() =~= Seq::<(Seq<char>, JsonV)>::empty());
            assert(lookup(fs, "id"@) == Some(JsonV::Str(r.id)));
            assert(lookup(fs, "status"@) == Some(JsonV::Str(status_str(r.status))));
            assert(lookup(fs, "data"@) is None);
            assert(lookup(fs, "error"@) == Some(eobj));
            assert(lookup(efs, "code"@) == Some(JsonV::Str(e.code)));
            assert(lookup(efs, "message"@) == Some(JsonV::Str(e.message)));
            assert(error_of_jsonv(eobj) == Some(e));
        },
        (Option::Some(d), Option::Some(e)) => {
            let df = ("data"@, d);
            let eobj = JsonV::Obj(
                seq![("code"@, JsonV::Str(e.code)), ("message"@, JsonV::Str(e.message))],
            );
            assert(wf_json(JsonV::Str(e.code)));
            assert(wf_json(JsonV::Str(e.message)));
            let ef = ("error"@, eobj);
            assert(fs =~= seq![idf, stf, df, ef]);
            let efs = eobj->Obj_0;
            assert(efs.drop_first() =~= seq![("message"@, JsonV::Str(e.message))]);
            assert(efs.drop_first().drop_first() =~= Seq::<(Seq<char>, JsonV)>::empty());
            assert(wf_fields(efs, 2));
            assert(wf_fields(efs, 1));
            assert(wf_fields(efs, 0));
            assert(wf_json(eobj));
            assert(wf_fields(fs, 4));
            assert(wf_fields(fs, 3));
            assert(wf_fields(fs, 2));
            assert(wf_fields(fs, 1));
            assert(wf_fields(fs, 0));
            let t1 = fs.drop_first();
            let t2 = t1.drop_first();
            let t3 = t2.drop_first();
            assert(t1 =~= seq![stf, df, ef]);
            assert(t2 =~= seq![df, ef]);
            assert(t3 =~= seq![ef]);
            assert(t3.drop_first() =~= Seq::<(Seq<char>, JsonV)>::empty());
            assert(lookup(fs, "id"@) == Some(JsonV::Str(r.id)));
            assert(lookup(fs, "status"@) == Some(JsonV::Str(status_str(r.status))));
            assert(lookup(fs, "data"@) == Some(d));
            assert(lookup(fs, "error"@) == Some(eobj));
            assert(lookup(efs, "code"@) == Some(JsonV::Str(e.code)));
            assert(lookup(efs, "message"@) == Some(JsonV::Str(e.message)));
            assert(error_of_jsonv(eobj) == Some(e));
        },
    }
    assert(wf_json(jv));
    crate::json::lemma_json_round_trip(jv);
    match r.status {
        Status::Success => {
            assert(status_str(r.status) == "success"@);
        },
        Status::Error => {
            assert(status_str(r.status) == "error"@);
            assert(status_str(r.status) != "success"@);
        },
    }
    assert(response_of_jsonv(jv) == Some(r));
}

/// Round trip for requests: decoding the wire text of any well-formed
/// request yields that request back, with or without a payload.
pub proof fn lemma_request_round_trip(r: RequestV)
    requires
        wf_request(r),
        request_wire(r).len() < crate::json::len_cap(),
    ensures
        decode_request_spec(request_wire(r)) == Some(r),
{
    reveal_with_fuel(lookup, 6);
    lemma_keys();
    let jv = request_jsonv(r);
    let fs = jv->Obj_0;
    let idf = ("id"@, JsonV::Str(r.id));
    let cf = ("command"@, JsonV::Str(r.command));
    assert(wf_json(JsonV::Str(r.id)));
    assert(wf_json(JsonV::Str(r.command)));
    match r.params {
        Option::None => {
            assert(fs =~= seq![idf, cf]);
            assert(wf_fields(fs, 2));
            assert(wf_fields(fs, 1));
            assert(wf_fields(fs, 0));
            let t1 = fs.drop_first();
            assert(t1 =~= seq![cf]);
            assert(t1.drop_first() =~= Seq::<(Seq<char>, JsonV)>::empty());
            assert(lookup(fs, "id"@) == Some(JsonV::Str(r.id)));
            assert(lookup(fs, "command"@) == Some(JsonV::Str(r.command)));
            assert(lookup(fs, "params"@) is None);
        },
        Option::Some(p) => {
            let pf = ("params"@, p);
            assert(fs =~= seq![idf, cf, pf]);
            assert(wf_fields(fs, 3));
            assert(wf_fields(fs, 2));
            assert(wf_fields(fs, 1));
            assert(wf_fields(fs, 0));
            let t1 = fs.drop_first();
            let t2 = t1.drop_first();
            assert(t1 =~= seq![cf, pf]);
            assert(t2 =~= seq![pf]);
            assert(t2.drop_first() =~= Seq::<(Seq<char>, JsonV)>::empty());
            assert(lookup(fs, "id"@) == Some(JsonV::Str(r.id)));
            assert(lookup(fs, "command"@) == Some(JsonV::Str(r.command)));
            assert(lookup(fs, "params"@) == Some(p));
        },
    }
    assert(wf_json(jv));
    crate::json::lemma_json_round_trip(jv);
    assert(request_of_jsonv(jv) == Some(r));
}

} // verus!
