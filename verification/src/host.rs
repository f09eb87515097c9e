//! The host side of the framed-stream transport: a strictly sequential
//! read–dispatch–write loop over standard streams.  The dispatch itself
//! is pure and is fully specified here; the streams live outside.

use vstd::prelude::*;
use vstd::utf8::{decode_utf8, encode_utf8, valid_utf8};
use vstd::string::StringExecFns;
use crate::envelope::{
    decode_request_spec, lookup, Request, RequestV, Response, ResponseV, Status, ExtensionError,
    ExtensionErrorV, response_wire, decode_request,
};
use crate::frame::{frame_read, FrameRead, FrameReadV, read_frame, bytes_to_string,
    response_frame_bytes, write_response_frame};
use crate::json::{Json, JsonV, view_fields};
use crate::text::str_eq;

verus! {

/// An error payload built by the host before it goes out on the wire.
pub struct NativeError {
    pub code: String,
    pub message: String,
}

impl NativeError {
    /// The same payload as the envelope carries it.
    pub fn into_envelope(self) -> (r: ExtensionError)
        ensures
            r@ == (ExtensionErrorV { code: self.code@, message: self.message@ }),
    {
        ExtensionError { code: self.code, message: self.message }
    }
}

/// A successful response carrying `data`.
pub fn success_response(id: String, data: Json) -> (r: Response)
    ensures
        r@ == (ResponseV { id: id@, status: Status::Success, data: Some(data@), error: None }),
{
    Response { id, status: Status::Success, data: Some(data), error: None }
}

/// An error response carrying a code and a message.
pub fn error_response(id: String, code: &str, message: &str) -> (r: Response)
    ensures
        r@ == (ResponseV {
            id: id@,
            status: Status::Error,
            data: None,
            error: Some(ExtensionErrorV { code: code@, message: message@ }),
        }),
{
    let e = NativeError { code: String::from_str(code), message: String::from_str(message) };
    Response { id, status: Status::Error, data: None, error: Some(e.into_envelope()) }
}

/// The error response model.
pub open spec fn error_response_v(id: Seq<char>, code: Seq<char>, message: Seq<char>) -> ResponseV {
    ResponseV {
        id,
        status: Status::Error,
        data: None,
        error: Some(ExtensionErrorV { code, message }),
    }
}

/// The success response model.
pub open spec fn success_response_v(id: Seq<char>, data: JsonV) -> ResponseV {
    ResponseV { id, status: Status::Success, data: Some(data), error: None }
}

/// The `enabled` flag of a debug-mode request: false unless the params
/// carry `enabled: true`.
pub open spec fn debug_enabled_param(params: Option<JsonV>) -> bool {
    match params {
        Option::Some(JsonV::Obj(fs)) => match lookup(fs, "enabled"@) {
            Option::Some(JsonV::Bool(b)) => b,
            _ => false,
        },
        _ => false,
    }
}

/// What the host answers to one inbound request.  Commands that belong
/// to the browser-extension side are answered with an explicit
/// not-implemented error rather than an empty success; a command no one
/// recognizes gets the stable `UNKNOWN_COMMAND` code and does not end
/// the session.
pub open spec fn host_response(req: RequestV, version: Seq<char>) -> ResponseV {
    let c = req.command;
    if c == "ping"@ {
        success_response_v(
            req.id,
            JsonV::Obj(seq![("version"@, JsonV::Str(version)), ("host"@, JsonV::Str("noet"@))]),
        )
    } else if c == "check_auth"@ {
        success_response_v(
            req.id,
            JsonV::Obj(seq![("logged_in"@, JsonV::Bool(false)), ("username"@, JsonV::Null)]),
        )
    } else if c == "list_articles"@ {
        error_response_v(req.id, "NOT_IMPLEMENTED"@, "list_articles should be called from extension"@)
    } else if c == "get_article"@ {
        error_response_v(req.id, "NOT_IMPLEMENTED"@, "get_article should be called from extension"@)
    } else if c == "create_article"@ {
        error_response_v(
            req.id,
            "NOT_IMPLEMENTED"@,
            "create_article should be called from extension"@,
        )
    } else if c == "update_article"@ {
        error_response_v(
            req.id,
            "NOT_IMPLEMENTED"@,
            "update_article should be called from extension"@,
        )
    } else if c == "delete_article"@ {
        error_response_v(
            req.id,
            "NOT_IMPLEMENTED"@,
            "delete_article should be called from extension"@,
        )
    } else if c == "set_debug_mode"@ {
        success_response_v(
            req.id,
            JsonV::Obj(
                seq![
                    ("success"@, JsonV::Bool(true)),
                    ("debug_mode"@, JsonV::Bool(debug_enabled_param(req.params))),
                ],
            ),
        )
    } else if c == "get_debug_mode"@ {
        success_response_v(req.id, JsonV::Obj(seq![("debug_mode"@, JsonV::Bool(false))]))
    } else {
        error_response_v(req.id, "UNKNOWN_COMMAND"@, "Unknown command: "@ + c)
    }
}

/// Reads the `enabled` flag out of a request's params.
fn enabled_flag(params: &Option<Json>) -> (r: bool)
    ensures
        r == debug_enabled_param(match params {
            Option::None => None,
            Option::Some(p) => Some(p@),
        }),
{
    match params {
        Option::Some(Json::Obj(fs)) => {
            let n = fs.len();
            let mut k: usize = 0;
            proof {
                assert(view_fields(*fs).skip(0) =~= view_fields(*fs));
            }
            #[verifier::loop_isolation(false)]
            while k < n
                invariant
                    n == fs@.len(),
                    k <= n,
                    lookup(view_fields(*fs), "enabled"@) == lookup(
                        view_fields(*fs).skip(k as int),
                        "enabled"@,
                    ),
                decreases n - k,
            {
                let ghost pre = view_fields(*fs).skip(k as int);
                proof {
                    assert(pre[0] == view_fields(*fs)[k as int]);
                    assert(pre.drop_first() =~= view_fields(*fs).skip(k + 1));
                }
                if str_eq(fs[k].0.as_str(), "enabled") {
                    match &fs[k].1 {
                        Json::Bool(b) => {
                            return *b;
                        },
                        _ => {
                            return false;
                        },
                    }
                }
                k += 1;
            }
            proof {
                assert(view_fields(*fs).skip(n as int) =~= Seq::<(Seq<char>, JsonV)>::empty());
            }
            false
        },
        _ => false,
    }
}

/// Answers one inbound request, as `host_response` describes.
pub fn handle_command(req: Request, version: &str) -> (r: Response)
    ensures
        r@ == host_response(req@, version@),
{
    let enabled = enabled_flag(&req.params);
    let cmd = req.command;
    let id = req.id;
    if str_eq(cmd.as_str(), "ping") {
        let mut fs: Vec<(String, Json)> = Vec::new();
        fs.push((String::from_str("version"), Json::Str(String::from_str(version))));
        fs.push((String::from_str("host"), Json::Str(String::from_str("noet"))));
        proof {
            assert(fs@[0].1.view() == JsonV::Str(version@));
            assert(fs@[1].1.view() == JsonV::Str("noet"@));
            assert(view_fields(fs) =~= seq![
                ("version"@, JsonV::Str(version@)),
                ("host"@, JsonV::Str("noet"@)),
            ]);
        }
        let data = Json::Obj(fs);
        success_response(id, data)
    } else if str_eq(cmd.as_str(), "check_auth") {
        let mut fs: Vec<(String, Json)> = Vec::new();
        fs.push((String::from_str("logged_in"), Json::Bool(false)));
        fs.push((String::from_str("username"), Json::Null));
        proof {
            assert(fs@[0].1.view() == JsonV::Bool(false));
            assert(fs@[1].1.view() == JsonV::Null);
            assert(view_fields(fs) =~= seq![
                ("logged_in"@, JsonV::Bool(false)),
                ("username"@, JsonV::Null),
            ]);
        }
        let data = Json::Obj(fs);
        success_response(id, data)
    } else if str_eq(cmd.as_str(), "list_articles") {
        error_response(id, "NOT_IMPLEMENTED", "list_articles should be called from extension")
    } else if str_eq(cmd.as_str(), "get_article") {
        error_response(id, "NOT_IMPLEMENTED", "get_article should be called from extension")
    } else if str_eq(cmd.as_str(), "create_article") {
        error_response(id, "NOT_IMPLEMENTED", "create_article should be called from extension")
    } else if str_eq(cmd.as_str(), "update_article") {
        error_response(id, "NOT_IMPLEMENTED", "update_article should be called from extension")
    } else if str_eq(cmd.as_str(), "delete_article") {
        error_response(id, "NOT_IMPLEMENTED", "delete_article should be called from extension")
    } else if str_eq(cmd.as_str(), "set_debug_mode") {
        let mut fs: Vec<(String, Json)> = Vec::new();
        fs.push((String::from_str("success"), Json::Bool(true)));
        fs.push((String::from_str("debug_mode"), Json::Bool(enabled)));
        proof {
            assert(fs@[0].1.view() == JsonV::Bool(true));
            assert(fs@[1].1.view() == JsonV::Bool(enabled));
            assert(view_fields(fs) =~= seq![
                ("success"@, JsonV::Bool(true)),
                ("debug_mode"@, JsonV::Bool(enabled)),
            ]);
        }
        let data = Json::Obj(fs);
        success_response(id, data)
    } else if str_eq(cmd.as_str(), "get_debug_mode") {
        let mut fs: Vec<(String, Json)> = Vec::new();
        fs.push((String::from_str("debug_mode"), Json::Bool(false)));
        proof {
            assert(fs@[0].1.view() == JsonV::Bool(false));
            assert(view_fields(fs) =~= seq![("debug_mode"@, JsonV::Bool(false))]);
        }
        let data = Json::Obj(fs);
        success_response(id, data)
    } else {
        let msg = String::from_str("Unknown command: ").concat(cmd.as_str());
        error_response(id, "UNKNOWN_COMMAND", msg.as_str())
    }
}

/// How a host session ends.
#[derive(Clone, Copy, PartialEq, Eq, Structural, Debug)]
pub enum HostEnd {
    /// The peer closed the stream at a message boundary.
    Clean,
    /// The stream ended inside a message, or a body was not a
    /// well-formed request, or a response outgrew the length prefix.
    Protocol,
}

/// The whole host session over a complete input stream: every frame is
/// answered in order, one response per request; a malformed frame ends
/// the session with a protocol error, a clean end of stream ends it
/// without one.
pub open spec fn host_session_spec(s: Seq<u8>, i: int, version: Seq<char>) -> (Seq<u8>, HostEnd)
    decreases s.len() - i,
        when 0 <= i <= s.len()
{
    match frame_read(s, i) {
        FrameReadV::CleanEof => (Seq::empty(), HostEnd::Clean),
        FrameReadV::Truncated => (Seq::empty(), HostEnd::Protocol),
        FrameReadV::Frame(body, j) => {
            if !valid_utf8(body) {
                (Seq::empty(), HostEnd::Protocol)
            } else {
                match decode_request_spec(decode_utf8(body)) {
                    Option::None => (Seq::empty(), HostEnd::Protocol),
                    Option::Some(req) => {
                        let resp = host_response(req, version);
                        if encode_utf8(response_wire(resp)).len() > u32::MAX {
                            (Seq::empty(), HostEnd::Protocol)
                        } else {
                            let rest = host_session_spec(s, j, version);
                            (response_frame_bytes(resp) + rest.0, rest.1)
                        }
                    },
                }
            }
        },
    }
}

/// Runs the host loop over a complete input stream, as
/// `host_session_spec` describes.
pub fn process_session(input: &Vec<u8>, version: &str) -> (r: (Vec<u8>, HostEnd))
    ensures
        (r.0@, r.1) == host_session_spec(input@, 0, version@),
{
    let mut out: Vec<u8> = Vec::new();
    let mut i: usize = 0;
    #[verifier::loop_isolation(false)]
    loop
        invariant
            i <= input@.len(),
            host_session_spec(input@, 0, version@) == {
                let rest = host_session_spec(input@, i as int, version@);
                (out@ + rest.0, rest.1)
            },
        decreases input@.len() - i,
    {
        let ghost rest_pre = host_session_spec(input@, i as int, version@);
        match read_frame(input, i) {
            FrameRead::CleanEof => {
                proof {
                    assert(out@ + Seq::<u8>::empty() =~= out@);
                }
                return (out, HostEnd::Clean);
            },
            FrameRead::Truncated => {
                proof {
                    assert(out@ + Seq::<u8>::empty() =~= out@);
                }
                return (out, HostEnd::Protocol);
            },
            FrameRead::Frame(body, j) => {
                let ghost bodyv = body@;
                match bytes_to_string(body) {
                    Option::None => {
                        proof {
                            assert(out@ + Seq::<u8>::empty() =~= out@);
                        }
                        return (out, HostEnd::Protocol);
                    },
                    Option::Some(text) => {
                        match decode_request(text.as_str()) {
                            Option::None => {
                                proof {
                                    assert(out@ + Seq::<u8>::empty() =~= out@);
                                }
                                return (out, HostEnd::Protocol);
                            },
                            Option::Some(req) => {
                                let ghost prev_out = out@;
                                let resp = handle_command(req, version);
                                let ghost respv = resp@;
                                let ok = write_response_frame(resp, &mut out);
                                if !ok {
                                    proof {
                                        assert(out@ + Seq::<u8>::empty() =~= out@);
                                    }
                                    return (out, HostEnd::Protocol);
                                }
                                proof {
                                    let rest_post = host_session_spec(input@, j as int, version@);
                                    assert(rest_pre.0 =~= response_frame_bytes(respv)
                                        + rest_post.0);
                                    assert(out@ + rest_post.0 =~= prev_out + rest_pre.0);
                                }
                                i = j;
                            },
                        }
                    },
                }
            },
        }
    }
}

} // verus!