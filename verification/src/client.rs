//! The caller side of the socket transport: building each typed command
//! as an envelope request, matching incoming frames to waiting callers
//! through the correlation table, and reading typed results out of the
//! peer's responses.
//!
//! The socket itself, the reader and writer tasks and the timers run
//! outside; everything they decide is decided here.

use vstd::prelude::*;
use vstd::string::StringExecFns;
use crate::envelope::{
    decode_response_spec, lookup, Request, RequestV, Response, ResponseV, Status, decode_response,
};
use crate::errors::NoetError;
use crate::json::{Json, JsonV, view_elems, view_fields};
use crate::table::CorrelationTable;
use crate::text::str_eq;

verus! {

/// The fixed local port the socket transport binds on the loopback
/// interface.
pub const WEBSOCKET_PORT: u16 = 9876;

/// How long `connect` waits for the one peer to show up.
pub const ACCEPT_TIMEOUT_SECS: u64 = 30;

/// How long each command waits for its response.
pub const COMMAND_TIMEOUT_SECS: u64 = 60;

/// Relies on uuid::Uuid::new_v4 and its Display form: a fresh random
/// id, rendered as 36 hyphenated lowercase hexadecimal characters.
/// Nothing is assumed about which id comes back.
#[verifier::external_body]
pub fn new_request_id() -> (r: String)
    ensures
        r@.len() == 36,
        crate::json::wf_str(r@),
{
    uuid::Uuid::new_v4().to_string()
}

/// The request a typed call sends: the given fresh id, the command
/// name, and its params.
pub fn build_request(id: String, command: &str, params: Option<Json>) -> (r: Request)
    ensures
        r@ == (RequestV {
            id: id@,
            command: command@,
            params: match params {
                Option::None => None,
                Option::Some(p) => Some(p@),
            },
        }),
{
    Request { id, command: String::from_str(command), params }
}

/// Turns a resolved response into the caller's outcome: a reported
/// error fails the call with the peer's code and message, verbatim;
/// anything else succeeds with the payload, present or not.
pub fn interpret_response(resp: Response) -> (r: Result<Option<Json>, NoetError>)
    ensures
        resp@.status == Status::Error && resp@.error is Some ==> r is Err && (r->Err_0 matches
            NoetError::Remote { code, message } && code@ == resp@.error->0.code && message@
            == resp@.error->0.message),
        !(resp@.status == Status::Error && resp@.error is Some) ==> r is Ok && (match r->Ok_0 {
            Option::None => resp@.data is None,
            Option::Some(d) => resp@.data == Some(d@),
        }),
{
    let is_err = match resp.status {
        Status::Error => true,
        Status::Success => false,
    };
    if is_err {
        match resp.error {
            Option::Some(e) => {
                return Err(NoetError::Remote { code: e.code, message: e.message });
            },
            Option::None => {
                return Ok(resp.data);
            },
        }
    }
    Ok(resp.data)
}

/// One step of the reader loop: a text frame came in.  A frame that is
/// no well-formed response is dropped without touching any pending
/// call; a response whose id no caller awaits is discarded the same
/// way; a response that matches hands back exactly that caller's slot,
/// removed from the table in the same step.
pub fn handle_incoming_text<T>(table: &mut CorrelationTable<T>, text: &str) -> (r: Option<
    (T, Response),
>)
    requires
        old(table).wf(),
    ensures
        final(table).wf(),
        match decode_response_spec(text@) {
            Option::None => r is None && final(table)@ == old(table)@,
            Option::Some(resp) => {
                if old(table)@.contains_key(resp.id) {
                    &&& (r matches Option::Some(pr) && pr.0 == old(table)@[resp.id] && pr.1@
                        == resp)
                    &&& final(table)@ == old(table)@.remove(resp.id)
                } else {
                    r is None && final(table)@ == old(table)@
                }
            },
        },
{
    match decode_response(text) {
        Option::None => None,
        Option::Some(resp) => {
            match table.resolve(&resp.id) {
                Option::None => None,
                Option::Some(slot) => Some((slot, resp)),
            }
        },
    }
}

/// The failure `connect` reports when its accept deadline passes.
pub fn accept_timeout_error() -> (r: NoetError)
    ensures
        r matches NoetError::Network(s) && s@
            == "no peer connected within the accept timeout; check that the browser extension is installed and running"@,
{
    NoetError::Network(
        String::from_str(
            "no peer connected within the accept timeout; check that the browser extension is installed and running",
        ),
    )
}

/// The failure a call reports when its command deadline passes.
pub fn command_timeout_error() -> (r: NoetError)
    ensures
        r matches NoetError::Timeout(s) && s@ == "the command timed out"@,
{
    NoetError::Timeout(String::from_str("the command timed out"))
}

/// The failure every pending call reports when the connection closes
/// under it.
pub fn connection_closed_error() -> (r: NoetError)
    ensures
        r matches NoetError::Network(s) && s@ == "connection closed before the response arrived"@,
{
    NoetError::Network(String::from_str("connection closed before the response arrived"))
}

// ---------------------------------------------------------------------------
// Typed results read out of response payloads.
// ---------------------------------------------------------------------------

/// The payload a successful call must carry: a reply without one is a
/// decoding failure, reported distinctly from a peer-reported error.
pub fn require_payload(data: Option<Json>) -> (r: Result<Json, NoetError>)
    ensures
        r is Err <==> data is None,
        match r {
            Result::Ok(d) => data == Some(d),
            Result::Err(e) => e matches NoetError::Extension(m) && m@ == "No data in response"@,
        },
{
    match data {
        Option::Some(d) => Ok(d),
        Option::None => Err(NoetError::Extension(String::from_str("No data in response"))),
    }
}

/// The version a `ping` reply names, or "unknown" when the payload has
/// none.
pub open spec fn ping_version_spec(data: Option<JsonV>) -> Seq<char> {
    match data {
        Option::Some(JsonV::Obj(fs)) => match lookup(fs, "version"@) {
            Option::Some(JsonV::Str(s)) => s,
            _ => "unknown"@,
        },
        _ => "unknown"@,
    }
}

/// Reads the peer's version out of a `ping` reply.
pub fn ping_version(data: Option<Json>) -> (r: String)
    ensures
        r@ == ping_version_spec(match data {
            Option::None => None,
            Option::Some(d) => Some(d@),
        }),
{
    match data {
        Option::Some(Json::Obj(mut fs)) => {
            let ghost orig = view_fields(fs);
            #[verifier::loop_isolation(false)]
            while fs.len() > 0
                invariant
                    lookup(orig, "version"@) == lookup(view_fields(fs), "version"@),
                decreases fs@.len(),
            {
                let ghost pre = view_fields(fs);
                let (k, val) = fs.remove(0);
                proof {
                    assert(view_fields(fs) =~= pre.drop_first());
                    assert(pre[0] == (k@, val@));
                }
                if str_eq(k.as_str(), "version") {
                    match val {
                        Json::Str(s) => {
                            return s;
                        },
                        _ => {
                            return String::from_str("unknown");
                        },
                    }
                }
            }
            proof {
                assert(view_fields(fs) =~= Seq::<(Seq<char>, JsonV)>::empty());
            }
            String::from_str("unknown")
        },
        _ => String::from_str("unknown"),
    }
}

/// The auth-status field names are distinct.
proof fn lemma_client_keys()
    ensures
        "logged_in"@ != "username"@,
{
    reveal_strlit("logged_in");
    reveal_strlit("username");
    assert("logged_in"@.len() == 9);
    assert("username"@.len() == 8);
}

/// What the peer reports about the browser session.
pub struct AuthStatusData {
    pub logged_in: bool,
    pub username: Option<String>,
}

/// Model of an auth-status payload.
pub struct AuthStatusDataV {
    pub logged_in: bool,
    pub username: Option<Seq<char>>,
}

impl View for AuthStatusData {
    type V = AuthStatusDataV;

    open spec fn view(&self) -> AuthStatusDataV {
        AuthStatusDataV {
            logged_in: self.logged_in,
            username: match self.username {
                Option::None => None,
                Option::Some(s) => Some(s@),
            },
        }
    }
}

/// An optional string field: absent or null means none, a string means
/// itself, anything else is no auth-status payload.
pub open spec fn opt_str_of(v: JsonV) -> Option<Option<Seq<char>>> {
    match v {
        JsonV::Null => Some(None),
        JsonV::Str(s) => Some(Some(s)),
        _ => None,
    }
}

/// How an auth-status payload reads: `logged_in` must be a boolean;
/// `username` is an optional string.
pub open spec fn auth_status_of(v: JsonV) -> Option<AuthStatusDataV> {
    match v {
        JsonV::Obj(fs) => {
            match lookup(fs, "logged_in"@) {
                Option::Some(JsonV::Bool(b)) => {
                    match lookup(fs, "username"@) {
                        Option::None => Some(AuthStatusDataV { logged_in: b, username: None }),
                        Option::Some(u) => match opt_str_of(u) {
                            Option::Some(un) => Some(
                                AuthStatusDataV { logged_in: b, username: un },
                            ),
                            Option::None => None,
                        },
                    }
                },
                _ => None,
            }
        },
        _ => None,
    }
}

/// Reads an auth-status payload, as `auth_status_of` describes; a
/// payload of any other shape is a decoding failure, distinct from a
/// peer-reported error.
pub fn parse_auth_status(data: Json) -> (r: Result<AuthStatusData, NoetError>)
    ensures
        match r {
            Result::Ok(a) => auth_status_of(data@) == Some(a@),
            Result::Err(e) => auth_status_of(data@) is None && e matches NoetError::Extension(_),
        },
{
    let ghost vv = data@;
    let mut fs = match data {
        Json::Obj(fs) => fs,
        _ => {
            return Err(NoetError::Extension(String::from_str("Failed to parse auth data")));
        },
    };
    let ghost orig = view_fields(fs);
    let mut logged_in: Option<bool> = None;
    let mut username: Option<Option<String>> = None;
    let ghost mut graw: JsonV = JsonV::Null;
    #[verifier::loop_isolation(false)]
    while fs.len() > 0
        invariant
            vv == JsonV::Obj(orig),
            match logged_in {
                Option::Some(b) => lookup(orig, "logged_in"@) == Some(JsonV::Bool(b)),
                Option::None => lookup(orig, "logged_in"@) == lookup(
                    view_fields(fs),
                    "logged_in"@,
                ),
            },
            match username {
                Option::Some(u) => lookup(orig, "username"@) == Some(graw) && opt_str_of(graw)
                    == Some(
                    match u {
                        Option::None => None,
                        Option::Some(s) => Some(s@),
                    },
                ),
                Option::None => lookup(orig, "username"@) == lookup(view_fields(fs), "username"@),
            },
        decreases fs@.len(),
    {
        let ghost pre = view_fields(fs);
        let (k, val) = fs.remove(0);
        proof {
            lemma_client_keys();
            assert(view_fields(fs) =~= pre.drop_first());
            assert(pre[0] == (k@, val@));
        }
        if str_eq(k.as_str(), "logged_in") {
            if logged_in.is_none() {
                match val {
                    Json::Bool(b) => {
                        logged_in = Some(b);
                    },
                    _ => {
                        assert(lookup(orig, "logged_in"@) == Some(val@));
                        return Err(
                            NoetError::Extension(String::from_str("Failed to parse auth data")),
                        );
                    },
                }
            }
        } else if str_eq(k.as_str(), "username") {
            if username.is_none() {
                proof {
                    graw = val@;
                }
                match val {
                    Json::Null => {
                        username = Some(None);
                    },
                    Json::Str(s) => {
                        username = Some(Some(s));
                    },
                    _ => {
                        assert(lookup(orig, "username"@) == Some(graw));
                        return Err(
                            NoetError::Extension(String::from_str("Failed to parse auth data")),
                        );
                    },
                }
            }
        }
    }
    proof {
        assert(view_fields(fs) =~= Seq::<(Seq<char>, JsonV)>::empty());
    }
    match logged_in {
        Option::Some(b) => {
            let un = match username {
                Option::Some(u) => u,
                Option::None => None,
            };
            Ok(AuthStatusData { logged_in: b, username: un })
        },
        Option::None => Err(NoetError::Extension(String::from_str("Failed to parse auth data"))),
    }
}

/// One article as the peer reports it: only the title is owed; every
/// other field arrives when the page carries it.
pub struct ArticleData {
    pub key: Option<String>,
    pub title: String,
    pub html: Option<String>,
    pub tags: Option<Vec<String>>,
    pub status: Option<String>,
    pub date: Option<String>,
    pub published_at: Option<String>,
}

/// Model of an article payload.
pub struct ArticleDataV {
    pub key: Option<Seq<char>>,
    pub title: Seq<char>,
    pub html: Option<Seq<char>>,
    pub tags: Option<Seq<Seq<char>>>,
    pub status: Option<Seq<char>>,
    pub date: Option<Seq<char>>,
    pub published_at: Option<Seq<char>>,
}

impl View for ArticleData {
    type V = ArticleDataV;

    open spec fn view(&self) -> ArticleDataV {
        ArticleDataV {
            key: opt_string_view(self.key),
            title: self.title@,
            html: opt_string_view(self.html),
            tags: match self.tags {
                Option::None => None,
                Option::Some(ts) => Some(crate::article::strings_view(ts@)),
            },
            status: opt_string_view(self.status),
            date: opt_string_view(self.date),
            published_at: opt_string_view(self.published_at),
        }
    }
}

pub open spec fn opt_string_view(s: Option<String>) -> Option<Seq<char>> {
    match s {
        Option::None => None,
        Option::Some(x) => Some(x@),
    }
}

/// All strings, read in order.
pub open spec fn strs_of(es: Seq<JsonV>) -> Option<Seq<Seq<char>>>
    decreases es.len(),
{
    if es.len() == 0 {
        Some(Seq::empty())
    } else {
        match es[0] {
            JsonV::Str(s) => match strs_of(es.drop_first()) {
                Option::Some(rest) => Some(seq![s] + rest),
                Option::None => None,
            },
            _ => None,
        }
    }
}

/// An optional tag list: absent or null means none; an array must hold
/// strings only.
pub open spec fn opt_tags_of(v: JsonV) -> Option<Option<Seq<Seq<char>>>> {
    match v {
        JsonV::Null => Some(None),
        JsonV::Arr(es) => match strs_of(es) {
            Option::Some(ts) => Some(Some(ts)),
            Option::None => None,
        },
        _ => None,
    }
}

/// A field of the article payload that may be absent, null or a string.
pub open spec fn opt_field_of(fs: Seq<(Seq<char>, JsonV)>, key: Seq<char>) -> Option<
    Option<Seq<char>>,
> {
    match lookup(fs, key) {
        Option::None => Some(None),
        Option::Some(v) => opt_str_of(v),
    }
}

/// How an article payload reads: the title must be a string; `tags`, if
/// present, an array of strings or null; every other field an optional
/// string.
pub open spec fn article_of(v: JsonV) -> Option<ArticleDataV> {
    match v {
        JsonV::Obj(fs) => {
            match (
                lookup(fs, "title"@),
                opt_field_of(fs, "key"@),
                opt_field_of(fs, "html"@),
                opt_field_of(fs, "status"@),
                opt_field_of(fs, "date"@),
                opt_field_of(fs, "published_at"@),
            ) {
                (
                    Option::Some(JsonV::Str(title)),
                    Option::Some(key),
                    Option::Some(html),
                    Option::Some(status),
                    Option::Some(date),
                    Option::Some(published_at),
                ) => {
                    match lookup(fs, "tags"@) {
                        Option::None => Some(
                            ArticleDataV { key, title, html, tags: None, status, date, published_at },
                        ),
                        Option::Some(tv) => match opt_tags_of(tv) {
                            Option::Some(tags) => Some(
                                ArticleDataV { key, title, html, tags, status, date, published_at },
                            ),
                            Option::None => None,
                        },
                    }
                },
                _ => None,
            }
        },
        _ => None,
    }
}

/// Reads the strings of a JSON array, as `strs_of` describes.
fn strings_of_array(es: Vec<Json>) -> (r: Option<Vec<String>>)
    ensures
        match r {
            Option::Some(ts) => strs_of(view_elems(es)) == Some(crate::article::strings_view(ts@)),
            Option::None => strs_of(view_elems(es)) is None,
        },
{
    let ghost whole = view_elems(es);
    let mut rest = es;
    let mut out: Vec<String> = Vec::new();
    proof {
        assert(crate::article::strings_view(out@) =~= Seq::<Seq<char>>::empty());
    }
    #[verifier::loop_isolation(false)]
    while rest.len() > 0
        invariant
            match strs_of(view_elems(rest)) {
                Option::Some(suffix) => strs_of(whole) == Some(
                    crate::article::strings_view(out@) + suffix,
                ),
                Option::None => strs_of(whole) is None,
            },
        decreases rest@.len(),
    {
        let ghost pre = view_elems(rest);
        let v = rest.remove(0);
        proof {
            assert(view_elems(rest) =~= pre.drop_first());
            assert(pre[0] == v@);
        }
        match v {
            Json::Str(s) => {
                let ghost prev = crate::article::strings_view(out@);
                let ghost sv = s@;
                out.push(s);
                proof {
                    assert(crate::article::strings_view(out@) =~= prev + seq![sv]);
                    if strs_of(view_elems(rest)) is Some {
                        let suffix = strs_of(view_elems(rest)).unwrap();
                        assert(strs_of(pre) == Some(seq![sv] + suffix));
                        assert(prev + (seq![sv] + suffix) =~= crate::article::strings_view(out@)
                            + suffix);
                    }
                }
            },
            _ => {
                proof {
                    assert(strs_of(pre) is None);
                }
                return None;
            },
        }
    }
    proof {
        assert(view_elems(rest) =~= Seq::<JsonV>::empty());
        assert(strs_of(view_elems(rest)) == Some(Seq::<Seq<char>>::empty()));
        assert(crate::article::strings_view(out@) + Seq::<Seq<char>>::empty()
            =~= crate::article::strings_view(out@));
    }
    Some(out)
}

/// The article field names are pairwise distinct.
proof fn lemma_article_keys()
    ensures
        "title"@ != "key"@,
        "title"@ != "html"@,
        "title"@ != "tags"@,
        "title"@ != "status"@,
        "title"@ != "date"@,
        "title"@ != "published_at"@,
        "key"@ != "html"@,
        "key"@ != "tags"@,
        "key"@ != "status"@,
        "key"@ != "date"@,
        "key"@ != "published_at"@,
        "html"@ != "tags"@,
        "html"@ != "status"@,
        "html"@ != "date"@,
        "html"@ != "published_at"@,
        "tags"@ != "status"@,
        "tags"@ != "date"@,
        "tags"@ != "published_at"@,
        "status"@ != "date"@,
        "status"@ != "published_at"@,
        "date"@ != "published_at"@,
{
    reveal_strlit("title");
    reveal_strlit("key");
    reveal_strlit("html");
    reveal_strlit("tags");
    reveal_strlit("status");
    reveal_strlit("date");
    reveal_strlit("published_at");
    assert("title"@.len() == 5);
    assert("key"@.len() == 3);
    assert("html"@.len() == 4);
    assert("tags"@.len() == 4);
    assert("status"@.len() == 6);
    assert("date"@.len() == 4);
    assert("published_at"@.len() == 12);
    assert("html"@[0] == 'h' && "tags"@[0] == 't' && "date"@[0] == 'd');
}

/// Reads an article payload, as `article_of` describes; a payload of
/// any other shape is a decoding failure, distinct from a peer-reported
/// error.
#[verifier::rlimit(60)]
pub fn parse_article(data: Json) -> (r: Result<ArticleData, NoetError>)
    ensures
        match r {
            Result::Ok(a) => article_of(data@) == Some(a@),
            Result::Err(e) => article_of(data@) is None && e matches NoetError::Extension(_),
        },
{
    let ghost vv = data@;
    let mut fs = match data {
        Json::Obj(fs) => fs,
        _ => {
            return Err(NoetError::Extension(String::from_str("Failed to parse article")));
        },
    };
    let ghost orig = view_fields(fs);
    let mut title: Option<String> = None;
    let mut key: Option<Option<String>> = None;
    let mut html: Option<Option<String>> = None;
    let mut status: Option<Option<String>> = None;
    let mut date: Option<Option<String>> = None;
    let mut published_at: Option<Option<String>> = None;
    let mut tags: Option<Option<Vec<String>>> = None;
    let ghost mut gkey: JsonV = JsonV::Null;
    let ghost mut ghtml: JsonV = JsonV::Null;
    let ghost mut gstatus: JsonV = JsonV::Null;
    let ghost mut gdate: JsonV = JsonV::Null;
    let ghost mut gpub: JsonV = JsonV::Null;
    let ghost mut gtags: JsonV = JsonV::Null;
    #[verifier::loop_isolation(false)]
    while fs.len() > 0
        invariant
            vv == JsonV::Obj(orig),
            match title {
                Option::Some(s) => lookup(orig, "title"@) == Some(JsonV::Str(s@)),
                Option::None => lookup(orig, "title"@) == lookup(view_fields(fs), "title"@),
            },
            match key {
                Option::Some(u) => lookup(orig, "key"@) == Some(gkey) && opt_str_of(gkey) == Some(
                    opt_string_view(u),
                ),
                Option::None => lookup(orig, "key"@) == lookup(view_fields(fs), "key"@),
            },
            match html {
                Option::Some(u) => lookup(orig, "html"@) == Some(ghtml) && opt_str_of(ghtml)
                    == Some(opt_string_view(u)),
                Option::None => lookup(orig, "html"@) == lookup(view_fields(fs), "html"@),
            },
            match status {
                Option::Some(u) => lookup(orig, "status"@) == Some(gstatus) && opt_str_of(gstatus)
                    == Some(opt_string_view(u)),
                Option::None => lookup(orig, "status"@) == lookup(view_fields(fs), "status"@),
            },
            match date {
                Option::Some(u) => lookup(orig, "date"@) == Some(gdate) && opt_str_of(gdate)
                    == Some(opt_string_view(u)),
                Option::None => lookup(orig, "date"@) == lookup(view_fields(fs), "date"@),
            },
            match published_at {
                Option::Some(u) => lookup(orig, "published_at"@) == Some(gpub) && opt_str_of(gpub)
                    == Some(opt_string_view(u)),
                Option::None => lookup(orig, "published_at"@) == lookup(
                    view_fields(fs),
                    "published_at"@,
                ),
            },
            match tags {
                Option::Some(u) => lookup(orig, "tags"@) == Some(gtags) && opt_tags_of(gtags)
                    == Some(
                    match u {
                        Option::None => None,
                        Option::Some(ts) => Some(crate::article::strings_view(ts@)),
                    },
                ),
                Option::None => lookup(orig, "tags"@) == lookup(view_fields(fs), "tags"@),
            },
        decreases fs@.len(),
    {
        let ghost pre = view_fields(fs);
        let (k, val) = fs.remove(0);
        proof {
            lemma_article_keys();
            assert(view_fields(fs) =~= pre.drop_first());
            assert(pre[0] == (k@, val@));
        }
        if str_eq(k.as_str(), "title") {
            if title.is_none() {
                match val {
                    Json::Str(s) => {
                        title = Some(s);
                    },
                    _ => {
                        assert(lookup(orig, "title"@) == Some(val@));
                        return Err(
                            NoetError::Extension(String::from_str("Failed to parse article")),
                        );
                    },
                }
            }
        } else if str_eq(k.as_str(), "key") {
            if key.is_none() {
                proof {
                    gkey = val@;
                }
                match val {
                    Json::Null => {
                        key = Some(None);
                    },
                    Json::Str(s) => {
                        key = Some(Some(s));
                    },
                    _ => {
                        assert(lookup(orig, "key"@) == Some(gkey));
                        return Err(
                            NoetError::Extension(String::from_str("Failed to parse article")),
                        );
                    },
                }
            }
        } else if str_eq(k.as_str(), "html") {
            if html.is_none() {
                proof {
                    ghtml = val@;
                }
                match val {
                    Json::Null => {
                        html = Some(None);
                    },
                    Json::Str(s) => {
                        html = Some(Some(s));
                    },
                    _ => {
                        assert(lookup(orig, "html"@) == Some(ghtml));
                        return Err(
                            NoetError::Extension(String::from_str("Failed to parse article")),
                        );
                    },
                }
            }
        } else if str_eq(k.as_str(), "status") {
            if status.is_none() {
                proof {
                    gstatus = val@;
                }
                match val {
                    Json::Null => {
                        status = Some(None);
                    },
                    Json::Str(s) => {
                        status = Some(Some(s));
                    },
                    _ => {
                        assert(lookup(orig, "status"@) == Some(gstatus));
                        return Err(
                            NoetError::Extension(String::from_str("Failed to parse article")),
                        );
                    },
                }
            }
        } else if str_eq(k.as_str(), "date") {
            if date.is_none() {
                proof {
                    gdate = val@;
                }
                match val {
                    Json::Null => {
                        date = Some(None);
                    },
                    Json::Str(s) => {
                        date = Some(Some(s));
                    },
                    _ => {
                        assert(lookup(orig, "date"@) == Some(gdate));
                        return Err(
                            NoetError::Extension(String::from_str("Failed to parse article")),
                        );
                    },
                }
            }
        } else if str_eq(k.as_str(), "published_at") {
            if published_at.is_none() {
                proof {
                    gpub = val@;
                }
                match val {
                    Json::Null => {
                        published_at = Some(None);
                    },
                    Json::Str(s) => {
                        published_at = Some(Some(s));
                    },
                    _ => {
                        assert(lookup(orig, "published_at"@) == Some(gpub));
                        return Err(
                            NoetError::Extension(String::from_str("Failed to parse article")),
                        );
                    },
                }
            }
        } else if str_eq(k.as_str(), "tags") {
            if tags.is_none() {
                proof {
                    gtags = val@;
                }
                match val {
                    Json::Null => {
                        tags = Some(None);
                    },
                    Json::Arr(es) => {
                        match strings_of_array(es) {
                            Option::Some(ts) => {
                                tags = Some(Some(ts));
                            },
                            Option::None => {
                                assert(lookup(orig, "tags"@) == Some(gtags));
                                assert(opt_tags_of(gtags) is None);
                                return Err(
                                    NoetError::Extension(
                                        String::from_str("Failed to parse article"),
                                    ),
                                );
                            },
                        }
                    },
                    _ => {
                        assert(lookup(orig, "tags"@) == Some(gtags));
                        return Err(
                            NoetError::Extension(String::from_str("Failed to parse article")),
                        );
                    },
                }
            }
        }
    }
    proof {
        lemma_article_keys();
        assert(view_fields(fs) =~= Seq::<(Seq<char>, JsonV)>::empty());
    }
    match title {
        Option::Some(t) => {
            let a = ArticleData {
                key: flatten_opt(key),
                title: t,
                html: flatten_opt(html),
                tags: match tags {
                    Option::Some(u) => u,
                    Option::None => None,
                },
                status: flatten_opt(status),
                date: flatten_opt(date),
                published_at: flatten_opt(published_at),
            };
            Ok(a)
        },
        Option::None => Err(NoetError::Extension(String::from_str("Failed to parse article"))),
    }
}

/// The article list a peer reports: the articles and how many there
/// are, as it counted them.
pub struct ArticleListData {
    pub articles: Vec<ArticleData>,
    pub count: usize,
}

/// The views of a list of articles.
pub open spec fn articles_view(v: Seq<ArticleData>) -> Seq<ArticleDataV> {
    Seq::new(v.len(), |i: int| v[i]@)
}

/// All articles, read in order.
pub open spec fn articles_of(es: Seq<JsonV>) -> Option<Seq<ArticleDataV>>
    decreases es.len(),
{
    if es.len() == 0 {
        Some(Seq::empty())
    } else {
        match article_of(es[0]) {
            Option::Some(a) => match articles_of(es.drop_first()) {
                Option::Some(rest) => Some(seq![a] + rest),
                Option::None => None,
            },
            Option::None => None,
        }
    }
}

/// How an article-list payload reads: `articles` must be an array of
/// article payloads and `count` a number that fits the machine.
pub open spec fn article_list_of(v: JsonV) -> Option<(Seq<ArticleDataV>, int)> {
    match v {
        JsonV::Obj(fs) => {
            match (lookup(fs, "articles"@), lookup(fs, "count"@)) {
                (Option::Some(JsonV::Arr(es)), Option::Some(JsonV::Int(n))) => {
                    if 0 <= n <= usize::MAX {
                        match articles_of(es) {
                            Option::Some(arts) => Some((arts, n)),
                            Option::None => None,
                        }
                    } else {
                        None
                    }
                },
                _ => None,
            }
        },
        _ => None,
    }
}

/// Reads an article-list payload, as `article_list_of` describes.
pub fn parse_article_list(data: Json) -> (r: Result<ArticleListData, NoetError>)
    ensures
        match r {
            Result::Ok(l) => article_list_of(data@) == Some(
                (articles_view(l.articles@), l.count as int),
            ),
            Result::Err(e) => article_list_of(data@) is None && e matches NoetError::Extension(_),
        },
{
    let ghost vv = data@;
    let mut fs = match data {
        Json::Obj(fs) => fs,
        _ => {
            return Err(NoetError::Extension(String::from_str("Failed to parse article list")));
        },
    };
    let ghost orig = view_fields(fs);
    let mut arts: Option<Vec<Json>> = None;
    let mut count: Option<usize> = None;
    let ghost mut garts: JsonV = JsonV::Null;
    #[verifier::loop_isolation(false)]
    while fs.len() > 0
        invariant
            vv == JsonV::Obj(orig),
            match arts {
                Option::Some(es) => lookup(orig, "articles"@) == Some(
                    JsonV::Arr(view_elems(es)),
                ),
                Option::None => lookup(orig, "articles"@) == lookup(
                    view_fields(fs),
                    "articles"@,
                ),
            },
            match count {
                Option::Some(n) => lookup(orig, "count"@) == Some(JsonV::Int(n as int)),
                Option::None => lookup(orig, "count"@) == lookup(view_fields(fs), "count"@),
            },
        decreases fs@.len(),
    {
        let ghost pre = view_fields(fs);
        let (k, val) = fs.remove(0);
        proof {
            lemma_list_keys();
            assert(view_fields(fs) =~= pre.drop_first());
            assert(pre[0] == (k@, val@));
        }
        if str_eq(k.as_str(), "articles") {
            if arts.is_none() {
                proof {
                    garts = val@;
                }
                match val {
                    Json::Arr(es) => {
                        arts = Some(es);
                    },
                    _ => {
                        assert(lookup(orig, "articles"@) == Some(garts));
                        return Err(
                            NoetError::Extension(String::from_str("Failed to parse article list")),
                        );
                    },
                }
            }
        } else if str_eq(k.as_str(), "count") {
            if count.is_none() {
                match val {
                    Json::Int(n) => {
                        if n >= 0 && (n as u64) <= (usize::MAX as u64) {
                            count = Some(n as usize);
                            proof {
                                assert((count->0 as i64) == n);
                            }
                        } else {
                            assert(lookup(orig, "count"@) == Some(val@));
                            return Err(
                                NoetError::Extension(
                                    String::from_str("Failed to parse article list"),
                                ),
                            );
                        }
                    },
                    _ => {
                        assert(lookup(orig, "count"@) == Some(val@));
                        return Err(
                            NoetError::Extension(String::from_str("Failed to parse article list")),
                        );
                    },
                }
            }
        }
    }
    proof {
        lemma_list_keys();
        assert(view_fields(fs) =~= Seq::<(Seq<char>, JsonV)>::empty());
    }
    match (arts, count) {
        (Option::Some(es), Option::Some(n)) => {
            let ghost esv = view_elems(es);
            let mut rest = es;
            let mut out: Vec<ArticleData> = Vec::new();
            proof {
                assert(articles_view(out@) =~= Seq::<ArticleDataV>::empty());
            }
            #[verifier::loop_isolation(false)]
            while rest.len() > 0
                invariant
                    match articles_of(view_elems(rest)) {
                        Option::Some(suffix) => articles_of(esv) == Some(
                            articles_view(out@) + suffix,
                        ),
                        Option::None => articles_of(esv) is None,
                    },
                decreases rest@.len(),
            {
                let ghost pre = view_elems(rest);
                let v = rest.remove(0);
                proof {
                    assert(view_elems(rest) =~= pre.drop_first());
                    assert(pre[0] == v@);
                }
                match parse_article(v) {
                    Result::Ok(a) => {
                        let ghost prev = articles_view(out@);
                        let ghost av = a@;
                        out.push(a);
                        proof {
                            assert(articles_view(out@) =~= prev.push(av));
                            if articles_of(view_elems(rest)) is Some {
                                let suffix = articles_of(view_elems(rest)).unwrap();
                                assert(articles_of(pre) == Some(seq![av] + suffix));
                                assert(prev + (seq![av] + suffix) =~= articles_view(out@)
                                    + suffix);
                            }
                        }
                    },
                    Result::Err(_) => {
                        proof {
                            assert(articles_of(pre) is None);
                        }
                        return Err(
                            NoetError::Extension(String::from_str("Failed to parse article list")),
                        );
                    },
                }
            }
            proof {
                assert(view_elems(rest) =~= Seq::<JsonV>::empty());
                assert(articles_of(view_elems(rest)) == Some(Seq::<ArticleDataV>::empty()));
                assert(articles_view(out@) + Seq::<ArticleDataV>::empty() =~= articles_view(out@));
            }
            Ok(ArticleListData { articles: out, count: n })
        },
        _ => Err(NoetError::Extension(String::from_str("Failed to parse article list"))),
    }
}

/// The list field names are distinct.
proof fn lemma_list_keys()
    ensures
        "articles"@ != "count"@,
{
    reveal_strlit("articles");
    reveal_strlit("count");
    assert("articles"@.len() == 8);
    assert("count"@.len() == 5);
}

/// A field never seen reads as absent.
fn flatten_opt(o: Option<Option<String>>) -> (r: Option<String>)
    ensures
        r == (match o {
            Option::Some(u) => u,
            Option::None => None::<String>,
        }),
{
    match o {
        Option::Some(u) => u,
        Option::None => None,
    }
}

// ---------------------------------------------------------------------------
// Params each typed command sends.
// ---------------------------------------------------------------------------

/// The params of a `get_article` call.
pub open spec fn get_article_params(username: Seq<char>, key: Seq<char>) -> JsonV {
    JsonV::Obj(seq![("username"@, JsonV::Str(username)), ("key"@, JsonV::Str(key))])
}

/// Builds the params of a `get_article` call.
pub fn make_get_article_params(username: &str, key: &str) -> (r: Json)
    ensures
        r@ == get_article_params(username@, key@),
{
    let mut fs: Vec<(String, Json)> = Vec::new();
    fs.push((String::from_str("username"), Json::Str(String::from_str(username))));
    fs.push((String::from_str("key"), Json::Str(String::from_str(key))));
    proof {
        assert(fs@[0].1.view() == JsonV::Str(username@));
        assert(fs@[1].1.view() == JsonV::Str(key@));
        assert(view_fields(fs) =~= seq![
            ("username"@, JsonV::Str(username@)),
            ("key"@, JsonV::Str(key@)),
        ]);
    }
    Json::Obj(fs)
}

/// The params of a `delete_article` call.
pub open spec fn delete_article_params(key: Seq<char>) -> JsonV {
    JsonV::Obj(seq![("key"@, JsonV::Str(key))])
}

/// Builds the params of a `delete_article` call.
pub fn make_delete_article_params(key: &str) -> (r: Json)
    ensures
        r@ == delete_article_params(key@),
{
    let mut fs: Vec<(String, Json)> = Vec::new();
    fs.push((String::from_str("key"), Json::Str(String::from_str(key))));
    proof {
        assert(fs@[0].1.view() == JsonV::Str(key@));
        assert(view_fields(fs) =~= seq![("key"@, JsonV::Str(key@))]);
    }
    Json::Obj(fs)
}

/// The params of a `set_debug_mode` call.
pub open spec fn set_debug_mode_params(enabled: bool) -> JsonV {
    JsonV::Obj(seq![("enabled"@, JsonV::Bool(enabled))])
}

/// Builds the params of a `set_debug_mode` call.
pub fn make_set_debug_mode_params(enabled: bool) -> (r: Json)
    ensures
        r@ == set_debug_mode_params(enabled),
{
    let mut fs: Vec<(String, Json)> = Vec::new();
    fs.push((String::from_str("enabled"), Json::Bool(enabled)));
    proof {
        assert(fs@[0].1.view() == JsonV::Bool(enabled));
        assert(view_fields(fs) =~= seq![("enabled"@, JsonV::Bool(enabled))]);
    }
    Json::Obj(fs)
}

/// The view of a tag list.
pub open spec fn strs_view(v: Seq<String>) -> Seq<Seq<char>> {
    Seq::new(v.len(), |i: int| if 0 <= i < v.len() { v[i]@ } else { Seq::empty() })
}

/// A JSON array of the given strings.
pub fn make_string_array(items: &Vec<String>) -> (r: Json)
    ensures
        r@ == JsonV::Arr(Seq::new(items@.len(), |i: int| JsonV::Str(strs_view(items@)[i]))),
{
    let n = items.len();
    let mut es: Vec<Json> = Vec::new();
    let mut k: usize = 0;
    #[verifier::loop_isolation(false)]
    while k < n
        invariant
            n == items@.len(),
            k <= n,
            view_elems(es) =~= Seq::new(k as nat, |i: int| JsonV::Str(strs_view(items@)[i])),
        decreases n - k,
    {
        let ghost pre = view_elems(es);
        es.push(Json::Str(items[k].clone()));
        proof {
            assert(view_elems(es) =~= pre.push(JsonV::Str(items@[k as int]@)));
            assert(view_elems(es) =~= Seq::new((k + 1) as nat, |i: int| JsonV::Str(strs_view(items@)[i])));
        }
        k += 1;
    }
    Json::Arr(es)
}

/// The params of a `create_article` call.
pub open spec fn create_article_params(
    title: Seq<char>,
    body: Seq<char>,
    tags: Seq<Seq<char>>,
    draft: bool,
) -> JsonV {
    JsonV::Obj(
        seq![
            ("title"@, JsonV::Str(title)),
            ("body"@, JsonV::Str(body)),
            ("tags"@, JsonV::Arr(Seq::new(tags.len(), |i: int| JsonV::Str(tags[i])))),
            ("draft"@, JsonV::Bool(draft)),
        ],
    )
}

/// Builds the params of a `create_article` call.
pub fn make_create_article_params(title: &str, body: &str, tags: &Vec<String>, draft: bool) -> (r:
    Json)
    ensures
        r@ == create_article_params(title@, body@, strs_view(tags@), draft),
{
    let tags_json = make_string_array(tags);
    let mut fs: Vec<(String, Json)> = Vec::new();
    fs.push((String::from_str("title"), Json::Str(String::from_str(title))));
    fs.push((String::from_str("body"), Json::Str(String::from_str(body))));
    fs.push((String::from_str("tags"), tags_json));
    fs.push((String::from_str("draft"), Json::Bool(draft)));
    proof {
        assert(fs@[0].1.view() == JsonV::Str(title@));
        assert(fs@[1].1.view() == JsonV::Str(body@));
        assert(fs@[3].1.view() == JsonV::Bool(draft));
        assert(view_fields(fs) =~= create_article_params(
            title@,
            body@,
            strs_view(tags@),
            draft,
        )->Obj_0);
    }
    Json::Obj(fs)
}

/// The params of an `update_article` call: `tags` ride along only when
/// the caller supplies them.
pub open spec fn update_article_params(
    key: Seq<char>,
    title: Seq<char>,
    body: Seq<char>,
    tags: Option<Seq<Seq<char>>>,
    draft: bool,
) -> JsonV {
    JsonV::Obj(
        seq![
            ("key"@, JsonV::Str(key)),
            ("title"@, JsonV::Str(title)),
            ("body"@, JsonV::Str(body)),
            ("draft"@, JsonV::Bool(draft)),
        ] + match tags {
            Option::None => Seq::empty(),
            Option::Some(ts) => seq![
                ("tags"@, JsonV::Arr(Seq::new(ts.len(), |i: int| JsonV::Str(ts[i])))),
            ],
        },
    )
}

/// Builds the params of an `update_article` call.
pub fn make_update_article_params(
    key: &str,
    title: &str,
    body: &str,
    tags: Option<&Vec<String>>,
    draft: bool,
) -> (r: Json)
    ensures
        r@ == update_article_params(key@, title@, body@, match tags {
            Option::None => None,
            Option::Some(ts) => Some(strs_view(ts@)),
        }, draft),
{
    let mut fs: Vec<(String, Json)> = Vec::new();
    fs.push((String::from_str("key"), Json::Str(String::from_str(key))));
    fs.push((String::from_str("title"), Json::Str(String::from_str(title))));
    fs.push((String::from_str("body"), Json::Str(String::from_str(body))));
    fs.push((String::from_str("draft"), Json::Bool(draft)));
    proof {
        assert(fs@[0].1.view() == JsonV::Str(key@));
        assert(fs@[1].1.view() == JsonV::Str(title@));
        assert(fs@[2].1.view() == JsonV::Str(body@));
        assert(fs@[3].1.view() == JsonV::Bool(draft));
    }
    match tags {
        Option::None => {
            proof {
                assert(view_fields(fs) =~= update_article_params(
                    key@,
                    title@,
                    body@,
                    None,
                    draft,
                )->Obj_0);
            }
            Json::Obj(fs)
        },
        Option::Some(ts) => {
            let tags_json = make_string_array(ts);
            fs.push((String::from_str("tags"), tags_json));
            proof {
                assert(view_fields(fs) =~= update_article_params(
                    key@,
                    title@,
                    body@,
                    Some(strs_view(ts@)),
                    draft,
                )->Obj_0);
            }
            Json::Obj(fs)
        },
    }
}

} // verus!