//! The broker core, exercised end to end: envelope round trips, the
//! framed stream, the correlation table, and both dispatchers.

use noet::client::{
    accept_timeout_error, build_request, command_timeout_error, handle_incoming_text,
    interpret_response, make_create_article_params, make_get_article_params, new_request_id,
    parse_auth_status, ping_version, ACCEPT_TIMEOUT_SECS, COMMAND_TIMEOUT_SECS, WEBSOCKET_PORT,
};
use noet::envelope::{
    decode_request, decode_response, encode_request, encode_response, ExtensionError, Request,
    Response, Status,
};
use noet::errors::NoetError;
use noet::frame::{read_frame, write_frame, write_response_frame, FrameRead};
use noet::host::{handle_command, process_session, HostEnd};
use noet::json::{json_encode, json_parse_text, Json};
use noet::table::CorrelationTable;

fn obj(fields: Vec<(&str, Json)>) -> Json {
    Json::Obj(fields.into_iter().map(|(k, v)| (k.to_string(), v)).collect())
}

fn s(t: &str) -> Json {
    Json::Str(t.to_string())
}

#[test]
fn json_encode_matches_compact_form() {
    let v = obj(vec![
        ("id", s("abc")),
        ("n", Json::Int(-42)),
        ("ok", Json::Bool(true)),
        ("none", Json::Null),
        ("xs", Json::Arr(vec![Json::Int(1), Json::Int(2)])),
    ]);
    assert_eq!(
        json_encode(&v),
        r#"{"id":"abc","n":-42,"ok":true,"none":null,"xs":[1,2]}"#
    );
}

#[test]
fn json_encode_escapes_strings() {
    let v = s("a\"b\\c\nd\te\r");
    assert_eq!(json_encode(&v), "\"a\\\"b\\\\c\\nd\\te\\r\"");
}

#[test]
fn json_parse_round_trips_encoder_output() {
    let v = obj(vec![
        ("title", s("日本語 タイトル")),
        ("count", Json::Int(9007199254740991)),
        ("neg", Json::Int(i64::MIN)),
        ("tags", Json::Arr(vec![s("a"), s("b, c")])),
        ("inner", obj(vec![("deep", Json::Arr(vec![Json::Null]))])),
    ]);
    let text = json_encode(&v);
    let back = json_parse_text(&text).expect("the encoder's output must parse");
    assert_eq!(json_encode(&back), text);
}

#[test]
fn json_parse_agrees_with_reference_parser() {
    // what our encoder writes, the reference JSON parser reads the same way
    let v = obj(vec![
        ("id", s("x\"y\\z\n")),
        ("n", Json::Int(-7)),
        ("b", Json::Bool(false)),
        ("u", Json::Null),
    ]);
    let text = json_encode(&v);
    let reference: serde_json::Value = serde_json::from_str(&text).expect("valid JSON");
    assert_eq!(reference["id"], serde_json::Value::String("x\"y\\z\n".to_string()));
    assert_eq!(reference["n"], serde_json::Value::from(-7i64));
    assert_eq!(reference["b"], serde_json::Value::Bool(false));
    assert!(reference["u"].is_null());
    // and what the reference serializer writes compactly, our parser reads
    let compact = serde_json::to_string(&reference).expect("serializable");
    assert!(json_parse_text(&compact).is_some());
}

#[test]
fn json_parse_accepts_whitespace_between_tokens() {
    let v = json_parse_text(" { \"a\" : [ 1 , 2 ] , \"b\" : null } ").unwrap();
    assert_eq!(json_encode(&v), r#"{"a":[1,2],"b":null}"#);
    let w = json_parse_text("\t[ ]\r\n").unwrap();
    assert_eq!(json_encode(&w), "[]");
}

#[test]
fn json_parse_accepts_all_standard_escapes() {
    // solidus, named controls, hex escapes of both cases
    let v = json_parse_text(r#""a\/b\u0041\b\f\u00E9""#).unwrap();
    assert_eq!(
        json_encode(&v),
        "\"a/bA\\u0008\\u000c\u{e9}\""
    );
    // a surrogate pair names one astral character
    let w = json_parse_text(r#""😀""#).unwrap();
    assert_eq!(json_encode(&w), "\"\u{1F600}\"");
    // a lone surrogate names nothing
    assert!(json_parse_text(r#""\uD800""#).is_none());
    assert!(json_parse_text(r#""\uDC00x""#).is_none());
}

#[test]
fn json_parse_keeps_non_machine_numbers_as_text() {
    for text in ["1.5", "-0.25", "1e10", "-2.5E+3", "99999999999999999999", "9223372036854775808"]
    {
        let v = json_parse_text(text).expect("standard number syntax");
        assert!(matches!(v, Json::Num(_)), "{text} stays textual");
        assert_eq!(json_encode(&v), text);
    }
    // the i64 boundaries still become machine integers
    assert!(matches!(
        json_parse_text("9223372036854775807"),
        Some(Json::Int(i64::MAX))
    ));
    assert!(matches!(
        json_parse_text("-9223372036854775808"),
        Some(Json::Int(i64::MIN))
    ));
    // and number syntax stays strict
    assert!(json_parse_text("01").is_none());
    assert!(json_parse_text("1.").is_none());
    assert!(json_parse_text("1e").is_none());
    assert!(json_parse_text("+1").is_none());
}

#[test]
fn control_characters_in_strings_round_trip_escaped() {
    let v = Json::Str("a\u{1}b\u{1f}c".to_string());
    let text = json_encode(&v);
    assert_eq!(text, r#""a\u0001b\u001fc""#);
    let back = json_parse_text(&text).unwrap();
    assert_eq!(json_encode(&back), text);
}

#[test]
fn response_with_fractional_data_is_accepted() {
    let r = decode_response(r#"{ "id" : "a" , "status" : "success" , "data" : 1.5 }"#)
        .expect("a conforming reply with a fractional payload");
    assert_eq!(r.id, "a");
    assert_eq!(r.status, Status::Success);
    match r.data {
        Some(Json::Num(t)) => assert_eq!(t, "1.5"),
        _ => panic!("the payload is kept as its text"),
    }
}

#[test]
fn json_parse_rejects_malformed_text() {
    assert!(json_parse_text("{\"a\":1").is_none());
    assert!(json_parse_text("[1,2,]").is_none());
    assert!(json_parse_text("hello").is_none());
    assert!(json_parse_text("").is_none());
    assert!(json_parse_text("{\"a\":1}x").is_none());
}

fn response_eq(a: &Response, b: &Response) -> bool {
    // the wire form is injective on responses, so compare there
    let ta = encode_response(Response {
        id: a.id.clone(),
        status: a.status,
        data: a.data.as_ref().map(clone_json),
        error: a.error.as_ref().map(|e| ExtensionError {
            code: e.code.clone(),
            message: e.message.clone(),
        }),
    });
    let tb = encode_response(Response {
        id: b.id.clone(),
        status: b.status,
        data: b.data.as_ref().map(clone_json),
        error: b.error.as_ref().map(|e| ExtensionError {
            code: e.code.clone(),
            message: e.message.clone(),
        }),
    });
    ta == tb
}

fn clone_json(v: &Json) -> Json {
    json_parse_text(&json_encode(v)).expect("round trip")
}

#[test]
fn response_round_trips_all_field_combinations() {
    let datas: Vec<Option<Json>> = vec![
        None,
        Some(obj(vec![("version", s("1.2.3"))])),
    ];
    let errors: Vec<Option<(&str, &str)>> = vec![None, Some(("E_CODE", "went wrong"))];
    for st in [Status::Success, Status::Error] {
        for d in &datas {
            for e in &errors {
                let r = Response {
                    id: "id-1".to_string(),
                    status: st,
                    data: d.as_ref().map(clone_json),
                    error: e.map(|(c, m)| ExtensionError {
                        code: c.to_string(),
                        message: m.to_string(),
                    }),
                };
                let text = encode_response(Response {
                    id: r.id.clone(),
                    status: r.status,
                    data: r.data.as_ref().map(clone_json),
                    error: r.error.as_ref().map(|x| ExtensionError {
                        code: x.code.clone(),
                        message: x.message.clone(),
                    }),
                });
                let back = decode_response(&text).expect("a written response reads back");
                assert!(response_eq(&r, &back));
            }
        }
    }
}

#[test]
fn request_round_trips_with_and_without_params() {
    for params in [None, Some(obj(vec![("key", s("k1"))]))] {
        let req = Request {
            id: "r-9".to_string(),
            command: "get_article".to_string(),
            params,
        };
        let text = encode_request(Request {
            id: req.id.clone(),
            command: req.command.clone(),
            params: req.params.as_ref().map(clone_json),
        });
        let back = decode_request(&text).expect("a written request reads back");
        assert_eq!(back.id, req.id);
        assert_eq!(back.command, req.command);
        assert_eq!(back.params.is_some(), req.params.is_some());
    }
}

#[test]
fn response_decoder_takes_fields_in_any_order_and_ignores_extras() {
    let text = r#"{"extra":[1,2],"status":"success","data":{"version":"9"},"id":"z"}"#;
    let r = decode_response(text).expect("well-formed response");
    assert_eq!(r.id, "z");
    assert_eq!(r.status, Status::Success);
    assert_eq!(ping_version(r.data), "9");
}

#[test]
fn response_decoder_rejects_unknown_status_words() {
    assert!(decode_response(r#"{"id":"a","status":"ok"}"#).is_none());
    assert!(decode_response(r#"{"id":"a"}"#).is_none());
    assert!(decode_response(r#"{"status":"error"}"#).is_none());
}

// --------------------------------------------------------------------------
// The correlation table: multiplexing, discards, timeouts.
// --------------------------------------------------------------------------

#[test]
fn concurrent_callers_each_get_their_own_response() {
    let mut table: CorrelationTable<u64> = CorrelationTable::new();
    assert!(table.register("id-a".to_string(), 1));
    assert!(table.register("id-b".to_string(), 2));
    assert!(table.register("id-c".to_string(), 3));
    assert_eq!(table.len(), 3);
    // resolutions arrive out of order; each id finds exactly its slot
    assert_eq!(table.resolve(&"id-b".to_string()), Some(2));
    assert_eq!(table.resolve(&"id-c".to_string()), Some(3));
    assert_eq!(table.resolve(&"id-a".to_string()), Some(1));
    assert_eq!(table.len(), 0);
}

#[test]
fn duplicate_registration_is_refused() {
    let mut table: CorrelationTable<u64> = CorrelationTable::new();
    assert!(table.register("same".to_string(), 1));
    assert!(!table.register("same".to_string(), 2));
    assert_eq!(table.resolve(&"same".to_string()), Some(1));
}

#[test]
fn unmatched_response_is_discarded_and_changes_nothing() {
    let mut table: CorrelationTable<u64> = CorrelationTable::new();
    assert!(table.register("known".to_string(), 7));
    assert_eq!(table.resolve(&"stranger".to_string()), None);
    assert_eq!(table.len(), 1);
    assert_eq!(table.resolve(&"known".to_string()), Some(7));
}

#[test]
fn timeout_abandons_entry_and_late_response_is_discarded() {
    let mut table: CorrelationTable<u64> = CorrelationTable::new();
    assert!(table.register("x".to_string(), 11));
    // the command deadline passes: the entry is withdrawn
    assert!(table.abandon(&"x".to_string()));
    assert_eq!(table.len(), 0);
    // a late response for x finds nothing
    assert_eq!(table.resolve(&"x".to_string()), None);
    // the timeout failure callers see is a distinct kind
    assert!(matches!(command_timeout_error(), NoetError::Timeout(_)));
    assert_eq!(COMMAND_TIMEOUT_SECS, 60);
}

#[test]
fn reader_loop_step_resolves_matching_id_only() {
    let mut table: CorrelationTable<u64> = CorrelationTable::new();
    assert!(table.register("want".to_string(), 5));
    // a malformed frame is dropped
    assert!(handle_incoming_text(&mut table, "not json").is_none());
    assert_eq!(table.len(), 1);
    // a response for someone else is discarded
    assert!(handle_incoming_text(&mut table, r#"{"id":"other","status":"success"}"#).is_none());
    assert_eq!(table.len(), 1);
    // the matching response hands back exactly the registered slot
    let (slot, resp) =
        handle_incoming_text(&mut table, r#"{"id":"want","status":"success"}"#).unwrap();
    assert_eq!(slot, 5);
    assert_eq!(resp.id, "want");
    assert_eq!(table.len(), 0);
}

// --------------------------------------------------------------------------
// Scenario: a ping over the socket transport.
// --------------------------------------------------------------------------

#[test]
fn ping_reply_yields_the_peer_version() {
    let mut table: CorrelationTable<u64> = CorrelationTable::new();
    let id = new_request_id();
    assert_eq!(id.chars().count(), 36);
    let req = build_request(id.clone(), "ping", None);
    let wire = encode_request(req);
    assert!(wire.contains("\"command\":\"ping\""));
    assert!(table.register(id.clone(), 1));
    // the peer answers with the same id and a version payload
    let reply = format!(
        r#"{{"id":"{}","status":"success","data":{{"version":"1.2.3"}}}}"#,
        id
    );
    let (_slot, resp) = handle_incoming_text(&mut table, &reply).expect("resolved");
    let data = interpret_response(resp).expect("no remote error");
    assert_eq!(ping_version(data), "1.2.3");
}

#[test]
fn success_without_payload_is_a_decoding_error() {
    // a success reply that carries no data fails the typed calls with a
    // distinct decoding error, not a remote error and not a success
    let resp = decode_response(r#"{"id":"q","status":"success"}"#).unwrap();
    let data = interpret_response(resp).expect("no remote error was reported");
    match noet::client::require_payload(data) {
        Err(NoetError::Extension(m)) => assert_eq!(m, "No data in response"),
        _ => panic!("an absent payload is a decoding failure"),
    }
    let resp2 = decode_response(r#"{"id":"q","status":"success","data":{}}"#).unwrap();
    let data2 = interpret_response(resp2).unwrap();
    assert!(noet::client::require_payload(data2).is_ok());
}

#[test]
fn remote_error_reaches_the_caller_verbatim() {
    let resp = decode_response(
        r#"{"id":"q","status":"error","error":{"code":"NOT_FOUND","message":"no such article"}}"#,
    )
    .unwrap();
    match interpret_response(resp) {
        Err(NoetError::Remote { code, message }) => {
            assert_eq!(code, "NOT_FOUND");
            assert_eq!(message, "no such article");
        }
        other => panic!("expected a remote error, got {:?}", other.is_ok()),
    }
}

#[test]
fn error_status_without_payload_still_succeeds() {
    let resp = decode_response(r#"{"id":"q","status":"error"}"#).unwrap();
    assert!(interpret_response(resp).is_ok());
}

#[test]
fn accept_timeout_names_the_missing_peer() {
    match accept_timeout_error() {
        NoetError::Network(m) => assert!(m.contains("no peer connected")),
        _ => panic!("the accept timeout is a network failure"),
    }
    assert_eq!(ACCEPT_TIMEOUT_SECS, 30);
    assert_eq!(WEBSOCKET_PORT, 9876);
}

#[test]
fn get_article_params_carry_username_and_key() {
    let p = make_get_article_params("alice", "k1");
    assert_eq!(json_encode(&p), r#"{"username":"alice","key":"k1"}"#);
    let c = make_create_article_params("T", "B", &vec!["a".to_string(), "b".to_string()], true);
    assert_eq!(
        json_encode(&c),
        r#"{"title":"T","body":"B","tags":["a","b"],"draft":true}"#
    );
}

#[test]
fn auth_status_parses_both_shapes() {
    let d = json_parse_text(r#"{"logged_in":true,"username":"alice"}"#).unwrap();
    let a = parse_auth_status(d).unwrap();
    assert!(a.logged_in);
    assert_eq!(a.username, Some("alice".to_string()));
    let d2 = json_parse_text(r#"{"logged_in":false,"username":null}"#).unwrap();
    let a2 = parse_auth_status(d2).unwrap();
    assert!(!a2.logged_in);
    assert_eq!(a2.username, None);
    let d3 = json_parse_text(r#"{"username":"x"}"#).unwrap();
    assert!(parse_auth_status(d3).is_err());
}

#[test]
fn article_payload_parses_every_optional_field() {
    let d = json_parse_text(
        r#"{"title":"T","key":"k1","html":"<p>x</p>","tags":["a","b"],"status":"draft","date":null}"#,
    )
    .unwrap();
    let a = noet::client::parse_article(d).unwrap();
    assert_eq!(a.title, "T");
    assert_eq!(a.key, Some("k1".to_string()));
    assert_eq!(a.html, Some("<p>x</p>".to_string()));
    assert_eq!(a.tags, Some(vec!["a".to_string(), "b".to_string()]));
    assert_eq!(a.status, Some("draft".to_string()));
    assert_eq!(a.date, None);
    assert_eq!(a.published_at, None);
    // a missing title or a non-string tag is no article payload
    let bad = json_parse_text(r#"{"key":"k1"}"#).unwrap();
    assert!(noet::client::parse_article(bad).is_err());
    let bad2 = json_parse_text(r#"{"title":"T","tags":[1]}"#).unwrap();
    assert!(noet::client::parse_article(bad2).is_err());
}

#[test]
fn article_list_payload_parses_articles_and_count() {
    let d = json_parse_text(
        r#"{"articles":[{"title":"A","key":"k1"},{"title":"B"}],"count":2}"#,
    )
    .unwrap();
    let l = noet::client::parse_article_list(d).unwrap();
    assert_eq!(l.count, 2);
    assert_eq!(l.articles.len(), 2);
    assert_eq!(l.articles[0].title, "A");
    assert_eq!(l.articles[0].key, Some("k1".to_string()));
    assert_eq!(l.articles[1].title, "B");
    let bad = json_parse_text(r#"{"articles":[{"key":"k"}],"count":1}"#).unwrap();
    assert!(noet::client::parse_article_list(bad).is_err());
    let bad2 = json_parse_text(r#"{"articles":[],"count":-1}"#).unwrap();
    assert!(noet::client::parse_article_list(bad2).is_err());
}

// --------------------------------------------------------------------------
// The framed stream: framing, clean shutdown, the host loop.
// --------------------------------------------------------------------------

#[test]
fn frame_round_trips_a_body() {
    let body = b"hello frame".to_vec();
    let mut out: Vec<u8> = Vec::new();
    assert!(write_frame(&body, &mut out));
    assert_eq!(out.len(), 4 + body.len());
    assert_eq!(&out[0..4], &[11, 0, 0, 0]);
    match read_frame(&out, 0) {
        FrameRead::Frame(b, next) => {
            assert_eq!(b, body);
            assert_eq!(next, out.len());
        }
        _ => panic!("one complete frame was written"),
    }
}

#[test]
fn clean_shutdown_at_boundary_and_truncation_mid_prefix() {
    let empty: Vec<u8> = Vec::new();
    assert!(matches!(read_frame(&empty, 0), FrameRead::CleanEof));
    for n in 1..4usize {
        let partial: Vec<u8> = vec![0; n];
        assert!(
            matches!(read_frame(&partial, 0), FrameRead::Truncated),
            "{n} bytes of a 4-byte prefix are a truncation"
        );
    }
    // a prefix promising more than the stream holds is a truncation too
    let short: Vec<u8> = vec![5, 0, 0, 0, b'a'];
    assert!(matches!(read_frame(&short, 0), FrameRead::Truncated));
}

#[test]
fn framed_response_reads_back_equal() {
    let r = Response {
        id: "f-1".to_string(),
        status: Status::Error,
        data: Some(obj(vec![("k", Json::Int(3))])),
        error: Some(ExtensionError {
            code: "C".to_string(),
            message: "m".to_string(),
        }),
    };
    let expected = encode_response(Response {
        id: r.id.clone(),
        status: r.status,
        data: r.data.as_ref().map(clone_json),
        error: r.error.as_ref().map(|e| ExtensionError {
            code: e.code.clone(),
            message: e.message.clone(),
        }),
    });
    let mut out: Vec<u8> = Vec::new();
    assert!(write_response_frame(r, &mut out));
    match read_frame(&out, 0) {
        FrameRead::Frame(body, _) => {
            let text = String::from_utf8(body).expect("UTF-8 body");
            let back = decode_response(&text).expect("a response");
            assert_eq!(encode_response(back), expected);
        }
        _ => panic!("one complete frame"),
    }
}

fn frame_of_text(text: &str) -> Vec<u8> {
    let mut out = Vec::new();
    assert!(write_frame(&text.as_bytes().to_vec(), &mut out));
    out
}

#[test]
fn host_answers_ping_with_its_version() {
    let req = decode_request(r#"{"id":"1","command":"ping"}"#).unwrap();
    let resp = handle_command(req, "0.3.1");
    assert_eq!(resp.id, "1");
    assert_eq!(resp.status, Status::Success);
    let text = encode_response(resp);
    assert_eq!(text, r#"{"id":"1","status":"success","data":{"version":"0.3.1","host":"noet"}}"#);
}

#[test]
fn host_reports_peer_side_commands_as_not_implemented() {
    for cmd in [
        "list_articles",
        "get_article",
        "create_article",
        "update_article",
        "delete_article",
    ] {
        let req = decode_request(&format!(r#"{{"id":"7","command":"{cmd}"}}"#)).unwrap();
        let resp = handle_command(req, "0.3.1");
        assert_eq!(resp.status, Status::Error);
        let e = resp.error.expect("an explicit error");
        assert_eq!(e.code, "NOT_IMPLEMENTED");
        assert_eq!(e.message, format!("{cmd} should be called from extension"));
    }
}

#[test]
fn host_reads_the_debug_flag_from_params() {
    let req =
        decode_request(r#"{"id":"d","command":"set_debug_mode","params":{"enabled":true}}"#)
            .unwrap();
    let resp = handle_command(req, "0.3.1");
    assert_eq!(
        encode_response(resp),
        r#"{"id":"d","status":"success","data":{"success":true,"debug_mode":true}}"#
    );
    let req2 = decode_request(r#"{"id":"d","command":"set_debug_mode"}"#).unwrap();
    let resp2 = handle_command(req2, "0.3.1");
    assert!(encode_response(resp2).contains(r#""debug_mode":false"#));
}

#[test]
fn unknown_host_command_gets_stable_code_and_loop_continues() {
    // two frames: an unrecognized command, then a valid ping
    let mut input = frame_of_text(r#"{"id":"1","command":"frobnicate"}"#);
    input.extend_from_slice(&frame_of_text(r#"{"id":"2","command":"ping"}"#));
    let (out, end) = process_session(&input, "0.3.1");
    assert_eq!(end, HostEnd::Clean);
    // the first answer is the structured unknown-command error
    let first = match read_frame(&out, 0) {
        FrameRead::Frame(body, next) => {
            let text = String::from_utf8(body).unwrap();
            let r = decode_response(&text).unwrap();
            assert_eq!(r.id, "1");
            assert_eq!(r.status, Status::Error);
            let e = r.error.unwrap();
            assert_eq!(e.code, "UNKNOWN_COMMAND");
            assert_eq!(e.message, "Unknown command: frobnicate");
            next
        }
        _ => panic!("a first frame"),
    };
    // and the next request was still answered
    match read_frame(&out, first) {
        FrameRead::Frame(body, _) => {
            let text = String::from_utf8(body).unwrap();
            let r = decode_response(&text).unwrap();
            assert_eq!(r.id, "2");
            assert_eq!(r.status, Status::Success);
        }
        _ => panic!("a second frame"),
    }
}

#[test]
fn host_session_ends_with_protocol_error_on_truncation() {
    let mut input = frame_of_text(r#"{"id":"1","command":"ping"}"#);
    input.extend_from_slice(&[1, 2]);  // two bytes of a next prefix
    let (out, end) = process_session(&input, "0.3.1");
    assert_eq!(end, HostEnd::Protocol);
    assert!(matches!(read_frame(&out, 0), FrameRead::Frame(_, _)));
    // a body that is not a request also ends the session
    let bad = frame_of_text("not json");
    let (_, end2) = process_session(&bad, "0.3.1");
    assert_eq!(end2, HostEnd::Protocol);
}
