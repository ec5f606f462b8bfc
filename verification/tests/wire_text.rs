//! The wire text codec against edge cases, and against an independent
//! JSON implementation.

use jsonrpc_client::{
    build_request, to_notification_from_slice, to_response_from_slice, to_string, Error, Id,
    Notification, Output, Params, Response, Success, Value,
};

#[test]
fn render_params_and_escapes() {
    let call = build_request(
        2,
        "eth_getBalance",
        vec![
            Value::Str("0xde0b295669a9fd93d5f28d9ec85e40f4cb697bae".to_owned()),
            Value::Str("latest".to_owned()),
        ],
    );
    assert_eq!(
        to_string(&call),
        r#"{"jsonrpc":"2.0","id":2,"method":"eth_getBalance","params":["0xde0b295669a9fd93d5f28d9ec85e40f4cb697bae","latest"]}"#
    );
}

#[test]
fn render_nested_values() {
    let call = build_request(
        0,
        "m",
        vec![
            Value::Null,
            Value::Bool(true),
            Value::Num(-17),
            Value::Array(vec![Value::Num(1), Value::Num(2)]),
            Value::Object(vec![
                ("k".to_owned(), Value::Num(3)),
                ("q".to_owned(), Value::Str("a\"b\\c".to_owned())),
            ]),
        ],
    );
    assert_eq!(
        to_string(&call),
        r#"{"jsonrpc":"2.0","id":0,"method":"m","params":[null,true,-17,[1,2],{"k":3,"q":"a\"b\\c"}]}"#
    );
}

#[test]
fn render_control_characters() {
    let call = build_request(1, "log", vec![Value::Str("a\nb".to_owned())]);
    assert_eq!(
        to_string(&call),
        "{\"jsonrpc\":\"2.0\",\"id\":1,\"method\":\"log\",\"params\":[\"a\\u000ab\"]}"
    );
}

#[test]
fn rendered_text_is_valid_json() {
    // An independent implementation must accept and agree with the
    // rendered text.
    let call = build_request(
        5,
        "eth_call",
        vec![Value::Array(vec![
            Value::Num(-3),
            Value::Str("x\"y".to_owned()),
            Value::Null,
        ])],
    );
    let text = to_string(&call);
    let parsed: serde_json::Value = serde_json::from_str(&text).unwrap();
    assert_eq!(parsed["jsonrpc"], serde_json::Value::String("2.0".to_owned()));
    assert_eq!(parsed["id"], serde_json::Value::from(5u64));
    assert_eq!(parsed["method"], serde_json::Value::String("eth_call".to_owned()));
    assert_eq!(parsed["params"][0][0], serde_json::Value::from(-3i64));
    assert_eq!(
        parsed["params"][0][1],
        serde_json::Value::String("x\"y".to_owned())
    );
    assert_eq!(parsed["params"][0][2], serde_json::Value::Null);
}

#[test]
fn parser_agrees_with_independent_rendering() {
    // Text produced by an independent implementation parses to the same
    // shape.
    let mut obj = serde_json::Map::new();
    obj.insert("result".to_owned(), serde_json::Value::from(42i64));
    obj.insert("id".to_owned(), serde_json::Value::from(7u64));
    let text = serde_json::to_string(&serde_json::Value::Object(obj)).unwrap();
    let resp = to_response_from_slice(text.as_bytes()).unwrap();
    assert_eq!(
        resp,
        Response::Single(Output::Success(Success {
            result: Value::Num(42),
            id: Id::Num(7),
        }))
    );
}

#[test]
fn parse_tolerates_whitespace_and_escapes() {
    let resp = to_response_from_slice(
        b" \t\r\n { \"result\" : \"a\\n\\t\\\"b\\\\/\" , \"id\" : 1 } \n",
    )
    .unwrap();
    assert_eq!(
        resp,
        Response::Single(Output::Success(Success {
            result: Value::Str("a\n\t\"b\\/".to_owned()),
            id: Id::Num(1),
        }))
    );
}

#[test]
fn parse_number_edges() {
    let ok = to_response_from_slice(br#"{"result":-9223372036854775808,"id":1}"#).unwrap();
    assert_eq!(
        ok,
        Response::Single(Output::Success(Success {
            result: Value::Num(i64::MIN),
            id: Id::Num(1),
        }))
    );
    let ok = to_response_from_slice(br#"{"result":9223372036854775807,"id":1}"#).unwrap();
    assert_eq!(
        ok,
        Response::Single(Output::Success(Success {
            result: Value::Num(i64::MAX),
            id: Id::Num(1),
        }))
    );
    // One past either bound is out of this pipeline's number range.
    assert!(to_response_from_slice(br#"{"result":9223372036854775808,"id":1}"#).is_err());
    assert!(to_response_from_slice(br#"{"result":-9223372036854775809,"id":1}"#).is_err());
}

#[test]
fn parse_rejects_malformed_text() {
    for bad in [
        &br#"{"result":01,"id":1}"#[..],     // leading zero
        &br#"{"result":1.5,"id":1}"#[..],    // fraction
        &br#"{"result":1e3,"id":1}"#[..],    // exponent
        &br#"{"result":+1,"id":1}"#[..],     // stray sign
        &br#"{"result":"a"#[..],             // unterminated string
        &br#"{"result":[1,,2],"id":1}"#[..], // empty element
        &br#"{"result":[1,2,"id":1}"#[..],   // unclosed array
        &br#"{"result":nul,"id":1}"#[..],    // broken literal
        &b"\xc3\xa9"[..],                    // text where a value should be
        &b""[..],                            // nothing at all
        &b"   "[..],                         // only whitespace
    ] {
        match to_response_from_slice(bad) {
            Err(Error::InvalidResponse(_)) => {}
            other => panic!("{:?} should be invalid, got {:?}", bad, other),
        }
    }
}

#[test]
fn parse_notification() {
    let n = to_notification_from_slice(
        br#"{"jsonrpc":"2.0","method":"eth_subscription","params":["0x1"]}"#,
    )
    .unwrap();
    assert_eq!(
        n,
        Notification {
            method: "eth_subscription".to_owned(),
            params: Params::Array(vec![Value::Str("0x1".to_owned())]),
        }
    );
}

#[test]
fn parse_notification_rejects_missing_fields() {
    assert!(matches!(
        to_notification_from_slice(br#"{"method":"m"}"#),
        Err(Error::InvalidResponse(_))
    ));
    assert!(matches!(
        to_notification_from_slice(br#"{"params":[]}"#),
        Err(Error::InvalidResponse(_))
    ));
    assert!(matches!(
        to_notification_from_slice(br#"{"method":7,"params":[]}"#),
        Err(Error::InvalidResponse(_))
    ));
}

#[test]
fn parse_duplicate_keys_take_first() {
    let resp = to_response_from_slice(br#"{"result":1,"result":2,"id":1}"#).unwrap();
    assert_eq!(
        resp,
        Response::Single(Output::Success(Success {
            result: Value::Num(1),
            id: Id::Num(1),
        }))
    );
}

#[test]
fn parse_empty_containers() {
    let resp = to_response_from_slice(br#"{"result":{"a":[],"b":{}},"id":1}"#).unwrap();
    assert_eq!(
        resp,
        Response::Single(Output::Success(Success {
            result: Value::Object(vec![
                ("a".to_owned(), Value::Array(vec![])),
                ("b".to_owned(), Value::Object(vec![])),
            ]),
            id: Id::Num(1),
        }))
    );
}

#[test]
fn parse_u_escapes() {
    let resp = to_response_from_slice(br#"{"result":"\u0041\u00e9\u20ac","id":1}"#).unwrap();
    assert_eq!(
        resp,
        Response::Single(Output::Success(Success {
            result: Value::Str("A\u{e9}\u{20ac}".to_owned()),
            id: Id::Num(1),
        }))
    );
}

#[test]
fn parse_surrogate_pair_escape() {
    // \ud83d\ude00 is the UTF-16 surrogate pair for U+1F600.
    let resp = to_response_from_slice(br#"{"result":"\ud83d\ude00","id":1}"#).unwrap();
    assert_eq!(
        resp,
        Response::Single(Output::Success(Success {
            result: Value::Str("\u{1f600}".to_owned()),
            id: Id::Num(1),
        }))
    );
}

#[test]
fn parse_utf8_text() {
    // Two-, three- and four-byte UTF-8 sequences inside a string.
    let resp =
        to_response_from_slice("{\"result\":\"caf\u{e9} \u{20ac} \u{1f600}\",\"id\":1}".as_bytes())
            .unwrap();
    assert_eq!(
        resp,
        Response::Single(Output::Success(Success {
            result: Value::Str("caf\u{e9} \u{20ac} \u{1f600}".to_owned()),
            id: Id::Num(1),
        }))
    );
}

#[test]
fn parse_error_message_with_utf8_text() {
    let resp = to_response_from_slice(
        "{\"error\":{\"code\":-32000,\"message\":\"caf\u{e9}\"},\"id\":1}".as_bytes(),
    )
    .unwrap();
    match resp {
        Response::Single(Output::Failure(f)) => {
            assert_eq!(f.error.code, -32000);
            assert_eq!(f.error.message, "caf\u{e9}");
        }
        other => panic!("expected a failure output, got {:?}", other),
    }
}

#[test]
fn parse_rejects_malformed_strings() {
    for bad in [
        &br#"{"result":"\ud83d","id":1}"#[..],        // lone high surrogate
        &br#"{"result":"\ude00","id":1}"#[..],        // lone low surrogate
        &br#"{"result":"\ude00\ud83d","id":1}"#[..],  // pair in the wrong order
        &br#"{"result":"\u00g1","id":1}"#[..],        // hex digit expected
        &br#"{"result":"\u00","id":1}"#[..],          // truncated escape
        &b"{\"result\":\"\xc3\x28\",\"id\":1}"[..],     // invalid continuation byte
        &b"{\"result\":\"\xc0\xaf\",\"id\":1}"[..],     // overlong encoding
        &b"{\"result\":\"\x80\",\"id\":1}"[..],          // lone continuation byte
        &b"{\"result\":\"\xed\xa0\x80\",\"id\":1}"[..], // surrogate encoded as UTF-8
        &b"{\"result\":\"\xf4\x90\x80\x80\",\"id\":1}"[..], // past U+10FFFF
    ] {
        match to_response_from_slice(bad) {
            Err(Error::InvalidResponse(_)) => {}
            other => panic!("{:?} should be invalid, got {:?}", bad, other),
        }
    }
}
