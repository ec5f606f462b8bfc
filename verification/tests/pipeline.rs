//! End-to-end exercises of the request/response pipeline.

use jsonrpc_client::{
    build_request, decode, serialize, to_response_from_slice, to_result_from_output,
    to_results_from_outputs, to_string, Call, CallFuture, DecodePoll, Error, Failure, Id,
    InnerPoll, MethodCall, Output, Params, Response, RpcError, Success, TargetKind, TypedValue,
    Value, Version,
};

fn failure(code: i64, message: &str) -> Output {
    Output::Failure(Failure {
        error: RpcError {
            code,
            message: message.to_owned(),
            data: None,
        },
        id: Id::Num(1),
    })
}

fn success(v: Value) -> Output {
    Output::Success(Success {
        result: v,
        id: Id::Num(1),
    })
}

#[test]
fn round_trip_quantity() {
    let v = TypedValue::Quantity(436);
    let wire = serialize(TypedValue::Quantity(436));
    assert_eq!(wire, Value::Str("0x1b4".to_owned()));
    assert_eq!(decode(TargetKind::Quantity, wire), Ok(v));
}

#[test]
fn round_trip_quantity_edges() {
    for n in [0u64, 1, 15, 16, u64::MAX] {
        let wire = serialize(TypedValue::Quantity(n));
        assert_eq!(
            decode(TargetKind::Quantity, wire),
            Ok(TypedValue::Quantity(n))
        );
    }
    assert_eq!(
        serialize(TypedValue::Quantity(0)),
        Value::Str("0x0".to_owned())
    );
    assert_eq!(
        serialize(TypedValue::Quantity(u64::MAX)),
        Value::Str("0xffffffffffffffff".to_owned())
    );
}

#[test]
fn round_trip_other_kinds() {
    let b = TypedValue::Boolean(true);
    assert_eq!(
        decode(TargetKind::Boolean, serialize(TypedValue::Boolean(true))),
        Ok(b)
    );
    let t = TypedValue::Text("0x1b4".to_owned());
    assert_eq!(
        decode(
            TargetKind::Text,
            serialize(TypedValue::Text("0x1b4".to_owned()))
        ),
        Ok(t)
    );
    let r = TypedValue::Raw(Value::Null);
    assert_eq!(decode(TargetKind::Raw, serialize(TypedValue::Raw(Value::Null))), Ok(r));
}

#[test]
fn decode_shape_mismatch() {
    assert!(matches!(
        decode(TargetKind::Quantity, Value::Bool(true)),
        Err(Error::Decoder(_))
    ));
    assert!(matches!(
        decode(TargetKind::Quantity, Value::Str("1b4".to_owned())),
        Err(Error::Decoder(_))
    ));
    assert!(matches!(
        decode(TargetKind::Quantity, Value::Str("0x".to_owned())),
        Err(Error::Decoder(_))
    ));
    assert!(matches!(
        decode(TargetKind::Quantity, Value::Str("0xg1".to_owned())),
        Err(Error::Decoder(_))
    ));
    // One hexadecimal digit past the 64-bit range.
    assert!(matches!(
        decode(TargetKind::Quantity, Value::Str("0x10000000000000000".to_owned())),
        Err(Error::Decoder(_))
    ));
    assert!(matches!(
        decode(TargetKind::Boolean, Value::Num(1)),
        Err(Error::Decoder(_))
    ));
    assert!(matches!(
        decode(TargetKind::Text, Value::Null),
        Err(Error::Decoder(_))
    ));
}

#[test]
fn decode_quantity_accepts_upper_case() {
    assert_eq!(
        decode(TargetKind::Quantity, Value::Str("0x1B4".to_owned())),
        Ok(TypedValue::Quantity(436))
    );
}

#[test]
fn build_request_shape() {
    let call = build_request(7, "eth_call", vec![Value::Bool(false)]);
    assert_eq!(
        call,
        Call::MethodCall(MethodCall {
            jsonrpc: Some(Version::V2),
            method: "eth_call".to_owned(),
            params: Params::Array(vec![Value::Bool(false)]),
            id: Id::Num(7),
        })
    );
}

#[test]
fn single_call_scenario() {
    // The serialized text of a parameterless call, byte for byte.
    let call = build_request(1, "eth_blockNumber", vec![]);
    assert_eq!(
        to_string(&call),
        r#"{"jsonrpc":"2.0","id":1,"method":"eth_blockNumber","params":[]}"#
    );

    // Feeding the raw wire value through the adapter at quantity kind.
    let mut fut = CallFuture::new((), TargetKind::Quantity);
    let step = fut.poll_step(InnerPoll::Ready(Ok(Value::Str("0x1b4".to_owned()))));
    assert_eq!(step, DecodePoll::Ready(Ok(TypedValue::Quantity(436))));
}

#[test]
fn error_fidelity() {
    let out = failure(-32601, "Method not found");
    assert_eq!(
        to_result_from_output(out),
        Err(Error::Rpc(RpcError {
            code: -32601,
            message: "Method not found".to_owned(),
            data: None,
        }))
    );
}

#[test]
fn batch_order_preservation() {
    let outputs = vec![
        success(Value::Num(10)),
        failure(-32000, "boom"),
        success(Value::Str("ok".to_owned())),
    ];
    let results = to_results_from_outputs(outputs).unwrap();
    assert_eq!(results.len(), 3);
    assert_eq!(results[0], Ok(Value::Num(10)));
    assert_eq!(
        results[1],
        Err(Error::Rpc(RpcError {
            code: -32000,
            message: "boom".to_owned(),
            data: None,
        }))
    );
    assert_eq!(results[2], Ok(Value::Str("ok".to_owned())));
}

#[test]
fn batch_with_one_failure_scenario() {
    let outputs = vec![success(Value::Num(10)), failure(-32000, "boom")];
    let results = to_results_from_outputs(outputs).unwrap();
    assert_eq!(
        results,
        vec![
            Ok(Value::Num(10)),
            Err(Error::Rpc(RpcError {
                code: -32000,
                message: "boom".to_owned(),
                data: None,
            })),
        ]
    );
}

#[test]
fn empty_batch_interprets_to_empty() {
    assert_eq!(to_results_from_outputs(vec![]), Ok(vec![]));
}

#[test]
fn single_resolution() {
    let mut fut = CallFuture::new((), TargetKind::Boolean);
    // Pending reports pass through without resolving.
    assert_eq!(fut.poll_step(InnerPoll::NotReady), DecodePoll::Pending);
    assert_eq!(fut.poll_step(InnerPoll::NotReady), DecodePoll::Pending);
    // The first completion resolves and decodes exactly once.
    let step = fut.poll_step(InnerPoll::Ready(Ok(Value::Bool(true))));
    assert_eq!(step, DecodePoll::Ready(Ok(TypedValue::Boolean(true))));
    // Once resolved, later polls produce no further output and no decode.
    assert_eq!(
        fut.poll_step(InnerPoll::Ready(Ok(Value::Bool(false)))),
        DecodePoll::Pending
    );
    assert_eq!(fut.poll_step(InnerPoll::NotReady), DecodePoll::Pending);
}

#[test]
fn single_resolution_after_error() {
    let mut fut = CallFuture::new((), TargetKind::Quantity);
    let step = fut.poll_step(InnerPoll::Ready(Err(Error::Transport(
        "connection reset".to_owned(),
    ))));
    // A transport error passes through undecoded.
    assert_eq!(
        step,
        DecodePoll::Ready(Err(Error::Transport("connection reset".to_owned())))
    );
    // And the adapter stays spent.
    assert_eq!(
        fut.poll_step(InnerPoll::Ready(Ok(Value::Str("0x1".to_owned())))),
        DecodePoll::Pending
    );
}

#[test]
fn adapter_decode_failure() {
    let mut fut = CallFuture::new((), TargetKind::Quantity);
    let step = fut.poll_step(InnerPoll::Ready(Ok(Value::Bool(true))));
    match step {
        DecodePoll::Ready(Err(Error::Decoder(_))) => {}
        other => panic!("expected a decode failure, got {:?}", other),
    }
}

#[test]
fn malformed_bytes_scenario() {
    match to_response_from_slice(b"not json") {
        Err(Error::InvalidResponse(_)) => {}
        other => panic!("expected InvalidResponse, got {:?}", other),
    }
}

#[test]
fn parse_single_success_response() {
    let resp = to_response_from_slice(br#"{"jsonrpc":"2.0","result":"0x1b4","id":1}"#).unwrap();
    assert_eq!(
        resp,
        Response::Single(Output::Success(Success {
            result: Value::Str("0x1b4".to_owned()),
            id: Id::Num(1),
        }))
    );
}

#[test]
fn parse_single_failure_response() {
    let resp = to_response_from_slice(
        br#"{"jsonrpc":"2.0","error":{"code":-32601,"message":"Method not found"},"id":3}"#,
    )
    .unwrap();
    assert_eq!(
        resp,
        Response::Single(Output::Failure(Failure {
            error: RpcError {
                code: -32601,
                message: "Method not found".to_owned(),
                data: None,
            },
            id: Id::Num(3),
        }))
    );
}

#[test]
fn parse_failure_with_data() {
    let resp = to_response_from_slice(
        br#"{"error":{"code":-32000,"message":"boom","data":[1,2]},"id":9}"#,
    )
    .unwrap();
    assert_eq!(
        resp,
        Response::Single(Output::Failure(Failure {
            error: RpcError {
                code: -32000,
                message: "boom".to_owned(),
                data: Some(Value::Array(vec![Value::Num(1), Value::Num(2)])),
            },
            id: Id::Num(9),
        }))
    );
}

#[test]
fn parse_batch_response_keeps_order() {
    let resp = to_response_from_slice(
        br#"[ {"result":10,"id":1}, {"error":{"code":-32000,"message":"boom"},"id":2} ]"#,
    )
    .unwrap();
    assert_eq!(
        resp,
        Response::Batch(vec![
            Output::Success(Success {
                result: Value::Num(10),
                id: Id::Num(1),
            }),
            Output::Failure(Failure {
                error: RpcError {
                    code: -32000,
                    message: "boom".to_owned(),
                    data: None,
                },
                id: Id::Num(2),
            }),
        ])
    );
}

#[test]
fn parse_rejects_wrong_shapes() {
    // A bare value is neither an output object nor a batch.
    assert!(matches!(
        to_response_from_slice(b"17"),
        Err(Error::InvalidResponse(_))
    ));
    // An output without an id.
    assert!(matches!(
        to_response_from_slice(br#"{"result":1}"#),
        Err(Error::InvalidResponse(_))
    ));
    // An output with neither result nor error.
    assert!(matches!(
        to_response_from_slice(br#"{"id":1}"#),
        Err(Error::InvalidResponse(_))
    ));
    // A negative id.
    assert!(matches!(
        to_response_from_slice(br#"{"result":1,"id":-4}"#),
        Err(Error::InvalidResponse(_))
    ));
    // A batch holding a non-output.
    assert!(matches!(
        to_response_from_slice(br#"[{"result":1,"id":1},5]"#),
        Err(Error::InvalidResponse(_))
    ));
    // Trailing bytes after the value.
    assert!(matches!(
        to_response_from_slice(br#"{"result":1,"id":1} x"#),
        Err(Error::InvalidResponse(_))
    ));
}

#[test]
fn error_wins_over_result() {
    // An output carrying both fields counts as a failure.
    let resp = to_response_from_slice(
        br#"{"result":1,"error":{"code":-1,"message":"m"},"id":2}"#,
    )
    .unwrap();
    assert!(matches!(
        resp,
        Response::Single(Output::Failure(_))
    ));
}

#[test]
fn render_batch_request() {
    let a = match build_request(1, "m1", vec![]) {
        Call::MethodCall(c) => c,
        other => panic!("unexpected shape: {:?}", other),
    };
    let b = match build_request(2, "m2", vec![Value::Num(5)]) {
        Call::MethodCall(c) => c,
        other => panic!("unexpected shape: {:?}", other),
    };
    let batch = Call::Batch(vec![a, b]);
    assert_eq!(
        to_string(&batch),
        r#"[{"jsonrpc":"2.0","id":1,"method":"m1","params":[]},{"jsonrpc":"2.0","id":2,"method":"m2","params":[5]}]"#
    );
}

#[test]
fn raw_kind_passes_values_through() {
    let nested = Value::Object(vec![("k".to_owned(), Value::Array(vec![Value::Num(1)]))]);
    let decoded = decode(TargetKind::Raw, nested);
    assert_eq!(
        decoded,
        Ok(TypedValue::Raw(Value::Object(vec![(
            "k".to_owned(),
            Value::Array(vec![Value::Num(1)])
        )])))
    );
}
