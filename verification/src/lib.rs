//! Transport-agnostic request/response pipeline of a JSON-RPC client:
//! building outbound calls, rendering them as wire text, parsing inbound
//! bytes, interpreting batched outcomes, and decoding raw wire values into
//! typed results as pending operations complete.

pub mod codec;
pub mod error;
pub mod helpers;
pub mod json;
pub mod rpc;
mod strutil;

pub use codec::{decode, serialize, TargetKind, TypedValue};
pub use error::Error;
pub use helpers::{
    build_request, to_notification_from_slice, to_response_from_slice, to_result_from_output,
    to_results_from_outputs, to_string, CallFuture, DecodePoll, InnerPoll,
};
pub use rpc::{
    Call, Failure, Id, MethodCall, Notification, Output, Params, Response, RpcError, Success,
    Value, Version,
};
