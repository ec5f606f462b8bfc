//! Request construction and response interpretation.

use vstd::prelude::*;
use crate::codec::{decode, decoded, TargetKind, TypedValue};
use crate::error::Error;
use crate::json::call_text;
use crate::rpc::{
    Call, Failure, Id, MethodCall, Notification, NotificationModel, Output, OutputModel, Params,
    Response, ResponseModel, RpcError, RpcErrorModel, Success, Value, ValueModel, Version,
};

verus! {

/// The first entry of an object with the given key, if any.
pub open spec fn obj_lookup(es: Seq<(Seq<char>, ValueModel)>, key: Seq<char>) -> Option<
    ValueModel,
>
    decreases es.len(),
{
    if es.len() == 0 {
        None
    } else if es.first().0 == key {
        Some(es.first().1)
    } else {
        obj_lookup(es.drop_first(), key)
    }
}

/// The remote error value an object denotes: integer "code", string
/// "message", optional "data".
pub open spec fn rpc_error_of(m: ValueModel) -> Option<RpcErrorModel> {
    match m {
        ValueModel::Object(es) => match (obj_lookup(es, "code"@), obj_lookup(es, "message"@)) {
            (Some(ValueModel::Num(c)), Some(ValueModel::Str(msg))) => if i64::MIN <= c
                <= i64::MAX {
                Some(RpcErrorModel { code: c, message: msg, data: obj_lookup(es, "data"@) })
            } else {
                None
            },
            _ => None,
        },
        _ => None,
    }
}

/// The per-call outcome an object denotes: an unsigned integer "id", and
/// either an "error" object (a failure) or otherwise a "result" value
/// (a success).
pub open spec fn output_of(m: ValueModel) -> Option<OutputModel> {
    match m {
        ValueModel::Object(es) => match obj_lookup(es, "id"@) {
            Some(ValueModel::Num(n)) => if 0 <= n <= u64::MAX {
                match obj_lookup(es, "error"@) {
                    Some(em) => match rpc_error_of(em) {
                        Some(e) => Some(OutputModel::Failure { error: e, id: n as u64 }),
                        None => None,
                    },
                    None => match obj_lookup(es, "result"@) {
                        Some(r) => Some(OutputModel::Success { result: r, id: n as u64 }),
                        None => None,
                    },
                }
            } else {
                None
            },
            _ => None,
        },
        _ => None,
    }
}

/// The outcomes a run of wire values denotes, if every one is an output.
pub open spec fn outputs_of(ms: Seq<ValueModel>) -> Option<Seq<OutputModel>>
    decreases ms.len(),
{
    if ms.len() == 0 {
        Some(Seq::empty())
    } else {
        match (outputs_of(ms.drop_last()), output_of(ms.last())) {
            (Some(os), Some(o)) => Some(os.push(o)),
            _ => None,
        }
    }
}

/// The response a wire value denotes: one output object, or an array of
/// output objects.
pub open spec fn response_of(m: ValueModel) -> Option<ResponseModel> {
    match m {
        ValueModel::Object(_) => match output_of(m) {
            Some(o) => Some(ResponseModel::Single(o)),
            None => None,
        },
        ValueModel::Array(items) => match outputs_of(items) {
            Some(os) => Some(ResponseModel::Batch(os)),
            None => None,
        },
        _ => None,
    }
}

/// The notification a wire value denotes: an object with a string
/// "method" and an array "params".
pub open spec fn notification_of(m: ValueModel) -> Option<NotificationModel> {
    match m {
        ValueModel::Object(es) => match (obj_lookup(es, "method"@), obj_lookup(es, "params"@)) {
            (Some(ValueModel::Str(method)), Some(ValueModel::Array(ps))) => Some(
                NotificationModel { method, params: ps },
            ),
            _ => None,
        },
        _ => None,
    }
}

/// The response a run of bytes denotes, if it is well-formed wire text
/// of response shape.
pub open spec fn parsed_response(bytes: Seq<u8>) -> Option<ResponseModel> {
    match crate::json::sp_json(bytes) {
        Some(m) => response_of(m),
        None => None,
    }
}

/// The notification a run of bytes denotes, if it is well-formed wire
/// text of notification shape.
pub open spec fn parsed_notification(bytes: Seq<u8>) -> Option<NotificationModel> {
    match crate::json::sp_json(bytes) {
        Some(m) => notification_of(m),
        None => None,
    }
}

/// What the wrapped pending operation reported at one scheduling
/// opportunity: still pending, or complete with a wire value or a
/// transport-level error.
#[derive(Debug, PartialEq, Eq)]
pub enum InnerPoll {
    NotReady,
    Ready(Result<Value, Error>),
}

/// What one step of the adapter yields: still pending, or the typed
/// outcome of the call.
#[derive(Debug, PartialEq, Eq)]
pub enum DecodePoll {
    Pending,
    Ready(Result<TypedValue, Error>),
}

/// Value-decoder future: wraps a pending operation that will yield a raw
/// wire value, and resolves to that value decoded at a target kind.
///
/// The wrapped operation is owned exclusively; dropping the adapter before
/// resolution drops it without ever invoking the decode step. The decode
/// step runs exactly once, at the poll that finds the operation complete.
#[derive(Debug)]
pub struct CallFuture<F> {
    /// The wrapped pending operation; polled by the surrounding executor
    /// glue, which feeds its report into `poll_step`.
    pub inner: F,
    kind: TargetKind,
    resolved: bool,
}

impl<F> CallFuture<F> {
    /// The wrapped pending operation, as seen by contracts.
    pub closed spec fn wrapped(&self) -> F {
        self.inner
    }

    /// The target kind the raw value will be decoded at.
    pub closed spec fn target(&self) -> TargetKind {
        self.kind
    }

    /// Whether the adapter has already resolved.
    pub closed spec fn is_resolved(&self) -> bool {
        self.resolved
    }

    /// Create a new CallFuture wrapping the inner pending operation.
    pub fn new(inner: F, kind: TargetKind) -> (r: Self)
        ensures
            r.wrapped() == inner,
            r.target() == kind,
            !r.is_resolved(),
    {
        CallFuture { inner, kind, resolved: false }
    }

    /// Advance the adapter by one scheduling opportunity, given what the
    /// wrapped operation reported. Pending reports pass through; a
    /// completion resolves the adapter exactly once, decoding a wire value
    /// at the target kind and passing a transport error through untouched.
    /// Once resolved, later polls yield nothing further and decode nothing.
    pub fn poll_step(&mut self, event: InnerPoll) -> (r: DecodePoll)
        ensures
            final(self).wrapped() == old(self).wrapped(),
            final(self).target() == old(self).target(),
            old(self).is_resolved() ==> r == DecodePoll::Pending && *final(self) == *old(self),
            !old(self).is_resolved() && event == InnerPoll::NotReady ==> r == DecodePoll::Pending
                && !final(self).is_resolved(),
            !old(self).is_resolved() ==> (event matches InnerPoll::Ready(completion) ==> {
                &&& final(self).is_resolved()
                &&& r matches DecodePoll::Ready(outcome)
                &&& (completion matches Err(e) ==> outcome == Err::<TypedValue, Error>(e))
                &&& (completion matches Ok(v) ==> match decoded(old(self).target(), v@) {
                    Some(t) => outcome matches Ok(tv) && tv@ == t,
                    None => outcome matches Err(e) && e matches Error::Decoder(_),
                })
            }),
    {
        if self.resolved {
            return DecodePoll::Pending;
        }
        match event {
            InnerPoll::NotReady => DecodePoll::Pending,
            InnerPoll::Ready(completion) => {
                self.resolved = true;
                match completion {
                    Err(e) => DecodePoll::Ready(Err(e)),
                    Ok(v) => DecodePoll::Ready(decode(self.kind, v)),
                }
            },
        }
    }
}

proof fn lemma_entry_models_drop_first(s: Seq<(String, Value)>)
    requires
        s.len() > 0,
    ensures
        Value::entry_models_of(s).len() == s.len(),
        Value::entry_models_of(s.drop_first()) == Value::entry_models_of(s).drop_first(),
        Value::entry_models_of(s).first() == (s.first().0@, s.first().1.model()),
{
    crate::rpc::lemma_entry_models_of(s);
    crate::rpc::lemma_entry_models_of(s.drop_first());
    assert forall|i: int| 0 <= i < s.len() - 1 implies Value::entry_models_of(s.drop_first())[i]
        == Value::entry_models_of(s).drop_first()[i] by {
        assert(s.drop_first()[i] == s[i + 1]);
    }
    assert(Value::entry_models_of(s.drop_first()) =~= Value::entry_models_of(s).drop_first());
}

/// Take the first "id", "error" and "result" entries out of an object's
/// entries, each independently by first occurrence.
#[verifier::loop_isolation(false)]
fn take_output_fields(entries: Vec<(String, Value)>) -> (r: (
    Option<Value>,
    Option<Value>,
    Option<Value>,
))
    ensures
        ({
            let es = Value::entry_models_of(entries@);
            &&& (match r.0 {
                Some(val) => obj_lookup(es, "id"@) == Some(val@),
                None => obj_lookup(es, "id"@) is None,
            })
            &&& (match r.1 {
                Some(val) => obj_lookup(es, "error"@) == Some(val@),
                None => obj_lookup(es, "error"@) is None,
            })
            &&& (match r.2 {
                Some(val) => obj_lookup(es, "result"@) == Some(val@),
                None => obj_lookup(es, "result"@) is None,
            })
        }),
{
    let ghost es = Value::entry_models_of(entries@);
    proof {
        reveal_strlit("id");
        reveal_strlit("error");
        reveal_strlit("result");
        assert("id"@.len() == 2 && "error"@.len() == 5 && "result"@.len() == 6);
        assert("id"@ != "error"@ && "id"@ != "result"@ && "error"@ != "result"@);
    }
    let key_id = "id".to_owned();
    let key_error = "error".to_owned();
    let key_result = "result".to_owned();
    let mut entries = entries;
    let mut id_taken: Option<Value> = None;
    let mut err_taken: Option<Value> = None;
    let mut res_taken: Option<Value> = None;
    while entries.len() > 0
        invariant
            key_id@ == "id"@,
            key_error@ == "error"@,
            key_result@ == "result"@,
            match id_taken {
                Some(val) => obj_lookup(es, "id"@) == Some(val@),
                None => obj_lookup(es, "id"@) == obj_lookup(
                    Value::entry_models_of(entries@),
                    "id"@,
                ),
            },
            match err_taken {
                Some(val) => obj_lookup(es, "error"@) == Some(val@),
                None => obj_lookup(es, "error"@) == obj_lookup(
                    Value::entry_models_of(entries@),
                    "error"@,
                ),
            },
            match res_taken {
                Some(val) => obj_lookup(es, "result"@) == Some(val@),
                None => obj_lookup(es, "result"@) == obj_lookup(
                    Value::entry_models_of(entries@),
                    "result"@,
                ),
            },
        decreases entries@.len(),
    {
        let ghost prev = entries@;
        let ghost ms = Value::entry_models_of(prev);
        proof {
            lemma_entry_models_drop_first(prev);
        }
        let (k, val) = entries.remove(0);
        proof {
            assert(entries@ =~= prev.drop_first());
            assert(ms.first() == (k@, val.model()));
        }
        if id_taken.is_none() && k == key_id {
            id_taken = Some(val);
        } else if err_taken.is_none() && k == key_error {
            err_taken = Some(val);
        } else if res_taken.is_none() && k == key_result {
            res_taken = Some(val);
        }
    }
    proof {
        assert(Value::entry_models_of(entries@) =~= Seq::<(Seq<char>, ValueModel)>::empty());
    }
    (id_taken, err_taken, res_taken)
}

/// Take the first "code", "message" and "data" entries out of an error
/// object's entries.
#[verifier::loop_isolation(false)]
fn take_error_fields(entries: Vec<(String, Value)>) -> (r: (
    Option<Value>,
    Option<Value>,
    Option<Value>,
))
    ensures
        ({
            let es = Value::entry_models_of(entries@);
            &&& (match r.0 {
                Some(val) => obj_lookup(es, "code"@) == Some(val@),
                None => obj_lookup(es, "code"@) is None,
            })
            &&& (match r.1 {
                Some(val) => obj_lookup(es, "message"@) == Some(val@),
                None => obj_lookup(es, "message"@) is None,
            })
            &&& (match r.2 {
                Some(val) => obj_lookup(es, "data"@) == Some(val@),
                None => obj_lookup(es, "data"@) is None,
            })
        }),
{
    let ghost es = Value::entry_models_of(entries@);
    proof {
        reveal_strlit("code");
        reveal_strlit("message");
        reveal_strlit("data");
        assert("code"@.len() == 4 && "message"@.len() == 7 && "data"@.len() == 4);
        assert("code"@[0] == 'c' && "data"@[0] == 'd');
        assert("code"@ != "message"@ && "code"@ != "data"@ && "message"@ != "data"@);
    }
    let key_code = "code".to_owned();
    let key_message = "message".to_owned();
    let key_data = "data".to_owned();
    let mut entries = entries;
    let mut code_taken: Option<Value> = None;
    let mut msg_taken: Option<Value> = None;
    let mut data_taken: Option<Value> = None;
    while entries.len() > 0
        invariant
            key_code@ == "code"@,
            key_message@ == "message"@,
            key_data@ == "data"@,
            match code_taken {
                Some(val) => obj_lookup(es, "code"@) == Some(val@),
                None => obj_lookup(es, "code"@) == obj_lookup(
                    Value::entry_models_of(entries@),
                    "code"@,
                ),
            },
            match msg_taken {
                Some(val) => obj_lookup(es, "message"@) == Some(val@),
                None => obj_lookup(es, "message"@) == obj_lookup(
                    Value::entry_models_of(entries@),
                    "message"@,
                ),
            },
            match data_taken {
                Some(val) => obj_lookup(es, "data"@) == Some(val@),
                None => obj_lookup(es, "data"@) == obj_lookup(
                    Value::entry_models_of(entries@),
                    "data"@,
                ),
            },
        decreases entries@.len(),
    {
        let ghost prev = entries@;
        let ghost ms = Value::entry_models_of(prev);
        proof {
            lemma_entry_models_drop_first(prev);
        }
        let (k, val) = entries.remove(0);
        proof {
            assert(entries@ =~= prev.drop_first());
            assert(ms.first() == (k@, val.model()));
        }
        if code_taken.is_none() && k == key_code {
            code_taken = Some(val);
        } else if msg_taken.is_none() && k == key_message {
            msg_taken = Some(val);
        } else if data_taken.is_none() && k == key_data {
            data_taken = Some(val);
        }
    }
    proof {
        assert(Value::entry_models_of(entries@) =~= Seq::<(Seq<char>, ValueModel)>::empty());
    }
    (code_taken, msg_taken, data_taken)
}

/// Take the first "method" and "params" entries out of a notification
/// object's entries.
#[verifier::loop_isolation(false)]
fn take_notification_fields(entries: Vec<(String, Value)>) -> (r: (Option<Value>, Option<Value>))
    ensures
        ({
            let es = Value::entry_models_of(entries@);
            &&& (match r.0 {
                Some(val) => obj_lookup(es, "method"@) == Some(val@),
                None => obj_lookup(es, "method"@) is None,
            })
            &&& (match r.1 {
                Some(val) => obj_lookup(es, "params"@) == Some(val@),
                None => obj_lookup(es, "params"@) is None,
            })
        }),
{
    let ghost es = Value::entry_models_of(entries@);
    proof {
        reveal_strlit("method");
        reveal_strlit("params");
        assert("method"@.len() == 6 && "params"@.len() == 6);
        assert("method"@[0] == 'm' && "params"@[0] == 'p');
        assert("method"@ != "params"@);
    }
    let key_method = "method".to_owned();
    let key_params = "params".to_owned();
    let mut entries = entries;
    let mut method_taken: Option<Value> = None;
    let mut params_taken: Option<Value> = None;
    while entries.len() > 0
        invariant
            key_method@ == "method"@,
            key_params@ == "params"@,
            match method_taken {
                Some(val) => obj_lookup(es, "method"@) == Some(val@),
                None => obj_lookup(es, "method"@) == obj_lookup(
                    Value::entry_models_of(entries@),
                    "method"@,
                ),
            },
            match params_taken {
                Some(val) => obj_lookup(es, "params"@) == Some(val@),
                None => obj_lookup(es, "params"@) == obj_lookup(
                    Value::entry_models_of(entries@),
                    "params"@,
                ),
            },
        decreases entries@.len(),
    {
        let ghost prev = entries@;
        let ghost ms = Value::entry_models_of(prev);
        proof {
            lemma_entry_models_drop_first(prev);
        }
        let (k, val) = entries.remove(0);
        proof {
            assert(entries@ =~= prev.drop_first());
            assert(ms.first() == (k@, val.model()));
        }
        if method_taken.is_none() && k == key_method {
            method_taken = Some(val);
        } else if params_taken.is_none() && k == key_params {
            params_taken = Some(val);
        }
    }
    proof {
        assert(Value::entry_models_of(entries@) =~= Seq::<(Seq<char>, ValueModel)>::empty());
    }
    (method_taken, params_taken)
}

fn value_to_rpc_error(v: Value) -> (r: Option<RpcError>)
    ensures
        r matches Some(e) ==> rpc_error_of(v@) == Some(e@),
        r is None ==> rpc_error_of(v@) is None,
{
    let entries = match v {
        Value::Object(entries) => entries,
        _ => {
            return None;
        },
    };
    let (code_v, msg_v, data_v) = take_error_fields(entries);
    let code = match code_v {
        Some(Value::Num(c)) => c,
        _ => {
            return None;
        },
    };
    let message = match msg_v {
        Some(Value::Str(m)) => m,
        _ => {
            return None;
        },
    };
    Some(RpcError { code, message, data: data_v })
}

fn entries_to_output(entries: Vec<(String, Value)>) -> (r: Option<Output>)
    ensures
        r matches Some(o) ==> output_of(ValueModel::Object(Value::entry_models_of(entries@)))
            == Some(o@),
        r is None ==> output_of(ValueModel::Object(Value::entry_models_of(entries@))) is None,
{
    let (id_v, err_v, res_v) = take_output_fields(entries);
    let id = match id_v {
        Some(Value::Num(n)) => {
            if n < 0 {
                return None;
            }
            Id::Num(n as u64)
        },
        _ => {
            return None;
        },
    };
    match err_v {
        Some(ev) => match value_to_rpc_error(ev) {
            Some(e) => Some(Output::Failure(Failure { error: e, id })),
            None => None,
        },
        None => match res_v {
            Some(rv) => Some(Output::Success(Success { result: rv, id })),
            None => None,
        },
    }
}

proof fn lemma_models_drop_first(s: Seq<Value>)
    requires
        s.len() > 0,
    ensures
        Value::models_of(s).len() == s.len(),
        Value::models_of(s.drop_first()) == Value::models_of(s).drop_first(),
        Value::models_of(s).first() == s.first().model(),
{
    crate::rpc::lemma_models_of(s);
    crate::rpc::lemma_models_of(s.drop_first());
    assert forall|i: int| 0 <= i < s.len() - 1 implies Value::models_of(s.drop_first())[i]
        == Value::models_of(s).drop_first()[i] by {
        assert(s.drop_first()[i] == s[i + 1]);
    }
    assert(Value::models_of(s.drop_first()) =~= Value::models_of(s).drop_first());
}

proof fn lemma_outputs_step(ms: Seq<ValueModel>, k: int)
    requires
        0 <= k < ms.len(),
    ensures
        outputs_of(ms.take(k + 1)) == match (outputs_of(ms.take(k)), output_of(ms[k])) {
            (Some(os), Some(o)) => Some(os.push(o)),
            _ => None::<Seq<OutputModel>>,
        },
{
    let t = ms.take(k + 1);
    assert(t.drop_last() =~= ms.take(k));
    assert(t.last() == ms[k]);
}

proof fn lemma_outputs_none(ms: Seq<ValueModel>, k: int)
    requires
        0 <= k < ms.len(),
        output_of(ms[k]) is None,
    ensures
        outputs_of(ms) is None,
    decreases ms.len(),
{
    if k == ms.len() - 1 {
    } else {
        assert(ms.drop_last()[k] == ms[k]);
        lemma_outputs_none(ms.drop_last(), k);
    }
}

#[verifier::loop_isolation(false)]
fn value_to_response(v: Value) -> (r: Option<Response>)
    ensures
        r matches Some(resp) ==> response_of(v@) == Some(resp@),
        r is None ==> response_of(v@) is None,
{
    match v {
        Value::Object(entries) => match entries_to_output(entries) {
            Some(o) => Some(Response::Single(o)),
            None => None,
        },
        Value::Array(items) => {
            let ghost ms = Value::models_of(items@);
            proof {
                crate::rpc::lemma_models_of(items@);
            }
            let mut items = items;
            let mut outputs: Vec<Output> = Vec::new();
            let ghost total = ms.len() as int;
            proof {
                assert(ms.take(0) =~= Seq::<ValueModel>::empty());
                assert(outputs.deep_view() =~= Seq::<OutputModel>::empty());
            }
            while items.len() > 0
                invariant
                    outputs@.len() <= total,
                    total == ms.len(),
                    Value::models_of(items@) == ms.skip(outputs@.len() as int),
                    outputs_of(ms.take(outputs@.len() as int)) == Some(outputs.deep_view()),
                decreases items@.len(),
            {
                let ghost k = outputs@.len() as int;
                let ghost prev = items@;
                proof {
                    lemma_models_drop_first(prev);
                    assert(ms.skip(k).len() == prev.len());
                }
                let item = items.remove(0);
                proof {
                    assert(items@ =~= prev.drop_first());
                    assert(item.model() == Value::models_of(prev).first());
                    assert(Value::models_of(prev).first() == ms.skip(k).first());
                    assert(ms.skip(k).first() == ms[k]);
                    assert(Value::models_of(items@) =~= ms.skip(k + 1));
                }
                let o = match value_to_output(item) {
                    Some(o) => o,
                    None => {
                        proof {
                            lemma_outputs_none(ms, k);
                        }
                        return None;
                    },
                };
                let ghost prev_outputs = outputs.deep_view();
                outputs.push(o);
                proof {
                    assert(outputs.deep_view() =~= prev_outputs.push(o@));
                    lemma_outputs_step(ms, k);
                }
            }
            proof {
                assert(ms.take(outputs@.len() as int) =~= ms);
            }
            Some(Response::Batch(outputs))
        },
        _ => None,
    }
}

fn value_to_output(v: Value) -> (r: Option<Output>)
    ensures
        r matches Some(o) ==> output_of(v@) == Some(o@),
        r is None ==> output_of(v@) is None,
{
    match v {
        Value::Object(entries) => entries_to_output(entries),
        _ => None,
    }
}

fn value_to_notification(v: Value) -> (r: Option<Notification>)
    ensures
        r matches Some(n) ==> notification_of(v@) == Some(n@),
        r is None ==> notification_of(v@) is None,
{
    let entries = match v {
        Value::Object(entries) => entries,
        _ => {
            return None;
        },
    };
    let (method_v, params_v) = take_notification_fields(entries);
    let method = match method_v {
        Some(Value::Str(m)) => m,
        _ => {
            return None;
        },
    };
    let params = match params_v {
        Some(Value::Array(ps)) => Params::Array(ps),
        _ => {
            return None;
        },
    };
    Some(Notification { method, params })
}

/// Parse a byte slice into a JSON-RPC response: one output, or a batch of
/// outputs. Fails with `InvalidResponse`, and only with it, exactly when
/// the bytes are not well-formed wire text of response shape.
pub fn to_response_from_slice(response: &[u8]) -> (r: Result<Response, Error>)
    ensures
        r matches Ok(resp) ==> parsed_response(response@) == Some(resp@),
        r matches Err(e) ==> parsed_response(response@) is None && e matches Error::InvalidResponse(
            _,
        ),
{
    match crate::json::parse_json(response) {
        Some(v) => match value_to_response(v) {
            Some(resp) => Ok(resp),
            None => Err(Error::InvalidResponse("unexpected response shape".to_owned())),
        },
        None => Err(Error::InvalidResponse("malformed wire text".to_owned())),
    }
}

/// Parse a byte slice into a JSON-RPC notification. Fails with
/// `InvalidResponse`, and only with it, exactly when the bytes are not
/// well-formed wire text of notification shape.
pub fn to_notification_from_slice(notification: &[u8]) -> (r: Result<Notification, Error>)
    ensures
        r matches Ok(n) ==> parsed_notification(notification@) == Some(n@),
        r matches Err(e) ==> parsed_notification(notification@) is None && e matches Error::InvalidResponse(
            _,
        ),
{
    match crate::json::parse_json(notification) {
        Some(v) => match value_to_notification(v) {
            Some(n) => Ok(n),
            None => Err(Error::InvalidResponse("unexpected notification shape".to_owned())),
        },
        None => Err(Error::InvalidResponse("malformed wire text".to_owned())),
    }
}

/// Serialize a request to its JSON-RPC 2.0 text. The wire model is closed,
/// so this cannot fail.
pub fn to_string(request: &Call) -> (r: String)
    ensures
        r@ == call_text(request@),
{
    crate::json::render_call(request)
}

/// What interpreting one output yields: the inner wire value of a success,
/// or the remote error of a failure, wrapped unchanged.
pub open spec fn interpreted(output: Output) -> Result<Value, Error> {
    match output {
        Output::Success(success) => Ok(success.result),
        Output::Failure(failure) => Err(Error::Rpc(failure.error)),
    }
}

/// Build a JSON-RPC method call from a caller-chosen id, a method name and
/// already-serialized parameters. Construction cannot fail.
pub fn build_request(id: usize, method: &str, params: Vec<Value>) -> (r: Call)
    ensures
        r matches Call::MethodCall(c) && c.jsonrpc == Some(Version::V2) && c.method@ == method@
            && c.params == Params::Array(params) && c.id == Id::Num(id as u64),
{
    Call::MethodCall(MethodCall {
        jsonrpc: Some(Version::V2),
        method: method.to_owned(),
        params: Params::Array(params),
        id: Id::Num(id as u64),
    })
}

/// Interpret one output: a success yields its wire value, a failure yields
/// the remote error with code, message and data untouched.
pub fn to_result_from_output(output: Output) -> (r: Result<Value, Error>)
    ensures
        r == interpreted(output),
{
    match output {
        Output::Success(success) => Ok(success.result),
        Output::Failure(failure) => Err(Error::Rpc(failure.error)),
    }
}

/// Interpret every output of a batch independently, in input order. One
/// failed call never suppresses or disturbs the outcome of its siblings,
/// so the whole batch always comes back `Ok`.
pub fn to_results_from_outputs(outputs: Vec<Output>) -> (r: Result<
    Vec<Result<Value, Error>>,
    Error,
>)
    ensures
        r matches Ok(results) && results@.len() == outputs@.len() && (forall|i: int|
            0 <= i < outputs@.len() ==> results@[i] == interpreted(#[trigger] outputs@[i])),
{
    let ghost given = outputs@;
    let mut remaining = outputs;
    let mut results: Vec<Result<Value, Error>> = Vec::new();
    while remaining.len() > 0
        invariant
            results@.len() <= given.len(),
            remaining@ == given.skip(results@.len() as int),
            forall|i: int|
                0 <= i < results@.len() ==> results@[i] == interpreted(#[trigger] given[i]),
        decreases remaining@.len(),
    {
        let ghost k = results@.len() as int;
        let output = remaining.remove(0);
        proof {
            assert(output == given[k]);
            assert(remaining@ =~= given.skip(k + 1));
        }
        results.push(to_result_from_output(output));
    }
    Ok(results)
}

} // verus!
