//! Wire model for the JSON-RPC request/response pipeline.

use vstd::prelude::*;

verus! {

/// The type-erased wire value: a JSON-like value carrying serialized
/// parameters and results. Numbers are integers; this pipeline's wire
/// traffic (ids, error codes, quantities) never needs fractions.
#[derive(Debug, PartialEq, Eq)]
pub enum Value {
    Null,
    Bool(bool),
    Num(i64),
    Str(String),
    Array(Vec<Value>),
    Object(Vec<(String, Value)>),
}

/// Mathematical model of a wire value.
pub enum ValueModel {
    Null,
    Bool(bool),
    Num(int),
    Str(Seq<char>),
    Array(Seq<ValueModel>),
    Object(Seq<(Seq<char>, ValueModel)>),
}

impl Value {
    pub open spec fn model(self) -> ValueModel
        decreases self,
        via Self::model_decreases
    {
        match self {
            Value::Null => ValueModel::Null,
            Value::Bool(b) => ValueModel::Bool(b),
            Value::Num(n) => ValueModel::Num(n as int),
            Value::Str(s) => ValueModel::Str(s@),
            Value::Array(items) => ValueModel::Array(Value::models_of(items@)),
            Value::Object(entries) => ValueModel::Object(Value::entry_models_of(entries@)),
        }
    }

    pub open spec fn models_of(s: Seq<Value>) -> Seq<ValueModel>
        decreases s,
        via Self::models_of_decreases
    {
        if s.len() == 0 {
            Seq::empty()
        } else {
            Value::models_of(s.drop_last()).push(s.last().model())
        }
    }

    pub open spec fn entry_models_of(s: Seq<(String, Value)>) -> Seq<(Seq<char>, ValueModel)>
        decreases s,
        via Self::entry_models_of_decreases
    {
        if s.len() == 0 {
            Seq::empty()
        } else {
            Value::entry_models_of(s.drop_last()).push((s.last().0@, s.last().1.model()))
        }
    }

    #[via_fn]
    proof fn model_decreases(self) {
        broadcast use vstd::std_specs::vec::group_vec_axioms;
        broadcast use vstd::seq::group_seq_axioms;

    }

    #[via_fn]
    proof fn models_of_decreases(s: Seq<Value>) {
        broadcast use vstd::seq::group_seq_axioms;

        if s.len() > 0 {
            vstd::seq::axiom_seq_len_decreases(s, s.drop_last());
            vstd::seq::axiom_seq_index_decreases(s, s.len() - 1);
        }
    }

    #[via_fn]
    proof fn entry_models_of_decreases(s: Seq<(String, Value)>) {
        broadcast use vstd::seq::group_seq_axioms;

        if s.len() > 0 {
            vstd::seq::axiom_seq_len_decreases(s, s.drop_last());
            vstd::seq::axiom_seq_index_decreases(s, s.len() - 1);
        }
    }
}

impl View for Value {
    type V = ValueModel;

    open spec fn view(&self) -> ValueModel {
        self.model()
    }
}

impl DeepView for Value {
    type V = ValueModel;

    open spec fn deep_view(&self) -> ValueModel {
        self.model()
    }
}

/// The models of a run of wire values are its values' models, in order.
pub proof fn lemma_models_of(s: Seq<Value>)
    ensures
        Value::models_of(s).len() == s.len(),
        forall|i: int| 0 <= i < s.len() ==> Value::models_of(s)[i] == (#[trigger] s[i]).model(),
    decreases s.len(),
{
    if s.len() > 0 {
        lemma_models_of(s.drop_last());
        assert forall|i: int| 0 <= i < s.len() implies Value::models_of(s)[i] == (#[trigger] s[i]).model() by {
            if i < s.len() - 1 {
                assert(s.drop_last()[i] == s[i]);
            }
        }
    }
}

/// The models of a run of object entries are its entries' models, in order.
pub proof fn lemma_entry_models_of(s: Seq<(String, Value)>)
    ensures
        Value::entry_models_of(s).len() == s.len(),
        forall|i: int|
            0 <= i < s.len() ==> Value::entry_models_of(s)[i] == ((#[trigger] s[i]).0@,
            s[i].1.model()),
    decreases s.len(),
{
    if s.len() > 0 {
        lemma_entry_models_of(s.drop_last());
        assert forall|i: int| 0 <= i < s.len() implies Value::entry_models_of(s)[i] == ((
        #[trigger] s[i]).0@, s[i].1.model()) by {
            if i < s.len() - 1 {
                assert(s.drop_last()[i] == s[i]);
            }
        }
    }
}

/// Protocol version tag carried by outgoing calls; fixed to "2.0".
#[derive(Debug, Clone, Copy, PartialEq, Eq, Structural)]
pub enum Version {
    V2,
}

/// Correlation id of a method call: an unsigned integer chosen by the caller.
#[derive(Debug, Clone, Copy, PartialEq, Eq, Structural)]
pub enum Id {
    Num(u64),
}

/// Ordered parameters of a call or notification.
#[derive(Debug, PartialEq, Eq)]
pub enum Params {
    Array(Vec<Value>),
}

/// A single outbound method call.
#[derive(Debug, PartialEq, Eq)]
pub struct MethodCall {
    pub jsonrpc: Option<Version>,
    pub method: String,
    pub params: Params,
    pub id: Id,
}

/// An outbound request: one method call, or a batch of them.
#[derive(Debug, PartialEq, Eq)]
pub enum Call {
    MethodCall(MethodCall),
    Batch(Vec<MethodCall>),
}

/// The error value a remote party reports for a failed call.
#[derive(Debug, PartialEq, Eq)]
pub struct RpcError {
    pub code: i64,
    pub message: String,
    pub data: Option<Value>,
}

/// A successful per-call outcome.
#[derive(Debug, PartialEq, Eq)]
pub struct Success {
    pub result: Value,
    pub id: Id,
}

/// A failed per-call outcome.
#[derive(Debug, PartialEq, Eq)]
pub struct Failure {
    pub error: RpcError,
    pub id: Id,
}

/// The per-call outcome inside a response.
#[derive(Debug, PartialEq, Eq)]
pub enum Output {
    Success(Success),
    Failure(Failure),
}

/// An inbound response: one output, or a batch of them.
#[derive(Debug, PartialEq, Eq)]
pub enum Response {
    Single(Output),
    Batch(Vec<Output>),
}

/// A one-way message with no id and no expected reply.
#[derive(Debug, PartialEq, Eq)]
pub struct Notification {
    pub method: String,
    pub params: Params,
}

/// Mathematical model of a method call.
pub struct MethodCallModel {
    pub jsonrpc: Option<Version>,
    pub method: Seq<char>,
    pub params: Seq<ValueModel>,
    pub id: u64,
}

/// Mathematical model of an outbound request.
pub enum CallModel {
    MethodCall(MethodCallModel),
    Batch(Seq<MethodCallModel>),
}

/// Mathematical model of a remote error value.
pub struct RpcErrorModel {
    pub code: int,
    pub message: Seq<char>,
    pub data: Option<ValueModel>,
}

/// Mathematical model of a per-call outcome.
pub enum OutputModel {
    Success { result: ValueModel, id: u64 },
    Failure { error: RpcErrorModel, id: u64 },
}

/// Mathematical model of a response.
pub enum ResponseModel {
    Single(OutputModel),
    Batch(Seq<OutputModel>),
}

/// Mathematical model of a notification.
pub struct NotificationModel {
    pub method: Seq<char>,
    pub params: Seq<ValueModel>,
}

impl Id {
    /// The number this id carries.
    pub open spec fn num(self) -> u64 {
        match self {
            Id::Num(n) => n,
        }
    }
}

impl View for Params {
    type V = Seq<ValueModel>;

    open spec fn view(&self) -> Seq<ValueModel> {
        match self {
            Params::Array(items) => Value::models_of(items@),
        }
    }
}

impl View for MethodCall {
    type V = MethodCallModel;

    open spec fn view(&self) -> MethodCallModel {
        MethodCallModel {
            jsonrpc: self.jsonrpc,
            method: self.method@,
            params: self.params@,
            id: self.id.num(),
        }
    }
}

impl DeepView for MethodCall {
    type V = MethodCallModel;

    open spec fn deep_view(&self) -> MethodCallModel {
        self.view()
    }
}

impl View for Call {
    type V = CallModel;

    open spec fn view(&self) -> CallModel {
        match self {
            Call::MethodCall(c) => CallModel::MethodCall(c@),
            Call::Batch(calls) => CallModel::Batch(calls.deep_view()),
        }
    }
}

impl View for RpcError {
    type V = RpcErrorModel;

    open spec fn view(&self) -> RpcErrorModel {
        RpcErrorModel {
            code: self.code as int,
            message: self.message@,
            data: match &self.data {
                Some(v) => Some(v@),
                None => None,
            },
        }
    }
}

impl View for Output {
    type V = OutputModel;

    open spec fn view(&self) -> OutputModel {
        match self {
            Output::Success(s) => OutputModel::Success { result: s.result@, id: s.id.num() },
            Output::Failure(f) => OutputModel::Failure { error: f.error@, id: f.id.num() },
        }
    }
}

impl DeepView for Output {
    type V = OutputModel;

    open spec fn deep_view(&self) -> OutputModel {
        self.view()
    }
}

impl View for Response {
    type V = ResponseModel;

    open spec fn view(&self) -> ResponseModel {
        match self {
            Response::Single(o) => ResponseModel::Single(o@),
            Response::Batch(outputs) => ResponseModel::Batch(outputs.deep_view()),
        }
    }
}

impl View for Notification {
    type V = NotificationModel;

    open spec fn view(&self) -> NotificationModel {
        NotificationModel { method: self.method@, params: self.params@ }
    }
}

} // verus!
