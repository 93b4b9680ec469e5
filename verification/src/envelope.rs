//! The envelopes that cross the wire: the signed invocation and the reply to it.
use vstd::prelude::*;
use crate::entity::EntityView;
use crate::entity::WasmCloudEntity;
use crate::error::outcome_view;
use crate::error::RpcError;
use crate::error::RpcErrorView;

verus! {

/// An operation name and its encoded arguments.
#[derive(Clone, Debug)]
pub struct Message<'m> {
    /// name of the operation
    pub method: &'m str,
    /// the arguments, already encoded
    pub arg: Vec<u8>,
}

/// One call, signed, as it is sent to the target.
#[derive(Clone, Debug, PartialEq, Eq)]
pub struct Invocation {
    pub origin: WasmCloudEntity,
    pub target: WasmCloudEntity,
    /// name of the operation
    pub operation: String,
    /// the encoded arguments
    pub msg: Vec<u8>,
    /// identifier of this invocation, unique and unpredictable
    pub id: String,
    /// the signed claims that bind origin, target and the integrity hash
    pub encoded_claims: String,
    /// identity of the host that sends the invocation
    pub host_id: String,
}

/// An invocation as plain values.
pub struct InvocationView {
    pub origin: EntityView,
    pub target: EntityView,
    pub operation: Seq<char>,
    pub msg: Seq<u8>,
    pub id: Seq<char>,
    pub encoded_claims: Seq<char>,
    pub host_id: Seq<char>,
}

impl View for Invocation {
    type V = InvocationView;

    open spec fn view(&self) -> InvocationView {
        InvocationView {
            origin: self.origin@,
            target: self.target@,
            operation: self.operation@,
            msg: self.msg@,
            id: self.id@,
            encoded_claims: self.encoded_claims@,
            host_id: self.host_id@,
        }
    }
}

/// The reply to an invocation.
#[derive(Clone, Debug, PartialEq, Eq)]
pub struct InvocationResponse {
    /// the encoded result; without meaning where `error` is present
    pub msg: Vec<u8>,
    /// the error that the remote side reported, if it reported one
    pub error: Option<String>,
}

/// A reply as plain values.
pub struct ResponseView {
    pub msg: Seq<u8>,
    pub error: Option<Seq<char>>,
}

impl View for InvocationResponse {
    type V = ResponseView;

    open spec fn view(&self) -> ResponseView {
        ResponseView {
            msg: self.msg@,
            error: match self.error {
                Some(e) => Some(e@),
                None => None,
            },
        }
    }
}

impl ResponseView {
    /// What the caller gets for a reply: the reported error where there is
    /// one, whatever the payload holds, and the payload otherwise.
    pub open spec fn resolved(self) -> Result<Seq<u8>, RpcErrorView> {
        match self.error {
            Some(e) => Err(RpcErrorView::Rpc(e)),
            None => Ok(self.msg),
        }
    }
}

impl InvocationResponse {
    /// Turns a decoded reply into the caller's result. An error that the
    /// remote side reported wins over the payload, which is dropped unread.
    pub fn resolve(self) -> (outcome: Result<Vec<u8>, RpcError>)
        ensures
            outcome_view(outcome) == self@.resolved(),
    {
        match self.error {
            Some(e) => Err(RpcError::Rpc(e)),
            None => Ok(self.msg),
        }
    }
}

} // verus!
