//! The errors that an invocation can end in.
use vstd::prelude::*;

verus! {

/// Why an invocation failed. Each kind is kept apart from the others: a
/// caller can tell a failed transport from a missed deadline, from a reply
/// that could not be read, and from an error that the remote side reported.
#[derive(Clone, Debug, PartialEq, Eq)]
pub enum RpcError {
    /// The deadline passed before a reply arrived.
    Timeout(String),
    /// The transport failed to carry the request or the publish.
    Nats(String),
    /// The reply could not be decoded into a response.
    Deser(String),
    /// The invocation could not be encoded.
    Ser(String),
    /// The remote side reported an error; the text is the remote side's, unchanged.
    Rpc(String),
    /// The signed envelope could not be built.
    Construction(String),
}

/// An error as text.
pub enum RpcErrorView {
    Timeout(Seq<char>),
    Nats(Seq<char>),
    Deser(Seq<char>),
    Ser(Seq<char>),
    Rpc(Seq<char>),
    Construction(Seq<char>),
}

impl View for RpcError {
    type V = RpcErrorView;

    open spec fn view(&self) -> RpcErrorView {
        match self {
            RpcError::Timeout(m) => RpcErrorView::Timeout(m@),
            RpcError::Nats(m) => RpcErrorView::Nats(m@),
            RpcError::Deser(m) => RpcErrorView::Deser(m@),
            RpcError::Ser(m) => RpcErrorView::Ser(m@),
            RpcError::Rpc(m) => RpcErrorView::Rpc(m@),
            RpcError::Construction(m) => RpcErrorView::Construction(m@),
        }
    }
}

impl RpcErrorView {
    /// The text that the error carries.
    pub open spec fn message(self) -> Seq<char> {
        match self {
            RpcErrorView::Timeout(m) => m,
            RpcErrorView::Nats(m) => m,
            RpcErrorView::Deser(m) => m,
            RpcErrorView::Ser(m) => m,
            RpcErrorView::Rpc(m) => m,
            RpcErrorView::Construction(m) => m,
        }
    }
}

impl RpcError {
    /// The text that the error carries.
    pub fn message(&self) -> (text: &str)
        ensures
            text@ == self@.message(),
    {
        match self {
            RpcError::Timeout(m) => m.as_str(),
            RpcError::Nats(m) => m.as_str(),
            RpcError::Deser(m) => m.as_str(),
            RpcError::Ser(m) => m.as_str(),
            RpcError::Rpc(m) => m.as_str(),
            RpcError::Construction(m) => m.as_str(),
        }
    }
}

/// What an invocation ends in, as plain values.
pub open spec fn outcome_view(outcome: Result<Vec<u8>, RpcError>) -> Result<Seq<u8>, RpcErrorView> {
    match outcome {
        Ok(payload) => Ok(payload@),
        Err(e) => Err(e@),
    }
}

} // verus!
