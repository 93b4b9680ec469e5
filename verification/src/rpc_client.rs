//! Sending invocations: topics, fresh ids, and the client that builds the
//! signed envelope for the transport and judges what the transport brings back.
use std::sync::Arc;
use std::time::Duration;
use vstd::prelude::*;
use vstd::string::StringExecFns;
use crate::codec::enc_invocation;
use crate::codec::encode_invocation;
use crate::codec::invocation_fits;
use crate::decode::decode_response;
use crate::decode::decoded_response;
use crate::decode::lemma_response_order_free;
use crate::codec::is_response_encoding;
use crate::codec::response_fits;
use crate::entity::operation_url;
use crate::entity::operation_url_spec;
use crate::entity::push_path;
use crate::entity::EntityView;
use crate::entity::WasmCloudEntity;
use crate::envelope::Invocation;
use crate::envelope::InvocationView;
use crate::envelope::Message;
use crate::envelope::ResponseView;
use crate::error::outcome_view;
use crate::error::RpcError;
use crate::error::RpcErrorView;
use crate::signing::claims_input_spec;
use crate::signing::claims_view;
use crate::signing::is_signed_token;
use crate::signing::signing_outcome;
use crate::signing::token_claims;
use crate::signing::urls_too_long;
use crate::signing::sign_invocation;

verus! {

/// Default time, in milliseconds, that a client waits for a reply.
pub const DEFAULT_RPC_TIMEOUT_MILLIS: u64 = 2000;

/// The subject on which invocations of `entity` travel in the lattice
/// `lattice_prefix`: `wasmbus.rpc.<prefix>.<identity>`, followed for a
/// provider by `.<link name>`.
pub fn rpc_topic(entity: &WasmCloudEntity, lattice_prefix: &str) -> (topic: String)
    ensures
        topic@ == entity@.topic(lattice_prefix@),
{
    let mut topic = String::from_str("wasmbus.rpc.");
    topic.append(lattice_prefix);
    proof {
        reveal_strlit(".");
        assert("."@ =~= seq!['.']);
    }
    topic.append(".");
    assert(topic@ =~= "wasmbus.rpc."@ + lattice_prefix@.push('.'));
    push_path(&mut topic, entity, ".", Ghost('.'));
    topic
}

/// A digit or a lower-case letter from `a` to `f`.
pub open spec fn is_lower_hex(c: char) -> bool {
    ('0' <= c <= '9') || ('a' <= c <= 'f')
}

/// What every fresh invocation id looks like: a version 4 UUID written as
/// 32 lower-case hexadecimal digits without hyphens. The digit at index 12
/// is the version, `4`; the digit at index 16 holds the variant in its two
/// high bits, so it is `8`, `9`, `a` or `b`.
pub open spec fn is_invocation_id(id: Seq<char>) -> bool {
    &&& id.len() == 32
    &&& forall|i: int| 0 <= i < 32 ==> is_lower_hex(#[trigger] id[i])
    &&& id[12] == '4'
    &&& (id[16] == '8' || id[16] == '9' || id[16] == 'a' || id[16] == 'b')
}

/// A fresh random id for an invocation.
///
/// Calls `uuid::Uuid::new_v4`, which draws 16 bytes from the operating
/// system's random source and sets the version and the variant in them, and
/// writes the result with `to_simple().encode_lower`. The contract claims
/// the form of the text: 32 lower-case hexadecimal digits, with the version
/// and variant digits in their places. The other digits are left to chance.
///
/// `new_v4` panics where the system gives no random bytes; no input decides
/// that, so no precondition can leave it out.
#[verifier::external_body]
pub fn make_uuid() -> (id: String)
    ensures
        is_invocation_id(id@),
{
    uuid::Uuid::new_v4().to_simple().encode_lower(&mut uuid::Uuid::encode_buffer()).to_string()
}

/// An invocation made ready for the transport.
#[derive(Clone, Debug, PartialEq, Eq)]
pub struct Outbound {
    /// the subject to send on
    pub topic: String,
    /// the encoded invocation
    pub body: Vec<u8>,
    /// URL of the target's operation, for error messages
    pub target_url: String,
    /// name of the operation, for error messages
    pub method: String,
}

/// An outbound invocation as plain values.
pub struct OutboundView {
    pub topic: Seq<char>,
    pub body: Seq<u8>,
    pub target_url: Seq<char>,
    pub method: Seq<char>,
}

impl View for Outbound {
    type V = OutboundView;

    open spec fn view(&self) -> OutboundView {
        OutboundView {
            topic: self.topic@,
            body: self.body@,
            target_url: self.target_url@,
            method: self.method@,
        }
    }
}

/// What is made ready for the transport, given the id of the invocation and
/// what the signer returned: the signer's failure, or the invocation encoded
/// with its topic, or a failure to encode where a field is too long.
pub open spec fn assembled(
    lattice_prefix: Seq<char>,
    host_id: Seq<char>,
    origin: EntityView,
    target: EntityView,
    method: Seq<char>,
    arg: Seq<u8>,
    id: Seq<char>,
    claims: Result<Seq<char>, Seq<char>>,
) -> Result<OutboundView, RpcErrorView> {
    match claims {
        Err(e) => Err(RpcErrorView::Construction(e)),
        Ok(token) => {
            let invocation = InvocationView {
                origin,
                target,
                operation: method,
                msg: arg,
                id,
                encoded_claims: token,
                host_id,
            };
            if invocation_fits(invocation) {
                Ok(
                    OutboundView {
                        topic: target.topic(lattice_prefix),
                        body: enc_invocation(invocation),
                        target_url: operation_url_spec(target, method),
                        method,
                    },
                )
            } else {
                Err(RpcErrorView::Ser("invocation too large"@))
            }
        },
    }
}

/// An outbound invocation or the error in its place, as plain values.
pub open spec fn outbound_view(r: Result<Outbound, RpcError>) -> Result<OutboundView, RpcErrorView> {
    match r {
        Ok(o) => Ok(o@),
        Err(e) => Err(e@),
    }
}

/// What the transport reports of a request.
#[derive(Clone, Debug, PartialEq, Eq)]
pub enum Reply {
    /// the bytes of the reply
    Data(Vec<u8>),
    /// the transport failed; the text says how
    Failed(String),
    /// the deadline passed first; the text is the timer's
    TimedOut(String),
}

/// A transport report as plain values.
pub enum ReplyView {
    Data(Seq<u8>),
    Failed(Seq<char>),
    TimedOut(Seq<char>),
}

impl View for Reply {
    type V = ReplyView;

    open spec fn view(&self) -> ReplyView {
        match self {
            Reply::Data(bytes) => ReplyView::Data(bytes@),
            Reply::Failed(e) => ReplyView::Failed(e@),
            Reply::TimedOut(e) => ReplyView::TimedOut(e@),
        }
    }
}

/// The text of a transport failure: what was sent to, and the cause.
pub open spec fn send_error_text(target_url: Seq<char>, cause: Seq<char>) -> Seq<char> {
    "rpc send error: "@ + target_url + ": "@ + cause
}

/// The text of a missed deadline: what was sent to, and the timer's words.
pub open spec fn timeout_text(target_url: Seq<char>, cause: Seq<char>) -> Seq<char> {
    "sending to "@ + target_url + ": "@ + cause
}

/// The text for a reply that is not the encoding of a response.
pub open spec fn malformed_text(method: Seq<char>) -> Seq<char> {
    "response to "@ + method + ": "@ + "malformed reply"@
}

/// What the caller of a request gets for each report of the transport: a
/// transport error, a timeout, a decoding error, the error that the remote
/// side reported, or the payload.
pub open spec fn resolved_request(
    target_url: Seq<char>,
    method: Seq<char>,
    reply: ReplyView,
) -> Result<Seq<u8>, RpcErrorView> {
    match reply {
        ReplyView::Failed(e) => Err(RpcErrorView::Nats(send_error_text(target_url, e))),
        ReplyView::TimedOut(e) => Err(RpcErrorView::Timeout(timeout_text(target_url, e))),
        ReplyView::Data(bytes) => match decoded_response(bytes) {
            None => Err(RpcErrorView::Deser(malformed_text(method))),
            Some(response) => response.resolved(),
        },
    }
}

/// What the remote side answered reaches the caller: for a reply on the
/// wire, with its fields in either order, a request ends in the error that
/// the reply reports, whatever its payload holds, and in the payload where it
/// reports none.
pub proof fn lemma_reply_reaches_caller(
    target_url: Seq<char>,
    method: Seq<char>,
    bytes: Seq<u8>,
    response: ResponseView,
)
    requires
        response_fits(response),
        is_response_encoding(bytes, response),
    ensures
        resolved_request(target_url, method, ReplyView::Data(bytes)) == response.resolved(),
        response.error matches Some(e) ==> resolved_request(
            target_url,
            method,
            ReplyView::Data(bytes),
        ) == Err::<Seq<u8>, RpcErrorView>(RpcErrorView::Rpc(e)),
{
    lemma_response_order_free(bytes, response);
}

/// A missed deadline ends a request in a timeout error, and a failed
/// transport in a transport error: neither is taken for the other, nor for a reply.
pub proof fn lemma_failures_stay_apart(target_url: Seq<char>, method: Seq<char>, cause: Seq<char>)
    ensures
        resolved_request(target_url, method, ReplyView::TimedOut(cause)) matches Err(e)
            && e is Timeout,
        resolved_request(target_url, method, ReplyView::Failed(cause)) matches Err(e) && e is Nats,
{
}

/// `a`, `b`, `c` and `d`, one after the other.
fn concat4(a: &str, b: &str, c: &str, d: &str) -> (text: String)
    ensures
        text@ == a@ + b@ + c@ + d@,
{
    let mut text = String::from_str(a);
    text.append(b);
    text.append(c);
    text.append(d);
    text
}

/// A request that waits for its reply: the invocation, and how long to wait.
#[derive(Clone, Debug, PartialEq, Eq)]
pub struct RequestCall {
    pub outbound: Outbound,
    /// the time after which the call gives up; `None` waits without limit
    pub timeout: Option<Duration>,
}

/// A publish: the invocation is handed to the transport and no reply is awaited.
#[derive(Clone, Debug, PartialEq, Eq)]
pub struct PublishCall {
    pub outbound: Outbound,
}

impl RequestCall {
    /// Turns what the transport reported into the caller's result.
    pub fn resolve(&self, reply: Reply) -> (outcome: Result<Vec<u8>, RpcError>)
        ensures
            outcome_view(outcome) == resolved_request(
                self.outbound@.target_url,
                self.outbound@.method,
                reply@,
            ),
    {
        match reply {
            Reply::Failed(e) => Err(
                RpcError::Nats(
                    concat4("rpc send error: ", self.outbound.target_url.as_str(), ": ", e.as_str()),
                ),
            ),
            Reply::TimedOut(e) => Err(
                RpcError::Timeout(
                    concat4("sending to ", self.outbound.target_url.as_str(), ": ", e.as_str()),
                ),
            ),
            Reply::Data(bytes) => match decode_response(bytes.as_slice()) {
                None => Err(
                    RpcError::Deser(
                        concat4("response to ", self.outbound.method.as_str(), ": ", "malformed reply"),
                    ),
                ),
                Some(response) => response.resolve(),
            },
        }
    }
}

impl PublishCall {
    /// Turns what the transport said of the publish into the caller's result.
    pub fn resolve(&self, accepted: Result<(), String>) -> (outcome: Result<(), RpcError>)
        ensures
            match outcome {
                Ok(_) => accepted is Ok,
                Err(e) => accepted matches Err(cause) && e@ == RpcErrorView::Nats(
                    send_error_text(self.outbound@.target_url, cause@),
                ),
            },
    {
        match accepted {
            Ok(_) => Ok(()),
            Err(e) => Err(
                RpcError::Nats(
                    concat4("rpc send error: ", self.outbound.target_url.as_str(), ": ", e.as_str()),
                ),
            ),
        }
    }
}

/// Sends invocations to actors and providers of one lattice, signed with one key.
///
/// The client holds no connection: it makes an invocation ready, and judges
/// what the transport reports of it.
#[derive(Clone)]
pub struct RpcClient {
    /// prefix of the lattice's subjects
    lattice_prefix: String,
    /// key pair that signs the invocations
    key: Arc<wascap::prelude::KeyPair>,
    /// identity of the host, sent with each invocation
    host_id: String,
    /// how long to wait for a reply, where the caller names no time
    timeout: Option<Duration>,
}

impl RpcClient {
    /// Prefix of the lattice's subjects.
    pub closed spec fn lattice_prefix(&self) -> Seq<char> {
        self.lattice_prefix@
    }

    /// Identity of the host.
    pub closed spec fn host_id(&self) -> Seq<char> {
        self.host_id@
    }

    /// How long the client waits for a reply where the caller names no time.
    pub closed spec fn timeout(&self) -> Option<Duration> {
        self.timeout
    }

    /// The key pair that signs the client's invocations.
    pub closed spec fn signing_key(&self) -> wascap::prelude::KeyPair {
        *self.key
    }

    /// A client for the lattice `lattice_prefix` that signs with `key`, sends
    /// `host_id` as the host's identity, and waits `timeout` for replies.
    pub fn new(
        lattice_prefix: &str,
        key: wascap::prelude::KeyPair,
        host_id: String,
        timeout: Option<Duration>,
    ) -> (client: RpcClient)
        ensures
            client.lattice_prefix() == lattice_prefix@,
            client.host_id() == host_id@,
            client.timeout() == timeout,
            client.signing_key() == key,
    {
        RpcClient {
            lattice_prefix: String::from_str(lattice_prefix),
            key: Arc::new(key),
            host_id,
            timeout,
        }
    }

    /// Replaces the default timeout; `None` makes later calls wait without
    /// limit. Nothing else of the client changes.
    pub fn set_timeout(&mut self, timeout: Option<Duration>)
        ensures
            final(self).timeout() == timeout,
            final(self).lattice_prefix() == old(self).lattice_prefix(),
            final(self).host_id() == old(self).host_id(),
            final(self).signing_key() == old(self).signing_key(),
    {
        self.timeout = timeout;
    }

    /// The default timeout.
    pub fn get_timeout(&self) -> (timeout: Option<Duration>)
        ensures
            timeout == self.timeout(),
    {
        self.timeout
    }

    /// Makes an invocation ready for the transport, from its id and from
    /// what the signer returned for it.
    pub fn assemble(
        &self,
        origin: WasmCloudEntity,
        target: WasmCloudEntity,
        message: Message<'_>,
        id: String,
        claims: Result<String, String>,
    ) -> (outbound: Result<Outbound, RpcError>)
        ensures
            outbound_view(outbound) == assembled(
                self.lattice_prefix(),
                self.host_id(),
                origin@,
                target@,
                message.method@,
                message.arg@,
                id@,
                claims_view(claims),
            ),
    {
        let token = match claims {
            Ok(token) => token,
            Err(e) => { return Err(RpcError::Construction(e)); },
        };
        let topic = rpc_topic(&target, self.lattice_prefix.as_str());
        let target_url = operation_url(&target, message.method);
        let method = String::from_str(message.method);
        let invocation = Invocation {
            origin,
            target,
            operation: method.clone(),
            msg: message.arg,
            id,
            encoded_claims: token,
            host_id: self.host_id.clone(),
        };
        match encode_invocation(&invocation) {
            Some(body) => Ok(Outbound { topic, body, target_url, method }),
            None => Err(RpcError::Ser(String::from_str("invocation too large"))),
        }
    }

    /// An outbound invocation is one that this client made ready for these
    /// parties and this message: under some fresh id, with a signed token
    /// that carries, for some issuer, that id as subject, both URLs and the
    /// integrity hash of the URLs, the operation and the payload.
    pub open spec fn prepared(
        &self,
        origin: EntityView,
        target: EntityView,
        method: Seq<char>,
        arg: Seq<u8>,
        outbound: OutboundView,
    ) -> bool {
        exists|id: Seq<char>, token: Seq<char>, issuer: Seq<char>|
            #![trigger
                claims_input_spec(issuer, id, origin, target, method, arg),
                assembled(
                    self.lattice_prefix(),
                    self.host_id(),
                    origin,
                    target,
                    method,
                    arg,
                    id,
                    Ok(token),
                ),
            ]
            is_invocation_id(id) && is_signed_token(token) && token_claims(token) == Some(
                claims_input_spec(issuer, id, origin, target, method, arg),
            ) && assembled(
                self.lattice_prefix(),
                self.host_id(),
                origin,
                target,
                method,
                arg,
                id,
                Ok(token),
            ) == Ok::<OutboundView, RpcErrorView>(outbound)
    }

    /// Builds the signed invocation for one call and makes it ready for the
    /// transport: draws a fresh id, signs the claims over both URLs and the
    /// integrity hash, and encodes the envelope.
    ///
    /// The id is random and the signer may fail, so the contract says what
    /// holds whatever they gave.
    fn inner_rpc(&self, origin: WasmCloudEntity, target: WasmCloudEntity, message: Message<'_>) -> (outbound:
        Result<Outbound, RpcError>)
        ensures
            match outbound {
                Ok(o) => self.prepared(origin@, target@, message.method@, message.arg@, o@),
                Err(e) => e@ is Construction || e@ == RpcErrorView::Ser("invocation too large"@),
            },
            urls_too_long(origin@, target@, message.method@) ==> (outbound matches Err(e) && e@
                == RpcErrorView::Construction("claims too large to sign"@)),
    {
        let id = make_uuid();
        let claims = sign_invocation(
            &self.key,
            id.as_str(),
            &origin,
            &target,
            message.method,
            message.arg.as_slice(),
        );
        let ghost id_view = id@;
        let ghost claims_seen = claims_view(claims);
        let outbound = self.assemble(origin, target, message, id, claims);
        proof {
            if let Ok(o) = &outbound {
                let token = claims_seen->Ok_0;
                let issuer = choose|issuer: Seq<char>|
                    signing_outcome(
                        claims_seen,
                        #[trigger] claims_input_spec(
                            issuer,
                            id_view,
                            origin@,
                            target@,
                            message.method@,
                            message.arg@,
                        ),
                    );
                assert(token_claims(token) == Some(
                    claims_input_spec(
                        issuer,
                        id_view,
                        origin@,
                        target@,
                        message.method@,
                        message.arg@,
                    ),
                ));
                assert(assembled(
                    self.lattice_prefix(),
                    self.host_id(),
                    origin@,
                    target@,
                    message.method@,
                    message.arg@,
                    id_view,
                    Ok(token),
                ) == Ok::<OutboundView, RpcErrorView>(o@));
            }
        }
        outbound
    }

    /// Makes ready a request that waits for its reply as long as the
    /// client's default timeout says, or without limit where none is set.
    pub fn send(&self, origin: WasmCloudEntity, target: WasmCloudEntity, message: Message<'_>) -> (call:
        Result<RequestCall, RpcError>)
        ensures
            match call {
                Ok(c) => c.timeout == self.timeout() && self.prepared(
                    origin@,
                    target@,
                    message.method@,
                    message.arg@,
                    c.outbound@,
                ),
                Err(e) => e@ is Construction || e@ == RpcErrorView::Ser("invocation too large"@),
            },
            urls_too_long(origin@, target@, message.method@) ==> (call matches Err(e) && e@
                == RpcErrorView::Construction("claims too large to sign"@)),
    {
        match self.inner_rpc(origin, target, message) {
            Ok(outbound) => Ok(RequestCall { outbound, timeout: self.timeout }),
            Err(e) => Err(e),
        }
    }

    /// Makes ready a request that waits for its reply for `timeout`,
    /// whatever the client's default is; the default stays as it was.
    pub fn send_timeout(
        &self,
        origin: WasmCloudEntity,
        target: WasmCloudEntity,
        message: Message<'_>,
        timeout: Duration,
    ) -> (call: Result<RequestCall, RpcError>)
        ensures
            match call {
                Ok(c) => c.timeout == Some(timeout) && self.prepared(
                    origin@,
                    target@,
                    message.method@,
                    message.arg@,
                    c.outbound@,
                ),
                Err(e) => e@ is Construction || e@ == RpcErrorView::Ser("invocation too large"@),
            },
            urls_too_long(origin@, target@, message.method@) ==> (call matches Err(e) && e@
                == RpcErrorView::Construction("claims too large to sign"@)),
    {
        match self.inner_rpc(origin, target, message) {
            Ok(outbound) => Ok(RequestCall { outbound, timeout: Some(timeout) }),
            Err(e) => Err(e),
        }
    }

    /// Makes ready a publish: the invocation is sent and no reply is awaited.
    pub fn post(&self, origin: WasmCloudEntity, target: WasmCloudEntity, message: Message<'_>) -> (call:
        Result<PublishCall, RpcError>)
        ensures
            match call {
                Ok(c) => self.prepared(
                    origin@,
                    target@,
                    message.method@,
                    message.arg@,
                    c.outbound@,
                ),
                Err(e) => e@ is Construction || e@ == RpcErrorView::Ser("invocation too large"@),
            },
            urls_too_long(origin@, target@, message.method@) ==> (call matches Err(e) && e@
                == RpcErrorView::Construction("claims too large to sign"@)),
    {
        match self.inner_rpc(origin, target, message) {
            Ok(outbound) => Ok(PublishCall { outbound }),
            Err(e) => Err(e),
        }
    }
}

} // verus!
