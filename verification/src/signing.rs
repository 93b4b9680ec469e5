//! Signed claims: the token that binds an invocation to its sender.
use vstd::prelude::*;
use vstd::string::StringExecFns;
use vstd::utf8::encode_utf8;
use crate::digest::invocation_hash;
use crate::digest::invocation_hash_spec;
use crate::entity::operation_url;
use crate::entity::operation_url_spec;
use crate::entity::EntityView;
use crate::entity::WasmCloudEntity;
use crate::text::segment_count;

verus! {

/// A key pair of the `nkeys` crate, as `wascap` hands it on.
#[verifier::external_type_specification]
#[verifier::external_body]
pub struct ExKeyPair(wascap::prelude::KeyPair);

/// The error type of the `wascap` crate.
#[verifier::external_type_specification]
#[verifier::external_body]
pub struct ExWascapError(wascap::Error);

/// Calls `KeyPair::public_key`: the public identity of the signer. Nothing
/// is claimed of the text.
#[verifier::external_body]
fn public_identity(key: &wascap::prelude::KeyPair) -> String {
    key.public_key()
}

/// A character of the URL-safe base64 alphabet: a letter, a digit, `-` or `_`.
pub open spec fn is_token_char(c: char) -> bool {
    ('A' <= c <= 'Z') || ('a' <= c <= 'z') || ('0' <= c <= '9') || c == '-' || c == '_'
}

/// The form of every signed token: header, claims and signature, each in
/// URL-safe base64 without padding, with a dot between them.
pub open spec fn is_signed_token(token: Seq<char>) -> bool {
    &&& segment_count(token, '.') == 3
    &&& forall|i: int|
        0 <= i < token.len() ==> #[trigger] token[i] == '.' || is_token_char(token[i])
}

/// The claims that a token carries: what `Claims::<Invocation>::decode`
/// reads from it, as issuer, subject, and the target URL, origin URL and hash
/// of the invocation; `None` where it reads no claims of an invocation.
pub uninterp spec fn token_claims(token: Seq<char>) -> Option<ClaimsInputView>;

/// The claims are short enough for the signer. It writes them as JSON, in
/// which a byte of text takes six bytes at most, beside less than 1024 bytes
/// of its own, and encodes that with `data_encoding`, which takes no more
/// than `usize::MAX / 512` bytes.
pub open spec fn claims_signable(input: ClaimsInputView) -> bool {
    6 * (encode_utf8(input.issuer).len() + encode_utf8(input.subject).len() + encode_utf8(
        input.target_url,
    ).len() + encode_utf8(input.origin_url).len() + encode_utf8(input.hash).len()) + 1024
        <= usize::MAX / 512
}

/// Calls `Claims::<Invocation>::new` with the five texts of `input` and, on
/// the claims it returns, `Claims::encode`. The first stamps the claims with
/// the current time and a fresh token id; the second signs them with the key
/// pair, and fails where the key pair holds no seed.
///
/// The token holds the time of signing, so the contract does not give its
/// text. It claims the token's form: `encode` joins the header, the claims
/// and the signature with dots, each written with
/// `data_encoding::BASE64URL_NOPAD`. And it claims what the token carries:
/// the claims segment is the JSON of the claims, from which `decode` reads
/// the five texts back as they went in.
///
/// `encode` panics on claims whose JSON is longer than `usize::MAX / 512`
/// bytes, which the precondition leaves out. `new` panics where the clock
/// stands before 1970 or the lock of the token id generator is poisoned; no
/// input decides that, so no precondition can leave it out.
#[verifier::external_body]
fn encode_claims(key: &wascap::prelude::KeyPair, input: &ClaimsInput) -> (token: Result<
    String,
    wascap::Error,
>)
    requires
        claims_signable(input@),
    ensures
        token matches Ok(t) ==> is_signed_token(t@) && token_claims(t@) == Some(input@),
{
    wascap::prelude::Claims::<wascap::prelude::Invocation>::new(
        input.issuer.clone(),
        input.subject.clone(),
        &input.target_url,
        &input.origin_url,
        &input.hash,
    ).encode(key)
}

/// Calls `to_string` on an error of `wascap`. Nothing is claimed of the text.
#[verifier::external_body]
fn signing_error_text(error: &wascap::Error) -> String {
    error.to_string()
}

/// What is signed for one invocation.
#[derive(Clone, Debug, PartialEq, Eq)]
pub struct ClaimsInput {
    /// public identity of the signer
    pub issuer: String,
    /// id of the invocation
    pub subject: String,
    /// URL of the target's operation
    pub target_url: String,
    /// URL of the origin
    pub origin_url: String,
    /// integrity hash of both URLs, the operation name and the payload
    pub hash: String,
}

/// What is signed, as text.
pub struct ClaimsInputView {
    pub issuer: Seq<char>,
    pub subject: Seq<char>,
    pub target_url: Seq<char>,
    pub origin_url: Seq<char>,
    pub hash: Seq<char>,
}

impl View for ClaimsInput {
    type V = ClaimsInputView;

    open spec fn view(&self) -> ClaimsInputView {
        ClaimsInputView {
            issuer: self.issuer@,
            subject: self.subject@,
            target_url: self.target_url@,
            origin_url: self.origin_url@,
            hash: self.hash@,
        }
    }
}

/// The claims of an invocation bind the issuer and the invocation's id to
/// the URL of the target's operation, the URL of the origin, and the
/// integrity hash of exactly these two URLs, the operation name and the payload.
pub open spec fn claims_input_spec(
    issuer: Seq<char>,
    subject: Seq<char>,
    origin: EntityView,
    target: EntityView,
    method: Seq<char>,
    args: Seq<u8>,
) -> ClaimsInputView {
    ClaimsInputView {
        issuer,
        subject,
        target_url: operation_url_spec(target, method),
        origin_url: origin.url(),
        hash: invocation_hash_spec(operation_url_spec(target, method), origin.url(), method, args),
    }
}

/// Gathers what is signed for one invocation.
pub fn claims_input(
    issuer: String,
    subject: &str,
    origin: &WasmCloudEntity,
    target: &WasmCloudEntity,
    method: &str,
    args: &[u8],
) -> (input: ClaimsInput)
    ensures
        input@ == claims_input_spec(issuer@, subject@, origin@, target@, method@, args@),
{
    let origin_url = origin.url();
    let target_url = operation_url(target, method);
    let hash = invocation_hash(target_url.as_str(), origin_url.as_str(), method, args);
    ClaimsInput { issuer, subject: subject.to_owned(), target_url, origin_url, hash }
}

/// What the signer returned, as text.
pub open spec fn claims_view(claims: Result<String, String>) -> Result<Seq<char>, Seq<char>> {
    match claims {
        Ok(token) => Ok(token@),
        Err(e) => Err(e@),
    }
}

/// What signing the claims `input` may end in: where they are too long for
/// the signer, the error that says so; else a signed token that carries
/// exactly these claims, or the signer's own error.
pub open spec fn signing_outcome(
    token: Result<Seq<char>, Seq<char>>,
    input: ClaimsInputView,
) -> bool {
    &&& !claims_signable(input) ==> token == Err::<Seq<char>, Seq<char>>(
        "claims too large to sign"@,
    )
    &&& token matches Ok(t) ==> is_signed_token(t) && token_claims(t) == Some(input)
}

/// The two URLs of an invocation alone are too long for the signer, whoever
/// signs and whatever the id and the payload are.
pub open spec fn urls_too_long(origin: EntityView, target: EntityView, method: Seq<char>) -> bool {
    6 * (encode_utf8(operation_url_spec(target, method)).len() + encode_utf8(origin.url()).len())
        + 1024 > usize::MAX / 512
}

/// Whether the claims are short enough for the signer.
fn is_signable(input: &ClaimsInput) -> (b: bool)
    ensures
        b == claims_signable(input@),
{
    let limit: usize = (usize::MAX / 512 - 1024) / 6;
    let issuer = input.issuer.as_str().as_bytes().len();
    if issuer > limit {
        return false;
    }
    let mut left: usize = limit - issuer;
    let subject = input.subject.as_str().as_bytes().len();
    if subject > left {
        return false;
    }
    left = left - subject;
    let target_url = input.target_url.as_str().as_bytes().len();
    if target_url > left {
        return false;
    }
    left = left - target_url;
    let origin_url = input.origin_url.as_str().as_bytes().len();
    if origin_url > left {
        return false;
    }
    left = left - origin_url;
    let hash = input.hash.as_str().as_bytes().len();
    proof {
        let room = usize::MAX / 512 - 1024;
        assert(6 * limit <= room < 6 * limit + 6);
        assert(left == limit - issuer - subject - target_url - origin_url);
        assert(hash <= left <==> 6 * (issuer + subject + target_url + origin_url + hash) <= room);
    }
    hash <= left
}

/// Signs the claims `input` with `key`.
pub(crate) fn sign_claims(key: &wascap::prelude::KeyPair, input: &ClaimsInput) -> (token: Result<
    String,
    String,
>)
    ensures
        signing_outcome(claims_view(token), input@),
{
    if !is_signable(input) {
        return Err(String::from_str("claims too large to sign"));
    }
    match encode_claims(key, input) {
        Ok(token) => Ok(token),
        Err(e) => Err(signing_error_text(&e)),
    }
}

/// Signs the claims of one invocation with `key`, whose public identity is
/// the issuer.
///
/// What comes back is a signed token that carries the claims of this
/// invocation: the id as subject, both URLs and the integrity hash. Or it is
/// an error: the signer's message where it failed, and a message of this
/// library where the claims are too long for the signer. The issuer is the
/// key's to say, and the token holds the time of signing, so the contract
/// names neither.
pub(crate) fn sign_invocation(
    key: &wascap::prelude::KeyPair,
    subject: &str,
    origin: &WasmCloudEntity,
    target: &WasmCloudEntity,
    method: &str,
    args: &[u8],
) -> (token: Result<String, String>)
    ensures
        exists|issuer: Seq<char>|
            signing_outcome(
                claims_view(token),
                #[trigger] claims_input_spec(issuer, subject@, origin@, target@, method@, args@),
            ),
        urls_too_long(origin@, target@, method@) ==> claims_view(token) == Err::<
            Seq<char>,
            Seq<char>,
        >("claims too large to sign"@),
{
    let input = claims_input(public_identity(key), subject, origin, target, method, args);
    let token = sign_claims(key, &input);
    assert(signing_outcome(
        claims_view(token),
        claims_input_spec(input@.issuer, subject@, origin@, target@, method@, args@),
    ));
    token
}

} // verus!
