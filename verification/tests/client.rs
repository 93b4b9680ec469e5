use std::time::Duration;

use wascap::prelude::Claims;
use wascap::prelude::KeyPair;
use wasmbus_rpc::codec::encode_response;
use wasmbus_rpc::decode::decode_invocation;
use wasmbus_rpc::digest::invocation_hash;
use wasmbus_rpc::entity::WasmCloudEntity;
use wasmbus_rpc::envelope::InvocationResponse;
use wasmbus_rpc::envelope::Message;
use wasmbus_rpc::error::RpcError;
use wasmbus_rpc::rpc_client::make_uuid;
use wasmbus_rpc::rpc_client::Outbound;
use wasmbus_rpc::rpc_client::PublishCall;
use wasmbus_rpc::rpc_client::Reply;
use wasmbus_rpc::rpc_client::RequestCall;
use wasmbus_rpc::rpc_client::RpcClient;
use wasmbus_rpc::rpc_client::DEFAULT_RPC_TIMEOUT_MILLIS;
use wasmbus_rpc::signing::claims_input;

fn actor(key: &str) -> WasmCloudEntity {
    WasmCloudEntity::new_actor(key.to_string())
}

fn hello() -> Message<'static> {
    Message { method: "Hello", arg: vec![0x80] }
}

fn client(timeout: Option<Duration>) -> RpcClient {
    RpcClient::new("default", KeyPair::new_user(), "NHOST".to_string(), timeout)
}

fn request_for(target_url: &str, method: &str) -> RequestCall {
    RequestCall {
        outbound: Outbound {
            topic: "wasmbus.rpc.default.A2".to_string(),
            body: vec![],
            target_url: target_url.to_string(),
            method: method.to_string(),
        },
        timeout: None,
    }
}

#[test]
fn send_makes_the_hello_invocation_ready() {
    let client = client(Some(Duration::from_millis(DEFAULT_RPC_TIMEOUT_MILLIS)));
    let call = client.send(actor("A1"), actor("A2"), hello()).unwrap();
    assert_eq!(call.timeout, Some(Duration::from_millis(2000)));
    assert_eq!(call.outbound.topic, "wasmbus.rpc.default.A2");
    assert_eq!(call.outbound.target_url, "wasmbus://A2/Hello");
    assert_eq!(call.outbound.method, "Hello");
    let invocation = decode_invocation(&call.outbound.body).unwrap();
    assert_eq!(invocation.origin, actor("A1"));
    assert_eq!(invocation.target, actor("A2"));
    assert_eq!(invocation.operation, "Hello");
    assert_eq!(invocation.msg, vec![0x80]);
    assert_eq!(invocation.host_id, "NHOST");
    assert_eq!(invocation.id.len(), 32);
}

#[test]
fn send_to_a_provider_uses_the_link_name() {
    let client = client(None);
    let target = WasmCloudEntity::new_provider("P1".to_string(), "default".to_string());
    let call = client.send(actor("A1"), target.clone(), hello()).unwrap();
    assert_eq!(call.timeout, None);
    assert_eq!(call.outbound.topic, "wasmbus.rpc.default.P1.default");
    assert_eq!(call.outbound.target_url, "wasmbus://P1/default/Hello");
    assert_eq!(decode_invocation(&call.outbound.body).unwrap().target, target);
}

#[test]
fn claims_bind_issuer_subject_urls_and_hash() {
    let key = KeyPair::new_user();
    let issuer = key.public_key();
    let client = RpcClient::new("default", key, "NHOST".to_string(), None);
    let call = client.send(actor("A1"), actor("A2"), hello()).unwrap();
    let invocation = decode_invocation(&call.outbound.body).unwrap();
    let claims = Claims::<wascap::prelude::Invocation>::decode(&invocation.encoded_claims).unwrap();
    assert_eq!(claims.issuer, issuer);
    assert_eq!(claims.subject, invocation.id);
    let bound = claims.metadata.unwrap();
    assert_eq!(bound.target_url, "wasmbus://A2/Hello");
    assert_eq!(bound.origin_url, "wasmbus://A1");
    assert_eq!(
        bound.invocation_hash,
        "560556BE252C6E903A1F0DC93680DEEA9FEF08274D1580C79527E2F919F275E9"
    );
    assert_eq!(
        bound.invocation_hash,
        invocation_hash("wasmbus://A2/Hello", "wasmbus://A1", "Hello", &[0x80])
    );
    let checked =
        wascap::prelude::validate_token::<wascap::prelude::Invocation>(&invocation.encoded_claims)
            .unwrap();
    assert!(checked.signature_valid);
    assert!(!checked.expired);
    assert_eq!(invocation.encoded_claims.split('.').count(), 3);
}

#[test]
fn a_signed_token_is_three_segments_of_url_safe_base64() {
    let client = client(None);
    let call = client.send(actor("A1"), actor("A2"), hello()).unwrap();
    let token = decode_invocation(&call.outbound.body).unwrap().encoded_claims;
    let segments: Vec<&str> = token.split('.').collect();
    assert_eq!(segments.len(), 3);
    for segment in segments {
        assert!(!segment.is_empty());
        assert!(segment.chars().all(|c| c.is_ascii_alphanumeric() || c == '-' || c == '_'));
    }
}

#[test]
fn claims_input_holds_both_urls_and_their_hash() {
    let target = WasmCloudEntity::new_provider("P1".to_string(), "default".to_string());
    let input = claims_input("ISSUER".to_string(), "the-id", &actor("A1"), &target, "Get", &[1, 2, 3]);
    assert_eq!(input.issuer, "ISSUER");
    assert_eq!(input.subject, "the-id");
    assert_eq!(input.target_url, "wasmbus://P1/default/Get");
    assert_eq!(input.origin_url, "wasmbus://A1");
    assert_eq!(input.hash, "91907EC6DF88976D9000A6890A4DE14FD7452BFF408174F480C5F37A0545AFF3");
}

#[test]
fn a_key_without_seed_cannot_sign() {
    let public_only = KeyPair::from_public_key(&KeyPair::new_user().public_key()).unwrap();
    let client = RpcClient::new("default", public_only, "NHOST".to_string(), None);
    match client.send(actor("A1"), actor("A2"), hello()) {
        Err(RpcError::Construction(text)) => assert!(!text.is_empty()),
        other => panic!("expected a construction error, got {:?}", other),
    }
    assert!(matches!(
        client.send_timeout(actor("A1"), actor("A2"), hello(), Duration::from_millis(1)),
        Err(RpcError::Construction(_))
    ));
    assert!(matches!(
        client.post(actor("A1"), actor("A2"), hello()),
        Err(RpcError::Construction(_))
    ));
}

#[test]
fn assemble_passes_the_signer_failure_on() {
    let client = client(None);
    let outcome = client.assemble(
        actor("A1"),
        actor("A2"),
        hello(),
        "id".to_string(),
        Err("no seed".to_string()),
    );
    assert_eq!(outcome, Err(RpcError::Construction("no seed".to_string())));
}

#[test]
fn assemble_encodes_the_invocation_with_the_given_id_and_token() {
    let client = client(None);
    let outbound = client
        .assemble(actor("A1"), actor("A2"), hello(), "the-id".to_string(), Ok("a.b.c".to_string()))
        .unwrap();
    assert_eq!(outbound.topic, "wasmbus.rpc.default.A2");
    assert_eq!(outbound.target_url, "wasmbus://A2/Hello");
    assert_eq!(outbound.method, "Hello");
    let invocation = decode_invocation(&outbound.body).unwrap();
    assert_eq!(invocation.id, "the-id");
    assert_eq!(invocation.encoded_claims, "a.b.c");
    assert_eq!(invocation.host_id, "NHOST");
    assert_eq!(invocation.operation, "Hello");
    assert_eq!(invocation.msg, vec![0x80]);
}

#[test]
fn each_invocation_has_its_own_id() {
    let client = client(None);
    let first = client.send(actor("A1"), actor("A2"), hello()).unwrap();
    let second = client.send(actor("A1"), actor("A2"), hello()).unwrap();
    let first = decode_invocation(&first.outbound.body).unwrap();
    let second = decode_invocation(&second.outbound.body).unwrap();
    assert_ne!(first.id, second.id);
}

#[test]
fn make_uuid_gives_32_lower_case_hex_digits() {
    let id = make_uuid();
    assert_eq!(id.len(), 32);
    assert!(id.chars().all(|c| c.is_ascii_digit() || ('a'..='f').contains(&c)));
    assert_eq!(id.as_bytes()[12], b'4');
    assert!(matches!(id.as_bytes()[16], b'8' | b'9' | b'a' | b'b'));
    assert_ne!(id, make_uuid());
}

#[test]
fn send_timeout_overrides_the_default_for_one_call() {
    let client = client(Some(Duration::from_secs(2)));
    let call = client
        .send_timeout(actor("A1"), actor("A2"), hello(), Duration::from_millis(1))
        .unwrap();
    assert_eq!(call.timeout, Some(Duration::from_millis(1)));
    assert_eq!(client.get_timeout(), Some(Duration::from_secs(2)));
    let next = client.send(actor("A1"), actor("A2"), hello()).unwrap();
    assert_eq!(next.timeout, Some(Duration::from_secs(2)));
}

#[test]
fn set_timeout_changes_later_calls_only() {
    let mut client = client(Some(Duration::from_secs(2)));
    let before = client.send(actor("A1"), actor("A2"), hello()).unwrap();
    client.set_timeout(None);
    assert_eq!(client.get_timeout(), None);
    let after = client.send(actor("A1"), actor("A2"), hello()).unwrap();
    assert_eq!(before.timeout, Some(Duration::from_secs(2)));
    assert_eq!(after.timeout, None);
    client.set_timeout(Some(Duration::from_millis(5)));
    assert_eq!(client.send(actor("A1"), actor("A2"), hello()).unwrap().timeout, Some(Duration::from_millis(5)));
}

#[test]
fn a_missed_deadline_is_a_timeout() {
    let call = request_for("wasmbus://A2/Hello", "Hello");
    assert_eq!(
        call.resolve(Reply::TimedOut("deadline has elapsed".to_string())),
        Err(RpcError::Timeout("sending to wasmbus://A2/Hello: deadline has elapsed".to_string()))
    );
}

#[test]
fn a_failed_transport_is_a_transport_error() {
    let call = request_for("wasmbus://A2/Hello", "Hello");
    assert_eq!(
        call.resolve(Reply::Failed("no responders".to_string())),
        Err(RpcError::Nats("rpc send error: wasmbus://A2/Hello: no responders".to_string()))
    );
}

#[test]
fn an_unreadable_reply_is_a_decoding_error() {
    let call = request_for("wasmbus://A2/Hello", "Hello");
    let expected = Err(RpcError::Deser("response to Hello: malformed reply".to_string()));
    assert_eq!(call.resolve(Reply::Data(vec![])), expected);
    assert_eq!(call.resolve(Reply::Data(vec![0xc0])), expected);
    assert_eq!(call.resolve(Reply::Data(vec![0x81, 0xa3, b'm', b's', b'g'])), expected);
}

#[test]
fn a_reported_error_wins_over_the_payload() {
    let call = request_for("wasmbus://A2/Hello", "Hello");
    for msg in [vec![], vec![1, 2, 3], vec![0xff; 300]] {
        let reply =
            encode_response(&InvocationResponse { msg, error: Some("boom".to_string()) }).unwrap();
        assert_eq!(call.resolve(Reply::Data(reply)), Err(RpcError::Rpc("boom".to_string())));
    }
}

#[test]
fn a_reply_with_the_error_first_is_read_alike() {
    let call = request_for("wasmbus://A2/Hello", "Hello");
    let error_first = vec![
        0x82, 0xa5, b'e', b'r', b'r', b'o', b'r', 0xa4, b'b', b'o', b'o', b'm', 0xa3, b'm', b's',
        b'g', 0xc4, 0x02, 1, 2,
    ];
    assert_eq!(call.resolve(Reply::Data(error_first)), Err(RpcError::Rpc("boom".to_string())));
}

#[test]
fn a_reply_without_error_gives_its_payload() {
    let call = request_for("wasmbus://A2/Hello", "Hello");
    let reply = encode_response(&InvocationResponse { msg: vec![1, 2, 3], error: None }).unwrap();
    assert_eq!(call.resolve(Reply::Data(reply)), Ok(vec![1, 2, 3]));
    let empty = encode_response(&InvocationResponse { msg: vec![], error: None }).unwrap();
    assert_eq!(call.resolve(Reply::Data(empty)), Ok(vec![]));
}

#[test]
fn response_resolve_drops_the_payload_where_an_error_is_reported() {
    let with_error = InvocationResponse { msg: vec![1, 2, 3], error: Some("boom".to_string()) };
    assert_eq!(with_error.resolve(), Err(RpcError::Rpc("boom".to_string())));
    let empty_error = InvocationResponse { msg: vec![1], error: Some(String::new()) };
    assert_eq!(empty_error.resolve(), Err(RpcError::Rpc(String::new())));
    let without = InvocationResponse { msg: vec![1, 2, 3], error: None };
    assert_eq!(without.resolve(), Ok(vec![1, 2, 3]));
}

#[test]
fn post_succeeds_once_the_publish_is_accepted() {
    let client = client(Some(Duration::from_secs(2)));
    let call: PublishCall = client.post(actor("A1"), actor("A2"), hello()).unwrap();
    assert_eq!(call.outbound.topic, "wasmbus.rpc.default.A2");
    assert_eq!(decode_invocation(&call.outbound.body).unwrap().operation, "Hello");
    assert_eq!(call.resolve(Ok(())), Ok(()));
    assert_eq!(
        call.resolve(Err("connection closed".to_string())),
        Err(RpcError::Nats("rpc send error: wasmbus://A2/Hello: connection closed".to_string()))
    );
}

#[test]
fn error_message_is_the_text_it_carries() {
    assert_eq!(RpcError::Timeout("t".to_string()).message(), "t");
    assert_eq!(RpcError::Nats("n".to_string()).message(), "n");
    assert_eq!(RpcError::Deser("d".to_string()).message(), "d");
    assert_eq!(RpcError::Ser("s".to_string()).message(), "s");
    assert_eq!(RpcError::Rpc("r".to_string()).message(), "r");
    assert_eq!(RpcError::Construction("c".to_string()).message(), "c");
}

#[test]
fn a_transport_that_never_replies_ends_in_a_timeout() {
    let client = client(None);
    let call = client
        .send_timeout(actor("A1"), actor("A2"), hello(), Duration::from_millis(1))
        .unwrap();
    assert_eq!(call.outbound.topic, "wasmbus.rpc.default.A2");
    let runtime = tokio::runtime::Builder::new_current_thread().enable_time().build().unwrap();
    let started = std::time::Instant::now();
    let reply = runtime.block_on(async {
        match tokio::time::timeout(call.timeout.unwrap(), std::future::pending::<Vec<u8>>()).await {
            Ok(bytes) => Reply::Data(bytes),
            Err(elapsed) => Reply::TimedOut(elapsed.to_string()),
        }
    });
    assert!(started.elapsed() < Duration::from_secs(5));
    assert_eq!(
        call.resolve(reply),
        Err(RpcError::Timeout("sending to wasmbus://A2/Hello: deadline has elapsed".to_string()))
    );
}
