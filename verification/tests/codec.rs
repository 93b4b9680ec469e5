use std::collections::BTreeMap;

use serde_bytes::ByteBuf;
use wasmbus_rpc::codec::encode_invocation;
use wasmbus_rpc::codec::encode_response;
use wasmbus_rpc::decode::decode_invocation;
use wasmbus_rpc::decode::decode_response;
use wasmbus_rpc::entity::WasmCloudEntity;
use wasmbus_rpc::envelope::Invocation;
use wasmbus_rpc::envelope::InvocationResponse;

fn sample_invocation() -> Invocation {
    Invocation {
        origin: WasmCloudEntity::new_actor("A1".to_string()),
        target: WasmCloudEntity::new_provider("P1".to_string(), "default".to_string()),
        operation: "Hello".to_string(),
        msg: vec![0x80],
        id: "0123456789abcdef0123456789abcdef".to_string(),
        encoded_claims: "head.claims.sig".to_string(),
        host_id: "NHOST".to_string(),
    }
}

fn push_str(out: &mut Vec<u8>, s: &str) {
    assert!(s.len() < 32);
    out.push(0xa0 + s.len() as u8);
    out.extend_from_slice(s.as_bytes());
}

fn push_entity(out: &mut Vec<u8>, key: &str, link: &str) {
    out.push(0x82);
    push_str(out, "public_key");
    push_str(out, key);
    push_str(out, "link_name");
    push_str(out, link);
}

fn sample_invocation_bytes() -> Vec<u8> {
    let mut out = vec![0x87];
    push_str(&mut out, "origin");
    push_entity(&mut out, "A1", "");
    push_str(&mut out, "target");
    push_entity(&mut out, "P1", "default");
    push_str(&mut out, "operation");
    push_str(&mut out, "Hello");
    push_str(&mut out, "msg");
    out.extend_from_slice(&[0xc4, 0x01, 0x80]);
    push_str(&mut out, "id");
    out.extend_from_slice(&[0xd9, 32]);
    out.extend_from_slice(b"0123456789abcdef0123456789abcdef");
    push_str(&mut out, "encoded_claims");
    push_str(&mut out, "head.claims.sig");
    push_str(&mut out, "host_id");
    push_str(&mut out, "NHOST");
    out
}

#[test]
fn response_without_error_is_a_map_of_one_entry() {
    let response = InvocationResponse { msg: vec![1, 2, 3], error: None };
    assert_eq!(
        encode_response(&response),
        Some(vec![0x81, 0xa3, b'm', b's', b'g', 0xc4, 0x03, 1, 2, 3])
    );
}

#[test]
fn response_with_error_is_a_map_of_two_entries() {
    let response = InvocationResponse { msg: vec![], error: Some("boom".to_string()) };
    assert_eq!(
        encode_response(&response),
        Some(vec![
            0x82, 0xa3, b'm', b's', b'g', 0xc4, 0x00, 0xa5, b'e', b'r', b'r', b'o', b'r', 0xa4,
            b'b', b'o', b'o', b'm',
        ])
    );
}

#[test]
fn invocation_is_a_map_of_seven_entries() {
    assert_eq!(encode_invocation(&sample_invocation()), Some(sample_invocation_bytes()));
}

#[test]
fn invocation_round_trip() {
    let invocation = sample_invocation();
    let bytes = encode_invocation(&invocation).unwrap();
    let back = decode_invocation(&bytes).unwrap();
    assert_eq!(back.origin, invocation.origin);
    assert_eq!(back.target, invocation.target);
    assert_eq!(back.operation, invocation.operation);
    assert_eq!(back.msg, invocation.msg);
    assert_eq!(back.id, invocation.id);
    assert_eq!(back.encoded_claims, invocation.encoded_claims);
    assert_eq!(back.host_id, invocation.host_id);
    assert_eq!(back, invocation);
}

#[test]
fn invocation_round_trip_with_long_and_empty_fields() {
    let invocation = Invocation {
        origin: WasmCloudEntity::new_actor(String::new()),
        target: WasmCloudEntity::new_provider("P".repeat(31), "l".repeat(32)),
        operation: "o".repeat(255),
        msg: vec![7; 70_000],
        id: "i".repeat(256),
        encoded_claims: "c".repeat(65_536),
        host_id: "h\u{e9}\u{4e16}\u{1f600}".to_string(),
    };
    let bytes = encode_invocation(&invocation).unwrap();
    assert_eq!(decode_invocation(&bytes), Some(invocation));
}

#[test]
fn string_headers_take_the_shortest_form() {
    let with_error = |e: String| {
        encode_response(&InvocationResponse { msg: vec![], error: Some(e) }).unwrap()
    };
    let head = 13;
    assert_eq!(with_error("e".repeat(31))[head], 0xbf);
    assert_eq!(with_error("e".repeat(32))[head..head + 2], [0xd9, 32]);
    assert_eq!(with_error("e".repeat(255))[head..head + 2], [0xd9, 255]);
    assert_eq!(with_error("e".repeat(256))[head..head + 3], [0xda, 1, 0]);
    assert_eq!(with_error("e".repeat(65_535))[head..head + 3], [0xda, 255, 255]);
    assert_eq!(with_error("e".repeat(65_536))[head..head + 5], [0xdb, 0, 1, 0, 0]);
    // the length counts bytes of UTF-8, not characters
    assert_eq!(with_error("\u{e9}".repeat(16))[head..head + 2], [0xd9, 32]);
}

#[test]
fn byte_string_headers_take_the_shortest_form() {
    let with_msg =
        |n: usize| encode_response(&InvocationResponse { msg: vec![0; n], error: None }).unwrap();
    assert_eq!(with_msg(0)[5..7], [0xc4, 0]);
    assert_eq!(with_msg(255)[5..7], [0xc4, 255]);
    assert_eq!(with_msg(256)[5..8], [0xc5, 1, 0]);
    assert_eq!(with_msg(65_535)[5..8], [0xc5, 255, 255]);
    assert_eq!(with_msg(65_536)[5..10], [0xc6, 0, 1, 0, 0]);
    assert_eq!(with_msg(0x0102_0304)[5..10], [0xc6, 1, 2, 3, 4]);
}

#[test]
fn response_round_trip() {
    for error in [None, Some(String::new()), Some("boom".to_string()), Some("x".repeat(300))] {
        for msg in [vec![], vec![0xc0], vec![9; 256], vec![1; 65_536]] {
            let response = InvocationResponse { msg: msg.clone(), error: error.clone() };
            let bytes = encode_response(&response).unwrap();
            assert_eq!(decode_response(&bytes), Some(response));
        }
    }
}

#[test]
fn decode_response_reads_exact_bytes() {
    let bytes = [0x81, 0xa3, b'm', b's', b'g', 0xc4, 0x02, 0xde, 0xad];
    assert_eq!(
        decode_response(&bytes),
        Some(InvocationResponse { msg: vec![0xde, 0xad], error: None })
    );
}

#[test]
fn decode_response_refuses_what_is_no_encoding() {
    let good = vec![0x82, 0xa3, b'm', b's', b'g', 0xc4, 0x01, 7, 0xa5, b'e', b'r', b'r', b'o', b'r', 0xa1, b'x'];
    assert!(decode_response(&good).is_some());
    // empty input
    assert_eq!(decode_response(&[]), None);
    // every proper prefix is cut short
    for n in 0..good.len() {
        assert_eq!(decode_response(&good[..n]), None, "prefix of {} bytes", n);
    }
    // bytes behind the end
    let mut trailing = good.clone();
    trailing.push(0);
    assert_eq!(decode_response(&trailing), None);
    // a map of another size
    let mut other_size = good.clone();
    other_size[0] = 0x83;
    assert_eq!(decode_response(&other_size), None);
    // another field name
    let mut other_key = good.clone();
    other_key[2] = b'n';
    assert_eq!(decode_response(&other_key), None);
    // the payload as a string, not a byte string
    let mut other_kind = good.clone();
    other_kind[5] = 0xd9;
    assert_eq!(decode_response(&other_kind), None);
    // an error that is nil, not a string
    let nil_error = vec![0x82, 0xa3, b'm', b's', b'g', 0xc4, 0x00, 0xa5, b'e', b'r', b'r', b'o', b'r', 0xc0];
    assert_eq!(decode_response(&nil_error), None);
}

#[test]
fn decode_response_takes_the_fields_in_either_order() {
    let expected = InvocationResponse { msg: vec![1, 2], error: Some("boom".to_string()) };
    let msg_first = vec![
        0x82, 0xa3, b'm', b's', b'g', 0xc4, 0x02, 1, 2, 0xa5, b'e', b'r', b'r', b'o', b'r',
        0xa4, b'b', b'o', b'o', b'm',
    ];
    let error_first = vec![
        0x82, 0xa5, b'e', b'r', b'r', b'o', b'r', 0xa4, b'b', b'o', b'o', b'm', 0xa3, b'm', b's',
        b'g', 0xc4, 0x02, 1, 2,
    ];
    assert_eq!(decode_response(&msg_first), Some(expected.clone()));
    assert_eq!(decode_response(&error_first), Some(expected.clone()));
    assert_eq!(encode_response(&expected), Some(msg_first));
    for n in 0..error_first.len() {
        assert_eq!(decode_response(&error_first[..n]), None, "prefix of {} bytes", n);
    }
}

#[test]
fn decode_response_refuses_a_field_given_twice() {
    let msg_twice =
        vec![0x82, 0xa3, b'm', b's', b'g', 0xc4, 0x00, 0xa3, b'm', b's', b'g', 0xc4, 0x00];
    assert_eq!(decode_response(&msg_twice), None);
    let error_twice = vec![
        0x82, 0xa5, b'e', b'r', b'r', b'o', b'r', 0xa1, b'x', 0xa5, b'e', b'r', b'r', b'o', b'r',
        0xa1, b'y',
    ];
    assert_eq!(decode_response(&error_twice), None);
    let error_alone = vec![0x81, 0xa5, b'e', b'r', b'r', b'o', b'r', 0xa1, b'x'];
    assert_eq!(decode_response(&error_alone), None);
}

#[test]
fn decode_refuses_headers_longer_than_needed() {
    // the one-byte payload announced by a two-byte length
    let wide_bin = [0x81, 0xa3, b'm', b's', b'g', 0xc5, 0x00, 0x01, 7];
    assert_eq!(decode_response(&wide_bin), None);
    let wider_bin = [0x81, 0xa3, b'm', b's', b'g', 0xc6, 0x00, 0x00, 0x00, 0x01, 7];
    assert_eq!(decode_response(&wider_bin), None);
    // the field name announced by a one-byte length
    let wide_key = [0x81, 0xd9, 0x03, b'm', b's', b'g', 0xc4, 0x01, 7];
    assert_eq!(decode_response(&wide_key), None);
    let wide_error = [
        0x82, 0xa3, b'm', b's', b'g', 0xc4, 0x00, 0xa5, b'e', b'r', b'r', b'o', b'r', 0xda, 0x00,
        0x01, b'x',
    ];
    assert_eq!(decode_response(&wide_error), None);
    let wider_error = [
        0x82, 0xa3, b'm', b's', b'g', 0xc4, 0x00, 0xa5, b'e', b'r', b'r', b'o', b'r', 0xdb, 0x00,
        0x00, 0x00, 0x01, b'x',
    ];
    assert_eq!(decode_response(&wider_error), None);
}

#[test]
fn decode_refuses_text_that_is_not_utf8() {
    let bad = [0x82, 0xa3, b'm', b's', b'g', 0xc4, 0x00, 0xa5, b'e', b'r', b'r', b'o', b'r', 0xa2, 0xc3, 0x28];
    assert_eq!(decode_response(&bad), None);
    let good = [0x82, 0xa3, b'm', b's', b'g', 0xc4, 0x00, 0xa5, b'e', b'r', b'r', b'o', b'r', 0xa2, 0xc3, 0xa9];
    assert_eq!(
        decode_response(&good),
        Some(InvocationResponse { msg: vec![], error: Some("\u{e9}".to_string()) })
    );
}

#[test]
fn decode_invocation_refuses_what_is_no_encoding() {
    let good = sample_invocation_bytes();
    assert_eq!(decode_invocation(&good), Some(sample_invocation()));
    for n in 0..good.len() {
        assert_eq!(decode_invocation(&good[..n]), None, "prefix of {} bytes", n);
    }
    let mut trailing = good.clone();
    trailing.push(0xc0);
    assert_eq!(decode_invocation(&trailing), None);
    let mut six = good.clone();
    six[0] = 0x86;
    assert_eq!(decode_invocation(&six), None);
    // a response is no invocation, and an invocation no response
    let response = encode_response(&InvocationResponse { msg: vec![], error: None }).unwrap();
    assert_eq!(decode_invocation(&response), None);
    assert_eq!(decode_response(&good), None);
}

#[test]
fn changing_any_byte_of_an_encoding_changes_what_it_decodes_to() {
    let good = sample_invocation_bytes();
    let original = sample_invocation();
    for i in 0..good.len() {
        let mut changed = good.clone();
        changed[i] ^= 0x01;
        assert_ne!(decode_invocation(&changed), Some(original.clone()), "byte {}", i);
    }
}

#[test]
fn response_bytes_are_read_by_a_messagepack_reader() {
    let response = InvocationResponse { msg: vec![1, 2, 3], error: Some("boom".to_string()) };
    let bytes = encode_response(&response).unwrap();
    let fields: BTreeMap<String, ByteBuf> = rmp_serde::from_slice(&bytes).unwrap();
    assert_eq!(fields.len(), 2);
    assert_eq!(fields["msg"].as_ref(), [1u8, 2, 3].as_slice());
    assert_eq!(fields["error"].as_ref(), b"boom".as_slice());
}

#[test]
fn response_bytes_from_a_messagepack_writer_are_decoded() {
    let mut fields: BTreeMap<String, ByteBuf> = BTreeMap::new();
    fields.insert("msg".to_string(), ByteBuf::from(vec![9u8; 300]));
    let bytes = rmp_serde::to_vec(&fields).unwrap();
    assert_eq!(
        decode_response(&bytes),
        Some(InvocationResponse { msg: vec![9u8; 300], error: None })
    );
    assert_eq!(
        encode_response(&InvocationResponse { msg: vec![9u8; 300], error: None }),
        Some(bytes)
    );
}
