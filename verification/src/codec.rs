//! The wire form of the envelopes: a compact binary encoding in which an
//! envelope is a map from field names to strings and byte strings.
//!
//! A map of up to fifteen entries starts with one byte that holds their
//! number. A string is its UTF-8 bytes behind a header that holds their
//! number, and a byte string likewise; a header takes the shortest of the
//! forms that can hold the length.
use vstd::prelude::*;
use vstd::utf8::encode_utf8;
use vstd::utf8::is_ascii_chars;
use vstd::utf8::is_ascii_chars_encode_utf8;
use crate::entity::EntityView;
use crate::entity::WasmCloudEntity;
use crate::envelope::Invocation;
use crate::envelope::InvocationView;
use crate::envelope::InvocationResponse;
use crate::envelope::ResponseView;

verus! {

/// The greatest length that a header can hold.
pub open spec fn max_len() -> nat {
    0xffff_ffff
}

/// The four bytes of a length, the most significant first.
pub open spec fn be32(n: nat) -> Seq<u8> {
    seq![
        (n / 0x100_0000 % 0x100) as u8,
        (n / 0x1_0000 % 0x100) as u8,
        (n / 0x100 % 0x100) as u8,
        (n % 0x100) as u8,
    ]
}

/// The two bytes of a length below 65536, the most significant first.
pub open spec fn be16(n: nat) -> Seq<u8> {
    seq![(n / 0x100 % 0x100) as u8, (n % 0x100) as u8]
}

/// The header of a string of `n` bytes.
pub open spec fn str_header(n: nat) -> Seq<u8> {
    if n < 32 {
        seq![(0xa0 + n) as u8]
    } else if n < 0x100 {
        seq![0xd9u8, n as u8]
    } else if n < 0x1_0000 {
        seq![0xdau8] + be16(n)
    } else {
        seq![0xdbu8] + be32(n)
    }
}

/// The header of a byte string of `n` bytes.
pub open spec fn bin_header(n: nat) -> Seq<u8> {
    if n < 0x100 {
        seq![0xc4u8, n as u8]
    } else if n < 0x1_0000 {
        seq![0xc5u8] + be16(n)
    } else {
        seq![0xc6u8] + be32(n)
    }
}

/// The header of a map of `n` entries, for `n` up to fifteen.
pub open spec fn map_header(n: nat) -> Seq<u8> {
    seq![(0x80 + n) as u8]
}

/// A string on the wire.
pub open spec fn enc_str(s: Seq<char>) -> Seq<u8> {
    str_header(encode_utf8(s).len()) + encode_utf8(s)
}

/// A byte string on the wire.
pub open spec fn enc_bin(b: Seq<u8>) -> Seq<u8> {
    bin_header(b.len()) + b
}

/// The string can be sent: a header can hold the length of its UTF-8 form.
pub open spec fn str_fits(s: Seq<char>) -> bool {
    encode_utf8(s).len() <= max_len()
}

/// An entity on the wire: a map of its two fields.
pub open spec fn enc_entity(e: EntityView) -> Seq<u8> {
    map_header(2) + enc_str("public_key"@) + enc_str(e.public_key) + enc_str("link_name"@)
        + enc_str(e.link_name)
}

/// Every field of the entity can be sent.
pub open spec fn entity_fits(e: EntityView) -> bool {
    str_fits(e.public_key) && str_fits(e.link_name)
}

/// An invocation on the wire: a map of its seven fields.
pub open spec fn enc_invocation(i: InvocationView) -> Seq<u8> {
    map_header(7) + enc_str("origin"@) + enc_entity(i.origin) + enc_str("target"@) + enc_entity(
        i.target,
    ) + enc_str("operation"@) + enc_str(i.operation) + enc_str("msg"@) + enc_bin(i.msg) + enc_str(
        "id"@,
    ) + enc_str(i.id) + enc_str("encoded_claims"@) + enc_str(i.encoded_claims) + enc_str(
        "host_id"@,
    ) + enc_str(i.host_id)
}

/// Every field of the invocation can be sent.
pub open spec fn invocation_fits(i: InvocationView) -> bool {
    &&& entity_fits(i.origin)
    &&& entity_fits(i.target)
    &&& str_fits(i.operation)
    &&& i.msg.len() <= max_len()
    &&& str_fits(i.id)
    &&& str_fits(i.encoded_claims)
    &&& str_fits(i.host_id)
}

/// A reply on the wire: a map of the payload and, where the remote side
/// reported one, the error.
pub open spec fn enc_response(r: ResponseView) -> Seq<u8> {
    match r.error {
        None => map_header(1) + enc_str("msg"@) + enc_bin(r.msg),
        Some(e) => map_header(2) + enc_str("msg"@) + enc_bin(r.msg) + enc_str("error"@) + enc_str(
            e,
        ),
    }
}

/// A reply on the wire with its two fields in the other order, the error
/// first. A reply without error has one field and so one order.
pub open spec fn enc_response_error_first(r: ResponseView) -> Seq<u8> {
    match r.error {
        None => enc_response(r),
        Some(e) => map_header(2) + enc_str("error"@) + enc_str(e) + enc_str("msg"@) + enc_bin(
            r.msg,
        ),
    }
}

/// The bytes are the reply on the wire, its fields in one order or the other.
pub open spec fn is_response_encoding(b: Seq<u8>, r: ResponseView) -> bool {
    b == enc_response(r) || b == enc_response_error_first(r)
}

/// Every field of the reply can be sent.
pub open spec fn response_fits(r: ResponseView) -> bool {
    &&& r.msg.len() <= max_len()
    &&& r.error matches Some(e) ==> str_fits(e)
}

/// Appends the four bytes of `n`, the most significant first.
fn put_be32(out: &mut Vec<u8>, n: u32)
    ensures
        final(out)@ == old(out)@ + be32(n as nat),
{
    out.push((n / 0x100_0000 % 0x100) as u8);
    out.push((n / 0x1_0000 % 0x100) as u8);
    out.push((n / 0x100 % 0x100) as u8);
    out.push((n % 0x100) as u8);
    assert(final(out)@ =~= old(out)@ + be32(n as nat));
}

/// Appends the two bytes of `n`, the most significant first.
fn put_be16(out: &mut Vec<u8>, n: u32)
    requires
        n < 0x1_0000,
    ensures
        final(out)@ == old(out)@ + be16(n as nat),
{
    out.push((n / 0x100 % 0x100) as u8);
    out.push((n % 0x100) as u8);
    assert(final(out)@ =~= old(out)@ + be16(n as nat));
}

/// Appends the header of a string of `n` bytes.
fn put_str_header(out: &mut Vec<u8>, n: u32)
    ensures
        final(out)@ == old(out)@ + str_header(n as nat),
{
    if n < 32 {
        out.push((0xa0 + n) as u8);
        assert(final(out)@ =~= old(out)@ + str_header(n as nat));
    } else if n < 0x100 {
        out.push(0xd9);
        out.push(n as u8);
        assert(final(out)@ =~= old(out)@ + str_header(n as nat));
    } else if n < 0x1_0000 {
        out.push(0xda);
        put_be16(out, n);
        assert(final(out)@ =~= old(out)@ + str_header(n as nat));
    } else {
        out.push(0xdb);
        put_be32(out, n);
        assert(final(out)@ =~= old(out)@ + str_header(n as nat));
    }
}

/// Appends the header of a byte string of `n` bytes.
fn put_bin_header(out: &mut Vec<u8>, n: u32)
    ensures
        final(out)@ == old(out)@ + bin_header(n as nat),
{
    if n < 0x100 {
        out.push(0xc4);
        out.push(n as u8);
        assert(final(out)@ =~= old(out)@ + bin_header(n as nat));
    } else if n < 0x1_0000 {
        out.push(0xc5);
        put_be16(out, n);
        assert(final(out)@ =~= old(out)@ + bin_header(n as nat));
    } else {
        out.push(0xc6);
        put_be32(out, n);
        assert(final(out)@ =~= old(out)@ + bin_header(n as nat));
    }
}

/// Appends a string, if a header can hold its length; says whether it did.
fn put_str(out: &mut Vec<u8>, s: &str) -> (done: bool)
    ensures
        done == str_fits(s@),
        done ==> final(out)@ == old(out)@ + enc_str(s@),
        !done ==> final(out)@ == old(out)@,
{
    let bytes = s.as_bytes();
    if bytes.len() > 0xffff_ffff {
        return false;
    }
    put_str_header(out, bytes.len() as u32);
    out.extend_from_slice(bytes);
    assert(final(out)@ =~= old(out)@ + enc_str(s@));
    true
}

/// Appends a byte string, if a header can hold its length; says whether it did.
fn put_bin(out: &mut Vec<u8>, b: &[u8]) -> (done: bool)
    ensures
        done == (b@.len() <= max_len()),
        done ==> final(out)@ == old(out)@ + enc_bin(b@),
        !done ==> final(out)@ == old(out)@,
{
    if b.len() > 0xffff_ffff {
        return false;
    }
    put_bin_header(out, b.len() as u32);
    out.extend_from_slice(b);
    assert(final(out)@ =~= old(out)@ + enc_bin(b@));
    true
}

/// A text of ASCII characters takes one byte for each character.
pub proof fn lemma_ascii_len(s: Seq<char>)
    requires
        is_ascii_chars(s),
    ensures
        encode_utf8(s).len() == s.len(),
{
    is_ascii_chars_encode_utf8(s);
}

/// The field names can be sent.
pub proof fn lemma_keys_fit()
    ensures
        str_fits("public_key"@),
        str_fits("link_name"@),
        str_fits("origin"@),
        str_fits("target"@),
        str_fits("operation"@),
        str_fits("msg"@),
        str_fits("id"@),
        str_fits("encoded_claims"@),
        str_fits("host_id"@),
        str_fits("error"@),
{
    reveal_strlit("public_key");
    reveal_strlit("link_name");
    reveal_strlit("origin");
    reveal_strlit("target");
    reveal_strlit("operation");
    reveal_strlit("msg");
    reveal_strlit("id");
    reveal_strlit("encoded_claims");
    reveal_strlit("host_id");
    reveal_strlit("error");
    lemma_ascii_len("public_key"@);
    lemma_ascii_len("link_name"@);
    lemma_ascii_len("origin"@);
    lemma_ascii_len("target"@);
    lemma_ascii_len("operation"@);
    lemma_ascii_len("msg"@);
    lemma_ascii_len("id"@);
    lemma_ascii_len("encoded_claims"@);
    lemma_ascii_len("host_id"@);
    lemma_ascii_len("error"@);
}

/// Appends a field name.
fn put_key(out: &mut Vec<u8>, key: &str)
    requires
        str_fits(key@),
    ensures
        final(out)@ == old(out)@ + enc_str(key@),
{
    let done = put_str(out, key);
    assert(done);
}

/// Appends an entity, if every field can be sent; says whether it did.
fn put_entity(out: &mut Vec<u8>, entity: &WasmCloudEntity) -> (done: bool)
    ensures
        done == entity_fits(entity@),
        done ==> final(out)@ == old(out)@ + enc_entity(entity@),
{
    out.push(0x82);
    assert(out@ =~= old(out)@ + map_header(2));
    proof {
        lemma_keys_fit();
    }
    put_key(out, "public_key");
    if !put_str(out, entity.public_key.as_str()) {
        return false;
    }
    put_key(out, "link_name");
    if !put_str(out, entity.link_name.as_str()) {
        return false;
    }
    assert(final(out)@ =~= old(out)@ + enc_entity(entity@));
    true
}

/// Encodes an invocation for the wire. There is an encoding unless a field
/// is too long for a header to hold its length.
pub fn encode_invocation(invocation: &Invocation) -> (bytes: Option<Vec<u8>>)
    ensures
        bytes is Some <==> invocation_fits(invocation@),
        bytes matches Some(b) ==> b@ == enc_invocation(invocation@),
{
    let mut out: Vec<u8> = Vec::new();
    out.push(0x87);
    assert(out@ =~= map_header(7));
    proof {
        lemma_keys_fit();
    }
    put_key(&mut out, "origin");
    if !put_entity(&mut out, &invocation.origin) {
        return None;
    }
    put_key(&mut out, "target");
    if !put_entity(&mut out, &invocation.target) {
        return None;
    }
    put_key(&mut out, "operation");
    if !put_str(&mut out, invocation.operation.as_str()) {
        return None;
    }
    put_key(&mut out, "msg");
    if !put_bin(&mut out, invocation.msg.as_slice()) {
        return None;
    }
    put_key(&mut out, "id");
    if !put_str(&mut out, invocation.id.as_str()) {
        return None;
    }
    put_key(&mut out, "encoded_claims");
    if !put_str(&mut out, invocation.encoded_claims.as_str()) {
        return None;
    }
    put_key(&mut out, "host_id");
    if !put_str(&mut out, invocation.host_id.as_str()) {
        return None;
    }
    assert(out@ =~= enc_invocation(invocation@));
    Some(out)
}

/// Encodes a reply for the wire. There is an encoding unless a field is too
/// long for a header to hold its length.
pub fn encode_response(response: &InvocationResponse) -> (bytes: Option<Vec<u8>>)
    ensures
        bytes is Some <==> response_fits(response@),
        bytes matches Some(b) ==> b@ == enc_response(response@),
{
    let mut out: Vec<u8> = Vec::new();
    proof {
        lemma_keys_fit();
    }
    match &response.error {
        None => {
            out.push(0x81);
            assert(out@ =~= map_header(1));
            put_key(&mut out, "msg");
            if !put_bin(&mut out, response.msg.as_slice()) {
                return None;
            }
            assert(out@ =~= enc_response(response@));
        },
        Some(e) => {
            out.push(0x82);
            assert(out@ =~= map_header(2));
            put_key(&mut out, "msg");
            if !put_bin(&mut out, response.msg.as_slice()) {
                return None;
            }
            put_key(&mut out, "error");
            if !put_str(&mut out, e.as_str()) {
                return None;
            }
            assert(out@ =~= enc_response(response@));
        },
    }
    Some(out)
}

} // verus!
