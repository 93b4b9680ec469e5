//! Decoding the envelopes, and the laws that tie decoding to encoding.
use vstd::prelude::*;
use vstd::string::StringExecFns;
use crate::codec::enc_bin;
use crate::codec::enc_entity;
use crate::codec::enc_invocation;
use crate::codec::enc_response;
use crate::codec::enc_response_error_first;
use crate::codec::is_response_encoding;
use crate::codec::enc_str;
use crate::codec::entity_fits;
use crate::codec::invocation_fits;
use crate::codec::lemma_keys_fit;
use crate::codec::map_header;
use crate::codec::max_len;
use crate::codec::response_fits;
use crate::codec::str_fits;
use crate::entity::EntityView;
use crate::entity::WasmCloudEntity;
use crate::envelope::Invocation;
use crate::envelope::InvocationResponse;
use crate::envelope::InvocationView;
use crate::envelope::ResponseView;
use crate::parse::bin_end;
use crate::parse::bin_val;
use crate::parse::byte_end;
use crate::parse::key_end;
use crate::parse::lemma_bin_found;
use crate::parse::lemma_bin_stands;
use crate::parse::lemma_byte_found;
use crate::parse::lemma_byte_stands;
use crate::parse::lemma_stands_at_concat;
use crate::parse::lemma_str_found;
use crate::parse::lemma_str_stands;
use crate::parse::stands_at;
use crate::parse::str_end;
use crate::parse::str_val;
use crate::parse::take_bin;
use crate::parse::take_str;

verus! {

/// Where the entity ends that starts at the offset; nothing where none starts there.
pub open spec fn entity_end(b: Seq<u8>, at: Option<nat>) -> Option<nat> {
    let c0 = byte_end(b, at, 0x82);
    let c1 = key_end(b, c0, "public_key"@);
    let c2 = str_end(b, c1);
    let c3 = key_end(b, c2, "link_name"@);
    str_end(b, c3)
}

/// The entity that starts at the offset.
pub open spec fn entity_val(b: Seq<u8>, at: Option<nat>) -> EntityView {
    let c0 = byte_end(b, at, 0x82);
    let c1 = key_end(b, c0, "public_key"@);
    let c2 = str_end(b, c1);
    let c3 = key_end(b, c2, "link_name"@);
    EntityView { public_key: str_val(b, c1), link_name: str_val(b, c3) }
}

/// Where the reply ends that starts at the offset; nothing where none
/// starts there. The two fields of a reply with an error may come in either order.
pub open spec fn response_end(b: Seq<u8>, at: Option<nat>) -> Option<nat> {
    if byte_end(b, at, 0x81) is Some {
        let c1 = key_end(b, byte_end(b, at, 0x81), "msg"@);
        bin_end(b, c1)
    } else if key_end(b, byte_end(b, at, 0x82), "msg"@) is Some {
        let c1 = key_end(b, byte_end(b, at, 0x82), "msg"@);
        let c2 = bin_end(b, c1);
        let c3 = key_end(b, c2, "error"@);
        str_end(b, c3)
    } else {
        let c1 = key_end(b, byte_end(b, at, 0x82), "error"@);
        let c2 = str_end(b, c1);
        let c3 = key_end(b, c2, "msg"@);
        bin_end(b, c3)
    }
}

/// The reply that starts at the offset.
pub open spec fn response_val(b: Seq<u8>, at: Option<nat>) -> ResponseView {
    if byte_end(b, at, 0x81) is Some {
        let c1 = key_end(b, byte_end(b, at, 0x81), "msg"@);
        ResponseView { msg: bin_val(b, c1), error: None }
    } else if key_end(b, byte_end(b, at, 0x82), "msg"@) is Some {
        let c1 = key_end(b, byte_end(b, at, 0x82), "msg"@);
        let c2 = bin_end(b, c1);
        let c3 = key_end(b, c2, "error"@);
        ResponseView { msg: bin_val(b, c1), error: Some(str_val(b, c3)) }
    } else {
        let c1 = key_end(b, byte_end(b, at, 0x82), "error"@);
        let c2 = str_end(b, c1);
        let c3 = key_end(b, c2, "msg"@);
        ResponseView { msg: bin_val(b, c3), error: Some(str_val(b, c1)) }
    }
}

/// Where the invocation ends that starts at the offset; nothing where none starts there.
pub open spec fn invocation_end(b: Seq<u8>, at: Option<nat>) -> Option<nat> {
    let c0 = byte_end(b, at, 0x87);
    let c1 = key_end(b, c0, "origin"@);
    let c2 = entity_end(b, c1);
    let c3 = key_end(b, c2, "target"@);
    let c4 = entity_end(b, c3);
    let c5 = key_end(b, c4, "operation"@);
    let c6 = str_end(b, c5);
    let c7 = key_end(b, c6, "msg"@);
    let c8 = bin_end(b, c7);
    let c9 = key_end(b, c8, "id"@);
    let c10 = str_end(b, c9);
    let c11 = key_end(b, c10, "encoded_claims"@);
    let c12 = str_end(b, c11);
    let c13 = key_end(b, c12, "host_id"@);
    str_end(b, c13)
}

/// The invocation that starts at the offset.
pub open spec fn invocation_val(b: Seq<u8>, at: Option<nat>) -> InvocationView {
    let c0 = byte_end(b, at, 0x87);
    let c1 = key_end(b, c0, "origin"@);
    let c2 = entity_end(b, c1);
    let c3 = key_end(b, c2, "target"@);
    let c4 = entity_end(b, c3);
    let c5 = key_end(b, c4, "operation"@);
    let c6 = str_end(b, c5);
    let c7 = key_end(b, c6, "msg"@);
    let c8 = bin_end(b, c7);
    let c9 = key_end(b, c8, "id"@);
    let c10 = str_end(b, c9);
    let c11 = key_end(b, c10, "encoded_claims"@);
    let c12 = str_end(b, c11);
    let c13 = key_end(b, c12, "host_id"@);
    InvocationView {
        origin: entity_val(b, c1),
        target: entity_val(b, c3),
        operation: str_val(b, c5),
        msg: bin_val(b, c7),
        id: str_val(b, c9),
        encoded_claims: str_val(b, c11),
        host_id: str_val(b, c13),
    }
}

/// The invocation that `b` is the encoding of, if it is the encoding of one.
pub open spec fn decoded_invocation(b: Seq<u8>) -> Option<InvocationView> {
    if invocation_end(b, Some(0nat)) == Some(b.len()) {
        Some(invocation_val(b, Some(0nat)))
    } else {
        None
    }
}

/// The reply that `b` is the encoding of, if it is the encoding of one.
pub open spec fn decoded_response(b: Seq<u8>) -> Option<ResponseView> {
    if response_end(b, Some(0nat)) == Some(b.len()) {
        Some(response_val(b, Some(0nat)))
    } else {
        None
    }
}

/// A field name that stands at an offset is read there.
proof fn lemma_key_found(b: Seq<u8>, off: nat, key: Seq<char>)
    requires
        str_fits(key),
        stands_at(b, off, enc_str(key)),
    ensures
        key_end(b, Some(off), key) == Some(off + enc_str(key).len()),
{
    lemma_str_found(b, off, key);
}

/// Where a field name is read, it stands.
proof fn lemma_key_stands(b: Seq<u8>, off: nat, key: Seq<char>)
    requires
        key_end(b, Some(off), key) is Some,
    ensures
        stands_at(b, off, enc_str(key)),
        key_end(b, Some(off), key) == Some(off + enc_str(key).len()),
{
    lemma_str_stands(b, off);
}

/// The encoding of an entity that stands at an offset is read there as that entity.
pub proof fn lemma_entity_found(b: Seq<u8>, off: nat, e: EntityView)
    requires
        entity_fits(e),
        stands_at(b, off, enc_entity(e)),
    ensures
        entity_end(b, Some(off)) == Some(off + enc_entity(e).len()),
        entity_val(b, Some(off)) == e,
{
    lemma_keys_fit();
    let h = map_header(2);
    let k1 = enc_str("public_key"@);
    let v1 = enc_str(e.public_key);
    let k2 = enc_str("link_name"@);
    let v2 = enc_str(e.link_name);
    lemma_stands_at_concat(b, off, h + k1 + v1 + k2, v2);
    lemma_stands_at_concat(b, off, h + k1 + v1, k2);
    lemma_stands_at_concat(b, off, h + k1, v1);
    lemma_stands_at_concat(b, off, h, k1);
    assert(h =~= seq![0x82u8]);
    lemma_byte_found(b, off, 0x82);
    let o1 = off + 1;
    lemma_key_found(b, o1, "public_key"@);
    let o2 = o1 + k1.len();
    lemma_str_found(b, o2, e.public_key);
    let o3 = o2 + v1.len();
    lemma_key_found(b, o3, "link_name"@);
    let o4 = o3 + k2.len();
    lemma_str_found(b, o4, e.link_name);
}

/// Where an entity is read, the encoding of that entity stands.
pub proof fn lemma_entity_stands(b: Seq<u8>, off: nat)
    requires
        entity_end(b, Some(off)) is Some,
    ensures
        entity_fits(entity_val(b, Some(off))),
        stands_at(b, off, enc_entity(entity_val(b, Some(off)))),
        entity_end(b, Some(off)) == Some(off + enc_entity(entity_val(b, Some(off))).len()),
{
    let e = entity_val(b, Some(off));
    let c0 = byte_end(b, Some(off), 0x82);
    let c1 = key_end(b, c0, "public_key"@);
    let c2 = str_end(b, c1);
    let c3 = key_end(b, c2, "link_name"@);
    let h = map_header(2);
    let k1 = enc_str("public_key"@);
    let v1 = enc_str(e.public_key);
    let k2 = enc_str("link_name"@);
    let v2 = enc_str(e.link_name);
    assert(h =~= seq![0x82u8]);
    lemma_byte_stands(b, off, 0x82);
    lemma_key_stands(b, c0.unwrap(), "public_key"@);
    lemma_str_stands(b, c1.unwrap());
    lemma_key_stands(b, c2.unwrap(), "link_name"@);
    lemma_str_stands(b, c3.unwrap());
    lemma_stands_at_concat(b, off, h, k1);
    lemma_stands_at_concat(b, off, h + k1, v1);
    lemma_stands_at_concat(b, off, h + k1 + v1, k2);
    lemma_stands_at_concat(b, off, h + k1 + v1 + k2, v2);
}

/// The encoding of a reply that stands at an offset is read there as that reply.
pub proof fn lemma_response_found(b: Seq<u8>, off: nat, r: ResponseView)
    requires
        response_fits(r),
        stands_at(b, off, enc_response(r)),
    ensures
        response_end(b, Some(off)) == Some(off + enc_response(r).len()),
        response_val(b, Some(off)) == r,
{
    lemma_keys_fit();
    let k1 = enc_str("msg"@);
    let v1 = enc_bin(r.msg);
    match r.error {
        None => {
            let h = map_header(1);
            assert(h =~= seq![0x81u8]);
            lemma_stands_at_concat(b, off, h + k1, v1);
            lemma_stands_at_concat(b, off, h, k1);
            lemma_byte_found(b, off, 0x81);
            lemma_key_found(b, off + 1, "msg"@);
            lemma_bin_found(b, off + 1 + k1.len(), r.msg);
        },
        Some(e) => {
            let h = map_header(2);
            let k2 = enc_str("error"@);
            let v2 = enc_str(e);
            assert(h =~= seq![0x82u8]);
            lemma_stands_at_concat(b, off, h + k1 + v1 + k2, v2);
            lemma_stands_at_concat(b, off, h + k1 + v1, k2);
            lemma_stands_at_concat(b, off, h + k1, v1);
            lemma_stands_at_concat(b, off, h, k1);
            lemma_byte_found(b, off, 0x82);
            lemma_key_found(b, off + 1, "msg"@);
            lemma_bin_found(b, off + 1 + k1.len(), r.msg);
            lemma_key_found(b, off + 1 + k1.len() + v1.len(), "error"@);
            lemma_str_found(b, off + 1 + k1.len() + v1.len() + k2.len(), e);
        },
    }
}

/// The two field names of a reply differ.
proof fn lemma_reply_keys_differ()
    ensures
        "msg"@ != "error"@,
{
    reveal_strlit("msg");
    reveal_strlit("error");
    assert("msg"@.len() == 3);
    assert("error"@.len() == 5);
}

/// The encoding of a reply with the error first, where it stands at an
/// offset, is read there as that reply.
pub proof fn lemma_response_found_error_first(b: Seq<u8>, off: nat, r: ResponseView)
    requires
        response_fits(r),
        stands_at(b, off, enc_response_error_first(r)),
    ensures
        response_end(b, Some(off)) == Some(off + enc_response_error_first(r).len()),
        response_val(b, Some(off)) == r,
{
    match r.error {
        None => {
            lemma_response_found(b, off, r);
        },
        Some(e) => {
            lemma_keys_fit();
            lemma_reply_keys_differ();
            let h = map_header(2);
            let k1 = enc_str("error"@);
            let v1 = enc_str(e);
            let k2 = enc_str("msg"@);
            let v2 = enc_bin(r.msg);
            assert(h =~= seq![0x82u8]);
            lemma_stands_at_concat(b, off, h + k1 + v1 + k2, v2);
            lemma_stands_at_concat(b, off, h + k1 + v1, k2);
            lemma_stands_at_concat(b, off, h + k1, v1);
            lemma_stands_at_concat(b, off, h, k1);
            lemma_byte_found(b, off, 0x82);
            lemma_key_found(b, off + 1, "error"@);
            assert(key_end(b, Some(off + 1), "msg"@) is None);
            lemma_str_found(b, off + 1 + k1.len(), e);
            lemma_key_found(b, off + 1 + k1.len() + v1.len(), "msg"@);
            lemma_bin_found(b, off + 1 + k1.len() + v1.len() + k2.len(), r.msg);
        },
    }
}

/// Where a reply is read, an encoding of that reply stands, its fields in
/// one order or the other.
pub proof fn lemma_response_stands(b: Seq<u8>, off: nat)
    requires
        response_end(b, Some(off)) is Some,
    ensures
        response_fits(response_val(b, Some(off))),
        ({
            let r = response_val(b, Some(off));
            ||| stands_at(b, off, enc_response(r)) && response_end(b, Some(off)) == Some(
                off + enc_response(r).len(),
            )
            ||| stands_at(b, off, enc_response_error_first(r)) && response_end(b, Some(off))
                == Some(off + enc_response_error_first(r).len())
        }),
{
    let r = response_val(b, Some(off));
    if byte_end(b, Some(off), 0x81) is Some {
        let k1 = enc_str("msg"@);
        let v1 = enc_bin(r.msg);
        let h = map_header(1);
        assert(h =~= seq![0x81u8]);
        let c1 = key_end(b, Some(off + 1), "msg"@);
        lemma_byte_stands(b, off, 0x81);
        lemma_key_stands(b, off + 1, "msg"@);
        lemma_bin_stands(b, c1.unwrap());
        lemma_stands_at_concat(b, off, h, k1);
        lemma_stands_at_concat(b, off, h + k1, v1);
    } else if key_end(b, byte_end(b, Some(off), 0x82), "msg"@) is Some {
        let k1 = enc_str("msg"@);
        let v1 = enc_bin(r.msg);
        let h = map_header(2);
        assert(h =~= seq![0x82u8]);
        let c1 = key_end(b, Some(off + 1), "msg"@);
        let c2 = bin_end(b, c1);
        let c3 = key_end(b, c2, "error"@);
        let k2 = enc_str("error"@);
        let v2 = enc_str(r.error.unwrap());
        lemma_byte_stands(b, off, 0x82);
        lemma_key_stands(b, off + 1, "msg"@);
        lemma_bin_stands(b, c1.unwrap());
        lemma_key_stands(b, c2.unwrap(), "error"@);
        lemma_str_stands(b, c3.unwrap());
        lemma_stands_at_concat(b, off, h, k1);
        lemma_stands_at_concat(b, off, h + k1, v1);
        lemma_stands_at_concat(b, off, h + k1 + v1, k2);
        lemma_stands_at_concat(b, off, h + k1 + v1 + k2, v2);
    } else {
        let h = map_header(2);
        assert(h =~= seq![0x82u8]);
        let c1 = key_end(b, Some(off + 1), "error"@);
        let c2 = str_end(b, c1);
        let c3 = key_end(b, c2, "msg"@);
        let k1 = enc_str("error"@);
        let v1 = enc_str(r.error.unwrap());
        let k2 = enc_str("msg"@);
        let v2 = enc_bin(r.msg);
        lemma_byte_stands(b, off, 0x82);
        lemma_key_stands(b, off + 1, "error"@);
        lemma_str_stands(b, c1.unwrap());
        lemma_key_stands(b, c2.unwrap(), "msg"@);
        lemma_bin_stands(b, c3.unwrap());
        lemma_stands_at_concat(b, off, h, k1);
        lemma_stands_at_concat(b, off, h + k1, v1);
        lemma_stands_at_concat(b, off, h + k1 + v1, k2);
        lemma_stands_at_concat(b, off, h + k1 + v1 + k2, v2);
    }
}

/// A field name at the end of a run that stands is read behind the rest of the run.
proof fn lemma_key_last(b: Seq<u8>, off: nat, pre: Seq<u8>, key: Seq<char>)
    requires
        str_fits(key),
        stands_at(b, off, pre + enc_str(key)),
    ensures
        stands_at(b, off, pre),
        key_end(b, Some(off + pre.len()), key) == Some(off + (pre + enc_str(key)).len()),
{
    lemma_stands_at_concat(b, off, pre, enc_str(key));
    lemma_key_found(b, off + pre.len(), key);
}

/// A string at the end of a run that stands is read behind the rest of the run.
proof fn lemma_str_last(b: Seq<u8>, off: nat, pre: Seq<u8>, s: Seq<char>)
    requires
        str_fits(s),
        stands_at(b, off, pre + enc_str(s)),
    ensures
        stands_at(b, off, pre),
        str_end(b, Some(off + pre.len())) == Some(off + (pre + enc_str(s)).len()),
        str_val(b, Some(off + pre.len())) == s,
{
    lemma_stands_at_concat(b, off, pre, enc_str(s));
    lemma_str_found(b, off + pre.len(), s);
}

/// A byte string at the end of a run that stands is read behind the rest of the run.
proof fn lemma_bin_last(b: Seq<u8>, off: nat, pre: Seq<u8>, x: Seq<u8>)
    requires
        x.len() <= max_len(),
        stands_at(b, off, pre + enc_bin(x)),
    ensures
        stands_at(b, off, pre),
        bin_end(b, Some(off + pre.len())) == Some(off + (pre + enc_bin(x)).len()),
        bin_val(b, Some(off + pre.len())) == x,
{
    lemma_stands_at_concat(b, off, pre, enc_bin(x));
    lemma_bin_found(b, off + pre.len(), x);
}

/// An entity at the end of a run that stands is read behind the rest of the run.
proof fn lemma_entity_last(b: Seq<u8>, off: nat, pre: Seq<u8>, e: EntityView)
    requires
        entity_fits(e),
        stands_at(b, off, pre + enc_entity(e)),
    ensures
        stands_at(b, off, pre),
        entity_end(b, Some(off + pre.len())) == Some(off + (pre + enc_entity(e)).len()),
        entity_val(b, Some(off + pre.len())) == e,
{
    lemma_stands_at_concat(b, off, pre, enc_entity(e));
    lemma_entity_found(b, off + pre.len(), e);
}

/// The encoding of an invocation that stands at an offset is read there as that invocation.
pub proof fn lemma_invocation_found(b: Seq<u8>, off: nat, i: InvocationView)
    requires
        invocation_fits(i),
        stands_at(b, off, enc_invocation(i)),
    ensures
        invocation_end(b, Some(off)) == Some(off + enc_invocation(i).len()),
        invocation_val(b, Some(off)) == i,
{
    lemma_keys_fit();
    let h = map_header(7);
    assert(h =~= seq![0x87u8]);
    let a1 = h + enc_str("origin"@);
    let a2 = a1 + enc_entity(i.origin);
    let a3 = a2 + enc_str("target"@);
    let a4 = a3 + enc_entity(i.target);
    let a5 = a4 + enc_str("operation"@);
    let a6 = a5 + enc_str(i.operation);
    let a7 = a6 + enc_str("msg"@);
    let a8 = a7 + enc_bin(i.msg);
    let a9 = a8 + enc_str("id"@);
    let a10 = a9 + enc_str(i.id);
    let a11 = a10 + enc_str("encoded_claims"@);
    let a12 = a11 + enc_str(i.encoded_claims);
    let a13 = a12 + enc_str("host_id"@);
    lemma_str_last(b, off, a13, i.host_id);
    lemma_key_last(b, off, a12, "host_id"@);
    lemma_str_last(b, off, a11, i.encoded_claims);
    lemma_key_last(b, off, a10, "encoded_claims"@);
    lemma_str_last(b, off, a9, i.id);
    lemma_key_last(b, off, a8, "id"@);
    lemma_bin_last(b, off, a7, i.msg);
    lemma_key_last(b, off, a6, "msg"@);
    lemma_str_last(b, off, a5, i.operation);
    lemma_key_last(b, off, a4, "operation"@);
    lemma_entity_last(b, off, a3, i.target);
    lemma_key_last(b, off, a2, "target"@);
    lemma_entity_last(b, off, a1, i.origin);
    lemma_key_last(b, off, h, "origin"@);
    lemma_byte_found(b, off, 0x87);
}

/// Behind a run that stands, a field name that is read there stands too.
proof fn lemma_key_step(b: Seq<u8>, off: nat, pre: Seq<u8>, key: Seq<char>)
    requires
        stands_at(b, off, pre),
        key_end(b, Some(off + pre.len()), key) is Some,
    ensures
        stands_at(b, off, pre + enc_str(key)),
        key_end(b, Some(off + pre.len()), key) == Some(off + (pre + enc_str(key)).len()),
{
    lemma_key_stands(b, off + pre.len(), key);
    lemma_stands_at_concat(b, off, pre, enc_str(key));
}

/// Behind a run that stands, a string that is read there stands too.
proof fn lemma_str_step(b: Seq<u8>, off: nat, pre: Seq<u8>)
    requires
        stands_at(b, off, pre),
        str_end(b, Some(off + pre.len())) is Some,
    ensures
        ({
            let s = str_val(b, Some(off + pre.len()));
            &&& str_fits(s)
            &&& stands_at(b, off, pre + enc_str(s))
            &&& str_end(b, Some(off + pre.len())) == Some(off + (pre + enc_str(s)).len())
        }),
{
    let s = str_val(b, Some(off + pre.len()));
    lemma_str_stands(b, off + pre.len());
    lemma_stands_at_concat(b, off, pre, enc_str(s));
}

/// Behind a run that stands, a byte string that is read there stands too.
proof fn lemma_bin_step(b: Seq<u8>, off: nat, pre: Seq<u8>)
    requires
        stands_at(b, off, pre),
        bin_end(b, Some(off + pre.len())) is Some,
    ensures
        ({
            let x = bin_val(b, Some(off + pre.len()));
            &&& x.len() <= max_len()
            &&& stands_at(b, off, pre + enc_bin(x))
            &&& bin_end(b, Some(off + pre.len())) == Some(off + (pre + enc_bin(x)).len())
        }),
{
    let x = bin_val(b, Some(off + pre.len()));
    lemma_bin_stands(b, off + pre.len());
    lemma_stands_at_concat(b, off, pre, enc_bin(x));
}

/// Behind a run that stands, an entity that is read there stands too.
proof fn lemma_entity_step(b: Seq<u8>, off: nat, pre: Seq<u8>)
    requires
        stands_at(b, off, pre),
        entity_end(b, Some(off + pre.len())) is Some,
    ensures
        ({
            let e = entity_val(b, Some(off + pre.len()));
            &&& entity_fits(e)
            &&& stands_at(b, off, pre + enc_entity(e))
            &&& entity_end(b, Some(off + pre.len())) == Some(off + (pre + enc_entity(e)).len())
        }),
{
    let e = entity_val(b, Some(off + pre.len()));
    lemma_entity_stands(b, off + pre.len());
    lemma_stands_at_concat(b, off, pre, enc_entity(e));
}

/// Where an invocation is read, the encoding of that invocation stands.
pub proof fn lemma_invocation_stands(b: Seq<u8>, off: nat)
    requires
        invocation_end(b, Some(off)) is Some,
    ensures
        invocation_fits(invocation_val(b, Some(off))),
        stands_at(b, off, enc_invocation(invocation_val(b, Some(off)))),
        invocation_end(b, Some(off)) == Some(
            off + enc_invocation(invocation_val(b, Some(off))).len(),
        ),
{
    let i = invocation_val(b, Some(off));
    let h = map_header(7);
    assert(h =~= seq![0x87u8]);
    lemma_byte_stands(b, off, 0x87);
    lemma_key_step(b, off, h, "origin"@);
    let a1 = h + enc_str("origin"@);
    lemma_entity_step(b, off, a1);
    let a2 = a1 + enc_entity(i.origin);
    lemma_key_step(b, off, a2, "target"@);
    let a3 = a2 + enc_str("target"@);
    lemma_entity_step(b, off, a3);
    let a4 = a3 + enc_entity(i.target);
    lemma_key_step(b, off, a4, "operation"@);
    let a5 = a4 + enc_str("operation"@);
    lemma_str_step(b, off, a5);
    let a6 = a5 + enc_str(i.operation);
    lemma_key_step(b, off, a6, "msg"@);
    let a7 = a6 + enc_str("msg"@);
    lemma_bin_step(b, off, a7);
    let a8 = a7 + enc_bin(i.msg);
    lemma_key_step(b, off, a8, "id"@);
    let a9 = a8 + enc_str("id"@);
    lemma_str_step(b, off, a9);
    let a10 = a9 + enc_str(i.id);
    lemma_key_step(b, off, a10, "encoded_claims"@);
    let a11 = a10 + enc_str("encoded_claims"@);
    lemma_str_step(b, off, a11);
    let a12 = a11 + enc_str(i.encoded_claims);
    lemma_key_step(b, off, a12, "host_id"@);
    let a13 = a12 + enc_str("host_id"@);
    lemma_str_step(b, off, a13);
}

/// Encoding then decoding gives back the invocation: origin, target,
/// operation, payload, id, claims token and host id, each as it was.
pub proof fn lemma_invocation_round_trip(i: InvocationView)
    requires
        invocation_fits(i),
    ensures
        decoded_invocation(enc_invocation(i)) == Some(i),
{
    let b = enc_invocation(i);
    assert(stands_at(b, 0, b)) by {
        reveal(stands_at);
        assert(b.subrange(0, b.len() as int) =~= b);
    }
    lemma_invocation_found(b, 0, i);
}

/// Only the encoding of an invocation decodes to it: what decodes is the
/// encoding of what it decodes to.
pub proof fn lemma_invocation_canonical(b: Seq<u8>)
    requires
        decoded_invocation(b) is Some,
    ensures
        invocation_fits(decoded_invocation(b).unwrap()),
        enc_invocation(decoded_invocation(b).unwrap()) == b,
{
    let i = decoded_invocation(b).unwrap();
    lemma_invocation_stands(b, 0);
    assert(enc_invocation(i) =~= b) by {
        reveal(stands_at);
        assert(b.subrange(0, b.len() as int) =~= b);
    }
}

/// Encoding then decoding gives back the reply.
pub proof fn lemma_response_round_trip(r: ResponseView)
    requires
        response_fits(r),
    ensures
        decoded_response(enc_response(r)) == Some(r),
{
    let b = enc_response(r);
    assert(stands_at(b, 0, b)) by {
        reveal(stands_at);
        assert(b.subrange(0, b.len() as int) =~= b);
    }
    lemma_response_found(b, 0, r);
}

/// A reply whose fields come in either order decodes to the same reply.
pub proof fn lemma_response_order_free(b: Seq<u8>, r: ResponseView)
    requires
        response_fits(r),
        is_response_encoding(b, r),
    ensures
        decoded_response(b) == Some(r),
{
    assert(stands_at(b, 0, b)) by {
        reveal(stands_at);
        assert(b.subrange(0, b.len() as int) =~= b);
    }
    if b == enc_response(r) {
        lemma_response_found(b, 0, r);
    } else {
        lemma_response_found_error_first(b, 0, r);
    }
}

/// Only an encoding of a reply decodes to it: what decodes is the reply on
/// the wire, its fields in one order or the other.
pub proof fn lemma_response_is_encoding(b: Seq<u8>)
    requires
        decoded_response(b) is Some,
    ensures
        response_fits(decoded_response(b).unwrap()),
        is_response_encoding(b, decoded_response(b).unwrap()),
{
    let r = decoded_response(b).unwrap();
    lemma_response_stands(b, 0);
    reveal(stands_at);
    assert(b.subrange(0, b.len() as int) =~= b);
    if stands_at(b, 0, enc_response(r)) && response_end(b, Some(0nat)) == Some(
        0 + enc_response(r).len(),
    ) {
        assert(enc_response(r) =~= b);
    } else {
        assert(enc_response_error_first(r) =~= b);
    }
}

/// Two invocations with the same encoding are the same invocation.
pub proof fn lemma_invocation_encoding_injective(i1: InvocationView, i2: InvocationView)
    requires
        invocation_fits(i1),
        invocation_fits(i2),
        enc_invocation(i1) == enc_invocation(i2),
    ensures
        i1 == i2,
{
    lemma_invocation_round_trip(i1);
    lemma_invocation_round_trip(i2);
}

/// Two replies with the same encoding are the same reply.
pub proof fn lemma_response_encoding_injective(r1: ResponseView, r2: ResponseView)
    requires
        response_fits(r1),
        response_fits(r2),
        enc_response(r1) == enc_response(r2),
    ensures
        r1 == r2,
{
    lemma_response_round_trip(r1);
    lemma_response_round_trip(r2);
}

/// Reads the one byte `m` at `pos`; gives the position behind it.
fn take_byte(bytes: &[u8], pos: usize, m: u8) -> (r: Option<usize>)
    requires
        pos <= bytes@.len(),
    ensures
        match r {
            Some(next) => next <= bytes@.len() && byte_end(bytes@, Some(pos as nat), m) == Some(
                next as nat,
            ),
            None => byte_end(bytes@, Some(pos as nat), m) is None,
        },
{
    if pos < bytes.len() && bytes[pos] == m {
        Some(pos + 1)
    } else {
        None
    }
}

/// Reads the field name `key` at `pos`; gives the position behind it.
fn take_key(bytes: &[u8], pos: usize, key: &str) -> (r: Option<usize>)
    requires
        pos <= bytes@.len(),
    ensures
        match r {
            Some(next) => next <= bytes@.len() && key_end(bytes@, Some(pos as nat), key@) == Some(
                next as nat,
            ),
            None => key_end(bytes@, Some(pos as nat), key@) is None,
        },
{
    match take_str(bytes, pos) {
        None => None,
        Some((name, next)) => {
            let expected = String::from_str(key);
            if name == expected {
                Some(next)
            } else {
                None
            }
        },
    }
}

/// Reads the entity at `pos`; gives it with the position behind it.
fn take_entity(bytes: &[u8], pos: usize) -> (r: Option<(WasmCloudEntity, usize)>)
    requires
        pos <= bytes@.len(),
    ensures
        match r {
            Some((e, next)) => next <= bytes@.len() && entity_end(bytes@, Some(pos as nat)) == Some(
                next as nat,
            ) && e@ == entity_val(bytes@, Some(pos as nat)),
            None => entity_end(bytes@, Some(pos as nat)) is None,
        },
{
    let c0 = match take_byte(bytes, pos, 0x82) {
        Some(c) => c,
        None => { return None; },
    };
    let c1 = match take_key(bytes, c0, "public_key") {
        Some(c) => c,
        None => { return None; },
    };
    let (public_key, c2) = match take_str(bytes, c1) {
        Some(v) => v,
        None => { return None; },
    };
    let c3 = match take_key(bytes, c2, "link_name") {
        Some(c) => c,
        None => { return None; },
    };
    let (link_name, c4) = match take_str(bytes, c3) {
        Some(v) => v,
        None => { return None; },
    };
    Some((WasmCloudEntity { public_key, link_name }, c4))
}

/// Decodes a reply. The bytes must be the encoding of a reply, from the
/// first byte to the last, with its fields in either order; anything else is
/// no reply.
pub fn decode_response(bytes: &[u8]) -> (response: Option<InvocationResponse>)
    ensures
        match response {
            Some(r) => decoded_response(bytes@) == Some(r@) && response_fits(r@)
                && is_response_encoding(bytes@, r@),
            None => decoded_response(bytes@) is None && forall|v: ResponseView|
                response_fits(v) ==> !#[trigger] is_response_encoding(bytes@, v),
        },
{
    proof {
        if decoded_response(bytes@) is Some {
            lemma_response_is_encoding(bytes@);
        } else {
            assert forall|v: ResponseView| response_fits(v) implies !#[trigger] is_response_encoding(
                bytes@,
                v,
            ) by {
                if is_response_encoding(bytes@, v) {
                    lemma_response_order_free(bytes@, v);
                }
            }
        }
    }
    match take_byte(bytes, 0, 0x81) {
        Some(c0) => {
            let c1 = match take_key(bytes, c0, "msg") {
                Some(c) => c,
                None => { return None; },
            };
            let (msg, c2) = match take_bin(bytes, c1) {
                Some(v) => v,
                None => { return None; },
            };
            if c2 != bytes.len() {
                return None;
            }
            Some(InvocationResponse { msg, error: None })
        },
        None => {
            let c0 = match take_byte(bytes, 0, 0x82) {
                Some(c) => c,
                None => { return None; },
            };
            match take_key(bytes, c0, "msg") {
                Some(c1) => {
                    let (msg, c2) = match take_bin(bytes, c1) {
                        Some(v) => v,
                        None => { return None; },
                    };
                    let c3 = match take_key(bytes, c2, "error") {
                        Some(c) => c,
                        None => { return None; },
                    };
                    let (error, c4) = match take_str(bytes, c3) {
                        Some(v) => v,
                        None => { return None; },
                    };
                    if c4 != bytes.len() {
                        return None;
                    }
                    Some(InvocationResponse { msg, error: Some(error) })
                },
                None => {
                    let c1 = match take_key(bytes, c0, "error") {
                        Some(c) => c,
                        None => { return None; },
                    };
                    let (error, c2) = match take_str(bytes, c1) {
                        Some(v) => v,
                        None => { return None; },
                    };
                    let c3 = match take_key(bytes, c2, "msg") {
                        Some(c) => c,
                        None => { return None; },
                    };
                    let (msg, c4) = match take_bin(bytes, c3) {
                        Some(v) => v,
                        None => { return None; },
                    };
                    if c4 != bytes.len() {
                        return None;
                    }
                    Some(InvocationResponse { msg, error: Some(error) })
                },
            }
        },
    }
}

/// Decodes an invocation. The bytes must be the encoding of an invocation,
/// from the first byte to the last; anything else is no invocation.
pub fn decode_invocation(bytes: &[u8]) -> (invocation: Option<Invocation>)
    ensures
        match invocation {
            Some(i) => decoded_invocation(bytes@) == Some(i@) && invocation_fits(i@)
                && enc_invocation(i@) == bytes@,
            None => decoded_invocation(bytes@) is None && forall|v: InvocationView|
                invocation_fits(v) ==> #[trigger] enc_invocation(v) != bytes@,
        },
{
    proof {
        if decoded_invocation(bytes@) is Some {
            lemma_invocation_canonical(bytes@);
        } else {
            assert forall|v: InvocationView| invocation_fits(v) implies #[trigger] enc_invocation(v)
                != bytes@ by {
                lemma_invocation_round_trip(v);
            }
        }
    }
    let c0 = match take_byte(bytes, 0, 0x87) {
        Some(c) => c,
        None => { return None; },
    };
    let c1 = match take_key(bytes, c0, "origin") {
        Some(c) => c,
        None => { return None; },
    };
    let (origin, c2) = match take_entity(bytes, c1) {
        Some(v) => v,
        None => { return None; },
    };
    let c3 = match take_key(bytes, c2, "target") {
        Some(c) => c,
        None => { return None; },
    };
    let (target, c4) = match take_entity(bytes, c3) {
        Some(v) => v,
        None => { return None; },
    };
    let c5 = match take_key(bytes, c4, "operation") {
        Some(c) => c,
        None => { return None; },
    };
    let (operation, c6) = match take_str(bytes, c5) {
        Some(v) => v,
        None => { return None; },
    };
    let c7 = match take_key(bytes, c6, "msg") {
        Some(c) => c,
        None => { return None; },
    };
    let (msg, c8) = match take_bin(bytes, c7) {
        Some(v) => v,
        None => { return None; },
    };
    let c9 = match take_key(bytes, c8, "id") {
        Some(c) => c,
        None => { return None; },
    };
    let (id, c10) = match take_str(bytes, c9) {
        Some(v) => v,
        None => { return None; },
    };
    let c11 = match take_key(bytes, c10, "encoded_claims") {
        Some(c) => c,
        None => { return None; },
    };
    let (encoded_claims, c12) = match take_str(bytes, c11) {
        Some(v) => v,
        None => { return None; },
    };
    let c13 = match take_key(bytes, c12, "host_id") {
        Some(c) => c,
        None => { return None; },
    };
    let (host_id, c14) = match take_str(bytes, c13) {
        Some(v) => v,
        None => { return None; },
    };
    if c14 != bytes.len() {
        return None;
    }
    Some(Invocation { origin, target, operation, msg, id, encoded_claims, host_id })
}

} // verus!
