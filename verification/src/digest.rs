//! The integrity hash of an invocation: SHA-256 over the origin URL, the
//! target URL, the operation name and the payload, in that order, written as
//! upper-case hexadecimal.
use vstd::prelude::*;
use vstd::utf8::encode_utf8;
use vstd::utf8::encode_utf8_decode_utf8;

verus! {

/// The SHA-256 digest of `data`, as FIPS 180-4 defines it.
pub uninterp spec fn sha256(data: Seq<u8>) -> Seq<u8>;

/// The upper-case hexadecimal digit of a value below sixteen.
pub open spec fn hex_digit(n: int) -> char {
    seq!['0', '1', '2', '3', '4', '5', '6', '7', '8', '9', 'A', 'B', 'C', 'D', 'E', 'F'][n]
}

/// `bytes` in upper-case hexadecimal: two digits for each byte, the high half first.
pub open spec fn hex_upper(bytes: Seq<u8>) -> Seq<char> {
    Seq::new(
        2 * bytes.len(),
        |i: int|
            if i % 2 == 0 {
                hex_digit(bytes[i / 2] as int / 16)
            } else {
                hex_digit(bytes[i / 2] as int % 16)
            },
    )
}

/// The bytes that are hashed for an invocation: origin URL, target URL,
/// operation name and payload, one after the other.
pub open spec fn hashed_message(
    target_url: Seq<char>,
    origin_url: Seq<char>,
    method: Seq<char>,
    args: Seq<u8>,
) -> Seq<u8> {
    encode_utf8(origin_url) + encode_utf8(target_url) + encode_utf8(method) + args
}

/// The integrity hash of an invocation.
pub open spec fn invocation_hash_spec(
    target_url: Seq<char>,
    origin_url: Seq<char>,
    method: Seq<char>,
    args: Seq<u8>,
) -> Seq<char> {
    hex_upper(sha256(hashed_message(target_url, origin_url, method, args)))
}

/// Calls `ring::digest::digest` with the algorithm `ring::digest::SHA256`.
/// The contract takes the result to be the SHA-256 digest of `data`, which is
/// 32 bytes long; the digest itself is computed by ring and not proved here.
#[verifier::external_body]
fn ring_sha256(data: &[u8]) -> (digest: Vec<u8>)
    ensures
        digest@ == sha256(data@),
        digest@.len() == 32,
{
    ring::digest::digest(&ring::digest::SHA256, data).as_ref().to_vec()
}

/// Calls `data_encoding::HEXUPPER.encode`. The contract takes the result to
/// be `bytes` in upper-case hexadecimal without padding or separators.
/// `encode` panics on more than `usize::MAX / 512` bytes, which the
/// precondition leaves out.
#[verifier::external_body]
fn hex_upper_encode(bytes: &[u8]) -> (text: String)
    requires
        bytes@.len() <= usize::MAX / 512,
    ensures
        text@ == hex_upper(bytes@),
{
    data_encoding::HEXUPPER.encode(bytes)
}

/// Computes the integrity hash that is signed into the claims of an invocation.
///
/// The order of the four parts is fixed: a receiver hashes the same bytes in
/// the same order and compares.
pub fn invocation_hash(target_url: &str, origin_url: &str, method: &str, args: &[u8]) -> (hash:
    String)
    ensures
        hash@ == invocation_hash_spec(target_url@, origin_url@, method@, args@),
        hash@.len() == 64,
{
    let mut message: Vec<u8> = Vec::new();
    message.extend_from_slice(origin_url.as_bytes());
    message.extend_from_slice(target_url.as_bytes());
    message.extend_from_slice(method.as_bytes());
    message.extend_from_slice(args);
    assert(message@ =~= hashed_message(target_url@, origin_url@, method@, args@));
    let digest = ring_sha256(message.as_slice());
    hex_upper_encode(digest.as_slice())
}

/// Distinct values below sixteen have distinct digits.
pub proof fn lemma_hex_digit_injective(a: int, b: int)
    requires
        0 <= a < 16,
        0 <= b < 16,
        hex_digit(a) == hex_digit(b),
    ensures
        a == b,
{
}

/// Distinct byte sequences have distinct hexadecimal forms.
pub proof fn lemma_hex_upper_injective(x: Seq<u8>, y: Seq<u8>)
    requires
        hex_upper(x) == hex_upper(y),
    ensures
        x == y,
{
    assert(hex_upper(x).len() == 2 * x.len());
    assert(hex_upper(y).len() == 2 * y.len());
    assert(x.len() == y.len());
    assert forall|k: int| 0 <= k < x.len() implies x[k] == y[k] by {
        let hx = hex_upper(x);
        let hy = hex_upper(y);
        assert(hx[2 * k] == hex_digit(x[k] as int / 16));
        assert(hy[2 * k] == hex_digit(y[k] as int / 16));
        assert(hx[2 * k + 1] == hex_digit(x[k] as int % 16));
        assert(hy[2 * k + 1] == hex_digit(y[k] as int % 16));
        lemma_hex_digit_injective(x[k] as int / 16, y[k] as int / 16);
        lemma_hex_digit_injective(x[k] as int % 16, y[k] as int % 16);
    }
    assert(x =~= y);
}

/// Two invocations have the same integrity hash exactly when the SHA-256
/// digests of their hashed messages agree: the hexadecimal form loses nothing.
pub proof fn lemma_hash_equal_iff_digest_equal(
    target_url1: Seq<char>,
    origin_url1: Seq<char>,
    method1: Seq<char>,
    args1: Seq<u8>,
    target_url2: Seq<char>,
    origin_url2: Seq<char>,
    method2: Seq<char>,
    args2: Seq<u8>,
)
    ensures
        invocation_hash_spec(target_url1, origin_url1, method1, args1) == invocation_hash_spec(
            target_url2,
            origin_url2,
            method2,
            args2,
        ) <==> sha256(hashed_message(target_url1, origin_url1, method1, args1)) == sha256(
            hashed_message(target_url2, origin_url2, method2, args2),
        ),
{
    let d1 = sha256(hashed_message(target_url1, origin_url1, method1, args1));
    let d2 = sha256(hashed_message(target_url2, origin_url2, method2, args2));
    if hex_upper(d1) == hex_upper(d2) {
        lemma_hex_upper_injective(d1, d2);
    }
}

/// Equal texts have equal UTF-8 encodings, and only they.
pub proof fn lemma_utf8_injective(a: Seq<char>, b: Seq<char>)
    requires
        encode_utf8(a) == encode_utf8(b),
    ensures
        a == b,
{
    encode_utf8_decode_utf8(a);
    encode_utf8_decode_utf8(b);
}

/// Among invocations whose four parts have the same byte lengths, the hashed
/// message changes whenever a part changes: no change of a byte in one part
/// is hidden by the concatenation.
pub proof fn lemma_hashed_message_sensitive(
    target_url1: Seq<char>,
    origin_url1: Seq<char>,
    method1: Seq<char>,
    args1: Seq<u8>,
    target_url2: Seq<char>,
    origin_url2: Seq<char>,
    method2: Seq<char>,
    args2: Seq<u8>,
)
    requires
        encode_utf8(origin_url1).len() == encode_utf8(origin_url2).len(),
        encode_utf8(target_url1).len() == encode_utf8(target_url2).len(),
        encode_utf8(method1).len() == encode_utf8(method2).len(),
        args1.len() == args2.len(),
        hashed_message(target_url1, origin_url1, method1, args1) == hashed_message(
            target_url2,
            origin_url2,
            method2,
            args2,
        ),
    ensures
        target_url1 == target_url2,
        origin_url1 == origin_url2,
        method1 == method2,
        args1 == args2,
{
    let o1 = encode_utf8(origin_url1);
    let o2 = encode_utf8(origin_url2);
    let t1 = encode_utf8(target_url1);
    let t2 = encode_utf8(target_url2);
    let m1 = encode_utf8(method1);
    let m2 = encode_utf8(method2);
    let h1 = o1 + t1 + m1 + args1;
    let h2 = o2 + t2 + m2 + args2;
    assert forall|i: int| 0 <= i < o1.len() implies o1[i] == o2[i] by {
        assert(h1[i] == o1[i]);
        assert(h2[i] == o2[i]);
    }
    assert(o1 =~= o2);
    assert forall|i: int| 0 <= i < t1.len() implies t1[i] == t2[i] by {
        assert(h1[o1.len() + i] == t1[i]);
        assert(h2[o2.len() + i] == t2[i]);
    }
    assert(t1 =~= t2);
    assert forall|i: int| 0 <= i < m1.len() implies m1[i] == m2[i] by {
        assert(h1[o1.len() + t1.len() + i] == m1[i]);
        assert(h2[o2.len() + t2.len() + i] == m2[i]);
    }
    assert(m1 =~= m2);
    assert forall|i: int| 0 <= i < args1.len() implies args1[i] == args2[i] by {
        assert(h1[o1.len() + t1.len() + m1.len() + i] == args1[i]);
        assert(h2[o2.len() + t2.len() + m2.len() + i] == args2[i]);
    }
    assert(args1 =~= args2);
    lemma_utf8_injective(origin_url1, origin_url2);
    lemma_utf8_injective(target_url1, target_url2);
    lemma_utf8_injective(method1, method2);
}

} // verus!
