//! Reading the wire form back: what a run of bytes says, where it is the
//! encoding of a value, and that an encoding is read back as the value it
//! was made from.
use vstd::prelude::*;
use vstd::slice::slice_subrange;
use vstd::slice::slice_to_vec;
use vstd::utf8::decode_utf8;
use vstd::utf8::decode_utf8_encode_utf8;
use vstd::utf8::encode_utf8;
use vstd::utf8::encode_utf8_decode_utf8;
use vstd::utf8::encode_utf8_valid_utf8;
use vstd::utf8::valid_utf8;
use crate::codec::be16;
use crate::codec::be32;
use crate::codec::bin_header;
use crate::codec::enc_bin;
use crate::codec::enc_str;
use crate::codec::max_len;
use crate::codec::str_fits;
use crate::codec::str_header;

verus! {

/// The length that two bytes hold, the most significant first.
pub open spec fn from_be16(b: Seq<u8>) -> nat {
    (b[0] as nat) * 0x100 + (b[1] as nat)
}

/// The length that four bytes hold, the most significant first.
pub open spec fn from_be32(b: Seq<u8>) -> nat {
    (b[0] as nat) * 0x100_0000 + (b[1] as nat) * 0x1_0000 + (b[2] as nat) * 0x100 + (b[3] as nat)
}

/// What a string header at the start of `b` announces: the number of bytes
/// of the string and the number of bytes of the header. A header that is not
/// the shortest for its length announces nothing.
pub open spec fn read_str_header(b: Seq<u8>) -> Option<(nat, nat)> {
    if b.len() >= 1 && 0xa0 <= b[0] <= 0xbf {
        Some(((b[0] - 0xa0) as nat, 1nat))
    } else if b.len() >= 2 && b[0] == 0xd9 && b[1] >= 32 {
        Some((b[1] as nat, 2nat))
    } else if b.len() >= 3 && b[0] == 0xda && from_be16(b.subrange(1, 3)) >= 0x100 {
        Some((from_be16(b.subrange(1, 3)), 3nat))
    } else if b.len() >= 5 && b[0] == 0xdb && from_be32(b.subrange(1, 5)) >= 0x1_0000 {
        Some((from_be32(b.subrange(1, 5)), 5nat))
    } else {
        None
    }
}

/// What a byte-string header at the start of `b` announces, as for a string.
pub open spec fn read_bin_header(b: Seq<u8>) -> Option<(nat, nat)> {
    if b.len() >= 2 && b[0] == 0xc4 {
        Some((b[1] as nat, 2nat))
    } else if b.len() >= 3 && b[0] == 0xc5 && from_be16(b.subrange(1, 3)) >= 0x100 {
        Some((from_be16(b.subrange(1, 3)), 3nat))
    } else if b.len() >= 5 && b[0] == 0xc6 && from_be32(b.subrange(1, 5)) >= 0x1_0000 {
        Some((from_be32(b.subrange(1, 5)), 5nat))
    } else {
        None
    }
}

/// Dividing `hi * m + lo` by `m` gives back `hi` and leaves `lo`.
proof fn lemma_div_mod_parts(hi: nat, lo: nat, m: nat)
    requires
        m > 0,
        lo < m,
    ensures
        (hi * m + lo) / m == hi,
        (hi * m + lo) % m == lo,
{
    vstd::arithmetic::div_mod::lemma_fundamental_div_mod_converse(
        (hi * m + lo) as int,
        m as int,
        hi as int,
        lo as int,
    );
}

/// Two bytes written for a length hold that length.
pub proof fn lemma_be16_round_trip(n: nat)
    requires
        n < 0x1_0000,
    ensures
        from_be16(be16(n)) == n,
{
}

/// Four bytes written for a length hold that length.
pub proof fn lemma_be32_round_trip(n: nat)
    requires
        n <= max_len(),
    ensures
        from_be32(be32(n)) == n,
{
}

/// Two bytes are the bytes written for the length they hold.
pub proof fn lemma_be16_canonical(b: Seq<u8>)
    requires
        b.len() == 2,
    ensures
        from_be16(b) < 0x1_0000,
        be16(from_be16(b)) == b,
{
    assert(be16(from_be16(b)) =~= b);
}

/// Four bytes are the bytes written for the length they hold.
pub proof fn lemma_be32_canonical(b: Seq<u8>)
    requires
        b.len() == 4,
    ensures
        from_be32(b) <= max_len(),
        be32(from_be32(b)) == b,
{
    let b0 = b[0] as nat;
    let b1 = b[1] as nat;
    let b2 = b[2] as nat;
    let b3 = b[3] as nat;
    let n = from_be32(b);
    assert(n == b0 * 0x100_0000 + (b1 * 0x1_0000 + b2 * 0x100 + b3));
    lemma_div_mod_parts(b0, b1 * 0x1_0000 + b2 * 0x100 + b3, 0x100_0000);
    assert(n == (b0 * 0x100 + b1) * 0x1_0000 + (b2 * 0x100 + b3));
    lemma_div_mod_parts(b0 * 0x100 + b1, b2 * 0x100 + b3, 0x1_0000);
    lemma_div_mod_parts(b0, b1, 0x100);
    assert(n == (b0 * 0x1_0000 + b1 * 0x100 + b2) * 0x100 + b3);
    lemma_div_mod_parts(b0 * 0x1_0000 + b1 * 0x100 + b2, b3, 0x100);
    lemma_div_mod_parts(b0 * 0x100 + b1, b2, 0x100);
    lemma_div_mod_parts(0, b0, 0x100);
    assert(be32(n)[0] == b[0]);
    assert(be32(n)[1] == b[1]);
    assert(be32(n)[2] == b[2]);
    assert(be32(n)[3] == b[3]);
    assert(be32(n) =~= b);
}

/// A string header is read back as the length it was written for.
pub proof fn lemma_str_header_round_trip(n: nat, rest: Seq<u8>)
    requires
        n <= max_len(),
    ensures
        read_str_header(str_header(n) + rest) == Some((n, str_header(n).len())),
{
    let b = str_header(n) + rest;
    if n < 32 {
    } else if n < 0x100 {
    } else if n < 0x1_0000 {
        assert(b.subrange(1, 3) =~= be16(n));
        lemma_be16_round_trip(n);
    } else {
        assert(b.subrange(1, 5) =~= be32(n));
        lemma_be32_round_trip(n);
    }
}

/// What announces a string length is the header written for that length.
pub proof fn lemma_str_header_canonical(b: Seq<u8>)
    requires
        read_str_header(b) is Some,
    ensures
        ({
            let (n, h) = read_str_header(b).unwrap();
            &&& n <= max_len()
            &&& h <= b.len()
            &&& b.subrange(0, h as int) == str_header(n)
        }),
{
    let (n, h) = read_str_header(b).unwrap();
    if b.len() >= 1 && 0xa0 <= b[0] <= 0xbf {
        assert(b.subrange(0, 1) =~= str_header(n));
    } else if b.len() >= 2 && b[0] == 0xd9 && b[1] >= 32 {
        assert(b.subrange(0, 2) =~= str_header(n));
    } else if b.len() >= 3 && b[0] == 0xda && from_be16(b.subrange(1, 3)) >= 0x100 {
        lemma_be16_canonical(b.subrange(1, 3));
        assert(b.subrange(0, 3) =~= seq![0xdau8] + b.subrange(1, 3));
    } else {
        lemma_be32_canonical(b.subrange(1, 5));
        assert(b.subrange(0, 5) =~= seq![0xdbu8] + b.subrange(1, 5));
    }
}

/// A byte-string header is read back as the length it was written for.
pub proof fn lemma_bin_header_round_trip(n: nat, rest: Seq<u8>)
    requires
        n <= max_len(),
    ensures
        read_bin_header(bin_header(n) + rest) == Some((n, bin_header(n).len())),
{
    let b = bin_header(n) + rest;
    if n < 0x100 {
    } else if n < 0x1_0000 {
        assert(b.subrange(1, 3) =~= be16(n));
        lemma_be16_round_trip(n);
    } else {
        assert(b.subrange(1, 5) =~= be32(n));
        lemma_be32_round_trip(n);
    }
}

/// What announces a byte-string length is the header written for that length.
pub proof fn lemma_bin_header_canonical(b: Seq<u8>)
    requires
        read_bin_header(b) is Some,
    ensures
        ({
            let (n, h) = read_bin_header(b).unwrap();
            &&& n <= max_len()
            &&& h <= b.len()
            &&& b.subrange(0, h as int) == bin_header(n)
        }),
{
    let (n, h) = read_bin_header(b).unwrap();
    if b.len() >= 2 && b[0] == 0xc4 {
        assert(b.subrange(0, 2) =~= bin_header(n));
    } else if b.len() >= 3 && b[0] == 0xc5 && from_be16(b.subrange(1, 3)) >= 0x100 {
        lemma_be16_canonical(b.subrange(1, 3));
        assert(b.subrange(0, 3) =~= seq![0xc5u8] + b.subrange(1, 3));
    } else {
        lemma_be32_canonical(b.subrange(1, 5));
        assert(b.subrange(0, 5) =~= seq![0xc6u8] + b.subrange(1, 5));
    }
}

/// The string at the start of `b`, with the number of bytes it takes: a
/// header, and behind it as many bytes of valid UTF-8 as the header announces.
#[verifier::opaque]
pub open spec fn read_str(b: Seq<u8>) -> Option<(Seq<char>, nat)> {
    match read_str_header(b) {
        Some((n, h)) => {
            if h + n <= b.len() && valid_utf8(b.subrange(h as int, (h + n) as int)) {
                Some((decode_utf8(b.subrange(h as int, (h + n) as int)), h + n))
            } else {
                None
            }
        },
        None => None,
    }
}

/// The byte string at the start of `b`, with the number of bytes it takes.
#[verifier::opaque]
pub open spec fn read_bin(b: Seq<u8>) -> Option<(Seq<u8>, nat)> {
    match read_bin_header(b) {
        Some((n, h)) => {
            if h + n <= b.len() {
                Some((b.subrange(h as int, (h + n) as int), h + n))
            } else {
                None
            }
        },
        None => None,
    }
}

/// A string that was written is read back, whatever follows it.
pub proof fn lemma_str_round_trip(s: Seq<char>, rest: Seq<u8>)
    requires
        str_fits(s),
    ensures
        read_str(enc_str(s) + rest) == Some((s, enc_str(s).len())),
{
    reveal(read_str);
    let body = encode_utf8(s);
    let n = body.len();
    let b = enc_str(s) + rest;
    assert(b =~= str_header(n) + (body + rest));
    lemma_str_header_round_trip(n, body + rest);
    let h = str_header(n).len();
    assert(b.subrange(h as int, (h + n) as int) =~= body);
    encode_utf8_valid_utf8(s);
    encode_utf8_decode_utf8(s);
}

/// What is read as a string is the encoding of that string.
pub proof fn lemma_str_canonical(b: Seq<u8>)
    requires
        read_str(b) is Some,
    ensures
        ({
            let (s, k) = read_str(b).unwrap();
            &&& str_fits(s)
            &&& k <= b.len()
            &&& b.subrange(0, k as int) == enc_str(s)
        }),
{
    reveal(read_str);
    let (n, h) = read_str_header(b).unwrap();
    let (s, k) = read_str(b).unwrap();
    lemma_str_header_canonical(b);
    let body = b.subrange(h as int, (h + n) as int);
    decode_utf8_encode_utf8(body);
    assert(b.subrange(0, k as int) =~= b.subrange(0, h as int) + body);
}

/// A byte string that was written is read back, whatever follows it.
pub proof fn lemma_bin_round_trip(x: Seq<u8>, rest: Seq<u8>)
    requires
        x.len() <= max_len(),
    ensures
        read_bin(enc_bin(x) + rest) == Some((x, enc_bin(x).len())),
{
    reveal(read_bin);
    let n = x.len();
    let b = enc_bin(x) + rest;
    assert(b =~= bin_header(n) + (x + rest));
    lemma_bin_header_round_trip(n, x + rest);
    let h = bin_header(n).len();
    assert(b.subrange(h as int, (h + n) as int) =~= x);
}

/// What is read as a byte string is the encoding of that byte string.
pub proof fn lemma_bin_canonical(b: Seq<u8>)
    requires
        read_bin(b) is Some,
    ensures
        ({
            let (x, k) = read_bin(b).unwrap();
            &&& x.len() <= max_len()
            &&& k <= b.len()
            &&& b.subrange(0, k as int) == enc_bin(x)
        }),
{
    reveal(read_bin);
    let (n, h) = read_bin_header(b).unwrap();
    let (x, k) = read_bin(b).unwrap();
    lemma_bin_header_canonical(b);
    assert(b.subrange(0, k as int) =~= b.subrange(0, h as int) + x);
}

/// Calls `String::from_utf8`. The contract takes it to succeed exactly on
/// valid UTF-8 and to give the text that the bytes encode.
#[verifier::external_body]
fn string_from_utf8(bytes: Vec<u8>) -> (text: Option<String>)
    ensures
        text is Some <==> valid_utf8(bytes@),
        text matches Some(s) ==> s@ == decode_utf8(bytes@),
{
    match String::from_utf8(bytes) {
        Ok(s) => Some(s),
        Err(_) => None,
    }
}

/// The length that the two bytes at `pos` hold.
fn get_be16(bytes: &[u8], pos: usize) -> (n: u32)
    requires
        pos + 2 <= bytes@.len(),
    ensures
        n == from_be16(bytes@.subrange(pos as int, pos + 2)),
{
    (bytes[pos] as u32) * 0x100 + (bytes[pos + 1] as u32)
}

/// The length that the four bytes at `pos` hold.
fn get_be32(bytes: &[u8], pos: usize) -> (n: u32)
    requires
        pos + 4 <= bytes@.len(),
    ensures
        n == from_be32(bytes@.subrange(pos as int, pos + 4)),
{
    (bytes[pos] as u32) * 0x100_0000 + (bytes[pos + 1] as u32) * 0x1_0000 + (bytes[pos + 2] as u32)
        * 0x100 + (bytes[pos + 3] as u32)
}

/// Reads the string header at `pos`: the length it announces and its own length.
fn take_str_header(bytes: &[u8], pos: usize) -> (r: Option<(u32, usize)>)
    requires
        pos <= bytes@.len(),
    ensures
        match r {
            Some((n, h)) => read_str_header(bytes@.skip(pos as int)) == Some((n as nat, h as nat)),
            None => read_str_header(bytes@.skip(pos as int)) is None,
        },
{
    let ghost b = bytes@.skip(pos as int);
    let left = bytes.len() - pos;
    if left == 0 {
        return None;
    }
    let marker = bytes[pos];
    assert(b[0] == marker);
    if 0xa0 <= marker && marker <= 0xbf {
        return Some(((marker - 0xa0) as u32, 1));
    }
    if marker == 0xd9 {
        if left >= 2 {
            let n = bytes[pos + 1];
            assert(b[1] == n);
            if n >= 32 {
                return Some((n as u32, 2));
            }
        }
        return None;
    }
    if marker == 0xda {
        if left >= 3 {
            let n = get_be16(bytes, pos + 1);
            assert(b.subrange(1, 3) =~= bytes@.subrange(pos + 1, pos + 3));
            if n >= 0x100 {
                return Some((n, 3));
            }
        }
        return None;
    }
    if marker == 0xdb {
        if left >= 5 {
            let n = get_be32(bytes, pos + 1);
            assert(b.subrange(1, 5) =~= bytes@.subrange(pos + 1, pos + 5));
            if n >= 0x1_0000 {
                return Some((n, 5));
            }
        }
        return None;
    }
    None
}

/// Reads the byte-string header at `pos`: the length it announces and its own length.
fn take_bin_header(bytes: &[u8], pos: usize) -> (r: Option<(u32, usize)>)
    requires
        pos <= bytes@.len(),
    ensures
        match r {
            Some((n, h)) => read_bin_header(bytes@.skip(pos as int)) == Some((n as nat, h as nat)),
            None => read_bin_header(bytes@.skip(pos as int)) is None,
        },
{
    let ghost b = bytes@.skip(pos as int);
    let left = bytes.len() - pos;
    if left < 2 {
        return None;
    }
    let marker = bytes[pos];
    assert(b[0] == marker);
    if marker == 0xc4 {
        let n = bytes[pos + 1];
        assert(b[1] == n);
        return Some((n as u32, 2));
    }
    if marker == 0xc5 {
        if left >= 3 {
            let n = get_be16(bytes, pos + 1);
            assert(b.subrange(1, 3) =~= bytes@.subrange(pos + 1, pos + 3));
            if n >= 0x100 {
                return Some((n, 3));
            }
        }
        return None;
    }
    if marker == 0xc6 {
        if left >= 5 {
            let n = get_be32(bytes, pos + 1);
            assert(b.subrange(1, 5) =~= bytes@.subrange(pos + 1, pos + 5));
            if n >= 0x1_0000 {
                return Some((n, 5));
            }
        }
        return None;
    }
    None
}

/// `x` stands in `b` at offset `off`.
#[verifier::opaque]
pub open spec fn stands_at(b: Seq<u8>, off: nat, x: Seq<u8>) -> bool {
    off + x.len() <= b.len() && b.subrange(off as int, (off + x.len()) as int) == x
}

/// Two runs stand one behind the other exactly when their concatenation stands there.
pub proof fn lemma_stands_at_concat(b: Seq<u8>, off: nat, x: Seq<u8>, y: Seq<u8>)
    ensures
        stands_at(b, off, x + y) <==> stands_at(b, off, x) && stands_at(b, off + x.len(), y),
{
    reveal(stands_at);
    let xl = x.len();
    let yl = y.len();
    if stands_at(b, off, x + y) {
        let w = b.subrange(off as int, (off + xl + yl) as int);
        assert(w == x + y);
        assert(b.subrange(off as int, (off + xl) as int) =~= x) by {
            assert forall|i: int| 0 <= i < xl implies b[off + i] == x[i] by {
                assert(w[i] == (x + y)[i]);
            }
        }
        assert(b.subrange((off + xl) as int, (off + xl + yl) as int) =~= y) by {
            assert forall|i: int| 0 <= i < yl implies b[off + xl + i] == y[i] by {
                assert(w[xl + i] == (x + y)[xl + i]);
            }
        }
    }
    if stands_at(b, off, x) && stands_at(b, off + x.len(), y) {
        let u = b.subrange(off as int, (off + xl) as int);
        let v = b.subrange((off + xl) as int, (off + xl + yl) as int);
        assert(b.subrange(off as int, (off + xl + yl) as int) =~= u + v);
    }
}

/// Where the one byte `m` ends that stands at the offset; nothing where another byte stands there.
pub open spec fn byte_end(b: Seq<u8>, at: Option<nat>, m: u8) -> Option<nat> {
    match at {
        Some(off) => if off < b.len() && b[off as int] == m {
            Some(off + 1)
        } else {
            None
        },
        None => None,
    }
}

/// Where the string ends that starts at the offset; nothing where none starts there.
pub open spec fn str_end(b: Seq<u8>, at: Option<nat>) -> Option<nat> {
    match at {
        Some(off) => if off <= b.len() {
            match read_str(b.skip(off as int)) {
                Some((_, k)) => Some(off + k),
                None => None,
            }
        } else {
            None
        },
        None => None,
    }
}

/// The string that starts at the offset.
pub open spec fn str_val(b: Seq<u8>, at: Option<nat>) -> Seq<char> {
    read_str(b.skip(at.unwrap() as int)).unwrap().0
}

/// Where the byte string ends that starts at the offset; nothing where none starts there.
pub open spec fn bin_end(b: Seq<u8>, at: Option<nat>) -> Option<nat> {
    match at {
        Some(off) => if off <= b.len() {
            match read_bin(b.skip(off as int)) {
                Some((_, k)) => Some(off + k),
                None => None,
            }
        } else {
            None
        },
        None => None,
    }
}

/// The byte string that starts at the offset.
pub open spec fn bin_val(b: Seq<u8>, at: Option<nat>) -> Seq<u8> {
    read_bin(b.skip(at.unwrap() as int)).unwrap().0
}

/// Where the field name `key` ends that starts at the offset; nothing where
/// another string, or none, starts there.
pub open spec fn key_end(b: Seq<u8>, at: Option<nat>, key: Seq<char>) -> Option<nat> {
    if str_end(b, at) is Some && str_val(b, at) == key {
        str_end(b, at)
    } else {
        None
    }
}

/// A marker byte that stands at an offset is read there.
pub proof fn lemma_byte_found(b: Seq<u8>, off: nat, m: u8)
    requires
        stands_at(b, off, seq![m]),
    ensures
        byte_end(b, Some(off), m) == Some(off + 1),
{
    reveal(stands_at);
    assert(b.subrange(off as int, (off + 1) as int)[0] == m);
}

/// A marker byte that is read at an offset stands there.
pub proof fn lemma_byte_stands(b: Seq<u8>, off: nat, m: u8)
    requires
        byte_end(b, Some(off), m) is Some,
    ensures
        stands_at(b, off, seq![m]),
{
    reveal(stands_at);
    assert(b.subrange(off as int, (off + 1) as int) =~= seq![m]);
}

/// The encoding of a string that stands at an offset is read there as that string.
pub proof fn lemma_str_found(b: Seq<u8>, off: nat, s: Seq<char>)
    requires
        str_fits(s),
        stands_at(b, off, enc_str(s)),
    ensures
        str_end(b, Some(off)) == Some(off + enc_str(s).len()),
        str_val(b, Some(off)) == s,
{
    reveal(stands_at);
    let e = enc_str(s);
    assert(b.skip(off as int) =~= e + b.skip((off + e.len()) as int));
    lemma_str_round_trip(s, b.skip((off + e.len()) as int));
}

/// Where a string is read, the encoding of that string stands.
pub proof fn lemma_str_stands(b: Seq<u8>, off: nat)
    requires
        str_end(b, Some(off)) is Some,
    ensures
        str_fits(str_val(b, Some(off))),
        stands_at(b, off, enc_str(str_val(b, Some(off)))),
        str_end(b, Some(off)) == Some(off + enc_str(str_val(b, Some(off))).len()),
{
    reveal(stands_at);
    let t = b.skip(off as int);
    lemma_str_canonical(t);
    let (s, k) = read_str(t).unwrap();
    assert(t.subrange(0, k as int) =~= b.subrange(off as int, (off + k) as int));
}

/// The encoding of a byte string that stands at an offset is read there as that byte string.
pub proof fn lemma_bin_found(b: Seq<u8>, off: nat, x: Seq<u8>)
    requires
        x.len() <= max_len(),
        stands_at(b, off, enc_bin(x)),
    ensures
        bin_end(b, Some(off)) == Some(off + enc_bin(x).len()),
        bin_val(b, Some(off)) == x,
{
    reveal(stands_at);
    let e = enc_bin(x);
    assert(b.skip(off as int) =~= e + b.skip((off + e.len()) as int));
    lemma_bin_round_trip(x, b.skip((off + e.len()) as int));
}

/// Where a byte string is read, the encoding of that byte string stands.
pub proof fn lemma_bin_stands(b: Seq<u8>, off: nat)
    requires
        bin_end(b, Some(off)) is Some,
    ensures
        bin_val(b, Some(off)).len() <= max_len(),
        stands_at(b, off, enc_bin(bin_val(b, Some(off)))),
        bin_end(b, Some(off)) == Some(off + enc_bin(bin_val(b, Some(off))).len()),
{
    reveal(stands_at);
    let t = b.skip(off as int);
    lemma_bin_canonical(t);
    let (x, k) = read_bin(t).unwrap();
    assert(t.subrange(0, k as int) =~= b.subrange(off as int, (off + k) as int));
}

/// Reads the byte string at `pos`; gives it with the position behind it.
pub(crate) fn take_bin(bytes: &[u8], pos: usize) -> (r: Option<(Vec<u8>, usize)>)
    requires
        pos <= bytes@.len(),
    ensures
        match r {
            Some((x, next)) => next <= bytes@.len() && bin_end(bytes@, Some(pos as nat)) == Some(
                next as nat,
            ) && x@ == bin_val(bytes@, Some(pos as nat)),
            None => bin_end(bytes@, Some(pos as nat)) is None,
        },
{
    proof {
        reveal(read_bin);
    }
    let ghost b = bytes@.skip(pos as int);
    match take_bin_header(bytes, pos) {
        None => None,
        Some((n, h)) => {
            proof {
                lemma_bin_header_canonical(b);
            }
            let left = bytes.len() - pos - h;
            if n as usize > left {
                return None;
            }
            let start = pos + h;
            let end = start + n as usize;
            let x = slice_to_vec(slice_subrange(bytes, start, end));
            assert(x@ =~= b.subrange(h as int, h + n));
            Some((x, end))
        },
    }
}

/// Reads the string at `pos`; gives it with the position behind it.
pub(crate) fn take_str(bytes: &[u8], pos: usize) -> (r: Option<(String, usize)>)
    requires
        pos <= bytes@.len(),
    ensures
        match r {
            Some((s, next)) => next <= bytes@.len() && str_end(bytes@, Some(pos as nat)) == Some(
                next as nat,
            ) && s@ == str_val(bytes@, Some(pos as nat)),
            None => str_end(bytes@, Some(pos as nat)) is None,
        },
{
    proof {
        reveal(read_str);
    }
    let ghost b = bytes@.skip(pos as int);
    match take_str_header(bytes, pos) {
        None => None,
        Some((n, h)) => {
            proof {
                lemma_str_header_canonical(b);
            }
            let left = bytes.len() - pos - h;
            if n as usize > left {
                return None;
            }
            let start = pos + h;
            let end = start + n as usize;
            let body = slice_to_vec(slice_subrange(bytes, start, end));
            assert(body@ =~= b.subrange(h as int, h + n));
            match string_from_utf8(body) {
                None => None,
                Some(s) => Some((s, end)),
            }
        },
    }
}

} // verus!
