//! Standard base64 (RFC 4648 alphabet, with `=` padding), stated as a spec
//! function, and the calls into the `base64` crate that compute it.

use base64::Engine;
use vstd::prelude::*;

verus! {

/// The character of the standard alphabet for a 6-bit value.
pub open spec fn b64_symbol(v: int) -> u8 {
    if v < 26 {
        (65 + v) as u8
    } else if v < 52 {
        (97 + (v - 26)) as u8
    } else if v < 62 {
        (48 + (v - 52)) as u8
    } else if v == 62 {
        43u8
    } else {
        47u8
    }
}

pub open spec fn b64_pad() -> u8 {
    61u8
}

/// The four characters for three whole bytes.
pub open spec fn b64_quad(a: u8, b: u8, c: u8) -> Seq<u8> {
    let (a, b, c) = (a as int, b as int, c as int);
    seq![
        b64_symbol(a / 4),
        b64_symbol((a % 4) * 16 + b / 16),
        b64_symbol((b % 16) * 4 + c / 64),
        b64_symbol(c % 64),
    ]
}

/// The padded standard base64 text of `s`.
pub open spec fn b64_encode(s: Seq<u8>) -> Seq<u8>
    decreases s.len(),
{
    if s.len() == 0 {
        Seq::empty()
    } else if s.len() == 1 {
        let a = s[0] as int;
        seq![b64_symbol(a / 4), b64_symbol((a % 4) * 16), b64_pad(), b64_pad()]
    } else if s.len() == 2 {
        let (a, b) = (s[0] as int, s[1] as int);
        seq![
            b64_symbol(a / 4),
            b64_symbol((a % 4) * 16 + b / 16),
            b64_symbol((b % 16) * 4),
            b64_pad(),
        ]
    } else {
        b64_quad(s[0], s[1], s[2]) + b64_encode(s.subrange(3, s.len() as int))
    }
}

/// The number of groups of (up to) three bytes in `n` bytes.
pub open spec fn groups(n: int) -> int {
    (n + 2) / 3
}

pub proof fn lemma_encode_len(s: Seq<u8>)
    ensures
        b64_encode(s).len() == 4 * groups(s.len() as int),
    decreases s.len(),
{
    if s.len() >= 3 {
        lemma_encode_len(s.subrange(3, s.len() as int));
    }
}

/// Encoding is compatible with concatenation after whole groups.
pub proof fn lemma_encode_append(a: Seq<u8>, b: Seq<u8>)
    requires
        a.len() % 3 == 0,
    ensures
        b64_encode(a + b) == b64_encode(a) + b64_encode(b),
    decreases a.len(),
{
    if a.len() == 0 {
        assert(a + b =~= b);
        assert(b64_encode(a) =~= Seq::<u8>::empty());
        assert(b64_encode(a) + b64_encode(b) =~= b64_encode(b));
    } else {
        let rest = a.subrange(3, a.len() as int);
        assert((a + b).subrange(3, (a + b).len() as int) =~= rest + b);
        lemma_encode_append(rest, b);
        assert((a + b)[0] == a[0] && (a + b)[1] == a[1] && (a + b)[2] == a[2]);
        assert(b64_encode(a + b) =~= b64_quad(a[0], a[1], a[2]) + (b64_encode(rest) + b64_encode(b)));
    }
}

/// The text of groups `i` up to `j` of an encoding is the encoding of those groups.
pub proof fn lemma_encode_slice(d: Seq<u8>, i: int, j: int)
    requires
        0 <= i <= j <= groups(d.len() as int),
        3 * i <= d.len(),
    ensures
        b64_encode(d).subrange(4 * i, 4 * j) == b64_encode(
            d.subrange(3 * i, if 3 * j <= d.len() { 3 * j } else { d.len() as int }),
        ),
{
    let end = if 3 * j <= d.len() { 3 * j } else { d.len() as int };
    let a = d.subrange(0, 3 * i);
    let m = d.subrange(3 * i, end);
    let r = d.subrange(end, d.len() as int);
    assert(d =~= a + (m + r));
    lemma_encode_append(a, m + r);
    lemma_encode_len(a);
    lemma_encode_len(m);
    if 3 * j <= d.len() {
        lemma_encode_append(m, r);
        assert(b64_encode(d).subrange(4 * i, 4 * j) =~= b64_encode(m));
    } else {
        assert(r =~= Seq::<u8>::empty());
        assert(m + r =~= m);
        lemma_encode_len(d);
        assert(b64_encode(d).subrange(4 * i, 4 * j) =~= b64_encode(m));
    }
}

/// Every text that is the encoding of some bytes gives back those bytes.
pub open spec fn decodes_every_encoding<E>(r: Result<Vec<u8>, E>, s: Seq<u8>) -> bool {
    forall|x: Seq<u8>| #[trigger] b64_encode(x) == s ==> (r matches Ok(v) && v@ == x)
}

/// The error of `base64`'s decoder.
#[verifier::external_type_specification]
#[verifier::external_body]
pub struct ExDecodeError(base64::DecodeError);

/// Relies on `base64::Engine::encode` with the `STANDARD` engine: padded text
/// in the standard alphabet.
#[verifier::external_body]
pub(crate) fn b64_encode_bytes(b: &[u8]) -> (r: Vec<u8>)
    ensures
        r@ == b64_encode(b@),
{
    base64::engine::general_purpose::STANDARD.encode(b).into_bytes()
}

/// Relies on `base64::Engine::decode` with the `STANDARD` engine, which accepts
/// exactly the canonical padded texts (no trailing bits, canonical padding) and
/// gives back the bytes they encode.
#[verifier::external_body]
pub(crate) fn b64_decode_bytes(s: &[u8]) -> (r: Result<Vec<u8>, base64::DecodeError>)
    ensures
        decodes_every_encoding(r, s@),
        r matches Ok(v) ==> b64_encode(v@) == s@,
{
    base64::engine::general_purpose::STANDARD.decode(s)
}

} // verus!
