//! HTTP digest authentication responses (RFC 2617) for SIP challenges.
use vstd::prelude::*;
use vstd::utf8::encode_utf8;
use md5::Digest;
use crate::text::{push_char, push_str};

verus! {

/// The MD5 digest of a byte sequence.
pub uninterp spec fn md5(data: Seq<u8>) -> Seq<u8>;

/// `<md5::Md5 as Digest>::digest`: the 16-byte MD5 digest of `data`, named `md5`.
#[verifier::external_body]
fn md5_digest(data: &[u8]) -> (d: Vec<u8>)
    ensures
        d@ == md5(data@),
        d@.len() == 16,
{
    md5::Md5::digest(data).to_vec()
}

/// Lower-case hexadecimal digit of a value below 16.
pub open spec fn hex_digit(n: u8) -> char {
    if n < 10 {
        (48 + n) as char
    } else {
        (87 + n) as char
    }
}

/// Two lower-case hexadecimal digits per byte, in order (`{:x}` of a digest).
pub open spec fn hex(b: Seq<u8>) -> Seq<char>
    decreases b.len(),
{
    if b.len() == 0 {
        seq![]
    } else {
        hex(b.drop_last()) + seq![hex_digit(b.last() / 16), hex_digit(b.last() % 16)]
    }
}

pub proof fn lemma_hex_len(b: Seq<u8>)
    ensures
        hex(b).len() == 2 * b.len(),
    decreases b.len(),
{
    if b.len() > 0 {
        lemma_hex_len(b.drop_last());
    }
}

/// Lower-case hex MD5 of the UTF-8 bytes of a text.
pub open spec fn md5_hex(t: Seq<char>) -> Seq<char> {
    hex(md5(encode_utf8(t)))
}

pub open spec fn colon() -> Seq<char> {
    seq![':']
}

/// HA1 = MD5(username:realm:password).
pub open spec fn digest_ha1(username: Seq<char>, realm: Seq<char>, password: Seq<char>) -> Seq<char> {
    md5_hex(username + colon() + realm + colon() + password)
}

/// HA2 = MD5(method:uri).
pub open spec fn digest_ha2(method: Seq<char>, uri: Seq<char>) -> Seq<char> {
    md5_hex(method + colon() + uri)
}

/// MD5(HA1:nonce:HA2).
pub open spec fn digest_response(
    username: Seq<char>,
    password: Seq<char>,
    realm: Seq<char>,
    nonce: Seq<char>,
    method: Seq<char>,
    uri: Seq<char>,
) -> Seq<char> {
    md5_hex(
        digest_ha1(username, realm, password) + colon() + nonce + colon() + digest_ha2(method, uri),
    )
}

/// MD5(HA1:nonce:nc:cnonce:qop:HA2).
pub open spec fn digest_response_qop(
    username: Seq<char>,
    password: Seq<char>,
    realm: Seq<char>,
    nonce: Seq<char>,
    cnonce: Seq<char>,
    nc: Seq<char>,
    qop: Seq<char>,
    method: Seq<char>,
    uri: Seq<char>,
) -> Seq<char> {
    md5_hex(
        digest_ha1(username, realm, password) + colon() + nonce + colon() + nc + colon() + cnonce
            + colon() + qop + colon() + digest_ha2(method, uri),
    )
}

fn hex_digit_exec(n: u8) -> (c: char)
    requires
        n < 16,
    ensures
        c == hex_digit(n),
{
    if n < 10 {
        (48u8 + n) as char
    } else {
        (87u8 + n) as char
    }
}

/// Two lower-case hexadecimal digits per byte, in order (`{:x}` of a digest).
pub fn hex_string(d: &[u8]) -> (r: String)
    ensures
        r@ == hex(d@),
        r@.len() == 2 * d@.len(),
{
    let mut r = String::new();
    let mut k: usize = 0;
    assert(d@.subrange(0, 0) == Seq::<u8>::empty());
    while k < d.len()
        invariant
            k <= d@.len(),
            r@ == hex(d@.subrange(0, k as int)),
        decreases d@.len() - k,
    {
        let b = d[k];
        let ghost next = d@.subrange(0, k + 1);
        assert(next.drop_last() == d@.subrange(0, k as int));
        assert(next.last() == b);
        push_char(&mut r, hex_digit_exec(b / 16));
        push_char(&mut r, hex_digit_exec(b % 16));
        k = k + 1;
    }
    assert(d@.subrange(0, d@.len() as int) == d@);
    proof {
        lemma_hex_len(d@);
    }
    r
}

/// Lower-case hex MD5 of the UTF-8 bytes of `s`.
fn md5_hex_of(s: &String) -> (r: String)
    ensures
        r@ == md5_hex(s@),
        r@.len() == 32,
{
    let d = md5_digest(s.as_str().as_bytes());
    hex_string(d.as_slice())
}

fn push_colon(s: &mut String)
    ensures
        final(s)@ == old(s)@ + colon(),
{
    push_char(s, ':');
}

/// The digest response `MD5(MD5(username:realm:password):nonce:MD5(method:uri))`,
/// in lower-case hex.
pub fn calculate_digest_response(
    username: &str,
    password: &str,
    realm: &str,
    nonce: &str,
    method: &str,
    uri: &str,
) -> (r: String)
    ensures
        r@ == digest_response(username@, password@, realm@, nonce@, method@, uri@),
        r@.len() == 32,
{
    let mut a1 = String::new();
    push_str(&mut a1, username);
    push_colon(&mut a1);
    push_str(&mut a1, realm);
    push_colon(&mut a1);
    push_str(&mut a1, password);
    assert(a1@ == username@ + colon() + realm@ + colon() + password@);
    let ha1 = md5_hex_of(&a1);
    let mut a2 = String::new();
    push_str(&mut a2, method);
    push_colon(&mut a2);
    push_str(&mut a2, uri);
    assert(a2@ == method@ + colon() + uri@);
    let ha2 = md5_hex_of(&a2);
    let mut t = String::new();
    push_str(&mut t, ha1.as_str());
    push_colon(&mut t);
    push_str(&mut t, nonce);
    push_colon(&mut t);
    push_str(&mut t, ha2.as_str());
    assert(t@ == ha1@ + colon() + nonce@ + colon() + ha2@);
    md5_hex_of(&t)
}

/// The digest response with `qop`:
/// `MD5(MD5(username:realm:password):nonce:nc:cnonce:qop:MD5(method:uri))`,
/// in lower-case hex.
pub fn calculate_digest_response_qop(
    username: &str,
    password: &str,
    realm: &str,
    nonce: &str,
    cnonce: &str,
    nc: &str,
    qop: &str,
    method: &str,
    uri: &str,
) -> (r: String)
    ensures
        r@ == digest_response_qop(
            username@,
            password@,
            realm@,
            nonce@,
            cnonce@,
            nc@,
            qop@,
            method@,
            uri@,
        ),
        r@.len() == 32,
{
    let mut a1 = String::new();
    push_str(&mut a1, username);
    push_colon(&mut a1);
    push_str(&mut a1, realm);
    push_colon(&mut a1);
    push_str(&mut a1, password);
    assert(a1@ == username@ + colon() + realm@ + colon() + password@);
    let ha1 = md5_hex_of(&a1);
    let mut a2 = String::new();
    push_str(&mut a2, method);
    push_colon(&mut a2);
    push_str(&mut a2, uri);
    assert(a2@ == method@ + colon() + uri@);
    let ha2 = md5_hex_of(&a2);
    let mut t = String::new();
    push_str(&mut t, ha1.as_str());
    push_colon(&mut t);
    push_str(&mut t, nonce);
    push_colon(&mut t);
    push_str(&mut t, nc);
    push_colon(&mut t);
    push_str(&mut t, cnonce);
    push_colon(&mut t);
    push_str(&mut t, qop);
    push_colon(&mut t);
    push_str(&mut t, ha2.as_str());
    assert(t@ == ha1@ + colon() + nonce@ + colon() + nc@ + colon() + cnonce@ + colon() + qop@
        + colon() + ha2@);
    md5_hex_of(&t)
}

} // verus!
