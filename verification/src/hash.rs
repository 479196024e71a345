//! Digests, random bytes and fresh identifiers.
use crate::text;
use sha2::{Digest, Sha256};
use vstd::prelude::*;

verus! {

/// The SHA-256 digest of a byte string.
pub uninterp spec fn sha256(b: Seq<u8>) -> Seq<u8>;

/// The digest that `sha2::Sha256::digest` computes: the 32 bytes of
/// SHA-256, a function of the bytes alone.
#[verifier::external_body]
pub(crate) fn sha256_of(b: &[u8]) -> (r: Vec<u8>)
    ensures
        r@ == sha256(b@),
        r@.len() == 32,
{
    Sha256::digest(b).to_vec()
}

/// One hexadecimal digit.
pub open spec fn hex_digit(n: int) -> char {
    if n < 10 {
        (('0' as int) + n) as char
    } else {
        (('a' as int) + n - 10) as char
    }
}

/// The lower-case hexadecimal form of a byte string.
pub open spec fn hex(b: Seq<u8>) -> Seq<char>
    decreases b.len(),
{
    if b.len() == 0 {
        seq![]
    } else {
        hex(b.drop_last()).push(hex_digit(b.last() as int / 16)).push(
            hex_digit(b.last() as int % 16),
        )
    }
}

fn hex_digit_of(n: u8) -> (c: char)
    requires
        n < 16,
    ensures
        c == hex_digit(n as int),
{
    if n < 10 {
        (48 + n) as char
    } else {
        (97 + (n - 10)) as char
    }
}

/// The lower-case hexadecimal form of a byte string.
pub fn hex_of(b: &[u8]) -> (r: String)
    ensures
        r@ == hex(b@),
{
    let mut r = String::new();
    let mut i: usize = 0;
    assert(b@.take(0) =~= Seq::empty());
    while i < b.len()
        invariant
            i <= b@.len(),
            r@ == hex(b@.take(i as int)),
        decreases b.len() - i,
    {
        assert(b@.take(i + 1).drop_last() =~= b@.take(i as int));
        r.push(hex_digit_of(b[i] / 16));
        r.push(hex_digit_of(b[i] % 16));
        i = i + 1;
    }
    assert(b@.take(i as int) =~= b@);
    r
}

/// Twice as many digits as bytes.
pub proof fn hex_len(b: Seq<u8>)
    ensures
        hex(b).len() == 2 * b.len(),
    decreases b.len(),
{
    if b.len() > 0 {
        hex_len(b.drop_last());
    }
}

/// Every digit of a hex form is a lower-case one.
pub proof fn hex_is_lower(b: Seq<u8>)
    ensures
        forall|i: int| 0 <= i < hex(b).len() ==> lower_hex(#[trigger] hex(b)[i]),
    decreases b.len(),
{
    if b.len() > 0 {
        hex_is_lower(b.drop_last());
        let h = hex(b.drop_last());
        let x = b.last() as int;
        assert(lower_hex(hex_digit(x / 16)) && lower_hex(hex_digit(x % 16)));
        assert forall|i: int| 0 <= i < hex(b).len() implies lower_hex(#[trigger] hex(b)[i]) by {
            if i < h.len() {
                assert(hex(b)[i] == h[i]);
            }
        }
    }
}

/// The hexadecimal SHA-256 digest of a byte string.
pub open spec fn sha256_hex(b: Seq<u8>) -> Seq<char> {
    hex(sha256(b))
}

/// The hexadecimal SHA-256 digest of a byte string.
pub fn sha256_hex_of(b: &[u8]) -> (r: String)
    ensures
        r@ == sha256_hex(b@),
        r@.len() == 64,
{
    let d = sha256_of(b);
    proof {
        hex_len(d@);
    }
    hex_of(d.as_slice())
}

/// The hexadecimal SHA-256 digest of a text's UTF-8 bytes.
pub fn sha256_text(s: &str) -> (r: String)
    ensures
        r@ == sha256_hex(vstd::utf8::encode_utf8(s@)),
        r@.len() == 64,
{
    let b = text::bytes_of(s);
    sha256_hex_of(b.as_slice())
}

/// 32 bytes from the system's random source (`getrandom::fill`), or what
/// its error says. Nothing is known of what they are.
#[verifier::external_body]
pub(crate) fn random_bytes() -> (r: Result<Vec<u8>, String>)
    ensures
        r is Ok ==> r->Ok_0@.len() == 32,
{
    let mut b = [0u8; 32];
    match getrandom::fill(&mut b) {
        Ok(()) => Ok(b.to_vec()),
        Err(e) => Err(e.to_string()),
    }
}

/// A digit of lower-case hexadecimal.
pub open spec fn lower_hex(c: char) -> bool {
    '0' <= c <= '9' || 'a' <= c <= 'f'
}

/// A fresh random identifier (`uuid::Uuid::new_v4`, in its simple form):
/// 32 lower-case hexadecimal digits. Which digits rests on chance; the call
/// panics only where the system gives no randomness at all.
#[verifier::external_body]
pub(crate) fn fresh_uuid() -> (r: String)
    ensures
        r@.len() == 32,
        forall|i: int| 0 <= i < 32 ==> lower_hex(#[trigger] r@[i]),
{
    uuid::Uuid::new_v4().simple().to_string()
}

} // verus!
