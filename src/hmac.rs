use vstd::prelude::*;

use vstd::string::StringSliceAdditionalSpecFns;
use vstd::utf8::encode_utf8;

use crate::error::RvError;

verus! {

/// Largest input, in bytes, that `create_hmac` accepts.
pub const MAX_HMAC_INPUT_LENGTH: usize = 4096;

/// The HMAC-SHA256 tag of `value` under `key`.
pub uninterp spec fn hmac_sha256_of(key: Seq<u8>, value: Seq<u8>) -> Seq<u8>;

/// The lower-case hexadecimal digit for a nibble.
pub open spec fn hex_digit(n: u8) -> char
    recommends
        n < 16,
{
    if n < 10 {
        (('0' as u8) + n) as char
    } else {
        (('a' as u8) + (n - 10)) as char
    }
}

/// Lower-case hexadecimal text of a byte string: two digits per byte, high nibble first.
pub open spec fn hex_of(b: Seq<u8>) -> Seq<char>
    decreases b.len(),
{
    if b.len() == 0 {
        Seq::empty()
    } else {
        seq![hex_digit(b[0] / 16), hex_digit(b[0] % 16)] + hex_of(b.drop_first())
    }
}

/// Hexadecimal text has two digits per byte.
pub proof fn lemma_hex_len(b: Seq<u8>)
    ensures
        hex_of(b).len() == 2 * b.len(),
    decreases b.len(),
{
    if b.len() > 0 {
        lemma_hex_len(b.drop_first());
    }
}

/// The digest that `create_hmac` computes: hexadecimal text of the HMAC-SHA256 tag.
pub open spec fn digest_of(key: Seq<u8>, value: Seq<u8>) -> Seq<char> {
    hex_of(hmac_sha256_of(key, value))
}

/// What `create_hmac(key, value)` may return.
pub open spec fn create_hmac_post(key: Seq<char>, value: Seq<char>, r: Result<String, RvError>) -> bool {
    &&& (encode_utf8(key).len() == 0 <==> (r is Err && r->Err_0 == RvError::InvalidInput))
    &&& (encode_utf8(key).len() != 0 && encode_utf8(value).len() > MAX_HMAC_INPUT_LENGTH
        <==> (r is Err && r->Err_0 == RvError::InputTooLarge))
    &&& (r is Ok ==> r->Ok_0@ == digest_of(encode_utf8(key), encode_utf8(value)))
    &&& (r is Ok ==> r->Ok_0@.len() == 64)
    &&& (r is Err ==> (r->Err_0 == RvError::InvalidInput || r->Err_0 == RvError::InputTooLarge
        || r->Err_0 == RvError::CryptoFailure))
}

/// Relies on openssl's `PKey::hmac`, `Signer::new`, `Signer::update` and
/// `Signer::sign_to_vec` with SHA-256: on success the tag is the HMAC-SHA256 of
/// `value` under `key`, which is as long as a SHA-256 digest, 32 bytes.
#[verifier::external_body]
fn hmac_sha256(key: &[u8], value: &[u8]) -> (r: Option<Vec<u8>>)
    requires
        key@.len() <= i32::MAX,
    ensures
        r is Some ==> r->Some_0@ == hmac_sha256_of(key@, value@),
        r is Some ==> r->Some_0@.len() == 32,
{
    let pkey = openssl::pkey::PKey::hmac(key).ok()?;
    let mut signer = openssl::sign::Signer::new(openssl::hash::MessageDigest::sha256(), &pkey).ok()?;
    signer.update(value).ok()?;
    signer.sign_to_vec().ok()
}

/// Relies on `hex::encode`: two lower-case digits per byte, high nibble first.
#[verifier::external_body]
pub(crate) fn hex_encode(b: &[u8]) -> (r: String)
    ensures
        r@ == hex_of(b@),
{
    hex::encode(b)
}

/// Keyed hash of `value` under `key`, as lower-case hexadecimal text.
///
/// Fails with `InvalidInput` on an empty key and with `InputTooLarge` on a
/// value longer than `MAX_HMAC_INPUT_LENGTH` bytes.
pub fn create_hmac(key: &str, value: &str) -> (r: Result<String, RvError>)
    ensures
        create_hmac_post(key@, value@, r),
{
    let kb = key.as_bytes();
    let vb = value.as_bytes();
    if kb.len() == 0 {
        return Err(RvError::InvalidInput);
    }
    if vb.len() > MAX_HMAC_INPUT_LENGTH {
        return Err(RvError::InputTooLarge);
    }
    if kb.len() > i32::MAX as usize {
        return Err(RvError::CryptoFailure);
    }
    match hmac_sha256(kb, vb) {
        Some(tag) => {
            proof {
                lemma_hex_len(tag@);
            }
            Ok(hex_encode(tag.as_slice()))
        },
        None => Err(RvError::CryptoFailure),
    }
}

/// Two successful computations of the keyed hash on the same key and value
/// give the same digest.
pub proof fn lemma_create_hmac_deterministic(
    key: &str,
    value: &str,
    a: Result<String, RvError>,
    b: Result<String, RvError>,
)
    requires
        create_hmac_post(key@, value@, a),
        create_hmac_post(key@, value@, b),
        a is Ok,
        b is Ok,
    ensures
        a->Ok_0@ == b->Ok_0@,
{
}

/// The keyed hash fails with `InvalidInput` exactly when the key is empty, and
/// with `InputTooLarge` exactly when the key is not empty and the value is
/// longer than `MAX_HMAC_INPUT_LENGTH` bytes.
pub proof fn lemma_create_hmac_errors(key: &str, value: &str, r: Result<String, RvError>)
    requires
        create_hmac_post(key@, value@, r),
    ensures
        (r is Err && r->Err_0 == RvError::InvalidInput) <==> key.spec_bytes().len() == 0,
        (r is Err && r->Err_0 == RvError::InputTooLarge) <==> (key.spec_bytes().len() != 0
            && value.spec_bytes().len() > MAX_HMAC_INPUT_LENGTH),
{
}

} // verus!
