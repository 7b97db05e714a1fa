//! Token codec.
//!
//! An identity is encoded into an opaque, tamper-evident byte string: the
//! identity's decimal digits are sealed with `simplecrypt` (argon2id-derived
//! key, authenticated secretbox). Decoding recovers exactly the identity that
//! was encoded, or fails: on any token that was not produced under the same
//! passphrase, and on sealed plaintext that is not a well-formed identity.

use vstd::prelude::*;

use crate::digits::{
    all_digit_bytes, dec_bytes_of, dec_value_bytes, lemma_dec_bytes_of_digits,
    lemma_dec_bytes_of_value, parse_u64_dec_bytes, u64_to_dec_bytes,
};

verus! {

/// What `simplecrypt::decrypt` recovers from `cipher` under `passphrase`:
/// the sealed plaintext of an intact token, nothing for anything else.
/// Decryption reads only its two arguments (salt and nonce travel inside
/// `cipher`), so its result can be given a name.
pub uninterp spec fn decrypt_of(cipher: Seq<u8>, passphrase: Seq<u8>) -> Option<Seq<u8>>;

/// Relies on `simplecrypt::encrypt`: it seals `data` under a key derived from
/// `passphrase` and prepends the salt and nonce it used, so that
/// `simplecrypt::decrypt` of the result under the same passphrase returns
/// exactly `data` again.
#[verifier::external_body]
pub(crate) fn encrypt_bytes(data: &[u8], passphrase: &[u8]) -> (r: Vec<u8>)
    ensures
        decrypt_of(r@, passphrase@) == Some(data@),
{
    simplecrypt::encrypt(data, passphrase)
}

/// Declares `simplecrypt::DecryptionError`, the outside error type that the
/// decryption wrapper below returns; `decode` maps it to [`CryptoError`].
#[verifier::external_type_specification]
#[verifier::external_body]
pub struct ExDecryptionError(simplecrypt::DecryptionError);

/// Relies on `simplecrypt::decrypt`: a deterministic function of the
/// ciphertext and the passphrase that returns the sealed plaintext of an
/// intact token and an error for any other input.
#[verifier::external_body]
fn decrypt_bytes(cipher: &[u8], passphrase: &[u8]) -> (r: Result<
    Vec<u8>,
    simplecrypt::DecryptionError,
>)
    ensures
        match r {
            Ok(m) => decrypt_of(cipher@, passphrase@) == Some(m@),
            Err(_) => decrypt_of(cipher@, passphrase@) is None,
        },
{
    simplecrypt::decrypt(cipher, passphrase)
}

/// A well-formed identity plaintext: non-empty decimal digits whose value
/// fits the identity's numeric range.
pub open spec fn parse_identity(m: Seq<u8>) -> Option<u64> {
    if m.len() > 0 && all_digit_bytes(m) && dec_value_bytes(m) <= u64::MAX {
        Some(dec_value_bytes(m) as u64)
    } else {
        None
    }
}

/// The identity a token decodes to under `passphrase`, if any.
pub open spec fn decode_spec(token: Seq<u8>, passphrase: Seq<u8>) -> Option<u64> {
    match decrypt_of(token, passphrase) {
        Some(m) => parse_identity(m),
        None => None,
    }
}

/// Why a token failed to decode. The distinction is for local logs only:
/// every failure is answered with the same outward response.
#[derive(Clone, Copy, Debug, PartialEq, Eq, Structural)]
pub enum CryptoError {
    /// The integrity check failed: wrong key, bit flip, or a byte string this
    /// codec never produced.
    Integrity,
    /// The token was intact but its sealed plaintext is not a well-formed
    /// identity.
    Malformed,
}

/// Encodes `identity` into a tamper-evident token. The ciphertext embeds a
/// fresh salt and nonce, so two tokens for one identity may differ; every
/// token produced here decodes back to exactly `identity`.
pub fn encode(identity: u64, passphrase: &[u8]) -> (token: Vec<u8>)
    ensures
        decode_spec(token@, passphrase@) == Some(identity),
{
    let digits = u64_to_dec_bytes(identity);
    proof {
        lemma_dec_bytes_of_digits(identity as nat);
        lemma_dec_bytes_of_value(identity as nat);
    }
    encrypt_bytes(digits.as_slice(), passphrase)
}

/// Decodes a token: recovers the identity it was encoded from, or says why
/// it cannot — `Integrity` when the ciphertext does not authenticate,
/// `Malformed` when the sealed plaintext is not a well-formed identity.
pub fn decode(token: &[u8], passphrase: &[u8]) -> (r: Result<u64, CryptoError>)
    ensures
        r matches Ok(i) ==> decode_spec(token@, passphrase@) == Some(i),
        r is Ok <==> decode_spec(token@, passphrase@) is Some,
        r == Err::<u64, CryptoError>(CryptoError::Integrity) <==> decrypt_of(
            token@,
            passphrase@,
        ) is None,
        r == Err::<u64, CryptoError>(CryptoError::Malformed) <==> (decrypt_of(
            token@,
            passphrase@,
        ) is Some && decode_spec(token@, passphrase@) is None),
{
    match decrypt_bytes(token, passphrase) {
        Err(_) => Err(CryptoError::Integrity),
        Ok(plain) => match parse_u64_dec_bytes(plain.as_slice()) {
            Some(i) => Ok(i),
            None => Err(CryptoError::Malformed),
        },
    }
}

/// Round trip, stated over the trusted boundary: any token whose sealed
/// plaintext is the canonical digit string of `identity` decodes to exactly
/// that identity.
pub proof fn lemma_token_round_trip(token: Seq<u8>, passphrase: Seq<u8>, identity: u64)
    requires
        decrypt_of(token, passphrase) == Some(dec_bytes_of(identity as nat)),
    ensures
        decode_spec(token, passphrase) == Some(identity),
{
    lemma_dec_bytes_of_digits(identity as nat);
    lemma_dec_bytes_of_value(identity as nat);
}

/// Round trip, executed: decoding a freshly encoded token always recovers
/// the identity that was encoded, for every identity and passphrase.
pub fn round_trip(identity: u64, passphrase: &[u8]) -> (r: Result<u64, CryptoError>)
    ensures
        r == Ok::<u64, CryptoError>(identity),
{
    let token = encode(identity, passphrase);
    decode(token.as_slice(), passphrase)
}

} // verus!
