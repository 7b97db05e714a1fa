use mcmonarch::codec::{decode, encode, round_trip, CryptoError};
use mcmonarch::mailer::EmailVariables;

const PASSPHRASE: &[u8] = b"a modest passphrase";

#[test]
fn round_trips_small_identities() {
    for identity in [0u64, 1, 9, 10, 42, 104] {
        let token = encode(identity, PASSPHRASE);
        assert_eq!(Ok(identity), decode(&token, PASSPHRASE));
    }
}

#[test]
fn round_trips_large_identities() {
    for identity in [740971495521779795u64, u64::MAX, u64::MAX - 1] {
        assert_eq!(Ok(identity), round_trip(identity, PASSPHRASE));
    }
}

#[test]
fn decode_rejects_wrong_passphrase() {
    let token = encode(7, PASSPHRASE);
    assert_eq!(
        Err(CryptoError::Integrity),
        decode(&token, b"some other passphrase")
    );
}

#[test]
fn decode_rejects_truncated_and_garbage_tokens() {
    assert_eq!(Err(CryptoError::Integrity), decode(&[], PASSPHRASE));
    assert_eq!(
        Err(CryptoError::Integrity),
        decode(&[1, 2, 3, 4], PASSPHRASE)
    );
    let garbage: Vec<u8> = (0..80u8).collect();
    assert_eq!(Err(CryptoError::Integrity), decode(&garbage, PASSPHRASE));
}

#[test]
fn decode_rejects_non_identity_plaintext() {
    // a token sealing text that is not an identity is intact but malformed
    let vars = EmailVariables::new("dave grohl sucks", PASSPHRASE);
    assert_eq!(Err(CryptoError::Malformed), decode(&vars.uid, PASSPHRASE));
    // digits, but beyond the identity's numeric range
    let vars = EmailVariables::new("99999999999999999999", PASSPHRASE);
    assert_eq!(Err(CryptoError::Malformed), decode(&vars.uid, PASSPHRASE));
    // empty plaintext
    let vars = EmailVariables::new("", PASSPHRASE);
    assert_eq!(Err(CryptoError::Malformed), decode(&vars.uid, PASSPHRASE));
}

#[test]
fn tampering_header_bytes_rejected() {
    // salt and nonce region: flipping any byte must fail decoding
    let token = encode(7, PASSPHRASE);
    for i in 0..28 {
        let mut t = token.clone();
        t[i] ^= 0xff;
        assert_eq!(Err(CryptoError::Integrity), decode(&t, PASSPHRASE));
    }
}

#[test]
fn tampering_remaining_bytes_rejected() {
    // rest of the nonce, the tag and the ciphertext
    let token = encode(7, PASSPHRASE);
    for i in 28..token.len() {
        let mut t = token.clone();
        t[i] ^= 0xff;
        assert_eq!(Err(CryptoError::Integrity), decode(&t, PASSPHRASE));
    }
}

#[test]
fn distinct_identities_verify_independently() {
    // many in-flight tokens for distinct identities: each decodes to its
    // own identity, unaffected by the others
    let identities = [11u64, 22, 33, 44];
    let tokens: Vec<Vec<u8>> = identities
        .iter()
        .map(|&identity| encode(identity, PASSPHRASE))
        .collect();
    for (&identity, token) in identities.iter().zip(tokens.iter()) {
        assert_eq!(Ok(identity), decode(token, PASSPHRASE));
    }
}
