use qcoin::crypto::{
    CryptoError, Dilithium2Scheme, Falcon512Scheme, PqSignatureScheme, PrivateKey, PublicKey,
    Signature, SignatureSchemeId,
};

const MESSAGE: &[u8] = b"qcoin-pq-test";

#[test]
fn dilithium_roundtrip() {
    let scheme = Dilithium2Scheme;
    let (pk, sk) = scheme.keygen().expect("keygen should succeed");
    let sig = scheme.sign(&sk, MESSAGE).expect("signing should succeed");

    assert!(scheme.verify(&pk, MESSAGE, &sig).is_ok());
}

#[test]
fn falcon_roundtrip() {
    let scheme = Falcon512Scheme;
    let (pk, sk) = scheme.keygen().expect("keygen should succeed");
    let sig = scheme.sign(&sk, MESSAGE).expect("signing should succeed");

    assert!(scheme.verify(&pk, MESSAGE, &sig).is_ok());
}

#[test]
fn signing_rejects_wrong_scheme_key() {
    let dilithium = Dilithium2Scheme;
    let falcon = Falcon512Scheme;

    let (_, sk) = dilithium.keygen().expect("keygen should succeed");
    let result = falcon.sign(&sk, MESSAGE);

    assert!(matches!(result, Err(CryptoError::WrongScheme)));
}

#[test]
fn verify_rejects_wrong_scheme_signature() {
    let dilithium = Dilithium2Scheme;
    let falcon = Falcon512Scheme;

    let (dili_pk, _dili_sk) = dilithium.keygen().expect("keygen should succeed");
    let falcon_sig = falcon
        .sign(
            &falcon.keygen().expect("falcon keygen should succeed").1,
            MESSAGE,
        )
        .expect("falcon signing should succeed");

    let result = dilithium.verify(&dili_pk, MESSAGE, &falcon_sig);
    assert!(matches!(result, Err(CryptoError::WrongScheme)));

    let sig_from_wrong_scheme = Signature {
        scheme: SignatureSchemeId::Dilithium2,
        bytes: falcon_sig.bytes.clone(),
    };
    let result = dilithium.verify(&dili_pk, MESSAGE, &sig_from_wrong_scheme);
    assert!(matches!(result, Err(CryptoError::InvalidSignature)));
}

#[test]
fn verify_rejects_corrupted_public_key() {
    let scheme = Dilithium2Scheme;
    let (pk, sk) = scheme.keygen().expect("keygen should succeed");
    let sig = scheme.sign(&sk, MESSAGE).expect("signing should succeed");

    let mut corrupted_bytes = pk.bytes.clone();
    corrupted_bytes.push(0);
    let corrupted_pk = PublicKey {
        scheme: pk.scheme,
        bytes: corrupted_bytes,
    };

    let result = scheme.verify(&corrupted_pk, MESSAGE, &sig);
    assert!(matches!(result, Err(CryptoError::InvalidPublicKey)));
}

#[test]
fn verify_rejects_corrupted_signature() {
    let scheme = Falcon512Scheme;
    let (pk, sk) = scheme.keygen().expect("keygen should succeed");
    let mut sig = scheme.sign(&sk, MESSAGE).expect("signing should succeed");
    sig.bytes.push(1);

    let result = scheme.verify(&pk, MESSAGE, &sig);
    assert!(matches!(result, Err(CryptoError::InvalidSignature)));
}

#[test]
fn verify_rejects_corrupted_message() {
    let scheme = Dilithium2Scheme;
    let (pk, sk) = scheme.keygen().expect("keygen should succeed");
    let sig = scheme.sign(&sk, MESSAGE).expect("signing should succeed");

    let result = scheme.verify(&pk, b"tampered", &sig);
    assert!(matches!(result, Err(CryptoError::InvalidSignature)));
}

#[test]
fn roundtrip_serialization_is_canonical() {
    let scheme = Falcon512Scheme;
    let (pk, sk) = scheme.keygen().expect("keygen should succeed");
    let sig = scheme.sign(&sk, MESSAGE).expect("signing should succeed");

    let encoded_pk = pk.to_bytes().expect("public key encoding");
    let decoded_pk = PublicKey::from_bytes(&encoded_pk).expect("public key decoding");
    assert_eq!(pk, decoded_pk);

    let encoded_sig = sig.to_bytes().expect("signature encoding");
    let decoded_sig = Signature::from_bytes(&encoded_sig).expect("signature decoding");
    assert_eq!(sig, decoded_sig);
}

#[test]
fn keygen_produces_documented_key_sizes() {
    let (pk, sk) = Dilithium2Scheme.keygen().expect("keygen should succeed");
    assert_eq!(pk.bytes.len(), qcoin::crypto::DILITHIUM2_PUBLIC_KEY_LEN);
    assert_eq!(sk.bytes().len(), qcoin::crypto::DILITHIUM2_SECRET_KEY_LEN);

    let (pk, sk) = Falcon512Scheme.keygen().expect("keygen should succeed");
    assert_eq!(pk.bytes.len(), qcoin::crypto::FALCON512_PUBLIC_KEY_LEN);
    assert_eq!(sk.bytes().len(), qcoin::crypto::FALCON512_SECRET_KEY_LEN);
}

#[test]
fn private_key_roundtrips_through_its_encoding() {
    let (_, sk) = Dilithium2Scheme.keygen().expect("keygen should succeed");
    let encoded = sk.to_bytes().expect("private key encoding");
    let decoded = PrivateKey::from_bytes(&encoded).expect("private key decoding");
    assert_eq!(decoded.scheme, SignatureSchemeId::Dilithium2);
    assert_eq!(decoded.bytes(), sk.bytes());
}

#[test]
fn scheme_id_codes_roundtrip() {
    assert_eq!(SignatureSchemeId::from_u16(1), SignatureSchemeId::Dilithium2);
    assert_eq!(SignatureSchemeId::from_u16(2), SignatureSchemeId::Falcon512);
    assert_eq!(SignatureSchemeId::from_u16(7), SignatureSchemeId::Unknown(7));
    assert_eq!(SignatureSchemeId::Dilithium2.to_u16(), 1);
    assert_eq!(SignatureSchemeId::Falcon512.to_u16(), 2);
    assert_eq!(SignatureSchemeId::Unknown(7).to_u16(), 7);
}

#[test]
fn key_decoding_rejects_length_mismatches() {
    // too short for the tag and length prefix
    assert!(matches!(
        PublicKey::from_bytes(&[1, 0, 0]),
        Err(CryptoError::InvalidPublicKey)
    ));
    // declared length disagrees with the payload
    let mut encoded = vec![1u8, 0, 5, 0, 0, 0];
    encoded.extend_from_slice(&[9u8; 3]);
    assert!(matches!(
        PublicKey::from_bytes(&encoded),
        Err(CryptoError::InvalidPublicKey)
    ));
    // well-formed frame, but the payload size fits no known scheme
    let mut encoded = vec![1u8, 0, 3, 0, 0, 0];
    encoded.extend_from_slice(&[9u8; 3]);
    assert!(matches!(
        PublicKey::from_bytes(&encoded),
        Err(CryptoError::InvalidPublicKey)
    ));
    // unknown scheme tag
    let mut encoded = vec![9u8, 0, 3, 0, 0, 0];
    encoded.extend_from_slice(&[9u8; 3]);
    assert!(matches!(
        PublicKey::from_bytes(&encoded),
        Err(CryptoError::UnsupportedScheme(SignatureSchemeId::Unknown(9)))
    ));
}
