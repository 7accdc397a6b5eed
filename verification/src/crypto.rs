//! Signature-scheme identifiers, key and signature containers, their
//! canonical `[u16 scheme id][u32 length][payload]` wire encoding, and the
//! two post-quantum schemes the ledger accepts. The signature algorithms
//! themselves are outside code, reached through trusted wrappers; everything
//! around them — tagging, sizing, encoding, dispatch — is verified.
use vstd::prelude::*;

use pqcrypto_traits::sign::{
    DetachedSignature as PqDetachedSignatureTrait, PublicKey as PqPublicKeyTrait,
    SecretKey as PqSecretKeyTrait,
};

verus! {

/// Identifier of a post-quantum signature scheme, carried in every encoded
/// key and signature.
#[derive(Debug, Clone, Copy, PartialEq, Eq, Structural)]
pub enum SignatureSchemeId {
    Dilithium2,
    Falcon512,
    Unknown(u16),
}

#[derive(Debug, Clone, Copy, PartialEq, Eq, Structural)]
pub enum CryptoError {
    WrongScheme,
    InvalidPublicKey,
    InvalidSecretKey,
    InvalidSignature,
    UnsupportedScheme(SignatureSchemeId),
}

pub const DILITHIUM2_ID: u16 = 0x01;

pub const FALCON512_ID: u16 = 0x02;

pub const DILITHIUM2_PUBLIC_KEY_LEN: usize = 1312;

pub const DILITHIUM2_SECRET_KEY_LEN: usize = 2560;

pub const DILITHIUM2_SIGNATURE_LEN: usize = 2420;

pub const FALCON512_PUBLIC_KEY_LEN: usize = 897;

pub const FALCON512_SECRET_KEY_LEN: usize = 1281;

pub const FALCON512_SIGNATURE_LEN: usize = 752;

impl SignatureSchemeId {
    pub open spec fn spec_from_u16(id: u16) -> SignatureSchemeId {
        if id == DILITHIUM2_ID {
            SignatureSchemeId::Dilithium2
        } else if id == FALCON512_ID {
            SignatureSchemeId::Falcon512
        } else {
            SignatureSchemeId::Unknown(id)
        }
    }

    pub open spec fn spec_to_u16(self) -> u16 {
        match self {
            SignatureSchemeId::Dilithium2 => DILITHIUM2_ID,
            SignatureSchemeId::Falcon512 => FALCON512_ID,
            SignatureSchemeId::Unknown(value) => value,
        }
    }

    pub fn from_u16(id: u16) -> (r: Self)
        ensures
            r == Self::spec_from_u16(id),
    {
        if id == DILITHIUM2_ID {
            SignatureSchemeId::Dilithium2
        } else if id == FALCON512_ID {
            SignatureSchemeId::Falcon512
        } else {
            SignatureSchemeId::Unknown(id)
        }
    }

    pub fn to_u16(self) -> (r: u16)
        ensures
            r == self.spec_to_u16(),
    {
        match self {
            SignatureSchemeId::Dilithium2 => DILITHIUM2_ID,
            SignatureSchemeId::Falcon512 => FALCON512_ID,
            SignatureSchemeId::Unknown(value) => value,
        }
    }
}

/// Raw key material of each scheme's public key, if the scheme is supported.
pub open spec fn spec_public_key_size(scheme: SignatureSchemeId) -> Option<usize> {
    match scheme {
        SignatureSchemeId::Dilithium2 => Some(DILITHIUM2_PUBLIC_KEY_LEN),
        SignatureSchemeId::Falcon512 => Some(FALCON512_PUBLIC_KEY_LEN),
        SignatureSchemeId::Unknown(_) => None,
    }
}

pub open spec fn spec_secret_key_size(scheme: SignatureSchemeId) -> Option<usize> {
    match scheme {
        SignatureSchemeId::Dilithium2 => Some(DILITHIUM2_SECRET_KEY_LEN),
        SignatureSchemeId::Falcon512 => Some(FALCON512_SECRET_KEY_LEN),
        SignatureSchemeId::Unknown(_) => None,
    }
}

/// The maximum signature size of each scheme; signatures may be shorter.
pub open spec fn spec_signature_size(scheme: SignatureSchemeId) -> Option<usize> {
    match scheme {
        SignatureSchemeId::Dilithium2 => Some(DILITHIUM2_SIGNATURE_LEN),
        SignatureSchemeId::Falcon512 => Some(FALCON512_SIGNATURE_LEN),
        SignatureSchemeId::Unknown(_) => None,
    }
}

pub fn public_key_size(scheme: SignatureSchemeId) -> (r: Option<usize>)
    ensures
        r == spec_public_key_size(scheme),
{
    match scheme {
        SignatureSchemeId::Dilithium2 => Some(DILITHIUM2_PUBLIC_KEY_LEN),
        SignatureSchemeId::Falcon512 => Some(FALCON512_PUBLIC_KEY_LEN),
        SignatureSchemeId::Unknown(_) => None,
    }
}

pub fn secret_key_size(scheme: SignatureSchemeId) -> (r: Option<usize>)
    ensures
        r == spec_secret_key_size(scheme),
{
    match scheme {
        SignatureSchemeId::Dilithium2 => Some(DILITHIUM2_SECRET_KEY_LEN),
        SignatureSchemeId::Falcon512 => Some(FALCON512_SECRET_KEY_LEN),
        SignatureSchemeId::Unknown(_) => None,
    }
}

pub fn signature_size(scheme: SignatureSchemeId) -> (r: Option<usize>)
    ensures
        r == spec_signature_size(scheme),
{
    match scheme {
        SignatureSchemeId::Dilithium2 => Some(DILITHIUM2_SIGNATURE_LEN),
        SignatureSchemeId::Falcon512 => Some(FALCON512_SIGNATURE_LEN),
        SignatureSchemeId::Unknown(_) => None,
    }
}

/// A length is acceptable for a scheme when it matches the expected size
/// exactly, or does not exceed it where shorter material is allowed.
pub open spec fn spec_validate_key_size(
    expected: Option<usize>,
    scheme: SignatureSchemeId,
    len: nat,
    allow_shorter: bool,
    mismatch_error: CryptoError,
) -> Result<(), CryptoError> {
    match expected {
        Some(e) => if (!allow_shorter && len == e) || (allow_shorter && len <= e) {
            Ok(())
        } else {
            Err(mismatch_error)
        },
        None => Err(CryptoError::UnsupportedScheme(scheme)),
    }
}

pub fn validate_key_size(
    expected: Option<usize>,
    scheme: SignatureSchemeId,
    len: usize,
    allow_shorter: bool,
    mismatch_error: CryptoError,
) -> (r: Result<(), CryptoError>)
    ensures
        r == spec_validate_key_size(expected, scheme, len as nat, allow_shorter, mismatch_error),
{
    match expected {
        Some(e) => {
            if (!allow_shorter && e == len) || (allow_shorter && len <= e) {
                Ok(())
            } else {
                Err(mismatch_error)
            }
        },
        None => Err(CryptoError::UnsupportedScheme(scheme)),
    }
}

/// The `[u16 scheme id][u32 length][payload]` encoding.
pub open spec fn spec_scheme_encoding(scheme: SignatureSchemeId, payload: Seq<u8>) -> Seq<u8> {
    vstd::bytes::spec_u16_to_le_bytes(scheme.spec_to_u16()) + vstd::bytes::spec_u32_to_le_bytes(
        payload.len() as u32,
    ) + payload
}

pub fn encode_with_scheme(
    scheme: SignatureSchemeId,
    expected: Option<usize>,
    bytes: &[u8],
    allow_shorter: bool,
    mismatch_error: CryptoError,
) -> (r: Result<Vec<u8>, CryptoError>)
    requires
        bytes@.len() <= u32::MAX,
    ensures
        r matches Ok(encoded) ==> spec_validate_key_size(
            expected,
            scheme,
            bytes@.len(),
            allow_shorter,
            mismatch_error,
        ) is Ok && encoded@ == spec_scheme_encoding(scheme, bytes@),
        r matches Err(e) ==> spec_validate_key_size(
            expected,
            scheme,
            bytes@.len(),
            allow_shorter,
            mismatch_error,
        ) == Err::<(), CryptoError>(e),
{
    let checked = validate_key_size(expected, scheme, bytes.len(), allow_shorter, mismatch_error);
    match checked {
        Ok(_) => {
            let mut encoded: Vec<u8> = Vec::new();
            let id_bytes = vstd::bytes::u16_to_le_bytes(scheme.to_u16());
            crate::codec::push_bytes(&mut encoded, id_bytes.as_slice());
            let len_bytes = vstd::bytes::u32_to_le_bytes(bytes.len() as u32);
            crate::codec::push_bytes(&mut encoded, len_bytes.as_slice());
            crate::codec::push_bytes(&mut encoded, bytes);
            proof {
                assert(encoded@ =~= spec_scheme_encoding(scheme, bytes@));
            }
            Ok(encoded)
        },
        Err(e) => Err(e),
    }
}

/// Splits a scheme-tagged encoding into its id and payload; rejects inputs
/// whose declared length does not match the bytes that follow.
pub open spec fn spec_decode_with_scheme(encoded: Seq<u8>, mismatch_error: CryptoError) -> Result<
    (SignatureSchemeId, Seq<u8>),
    CryptoError,
> {
    if encoded.len() < 6 {
        Err(mismatch_error)
    } else {
        let scheme = SignatureSchemeId::spec_from_u16(
            vstd::bytes::spec_u16_from_le_bytes(encoded.subrange(0, 2)),
        );
        let len = vstd::bytes::spec_u32_from_le_bytes(encoded.subrange(2, 6));
        if encoded.len() != 6 + len {
            Err(mismatch_error)
        } else {
            Ok((scheme, encoded.skip(6)))
        }
    }
}

pub fn decode_with_scheme(encoded: &[u8], mismatch_error: CryptoError) -> (r: Result<
    (SignatureSchemeId, Vec<u8>),
    CryptoError,
>)
    ensures
        r matches Ok(p) ==> spec_decode_with_scheme(encoded@, mismatch_error) matches Ok(q) && p.0
            == q.0 && p.1@ == q.1,
        r matches Err(e) ==> spec_decode_with_scheme(encoded@, mismatch_error) == Err::<
            (SignatureSchemeId, Seq<u8>),
            CryptoError,
        >(e),
{
    if encoded.len() < 6 {
        return Err(mismatch_error);
    }
    let id_slice = vstd::slice::slice_subrange(encoded, 0, 2);
    let scheme = SignatureSchemeId::from_u16(vstd::bytes::u16_from_le_bytes(id_slice));
    let len_slice = vstd::slice::slice_subrange(encoded, 2, 6);
    let len = vstd::bytes::u32_from_le_bytes(len_slice) as usize;
    if encoded.len() - 6 != len {
        return Err(mismatch_error);
    }
    let payload_slice = vstd::slice::slice_subrange(encoded, 6, encoded.len());
    let mut payload: Vec<u8> = Vec::new();
    crate::codec::push_bytes(&mut payload, payload_slice);
    proof {
        assert(payload@ =~= encoded@.skip(6));
    }
    Ok((scheme, payload))
}

/// A scheme-tagged public key; `bytes` is the raw key material.
#[derive(Debug, Clone, PartialEq, Eq)]
pub struct PublicKey {
    pub scheme: SignatureSchemeId,
    pub bytes: Vec<u8>,
}

/// Mathematical value of a [`PublicKey`].
#[verifier::ext_equal]
pub struct PublicKeyView {
    pub scheme: SignatureSchemeId,
    pub bytes: Seq<u8>,
}

impl View for PublicKey {
    type V = PublicKeyView;

    open spec fn view(&self) -> PublicKeyView {
        PublicKeyView { scheme: self.scheme, bytes: self.bytes@ }
    }
}

/// A scheme-tagged signature; `bytes` is the raw signature material.
#[derive(Debug, Clone, PartialEq, Eq)]
pub struct Signature {
    pub scheme: SignatureSchemeId,
    pub bytes: Vec<u8>,
}

/// Mathematical value of a [`Signature`].
#[verifier::ext_equal]
pub struct SignatureView {
    pub scheme: SignatureSchemeId,
    pub bytes: Seq<u8>,
}

impl View for Signature {
    type V = SignatureView;

    open spec fn view(&self) -> SignatureView {
        SignatureView { scheme: self.scheme, bytes: self.bytes@ }
    }
}

/// A public key of `scheme` must carry exactly the scheme's key size.
pub open spec fn spec_public_key_ok(scheme: SignatureSchemeId, len: nat) -> bool {
    spec_validate_key_size(
        spec_public_key_size(scheme),
        scheme,
        len,
        false,
        CryptoError::InvalidPublicKey,
    ) is Ok
}

/// A signature of `scheme` may be at most the scheme's maximum size.
pub open spec fn spec_signature_ok(scheme: SignatureSchemeId, len: nat) -> bool {
    spec_validate_key_size(
        spec_signature_size(scheme),
        scheme,
        len,
        true,
        CryptoError::InvalidSignature,
    ) is Ok
}

/// Decoding a public key from its tagged encoding.
pub open spec fn spec_public_key_from_bytes(encoded: Seq<u8>) -> Result<PublicKeyView, CryptoError> {
    match spec_decode_with_scheme(encoded, CryptoError::InvalidPublicKey) {
        Ok((scheme, payload)) => {
            match spec_validate_key_size(
                spec_public_key_size(scheme),
                scheme,
                payload.len(),
                false,
                CryptoError::InvalidPublicKey,
            ) {
                Ok(_) => Ok(PublicKeyView { scheme, bytes: payload }),
                Err(e) => Err(e),
            }
        },
        Err(e) => Err(e),
    }
}

/// Decoding a signature from its tagged encoding.
pub open spec fn spec_signature_from_bytes(encoded: Seq<u8>) -> Result<SignatureView, CryptoError> {
    match spec_decode_with_scheme(encoded, CryptoError::InvalidSignature) {
        Ok((scheme, payload)) => {
            match spec_validate_key_size(
                spec_signature_size(scheme),
                scheme,
                payload.len(),
                true,
                CryptoError::InvalidSignature,
            ) {
                Ok(_) => Ok(SignatureView { scheme, bytes: payload }),
                Err(e) => Err(e),
            }
        },
        Err(e) => Err(e),
    }
}

impl PublicKey {
    pub fn new(scheme: SignatureSchemeId, bytes: Vec<u8>) -> (r: Result<Self, CryptoError>)
        ensures
            r matches Ok(k) ==> spec_public_key_ok(scheme, bytes@.len()) && k@
                == (PublicKeyView { scheme, bytes: bytes@ }),
            r matches Err(e) ==> !spec_public_key_ok(scheme, bytes@.len())
                && spec_validate_key_size(
                spec_public_key_size(scheme),
                scheme,
                bytes@.len(),
                false,
                CryptoError::InvalidPublicKey,
            ) == Err::<(), CryptoError>(e),
    {
        let checked = validate_key_size(
            public_key_size(scheme),
            scheme,
            bytes.len(),
            false,
            CryptoError::InvalidPublicKey,
        );
        match checked {
            Ok(_) => Ok(Self { scheme, bytes }),
            Err(e) => Err(e),
        }
    }

    pub fn to_bytes(&self) -> (r: Result<Vec<u8>, CryptoError>)
        ensures
            r matches Ok(encoded) ==> spec_public_key_ok(self@.scheme, self@.bytes.len())
                && encoded@ == spec_scheme_encoding(self@.scheme, self@.bytes),
            r is Err ==> !spec_public_key_ok(self@.scheme, self@.bytes.len()),
    {
        if self.bytes.len() > (u32::MAX as usize) {
            // Longer than any supported scheme's key; the size check below
            // could not pass, and the length field could not hold it.
            return Err(CryptoError::InvalidPublicKey);
        }
        encode_with_scheme(
            self.scheme,
            public_key_size(self.scheme),
            self.bytes.as_slice(),
            false,
            CryptoError::InvalidPublicKey,
        )
    }

    pub fn from_bytes(encoded: &[u8]) -> (r: Result<Self, CryptoError>)
        ensures
            r matches Ok(k) ==> spec_public_key_from_bytes(encoded@) matches Ok(v) && k@ == v,
            r matches Err(e) ==> spec_public_key_from_bytes(encoded@) == Err::<
                PublicKeyView,
                CryptoError,
            >(e),
    {
        let decoded = decode_with_scheme(encoded, CryptoError::InvalidPublicKey);
        match decoded {
            Ok((scheme, payload)) => {
                let checked = validate_key_size(
                    public_key_size(scheme),
                    scheme,
                    payload.len(),
                    false,
                    CryptoError::InvalidPublicKey,
                );
                match checked {
                    Ok(_) => Ok(Self { scheme, bytes: payload }),
                    Err(e) => Err(e),
                }
            },
            Err(e) => Err(e),
        }
    }
}

impl Signature {
    pub fn new(scheme: SignatureSchemeId, bytes: Vec<u8>) -> (r: Result<Self, CryptoError>)
        ensures
            r matches Ok(s) ==> spec_signature_ok(scheme, bytes@.len()) && s@
                == (SignatureView { scheme, bytes: bytes@ }),
            r matches Err(e) ==> !spec_signature_ok(scheme, bytes@.len())
                && spec_validate_key_size(
                spec_signature_size(scheme),
                scheme,
                bytes@.len(),
                true,
                CryptoError::InvalidSignature,
            ) == Err::<(), CryptoError>(e),
    {
        let checked = validate_key_size(
            signature_size(scheme),
            scheme,
            bytes.len(),
            true,
            CryptoError::InvalidSignature,
        );
        match checked {
            Ok(_) => Ok(Self { scheme, bytes }),
            Err(e) => Err(e),
        }
    }

    pub fn to_bytes(&self) -> (r: Result<Vec<u8>, CryptoError>)
        ensures
            r matches Ok(encoded) ==> spec_signature_ok(self@.scheme, self@.bytes.len())
                && encoded@ == spec_scheme_encoding(self@.scheme, self@.bytes),
            r is Err ==> !spec_signature_ok(self@.scheme, self@.bytes.len()),
    {
        if self.bytes.len() > (u32::MAX as usize) {
            return Err(CryptoError::InvalidSignature);
        }
        encode_with_scheme(
            self.scheme,
            signature_size(self.scheme),
            self.bytes.as_slice(),
            true,
            CryptoError::InvalidSignature,
        )
    }

    pub fn from_bytes(encoded: &[u8]) -> (r: Result<Self, CryptoError>)
        ensures
            r matches Ok(s) ==> spec_signature_from_bytes(encoded@) matches Ok(v) && s@ == v,
            r matches Err(e) ==> spec_signature_from_bytes(encoded@) == Err::<
                SignatureView,
                CryptoError,
            >(e),
    {
        let decoded = decode_with_scheme(encoded, CryptoError::InvalidSignature);
        match decoded {
            Ok((scheme, payload)) => {
                let checked = validate_key_size(
                    signature_size(scheme),
                    scheme,
                    payload.len(),
                    true,
                    CryptoError::InvalidSignature,
                );
                match checked {
                    Ok(_) => Ok(Self { scheme, bytes: payload }),
                    Err(e) => Err(e),
                }
            },
            Err(e) => Err(e),
        }
    }
}

/// A byte buffer held in a `zeroize::Zeroizing` wrapper: the bytes are
/// overwritten before deallocation on every exit path. Opaque to the
/// verifier; its content is reached through `zeroizing_bytes`.
#[verifier::external_body]
pub struct SecretBytes(zeroize::Zeroizing<Vec<u8>>);

/// The bytes held inside a zeroizing buffer.
pub uninterp spec fn zeroizing_bytes(z: SecretBytes) -> Seq<u8>;

/// Relies on zeroize::Zeroizing::new: wraps the buffer unchanged; the buffer
/// is erased when the value is dropped.
#[verifier::external_body]
fn zeroizing_new(bytes: Vec<u8>) -> (r: SecretBytes)
    ensures
        zeroizing_bytes(r) == bytes@,
{
    SecretBytes(zeroize::Zeroizing::new(bytes))
}

/// Relies on zeroize::Zeroizing's Deref: hands out the wrapped buffer.
#[verifier::external_body]
fn zeroizing_get<'a>(z: &'a SecretBytes) -> (r: &'a Vec<u8>)
    ensures
        r@ == zeroizing_bytes(*z),
{
    &z.0
}

/// A scheme-tagged private key. The key material lives in a zeroizing
/// buffer, erased from memory when the key is dropped.
pub struct PrivateKey {
    pub scheme: SignatureSchemeId,
    bytes: SecretBytes,
}

/// Mathematical value of a [`PrivateKey`].
#[verifier::ext_equal]
pub struct PrivateKeyView {
    pub scheme: SignatureSchemeId,
    pub bytes: Seq<u8>,
}

impl View for PrivateKey {
    type V = PrivateKeyView;

    closed spec fn view(&self) -> PrivateKeyView {
        PrivateKeyView { scheme: self.scheme, bytes: zeroizing_bytes(self.bytes) }
    }
}

/// A private key of `scheme` must carry exactly the scheme's key size.
pub open spec fn spec_private_key_ok(scheme: SignatureSchemeId, len: nat) -> bool {
    spec_validate_key_size(
        spec_secret_key_size(scheme),
        scheme,
        len,
        false,
        CryptoError::InvalidSecretKey,
    ) is Ok
}

/// Decoding a private key from its tagged encoding.
pub open spec fn spec_private_key_from_bytes(encoded: Seq<u8>) -> Result<
    PrivateKeyView,
    CryptoError,
> {
    match spec_decode_with_scheme(encoded, CryptoError::InvalidSecretKey) {
        Ok((scheme, payload)) => {
            match spec_validate_key_size(
                spec_secret_key_size(scheme),
                scheme,
                payload.len(),
                false,
                CryptoError::InvalidSecretKey,
            ) {
                Ok(_) => Ok(PrivateKeyView { scheme, bytes: payload }),
                Err(e) => Err(e),
            }
        },
        Err(e) => Err(e),
    }
}

impl PrivateKey {
    pub fn new(scheme: SignatureSchemeId, bytes: Vec<u8>) -> (r: Result<Self, CryptoError>)
        ensures
            r matches Ok(k) ==> spec_private_key_ok(scheme, bytes@.len()) && k@
                == (PrivateKeyView { scheme, bytes: bytes@ }),
            r matches Err(e) ==> !spec_private_key_ok(scheme, bytes@.len())
                && spec_validate_key_size(
                spec_secret_key_size(scheme),
                scheme,
                bytes@.len(),
                false,
                CryptoError::InvalidSecretKey,
            ) == Err::<(), CryptoError>(e),
    {
        let checked = validate_key_size(
            secret_key_size(scheme),
            scheme,
            bytes.len(),
            false,
            CryptoError::InvalidSecretKey,
        );
        match checked {
            Ok(_) => Ok(Self { scheme, bytes: zeroizing_new(bytes) }),
            Err(e) => Err(e),
        }
    }

    /// The raw key material.
    pub fn bytes(&self) -> (r: &Vec<u8>)
        ensures
            r@ == self@.bytes,
    {
        zeroizing_get(&self.bytes)
    }

    pub fn to_bytes(&self) -> (r: Result<Vec<u8>, CryptoError>)
        ensures
            r matches Ok(encoded) ==> spec_private_key_ok(self@.scheme, self@.bytes.len())
                && encoded@ == spec_scheme_encoding(self@.scheme, self@.bytes),
            r is Err ==> !spec_private_key_ok(self@.scheme, self@.bytes.len()),
    {
        let bytes = zeroizing_get(&self.bytes);
        if bytes.len() > (u32::MAX as usize) {
            return Err(CryptoError::InvalidSecretKey);
        }
        encode_with_scheme(
            self.scheme,
            secret_key_size(self.scheme),
            bytes.as_slice(),
            false,
            CryptoError::InvalidSecretKey,
        )
    }

    pub fn from_bytes(encoded: &[u8]) -> (r: Result<Self, CryptoError>)
        ensures
            r matches Ok(k) ==> spec_private_key_from_bytes(encoded@) matches Ok(v) && k@ == v,
            r matches Err(e) ==> spec_private_key_from_bytes(encoded@) == Err::<
                PrivateKeyView,
                CryptoError,
            >(e),
    {
        let decoded = decode_with_scheme(encoded, CryptoError::InvalidSecretKey);
        match decoded {
            Ok((scheme, payload)) => {
                let checked = validate_key_size(
                    secret_key_size(scheme),
                    scheme,
                    payload.len(),
                    false,
                    CryptoError::InvalidSecretKey,
                );
                match checked {
                    Ok(_) => Ok(Self { scheme, bytes: zeroizing_new(payload) }),
                    Err(e) => Err(e),
                }
            },
            Err(e) => Err(e),
        }
    }
}

/// Whether the Dilithium2 algorithm accepts `sig` as a signature of `msg`
/// under `pk`; a function of the three byte strings alone.
pub uninterp spec fn dilithium2_sig_valid(pk: Seq<u8>, msg: Seq<u8>, sig: Seq<u8>) -> bool;

/// Whether the Falcon-512 algorithm accepts `sig` as a signature of `msg`
/// under `pk`; a function of the three byte strings alone.
pub uninterp spec fn falcon512_sig_valid(pk: Seq<u8>, msg: Seq<u8>, sig: Seq<u8>) -> bool;

/// Relies on pqcrypto_dilithium::dilithium2::verify_detached_signature, with
/// the crate's own from_bytes conversions of the key and signature, which
/// only check the lengths admitted here. Acceptance is deterministic in the
/// three byte strings.
#[verifier::external_body]
fn dilithium2_verify_bytes(pk: &[u8], msg: &[u8], sig: &[u8]) -> (r: bool)
    requires
        pk@.len() == DILITHIUM2_PUBLIC_KEY_LEN,
        sig@.len() <= DILITHIUM2_SIGNATURE_LEN,
    ensures
        r == dilithium2_sig_valid(pk@, msg@, sig@),
{
    let pk = pqcrypto_dilithium::dilithium2::PublicKey::from_bytes(pk).expect("length admitted");
    let sig = pqcrypto_dilithium::dilithium2::DetachedSignature::from_bytes(sig).expect(
        "length admitted",
    );
    pqcrypto_dilithium::dilithium2::verify_detached_signature(&sig, msg, &pk).is_ok()
}

/// Relies on pqcrypto_falcon::falcon512::verify_detached_signature, with the
/// crate's own from_bytes conversions, which only check the lengths admitted
/// here. Acceptance is deterministic in the three byte strings.
#[verifier::external_body]
fn falcon512_verify_bytes(pk: &[u8], msg: &[u8], sig: &[u8]) -> (r: bool)
    requires
        pk@.len() == FALCON512_PUBLIC_KEY_LEN,
        sig@.len() <= FALCON512_SIGNATURE_LEN,
    ensures
        r == falcon512_sig_valid(pk@, msg@, sig@),
{
    let pk = pqcrypto_falcon::falcon512::PublicKey::from_bytes(pk).expect("length admitted");
    let sig = pqcrypto_falcon::falcon512::DetachedSignature::from_bytes(sig).expect(
        "length admitted",
    );
    pqcrypto_falcon::falcon512::verify_detached_signature(&sig, msg, &pk).is_ok()
}

/// Relies on pqcrypto_dilithium::dilithium2::keypair: a fresh key pair; only
/// the byte lengths are promised.
#[verifier::external_body]
fn dilithium2_keypair_bytes() -> (r: (Vec<u8>, Vec<u8>))
    ensures
        r.0@.len() == DILITHIUM2_PUBLIC_KEY_LEN,
        r.1@.len() == DILITHIUM2_SECRET_KEY_LEN,
{
    let (pk, sk) = pqcrypto_dilithium::dilithium2::keypair();
    (pk.as_bytes().to_vec(), sk.as_bytes().to_vec())
}

/// Relies on pqcrypto_falcon::falcon512::keypair: a fresh key pair; only the
/// byte lengths are promised.
#[verifier::external_body]
fn falcon512_keypair_bytes() -> (r: (Vec<u8>, Vec<u8>))
    ensures
        r.0@.len() == FALCON512_PUBLIC_KEY_LEN,
        r.1@.len() == FALCON512_SECRET_KEY_LEN,
{
    let (pk, sk) = pqcrypto_falcon::falcon512::keypair();
    (pk.as_bytes().to_vec(), sk.as_bytes().to_vec())
}

/// Relies on pqcrypto_dilithium::dilithium2::detached_sign, with the crate's
/// own from_bytes conversion of the key, which only checks the length
/// admitted here. Only the signature's maximum length is promised.
#[verifier::external_body]
fn dilithium2_sign_bytes(msg: &[u8], sk: &[u8]) -> (r: Vec<u8>)
    requires
        sk@.len() == DILITHIUM2_SECRET_KEY_LEN,
    ensures
        r@.len() <= DILITHIUM2_SIGNATURE_LEN,
{
    let sk = pqcrypto_dilithium::dilithium2::SecretKey::from_bytes(sk).expect("length admitted");
    pqcrypto_dilithium::dilithium2::detached_sign(msg, &sk).as_bytes().to_vec()
}

/// Relies on pqcrypto_falcon::falcon512::detached_sign, with the crate's own
/// from_bytes conversion of the key, which only checks the length admitted
/// here. Only the signature's maximum length is promised.
#[verifier::external_body]
fn falcon512_sign_bytes(msg: &[u8], sk: &[u8]) -> (r: Vec<u8>)
    requires
        sk@.len() == FALCON512_SECRET_KEY_LEN,
    ensures
        r@.len() <= FALCON512_SIGNATURE_LEN,
{
    let sk = pqcrypto_falcon::falcon512::SecretKey::from_bytes(sk).expect("length admitted");
    pqcrypto_falcon::falcon512::detached_sign(msg, &sk).as_bytes().to_vec()
}

/// The outcome of checking a signature under one scheme: scheme tags must
/// match, key and signature must have admissible sizes, and the algorithm
/// must accept the triple.
pub open spec fn spec_scheme_verify(
    id: SignatureSchemeId,
    pk: PublicKeyView,
    msg: Seq<u8>,
    sig: SignatureView,
) -> Result<(), CryptoError> {
    if pk.scheme != id || sig.scheme != id {
        Err(CryptoError::WrongScheme)
    } else if !spec_public_key_ok(id, pk.bytes.len()) {
        Err(CryptoError::InvalidPublicKey)
    } else if !spec_signature_ok(id, sig.bytes.len()) {
        Err(CryptoError::InvalidSignature)
    } else if (id == SignatureSchemeId::Dilithium2 && dilithium2_sig_valid(
        pk.bytes,
        msg,
        sig.bytes,
    )) || (id == SignatureSchemeId::Falcon512 && falcon512_sig_valid(pk.bytes, msg, sig.bytes)) {
        Ok(())
    } else {
        Err(CryptoError::InvalidSignature)
    }
}

/// A post-quantum signature scheme: key generation, signing, verification.
pub trait PqSignatureScheme: Sized {
    spec fn spec_id(&self) -> SignatureSchemeId;

    fn id(&self) -> (r: SignatureSchemeId)
        ensures
            r == self.spec_id(),
    ;

    fn keygen(&self) -> (r: Result<(PublicKey, PrivateKey), CryptoError>)
        ensures
            r is Ok,
            r matches Ok(p) ==> p.0@.scheme == self.spec_id() && p.1@.scheme == self.spec_id()
                && spec_public_key_ok(self.spec_id(), p.0@.bytes.len()) && spec_private_key_ok(
                self.spec_id(),
                p.1@.bytes.len(),
            ),
    ;

    fn sign(&self, sk: &PrivateKey, msg: &[u8]) -> (r: Result<Signature, CryptoError>)
        ensures
            sk@.scheme != self.spec_id() ==> r == Err::<Signature, CryptoError>(
                CryptoError::WrongScheme,
            ),
            sk@.scheme == self.spec_id() && !spec_private_key_ok(self.spec_id(), sk@.bytes.len())
                ==> r == Err::<Signature, CryptoError>(CryptoError::InvalidSecretKey),
            sk@.scheme == self.spec_id() && spec_private_key_ok(self.spec_id(), sk@.bytes.len())
                ==> r is Ok,
            r matches Ok(s) ==> s@.scheme == self.spec_id() && spec_signature_ok(
                self.spec_id(),
                s@.bytes.len(),
            ),
    ;

    fn verify(&self, pk: &PublicKey, msg: &[u8], sig: &Signature) -> (r: Result<(), CryptoError>)
        ensures
            r == spec_scheme_verify(self.spec_id(), pk@, msg@, sig@),
    ;
}

pub struct Dilithium2Scheme;

impl PqSignatureScheme for Dilithium2Scheme {
    open spec fn spec_id(&self) -> SignatureSchemeId {
        SignatureSchemeId::Dilithium2
    }

    fn id(&self) -> (r: SignatureSchemeId) {
        SignatureSchemeId::Dilithium2
    }

    fn keygen(&self) -> (r: Result<(PublicKey, PrivateKey), CryptoError>) {
        let (pk_bytes, sk_bytes) = dilithium2_keypair_bytes();
        let pk = PublicKey::new(SignatureSchemeId::Dilithium2, pk_bytes);
        let sk = PrivateKey::new(SignatureSchemeId::Dilithium2, sk_bytes);
        match (pk, sk) {
            (Ok(pk), Ok(sk)) => Ok((pk, sk)),
            (Err(e), _) => Err(e),
            (_, Err(e)) => Err(e),
        }
    }

    fn sign(&self, sk: &PrivateKey, msg: &[u8]) -> (r: Result<Signature, CryptoError>) {
        if !matches!(sk.scheme, SignatureSchemeId::Dilithium2) {
            return Err(CryptoError::WrongScheme);
        }
        let key_bytes = sk.bytes();
        if key_bytes.len() != DILITHIUM2_SECRET_KEY_LEN {
            return Err(CryptoError::InvalidSecretKey);
        }
        let sig_bytes = dilithium2_sign_bytes(msg, key_bytes.as_slice());
        Signature::new(SignatureSchemeId::Dilithium2, sig_bytes)
    }

    fn verify(&self, pk: &PublicKey, msg: &[u8], sig: &Signature) -> (r: Result<(), CryptoError>) {
        if !matches!(pk.scheme, SignatureSchemeId::Dilithium2) || !matches!(
            sig.scheme,
            SignatureSchemeId::Dilithium2,
        ) {
            return Err(CryptoError::WrongScheme);
        }
        if pk.bytes.len() != DILITHIUM2_PUBLIC_KEY_LEN {
            return Err(CryptoError::InvalidPublicKey);
        }
        if sig.bytes.len() > DILITHIUM2_SIGNATURE_LEN {
            return Err(CryptoError::InvalidSignature);
        }
        if dilithium2_verify_bytes(pk.bytes.as_slice(), msg, sig.bytes.as_slice()) {
            Ok(())
        } else {
            Err(CryptoError::InvalidSignature)
        }
    }
}

pub struct Falcon512Scheme;

impl PqSignatureScheme for Falcon512Scheme {
    open spec fn spec_id(&self) -> SignatureSchemeId {
        SignatureSchemeId::Falcon512
    }

    fn id(&self) -> (r: SignatureSchemeId) {
        SignatureSchemeId::Falcon512
    }

    fn keygen(&self) -> (r: Result<(PublicKey, PrivateKey), CryptoError>) {
        let (pk_bytes, sk_bytes) = falcon512_keypair_bytes();
        let pk = PublicKey::new(SignatureSchemeId::Falcon512, pk_bytes);
        let sk = PrivateKey::new(SignatureSchemeId::Falcon512, sk_bytes);
        match (pk, sk) {
            (Ok(pk), Ok(sk)) => Ok((pk, sk)),
            (Err(e), _) => Err(e),
            (_, Err(e)) => Err(e),
        }
    }

    fn sign(&self, sk: &PrivateKey, msg: &[u8]) -> (r: Result<Signature, CryptoError>) {
        if !matches!(sk.scheme, SignatureSchemeId::Falcon512) {
            return Err(CryptoError::WrongScheme);
        }
        let key_bytes = sk.bytes();
        if key_bytes.len() != FALCON512_SECRET_KEY_LEN {
            return Err(CryptoError::InvalidSecretKey);
        }
        let sig_bytes = falcon512_sign_bytes(msg, key_bytes.as_slice());
        Signature::new(SignatureSchemeId::Falcon512, sig_bytes)
    }

    fn verify(&self, pk: &PublicKey, msg: &[u8], sig: &Signature) -> (r: Result<(), CryptoError>) {
        if !matches!(pk.scheme, SignatureSchemeId::Falcon512) || !matches!(
            sig.scheme,
            SignatureSchemeId::Falcon512,
        ) {
            return Err(CryptoError::WrongScheme);
        }
        if pk.bytes.len() != FALCON512_PUBLIC_KEY_LEN {
            return Err(CryptoError::InvalidPublicKey);
        }
        if sig.bytes.len() > FALCON512_SIGNATURE_LEN {
            return Err(CryptoError::InvalidSignature);
        }
        if falcon512_verify_bytes(pk.bytes.as_slice(), msg, sig.bytes.as_slice()) {
            Ok(())
        } else {
            Err(CryptoError::InvalidSignature)
        }
    }
}

/// Equality of public keys: same scheme tag, same key material.
pub fn public_key_eq(a: &PublicKey, b: &PublicKey) -> (r: bool)
    ensures
        r == (a@ == b@),
{
    let r = a.scheme == b.scheme && crate::hashing::bytes_eq(a.bytes.as_slice(), b.bytes.as_slice());
    proof {
        if a.scheme == b.scheme && a.bytes@ == b.bytes@ {
            assert(a@ =~= b@);
        } else {
            assert(a@ != b@);
        }
    }
    r
}

/// The verification outcome of the default scheme set, dispatched on the
/// public key's scheme tag; `None` when that scheme is not registered.
pub open spec fn spec_default_registry_verify(
    pk: PublicKeyView,
    msg: Seq<u8>,
    sig: SignatureView,
) -> Option<Result<(), CryptoError>> {
    match pk.scheme {
        SignatureSchemeId::Dilithium2 => Some(
            spec_scheme_verify(SignatureSchemeId::Dilithium2, pk, msg, sig),
        ),
        SignatureSchemeId::Falcon512 => Some(
            spec_scheme_verify(SignatureSchemeId::Falcon512, pk, msg, sig),
        ),
        SignatureSchemeId::Unknown(_) => None,
    }
}

/// Checks a signature against the scheme named by the public key's tag,
/// using the default scheme set.
pub fn default_registry_verify(pk: &PublicKey, msg: &[u8], sig: &Signature) -> (r: Option<
    Result<(), CryptoError>,
>)
    ensures
        r == spec_default_registry_verify(pk@, msg@, sig@),
{
    match pk.scheme {
        SignatureSchemeId::Dilithium2 => Some(Dilithium2Scheme.verify(pk, msg, sig)),
        SignatureSchemeId::Falcon512 => Some(Falcon512Scheme.verify(pk, msg, sig)),
        SignatureSchemeId::Unknown(_) => None,
    }
}

} // verus!
