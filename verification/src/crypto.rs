//! secp256k1 keys and ECDSA signatures, computed by the `k256` crate.
//!
//! Keys and signatures are held as plain bytes: a public key as its
//! compressed SEC1 encoding (33 bytes), a secret key as its big-endian
//! scalar, a signature as `r ‖ s` (64 bytes).

use vstd::prelude::*;
use k256::ecdsa::signature::{Signer, Verifier};
use k256::ecdsa::{Signature, SigningKey, VerifyingKey};

verus! {

/// The compressed SEC1 encoding of the secp256k1 point that `bytes` encode
/// in SEC1 form (compressed or not), or `None` where they encode no point of
/// the curve other than the identity.
pub uninterp spec fn compressed_sec1(bytes: Seq<u8>) -> Option<Seq<u8>>;

/// Whether ECDSA/secp256k1 verification with SHA-256 accepts `signature`
/// (`r ‖ s`) over `message` under the SEC1-encoded `public_key`.
pub uninterp spec fn ecdsa_accepts(public_key: Seq<u8>, message: Seq<u8>, signature: Seq<u8>) -> bool;

/// The compressed SEC1 public key of the secret scalar `secret`, or `None`
/// where `secret` is no valid secret scalar.
pub uninterp spec fn secret_public_key(secret: Seq<u8>) -> Option<Seq<u8>>;

/// The deterministic (RFC 6979) ECDSA/secp256k1 signature `r ‖ s` of
/// `message` under the secret scalar `secret`, or `None` where signing fails.
pub uninterp spec fn ecdsa_signature(secret: Seq<u8>, message: Seq<u8>) -> Option<Seq<u8>>;

/// A valid key in compressed form: 33 bytes, the tag `0x02` or `0x03` (the
/// parity of the point's y-coordinate) and the x-coordinate, encoding a point
/// whose compressed encoding is itself.
pub open spec fn is_compressed_key(bytes: Seq<u8>) -> bool {
    &&& compressed_sec1(bytes) == Some(bytes)
    &&& bytes.len() == 33
    &&& (bytes[0] == 2 || bytes[0] == 3)
}

/// The compressed form that the SEC1 encoding `bytes` has if it is a point:
/// a compressed encoding (33 bytes, tag `0x02` or `0x03`) is its own; an
/// uncompressed one (65 bytes, tag `0x04`, then x and y) becomes the tag
/// `0x02` for even y or `0x03` for odd y, followed by x. `None` for other
/// shapes.
pub open spec fn sec1_compressed_form(bytes: Seq<u8>) -> Option<Seq<u8>> {
    if bytes.len() == 33 && (bytes[0] == 2 || bytes[0] == 3) {
        Some(bytes)
    } else if bytes.len() == 65 && bytes[0] == 4 {
        Some(seq![(2 + bytes[64] % 2) as u8] + bytes.subrange(1, 33))
    } else {
        None
    }
}

/// `VerifyingKey::from_sec1_bytes` followed by `to_encoded_point(true)`.
///
/// Claims: the result is the name `compressed_sec1` of the input; a compressed
/// encoding is 33 bytes long, starts with the tag `0x02` or `0x03` (a verifying
/// key is never the identity point) and decodes to a point whose compressed
/// encoding is itself (SEC1 round trip). Where the input is a point in
/// compressed or uncompressed form, the result is its `sec1_compressed_form`:
/// the coordinates are parsed only in canonical form, and re-encoding takes the
/// tag from the parity of y and copies x. Which byte strings are valid points
/// is not stated, only named.
#[verifier::external_body]
fn k256_compress(bytes: &[u8]) -> (r: Option<Vec<u8>>)
    ensures
        match r {
            Some(c) => compressed_sec1(bytes@) == Some(c@),
            None => compressed_sec1(bytes@) is None,
        },
        r matches Some(c) ==> is_compressed_key(c@),
        r matches Some(c) ==> (sec1_compressed_form(bytes@) is Some ==> c@ == sec1_compressed_form(bytes@)->0),
{
    match VerifyingKey::from_sec1_bytes(bytes) {
        Ok(key) => Some(key.to_encoded_point(true).as_bytes().to_vec()),
        Err(_) => None,
    }
}

/// `VerifyingKey::from_sec1_bytes`, `Signature::from_slice` and
/// `Verifier::verify`, a failure of either parse counting as rejection.
///
/// Claims: the result is the name `ecdsa_accepts` of the three inputs; an
/// accepted signature is 64 bytes under a key that parses.
#[verifier::external_body]
fn k256_verify(public_key: &[u8], message: &[u8], signature: &[u8]) -> (ok: bool)
    ensures
        ok == ecdsa_accepts(public_key@, message@, signature@),
        ok ==> compressed_sec1(public_key@) is Some,
        ok ==> signature@.len() == 64,
{
    match VerifyingKey::from_sec1_bytes(public_key) {
        Ok(key) => match Signature::from_slice(signature) {
            Ok(sig) => key.verify(message, &sig).is_ok(),
            Err(_) => false,
        },
        Err(_) => false,
    }
}

/// `SigningKey::from_slice` followed by `verifying_key().to_encoded_point(true)`.
///
/// Claims: the result is the name `secret_public_key` of the input, and it is
/// a compressed encoding of a valid point (33 bytes, tag `0x02` or `0x03`,
/// SEC1 round trip).
#[verifier::external_body]
fn k256_public_key(secret: &[u8]) -> (r: Option<Vec<u8>>)
    ensures
        match r {
            Some(p) => secret_public_key(secret@) == Some(p@),
            None => secret_public_key(secret@) is None,
        },
        r matches Some(p) ==> is_compressed_key(p@),
{
    match SigningKey::from_slice(secret) {
        Ok(key) => Some(key.verifying_key().to_encoded_point(true).as_bytes().to_vec()),
        Err(_) => None,
    }
}

/// The `n` zero bytes.
pub open spec fn zeros(n: int) -> Seq<u8> {
    Seq::new(n as nat, |i: int| 0u8)
}

/// `SigningKey::from_slice` followed by `to_bytes`.
///
/// Claims: a secret is accepted exactly where the name `secret_public_key`
/// gives a key; the crate left-pads a slice shorter than 32 bytes with zeros,
/// so the result is the 32 bytes of the same scalar, and it has the same
/// public key.
#[verifier::external_body]
fn k256_secret_bytes(secret: &[u8]) -> (r: Option<Vec<u8>>)
    ensures
        r is Some <==> secret_public_key(secret@) is Some,
        r matches Some(s) ==> {
            &&& secret@.len() <= 32
            &&& s@ == zeros(32 - secret@.len()) + secret@
            &&& secret_public_key(s@) == secret_public_key(secret@)
        },
{
    match SigningKey::from_slice(secret) {
        Ok(key) => Some(key.to_bytes().to_vec()),
        Err(_) => None,
    }
}

/// `SigningKey::from_slice` followed by `Signer::try_sign` and `to_bytes`.
///
/// Claims: the result is the name `ecdsa_signature` of the inputs; a
/// signature is produced only under a valid secret, is 64 bytes, and is
/// accepted by verification under that secret's public key (the crate's
/// documented sign-then-verify example). That signing succeeds for every
/// valid secret is not stated: `try_sign` may report an error.
#[verifier::external_body]
fn k256_sign(secret: &[u8], message: &[u8]) -> (r: Option<Vec<u8>>)
    ensures
        match r {
            Some(s) => ecdsa_signature(secret@, message@) == Some(s@),
            None => ecdsa_signature(secret@, message@) is None,
        },
        r matches Some(s) ==> secret_public_key(secret@) is Some && s@.len() == 64
            && ecdsa_accepts(secret_public_key(secret@)->0, message@, s@),
{
    match SigningKey::from_slice(secret) {
        Ok(key) => match Signer::<Signature>::try_sign(&key, message) {
            Ok(sig) => Some(sig.to_bytes().to_vec()),
            Err(_) => None,
        },
        Err(_) => None,
    }
}

/// `SigningKey::random` with the operating system's random source, then
/// `to_bytes`.
///
/// Claims only what holds of every outcome: the bytes are the 32 big-endian
/// bytes of a valid secret scalar (a random key is a non-zero scalar, and its
/// bytes parse back).
#[verifier::external_body]
fn k256_random_secret() -> (r: Vec<u8>)
    ensures
        secret_public_key(r@) is Some,
        r@.len() == 32,
{
    SigningKey::random(&mut rand_core::OsRng).to_bytes().to_vec()
}

/// Verifies an ECDSA/secp256k1 signature (`r ‖ s`) over `message` under a
/// SEC1-encoded public key; malformed keys or signatures are rejected.
pub fn verify_signature(public_key: &[u8], message: &[u8], signature: &[u8]) -> (ok: bool)
    ensures
        ok == ecdsa_accepts(public_key@, message@, signature@),
        ok ==> compressed_sec1(public_key@) is Some,
{
    k256_verify(public_key, message, signature)
}

/// A secp256k1 public key, held as its compressed SEC1 encoding.
pub struct PublicKey {
    sec1: Vec<u8>,
}

impl View for PublicKey {
    type V = Seq<u8>;

    /// The compressed SEC1 encoding.
    closed spec fn view(&self) -> Seq<u8> {
        self.sec1@
    }
}

impl PublicKey {
    /// The encoding is a valid compressed key.
    #[verifier::type_invariant]
    pub open spec fn inv(&self) -> bool {
        is_compressed_key(self@)
    }

    /// Parses a SEC1-encoded public key, compressed or not: the compressed
    /// or uncompressed encoding of a key gives that key.
    pub fn from_sec1_bytes(bytes: &[u8]) -> (r: Option<PublicKey>)
        ensures
            match r {
                Some(k) => compressed_sec1(bytes@) == Some(k@),
                None => compressed_sec1(bytes@) is None,
            },
            r matches Some(k) ==> (sec1_compressed_form(bytes@) is Some ==> k@ == sec1_compressed_form(bytes@)->0),
    {
        match k256_compress(bytes) {
            Some(c) => Some(PublicKey { sec1: c }),
            None => None,
        }
    }

    /// The compressed SEC1 encoding of the key.
    pub fn to_sec1_bytes(&self) -> (r: Vec<u8>)
        ensures
            r@ == self@,
            is_compressed_key(r@),
    {
        proof {
            use_type_invariant(self);
        }
        let r = self.sec1.clone();
        assert(r@ =~= self.sec1@);
        r
    }

    /// The compressed SEC1 encoding of the key, borrowed.
    pub fn as_bytes(&self) -> (r: &[u8])
        ensures
            r@ == self@,
            is_compressed_key(r@),
    {
        proof {
            use_type_invariant(self);
        }
        self.sec1.as_slice()
    }

    /// Whether two keys are the same point.
    pub fn same_key(&self, other: &PublicKey) -> (r: bool)
        ensures
            r == (self@ == other@),
    {
        match crate::order::compare_bytes(self.sec1.as_slice(), other.sec1.as_slice()) {
            crate::order::ByteOrder::Equal => true,
            _ => false,
        }
    }

    /// A copy of the key.
    pub fn duplicate(&self) -> (r: PublicKey)
        ensures
            r@ == self@,
            is_compressed_key(r@),
    {
        proof {
            use_type_invariant(self);
        }
        let sec1 = self.sec1.clone();
        assert(sec1@ =~= self.sec1@);
        PublicKey { sec1 }
    }
}

/// A secp256k1 secret key, held as its big-endian scalar.
pub struct SecretKey {
    bytes: Vec<u8>,
}

impl View for SecretKey {
    type V = Seq<u8>;

    /// The bytes of the secret scalar.
    closed spec fn view(&self) -> Seq<u8> {
        self.bytes@
    }
}

impl SecretKey {
    /// The bytes are a valid secret scalar.
    #[verifier::type_invariant]
    pub open spec fn inv(&self) -> bool {
        secret_public_key(self@) is Some
    }

    /// Parses a secret scalar from its big-endian bytes; a slice shorter than
    /// 32 bytes is left-padded with zeros, so the key holds 32 bytes.
    pub fn from_slice(bytes: &[u8]) -> (r: Option<SecretKey>)
        ensures
            r is Some <==> secret_public_key(bytes@) is Some,
            r matches Some(k) ==> bytes@.len() <= 32 && k@ == zeros(32 - bytes@.len()) + bytes@
                && k@.len() == 32 && secret_public_key(k@) == secret_public_key(bytes@),
    {
        match k256_secret_bytes(bytes) {
            Some(s) => Some(SecretKey { bytes: s }),
            None => None,
        }
    }

    /// A fresh random secret key, 32 bytes.
    pub fn random() -> (r: SecretKey)
        ensures
            secret_public_key(r@) is Some,
            r@.len() == 32,
    {
        SecretKey { bytes: k256_random_secret() }
    }

    /// The bytes of the secret scalar.
    pub fn to_bytes(&self) -> (r: Vec<u8>)
        ensures
            r@ == self@,
    {
        let r = self.bytes.clone();
        assert(r@ =~= self.bytes@);
        r
    }

    /// The public key of this secret key.
    pub fn public_key(&self) -> (r: PublicKey)
        ensures
            secret_public_key(self@) == Some(r@),
            is_compressed_key(r@),
    {
        proof {
            use_type_invariant(self);
        }
        match k256_public_key(self.bytes.as_slice()) {
            Some(p) => PublicKey { sec1: p },
            None => {
                assert(false);
                PublicKey { sec1: Vec::new() }
            },
        }
    }

    /// Signs `message` (hashed with SHA-256) deterministically; `None` where
    /// the signing operation reports an error.
    pub fn sign(&self, message: &[u8]) -> (r: Option<Vec<u8>>)
        ensures
            match r {
                Some(s) => ecdsa_signature(self@, message@) == Some(s@),
                None => ecdsa_signature(self@, message@) is None,
            },
            r matches Some(s) ==> s@.len() == 64 && ecdsa_accepts(secret_public_key(self@)->0, message@, s@),
    {
        k256_sign(self.bytes.as_slice(), message)
    }
}

} // verus!
