//! What voters and authorities compute: key pairs, the identities an
//! authority issues, and the inputs a voter hands to the vote circuit.

use vstd::prelude::*;
use crate::circuit::{circuit_result, identity_message, identity_payload, vote_message};
use crate::crypto::{PublicKey, SecretKey, ecdsa_accepts, ecdsa_signature, is_compressed_key, secret_public_key};
use crate::types::{CircuitInputs, InputsView, OutputsView, VerifiedUser};

verus! {

/// A secret key and its public key.
pub struct KeyPair {
    pub secret_key: SecretKey,
    pub public_key: PublicKey,
}

/// A fresh random key pair: a 32-byte secret scalar and its public key in
/// compressed form (33 bytes, tag `0x02` or `0x03`).
pub fn generate_key_pair() -> (r: KeyPair)
    ensures
        secret_public_key(r.secret_key@) == Some(r.public_key@),
        r.secret_key@.len() == 32,
        is_compressed_key(r.public_key@),
{
    let secret_key = SecretKey::random();
    let public_key = secret_key.public_key();
    KeyPair { secret_key, public_key }
}

/// The credential an election's authority issues to a voter: the election's
/// key (the authority's public key, compressed, 33 bytes) and the authority's
/// signature (64 bytes) over the voter's key file followed by the authority's
/// key file, as given. `None` where signing fails.
pub fn issue_identity(issuer_secret_key: &SecretKey, issuer_public_key: &[u8], user_public_key: &[u8]) -> (r:
    Option<VerifiedUser>)
    ensures
        match r {
            Some(u) => {
                &&& secret_public_key(issuer_secret_key@) == Some(u.government_public_key@)
                &&& is_compressed_key(u.government_public_key@)
                &&& ecdsa_signature(issuer_secret_key@, identity_payload(user_public_key@, issuer_public_key@))
                    == Some(u.public_identity@)
                &&& u.public_identity@.len() == 64
                &&& ecdsa_accepts(
                    u.government_public_key@,
                    identity_payload(user_public_key@, issuer_public_key@),
                    u.public_identity@,
                )
            },
            None => ecdsa_signature(issuer_secret_key@, identity_payload(user_public_key@, issuer_public_key@))
                is None,
        },
{
    let government_public_key = issuer_secret_key.public_key().to_sec1_bytes();
    let payload = identity_message(user_public_key, issuer_public_key);
    match issuer_secret_key.sign(payload.as_slice()) {
        Some(public_identity) => Some(VerifiedUser { government_public_key, public_identity }),
        None => None,
    }
}

/// The inputs a voter hands to the vote circuit: the vote, the voter's
/// public key, the voter's signature over the vote, the election's key and
/// the identity the election's authority issued. `None` where signing fails.
pub fn circuit_inputs(
    choice: String,
    user_secret_key: &SecretKey,
    government_public_key: &PublicKey,
    public_identity: Vec<u8>,
) -> (r: Option<CircuitInputs>)
    ensures
        match r {
            Some(i) => {
                &&& i@ == InputsView {
                    choice: choice@,
                    user_public_key: secret_public_key(user_secret_key@)->0,
                    session_signature: ecdsa_signature(user_secret_key@, vote_message(choice@))->0,
                    government_public_key: government_public_key@,
                    public_identity: public_identity@,
                }
                &&& secret_public_key(user_secret_key@) is Some
                &&& ecdsa_signature(user_secret_key@, vote_message(choice@)) is Some
                &&& ecdsa_accepts(i.user_public_key@, vote_message(choice@), i.session_signature@)
            },
            None => ecdsa_signature(user_secret_key@, vote_message(choice@)) is None,
        },
{
    let user_public_key = user_secret_key.public_key().to_sec1_bytes();
    let session_signature = match user_secret_key.sign(choice.as_str().as_bytes()) {
        Some(s) => s,
        None => {
            return None;
        },
    };
    Some(
        CircuitInputs {
            choice,
            user_public_key,
            session_signature,
            government_public_key: government_public_key.to_sec1_bytes(),
            public_identity,
        },
    )
}

/// A vote prepared by a voter from the identity an election's authority
/// issued to the voter's key passes the vote circuit, which commits to the
/// vote, the election's key and that identity.
pub proof fn lemma_issued_vote_is_accepted(
    inputs: InputsView,
    user_secret_key: Seq<u8>,
    issuer_secret_key: Seq<u8>,
)
    requires
        secret_public_key(user_secret_key) == Some(inputs.user_public_key),
        secret_public_key(issuer_secret_key) == Some(inputs.government_public_key),
        is_compressed_key(inputs.user_public_key),
        is_compressed_key(inputs.government_public_key),
        ecdsa_signature(user_secret_key, vote_message(inputs.choice)) == Some(inputs.session_signature),
        ecdsa_accepts(inputs.user_public_key, vote_message(inputs.choice), inputs.session_signature),
        ecdsa_signature(issuer_secret_key, identity_payload(inputs.user_public_key, inputs.government_public_key))
            == Some(inputs.public_identity),
        ecdsa_accepts(
            inputs.government_public_key,
            identity_payload(inputs.user_public_key, inputs.government_public_key),
            inputs.public_identity,
        ),
    ensures
        circuit_result(inputs) == Ok::<OutputsView, crate::circuit::CircuitError>(
            OutputsView {
                choice: inputs.choice,
                government_public_key: inputs.government_public_key,
                public_identity: inputs.public_identity,
            },
        ),
{
}

/// An identity issued for one election does not vouch for a vote in
/// another: under a different election key the circuit checks the identity
/// against a different message.
pub proof fn lemma_identity_bound_to_election(user_public_key: Seq<u8>, key1: Seq<u8>, key2: Seq<u8>)
    requires
        key1 != key2,
        key1.len() == key2.len(),
    ensures
        identity_payload(user_public_key, key1) != identity_payload(user_public_key, key2),
{
    let p1 = identity_payload(user_public_key, key1);
    let p2 = identity_payload(user_public_key, key2);
    if p1 == p2 {
        assert(p1.subrange(user_public_key.len() as int, p1.len() as int) =~= key1);
        assert(p2.subrange(user_public_key.len() as int, p2.len() as int) =~= key2);
    }
}

} // verus!
