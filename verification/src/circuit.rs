//! The checks that the vote circuit makes before it commits to a vote.
//!
//! The circuit holds a vote to be authorized when the voter's key signed the
//! vote, and the election's key signed the voter's key followed by the
//! election's key (the election's key acting as salt, so that an identity
//! issued for one election is worth nothing in another).

use vstd::prelude::*;
use crate::crypto::{compressed_sec1, ecdsa_accepts, verify_signature};
use crate::types::{CircuitInputs, CircuitOutputs, InputsView, OutputsView, copy_bytes};

verus! {

/// Why the circuit refuses its inputs.
#[derive(PartialEq, Eq, Structural, Clone, Copy, Debug)]
pub enum CircuitError {
    /// The voter's key is no valid SEC1 point.
    InvalidUserKey,
    /// The election's key is no valid SEC1 point.
    InvalidGovernmentKey,
    /// The voter's key did not sign the vote.
    SessionSignatureRejected,
    /// The election's key did not sign the voter's key and the election's key.
    PublicIdentityRejected,
}

/// The message whose signature by the election's authority is a voter's
/// public identity: the voter's key followed by the election's key.
pub open spec fn identity_payload(user_public_key: Seq<u8>, government_public_key: Seq<u8>) -> Seq<u8> {
    user_public_key + government_public_key
}

/// The bytes of a vote that the voter signs: its UTF-8 encoding.
pub open spec fn vote_message(choice: Seq<char>) -> Seq<u8> {
    vstd::utf8::encode_utf8(choice)
}

/// What the circuit makes of its inputs.
pub open spec fn circuit_result(i: InputsView) -> Result<OutputsView, CircuitError> {
    if compressed_sec1(i.user_public_key) is None {
        Err(CircuitError::InvalidUserKey)
    } else if compressed_sec1(i.government_public_key) is None {
        Err(CircuitError::InvalidGovernmentKey)
    } else if !ecdsa_accepts(i.user_public_key, vote_message(i.choice), i.session_signature) {
        Err(CircuitError::SessionSignatureRejected)
    } else if !ecdsa_accepts(
        i.government_public_key,
        identity_payload(i.user_public_key, i.government_public_key),
        i.public_identity,
    ) {
        Err(CircuitError::PublicIdentityRejected)
    } else {
        Ok(
            OutputsView {
                choice: i.choice,
                government_public_key: i.government_public_key,
                public_identity: i.public_identity,
            },
        )
    }
}

/// The result of the circuit, by views.
pub open spec fn result_view(r: Result<CircuitOutputs, CircuitError>) -> Result<OutputsView, CircuitError> {
    match r {
        Ok(o) => Ok(o@),
        Err(e) => Err(e),
    }
}

/// Concatenates two byte strings.
fn concat_bytes(a: &[u8], b: &[u8]) -> (r: Vec<u8>)
    ensures
        r@ == a@ + b@,
{
    let mut r = vstd::slice::slice_to_vec(a);
    let mut i: usize = 0;
    while i < b.len()
        invariant
            i <= b.len(),
            r@ == a@ + b@.subrange(0, i as int),
        decreases b.len() - i,
    {
        r.push(b[i]);
        assert(b@.subrange(0, i + 1) =~= b@.subrange(0, i as int).push(b@[i as int]));
        i = i + 1;
    }
    assert(b@.subrange(0, b.len() as int) =~= b@);
    r
}

/// The voter's identity message for an election.
pub fn identity_message(user_public_key: &[u8], government_public_key: &[u8]) -> (r: Vec<u8>)
    ensures
        r@ == identity_payload(user_public_key@, government_public_key@),
{
    concat_bytes(user_public_key, government_public_key)
}

/// Checks a vote: both keys parse, the voter's key signed the vote, and the
/// election's key signed the voter's identity message. On success, the vote,
/// the election's key and the public identity are what the circuit commits to.
pub fn verify_vote(inputs: &CircuitInputs) -> (r: Result<CircuitOutputs, CircuitError>)
    ensures
        result_view(r) == circuit_result(inputs@),
{
    if crate::crypto::PublicKey::from_sec1_bytes(inputs.user_public_key.as_slice()).is_none() {
        return Err(CircuitError::InvalidUserKey);
    }
    if crate::crypto::PublicKey::from_sec1_bytes(inputs.government_public_key.as_slice()).is_none() {
        return Err(CircuitError::InvalidGovernmentKey);
    }
    let vote = inputs.choice.as_str().as_bytes();
    if !verify_signature(inputs.user_public_key.as_slice(), vote, inputs.session_signature.as_slice()) {
        return Err(CircuitError::SessionSignatureRejected);
    }
    let payload = identity_message(inputs.user_public_key.as_slice(), inputs.government_public_key.as_slice());
    if !verify_signature(
        inputs.government_public_key.as_slice(),
        payload.as_slice(),
        inputs.public_identity.as_slice(),
    ) {
        return Err(CircuitError::PublicIdentityRejected);
    }
    Ok(
        CircuitOutputs {
            choice: inputs.choice.clone(),
            government_public_key: copy_bytes(&inputs.government_public_key),
            public_identity: copy_bytes(&inputs.public_identity),
        },
    )
}

/// The circuit accepts every vote whose keys are points of the curve, in
/// either SEC1 encoding and of any length, whose voter's key signed the vote's
/// UTF-8 bytes, and whose election key signed the voter's key followed by the
/// election key, both as given; it then commits to the vote, the election key
/// as given and the identity.
pub proof fn lemma_signed_vote_is_accepted(i: InputsView)
    requires
        compressed_sec1(i.user_public_key) is Some,
        compressed_sec1(i.government_public_key) is Some,
        ecdsa_accepts(i.user_public_key, vstd::utf8::encode_utf8(i.choice), i.session_signature),
        ecdsa_accepts(i.government_public_key, i.user_public_key + i.government_public_key, i.public_identity),
    ensures
        circuit_result(i) == Ok::<OutputsView, CircuitError>(
            OutputsView {
                choice: i.choice,
                government_public_key: i.government_public_key,
                public_identity: i.public_identity,
            },
        ),
{
}

/// The circuit accepts only signed votes: an accepted vote's voter key
/// signed its UTF-8 bytes, its election key signed the voter's key followed
/// by the election key, both keys are points, and the outputs are the vote,
/// the election key and the identity, as given.
pub proof fn lemma_accepted_vote_is_signed(i: InputsView)
    ensures
        circuit_result(i) is Ok ==> {
            &&& compressed_sec1(i.user_public_key) is Some
            &&& compressed_sec1(i.government_public_key) is Some
            &&& ecdsa_accepts(i.user_public_key, vstd::utf8::encode_utf8(i.choice), i.session_signature)
            &&& ecdsa_accepts(
                i.government_public_key,
                i.user_public_key + i.government_public_key,
                i.public_identity,
            )
            &&& circuit_result(i) == Ok::<OutputsView, CircuitError>(
                OutputsView {
                    choice: i.choice,
                    government_public_key: i.government_public_key,
                    public_identity: i.public_identity,
                },
            )
        },
{
}

} // verus!
