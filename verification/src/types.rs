//! The values that pass between a voter, the vote circuit and the registry.

use vstd::prelude::*;
use crate::crypto::{PublicKey, compressed_sec1, sec1_compressed_form};

verus! {

/// What the circuit reads: the vote, the voter's key and the signature over
/// the vote (private), and the election's key and the identity the
/// election's authority issued to the voter (public).
pub struct CircuitInputs {
    pub choice: String,
    pub user_public_key: Vec<u8>,
    pub session_signature: Vec<u8>,
    pub government_public_key: Vec<u8>,
    pub public_identity: Vec<u8>,
}

/// The inputs by their views.
pub struct InputsView {
    pub choice: Seq<char>,
    pub user_public_key: Seq<u8>,
    pub session_signature: Seq<u8>,
    pub government_public_key: Seq<u8>,
    pub public_identity: Seq<u8>,
}

impl View for CircuitInputs {
    type V = InputsView;

    open spec fn view(&self) -> InputsView {
        InputsView {
            choice: self.choice@,
            user_public_key: self.user_public_key@,
            session_signature: self.session_signature@,
            government_public_key: self.government_public_key@,
            public_identity: self.public_identity@,
        }
    }
}

/// What the circuit commits to: the vote, the election's key, and the
/// voter's public identity (a signature, `r ‖ s`).
pub struct CircuitOutputs {
    pub choice: String,
    pub government_public_key: Vec<u8>,
    pub public_identity: Vec<u8>,
}

/// The outputs by their views.
pub struct OutputsView {
    pub choice: Seq<char>,
    pub government_public_key: Seq<u8>,
    pub public_identity: Seq<u8>,
}

impl View for CircuitOutputs {
    type V = OutputsView;

    open spec fn view(&self) -> OutputsView {
        OutputsView {
            choice: self.choice@,
            government_public_key: self.government_public_key@,
            public_identity: self.public_identity@,
        }
    }
}

/// A copy of a byte vector.
pub fn copy_bytes(v: &Vec<u8>) -> (r: Vec<u8>)
    ensures
        r@ == v@,
{
    let r = v.clone();
    assert(r@ =~= v@);
    r
}

impl CircuitOutputs {
    /// The election's key, parsed; `None` where the bytes encode no point of
    /// the curve. The compressed or the uncompressed encoding of a key gives
    /// that key.
    pub fn deserialized_government_public_key(&self) -> (r: Option<PublicKey>)
        ensures
            match r {
                Some(k) => compressed_sec1(self.government_public_key@) == Some(k@),
                None => compressed_sec1(self.government_public_key@) is None,
            },
            r matches Some(k) ==> (sec1_compressed_form(self.government_public_key@) is Some ==> k@
                == sec1_compressed_form(self.government_public_key@)->0),
    {
        PublicKey::from_sec1_bytes(self.government_public_key.as_slice())
    }

    /// A copy of the outputs.
    pub fn duplicate(&self) -> (r: CircuitOutputs)
        ensures
            r@ == self@,
    {
        CircuitOutputs {
            choice: self.choice.clone(),
            government_public_key: copy_bytes(&self.government_public_key),
            public_identity: copy_bytes(&self.public_identity),
        }
    }
}

/// A voter's credential for one election: the election's key and the
/// public identity the election's authority signed for the voter.
pub struct VerifiedUser {
    pub government_public_key: Vec<u8>,
    pub public_identity: Vec<u8>,
}

} // verus!
