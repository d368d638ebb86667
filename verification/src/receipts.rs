//! Receipts of the vote circuit, held in their `bincode` serialization and
//! read by the `risc0-zkvm` crate.
//!
//! Checking a receipt's proof is left to the caller, who hands over its
//! outcome: the zkVM's verifier may panic on a hostile receipt, and whether a
//! proof verifies depends on the environment (`RISC0_DEV_MODE` admits fake
//! receipts), so the check is made where such a panic can be caught.

use vstd::prelude::*;
use crate::types::{CircuitOutputs, OutputsView};
use crate::encoding::{HexError, hex_decoding, decode_hex, prefixed_hex, prefixed_hex_of};

verus! {

/// The journal (the bytes the guest committed) of the receipt that
/// `receipt` serializes with `bincode`, or `None` where `receipt` is no
/// serialized receipt.
pub uninterp spec fn receipt_journal(receipt: Seq<u8>) -> Option<Seq<u8>>;

/// The circuit outputs that the journal words (risc0 serialization, in
/// field order) decode to, or `None` where they do not decode.
pub uninterp spec fn journal_outputs(journal: Seq<u8>) -> Option<OutputsView>;

/// `bincode::deserialize` into a `risc0_zkvm::Receipt`, then its journal bytes.
///
/// Claims: the result is the name `receipt_journal` of the input.
#[verifier::external_body]
fn bincode_receipt_journal(receipt: &[u8]) -> (r: Option<Vec<u8>>)
    ensures
        match r {
            Some(j) => receipt_journal(receipt@) == Some(j@),
            None => receipt_journal(receipt@) is None,
        },
{
    match bincode::deserialize::<risc0_zkvm::Receipt>(receipt) {
        Ok(parsed) => Some(parsed.journal.bytes),
        Err(_) => None,
    }
}

/// `risc0_zkvm::serde::from_slice` of the journal into the outputs' fields
/// (vote, election key, `k256` signature), the signature then taken as bytes.
///
/// Claims: the result is the name `journal_outputs` of the input; a decoded
/// public identity is 64 bytes. The length must be whole words: on other
/// lengths the crate may panic, depending on the alignment of the buffer.
#[verifier::external_body]
fn risc0_decode_outputs(journal: &[u8]) -> (r: Option<CircuitOutputs>)
    requires
        journal@.len() % 4 == 0,
    ensures
        match r {
            Some(o) => journal_outputs(journal@) == Some(o@),
            None => journal_outputs(journal@) is None,
        },
        r matches Some(o) ==> o.public_identity@.len() == 64,
{
    match risc0_zkvm::serde::from_slice::<(String, Vec<u8>, k256::ecdsa::Signature), u8>(journal) {
        Ok((choice, key, sig)) => Some(
            CircuitOutputs { choice, government_public_key: key, public_identity: sig.to_bytes().to_vec() },
        ),
        Err(_) => None,
    }
}

/// The outputs committed in a serialized receipt's journal, where the
/// receipt deserializes and its journal (whole words) decodes.
pub open spec fn receipt_outputs(receipt: Seq<u8>) -> Option<OutputsView> {
    match receipt_journal(receipt) {
        Some(j) => if j.len() % 4 == 0 {
            journal_outputs(j)
        } else {
            None
        },
        None => None,
    }
}

/// Why a receipt is refused.
#[derive(PartialEq, Eq, Structural, Clone, Copy, Debug)]
pub enum ReceiptError {
    /// The proof did not verify against the circuit's image id.
    ProofRejected,
    /// The proof verified but its journal holds no circuit outputs.
    MalformedJournal,
}

/// The outputs that a serialized receipt commits to, read without checking
/// its proof.
pub fn decode_receipt_outputs(receipt: &[u8]) -> (r: Option<CircuitOutputs>)
    ensures
        match r {
            Some(o) => receipt_outputs(receipt@) == Some(o@),
            None => receipt_outputs(receipt@) is None,
        },
{
    match bincode_receipt_journal(receipt) {
        Some(journal) => {
            if journal.len() % 4 == 0 {
                risc0_decode_outputs(journal.as_slice())
            } else {
                None
            }
        },
        None => None,
    }
}

/// What becomes of a serialized receipt, given whether its proof verified:
/// refused when it did not, or when its journal holds no outputs; otherwise
/// the outputs its journal commits to.
pub open spec fn receipt_verdict(receipt: Seq<u8>, proof_verified: bool) -> Result<OutputsView, ReceiptError> {
    if !proof_verified {
        Err(ReceiptError::ProofRejected)
    } else {
        match receipt_outputs(receipt) {
            Some(o) => Ok(o),
            None => Err(ReceiptError::MalformedJournal),
        }
    }
}

/// Accepts a serialized receipt whose proof verified (`proof_verified`, the
/// outcome of checking it against the circuit's image id) and decodes the
/// outputs its journal commits to.
pub fn verify_receipt(receipt: &[u8], proof_verified: bool) -> (r: Result<CircuitOutputs, ReceiptError>)
    ensures
        match receipt_verdict(receipt@, proof_verified) {
            Ok(o) => r matches Ok(x) && x@ == o,
            Err(e) => r == Err::<CircuitOutputs, ReceiptError>(e),
        },
{
    if !proof_verified {
        return Err(ReceiptError::ProofRejected);
    }
    match decode_receipt_outputs(receipt) {
        Some(o) => Ok(o),
        None => Err(ReceiptError::MalformedJournal),
    }
}

/// Given whether each receipt's proof verified, in order, accepts the list
/// when all did and otherwise reports the position of the first that did not.
pub fn verify_receipt_vec(proofs_verified: &Vec<bool>) -> (r: Result<(), usize>)
    ensures
        match r {
            Ok(()) => forall|j: int| 0 <= j < proofs_verified@.len() ==> #[trigger] proofs_verified@[j],
            Err(i) => i < proofs_verified@.len() && !proofs_verified@[i as int] && forall|j: int|
                0 <= j < i ==> #[trigger] proofs_verified@[j],
        },
{
    let mut i: usize = 0;
    while i < proofs_verified.len()
        invariant
            i <= proofs_verified@.len(),
            forall|j: int| 0 <= j < i ==> #[trigger] proofs_verified@[j],
        decreases proofs_verified@.len() - i,
    {
        if !proofs_verified[i] {
            return Err(i);
        }
        i = i + 1;
    }
    Ok(())
}

/// The little-endian value of four bytes.
pub open spec fn le_word(b0: u8, b1: u8, b2: u8, b3: u8) -> int {
    b0 + 256 * b1 + 65536 * b2 + 16777216 * b3
}

/// The eight words of a circuit's image id from its 32 bytes, each word
/// little-endian; `None` for any other length.
pub fn image_id_words(bytes: &[u8]) -> (r: Option<Vec<u32>>)
    ensures
        match r {
            Some(w) => bytes@.len() == 32 && w@.len() == 8 && forall|k: int|
                0 <= k < 8 ==> #[trigger] w@[k] == le_word(
                    bytes@[4 * k],
                    bytes@[4 * k + 1],
                    bytes@[4 * k + 2],
                    bytes@[4 * k + 3],
                ),
            None => bytes@.len() != 32,
        },
{
    if bytes.len() != 32 {
        return None;
    }
    let mut words: Vec<u32> = Vec::new();
    let mut k: usize = 0;
    while k < 8
        invariant
            bytes@.len() == 32,
            k <= 8,
            words@.len() == k,
            forall|j: int|
                0 <= j < k ==> #[trigger] words@[j] == le_word(
                    bytes@[4 * j],
                    bytes@[4 * j + 1],
                    bytes@[4 * j + 2],
                    bytes@[4 * j + 3],
                ),
        decreases 8 - k,
    {
        let w: u32 = bytes[4 * k] as u32 + 256 * (bytes[4 * k + 1] as u32) + 65536 * (bytes[4 * k + 2] as u32)
            + 16777216 * (bytes[4 * k + 3] as u32);
        words.push(w);
        k = k + 1;
    }
    Some(words)
}

/// Why a line of a receipts file is refused.
#[derive(PartialEq, Eq, Structural, Clone, Copy, Debug)]
pub enum ReceiptFileError {
    /// The line is no hexadecimal text.
    Hex { line: usize, error: HexError },
    /// The line decodes to bytes that are no serialized receipt.
    NotAReceipt { line: usize },
}

/// What one line of a receipts file gives: the serialized receipt its
/// hexadecimal text decodes to.
pub open spec fn receipt_line(line: Seq<char>, index: int) -> Result<Seq<u8>, ReceiptFileError> {
    match hex_decoding(vstd::utf8::encode_utf8(line)) {
        Ok(bytes) => if receipt_journal(bytes) is Some {
            Ok(bytes)
        } else {
            Err(ReceiptFileError::NotAReceipt { line: index as usize })
        },
        Err(e) => Err(ReceiptFileError::Hex { line: index as usize, error: e }),
    }
}

/// Decodes the lines of a receipts file, each the hexadecimal text of a
/// serialized receipt; the first line that is not refuses the whole file.
pub fn parse_receipt_lines(lines: &Vec<String>) -> (r: Result<Vec<Vec<u8>>, ReceiptFileError>)
    ensures
        match r {
            Ok(receipts) => receipts@.len() == lines@.len() && forall|i: int|
                0 <= i < lines@.len() ==> receipt_line(#[trigger] lines@[i]@, i) == Ok::<Seq<u8>, ReceiptFileError>(receipts@[i]@),
            Err(e) => exists|i: int|
                0 <= i < lines@.len() && receipt_line(#[trigger] lines@[i]@, i) == Err::<Seq<u8>, ReceiptFileError>(e)
                    && forall|j: int| 0 <= j < i ==> receipt_line(#[trigger] lines@[j]@, j) is Ok,
        },
{
    let mut receipts: Vec<Vec<u8>> = Vec::new();
    let mut i: usize = 0;
    while i < lines.len()
        invariant
            i <= lines@.len(),
            receipts@.len() == i,
            forall|j: int| 0 <= j < i ==> receipt_line(#[trigger] lines@[j]@, j) == Ok::<Seq<u8>, ReceiptFileError>(receipts@[j]@),
        decreases lines@.len() - i,
    {
        let line = lines[i].as_str().as_bytes();
        match decode_hex(line) {
            Ok(bytes) => {
                if bincode_receipt_journal(bytes.as_slice()).is_none() {
                    return Err(ReceiptFileError::NotAReceipt { line: i });
                }
                receipts.push(bytes);
            },
            Err(e) => {
                return Err(ReceiptFileError::Hex { line: i, error: e });
            },
        }
        i = i + 1;
    }
    Ok(receipts)
}

/// The id of the election a serialized receipt votes in: `"0x"` and the
/// hexadecimal text of the election key its journal commits to (the proof
/// is not checked).
pub fn extract_election_id(receipt: &[u8]) -> (r: Option<String>)
    ensures
        match r {
            Some(s) => receipt_outputs(receipt@) matches Some(o) && s@ == prefixed_hex(o.government_public_key),
            None => receipt_outputs(receipt@) is None,
        },
{
    match decode_receipt_outputs(receipt) {
        Some(o) => Some(prefixed_hex_of(o.government_public_key.as_slice())),
        None => None,
    }
}

} // verus!
