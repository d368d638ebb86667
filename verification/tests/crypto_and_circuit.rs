use acropolis::circuit::{identity_message, verify_vote, CircuitError};
use acropolis::crypto::{verify_signature, PublicKey, SecretKey};
use acropolis::encoding::{decode_hex, encode_hex, from_hex_with_prefix, to_hex_with_prefix, HexError};
use acropolis::order::{compare_bytes, ByteOrder};
use acropolis::prover::{circuit_inputs, generate_key_pair, issue_identity};
use acropolis::types::CircuitInputs;

const G_COMPRESSED: &str = "0279be667ef9dcbbac55a06295ce870b07029bfcdb2dce28d959f2815b16f81798";
const G_UNCOMPRESSED: &str = "0479be667ef9dcbbac55a06295ce870b07029bfcdb2dce28d959f2815b16f81798483ada7726a3c4655da4fbfc0e1108a8fd17b448a68554199c47d08ffb10d4b8";

fn scalar(n: u8) -> Vec<u8> {
    let mut v = vec![0u8; 32];
    v[31] = n;
    v
}

fn secret(n: u8) -> SecretKey {
    SecretKey::from_slice(&scalar(n)).unwrap()
}

#[test]
fn compare_bytes_is_lexicographic() {
    assert_eq!(compare_bytes(&[1, 2], &[1, 3]), ByteOrder::Less);
    assert_eq!(compare_bytes(&[1, 2, 3], &[1, 2]), ByteOrder::Greater);
    assert_eq!(compare_bytes(&[1, 2], &[1, 2, 0]), ByteOrder::Less);
    assert_eq!(compare_bytes(&[], &[]), ByteOrder::Equal);
    assert_eq!(compare_bytes(&[9], &[9]), ByteOrder::Equal);
    assert_eq!(compare_bytes(&[2], &[1, 255]), ByteOrder::Greater);
}

#[test]
fn public_key_of_scalar_one_is_the_generator() {
    let pk = secret(1).public_key();
    assert_eq!(encode_hex(pk.as_bytes()), G_COMPRESSED);
}

#[test]
fn uncompressed_key_parses_to_its_compressed_form() {
    let bytes = decode_hex(G_UNCOMPRESSED.as_bytes()).unwrap();
    let key = PublicKey::from_sec1_bytes(&bytes).unwrap();
    assert_eq!(encode_hex(key.as_bytes()), G_COMPRESSED);
    assert_eq!(key.to_sec1_bytes().len(), 33);
}

#[test]
fn invalid_keys_are_refused() {
    assert!(PublicKey::from_sec1_bytes(&[]).is_none());
    assert!(PublicKey::from_sec1_bytes(&[5u8; 33]).is_none());
    assert!(SecretKey::from_slice(&[0u8; 32]).is_none());
    assert!(SecretKey::from_slice(&[1u8; 10]).is_none());
}

#[test]
fn hex_encoding_is_lowercase() {
    assert_eq!(encode_hex(&[0x00, 0xab, 0x10, 0xff]), "00ab10ff");
    assert_eq!(encode_hex(&[]), "");
}

#[test]
fn hex_decoding_accepts_both_cases() {
    assert_eq!(decode_hex(b"00aB10Ff").unwrap(), vec![0x00, 0xab, 0x10, 0xff]);
}

#[test]
fn hex_decoding_refuses_odd_length() {
    assert_eq!(decode_hex(b"abc"), Err(HexError::OddLength));
}

#[test]
fn hex_decoding_reports_first_bad_character() {
    assert_eq!(decode_hex(b"0g1z"), Err(HexError::InvalidHexCharacter { c: 'g', index: 1 }));
}

#[test]
fn hex_with_prefix_round_trips() {
    let key = secret(7).public_key();
    let text = to_hex_with_prefix(&key);
    assert!(text.starts_with("0x"));
    assert_eq!(text.len(), 2 + 66);
    assert_eq!(from_hex_with_prefix(&text).unwrap(), key.to_sec1_bytes());
    assert_eq!(to_hex_with_prefix(&secret(1).public_key()), format!("0x{}", G_COMPRESSED));
}

#[test]
fn hex_without_prefix_is_decoded_too() {
    assert_eq!(from_hex_with_prefix("0102").unwrap(), vec![1, 2]);
    assert_eq!(from_hex_with_prefix("0x0102").unwrap(), vec![1, 2]);
    assert_eq!(from_hex_with_prefix("0x").unwrap(), Vec::<u8>::new());
    assert_eq!(from_hex_with_prefix("0x1"), Err(HexError::OddLength));
}

#[test]
fn signatures_verify_under_their_key_only() {
    let sk = secret(3);
    let sig = sk.sign(b"hello").unwrap();
    assert_eq!(sig.len(), 64);
    let pk = sk.public_key();
    assert!(verify_signature(pk.as_bytes(), b"hello", &sig));
    assert!(!verify_signature(pk.as_bytes(), b"hellp", &sig));
    assert!(!verify_signature(secret(4).public_key().as_bytes(), b"hello", &sig));
    assert!(!verify_signature(pk.as_bytes(), b"hello", &sig[..63]));
}

#[test]
fn signing_is_deterministic() {
    let sk = secret(9);
    assert_eq!(sk.sign(b"vote").unwrap(), sk.sign(b"vote").unwrap());
    assert_ne!(sk.sign(b"vote").unwrap(), sk.sign(b"other").unwrap());
}

#[test]
fn generated_key_pairs_match() {
    let kp = generate_key_pair();
    assert_eq!(kp.secret_key.public_key().to_sec1_bytes(), kp.public_key.to_sec1_bytes());
    assert_eq!(kp.public_key.to_sec1_bytes().len(), 33);
    assert!(kp.public_key.to_sec1_bytes()[0] == 2 || kp.public_key.to_sec1_bytes()[0] == 3);
    assert_eq!(kp.secret_key.to_bytes().len(), 32);
    let sig = kp.secret_key.sign(b"m").unwrap();
    assert!(verify_signature(kp.public_key.as_bytes(), b"m", &sig));
}

#[test]
fn identity_message_concatenates_keys() {
    assert_eq!(identity_message(&[1, 2], &[3]), vec![1, 2, 3]);
}

#[test]
fn issued_identity_signs_user_then_election_key() {
    let gov = secret(11);
    let user = secret(12).public_key();
    let id = issue_identity(&gov, gov.public_key().as_bytes(), user.as_bytes()).unwrap();
    assert_eq!(id.government_public_key, gov.public_key().to_sec1_bytes());
    assert_eq!(id.government_public_key.len(), 33);
    assert_eq!(id.public_identity.len(), 64);
    let mut payload = user.to_sec1_bytes();
    payload.extend_from_slice(&id.government_public_key);
    assert!(verify_signature(&id.government_public_key, &payload, &id.public_identity));
}

fn honest_inputs(choice: &str) -> CircuitInputs {
    let gov = secret(21);
    let user = secret(22);
    let id = issue_identity(&gov, gov.public_key().as_bytes(), user.public_key().as_bytes()).unwrap();
    circuit_inputs(choice.to_string(), &user, &gov.public_key(), id.public_identity).unwrap()
}

#[test]
fn honest_vote_passes_the_circuit() {
    let inputs = honest_inputs("dogs_and_cats");
    let out = verify_vote(&inputs).unwrap();
    assert_eq!(out.choice, "dogs_and_cats");
    assert_eq!(out.government_public_key, secret(21).public_key().to_sec1_bytes());
    assert_eq!(out.public_identity, inputs.public_identity);
}

#[test]
fn circuit_refuses_invalid_user_key() {
    let mut inputs = honest_inputs("42");
    inputs.user_public_key = vec![9, 9, 9];
    assert_eq!(verify_vote(&inputs).err(), Some(CircuitError::InvalidUserKey));
}

#[test]
fn circuit_refuses_invalid_government_key() {
    let mut inputs = honest_inputs("42");
    inputs.government_public_key = vec![];
    assert_eq!(verify_vote(&inputs).err(), Some(CircuitError::InvalidGovernmentKey));
}

#[test]
fn circuit_refuses_changed_vote() {
    let mut inputs = honest_inputs("42");
    inputs.choice = "43".to_string();
    assert_eq!(verify_vote(&inputs).err(), Some(CircuitError::SessionSignatureRejected));
}

#[test]
fn circuit_refuses_identity_of_another_election() {
    let mut inputs = honest_inputs("42");
    inputs.government_public_key = secret(23).public_key().to_sec1_bytes();
    assert_eq!(verify_vote(&inputs).err(), Some(CircuitError::PublicIdentityRejected));
}

#[test]
fn circuit_refuses_identity_signed_over_user_key_alone() {
    let gov = secret(31);
    let user = secret(32);
    let lone = gov.sign(&user.public_key().to_sec1_bytes()).unwrap();
    let inputs = circuit_inputs("x".to_string(), &user, &gov.public_key(), lone).unwrap();
    assert_eq!(verify_vote(&inputs).err(), Some(CircuitError::PublicIdentityRejected));
}

#[test]
fn circuit_inputs_hold_compressed_keys() {
    let inputs = honest_inputs("a");
    assert_eq!(inputs.user_public_key, secret(22).public_key().to_sec1_bytes());
    assert_eq!(inputs.choice, "a");
    assert!(verify_signature(&inputs.user_public_key, b"a", &inputs.session_signature));
}

#[test]
fn issued_identity_signs_the_key_files_as_given() {
    let gov = secret(13);
    let id = issue_identity(&gov, &[9, 9], &[1, 2]).unwrap();
    assert_eq!(id.government_public_key, gov.public_key().to_sec1_bytes());
    assert!(verify_signature(&id.government_public_key, &[1, 2, 9, 9], &id.public_identity));
    assert!(!verify_signature(&id.government_public_key, &[1, 2], &id.public_identity));
}

#[test]
fn key_ids_are_sixty_eight_characters() {
    let text = to_hex_with_prefix(&secret(3).public_key());
    assert_eq!(text.len(), 68);
    assert!(text.starts_with("0x02") || text.starts_with("0x03"));
}

#[test]
fn short_secrets_are_padded_to_thirty_two_bytes() {
    let short = vec![1u8; 24];
    let key = SecretKey::from_slice(&short).unwrap();
    let mut padded = vec![0u8; 8];
    padded.extend_from_slice(&short);
    assert_eq!(key.to_bytes(), padded);
    assert_eq!(key.public_key().to_sec1_bytes(), SecretKey::from_slice(&padded).unwrap().public_key().to_sec1_bytes());
    assert_eq!(secret(5).to_bytes(), scalar(5));
    assert!(SecretKey::from_slice(&[1u8; 23]).is_none());
    assert!(SecretKey::from_slice(&[1u8; 33]).is_none());
}
