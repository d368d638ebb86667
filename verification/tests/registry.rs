use k256::ecdsa::signature::Signer;
use acropolis::audit::audit_votes;
use acropolis::crypto::{verify_signature, PublicKey, SecretKey};
use acropolis::encoding::{encode_hex, HexError};
use acropolis::identity_map::IdentityMap;
use acropolis::receipts::{
    decode_receipt_outputs, extract_election_id, image_id_words, parse_receipt_lines, verify_receipt,
    verify_receipt_vec, ReceiptError, ReceiptFileError,
};
use acropolis::state::{
    AppState, ElectionIdError, MockBlockChainState, ProcessError, RecordError, RegisterError, ELECTIONS,
    VOTERS_PER_ELECTION,
};
use acropolis::types::CircuitOutputs;

fn scalar(n: u8) -> Vec<u8> {
    let mut v = vec![0u8; 32];
    v[31] = n;
    v
}

fn key(n: u8) -> PublicKey {
    SecretKey::from_slice(&scalar(n)).unwrap().public_key()
}

fn identity(n: u8) -> Vec<u8> {
    vec![n; 64]
}

fn vote(choice: &str, gov: u8, id: u8) -> CircuitOutputs {
    CircuitOutputs {
        choice: choice.to_string(),
        government_public_key: key(gov).to_sec1_bytes(),
        public_identity: identity(id),
    }
}

fn options(list: &[&str]) -> Vec<String> {
    list.iter().map(|s| s.to_string()).collect()
}

fn signature_of(signer: u8) -> k256::ecdsa::Signature {
    let sk = k256::ecdsa::SigningKey::from_slice(&scalar(signer)).unwrap();
    sk.sign(b"identity")
}

fn journal_bytes(choice: &str, gov: &[u8], sig: k256::ecdsa::Signature) -> Vec<u8> {
    let words = risc0_zkvm::serde::to_vec(&(choice.to_string(), gov.to_vec(), sig)).unwrap();
    words.iter().flat_map(|w| w.to_le_bytes()).collect()
}

fn fake_receipt(journal: Vec<u8>) -> Vec<u8> {
    let claim = risc0_zkvm::ReceiptClaim::ok([0u32; 8], journal.clone());
    let inner = risc0_zkvm::InnerReceipt::Fake(risc0_zkvm::FakeReceipt::new(claim));
    let receipt = risc0_zkvm::Receipt::new(inner, journal);
    bincode::serialize(&receipt).unwrap()
}

fn receipt_for(choice: &str, gov: &[u8], public_identity: &[u8]) -> Vec<u8> {
    let sig = k256::ecdsa::Signature::from_slice(public_identity).unwrap();
    fake_receipt(journal_bytes(choice, gov, sig))
}

fn registry() -> MockBlockChainState {
    let mut state = MockBlockChainState::new();
    assert_eq!(state.register_election(key(1), vec![identity(7), identity(3)], options(&["a", "b"])), Ok(()));
    assert_eq!(state.register_election(key(2), vec![identity(7)], options(&["a"])), Ok(()));
    state
}

#[test]
fn identity_map_keeps_keys_in_order_and_replaces() {
    let mut m: IdentityMap<u8> = IdentityMap::new();
    m.insert(vec![5], 1);
    m.insert(vec![1, 9], 2);
    m.insert(vec![3], 3);
    m.insert(vec![1], 4);
    m.insert(vec![3], 5);
    assert_eq!(m.len(), 4);
    let keys: Vec<Vec<u8>> = (0..m.len()).map(|i| m.key_at(i).clone()).collect();
    assert_eq!(keys, vec![vec![1], vec![1, 9], vec![3], vec![5]]);
    let values: Vec<u8> = (0..m.len()).map(|i| *m.value_at(i)).collect();
    assert_eq!(values, vec![4, 2, 5, 1]);
    assert!(m.contains_key(&[1, 9]));
    assert!(!m.contains_key(&[9]));
}

#[test]
fn registry_records_the_first_vote_per_identity() {
    let mut state = registry();
    assert_eq!(state.record_vote(vote("a", 1, 7), vec![1]), Ok(()));
    assert_eq!(state.record_vote(vote("b", 1, 3), vec![2]), Ok(()));
    assert_eq!(state.record_vote(vote("b", 1, 7), vec![3]), Err(RecordError::AlreadyVoted));
    assert_eq!(state.record_vote(vote("a", 2, 7), vec![4]), Ok(()));
    let votes = state.fetch_census_votes(&key(1)).unwrap();
    let choices: Vec<&str> = votes.iter().map(|v| v.choice.as_str()).collect();
    assert_eq!(choices, vec!["b", "a"]);
    assert_eq!(votes[0].public_identity, identity(3));
    assert_eq!(votes[1].public_identity, identity(7));
    let other = state.fetch_census_votes(&key(2)).unwrap();
    assert_eq!(other.len(), 1);
    assert_eq!(other[0].choice, "a");
    assert!(state.fetch_census_votes(&key(3)).is_none());
}

#[test]
fn registry_refuses_unauthorized_identities() {
    let mut state = registry();
    assert_eq!(state.record_vote(vote("a", 1, 9), vec![1]), Err(RecordError::UnauthorizedIdentity));
    assert_eq!(state.record_vote(vote("a", 2, 3), vec![1]), Err(RecordError::UnauthorizedIdentity));
    assert!(state.fetch_census_votes(&key(1)).is_none());
    assert!(state.fetch_census_votes(&key(2)).is_none());
}

#[test]
fn registry_refuses_choices_outside_the_options() {
    let mut state = registry();
    assert_eq!(state.record_vote(vote("c", 1, 7), vec![1]), Err(RecordError::UnknownOption));
    assert_eq!(state.record_vote(vote("b", 2, 7), vec![1]), Err(RecordError::UnknownOption));
    assert!(state.fetch_census_votes(&key(1)).is_none());
}

#[test]
fn registry_refuses_votes_for_unknown_elections() {
    let mut state = registry();
    assert_eq!(state.record_vote(vote("a", 5, 7), vec![1]), Err(RecordError::UnknownElection));
    let mut empty = MockBlockChainState::new();
    assert_eq!(empty.record_vote(vote("a", 1, 7), vec![1]), Err(RecordError::UnknownElection));
}

#[test]
fn registry_refuses_a_second_election_with_the_same_key() {
    let mut state = registry();
    assert_eq!(state.register_election(key(1), vec![], vec![]), Err(RegisterError::DuplicateElectionKey));
    assert_eq!(state.get_all_gov_keys().len(), 2);
}

#[test]
fn registry_matches_uncompressed_election_keys() {
    let mut state = registry();
    let uncompressed = {
        let sk = k256::ecdsa::SigningKey::from_slice(&scalar(1)).unwrap();
        sk.verifying_key().to_encoded_point(false).as_bytes().to_vec()
    };
    let mut v = vote("a", 1, 3);
    v.government_public_key = uncompressed;
    assert_eq!(state.record_vote(v, vec![]), Ok(()));
    assert_eq!(state.fetch_census_votes(&key(1)).unwrap().len(), 1);
}

#[test]
fn registry_refuses_invalid_election_key() {
    let mut empty = MockBlockChainState::new();
    let mut bad = vote("a", 1, 7);
    bad.government_public_key = vec![1, 2, 3];
    assert_eq!(empty.record_vote(bad, vec![]), Err(RecordError::InvalidGovernmentKey));
    let mut state = registry();
    let mut bad = vote("a", 1, 7);
    bad.government_public_key = vec![1, 2, 3];
    assert_eq!(state.record_vote(bad, vec![]), Err(RecordError::InvalidGovernmentKey));
    assert!(state.fetch_census_votes(&key(1)).is_none());
}

#[test]
fn resubmitted_vote_is_refused() {
    let mut state = registry();
    assert_eq!(state.record_vote(vote("b", 1, 3), vec![1]), Ok(()));
    assert_eq!(state.record_vote(vote("b", 1, 3), vec![1]), Err(RecordError::AlreadyVoted));
    assert_eq!(state.fetch_census_votes(&key(1)).unwrap().len(), 1);
}

#[test]
fn service_starts_with_two_elections_of_five_voters() {
    let (state, accounts) = AppState::new(options(&["dogs_and_cats", "neither"])).unwrap();
    assert_eq!(ELECTIONS, 2);
    assert_eq!(VOTERS_PER_ELECTION, 5);
    assert_eq!(accounts.len(), 2);
    let ids = state.get_all_gov_keys();
    assert_eq!(ids.len(), 2);
    assert_ne!(ids[0], ids[1]);
    for (k, election) in accounts.iter().enumerate() {
        let gov = election.authority.public_key.to_sec1_bytes();
        assert_eq!(election.authority.secret_key.public_key().to_sec1_bytes(), gov);
        assert_eq!(ids[k], format!("0x{}", encode_hex(&gov)));
        assert_eq!(election.voters.len(), 5);
        for voter in &election.voters {
            assert_eq!(voter.credential.government_public_key, gov);
            assert_eq!(voter.credential.public_identity.len(), 64);
            let mut payload = voter.key_pair.public_key.to_sec1_bytes();
            payload.extend_from_slice(&gov);
            assert!(verify_signature(&gov, &payload, &voter.credential.public_identity));
        }
        assert!(state.fetch_census_votes(&election.authority.public_key).is_none());
    }
}

#[test]
fn election_ids_are_prefixed_hex() {
    let (state, accounts) = AppState::new(options(&["a"])).unwrap();
    let ids = state.get_all_gov_keys();
    assert_eq!(ids.len(), 2);
    for (k, id) in ids.iter().enumerate() {
        assert_eq!(id.len(), 68);
        assert!(id.starts_with("0x02") || id.starts_with("0x03"));
        assert_eq!(*id, format!("0x{}", encode_hex(accounts[k].authority.public_key.as_bytes())));
    }
}

#[test]
fn journal_of_a_receipt_decodes_to_outputs() {
    let gov = key(1).to_sec1_bytes();
    let receipt = fake_receipt(journal_bytes("dogs", &gov, signature_of(5)));
    let out = decode_receipt_outputs(&receipt).unwrap();
    assert_eq!(out.choice, "dogs");
    assert_eq!(out.government_public_key, gov);
    assert_eq!(out.public_identity, signature_of(5).to_bytes().to_vec());
    assert_eq!(extract_election_id(&receipt).unwrap(), format!("0x{}", encode_hex(&gov)));
}

#[test]
fn garbage_is_no_receipt() {
    assert!(decode_receipt_outputs(&[1, 2, 3]).is_none());
    assert!(extract_election_id(&[]).is_none());
}

#[test]
fn receipts_are_accepted_only_when_their_proof_verified() {
    let receipt = fake_receipt(journal_bytes("dogs", &key(1).to_sec1_bytes(), signature_of(5)));
    assert_eq!(verify_receipt(&receipt, false).err(), Some(ReceiptError::ProofRejected));
    let out = verify_receipt(&receipt, true).unwrap();
    assert_eq!(out.choice, "dogs");
    assert_eq!(verify_receipt(&[1, 2, 3], true).err(), Some(ReceiptError::MalformedJournal));
    assert_eq!(verify_receipt(&[1, 2, 3], false).err(), Some(ReceiptError::ProofRejected));
}

#[test]
fn receipt_lists_are_accepted_when_every_proof_verified() {
    assert_eq!(verify_receipt_vec(&vec![]), Ok(()));
    assert_eq!(verify_receipt_vec(&vec![true, true]), Ok(()));
    assert_eq!(verify_receipt_vec(&vec![true, false, false]), Err(1));
    assert_eq!(verify_receipt_vec(&vec![false]), Err(0));
}

#[test]
fn service_records_a_voter_once_and_only_with_a_verified_proof() {
    let (mut state, accounts) = AppState::new(options(&["dogs_and_cats", "neither"])).unwrap();
    let gov = accounts[0].authority.public_key.to_sec1_bytes();
    let voter = &accounts[0].voters[2];
    let receipt = receipt_for("dogs_and_cats", &gov, &voter.credential.public_identity);
    assert_eq!(
        state.process_receipt(receipt.clone(), false),
        Err(ProcessError::Receipt(ReceiptError::ProofRejected))
    );
    assert!(state.fetch_census_votes(&accounts[0].authority.public_key).is_none());
    assert_eq!(state.process_receipt(receipt.clone(), true), Ok(()));
    let again = receipt_for("neither", &gov, &voter.credential.public_identity);
    assert_eq!(state.process_receipt(again, true), Err(ProcessError::Record(RecordError::AlreadyVoted)));
    let votes = state.fetch_census_votes(&accounts[0].authority.public_key).unwrap();
    assert_eq!(votes.len(), 1);
    assert_eq!(votes[0].choice, "dogs_and_cats");
    assert_eq!(votes[0].public_identity, voter.credential.public_identity);
    assert!(state.fetch_census_votes(&accounts[1].authority.public_key).is_none());
    assert_eq!(
        state.process_receipt(vec![0, 1], true),
        Err(ProcessError::Receipt(ReceiptError::MalformedJournal))
    );
}

#[test]
fn service_refuses_identities_of_another_election_and_unknown_options() {
    let (mut state, accounts) = AppState::new(options(&["yes"])).unwrap();
    let gov0 = accounts[0].authority.public_key.to_sec1_bytes();
    let stranger = &accounts[1].voters[0];
    let receipt = receipt_for("yes", &gov0, &stranger.credential.public_identity);
    assert_eq!(state.process_receipt(receipt, true), Err(ProcessError::Record(RecordError::UnauthorizedIdentity)));
    let voter = &accounts[0].voters[0];
    let receipt = receipt_for("no", &gov0, &voter.credential.public_identity);
    assert_eq!(state.process_receipt(receipt, true), Err(ProcessError::Record(RecordError::UnknownOption)));
    assert!(state.fetch_census_votes(&accounts[0].authority.public_key).is_none());
}

#[test]
fn receipt_lines_decode_or_report_the_line() {
    let receipt = fake_receipt(journal_bytes("x", &key(1).to_sec1_bytes(), signature_of(2)));
    let line = encode_hex(&receipt);
    let parsed = parse_receipt_lines(&vec![line.clone(), line.clone()]).unwrap();
    assert_eq!(parsed, vec![receipt.clone(), receipt]);
    assert_eq!(
        parse_receipt_lines(&vec![line.clone(), "zz".to_string()]),
        Err(ReceiptFileError::Hex { line: 1, error: HexError::InvalidHexCharacter { c: 'z', index: 0 } })
    );
    assert_eq!(parse_receipt_lines(&vec!["0102".to_string()]), Err(ReceiptFileError::NotAReceipt { line: 0 }));
    assert_eq!(parse_receipt_lines(&vec![]), Ok(vec![]));
}

#[test]
fn audit_flags_refused_receipts_and_counts_first_votes() {
    let gov = key(1).to_sec1_bytes();
    let first = fake_receipt(journal_bytes("x", &gov, signature_of(2)));
    let second = fake_receipt(journal_bytes("y", &gov, signature_of(2)));
    let failed = fake_receipt(journal_bytes("x", &gov, signature_of(3)));
    let elsewhere = fake_receipt(journal_bytes("z", &key(2).to_sec1_bytes(), signature_of(4)));
    let other_voter = fake_receipt(journal_bytes("y", &gov, signature_of(5)));
    let receipts = vec![first, vec![0], second, failed, elsewhere, other_voter];
    let report = audit_votes(&receipts, &vec![true, true, true, false, true, true], &key(1));
    assert_eq!(report.rejected, vec![1, 3]);
    assert_eq!(report.repeated, vec![2]);
    assert_eq!(report.tally.len(), 2);
    assert!(report.tally.contains(&("x".to_string(), 1)));
    assert!(report.tally.contains(&("y".to_string(), 1)));
}

#[test]
fn audit_of_unverified_receipts_counts_nothing() {
    let receipt = fake_receipt(journal_bytes("x", &key(1).to_sec1_bytes(), signature_of(2)));
    let report = audit_votes(&vec![receipt.clone(), vec![0], receipt], &vec![false, false, false], &key(1));
    assert_eq!(report.rejected, vec![0, 1, 2]);
    assert!(report.repeated.is_empty());
    assert!(report.tally.is_empty());
}

#[test]
fn votes_are_fetched_by_election_id() {
    let (state, accounts) = AppState::new(options(&["a"])).unwrap();
    let id = state.get_all_gov_keys()[0].clone();
    assert!(state.fetch_votes(&id).unwrap().is_none());
    assert_eq!(
        state.fetch_votes("0xzz").err(),
        Some(ElectionIdError::Hex(HexError::InvalidHexCharacter { c: 'z', index: 0 }))
    );
    assert_eq!(state.fetch_votes("0x0102").err(), Some(ElectionIdError::InvalidKey));
    assert!(state.fetch_votes(&encode_hex(key(2).as_bytes())).unwrap().is_none());
    assert!(state.fetch_votes(&encode_hex(accounts[1].authority.public_key.as_bytes())).unwrap().is_none());
}

#[test]
fn image_ids_are_read_as_little_endian_words() {
    let mut bytes = vec![0u8; 32];
    bytes[0] = 1;
    bytes[1] = 2;
    bytes[7] = 0xff;
    bytes[28] = 0x78;
    bytes[29] = 0x56;
    bytes[30] = 0x34;
    bytes[31] = 0x12;
    let words = image_id_words(&bytes).unwrap();
    assert_eq!(words.len(), 8);
    assert_eq!(words[0], 0x0201);
    assert_eq!(words[1], 0xff00_0000);
    assert_eq!(words[7], 0x1234_5678);
    assert!(image_id_words(&[0u8; 31]).is_none());
}

fn accounts_of(authority: u8, voters: &[u8]) -> acropolis::state::ElectionAccounts {
    let pair = |n: u8| {
        let secret_key = SecretKey::from_slice(&scalar(n)).unwrap();
        let public_key = secret_key.public_key();
        acropolis::prover::KeyPair { secret_key, public_key }
    };
    let authority = pair(authority);
    let voters = voters
        .iter()
        .map(|&n| {
            let key_pair = pair(n);
            let credential = acropolis::prover::issue_identity(
                &authority.secret_key,
                authority.public_key.as_bytes(),
                key_pair.public_key.as_bytes(),
            )
            .unwrap();
            acropolis::state::VoterAccount { key_pair, credential }
        })
        .collect();
    acropolis::state::ElectionAccounts { authority, voters }
}

#[test]
fn service_opens_one_election_per_authority() {
    let accounts = vec![accounts_of(40, &[41, 42]), accounts_of(50, &[51])];
    let mut state = AppState::with_elections(&accounts, &options(&["yes", "no"])).unwrap();
    let ids = state.get_all_gov_keys();
    assert_eq!(ids, vec![format!("0x{}", encode_hex(key(40).as_bytes())), format!("0x{}", encode_hex(key(50).as_bytes()))]);
    let gov = key(50).to_sec1_bytes();
    let receipt = receipt_for("no", &gov, &accounts[1].voters[0].credential.public_identity);
    assert_eq!(state.process_receipt(receipt, true), Ok(()));
    let stranger = receipt_for("no", &gov, &accounts[0].voters[1].credential.public_identity);
    assert_eq!(state.process_receipt(stranger, true), Err(ProcessError::Record(RecordError::UnauthorizedIdentity)));
    assert_eq!(state.fetch_census_votes(&key(50)).unwrap().len(), 1);
    assert!(state.fetch_census_votes(&key(40)).is_none());
}

#[test]
fn service_refuses_authorities_sharing_a_key() {
    let accounts = vec![accounts_of(40, &[41]), accounts_of(40, &[42])];
    assert_eq!(
        AppState::with_elections(&accounts, &options(&["yes"])).err(),
        Some(RegisterError::DuplicateElectionKey)
    );
}

#[test]
fn election_key_decodes_from_either_encoding() {
    let sk = k256::ecdsa::SigningKey::from_slice(&scalar(7)).unwrap();
    for compress in [true, false] {
        let mut v = vote("a", 1, 3);
        v.government_public_key = sk.verifying_key().to_encoded_point(compress).as_bytes().to_vec();
        let k = v.deserialized_government_public_key().unwrap();
        assert_eq!(k.to_sec1_bytes(), key(7).to_sec1_bytes());
    }
    let mut bad = vote("a", 1, 3);
    bad.government_public_key = vec![4; 65];
    assert!(bad.deserialized_government_public_key().is_none());
}
