//! The election registry: each election, named by its authority's key,
//! has a fixed set of options and of authorized identities, and records at
//! most one vote per authorized identity, taken from receipts whose proof
//! verifies.

use vstd::prelude::*;
use crate::circuit::{circuit_result, identity_payload};
use crate::crypto::{PublicKey, compressed_sec1, ecdsa_accepts, ecdsa_signature, is_compressed_key, secret_public_key};
use crate::encoding::{HexError, from_hex_with_prefix, hex_decoding, prefixed_hex, strip_hex_prefix, to_hex_with_prefix};
use crate::identity_map::{
    IdentityMap, assoc_insert, assoc_lookup, assoc_values, sorted_entries, lemma_insert_sorted,
    lemma_insert_entries,
};
use crate::order::{ByteOrder, compare_bytes};
use crate::prover::{KeyPair, generate_key_pair, issue_identity};
use crate::receipts::{ReceiptError, receipt_outputs, receipt_verdict, verify_receipt};
use crate::types::{CircuitOutputs, InputsView, OutputsView, VerifiedUser, copy_bytes};

verus! {

/// An election: its authority's key, the identities it authorized, its
/// options, and, per public identity, the receipt and the outputs of the vote
/// that identity cast.
pub struct Election {
    pub gov_key: PublicKey,
    pub gov_sigs: Vec<Vec<u8>>,
    pub options: Vec<String>,
    pub receipts: IdentityMap<Vec<u8>>,
    pub receipt_journals_decoded: IdentityMap<CircuitOutputs>,
}

/// An election by its views.
pub struct ElectionView {
    pub gov_key: Seq<u8>,
    pub gov_sigs: Seq<Seq<u8>>,
    pub options: Seq<Seq<char>>,
    pub receipts: Seq<(Seq<u8>, Seq<u8>)>,
    pub votes: Seq<(Seq<u8>, OutputsView)>,
}

impl View for Election {
    type V = ElectionView;

    open spec fn view(&self) -> ElectionView {
        ElectionView {
            gov_key: self.gov_key@,
            gov_sigs: self.gov_sigs@.map_values(|s: Vec<u8>| s@),
            options: self.options@.map_values(|o: String| o@),
            receipts: self.receipts@,
            votes: self.receipt_journals_decoded@,
        }
    }
}

/// A recorded vote belongs to the election: it is filed under its own
/// public identity, which the election authorized, its choice is one of the
/// election's options, and its election key is the election's.
pub open spec fn vote_belongs(e: ElectionView, entry: (Seq<u8>, OutputsView)) -> bool {
    &&& entry.1.public_identity == entry.0
    &&& e.gov_sigs.contains(entry.0)
    &&& e.options.contains(entry.1.choice)
    &&& compressed_sec1(entry.1.government_public_key) == Some(e.gov_key)
}

/// Both maps are in identity order and hold the same identities, every vote
/// belongs to the election, and the election's key is a compressed key.
pub open spec fn election_wf(e: ElectionView) -> bool {
    &&& is_compressed_key(e.gov_key)
    &&& sorted_entries(e.receipts)
    &&& sorted_entries(e.votes)
    &&& e.receipts.len() == e.votes.len()
    &&& forall|i: int|
        0 <= i < e.votes.len() ==> (#[trigger] e.votes[i]).0 == e.receipts[i].0 && vote_belongs(e, e.votes[i])
}

/// Every election is well formed, and no two elections share a key.
pub open spec fn registry_wf(es: Seq<ElectionView>) -> bool {
    &&& forall|i: int| 0 <= i < es.len() ==> election_wf(#[trigger] es[i])
    &&& forall|i: int, j: int| 0 <= i < j < es.len() ==> (#[trigger] es[i]).gov_key != (#[trigger] es[j]).gov_key
}

/// The election after `outputs.public_identity` cast the vote `outputs` with
/// `receipt`.
pub open spec fn record_in(e: ElectionView, receipt: Seq<u8>, outputs: OutputsView) -> ElectionView {
    ElectionView {
        receipts: assoc_insert(e.receipts, outputs.public_identity, receipt),
        votes: assoc_insert(e.votes, outputs.public_identity, outputs),
        ..e
    }
}

/// The position of the election with key `key`, if there is one (in a
/// well-formed registry there is at most one).
pub open spec fn election_of(es: Seq<ElectionView>, key: Seq<u8>) -> Option<int> {
    if exists|i: int| 0 <= i < es.len() && (#[trigger] es[i]).gov_key == key {
        Some(choose|i: int| 0 <= i < es.len() && (#[trigger] es[i]).gov_key == key)
    } else {
        None
    }
}

/// Why an election refuses a vote, if it does: the identity is not one it
/// authorized, the identity has voted already, or the choice is not one of
/// its options, checked in this order.
pub open spec fn vote_refusal(e: ElectionView, outputs: OutputsView) -> Option<RecordError> {
    if !e.gov_sigs.contains(outputs.public_identity) {
        Some(RecordError::UnauthorizedIdentity)
    } else if assoc_lookup(e.votes, outputs.public_identity) is Some {
        Some(RecordError::AlreadyVoted)
    } else if !e.options.contains(outputs.choice) {
        Some(RecordError::UnknownOption)
    } else {
        None
    }
}

/// What recording the vote `outputs`, proven by `receipt`, makes of the
/// elections: the election whose key is the vote's election key records it,
/// the others are unchanged; or why the vote is refused.
pub open spec fn record_outcome(es: Seq<ElectionView>, receipt: Seq<u8>, outputs: OutputsView) -> Result<
    Seq<ElectionView>,
    RecordError,
> {
    match compressed_sec1(outputs.government_public_key) {
        None => Err(RecordError::InvalidGovernmentKey),
        Some(key) => match election_of(es, key) {
            None => Err(RecordError::UnknownElection),
            Some(i) => match vote_refusal(es[i], outputs) {
                Some(e) => Err(e),
                None => Ok(es.update(i, record_in(es[i], receipt, outputs))),
            },
        },
    }
}

/// The votes of the elections with key `key`, election by election, each
/// election's in identity order.
pub open spec fn census_votes(es: Seq<ElectionView>, key: Seq<u8>) -> Seq<OutputsView>
    decreases es.len(),
{
    if es.len() == 0 {
        Seq::empty()
    } else {
        census_votes(es.drop_last(), key) + if es.last().gov_key == key {
            assoc_values(es.last().votes)
        } else {
            Seq::empty()
        }
    }
}

/// The election keys, each as `"0x"` and hexadecimal text.
pub open spec fn election_ids(es: Seq<ElectionView>) -> Seq<Seq<char>> {
    es.map_values(|e: ElectionView| prefixed_hex(e.gov_key))
}

/// Recording a vote that the election accepts keeps it well formed.
proof fn lemma_record_in_wf(e: ElectionView, receipt: Seq<u8>, outputs: OutputsView)
    requires
        election_wf(e),
        vote_refusal(e, outputs) is None,
        compressed_sec1(outputs.government_public_key) == Some(e.gov_key),
    ensures
        election_wf(record_in(e, receipt, outputs)),
{
    let k = outputs.public_identity;
    let r = record_in(e, receipt, outputs);
    lemma_insert_sorted(e.receipts, k, receipt);
    lemma_insert_sorted(e.votes, k, outputs);
    lemma_insert_same_keys(e.receipts, e.votes, k, receipt, outputs);
    lemma_insert_entries(e.votes, k, outputs);
    assert forall|i: int| 0 <= i < r.votes.len() implies vote_belongs(r, #[trigger] r.votes[i]) by {
        if r.votes[i] != (k, outputs) {
            let j = choose|j: int| 0 <= j < e.votes.len() && e.votes[j] == r.votes[i];
            assert(vote_belongs(e, e.votes[j]));
        }
    }
}

/// Two entry lists with the same keys still have the same keys after binding
/// the same key in both.
proof fn lemma_insert_same_keys<A, B>(s: Seq<(Seq<u8>, A)>, t: Seq<(Seq<u8>, B)>, k: Seq<u8>, a: A, b: B)
    requires
        s.len() == t.len(),
        forall|i: int| 0 <= i < t.len() ==> (#[trigger] t[i]).0 == s[i].0,
    ensures
        assoc_insert(s, k, a).len() == assoc_insert(t, k, b).len(),
        forall|i: int| 0 <= i < assoc_insert(t, k, b).len() ==>
            (#[trigger] assoc_insert(t, k, b)[i]).0 == assoc_insert(s, k, a)[i].0,
    decreases s.len(),
{
    if s.len() > 0 {
        assert(t[0].0 == s[0].0);
        if s[0].0 != k && !crate::order::lex_lt(k, s[0].0) {
            let s1 = s.drop_first();
            let t1 = t.drop_first();
            assert forall|i: int| 0 <= i < t1.len() implies (#[trigger] t1[i]).0 == s1[i].0 by {
                assert(t1[i] == t[i + 1] && s1[i] == s[i + 1]);
            }
            lemma_insert_same_keys(s1, t1, k, a, b);
            let rs = assoc_insert(s, k, a);
            let rt = assoc_insert(t, k, b);
            assert forall|i: int| 0 <= i < rt.len() implies (#[trigger] rt[i]).0 == rs[i].0 by {
                if i > 0 {
                    assert(rt[i] == assoc_insert(t1, k, b)[i - 1]);
                    assert(rs[i] == assoc_insert(s1, k, a)[i - 1]);
                }
            }
        } else {
            let rs = assoc_insert(s, k, a);
            let rt = assoc_insert(t, k, b);
            assert forall|i: int| 0 <= i < rt.len() implies (#[trigger] rt[i]).0 == rs[i].0 by {
                if i > 0 {
                    if s[0].0 == k {
                        assert(rt[i] == t[i] && rs[i] == s[i]);
                    } else {
                        assert(rt[i] == t[i - 1] && rs[i] == s[i - 1]);
                    }
                }
            }
        }
    }
}

/// The registry of elections.
pub struct MockBlockChainState {
    elections: Vec<Election>,
}

/// Whether `items` holds the byte string `x`.
fn holds_bytes(items: &Vec<Vec<u8>>, x: &[u8]) -> (r: bool)
    ensures
        r == items@.map_values(|s: Vec<u8>| s@).contains(x@),
{
    let ghost views = items@.map_values(|s: Vec<u8>| s@);
    let mut i: usize = 0;
    while i < items.len()
        invariant
            i <= items@.len(),
            views == items@.map_values(|s: Vec<u8>| s@),
            forall|j: int| 0 <= j < i ==> #[trigger] views[j] != x@,
        decreases items@.len() - i,
    {
        assert(views[i as int] == items@[i as int]@);
        match compare_bytes(items[i].as_slice(), x) {
            ByteOrder::Equal => {
                return true;
            },
            _ => {},
        }
        i = i + 1;
    }
    false
}

/// Whether `items` holds the text `x`.
fn holds_string(items: &Vec<String>, x: &String) -> (r: bool)
    ensures
        r == items@.map_values(|s: String| s@).contains(x@),
{
    let ghost views = items@.map_values(|s: String| s@);
    let mut i: usize = 0;
    while i < items.len()
        invariant
            i <= items@.len(),
            views == items@.map_values(|s: String| s@),
            forall|j: int| 0 <= j < i ==> #[trigger] views[j] != x@,
        decreases items@.len() - i,
    {
        assert(views[i as int] == items@[i as int]@);
        if items[i] == *x {
            return true;
        }
        i = i + 1;
    }
    false
}

/// A copy of a list of texts.
fn copy_strings(items: &Vec<String>) -> (r: Vec<String>)
    ensures
        r@.map_values(|s: String| s@) == items@.map_values(|s: String| s@),
{
    let mut r: Vec<String> = Vec::new();
    let mut i: usize = 0;
    while i < items.len()
        invariant
            i <= items@.len(),
            r@.map_values(|s: String| s@) == items@.map_values(|s: String| s@).subrange(0, i as int),
        decreases items@.len() - i,
    {
        let c = items[i].clone();
        let ghost before = r@;
        r.push(c);
        assert(r@.map_values(|s: String| s@) =~= before.map_values(|s: String| s@).push(c@));
        assert(items@.map_values(|s: String| s@).subrange(0, i + 1) =~= items@.map_values(|s: String| s@).subrange(
            0,
            i as int,
        ).push(c@));
        i = i + 1;
    }
    assert(items@.map_values(|s: String| s@).subrange(0, i as int) =~= items@.map_values(|s: String| s@));
    r
}

impl MockBlockChainState {
    /// The elections, by their views.
    pub closed spec fn elections(&self) -> Seq<ElectionView> {
        self.elections@.map_values(|e: Election| e@)
    }

    /// Every election is well formed and no two share a key.
    pub open spec fn wf(&self) -> bool {
        registry_wf(self.elections())
    }

    /// A registry without elections.
    pub fn new() -> (r: Self)
        ensures
            r.elections() == Seq::<ElectionView>::empty(),
            r.wf(),
    {
        let r = MockBlockChainState { elections: Vec::new() };
        assert(r.elections() =~= Seq::<ElectionView>::empty());
        r
    }

    /// Opens an election under the authority key `gov_key`, for the
    /// identities `gov_sigs` and the options `options`, with no votes yet;
    /// refused when an election has that key already.
    pub fn register_election(&mut self, gov_key: PublicKey, gov_sigs: Vec<Vec<u8>>, options: Vec<String>) -> (r:
        Result<(), RegisterError>)
        requires
            old(self).wf(),
        ensures
            final(self).wf(),
            r is Err <==> exists|i: int|
                0 <= i < old(self).elections().len() && (#[trigger] old(self).elections()[i]).gov_key == gov_key@,
            r is Ok ==> final(self).elections() == old(self).elections().push(
                ElectionView {
                    gov_key: gov_key@,
                    gov_sigs: gov_sigs@.map_values(|s: Vec<u8>| s@),
                    options: options@.map_values(|o: String| o@),
                    receipts: Seq::empty(),
                    votes: Seq::empty(),
                },
            ),
            r is Err ==> final(self).elections() == old(self).elections(),
    {
        proof {
            use_type_invariant(&gov_key);
        }
        match self.find_election(&gov_key) {
            Some(_) => {
                return Err(RegisterError::DuplicateElectionKey);
            },
            None => {},
        }
        let e = Election {
            gov_key,
            gov_sigs,
            options,
            receipts: IdentityMap::new(),
            receipt_journals_decoded: IdentityMap::new(),
        };
        let ghost ev = e@;
        assert(election_wf(ev));
        self.elections.push(e);
        assert(self.elections() =~= old(self).elections().push(ev));
        Ok(())
    }

    /// The position of the election with key `key`, if any.
    fn find_election(&self, key: &PublicKey) -> (r: Option<usize>)
        ensures
            match r {
                Some(i) => i < self.elections().len() && self.elections()[i as int].gov_key == key@,
                None => forall|j: int| 0 <= j < self.elections().len() ==> (#[trigger] self.elections()[j]).gov_key != key@,
            },
    {
        let mut i: usize = 0;
        while i < self.elections.len()
            invariant
                i <= self.elections@.len(),
                forall|j: int| 0 <= j < i ==> (#[trigger] self.elections()[j]).gov_key != key@,
            decreases self.elections@.len() - i,
        {
            assert(self.elections()[i as int] == self.elections@[i as int]@);
            if self.elections[i].gov_key.same_key(key) {
                return Some(i);
            }
            i = i + 1;
        }
        None
    }

    /// Records the vote `outputs`, proven by `receipt`, in the election whose
    /// key is the vote's election key, when that election authorized the
    /// vote's identity, the identity has not voted there yet, and the choice is
    /// one of its options; otherwise nothing changes and the reason is given.
    pub fn record_vote(&mut self, outputs: CircuitOutputs, receipt: Vec<u8>) -> (r: Result<(), RecordError>)
        requires
            old(self).wf(),
        ensures
            final(self).wf(),
            match record_outcome(old(self).elections(), receipt@, outputs@) {
                Ok(es) => r is Ok && final(self).elections() == es,
                Err(e) => r == Err::<(), RecordError>(e) && final(self).elections() == old(self).elections(),
            },
    {
        let ghost es = self.elections();
        let key = match outputs.deserialized_government_public_key() {
            Some(k) => k,
            None => {
                return Err(RecordError::InvalidGovernmentKey);
            },
        };
        let i = match self.find_election(&key) {
            Some(i) => i,
            None => {
                return Err(RecordError::UnknownElection);
            },
        };
        proof {
            let j = choose|j: int| 0 <= j < es.len() && (#[trigger] es[j]).gov_key == key@;
            if j != i {
                if j < i {
                    assert(es[j].gov_key != es[i as int].gov_key);
                } else {
                    assert(es[i as int].gov_key != es[j].gov_key);
                }
            }
            assert(election_of(es, key@) == Some(i as int));
            assert(self.elections()[i as int] == self.elections@[i as int]@);
        }
        if !holds_bytes(&self.elections[i].gov_sigs, outputs.public_identity.as_slice()) {
            return Err(RecordError::UnauthorizedIdentity);
        }
        if self.elections[i].receipt_journals_decoded.contains_key(outputs.public_identity.as_slice()) {
            return Err(RecordError::AlreadyVoted);
        }
        if !holds_string(&self.elections[i].options, &outputs.choice) {
            return Err(RecordError::UnknownOption);
        }
        let ghost vec_before = self.elections@;
        let election = &mut self.elections[i];
        election.receipts.insert(copy_bytes(&outputs.public_identity), copy_bytes(&receipt));
        election.receipt_journals_decoded.insert(copy_bytes(&outputs.public_identity), outputs.duplicate());
        proof {
            let target = es.update(i as int, record_in(es[i as int], receipt@, outputs@));
            assert forall|j: int| 0 <= j < es.len() && j != i implies #[trigger] self.elections()[j] == es[j] by {
                assert(self.elections@[j] == vec_before[j]);
            }
            assert(self.elections()[i as int] =~~= record_in(es[i as int], receipt@, outputs@));
            assert(self.elections() =~= target);
            lemma_record_in_wf(es[i as int], receipt@, outputs@);
            assert forall|a: int, b: int| 0 <= a < b < target.len() implies (#[trigger] target[a]).gov_key
                != (#[trigger] target[b]).gov_key by {
                assert(target[a].gov_key == es[a].gov_key);
                assert(target[b].gov_key == es[b].gov_key);
            }
        }
        Ok(())
    }
}

impl MockBlockChainState {
    /// The votes recorded in the elections with key `gov_key`, election by
    /// election and, within one, in identity order; `None` when there are none.
    pub fn fetch_census_votes(&self, gov_key: &PublicKey) -> (r: Option<Vec<CircuitOutputs>>)
        ensures
            match r {
                Some(v) => v@.map_values(|o: CircuitOutputs| o@) == census_votes(self.elections(), gov_key@)
                    && v@.len() > 0,
                None => census_votes(self.elections(), gov_key@).len() == 0,
            },
    {
        let ghost es = self.elections();
        let mut votes: Vec<CircuitOutputs> = Vec::new();
        let n = self.elections.len();
        let mut i: usize = 0;
        while i < n
            invariant
                n == es.len(),
                i <= n,
                es == self.elections(),
                votes@.map_values(|o: CircuitOutputs| o@) == census_votes(es.subrange(0, i as int), gov_key@),
            decreases n - i,
        {
            let election = &self.elections[i];
            assert(es[i as int] == election@);
            let ghost prefix = votes@.map_values(|o: CircuitOutputs| o@);
            if election.gov_key.same_key(gov_key) {
                let m = election.receipt_journals_decoded.len();
                let mut j: usize = 0;
                while j < m
                    invariant
                        m == election@.votes.len(),
                        j <= m,
                        votes@.map_values(|o: CircuitOutputs| o@)
                            == prefix + assoc_values(election@.votes).subrange(0, j as int),
                    decreases m - j,
                {
                    let o = election.receipt_journals_decoded.value_at(j).duplicate();
                    assert(o@ == assoc_values(election@.votes)[j as int]);
                    let ghost before = votes@;
                    votes.push(o);
                    assert(votes@.map_values(|o: CircuitOutputs| o@) =~= before.map_values(|o: CircuitOutputs| o@).push(o@));
                    assert(votes@.map_values(|o: CircuitOutputs| o@) =~= prefix + assoc_values(
                        election@.votes,
                    ).subrange(0, j + 1));
                    j = j + 1;
                }
                assert(assoc_values(election@.votes).subrange(0, m as int) =~= assoc_values(election@.votes));
            }
            proof {
                let next = es.subrange(0, i + 1);
                assert(next.drop_last() =~= es.subrange(0, i as int));
                assert(next.last() == es[i as int]);
                if es[i as int].gov_key != gov_key@ {
                    assert(votes@.map_values(|o: CircuitOutputs| o@) =~= prefix + Seq::<OutputsView>::empty());
                }
            }
            i = i + 1;
        }
        assert(es.subrange(0, n as int) =~= es);
        if votes.len() == 0 {
            None
        } else {
            Some(votes)
        }
    }

    /// The ids of all elections: each key as `"0x"` and hexadecimal text.
    pub fn get_all_gov_keys(&self) -> (r: Vec<String>)
        ensures
            r@.map_values(|s: String| s@) == election_ids(self.elections()),
    {
        let mut ids: Vec<String> = Vec::new();
        let mut i: usize = 0;
        while i < self.elections.len()
            invariant
                i <= self.elections@.len(),
                ids@.map_values(|s: String| s@) == election_ids(self.elections()).subrange(0, i as int),
            decreases self.elections@.len() - i,
        {
            let id = to_hex_with_prefix(&self.elections[i].gov_key);
            assert(election_ids(self.elections())[i as int] == id@);
            let ghost before = ids@;
            ids.push(id);
            assert(ids@.map_values(|s: String| s@) =~= before.map_values(|s: String| s@).push(id@));
            assert(ids@.map_values(|s: String| s@) =~= election_ids(self.elections()).subrange(0, i + 1));
            i = i + 1;
        }
        assert(election_ids(self.elections()).subrange(0, i as int) =~= election_ids(self.elections()));
        ids
    }
}

/// Why a receipt leaves the registry unchanged.
#[derive(PartialEq, Eq, Structural, Clone, Copy, Debug)]
pub enum ProcessError {
    /// The receipt was refused.
    Receipt(ReceiptError),
    /// The receipt's vote was refused.
    Record(RecordError),
}

/// Why an election could not be opened.
#[derive(PartialEq, Eq, Structural, Clone, Copy, Debug)]
pub enum RegisterError {
    /// An election has that key already.
    DuplicateElectionKey,
}

/// Why the initial elections could not be set up.
#[derive(PartialEq, Eq, Structural, Clone, Copy, Debug)]
pub enum SetupError {
    /// Issuing an identity failed: the signing operation reported an error.
    SigningFailed,
    /// Two authorities drew the same key.
    DuplicateElectionKey,
    /// Two voters of an election drew the same key or got the same identity.
    DuplicateVoter,
}

/// How many elections the service starts with.
pub const ELECTIONS: usize = 2;

/// How many voters each initial election authorizes.
pub const VOTERS_PER_ELECTION: usize = 5;

/// A voter of an initial election: the voter's key pair and the credential
/// the election's authority issued to it.
pub struct VoterAccount {
    pub key_pair: KeyPair,
    pub credential: VerifiedUser,
}

/// The accounts of an initial election: its authority's key pair and its
/// voters.
pub struct ElectionAccounts {
    pub authority: KeyPair,
    pub voters: Vec<VoterAccount>,
}

/// A voter's key pair matches, and its credential is the election's key and
/// the authority's signature over the voter's key followed by that key.
pub open spec fn voter_account_valid(v: VoterAccount, authority: KeyPair) -> bool {
    &&& secret_public_key(v.key_pair.secret_key@) == Some(v.key_pair.public_key@)
    &&& is_compressed_key(v.key_pair.public_key@)
    &&& v.credential.government_public_key@ == authority.public_key@
    &&& ecdsa_signature(authority.secret_key@, identity_payload(v.key_pair.public_key@, authority.public_key@))
        == Some(v.credential.public_identity@)
    &&& ecdsa_accepts(
        authority.public_key@,
        identity_payload(v.key_pair.public_key@, authority.public_key@),
        v.credential.public_identity@,
    )
}

/// The authority's key pair matches, and there are as many valid voters as
/// an initial election authorizes.
pub open spec fn accounts_valid(a: ElectionAccounts) -> bool {
    &&& secret_public_key(a.authority.secret_key@) == Some(a.authority.public_key@)
    &&& is_compressed_key(a.authority.public_key@)
    &&& a.voters@.len() == VOTERS_PER_ELECTION
    &&& forall|j: int| 0 <= j < a.voters@.len() ==> voter_account_valid(#[trigger] a.voters@[j], a.authority)
    &&& voters_distinct(a.voters@)
}

/// No two voters share a key or a public identity.
pub open spec fn voters_distinct(voters: Seq<VoterAccount>) -> bool {
    forall|j: int, m: int|
        0 <= j < voters.len() && 0 <= m < voters.len() && j != m ==> {
            &&& (#[trigger] voters[j]).key_pair.public_key@ != (#[trigger] voters[m]).key_pair.public_key@
            &&& voters[j].credential.public_identity@ != voters[m].credential.public_identity@
        }
}

/// Whether a new voter's key and identity differ from every voter's so far.
fn differs_from_voters(voters: &Vec<VoterAccount>, key: &PublicKey, identity: &Vec<u8>) -> (r: bool)
    ensures
        r == forall|j: int|
            0 <= j < voters@.len() ==> (#[trigger] voters@[j]).key_pair.public_key@ != key@
                && voters@[j].credential.public_identity@ != identity@,
{
    let mut j: usize = 0;
    while j < voters.len()
        invariant
            j <= voters@.len(),
            forall|m: int|
                0 <= m < j ==> (#[trigger] voters@[m]).key_pair.public_key@ != key@
                    && voters@[m].credential.public_identity@ != identity@,
        decreases voters@.len() - j,
    {
        if voters[j].key_pair.public_key.same_key(key) {
            return false;
        }
        match compare_bytes(voters[j].credential.public_identity.as_slice(), identity.as_slice()) {
            ByteOrder::Equal => {
                return false;
            },
            _ => {},
        }
        j = j + 1;
    }
    true
}

/// The election that the accounts open: the authority's key, the voters'
/// public identities, the options, and no votes.
pub open spec fn accounts_election(a: ElectionAccounts, options: Seq<Seq<char>>) -> ElectionView {
    ElectionView {
        gov_key: a.authority.public_key@,
        gov_sigs: a.voters@.map_values(|v: VoterAccount| v.credential.public_identity@),
        options,
        receipts: Seq::empty(),
        votes: Seq::empty(),
    }
}

/// A fresh authority and its voters, each with an identity issued by the
/// authority, no two voters alike. Fails where signing fails or two voters
/// draw the same key or get the same identity.
fn new_election_accounts() -> (r: Result<ElectionAccounts, SetupError>)
    ensures
        r matches Ok(a) ==> accounts_valid(a),
{
    let authority = generate_key_pair();
    let mut voters: Vec<VoterAccount> = Vec::new();
    let mut j: usize = 0;
    while j < VOTERS_PER_ELECTION
        invariant
            j <= VOTERS_PER_ELECTION,
            voters@.len() == j,
            secret_public_key(authority.secret_key@) == Some(authority.public_key@),
            forall|k: int| 0 <= k < j ==> voter_account_valid(#[trigger] voters@[k], authority),
            voters_distinct(voters@),
        decreases VOTERS_PER_ELECTION - j,
    {
        let key_pair = generate_key_pair();
        let credential = match issue_identity(
            &authority.secret_key,
            authority.public_key.as_bytes(),
            key_pair.public_key.as_bytes(),
        ) {
            Some(c) => c,
            None => {
                return Err(SetupError::SigningFailed);
            },
        };
        if !differs_from_voters(&voters, &key_pair.public_key, &credential.public_identity) {
            return Err(SetupError::DuplicateVoter);
        }
        let ghost before = voters@;
        voters.push(VoterAccount { key_pair, credential });
        proof {
            assert forall|a: int, b: int|
                0 <= a < voters@.len() && 0 <= b < voters@.len() && a != b implies {
                &&& (#[trigger] voters@[a]).key_pair.public_key@ != (#[trigger] voters@[b]).key_pair.public_key@
                &&& voters@[a].credential.public_identity@ != voters@[b].credential.public_identity@
            } by {
                if a < j && b < j {
                    assert(voters@[a] == before[a] && voters@[b] == before[b]);
                } else if a < j {
                    assert(voters@[a] == before[a]);
                } else {
                    assert(voters@[b] == before[b]);
                }
            }
        }
        j = j + 1;
    }
    Ok(ElectionAccounts { authority, voters })
}

/// The public identities of the voters.
fn voter_identities(voters: &Vec<VoterAccount>) -> (r: Vec<Vec<u8>>)
    ensures
        r@.map_values(|s: Vec<u8>| s@) == voters@.map_values(|v: VoterAccount| v.credential.public_identity@),
{
    let mut r: Vec<Vec<u8>> = Vec::new();
    let mut i: usize = 0;
    while i < voters.len()
        invariant
            i <= voters@.len(),
            r@.map_values(|s: Vec<u8>| s@) == voters@.map_values(|v: VoterAccount| v.credential.public_identity@)
                .subrange(0, i as int),
        decreases voters@.len() - i,
    {
        let id = copy_bytes(&voters[i].credential.public_identity);
        let ghost before = r@;
        r.push(id);
        assert(r@.map_values(|s: Vec<u8>| s@) =~= before.map_values(|s: Vec<u8>| s@).push(id@));
        assert(voters@.map_values(|v: VoterAccount| v.credential.public_identity@).subrange(0, i + 1)
            =~= voters@.map_values(|v: VoterAccount| v.credential.public_identity@).subrange(0, i as int).push(id@));
        i = i + 1;
    }
    assert(voters@.map_values(|v: VoterAccount| v.credential.public_identity@).subrange(0, i as int)
        =~= voters@.map_values(|v: VoterAccount| v.credential.public_identity@));
    r
}

/// The state of the registry service.
pub struct AppState {
    state: MockBlockChainState,
}

impl AppState {
    /// The elections, by their views.
    pub closed spec fn elections(&self) -> Seq<ElectionView> {
        self.state.elections()
    }

    /// Every election is well formed and no two share a key.
    pub open spec fn wf(&self) -> bool {
        registry_wf(self.elections())
    }

    /// The service with one election per entry of `accounts`, in order: each
    /// named by its authority's key, for its voters' public identities and the
    /// options `options`, with no votes. Refused when two authorities share a
    /// key.
    pub fn with_elections(accounts: &Vec<ElectionAccounts>, options: &Vec<String>) -> (r: Result<
        AppState,
        RegisterError,
    >)
        ensures
            match r {
                Ok(s) => s.wf() && s.elections() == accounts@.map_values(
                    |a: ElectionAccounts| accounts_election(a, options@.map_values(|o: String| o@)),
                ),
                Err(RegisterError::DuplicateElectionKey) => exists|i: int, j: int|
                    0 <= i < j < accounts@.len() && (#[trigger] accounts@[i]).authority.public_key@
                        == (#[trigger] accounts@[j]).authority.public_key@,
            },
    {
        let ghost opts = options@.map_values(|o: String| o@);
        let ghost target = accounts@.map_values(|a: ElectionAccounts| accounts_election(a, opts));
        let mut state = MockBlockChainState::new();
        let mut k: usize = 0;
        while k < accounts.len()
            invariant
                k <= accounts@.len(),
                state.wf(),
                opts == options@.map_values(|o: String| o@),
                target == accounts@.map_values(|a: ElectionAccounts| accounts_election(a, opts)),
                state.elections() == target.subrange(0, k as int),
            decreases accounts@.len() - k,
        {
            let a = &accounts[k];
            let sigs = voter_identities(&a.voters);
            let ghost before = state.elections();
            match state.register_election(a.authority.public_key.duplicate(), sigs, copy_strings(options)) {
                Ok(()) => {},
                Err(e) => {
                    proof {
                        let i = choose|i: int| 0 <= i < before.len() && (#[trigger] before[i]).gov_key
                            == a.authority.public_key@;
                        assert(before[i] == target[i]);
                        assert(accounts@[i].authority.public_key@ == accounts@[k as int].authority.public_key@);
                    }
                    return Err(e);
                },
            }
            proof {
                assert(state.elections()[k as int] == target[k as int]);
                assert(state.elections() =~= target.subrange(0, k + 1));
            }
            k = k + 1;
        }
        proof {
            assert(target.subrange(0, k as int) =~= target);
        }
        Ok(AppState { state })
    }

    /// The service as it starts: two elections, each with a fresh authority
    /// whose key names it and five fresh voters it authorized, all with the
    /// options `options` and no votes. Returns the state and the elections'
    /// accounts, in the order of the elections.
    ///
    /// The keys are drawn at random, so which outcome comes is not stated:
    /// setting up fails only where an authority's signing reports an error,
    /// two authorities draw the same key, or two voters of an election draw the
    /// same key or get the same identity.
    pub fn new(options: Vec<String>) -> (r: Result<(AppState, Vec<ElectionAccounts>), SetupError>)
        ensures
            r matches Ok((s, accounts)) ==> {
                &&& s.wf()
                &&& s.elections().len() == ELECTIONS
                &&& accounts@.len() == ELECTIONS
                &&& forall|k: int|
                    0 <= k < ELECTIONS ==> accounts_valid(#[trigger] accounts@[k]) && s.elections()[k]
                        == accounts_election(accounts@[k], options@.map_values(|o: String| o@))
            },
    {
        let mut accounts: Vec<ElectionAccounts> = Vec::new();
        let mut k: usize = 0;
        while k < ELECTIONS
            invariant
                k <= ELECTIONS,
                accounts@.len() == k,
                forall|j: int| 0 <= j < k ==> accounts_valid(#[trigger] accounts@[j]),
            decreases ELECTIONS - k,
        {
            match new_election_accounts() {
                Ok(a) => {
                    accounts.push(a);
                },
                Err(e) => {
                    return Err(e);
                },
            }
            k = k + 1;
        }
        match AppState::with_elections(&accounts, &options) {
            Ok(s) => Ok((s, accounts)),
            Err(_) => Err(SetupError::DuplicateElectionKey),
        }
    }

    /// Takes a serialized receipt and whether its proof verified against the
    /// vote circuit's image id. A receipt whose proof failed, or whose journal
    /// holds no vote, is refused; otherwise its vote is recorded as
    /// `MockBlockChainState::record_vote` records it, under its public
    /// identity, with the receipt.
    pub fn process_receipt(&mut self, receipt: Vec<u8>, proof_verified: bool) -> (r: Result<(), ProcessError>)
        requires
            old(self).wf(),
        ensures
            final(self).wf(),
            match receipt_verdict(receipt@, proof_verified) {
                Err(e) => r == Err::<(), ProcessError>(ProcessError::Receipt(e)) && final(self).elections()
                    == old(self).elections(),
                Ok(o) => match record_outcome(old(self).elections(), receipt@, o) {
                    Ok(es) => r is Ok && final(self).elections() == es,
                    Err(e) => r == Err::<(), ProcessError>(ProcessError::Record(e)) && final(self).elections()
                        == old(self).elections(),
                },
            },
    {
        match verify_receipt(receipt.as_slice(), proof_verified) {
            Ok(outputs) => match self.state.record_vote(outputs, receipt) {
                Ok(()) => Ok(()),
                Err(e) => Err(ProcessError::Record(e)),
            },
            Err(e) => Err(ProcessError::Receipt(e)),
        }
    }

    /// The votes recorded in the elections with key `gov_key`, election by
    /// election and in identity order; `None` when there are none.
    pub fn fetch_census_votes(&self, gov_key: &PublicKey) -> (r: Option<Vec<CircuitOutputs>>)
        ensures
            match r {
                Some(v) => v@.map_values(|o: CircuitOutputs| o@) == census_votes(self.elections(), gov_key@)
                    && v@.len() > 0,
                None => census_votes(self.elections(), gov_key@).len() == 0,
            },
    {
        self.state.fetch_census_votes(gov_key)
    }

    /// The ids of all elections: each key as `"0x"` and hexadecimal text.
    pub fn get_all_gov_keys(&self) -> (r: Vec<String>)
        ensures
            r@.map_values(|s: String| s@) == election_ids(self.elections()),
    {
        self.state.get_all_gov_keys()
    }

    /// The votes recorded for the election whose id is given: its key's
    /// SEC1 encoding as hexadecimal text, `"0x"` optional.
    pub fn fetch_votes(&self, election_id: &str) -> (r: Result<Option<Vec<CircuitOutputs>>, ElectionIdError>)
        ensures
            match hex_decoding(strip_hex_prefix(vstd::utf8::encode_utf8(election_id@))) {
                Err(e) => r == Err::<Option<Vec<CircuitOutputs>>, ElectionIdError>(ElectionIdError::Hex(e)),
                Ok(bytes) => match compressed_sec1(bytes) {
                    None => r == Err::<Option<Vec<CircuitOutputs>>, ElectionIdError>(ElectionIdError::InvalidKey),
                    Some(key) => match r {
                        Ok(Some(v)) => v@.map_values(|o: CircuitOutputs| o@) == census_votes(self.elections(), key)
                            && v@.len() > 0,
                        Ok(None) => census_votes(self.elections(), key).len() == 0,
                        Err(_) => false,
                    },
                },
            },
    {
        let bytes = match from_hex_with_prefix(election_id) {
            Ok(b) => b,
            Err(e) => {
                return Err(ElectionIdError::Hex(e));
            },
        };
        match PublicKey::from_sec1_bytes(bytes.as_slice()) {
            Some(key) => Ok(self.fetch_census_votes(&key)),
            None => Err(ElectionIdError::InvalidKey),
        }
    }
}

/// Why an election id names no election key.
#[derive(PartialEq, Eq, Structural, Clone, Copy, Debug)]
pub enum ElectionIdError {
    /// The id is no hexadecimal text.
    Hex(HexError),
    /// The id decodes to bytes that are no valid key.
    InvalidKey,
}

/// Why a vote whose proof verified is not recorded.
#[derive(PartialEq, Eq, Structural, Clone, Copy, Debug)]
pub enum RecordError {
    /// The vote's election key is no valid point.
    InvalidGovernmentKey,
    /// No election has the vote's election key.
    UnknownElection,
    /// The election did not authorize the vote's public identity.
    UnauthorizedIdentity,
    /// The vote's public identity has voted in the election already.
    AlreadyVoted,
    /// The vote's choice is not one of the election's options.
    UnknownOption,
}

} // verus!

verus! {

/// The census of a key does not change when an election with another key is
/// replaced by one with the same key.
proof fn lemma_census_update(es: Seq<ElectionView>, i: int, e: ElectionView, other: Seq<u8>)
    requires
        0 <= i < es.len(),
        e.gov_key == es[i].gov_key,
        es[i].gov_key != other,
    ensures
        census_votes(es.update(i, e), other) == census_votes(es, other),
    decreases es.len(),
{
    let us = es.update(i, e);
    if i == es.len() - 1 {
        assert(us.drop_last() =~= es.drop_last());
    } else {
        assert(us.drop_last() =~= es.drop_last().update(i, e));
        lemma_census_update(es.drop_last(), i, e, other);
        assert(us.last() == es.last());
    }
}

/// A vote of an election with key `key` is among the votes fetched for `key`.
proof fn lemma_census_contains(es: Seq<ElectionView>, i: int, key: Seq<u8>, v: OutputsView)
    requires
        0 <= i < es.len(),
        es[i].gov_key == key,
        assoc_values(es[i].votes).contains(v),
    ensures
        census_votes(es, key).contains(v),
    decreases es.len(),
{
    let prefix = census_votes(es.drop_last(), key);
    if i == es.len() - 1 {
        let vs = assoc_values(es.last().votes);
        let m = choose|m: int| 0 <= m < vs.len() && vs[m] == v;
        assert((prefix + vs)[prefix.len() + m] == v);
    } else {
        assert(es.drop_last()[i] == es[i]);
        lemma_census_contains(es.drop_last(), i, key, v);
        let m = choose|m: int| 0 <= m < prefix.len() && prefix[m] == v;
        let rest = if es.last().gov_key == key { assoc_values(es.last().votes) } else { Seq::empty() };
        assert((prefix + rest)[m] == v);
    }
}

/// In a well-formed registry the election that a key names is the only one
/// with that key.
proof fn lemma_election_of_unique(es: Seq<ElectionView>, key: Seq<u8>, i: int)
    requires
        registry_wf(es),
        0 <= i < es.len(),
        es[i].gov_key == key,
    ensures
        election_of(es, key) == Some(i),
{
    let j = choose|j: int| 0 <= j < es.len() && (#[trigger] es[j]).gov_key == key;
    if j < i {
        assert(es[j].gov_key != es[i].gov_key);
    } else if i < j {
        assert(es[i].gov_key != es[j].gov_key);
    }
}

/// Each authorized identity votes once per election: once a vote is
/// recorded, a later vote of the same identity for the same election is
/// refused as `AlreadyVoted` (and a refused vote changes nothing), so the
/// first vote stands.
pub proof fn lemma_first_vote_counts(
    es: Seq<ElectionView>,
    receipt1: Seq<u8>,
    outputs1: OutputsView,
    receipt2: Seq<u8>,
    outputs2: OutputsView,
)
    requires
        registry_wf(es),
        outputs2.public_identity == outputs1.public_identity,
        compressed_sec1(outputs2.government_public_key) == compressed_sec1(outputs1.government_public_key),
    ensures
        record_outcome(es, receipt1, outputs1) matches Ok(es1) ==> record_outcome(es1, receipt2, outputs2)
            == Err::<Seq<ElectionView>, RecordError>(RecordError::AlreadyVoted),
{
    if let Ok(es1) = record_outcome(es, receipt1, outputs1) {
        let key = compressed_sec1(outputs1.government_public_key)->0;
        let i = election_of(es, key)->0;
        let id = outputs1.public_identity;
        assert(es1 == es.update(i, record_in(es[i], receipt1, outputs1)));
        assert(es[i].gov_key == key);
        assert forall|a: int, b: int| 0 <= a < b < es1.len() implies (#[trigger] es1[a]).gov_key
            != (#[trigger] es1[b]).gov_key by {
            assert(es1[a].gov_key == es[a].gov_key && es1[b].gov_key == es[b].gov_key);
        }
        let j = choose|j: int| 0 <= j < es1.len() && (#[trigger] es1[j]).gov_key == key;
        assert(es1[i].gov_key == key);
        if j != i {
            assert(es1[j].gov_key == es[j].gov_key);
            if j < i {
                assert(es[j].gov_key != es[i].gov_key);
            } else {
                assert(es[i].gov_key != es[j].gov_key);
            }
        }
        assert(election_of(es1, key) == Some(i));
        crate::identity_map::lemma_insert_lookup(es[i].votes, id, outputs1, id);
    }
}

/// A vote that the election with its key accepts is recorded: an
/// authorized identity that has not voted yet, choosing one of the options.
pub proof fn lemma_authorized_vote_is_recorded(es: Seq<ElectionView>, receipt: Seq<u8>, outputs: OutputsView, i: int)
    requires
        registry_wf(es),
        0 <= i < es.len(),
        compressed_sec1(outputs.government_public_key) == Some(es[i].gov_key),
        es[i].gov_sigs.contains(outputs.public_identity),
        es[i].options.contains(outputs.choice),
        assoc_lookup(es[i].votes, outputs.public_identity) is None,
    ensures
        record_outcome(es, receipt, outputs) == Ok::<Seq<ElectionView>, RecordError>(
            es.update(i, record_in(es[i], receipt, outputs)),
        ),
{
    lemma_election_of_unique(es, es[i].gov_key, i);
}

/// Every recorded vote is one the election accepts: by an identity it
/// authorized, for one of its options, under its own key.
pub proof fn lemma_recorded_votes_are_authorized(es: Seq<ElectionView>, k: int, i: int)
    requires
        registry_wf(es),
        0 <= k < es.len(),
        0 <= i < es[k].votes.len(),
    ensures
        es[k].gov_sigs.contains(es[k].votes[i].1.public_identity),
        es[k].options.contains(es[k].votes[i].1.choice),
        compressed_sec1(es[k].votes[i].1.government_public_key) == Some(es[k].gov_key),
{
    assert(election_wf(es[k]));
    assert(vote_belongs(es[k], es[k].votes[i]));
}

/// Every public identity has at most one vote in a well-formed election, and
/// recording a vote the election accepts adds exactly one, under its identity.
pub proof fn lemma_one_vote_per_identity(e: ElectionView, receipt: Seq<u8>, outputs: OutputsView)
    requires
        election_wf(e),
        vote_refusal(e, outputs) is None,
    ensures
        forall|i: int, j: int|
            0 <= i < e.votes.len() && 0 <= j < e.votes.len() && i != j ==> e.votes[i].0 != e.votes[j].0,
        record_in(e, receipt, outputs).votes.len() == e.votes.len() + 1,
        assoc_lookup(record_in(e, receipt, outputs).votes, outputs.public_identity) == Some(outputs),
{
    crate::identity_map::lemma_sorted_keys_distinct(e.votes);
    crate::identity_map::lemma_insert_len(e.votes, outputs.public_identity, outputs);
    crate::identity_map::lemma_insert_lookup(e.votes, outputs.public_identity, outputs, outputs.public_identity);
}

/// A voter of a freshly opened election who votes for one of its options,
/// with inputs that the vote circuit accepts under the election's key and the
/// voter's issued identity, has the vote the circuit commits to recorded once
/// a receipt carrying it has its proof verified.
pub proof fn lemma_voter_vote_is_recorded(
    es: Seq<ElectionView>,
    k: int,
    a: ElectionAccounts,
    options: Seq<Seq<char>>,
    j: int,
    inputs: InputsView,
    receipt: Seq<u8>,
)
    requires
        registry_wf(es),
        0 <= k < es.len(),
        accounts_valid(a),
        es[k] == accounts_election(a, options),
        0 <= j < a.voters@.len(),
        inputs.government_public_key == a.authority.public_key@,
        inputs.public_identity == a.voters@[j].credential.public_identity@,
        options.contains(inputs.choice),
        circuit_result(inputs) matches Ok(o) && receipt_outputs(receipt) == Some(o),
    ensures
        circuit_result(inputs) matches Ok(o) ==> {
            &&& receipt_verdict(receipt, true) == Ok::<OutputsView, ReceiptError>(o)
            &&& record_outcome(es, receipt, o) == Ok::<Seq<ElectionView>, RecordError>(
                es.update(k, record_in(es[k], receipt, o)),
            )
        },
{
    if let Ok(o) = circuit_result(inputs) {
        let sigs = a.voters@.map_values(|v: VoterAccount| v.credential.public_identity@);
        assert(sigs[j] == o.public_identity);
        assert(es[k].votes =~= Seq::<(Seq<u8>, OutputsView)>::empty());
        lemma_authorized_vote_is_recorded(es, receipt, o, k);
    }
}

/// Every voter of a freshly opened election can vote: once one of its voters
/// has voted, any other of its voters, for any of its options, is still
/// recorded, because no two voters share a public identity.
pub proof fn lemma_each_voter_can_vote(
    es: Seq<ElectionView>,
    k: int,
    a: ElectionAccounts,
    options: Seq<Seq<char>>,
    j: int,
    m: int,
    receipt1: Seq<u8>,
    outputs1: OutputsView,
    receipt2: Seq<u8>,
    outputs2: OutputsView,
)
    requires
        registry_wf(es),
        0 <= k < es.len(),
        accounts_valid(a),
        es[k] == accounts_election(a, options),
        0 <= j < a.voters@.len(),
        0 <= m < a.voters@.len(),
        j != m,
        outputs1.public_identity == a.voters@[j].credential.public_identity@,
        outputs2.public_identity == a.voters@[m].credential.public_identity@,
        compressed_sec1(outputs1.government_public_key) == Some(a.authority.public_key@),
        compressed_sec1(outputs2.government_public_key) == Some(a.authority.public_key@),
        options.contains(outputs1.choice),
        options.contains(outputs2.choice),
    ensures
        record_outcome(es, receipt1, outputs1) matches Ok(es1) && record_outcome(es1, receipt2, outputs2) is Ok,
{
    let sigs = a.voters@.map_values(|v: VoterAccount| v.credential.public_identity@);
    assert(sigs[j] == outputs1.public_identity);
    assert(sigs[m] == outputs2.public_identity);
    assert(es[k].votes =~= Seq::<(Seq<u8>, OutputsView)>::empty());
    lemma_authorized_vote_is_recorded(es, receipt1, outputs1, k);
    let es1 = es.update(k, record_in(es[k], receipt1, outputs1));
    lemma_record_in_wf(es[k], receipt1, outputs1);
    assert forall|x: int, y: int| 0 <= x < y < es1.len() implies (#[trigger] es1[x]).gov_key
        != (#[trigger] es1[y]).gov_key by {
        assert(es1[x].gov_key == es[x].gov_key && es1[y].gov_key == es[y].gov_key);
    }
    assert(outputs1.public_identity != outputs2.public_identity);
    crate::identity_map::lemma_insert_lookup(es[k].votes, outputs1.public_identity, outputs1, outputs2.public_identity);
    lemma_authorized_vote_is_recorded(es1, receipt2, outputs2, k);
}

/// A recorded vote is among the votes fetched for its election key.
pub proof fn lemma_recorded_vote_is_fetched(es: Seq<ElectionView>, receipt: Seq<u8>, outputs: OutputsView)
    ensures
        record_outcome(es, receipt, outputs) matches Ok(es1) ==> census_votes(
            es1,
            compressed_sec1(outputs.government_public_key)->0,
        ).contains(outputs),
{
    if let Ok(es1) = record_outcome(es, receipt, outputs) {
        let key = compressed_sec1(outputs.government_public_key)->0;
        let i = election_of(es, key)->0;
        let e1 = record_in(es[i], receipt, outputs);
        assert(es1[i] == e1);
        crate::identity_map::lemma_insert_lookup(es[i].votes, outputs.public_identity, outputs, outputs.public_identity);
        crate::identity_map::lemma_lookup_in_values(e1.votes, outputs.public_identity, outputs);
        lemma_census_contains(es1, i, key, outputs);
    }
}

/// Recording a vote leaves the votes fetched for any other election key
/// unchanged.
pub proof fn lemma_other_elections_unchanged(
    es: Seq<ElectionView>,
    receipt: Seq<u8>,
    outputs: OutputsView,
    other: Seq<u8>,
)
    requires
        compressed_sec1(outputs.government_public_key) != Some(other),
    ensures
        record_outcome(es, receipt, outputs) matches Ok(es1) ==> census_votes(es1, other) == census_votes(es, other),
{
    if let Ok(es1) = record_outcome(es, receipt, outputs) {
        let key = compressed_sec1(outputs.government_public_key)->0;
        let i = election_of(es, key)->0;
        lemma_census_update(es, i, record_in(es[i], receipt, outputs), other);
    }
}

} // verus!
