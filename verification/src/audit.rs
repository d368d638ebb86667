//! Auditing an election from a list of receipts: every proof is checked,
//! receipts whose proof fails are flagged, and the votes of the election
//! that remain are tallied, one per public identity.

use vstd::prelude::*;
use crate::crypto::{PublicKey, compressed_sec1};
use crate::dashboard::{tally_of, tally_view, tally_votes};
use crate::identity_map::{IdentityMap, assoc_insert, assoc_lookup, assoc_values, sorted_entries};
use crate::receipts::{ReceiptError, receipt_verdict, verify_receipt};
use crate::types::OutputsView;

verus! {

/// The result of an audit: the tally of the election's legitimate votes, the
/// positions of the receipts that were refused, and the positions of the
/// accepted receipts of the election whose public identity had voted already.
pub struct AuditReport {
    pub tally: Vec<(String, u64)>,
    pub rejected: Vec<usize>,
    pub repeated: Vec<usize>,
}

/// The positions, in order, of the receipts that are refused, given whether
/// each one's proof verified: those whose proof failed or whose journal holds
/// no vote.
pub open spec fn rejected_positions(receipts: Seq<Seq<u8>>, verified: Seq<bool>) -> Seq<usize>
    decreases receipts.len(),
{
    if receipts.len() == 0 {
        Seq::empty()
    } else {
        let prev = rejected_positions(receipts.drop_last(), verified);
        let i = receipts.len() - 1;
        if receipt_verdict(receipts.last(), verified[i]) is Ok {
            prev
        } else {
            prev.push(i as usize)
        }
    }
}

/// The legitimate votes of the election with key `key` among `receipts`,
/// given whether each one's proof verified: per public identity, the choice of
/// its first accepted receipt for that election, in identity order.
pub open spec fn audited_votes(receipts: Seq<Seq<u8>>, verified: Seq<bool>, key: Seq<u8>) -> Seq<
    (Seq<u8>, Seq<char>),
>
    decreases receipts.len(),
{
    if receipts.len() == 0 {
        Seq::empty()
    } else {
        let prev = audited_votes(receipts.drop_last(), verified, key);
        let i = receipts.len() - 1;
        match receipt_verdict(receipts.last(), verified[i]) {
            Ok(o) => if compressed_sec1(o.government_public_key) == Some(key) && assoc_lookup(
                prev,
                o.public_identity,
            ) is None {
                assoc_insert(prev, o.public_identity, o.choice)
            } else {
                prev
            },
            Err(_) => prev,
        }
    }
}

/// The positions, in order, of the accepted receipts of the election with key
/// `key` whose public identity has an earlier accepted vote in that election:
/// the votes of voters who vote more than once, which are not counted.
pub open spec fn repeated_positions(receipts: Seq<Seq<u8>>, verified: Seq<bool>, key: Seq<u8>) -> Seq<usize>
    decreases receipts.len(),
{
    if receipts.len() == 0 {
        Seq::empty()
    } else {
        let prev = repeated_positions(receipts.drop_last(), verified, key);
        let i = receipts.len() - 1;
        match receipt_verdict(receipts.last(), verified[i]) {
            Ok(o) => if compressed_sec1(o.government_public_key) == Some(key) && assoc_lookup(
                audited_votes(receipts.drop_last(), verified, key),
                o.public_identity,
            ) is Some {
                prev.push(i as usize)
            } else {
                prev
            },
            Err(_) => prev,
        }
    }
}

/// Audits the election with key `gov_key`, given whether each receipt's
/// proof verified against the circuit's image id: flags the receipts that are
/// refused and the repeated votes of a public identity, and tallies the votes
/// cast in that election by the others, the first vote of each public identity
/// counting.
pub fn audit_votes(receipts: &Vec<Vec<u8>>, proofs_verified: &Vec<bool>, gov_key: &PublicKey) -> (r: AuditReport)
    requires
        receipts@.len() == proofs_verified@.len(),
    ensures
        r.rejected@ == rejected_positions(receipts@.map_values(|v: Vec<u8>| v@), proofs_verified@),
        r.repeated@ == repeated_positions(receipts@.map_values(|v: Vec<u8>| v@), proofs_verified@, gov_key@),
        tally_view(r.tally@) == tally_of(
            assoc_values(audited_votes(receipts@.map_values(|v: Vec<u8>| v@), proofs_verified@, gov_key@)),
        ),
{
    let ghost rs = receipts@.map_values(|v: Vec<u8>| v@);
    let ghost pv = proofs_verified@;
    let mut votes: IdentityMap<String> = IdentityMap::new();
    let mut rejected: Vec<usize> = Vec::new();
    let mut repeated: Vec<usize> = Vec::new();
    let n = receipts.len();
    let mut i: usize = 0;
    while i < n
        invariant
            n == receipts@.len(),
            n == pv.len(),
            pv == proofs_verified@,
            rs == receipts@.map_values(|v: Vec<u8>| v@),
            i <= n,
            votes.wf(),
            votes@ == audited_votes(rs.subrange(0, i as int), pv, gov_key@),
            rejected@ == rejected_positions(rs.subrange(0, i as int), pv),
            repeated@ == repeated_positions(rs.subrange(0, i as int), pv, gov_key@),
        decreases n - i,
    {
        let ghost prefix = rs.subrange(0, i as int);
        let ghost next = rs.subrange(0, i + 1);
        proof {
            assert(next.drop_last() =~= prefix);
            assert(next.last() == rs[i as int]);
            assert(rs[i as int] == receipts@[i as int]@);
        }
        match verify_receipt(receipts[i].as_slice(), proofs_verified[i]) {
            Ok(o) => {
                match PublicKey::from_sec1_bytes(o.government_public_key.as_slice()) {
                    Some(k) => {
                        if k.same_key(gov_key) {
                            if votes.contains_key(o.public_identity.as_slice()) {
                                repeated.push(i);
                            } else {
                                let identity = crate::types::copy_bytes(&o.public_identity);
                                votes.insert(identity, o.choice);
                            }
                        }
                    },
                    None => {},
                }
            },
            Err(_) => {
                rejected.push(i);
            },
        }
        i = i + 1;
    }
    assert(rs.subrange(0, n as int) =~= rs);
    let mut choices: Vec<String> = Vec::new();
    let m = votes.len();
    let mut j: usize = 0;
    while j < m
        invariant
            m == votes@.len(),
            j <= m,
            choices@.map_values(|v: String| v@) == assoc_values(votes@).subrange(0, j as int),
        decreases m - j,
    {
        let c = votes.value_at(j).clone();
        let ghost before = choices@;
        choices.push(c);
        assert(choices@.map_values(|v: String| v@) =~= before.map_values(|v: String| v@).push(c@));
        assert(assoc_values(votes@).subrange(0, j + 1) =~= assoc_values(votes@).subrange(0, j as int).push(c@));
        j = j + 1;
    }
    assert(assoc_values(votes@).subrange(0, m as int) =~= assoc_values(votes@));
    let tally = tally_votes(&choices);
    AuditReport { tally, rejected, repeated }
}

/// An audit counts at most one vote per public identity: the audited votes
/// are in strictly ascending identity order, so no identity occurs twice.
pub proof fn lemma_audit_counts_one_vote_per_identity(receipts: Seq<Seq<u8>>, verified: Seq<bool>, key: Seq<u8>)
    ensures
        sorted_entries(audited_votes(receipts, verified, key)),
        forall|i: int, j: int|
            0 <= i < audited_votes(receipts, verified, key).len() && 0 <= j < audited_votes(
                receipts,
                verified,
                key,
            ).len() && i != j ==> audited_votes(receipts, verified, key)[i].0 != audited_votes(
                receipts,
                verified,
                key,
            )[j].0,
    decreases receipts.len(),
{
    if receipts.len() > 0 {
        let prev = audited_votes(receipts.drop_last(), verified, key);
        lemma_audit_counts_one_vote_per_identity(receipts.drop_last(), verified, key);
        if let Ok(o) = receipt_verdict(receipts.last(), verified[receipts.len() - 1]) {
            crate::identity_map::lemma_insert_sorted(prev, o.public_identity, o.choice);
        }
    }
    crate::identity_map::lemma_sorted_keys_distinct(audited_votes(receipts, verified, key));
}

/// The prefix `receipts[0..n]` is `receipts[0..n-1]` followed by `receipts[n-1]`.
proof fn lemma_prefix_step(receipts: Seq<Seq<u8>>, n: int)
    requires
        0 < n <= receipts.len(),
    ensures
        receipts.subrange(0, n).drop_last() == receipts.subrange(0, n - 1),
        receipts.subrange(0, n).last() == receipts[n - 1],
        receipts.subrange(0, n).len() == n,
{
    assert(receipts.subrange(0, n).drop_last() =~= receipts.subrange(0, n - 1));
}

/// Once an identity has a counted vote, it keeps one as more receipts are read.
proof fn lemma_counted_identity_persists(
    receipts: Seq<Seq<u8>>,
    verified: Seq<bool>,
    key: Seq<u8>,
    id: Seq<u8>,
    n: int,
    m: int,
)
    requires
        0 <= n <= m <= receipts.len(),
        assoc_lookup(audited_votes(receipts.subrange(0, n), verified, key), id) is Some,
    ensures
        assoc_lookup(audited_votes(receipts.subrange(0, m), verified, key), id) is Some,
    decreases m - n,
{
    if m > n {
        lemma_counted_identity_persists(receipts, verified, key, id, n, m - 1);
        lemma_prefix_step(receipts, m);
        let prev = audited_votes(receipts.subrange(0, m - 1), verified, key);
        if let Ok(o) = receipt_verdict(receipts[m - 1], verified[m - 1]) {
            crate::identity_map::lemma_insert_lookup(prev, o.public_identity, o.choice, id);
        }
    }
}

/// Flagged positions stay flagged as more receipts are read.
proof fn lemma_flagged_persists(receipts: Seq<Seq<u8>>, verified: Seq<bool>, key: Seq<u8>, x: usize, n: int, m: int)
    requires
        0 <= n <= m <= receipts.len(),
        repeated_positions(receipts.subrange(0, n), verified, key).contains(x),
    ensures
        repeated_positions(receipts.subrange(0, m), verified, key).contains(x),
    decreases m - n,
{
    if m > n {
        lemma_flagged_persists(receipts, verified, key, x, n, m - 1);
        lemma_prefix_step(receipts, m);
        let prev = repeated_positions(receipts.subrange(0, m - 1), verified, key);
        let w = choose|w: int| 0 <= w < prev.len() && prev[w] == x;
        assert(prev.push((m - 1) as usize)[w] == x);
    }
}

/// A voter who votes again is flagged: when two accepted receipts of the
/// election carry the same public identity, the later one's position is among
/// the repeated ones, whatever the two choices are.
pub proof fn lemma_repeated_vote_is_flagged(
    receipts: Seq<Seq<u8>>,
    verified: Seq<bool>,
    key: Seq<u8>,
    i: int,
    j: int,
    first: OutputsView,
    again: OutputsView,
)
    requires
        0 <= i < j < receipts.len(),
        j <= usize::MAX,
        receipt_verdict(receipts[i], verified[i]) == Ok::<OutputsView, ReceiptError>(first),
        receipt_verdict(receipts[j], verified[j]) == Ok::<OutputsView, ReceiptError>(again),
        compressed_sec1(first.government_public_key) == Some(key),
        compressed_sec1(again.government_public_key) == Some(key),
        again.public_identity == first.public_identity,
    ensures
        repeated_positions(receipts, verified, key).contains(j as usize),
{
    {
        let o1 = first;
        let id = o1.public_identity;
        lemma_prefix_step(receipts, i + 1);
        let before = audited_votes(receipts.subrange(0, i), verified, key);
        crate::identity_map::lemma_insert_lookup(before, id, o1.choice, id);
        lemma_counted_identity_persists(receipts, verified, key, id, i + 1, j);
        lemma_prefix_step(receipts, j + 1);
        let flagged = repeated_positions(receipts.subrange(0, j + 1), verified, key);
        let prev = repeated_positions(receipts.subrange(0, j), verified, key);
        assert(flagged == prev.push(j as usize));
        assert(flagged[prev.len() as int] == j as usize);
        lemma_flagged_persists(receipts, verified, key, j as usize, j + 1, receipts.len() as int);
        assert(receipts.subrange(0, receipts.len() as int) =~= receipts);
    }
}

} // verus!
