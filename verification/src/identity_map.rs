//! A map keyed by public identities (byte strings), kept as a list of
//! entries in ascending key order, so that its values come out in the
//! order of their keys. vstd's specifications of `std`'s maps hold only for
//! key types it knows to follow its key model (integers, `bool`, ...); byte
//! strings are not among them, so a sorted list carries the order here, as an
//! invariant the proofs can use.

use vstd::prelude::*;
use crate::order::{lex_lt, compare_bytes, ByteOrder, lemma_lex_total, lemma_lex_transitive, lemma_lex_irreflexive};

verus! {

/// Keys strictly ascending: every key occurs once.
pub open spec fn sorted_entries<W>(s: Seq<(Seq<u8>, W)>) -> bool {
    forall|i: int, j: int| 0 <= i < j < s.len() ==> lex_lt(#[trigger] s[i].0, #[trigger] s[j].0)
}

/// The entry list after `k` is bound to `v`: an entry with key `k` is
/// replaced in place, otherwise the new entry goes before the first larger key.
pub open spec fn assoc_insert<W>(s: Seq<(Seq<u8>, W)>, k: Seq<u8>, v: W) -> Seq<(Seq<u8>, W)>
    decreases s.len(),
{
    if s.len() == 0 {
        seq![(k, v)]
    } else if s[0].0 == k {
        seq![(k, v)] + s.drop_first()
    } else if lex_lt(k, s[0].0) {
        seq![(k, v)] + s
    } else {
        seq![s[0]] + assoc_insert(s.drop_first(), k, v)
    }
}

/// The value bound to `k`, if any (the first entry with that key).
pub open spec fn assoc_lookup<W>(s: Seq<(Seq<u8>, W)>, k: Seq<u8>) -> Option<W>
    decreases s.len(),
{
    if s.len() == 0 {
        None
    } else if s[0].0 == k {
        Some(s[0].1)
    } else {
        assoc_lookup(s.drop_first(), k)
    }
}

/// The values of the entries, in key order.
pub open spec fn assoc_values<W>(s: Seq<(Seq<u8>, W)>) -> Seq<W> {
    s.map_values(|e: (Seq<u8>, W)| e.1)
}

/// Every key of the updated list is `k` or a key of the old one.
proof fn lemma_insert_keys<W>(s: Seq<(Seq<u8>, W)>, k: Seq<u8>, v: W)
    ensures
        forall|i: int| 0 <= i < assoc_insert(s, k, v).len() ==>
            (#[trigger] assoc_insert(s, k, v)[i]).0 == k
            || exists|j: int| 0 <= j < s.len() && s[j].0 == assoc_insert(s, k, v)[i].0,
    decreases s.len(),
{
    let r = assoc_insert(s, k, v);
    if s.len() == 0 {
    } else if s[0].0 == k {
        assert forall|i: int| 0 <= i < r.len() implies (#[trigger] r[i]).0 == k
            || exists|j: int| 0 <= j < s.len() && s[j].0 == r[i].0 by {
            if i > 0 {
                assert(s[i].0 == r[i].0);
            }
        }
    } else if lex_lt(k, s[0].0) {
        assert forall|i: int| 0 <= i < r.len() implies (#[trigger] r[i]).0 == k
            || exists|j: int| 0 <= j < s.len() && s[j].0 == r[i].0 by {
            if i > 0 {
                assert(s[i - 1].0 == r[i].0);
            }
        }
    } else {
        let t = s.drop_first();
        lemma_insert_keys(t, k, v);
        assert forall|i: int| 0 <= i < r.len() implies (#[trigger] r[i]).0 == k
            || exists|j: int| 0 <= j < s.len() && s[j].0 == r[i].0 by {
            if i == 0 {
                assert(s[0].0 == r[0].0);
            } else {
                assert(r[i] == assoc_insert(t, k, v)[i - 1]);
                if assoc_insert(t, k, v)[i - 1].0 != k {
                    let j = choose|j: int| 0 <= j < t.len() && t[j].0 == assoc_insert(t, k, v)[i - 1].0;
                    assert(s[j + 1].0 == r[i].0);
                }
            }
        }
    }
}

/// Binding a key keeps the entries in ascending key order.
pub proof fn lemma_insert_sorted<W>(s: Seq<(Seq<u8>, W)>, k: Seq<u8>, v: W)
    requires
        sorted_entries(s),
    ensures
        sorted_entries(assoc_insert(s, k, v)),
    decreases s.len(),
{
    let r = assoc_insert(s, k, v);
    if s.len() == 0 {
    } else if s[0].0 == k {
        assert forall|i: int, j: int| 0 <= i < j < r.len() implies lex_lt(#[trigger] r[i].0, #[trigger] r[j].0) by {
            assert(r[j] == s[j]);
            if i > 0 {
                assert(r[i] == s[i]);
            }
        }
    } else if lex_lt(k, s[0].0) {
        assert forall|i: int, j: int| 0 <= i < j < r.len() implies lex_lt(#[trigger] r[i].0, #[trigger] r[j].0) by {
            assert(r[j] == s[j - 1]);
            if i > 0 {
                assert(r[i] == s[i - 1]);
            } else if j > 1 {
                lemma_lex_transitive(k, s[0].0, s[j - 1].0);
            }
        }
    } else {
        let t = s.drop_first();
        assert(sorted_entries(t)) by {
            assert forall|i: int, j: int| 0 <= i < j < t.len() implies lex_lt(#[trigger] t[i].0, #[trigger] t[j].0) by {
                assert(t[i] == s[i + 1] && t[j] == s[j + 1]);
            }
        }
        lemma_insert_sorted(t, k, v);
        lemma_insert_keys(t, k, v);
        lemma_lex_total(k, s[0].0);
        let rt = assoc_insert(t, k, v);
        assert forall|i: int, j: int| 0 <= i < j < r.len() implies lex_lt(#[trigger] r[i].0, #[trigger] r[j].0) by {
            assert(r[j] == rt[j - 1]);
            if i > 0 {
                assert(r[i] == rt[i - 1]);
            } else {
                assert(r[0] == s[0]);
                if rt[j - 1].0 != k {
                    let m = choose|m: int| 0 <= m < t.len() && t[m].0 == rt[j - 1].0;
                    assert(s[m + 1] == t[m]);
                }
            }
        }
    }
}

/// In ascending entries, a key below the first key is absent.
proof fn lemma_lookup_below_first<W>(s: Seq<(Seq<u8>, W)>, k: Seq<u8>)
    requires
        sorted_entries(s),
        s.len() > 0,
        lex_lt(k, s[0].0),
    ensures
        assoc_lookup(s, k) is None,
    decreases s.len(),
{
    lemma_lex_irreflexive(k);
    let t = s.drop_first();
    if t.len() > 0 {
        assert(t[0] == s[1]);
        lemma_lex_transitive(k, s[0].0, s[1].0);
        assert(sorted_entries(t)) by {
            assert forall|i: int, j: int| 0 <= i < j < t.len() implies lex_lt(#[trigger] t[i].0, #[trigger] t[j].0) by {
                assert(t[i] == s[i + 1] && t[j] == s[j + 1]);
            }
        }
        lemma_lookup_below_first(t, k);
    }
    assert(assoc_lookup(s, k) == assoc_lookup(t, k));
}

/// After binding `k` to `v`, `k` gives `v` and every other key what it gave before.
pub proof fn lemma_insert_lookup<W>(s: Seq<(Seq<u8>, W)>, k: Seq<u8>, v: W, q: Seq<u8>)
    ensures
        assoc_lookup(assoc_insert(s, k, v), q) == if q == k { Some(v) } else { assoc_lookup(s, q) },
    decreases s.len(),
{
    let r = assoc_insert(s, k, v);
    if s.len() == 0 {
        assert(r[0] == (k, v));
        assert(r.drop_first() =~= Seq::<(Seq<u8>, W)>::empty());
        assert(assoc_lookup(r.drop_first(), q) is None);
        assert(assoc_lookup(r, q) == if q == k { Some(v) } else { assoc_lookup(r.drop_first(), q) });
    } else if s[0].0 == k {
        assert(r[0] == (k, v));
        assert(r.drop_first() =~= s.drop_first());
        assert(assoc_lookup(r, q) == if q == k { Some(v) } else { assoc_lookup(r.drop_first(), q) });
        assert(assoc_lookup(s, q) == if q == k { Some(s[0].1) } else { assoc_lookup(s.drop_first(), q) });
    } else if lex_lt(k, s[0].0) {
        assert(r[0] == (k, v));
        assert(r.drop_first() =~= s);
        assert(assoc_lookup(r, q) == if q == k { Some(v) } else { assoc_lookup(r.drop_first(), q) });
    } else {
        assert(r[0] == s[0]);
        lemma_insert_lookup(s.drop_first(), k, v, q);
        assert(r.drop_first() =~= assoc_insert(s.drop_first(), k, v));
        assert(assoc_lookup(r, q) == if q == s[0].0 { Some(s[0].1) } else { assoc_lookup(r.drop_first(), q) });
        assert(assoc_lookup(s, q) == if q == s[0].0 { Some(s[0].1) } else { assoc_lookup(s.drop_first(), q) });
    }
}

/// Binding a key adds one entry when the key was absent, none otherwise.
pub proof fn lemma_insert_len<W>(s: Seq<(Seq<u8>, W)>, k: Seq<u8>, v: W)
    requires
        sorted_entries(s),
    ensures
        assoc_insert(s, k, v).len() == s.len() + if assoc_lookup(s, k) is Some { 0int } else { 1int },
    decreases s.len(),
{
    if s.len() > 0 {
        if s[0].0 == k {
        } else if lex_lt(k, s[0].0) {
            lemma_lookup_below_first(s, k);
        } else {
            let t = s.drop_first();
            assert(sorted_entries(t)) by {
                assert forall|i: int, j: int| 0 <= i < j < t.len() implies lex_lt(#[trigger] t[i].0, #[trigger] t[j].0) by {
                    assert(t[i] == s[i + 1] && t[j] == s[j + 1]);
                }
            }
            lemma_insert_len(t, k, v);
        }
    }
}

/// When all keys before position `i` are smaller than `k`, binding `k`
/// leaves that prefix alone.
proof fn lemma_insert_after_prefix<W>(s: Seq<(Seq<u8>, W)>, k: Seq<u8>, v: W, i: int)
    requires
        0 <= i <= s.len(),
        forall|j: int| 0 <= j < i ==> lex_lt(#[trigger] s[j].0, k),
    ensures
        assoc_insert(s, k, v) == s.subrange(0, i) + assoc_insert(s.subrange(i, s.len() as int), k, v),
    decreases i,
{
    if i == 0 {
        assert(s.subrange(0, s.len() as int) =~= s);
        assert(s.subrange(0, 0) + assoc_insert(s, k, v) =~= assoc_insert(s, k, v));
    } else {
        lemma_lex_irreflexive(k);
        lemma_lex_total(k, s[0].0);
        let t = s.drop_first();
        assert forall|j: int| 0 <= j < i - 1 implies lex_lt(#[trigger] t[j].0, k) by {
            assert(t[j] == s[j + 1]);
        }
        lemma_insert_after_prefix(t, k, v, i - 1);
        assert(t.subrange(i - 1, t.len() as int) =~= s.subrange(i, s.len() as int));
        assert(s.subrange(0, i) =~= seq![s[0]] + t.subrange(0, i - 1));
    }
}

/// A map from public identities to values, its entries kept in ascending
/// identity order.
pub struct IdentityMap<V> {
    entries: Vec<(Vec<u8>, V)>,
}

impl<V: View> View for IdentityMap<V> {
    type V = Seq<(Seq<u8>, V::V)>;

    /// The entries, in order, each key and value by its view.
    closed spec fn view(&self) -> Seq<(Seq<u8>, V::V)> {
        self.entries@.map_values(|e: (Vec<u8>, V)| (e.0@, e.1@))
    }
}

impl<V: View> IdentityMap<V> {
    /// The entries are in strictly ascending key order.
    pub open spec fn wf(&self) -> bool {
        sorted_entries(self@)
    }

    /// An empty map.
    pub fn new() -> (r: Self)
        ensures
            r@ == Seq::<(Seq<u8>, V::V)>::empty(),
            r.wf(),
    {
        let r = IdentityMap { entries: Vec::new() };
        assert(r@ =~= Seq::<(Seq<u8>, V::V)>::empty());
        r
    }

    /// The number of entries.
    pub fn len(&self) -> (n: usize)
        ensures
            n == self@.len(),
    {
        self.entries.len()
    }

    /// The value of the `i`-th entry in key order.
    pub fn value_at(&self, i: usize) -> (v: &V)
        requires
            i < self@.len(),
        ensures
            v@ == self@[i as int].1,
    {
        &self.entries[i].1
    }

    /// The key of the `i`-th entry in key order.
    pub fn key_at(&self, i: usize) -> (k: &Vec<u8>)
        requires
            i < self@.len(),
        ensures
            k@ == self@[i as int].0,
    {
        &self.entries[i].0
    }

    /// Whether some entry has the key `key`.
    pub fn contains_key(&self, key: &[u8]) -> (r: bool)
        ensures
            r == (assoc_lookup(self@, key@) is Some),
    {
        proof {
            lemma_lookup_some(self@, key@);
        }
        let mut i: usize = 0;
        while i < self.entries.len()
            invariant
                i <= self@.len(),
                self@.len() == self.entries@.len(),
                assoc_lookup(self@, key@) is Some <==> exists|j: int| 0 <= j < self@.len() && (#[trigger] self@[j]).0 == key@,
                forall|j: int| 0 <= j < i ==> (#[trigger] self@[j]).0 != key@,
            decreases self@.len() - i,
        {
            assert(self@[i as int].0 == self.entries@[i as int].0@);
            match compare_bytes(self.entries[i].0.as_slice(), key) {
                ByteOrder::Equal => {
                    return true;
                },
                _ => {},
            }
            i = i + 1;
        }
        false
    }

    /// Binds `key` to `value`, replacing the value it had.
    pub fn insert(&mut self, key: Vec<u8>, value: V)
        requires
            old(self).wf(),
        ensures
            final(self)@ == assoc_insert(old(self)@, key@, value@),
            final(self).wf(),
    {
        let ghost s = self@;
        proof {
            lemma_insert_sorted(s, key@, value@);
        }
        let mut i: usize = 0;
        while i < self.entries.len()
            invariant
                self@ == s,
                s == old(self)@,
                sorted_entries(s),
                sorted_entries(assoc_insert(s, key@, value@)),
                i <= s.len(),
                forall|j: int| 0 <= j < i ==> lex_lt(#[trigger] s[j].0, key@),
            decreases s.len() - i,
        {
            assert(self.entries@.len() == s.len());
            let c = compare_bytes(self.entries[i].0.as_slice(), key.as_slice());
            assert(s[i as int].0 == self.entries@[i as int].0@);
            match c {
                ByteOrder::Less => {
                    i = i + 1;
                },
                ByteOrder::Equal => {
                    proof {
                        lemma_insert_after_prefix(s, key@, value@, i as int);
                        let t = s.subrange(i as int, s.len() as int);
                        assert(t[0] == s[i as int]);
                        assert(t[0].0 == key@);
                        assert(t.drop_first() =~= s.subrange(i + 1, s.len() as int));
                    }
                    let ghost kv = key@;
                    let ghost vv = value@;
                    self.entries.set(i, (key, value));
                    proof {
                        let t = s.subrange(i as int, s.len() as int);
                        assert(assoc_insert(t, kv, vv) == seq![(kv, vv)] + t.drop_first());
                        assert(self@ =~= s.subrange(0, i as int) + (seq![(kv, vv)] + s.subrange(i + 1, s.len() as int)));
                    }
                    return;
                },
                ByteOrder::Greater => {
                    proof {
                        lemma_insert_after_prefix(s, key@, value@, i as int);
                        let t = s.subrange(i as int, s.len() as int);
                        assert(t[0] == s[i as int]);
                        lemma_lex_total(key@, s[i as int].0);
                        assert(t[0].0 != key@);
                        assert(lex_lt(key@, t[0].0));
                    }
                    let ghost kv = key@;
                    let ghost vv = value@;
                    self.entries.insert(i, (key, value));
                    proof {
                        let t = s.subrange(i as int, s.len() as int);
                        assert(assoc_insert(t, kv, vv) == seq![(kv, vv)] + t);
                        assert(self@ =~= s.subrange(0, i as int) + (seq![(kv, vv)] + s.subrange(i as int, s.len() as int)));
                    }
                    return;
                },
            }
        }
        proof {
            lemma_insert_after_prefix(s, key@, value@, i as int);
            assert(s.subrange(i as int, s.len() as int) =~= Seq::<(Seq<u8>, V::V)>::empty());
        }
        let ghost kv = key@;
        let ghost vv = value@;
        self.entries.push((key, value));
        proof {
            assert(self@ =~= s.subrange(0, i as int) + seq![(kv, vv)]);
        }
    }
}

} // verus!

verus! {

/// A key is bound exactly when some entry has that key.
pub proof fn lemma_lookup_some<W>(s: Seq<(Seq<u8>, W)>, k: Seq<u8>)
    ensures
        assoc_lookup(s, k) is Some <==> exists|i: int| 0 <= i < s.len() && (#[trigger] s[i]).0 == k,
    decreases s.len(),
{
    if s.len() > 0 {
        let t = s.drop_first();
        lemma_lookup_some(t, k);
        if exists|i: int| 0 <= i < s.len() && (#[trigger] s[i]).0 == k {
            let i = choose|i: int| 0 <= i < s.len() && (#[trigger] s[i]).0 == k;
            if i > 0 {
                assert(t[i - 1] == s[i]);
            }
        }
        if exists|i: int| 0 <= i < t.len() && (#[trigger] t[i]).0 == k {
            let i = choose|i: int| 0 <= i < t.len() && (#[trigger] t[i]).0 == k;
            assert(s[i + 1] == t[i]);
        }
    }
}

/// Every entry after binding `k` to `v` is `(k, v)` or an entry from before.
pub proof fn lemma_insert_entries<W>(s: Seq<(Seq<u8>, W)>, k: Seq<u8>, v: W)
    ensures
        forall|i: int| 0 <= i < assoc_insert(s, k, v).len() ==>
            #[trigger] assoc_insert(s, k, v)[i] == (k, v) || s.contains(assoc_insert(s, k, v)[i]),
    decreases s.len(),
{
    let r = assoc_insert(s, k, v);
    if s.len() > 0 {
        if s[0].0 == k {
            assert forall|i: int| 0 <= i < r.len() implies #[trigger] r[i] == (k, v) || s.contains(r[i]) by {
                if i > 0 {
                    assert(r[i] == s[i]);
                }
            }
        } else if lex_lt(k, s[0].0) {
            assert forall|i: int| 0 <= i < r.len() implies #[trigger] r[i] == (k, v) || s.contains(r[i]) by {
                if i > 0 {
                    assert(r[i] == s[i - 1]);
                }
            }
        } else {
            let t = s.drop_first();
            lemma_insert_entries(t, k, v);
            let rt = assoc_insert(t, k, v);
            assert forall|i: int| 0 <= i < r.len() implies #[trigger] r[i] == (k, v) || s.contains(r[i]) by {
                if i == 0 {
                    assert(r[0] == s[0]);
                } else {
                    assert(r[i] == rt[i - 1]);
                    if t.contains(rt[i - 1]) {
                        let j = choose|j: int| 0 <= j < t.len() && t[j] == rt[i - 1];
                        assert(s[j + 1] == t[j]);
                    }
                }
            }
        }
    }
}

/// In ascending entries, no key occurs twice.
pub proof fn lemma_sorted_keys_distinct<W>(s: Seq<(Seq<u8>, W)>)
    requires
        sorted_entries(s),
    ensures
        forall|i: int, j: int| 0 <= i < s.len() && 0 <= j < s.len() && i != j ==> s[i].0 != s[j].0,
{
    assert forall|i: int, j: int| 0 <= i < s.len() && 0 <= j < s.len() && i != j implies s[i].0 != s[j].0 by {
        if i < j {
            assert(lex_lt(s[i].0, s[j].0));
            if s[i].0 == s[j].0 {
                lemma_lex_irreflexive(s[i].0);
            }
        } else {
            assert(lex_lt(s[j].0, s[i].0));
            if s[i].0 == s[j].0 {
                lemma_lex_irreflexive(s[i].0);
            }
        }
    }
}

/// A value bound to some key is among the values.
pub proof fn lemma_lookup_in_values<W>(s: Seq<(Seq<u8>, W)>, k: Seq<u8>, v: W)
    requires
        assoc_lookup(s, k) == Some(v),
    ensures
        assoc_values(s).contains(v),
    decreases s.len(),
{
    if s[0].0 == k {
        assert(assoc_values(s)[0] == v);
    } else {
        lemma_lookup_in_values(s.drop_first(), k, v);
        let i = choose|i: int| 0 <= i < assoc_values(s.drop_first()).len() && assoc_values(s.drop_first())[i] == v;
        assert(assoc_values(s)[i + 1] == v);
    }
}

} // verus!
