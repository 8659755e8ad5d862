use crate::outpoint::Outpoint;
use crate::sign::Signature;
use vstd::prelude::*;

verus! {

/// The ledger key space: an outpoint's transaction id bytes paired with its
/// output index.
pub type LedgerKey = (Seq<u8>, u32);

/// A persisted fact: this daemon has signed the named outpoint, with the
/// signature payload it produced.  Once a record exists for an outpoint it
/// is never updated or deleted.
#[derive(Debug)]
pub struct SignedOutpointRecord {
    pub outpoint: Outpoint,
    pub signature: Signature,
}

/// The map held by a sequence of signed-outpoint records, keyed by outpoint
/// identity, later records taking precedence.  (A well-formed ledger never
/// holds two records for one outpoint, so precedence never actually
/// decides.)
pub open spec fn map_of(s: Seq<SignedOutpointRecord>) -> Map<LedgerKey, Seq<u8>>
    decreases s.len(),
{
    if s.len() == 0 {
        Map::empty()
    } else {
        map_of(s.drop_last()).insert(s.last().outpoint.key(), s.last().signature@)
    }
}

/// No two records of `s` claim the same outpoint.
pub open spec fn distinct_outpoints(s: Seq<SignedOutpointRecord>) -> bool {
    forall|i: int, j: int|
        0 <= i < s.len() && 0 <= j < s.len() && i != j ==> #[trigger] s[i].outpoint.key()
            != #[trigger] s[j].outpoint.key()
}

/// What one atomic check-and-insert on the ledger does: `inserted` reports
/// whether the outpoint was absent, and the map gains exactly the new record
/// in that case and is untouched otherwise.  This is the serialization point
/// of the whole daemon: any interleaving of concurrent requests touching one
/// outpoint is some sequence of these steps.
pub open spec fn insert_outcome(
    pre: Map<LedgerKey, Seq<u8>>,
    key: LedgerKey,
    sig: Seq<u8>,
    post: Map<LedgerKey, Seq<u8>>,
    inserted: bool,
) -> bool {
    &&& inserted == !pre.contains_key(key)
    &&& (inserted ==> post == pre.insert(key, sig))
    &&& (!inserted ==> post == pre)
}

/// The at-most-once ledger: the durable set of outpoints this daemon has
/// already signed.  Its view is a map from outpoint identity to the stored
/// signature payload; `insert_if_absent` is the only mutating operation, so
/// a record, once present, keeps its signature forever.
pub struct OutpointLedger {
    records: Vec<SignedOutpointRecord>,
}

impl View for OutpointLedger {
    type V = Map<LedgerKey, Seq<u8>>;

    closed spec fn view(&self) -> Map<LedgerKey, Seq<u8>> {
        map_of(self.records@)
    }
}

proof fn lemma_map_of_contains(s: Seq<SignedOutpointRecord>, key: LedgerKey)
    ensures
        map_of(s).contains_key(key) <==> exists|i: int|
            0 <= i < s.len() && #[trigger] s[i].outpoint.key() == key,
    decreases s.len(),
{
    if s.len() == 0 {
    } else {
        lemma_map_of_contains(s.drop_last(), key);
        if map_of(s).contains_key(key) {
            if s.last().outpoint.key() == key {
                assert(s[s.len() - 1].outpoint.key() == key);
            } else {
                let i = choose|i: int|
                    0 <= i < s.drop_last().len() && #[trigger] s.drop_last()[i].outpoint.key()
                        == key;
                assert(s[i].outpoint.key() == key);
            }
        }
        if exists|i: int| 0 <= i < s.len() && #[trigger] s[i].outpoint.key() == key {
            let i = choose|i: int| 0 <= i < s.len() && #[trigger] s[i].outpoint.key() == key;
            if i < s.len() - 1 {
                assert(s.drop_last()[i].outpoint.key() == key);
            }
        }
    }
}

proof fn lemma_map_of_value(s: Seq<SignedOutpointRecord>, i: int)
    requires
        distinct_outpoints(s),
        0 <= i < s.len(),
    ensures
        map_of(s).contains_key(s[i].outpoint.key()),
        map_of(s)[s[i].outpoint.key()] == s[i].signature@,
    decreases s.len(),
{
    if i == s.len() - 1 {
        assert(s.last() == s[i]);
    } else {
        let d = s.drop_last();
        assert forall|a: int, b: int|
            0 <= a < d.len() && 0 <= b < d.len() && a != b implies #[trigger] d[a].outpoint.key()
            != #[trigger] d[b].outpoint.key() by {
            assert(d[a] == s[a]);
            assert(d[b] == s[b]);
        }
        lemma_map_of_value(d, i);
        assert(d[i] == s[i]);
        assert(s[s.len() - 1].outpoint.key() != s[i].outpoint.key());
    }
}

impl OutpointLedger {
    /// A well-formed ledger holds at most one record per outpoint.  Every
    /// constructor establishes this and every operation preserves it; it is
    /// the structural half of the write-once guarantee.
    pub closed spec fn wf(self) -> bool {
        distinct_outpoints(self.records@)
    }

    /// An empty ledger, as a fresh daemon starts with.
    pub fn new() -> (l: OutpointLedger)
        ensures
            l.wf(),
            l@ == Map::<LedgerKey, Seq<u8>>::empty(),
    {
        OutpointLedger { records: Vec::new() }
    }

    /// Whether a record for `outpoint` is present.
    pub fn is_signed(&self, outpoint: &Outpoint) -> (r: bool)
        ensures
            r == self@.contains_key(outpoint.key()),
    {
        let n = self.records.len();
        let mut i: usize = 0;
        while i < n
            invariant
                n == self.records@.len(),
                0 <= i <= n,
                forall|j: int| 0 <= j < i ==> #[trigger] self.records@[j].outpoint.key()
                    != outpoint.key(),
            decreases n - i,
        {
            if self.records[i].outpoint.same_outpoint(outpoint) {
                proof {
                    lemma_map_of_contains(self.records@, outpoint.key());
                }
                return true;
            }
            i = i + 1;
        }
        proof {
            lemma_map_of_contains(self.records@, outpoint.key());
        }
        false
    }

    /// Looks an outpoint up: the record returned is exactly the one the
    /// ledger's map holds for it, and `None` means no record exists.
    pub fn lookup(&self, outpoint: &Outpoint) -> (r: Option<&SignedOutpointRecord>)
        requires
            self.wf(),
        ensures
            match r {
                Some(rec) => {
                    &&& self@.contains_key(outpoint.key())
                    &&& rec.outpoint.key() == outpoint.key()
                    &&& rec.signature@ == self@[outpoint.key()]
                },
                None => !self@.contains_key(outpoint.key()),
            },
    {
        let n = self.records.len();
        let mut i: usize = 0;
        while i < n
            invariant
                n == self.records@.len(),
                0 <= i <= n,
                self.wf(),
                forall|j: int| 0 <= j < i ==> #[trigger] self.records@[j].outpoint.key()
                    != outpoint.key(),
            decreases n - i,
        {
            if self.records[i].outpoint.same_outpoint(outpoint) {
                proof {
                    lemma_map_of_value(self.records@, i as int);
                }
                return Some(&self.records[i]);
            }
            i = i + 1;
        }
        proof {
            lemma_map_of_contains(self.records@, outpoint.key());
        }
        None
    }

    /// The atomic check-and-insert, the sole mutating operation.  Returns
    /// true exactly when this call created the record; when a record already
    /// existed, nothing changes — in particular the old signature is kept,
    /// never overwritten.  Callers that hold the ledger behind a lock or a
    /// transactional store obtain from this the linearizable at-most-once
    /// step the vault protocol needs.
    pub fn insert_if_absent(&mut self, outpoint: Outpoint, signature: Signature) -> (inserted:
        bool)
        requires
            old(self).wf(),
        ensures
            final(self).wf(),
            inserted == !old(self)@.contains_key(outpoint.key()),
            inserted ==> final(self)@ == old(self)@.insert(outpoint.key(), signature@),
            !inserted ==> final(self)@ == old(self)@,
            insert_outcome(old(self)@, outpoint.key(), signature@, final(self)@, inserted),
    {
        if self.is_signed(&outpoint) {
            return false;
        }
        let ghost pre = self.records@;
        let ghost key = outpoint.key();
        self.records.push(SignedOutpointRecord { outpoint, signature });
        proof {
            lemma_map_of_contains(pre, key);
            assert(self.records@.drop_last() =~= pre);
            assert(self.records@.last() == self.records@[pre.len() as int]);
            assert forall|a: int, b: int|
                0 <= a < self.records@.len() && 0 <= b < self.records@.len() && a != b
                implies #[trigger] self.records@[a].outpoint.key()
                != #[trigger] self.records@[b].outpoint.key() by {
                if a < pre.len() && b < pre.len() {
                    assert(self.records@[a] == pre[a]);
                    assert(self.records@[b] == pre[b]);
                } else if a == pre.len() {
                    assert(self.records@[b] == pre[b]);
                    assert(self.records@[a].outpoint.key() == key);
                } else {
                    assert(self.records@[a] == pre[a]);
                    assert(self.records@[b].outpoint.key() == key);
                }
            }
        }
        true
    }
}

/// Exactly one contender signs (the concurrency-safety law).  However many
/// concurrent requests race for one outpoint, the ledger's atomic
/// check-and-insert serializes them into some sequence of `insert_outcome`
/// steps; this lemma states that, starting from an outpoint not yet signed,
/// the first step in that order — and only the first — reports success.
/// Every other contender observes "already signed" and declines, whatever
/// signature payloads they raced in with.
pub proof fn lemma_single_winner(
    states: Seq<Map<LedgerKey, Seq<u8>>>,
    key: LedgerKey,
    sigs: Seq<Seq<u8>>,
    results: Seq<bool>,
    t: int,
)
    requires
        states.len() == results.len() + 1,
        sigs.len() == results.len(),
        !states[0].contains_key(key),
        forall|s: int| #![trigger results[s]] 0 <= s < results.len() ==> insert_outcome(
            states[s],
            key,
            sigs[s],
            states[s + 1],
            results[s],
        ),
        0 <= t < results.len(),
    ensures
        results[t] <==> t == 0,
{
    if t == 0 {
        assert(insert_outcome(states[0], key, sigs[0], states[1], results[0]));
    } else {
        lemma_present_after(states, key, sigs, results, t);
        assert(insert_outcome(states[t], key, sigs[t], states[t + 1], results[t]));
    }
}

proof fn lemma_present_after(
    states: Seq<Map<LedgerKey, Seq<u8>>>,
    key: LedgerKey,
    sigs: Seq<Seq<u8>>,
    results: Seq<bool>,
    t: int,
)
    requires
        states.len() == results.len() + 1,
        sigs.len() == results.len(),
        !states[0].contains_key(key),
        forall|s: int| #![trigger results[s]] 0 <= s < results.len() ==> insert_outcome(
            states[s],
            key,
            sigs[s],
            states[s + 1],
            results[s],
        ),
        1 <= t < states.len(),
    ensures
        states[t].contains_key(key),
    decreases t,
{
    assert(insert_outcome(states[t - 1], key, sigs[t - 1], states[t], results[t - 1]));
    if t == 1 {
    } else {
        lemma_present_after(states, key, sigs, results, t - 1);
    }
}

} // verus!
