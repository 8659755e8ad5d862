use crate::ledger::LedgerKey;
use crate::ledger::OutpointLedger;
use crate::outpoint::Outpoint;
use crate::sign::sig_bytes;
use crate::sign::sign_outpoint;
use crate::sign::Signature;
use crate::sign::SigningKey;
use vstd::prelude::*;

verus! {

/// A candidate transaction submitted for signing, abstracted to what the
/// policy engine reads: the ordered sequence of outpoints its inputs spend.
#[derive(Debug)]
pub struct SignRequest {
    pub outpoints: Vec<Outpoint>,
}

/// The engine's answer.  A request that decoded at all is answered
/// per input: `Some` carries the signature newly produced for that input,
/// `None` leaves an input unsigned (already signed earlier, or structurally
/// invalid).  `Refusal` is the wholesale rejection of a payload that did not
/// decode to a request.
#[derive(Debug)]
pub enum SignResponse {
    Refusal,
    Signed(Vec<Option<Signature>>),
}

/// Some structurally valid occurrence in `ops` carries the ledger key `k`.
pub open spec fn key_signed_in(ops: Seq<Outpoint>, k: LedgerKey) -> bool {
    exists|i: int| 0 <= i < ops.len() && #[trigger] ops[i].key() == k && ops[i].is_well_formed()
}

/// No earlier input of the request spends the same outpoint as input `i`.
pub open spec fn first_occurrence(ops: Seq<Outpoint>, i: int) -> bool {
    forall|j: int| 0 <= j < i ==> #[trigger] ops[j].key() != ops[i].key()
}

/// The signing policy, per input: sign exactly when the outpoint is
/// structurally valid, no record of it exists yet, and no earlier input of
/// this very request already spends it.
pub open spec fn signs_input(pre: Map<LedgerKey, Seq<u8>>, ops: Seq<Outpoint>, i: int) -> bool {
    &&& ops[i].is_well_formed()
    &&& !pre.contains_key(ops[i].key())
    &&& first_occurrence(ops, i)
}

/// The full contract of one engine run over a request: which inputs got a
/// signature, what that signature is, and exactly how the ledger moved —
/// it gains the keys the run signed, nothing else, and every record that
/// already existed keeps its signature untouched.
pub open spec fn process_post(
    pre: Map<LedgerKey, Seq<u8>>,
    key: Seq<u8>,
    ops: Seq<Outpoint>,
    post: Map<LedgerKey, Seq<u8>>,
    sigs: Seq<Option<Signature>>,
) -> bool {
    &&& sigs.len() == ops.len()
    &&& forall|i: int|
        #![trigger sigs[i]]
        0 <= i < ops.len() ==> (sigs[i].is_some() <==> signs_input(pre, ops, i))
    &&& forall|i: int|
        #![trigger sigs[i]]
        0 <= i < ops.len() && sigs[i].is_some() ==> sigs[i].unwrap()@ == sig_bytes(
            key,
            ops[i].key(),
        )
    &&& forall|k: LedgerKey|
        #![trigger post.contains_key(k)]
        post.contains_key(k) <==> (pre.contains_key(k) || key_signed_in(ops, k))
    &&& forall|k: LedgerKey|
        #![trigger pre.contains_key(k)]
        pre.contains_key(k) ==> post.contains_key(k) && post[k] == pre[k]
    &&& forall|k: LedgerKey|
        #![trigger post.contains_key(k)]
        !pre.contains_key(k) && post.contains_key(k) ==> post[k] == sig_bytes(key, k)
}

proof fn lemma_key_signed_in_push(s: Seq<Outpoint>, x: Outpoint, k: LedgerKey)
    ensures
        key_signed_in(s.push(x), k) <==> (key_signed_in(s, k) || (x.is_well_formed() && x.key()
            == k)),
{
    if key_signed_in(s.push(x), k) {
        let i = choose|i: int|
            0 <= i < s.push(x).len() && #[trigger] s.push(x)[i].key() == k && s.push(
                x,
            )[i].is_well_formed();
        if i < s.len() {
            assert(s[i] == s.push(x)[i]);
            assert(s[i].key() == k && s[i].is_well_formed());
        } else {
            assert(s.push(x)[i] == x);
        }
    }
    if key_signed_in(s, k) {
        let i = choose|i: int| 0 <= i < s.len() && #[trigger] s[i].key() == k && s[i].is_well_formed();
        assert(s.push(x)[i] == s[i]);
        assert(s.push(x)[i].key() == k && s.push(x)[i].is_well_formed());
    }
    if x.is_well_formed() && x.key() == k {
        assert(s.push(x)[s.len() as int] == x);
        assert(s.push(x)[s.len() as int].key() == k && s.push(x)[s.len() as int].is_well_formed());
    }
}

/// The signing policy engine.  Walks the request's inputs in transaction
/// order; for each structurally valid outpoint it performs the ledger's
/// atomic check-and-insert and produces a signature exactly when this call
/// created the record.  Duplicate outpoints within one request, outpoints
/// signed by earlier requests, and malformed outpoints are all left
/// unsigned; the rest of the request still processes.  Total: every request
/// gets an answer, whatever it holds.
pub fn process_sign_message(ledger: &mut OutpointLedger, msg: &SignRequest, key: &SigningKey) -> (resp:
    SignResponse)
    requires
        old(ledger).wf(),
    ensures
        final(ledger).wf(),
        match resp {
            SignResponse::Signed(sigs) => process_post(
                old(ledger)@,
                key@,
                msg.outpoints@,
                final(ledger)@,
                sigs@,
            ),
            SignResponse::Refusal => false,
        },
{
    let ghost pre = old(ledger)@;
    let ghost ops = msg.outpoints@;
    let mut signatures: Vec<Option<Signature>> = Vec::new();
    let n = msg.outpoints.len();
    let mut idx: usize = 0;
    while idx < n
        invariant
            ledger.wf(),
            pre == old(ledger)@,
            ops == msg.outpoints@,
            n == ops.len(),
            0 <= idx <= n,
            signatures@.len() == idx,
            forall|i: int|
                #![trigger signatures@[i]]
                0 <= i < idx ==> (signatures@[i].is_some() <==> signs_input(pre, ops, i)),
            forall|i: int|
                #![trigger signatures@[i]]
                0 <= i < idx && signatures@[i].is_some() ==> signatures@[i].unwrap()@ == sig_bytes(
                    key@,
                    ops[i].key(),
                ),
            forall|k: LedgerKey|
                #![trigger ledger@.contains_key(k)]
                ledger@.contains_key(k) <==> (pre.contains_key(k) || key_signed_in(
                    ops.take(idx as int),
                    k,
                )),
            forall|k: LedgerKey|
                #![trigger pre.contains_key(k)]
                pre.contains_key(k) ==> ledger@.contains_key(k) && ledger@[k] == pre[k],
            forall|k: LedgerKey|
                #![trigger ledger@.contains_key(k)]
                !pre.contains_key(k) && ledger@.contains_key(k) ==> ledger@[k] == sig_bytes(
                    key@,
                    k,
                ),
        decreases n - idx,
    {
        let ghost taken = ops.take(idx as int);
        let ghost k0 = ops[idx as int].key();
        let op = msg.outpoints[idx];
        let wf_op = op.check_well_formed();
        if wf_op {
            let sig = sign_outpoint(key, &op);
            let inserted = ledger.insert_if_absent(op, sig);
            if inserted {
                let sig2 = sign_outpoint(key, &op);
                signatures.push(Some(sig2));
                proof {
                    assert forall|j: int| 0 <= j < idx implies #[trigger] ops[j].key() != k0 by {
                        if ops[j].key() == k0 {
                            assert(ops[j].is_well_formed()) by {
                                let w = choose|w: int|
                                    0 <= w < ops[idx as int].txid@.len() && ops[idx as int].txid@[w]
                                        != 0;
                                assert(ops[j].txid@ == ops[idx as int].txid@);
                                assert(0 <= w < ops[j].txid@.len() && ops[j].txid@[w] != 0);
                            }
                            assert(key_signed_in(taken, k0)) by {
                                assert(taken[j] == ops[j]);
                                assert(taken[j].key() == k0 && taken[j].is_well_formed());
                            }
                        }
                    }
                    assert(signs_input(pre, ops, idx as int));
                }
            } else {
                signatures.push(None);
                proof {
                    assert(!signs_input(pre, ops, idx as int)) by {
                        if !pre.contains_key(k0) {
                            assert(key_signed_in(taken, k0));
                            let j = choose|j: int|
                                0 <= j < taken.len() && #[trigger] taken[j].key() == k0
                                    && taken[j].is_well_formed();
                            assert(taken[j] == ops[j]);
                            assert(ops[j].key() == ops[idx as int].key());
                            assert(!first_occurrence(ops, idx as int));
                        }
                    }
                }
            }
        } else {
            signatures.push(None);
            proof {
                assert(!signs_input(pre, ops, idx as int));
            }
        }
        proof {
            assert(ops.take(idx + 1) =~= taken.push(ops[idx as int]));
            assert forall|k: LedgerKey|
                #![trigger ledger@.contains_key(k)]
                ledger@.contains_key(k) <==> (pre.contains_key(k) || key_signed_in(
                    ops.take(idx + 1),
                    k,
                )) by {
                lemma_key_signed_in_push(taken, ops[idx as int], k);
            }
        }
        idx = idx + 1;
    }
    proof {
        assert(ops.take(n as int) =~= ops);
    }
    SignResponse::Signed(signatures)
}

/// The write-once law.  Over any sequence of engine runs — whatever the
/// requests held and in whatever order they arrived — an outpoint recorded
/// as signed at some point stays recorded, with the very same signature,
/// after every later run.  No sequence of requests can ever make this daemon
/// hold a second, different signature for an outpoint.
pub proof fn lemma_write_once(
    states: Seq<Map<LedgerKey, Seq<u8>>>,
    key: Seq<u8>,
    reqs: Seq<Seq<Outpoint>>,
    resps: Seq<Seq<Option<Signature>>>,
    t: int,
    u: int,
    k: LedgerKey,
)
    requires
        states.len() == reqs.len() + 1,
        resps.len() == reqs.len(),
        forall|s: int|
            #![trigger reqs[s]]
            0 <= s < reqs.len() ==> process_post(states[s], key, reqs[s], states[s + 1], resps[s]),
        0 <= t <= u < states.len(),
        states[t].contains_key(k),
    ensures
        states[u].contains_key(k),
        states[u][k] == states[t][k],
    decreases u - t,
{
    if t < u {
        assert(process_post(states[t], key, reqs[t], states[t + 1], resps[t]));
        assert(states[t + 1].contains_key(k) && states[t + 1][k] == states[t][k]);
        lemma_write_once(states, key, reqs, resps, t + 1, u, k);
    }
}

/// The idempotent-retry law.  Running the same request twice in a row — a
/// retry after a lost response, or an adversarial resubmission — leaves the
/// ledger exactly as the first run left it and signs nothing the second
/// time.
pub proof fn lemma_idempotent_retry(
    pre: Map<LedgerKey, Seq<u8>>,
    key: Seq<u8>,
    ops: Seq<Outpoint>,
    mid: Map<LedgerKey, Seq<u8>>,
    sigs1: Seq<Option<Signature>>,
    post: Map<LedgerKey, Seq<u8>>,
    sigs2: Seq<Option<Signature>>,
)
    requires
        process_post(pre, key, ops, mid, sigs1),
        process_post(mid, key, ops, post, sigs2),
    ensures
        post == mid,
        forall|i: int| #![trigger sigs2[i]] 0 <= i < ops.len() ==> sigs2[i].is_none(),
{
    assert forall|i: int| #![trigger sigs2[i]] 0 <= i < ops.len() implies sigs2[i].is_none() by {
        if sigs2[i].is_some() {
            assert(signs_input(mid, ops, i));
            assert(key_signed_in(ops, ops[i].key())) by {
                assert(ops[i].key() == ops[i].key() && ops[i].is_well_formed());
            }
            assert(mid.contains_key(ops[i].key()));
        }
    }
    assert forall|k: LedgerKey| #[trigger] post.contains_key(k) == mid.contains_key(k) by {
        if key_signed_in(ops, k) {
            assert(mid.contains_key(k));
        }
    }
    assert forall|k: LedgerKey| #[trigger] post.contains_key(k) implies post[k] == mid[k] by {
        assert(mid.contains_key(k));
    }
    assert(post =~= mid);
}

/// The response-consistency law.  Any input a response reports as newly
/// signed has, from that moment on, a ledger record for its outpoint, and
/// the record holds exactly the signature the response carried.
pub proof fn lemma_response_consistency(
    pre: Map<LedgerKey, Seq<u8>>,
    key: Seq<u8>,
    ops: Seq<Outpoint>,
    post: Map<LedgerKey, Seq<u8>>,
    sigs: Seq<Option<Signature>>,
    i: int,
)
    requires
        process_post(pre, key, ops, post, sigs),
        0 <= i < ops.len(),
        sigs[i].is_some(),
    ensures
        post.contains_key(ops[i].key()),
        post[ops[i].key()] == sigs[i].unwrap()@,
{
    assert(signs_input(pre, ops, i));
    assert(key_signed_in(ops, ops[i].key())) by {
        assert(ops[i].key() == ops[i].key() && ops[i].is_well_formed());
    }
    assert(post.contains_key(ops[i].key()));
}

} // verus!
