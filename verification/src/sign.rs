use crate::outpoint::Outpoint;
use vstd::bytes::lemma_auto_spec_u32_to_from_le_bytes;
use vstd::bytes::spec_u32_to_le_bytes;
use vstd::bytes::u32_to_le_bytes;
use vstd::prelude::*;

verus! {

/// The daemon's long-lived signing key.  It is loaded once at startup and
/// never leaves the signing capability boundary: the field is private and no
/// accessor returns it.
pub struct SigningKey {
    bytes: [u8; 32],
}

impl View for SigningKey {
    type V = Seq<u8>;

    closed spec fn view(&self) -> Seq<u8> {
        self.bytes@
    }
}

impl SigningKey {
    /// Wraps loaded key material.  Called once at startup, after the key has
    /// been read from (or freshly written to) the key file.
    pub fn from_bytes(bytes: [u8; 32]) -> (k: SigningKey)
        ensures
            k@ == bytes@,
    {
        SigningKey { bytes }
    }
}

/// An opaque signature payload, as produced by the signing capability and as
/// stored in the ledger next to the outpoint it signs.
#[derive(Debug, PartialEq, Eq)]
pub struct Signature {
    bytes: Vec<u8>,
}

impl View for Signature {
    type V = Seq<u8>;

    closed spec fn view(&self) -> Seq<u8> {
        self.bytes@
    }
}

impl Signature {
    /// Wraps a raw signature payload, e.g. one read back from the durable
    /// ledger store when the daemon restarts.
    pub fn from_bytes(bytes: Vec<u8>) -> (s: Signature)
        ensures
            s@ == bytes@,
    {
        Signature { bytes }
    }

    /// The raw signature payload.
    pub fn as_bytes(&self) -> (r: &Vec<u8>)
        ensures
            r@ == self@,
    {
        &self.bytes
    }
}

/// The payload the signing capability produces for an outpoint under a key:
/// the key bytes folded over the transaction id, followed by the output
/// index in little-endian form.  The capability is deterministic — the same
/// key and outpoint always give the same payload — which is all the policy
/// engine relies on; cryptographic strength is the concern of the deployment
/// around this crate, not of the duplicate-prevention logic inside it.
pub open spec fn sig_bytes(key: Seq<u8>, outpoint_key: (Seq<u8>, u32)) -> Seq<u8> {
    Seq::new(32, |i: int| key[i] ^ outpoint_key.0[i]) + spec_u32_to_le_bytes(outpoint_key.1)
}

/// Length of every signature payload the capability produces.
pub proof fn lemma_sig_bytes_len(key: Seq<u8>, outpoint_key: (Seq<u8>, u32))
    ensures
        sig_bytes(key, outpoint_key).len() == 36,
{
    lemma_auto_spec_u32_to_from_le_bytes();
}

/// The signing capability: produces this daemon's signature payload for one
/// outpoint of a proposed transaction.
pub fn sign_outpoint(key: &SigningKey, outpoint: &Outpoint) -> (sig: Signature)
    ensures
        sig@ == sig_bytes(key@, outpoint.key()),
        sig@.len() == 36,
{
    let mut out: Vec<u8> = Vec::new();
    let mut i: usize = 0;
    while i < 32
        invariant
            0 <= i <= 32,
            out@.len() == i,
            forall|j: int| 0 <= j < i ==> out@[j] == key@[j] ^ outpoint.txid@[j],
        decreases 32 - i,
    {
        out.push(key.bytes[i] ^ outpoint.txid[i]);
        i = i + 1;
    }
    let tail = u32_to_le_bytes(outpoint.vout);
    out.push(tail[0]);
    out.push(tail[1]);
    out.push(tail[2]);
    out.push(tail[3]);
    proof {
        lemma_auto_spec_u32_to_from_le_bytes();
        assert(out@ =~= sig_bytes(key@, outpoint.key()));
    }
    Signature { bytes: out }
}

} // verus!
