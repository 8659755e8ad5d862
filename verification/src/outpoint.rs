use vstd::prelude::*;

verus! {

/// A reference to one output of a previous transaction: the atomic unit of
/// spendable value that a signature authorizes spending.  Outpoints are the
/// keys of the signed-outpoint ledger, and the at-most-once guarantee of the
/// whole daemon is stated per outpoint.
#[derive(Clone, Copy, Debug, PartialEq, Eq)]
pub struct Outpoint {
    /// Identifier of the transaction that created the output.
    pub txid: [u8; 32],
    /// Index of the output within that transaction.
    pub vout: u32,
}

impl Outpoint {
    /// The mathematical identity of an outpoint: the byte sequence of its
    /// transaction id paired with its output index.  Two outpoints denote
    /// the same previous output exactly when their keys are equal.
    pub open spec fn key(self) -> (Seq<u8>, u32) {
        (self.txid@, self.vout)
    }

    /// Structural validity.  An all-zero transaction id never identifies a
    /// real transaction (it is the null marker), so an outpoint carrying one
    /// cannot name a spendable output and must not reach the ledger.
    pub open spec fn is_well_formed(self) -> bool {
        exists|i: int| 0 <= i < self.txid@.len() && self.txid@[i] != 0
    }

    /// Decides structural validity of this outpoint.
    pub fn check_well_formed(&self) -> (r: bool)
        ensures
            r == self.is_well_formed(),
    {
        let mut i: usize = 0;
        while i < 32
            invariant
                0 <= i <= 32,
                forall|j: int| 0 <= j < i ==> self.txid@[j] == 0,
            decreases 32 - i,
        {
            if self.txid[i] != 0 {
                proof {
                    assert(0 <= i < self.txid@.len() && self.txid@[i as int] != 0);
                }
                return true;
            }
            i = i + 1;
        }
        false
    }

    /// Whether this outpoint and `other` denote the same previous output.
    pub fn same_outpoint(&self, other: &Outpoint) -> (r: bool)
        ensures
            r == (self.key() == other.key()),
    {
        if self.vout != other.vout {
            return false;
        }
        let mut i: usize = 0;
        while i < 32
            invariant
                0 <= i <= 32,
                self.vout == other.vout,
                forall|j: int| 0 <= j < i ==> self.txid@[j] == other.txid@[j],
            decreases 32 - i,
        {
            if self.txid[i] != other.txid[i] {
                return false;
            }
            i = i + 1;
        }
        proof {
            assert(self.txid@ =~= other.txid@);
        }
        true
    }
}

} // verus!
