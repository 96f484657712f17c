use vstd::prelude::*;

verus! {

/// Identifier of a transaction.
#[derive(Clone, Copy, Debug, PartialEq, Eq, Structural)]
pub struct TransactionId(pub u64);

impl TransactionId {
    pub open spec fn raw(self) -> u64 {
        self.0
    }

    pub fn new(value: u64) -> (id: Self)
        ensures
            id.raw() == value,
    {
        TransactionId(value)
    }

    pub fn raw_id(&self) -> (r: u64)
        ensures
            r == self.raw(),
    {
        self.0
    }
}

/// Identifier of a savepoint.
#[derive(Clone, Copy, Debug, PartialEq, Eq, Structural)]
pub struct SavepointId(pub u64);

} // verus!
