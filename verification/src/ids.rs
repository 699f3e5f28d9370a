//! Identifiers for streams, operators and workers.

use vstd::prelude::*;

use crate::table::TableKey;

verus! {

/// A 128-bit identifier, stored as two 64-bit halves.  Stream, operator and
/// worker identities are opaque values of this type.
#[derive(Clone, Copy, PartialEq, Eq, Structural, Debug, Hash)]
pub struct Uuid {
    pub hi: u64,
    pub lo: u64,
}

impl Uuid {
    pub fn new(hi: u64, lo: u64) -> (r: Uuid)
        ensures
            r == (Uuid { hi, lo }),
    {
        Uuid { hi, lo }
    }

    /// A fixed identifier, handy as a placeholder before assignment.
    pub fn nil() -> (r: Uuid)
        ensures
            r == (Uuid { hi: 0u64, lo: 0u64 }),
    {
        Uuid { hi: 0, lo: 0 }
    }
}

impl TableKey for Uuid {
    fn key_eq(&self, other: &Self) -> (r: bool)
        ensures
            r <==> (*self == *other),
    {
        self.hi == other.hi && self.lo == other.lo
    }
}

/// The unique identity of a stream.
pub type StreamId = Uuid;

/// The unique identity of an operator.
pub type OperatorId = Uuid;

/// The unique identity of a worker, assigned by the Leader on attach.
pub type WorkerId = Uuid;

} // verus!
