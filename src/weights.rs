//! Execution weights of the governance module's operations: a fixed
//! computation cost plus the cost of the storage reads and writes each makes.
use vstd::prelude::*;

verus! {

/// Base computation time of each weighed operation.
pub const BASE_REF_TIME: u64 = 10_000;

/// `x` capped at the largest `u64`.
pub open spec fn saturate(x: int) -> u64 {
    if x > u64::MAX { u64::MAX } else { x as u64 }
}

/// Weight of an operation: computation time and proof size.
#[derive(Clone, Copy, Debug, PartialEq, Eq, Structural)]
pub struct Weight {
    pub ref_time: u64,
    pub proof_size: u64,
}

impl Weight {
    /// A weight with the given components.
    pub fn from_parts(ref_time: u64, proof_size: u64) -> (r: Weight)
        ensures
            r == (Weight { ref_time, proof_size }),
    {
        Weight { ref_time, proof_size }
    }

    /// Componentwise sum, capped at the largest value.
    pub fn saturating_add(self, other: Weight) -> (r: Weight)
        ensures
            r.ref_time == saturate(self.ref_time + other.ref_time),
            r.proof_size == saturate(self.proof_size + other.proof_size),
    {
        Weight {
            ref_time: self.ref_time.saturating_add(other.ref_time),
            proof_size: self.proof_size.saturating_add(other.proof_size),
        }
    }
}

/// Cost of one storage read and of one storage write.
#[derive(Clone, Copy, Debug, PartialEq, Eq, Structural)]
pub struct RuntimeDbWeight {
    pub read: u64,
    pub write: u64,
}

/// `x * n` capped at the largest `u64`.
fn saturating_mul(x: u64, n: u64) -> (r: u64)
    ensures
        r == saturate(x * n),
{
    match x.checked_mul(n) {
        Some(v) => v,
        None => u64::MAX,
    }
}

impl RuntimeDbWeight {
    /// Weight of `n` storage reads.
    pub fn reads(&self, n: u64) -> (r: Weight)
        ensures
            r == (Weight { ref_time: saturate(self.read * n), proof_size: 0 }),
    {
        Weight { ref_time: saturating_mul(self.read, n), proof_size: 0 }
    }

    /// Weight of `n` storage writes.
    pub fn writes(&self, n: u64) -> (r: Weight)
        ensures
            r == (Weight { ref_time: saturate(self.write * n), proof_size: 0 }),
    {
        Weight { ref_time: saturating_mul(self.write, n), proof_size: 0 }
    }
}

/// Weights of the governance operations on a node with the given storage
/// costs.
#[derive(Clone, Copy, Debug, PartialEq, Eq, Structural)]
pub struct SubstrateWeight {
    pub db: RuntimeDbWeight,
}

impl SubstrateWeight {
    /// Weight of an operation that makes one storage read and one write.
    pub open spec fn one_read_one_write(&self) -> Weight {
        Weight {
            ref_time: saturate(saturate(BASE_REF_TIME + self.db.read) + self.db.write),
            proof_size: 0,
        }
    }

    /// Base cost plus one storage read and one storage write.
    fn base_read_write(&self) -> (r: Weight)
        ensures
            r == self.one_read_one_write(),
    {
        Weight::from_parts(BASE_REF_TIME, 0).saturating_add(self.db.reads(1)).saturating_add(self.db.writes(1))
    }

    pub fn create_proposal(&self) -> (r: Weight)
        ensures
            r == self.one_read_one_write(),
    {
        self.base_read_write()
    }

    pub fn vote(&self) -> (r: Weight)
        ensures
            r == self.one_read_one_write(),
    {
        self.base_read_write()
    }

    pub fn execute_proposal(&self) -> (r: Weight)
        ensures
            r == self.one_read_one_write(),
    {
        self.base_read_write()
    }

    pub fn cancel_proposal(&self) -> (r: Weight)
        ensures
            r == self.one_read_one_write(),
    {
        self.base_read_write()
    }

    pub fn fund_treasury(&self) -> (r: Weight)
        ensures
            r == self.one_read_one_write(),
    {
        self.base_read_write()
    }

    pub fn add_member(&self) -> (r: Weight)
        ensures
            r == self.one_read_one_write(),
    {
        self.base_read_write()
    }

    pub fn remove_member(&self) -> (r: Weight)
        ensures
            r == self.one_read_one_write(),
    {
        self.base_read_write()
    }
}

} // verus!
