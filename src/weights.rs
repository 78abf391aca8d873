//! The dispatch weights charged for each operation, as measured by benchmarking: a fixed
//! execution time and proof size plus a cost for every storage read and write.
use vstd::prelude::*;

verus! {

/// `a + b`, capped at the largest `u64`.
pub open spec fn add_capped(a: u64, b: u64) -> u64 {
    if a + b > u64::MAX {
        u64::MAX
    } else {
        (a + b) as u64
    }
}

/// `a * b`, capped at the largest `u64`.
pub open spec fn mul_capped(a: u64, b: u64) -> u64 {
    if a * b > u64::MAX {
        u64::MAX
    } else {
        (a * b) as u64
    }
}

fn add_saturating(a: u64, b: u64) -> (r: u64)
    ensures
        r == add_capped(a, b),
{
    if a > u64::MAX - b {
        u64::MAX
    } else {
        a + b
    }
}

fn mul_saturating(a: u64, b: u64) -> (r: u64)
    ensures
        r == mul_capped(a, b),
{
    if b == 0 {
        return 0;
    }
    if a > u64::MAX / b {
        proof {
            assert(a * b > u64::MAX) by (nonlinear_arith)
                requires
                    b > 0,
                    a > u64::MAX / b,
            ;
        }
        u64::MAX
    } else {
        proof {
            assert(a * b <= u64::MAX) by (nonlinear_arith)
                requires
                    b > 0,
                    a <= u64::MAX / b,
            ;
        }
        a * b
    }
}

/// An amount of execution time (picoseconds) and proof size (bytes).
#[derive(Clone, Copy, Debug, PartialEq, Eq, Structural)]
pub struct Weight {
    pub ref_time: u64,
    pub proof_size: u64,
}

impl Weight {
    pub fn from_parts(ref_time: u64, proof_size: u64) -> (r: Weight)
        ensures
            r == (Weight { ref_time, proof_size }),
    {
        Weight { ref_time, proof_size }
    }

    /// The sum of both parts, each capped at the largest `u64`.
    pub fn saturating_add(self, other: Weight) -> (r: Weight)
        ensures
            r.ref_time == add_capped(self.ref_time, other.ref_time),
            r.proof_size == add_capped(self.proof_size, other.proof_size),
    {
        Weight {
            ref_time: add_saturating(self.ref_time, other.ref_time),
            proof_size: add_saturating(self.proof_size, other.proof_size),
        }
    }
}

/// The execution time of one storage read and of one storage write.
#[derive(Clone, Copy, Debug, PartialEq, Eq, Structural)]
pub struct RuntimeDbWeight {
    pub read: u64,
    pub write: u64,
}

impl RuntimeDbWeight {
    /// The costs of a RocksDB backend: 25 µs a read, 100 µs a write.
    pub fn rocks_db() -> (r: RuntimeDbWeight)
        ensures
            r.read == 25_000_000 && r.write == 100_000_000,
    {
        RuntimeDbWeight { read: 25_000_000, write: 100_000_000 }
    }

    /// The time of `n` reads.
    pub fn reads(&self, n: u64) -> (r: Weight)
        ensures
            r == (Weight { ref_time: mul_capped(self.read, n), proof_size: 0 }),
    {
        Weight { ref_time: mul_saturating(self.read, n), proof_size: 0 }
    }

    /// The time of `n` writes.
    pub fn writes(&self, n: u64) -> (r: Weight)
        ensures
            r == (Weight { ref_time: mul_capped(self.write, n), proof_size: 0 }),
    {
        Weight { ref_time: mul_saturating(self.write, n), proof_size: 0 }
    }
}

/// A base weight plus `reads` reads and `writes` writes at the costs of `db`.
pub open spec fn charged(db: RuntimeDbWeight, ref_time: u64, proof_size: u64, reads: u64, writes: u64) -> Weight {
    Weight {
        ref_time: add_capped(add_capped(ref_time, mul_capped(db.read, reads)), mul_capped(db.write, writes)),
        proof_size,
    }
}

/// The benchmarked weights of the operations, on a given storage backend.
#[derive(Clone, Copy, Debug, PartialEq, Eq, Structural)]
pub struct SubstrateWeight {
    pub db: RuntimeDbWeight,
}

impl SubstrateWeight {
    fn charge(&self, ref_time: u64, proof_size: u64, reads: u64, writes: u64) -> (r: Weight)
        ensures
            r == charged(self.db, ref_time, proof_size, reads, writes),
    {
        Weight::from_parts(ref_time, proof_size).saturating_add(self.db.reads(reads)).saturating_add(
            self.db.writes(writes),
        )
    }

    pub fn deposit(&self) -> (r: Weight)
        ensures
            r == charged(self.db, 25_000_000, 6038, 4, 2),
    {
        self.charge(25_000_000, 6038, 4, 2)
    }

    pub fn withdraw(&self) -> (r: Weight)
        ensures
            r == charged(self.db, 25_000_000, 6038, 4, 2),
    {
        self.charge(25_000_000, 6038, 4, 2)
    }

    pub fn transfer(&self) -> (r: Weight)
        ensures
            r == charged(self.db, 27_000_000, 6614, 4, 2),
    {
        self.charge(27_000_000, 6614, 4, 2)
    }

    pub fn stake_funds(&self) -> (r: Weight)
        ensures
            r == charged(self.db, 24_000_000, 4042, 4, 3),
    {
        self.charge(24_000_000, 4042, 4, 3)
    }

    pub fn redeem_funds(&self) -> (r: Weight)
        ensures
            r == charged(self.db, 24_000_000, 4042, 4, 3),
    {
        self.charge(24_000_000, 4042, 4, 3)
    }

    pub fn lock_funds_auditor(&self) -> (r: Weight)
        ensures
            r == charged(self.db, 28_000_000, 6038, 5, 3),
    {
        self.charge(28_000_000, 6038, 5, 3)
    }

    pub fn unlock_funds_auditor(&self) -> (r: Weight)
        ensures
            r == charged(self.db, 23_000_000, 6038, 3, 1),
    {
        self.charge(23_000_000, 6038, 3, 1)
    }

    pub fn set_interest_rate(&self) -> (r: Weight)
        ensures
            r == charged(self.db, 15_000_000, 3514, 2, 1),
    {
        self.charge(15_000_000, 3514, 2, 1)
    }

    pub fn rotate_treasury(&self) -> (r: Weight)
        ensures
            r == charged(self.db, 26_000_000, 6462, 5, 2),
    {
        self.charge(26_000_000, 6462, 5, 2)
    }

    pub fn force_transfer(&self) -> (r: Weight)
        ensures
            r == charged(self.db, 26_000_000, 6614, 4, 2),
    {
        self.charge(26_000_000, 6614, 4, 2)
    }

    pub fn register_customer(&self) -> (r: Weight)
        ensures
            r == charged(self.db, 12_000_000, 3514, 1, 1),
    {
        self.charge(12_000_000, 3514, 1, 1)
    }

    pub fn unregister(&self) -> (r: Weight)
        ensures
            r == charged(self.db, 13_000_000, 3514, 1, 1),
    {
        self.charge(13_000_000, 3514, 1, 1)
    }

    pub fn register_role_governance(&self) -> (r: Weight)
        ensures
            r == charged(self.db, 12_000_000, 3514, 1, 1),
    {
        self.charge(12_000_000, 3514, 1, 1)
    }

    /// The council's operations carry a nominal weight.
    pub fn initiate_proposal(&self) -> (r: Weight)
        ensures
            r == (Weight { ref_time: 1, proof_size: 0 }),
    {
        Weight::from_parts(1, 0)
    }

    pub fn vote(&self) -> (r: Weight)
        ensures
            r == (Weight { ref_time: 1, proof_size: 0 }),
    {
        Weight::from_parts(1, 0)
    }

    pub fn force_rotate_authorities(&self) -> (r: Weight)
        ensures
            r == (Weight { ref_time: 1, proof_size: 0 }),
    {
        Weight::from_parts(1, 0)
    }

    pub fn council_rotate_authorities(&self) -> (r: Weight)
        ensures
            r == (Weight { ref_time: 1, proof_size: 0 }),
    {
        Weight::from_parts(1, 0)
    }
}

} // verus!
