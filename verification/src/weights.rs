//! Cost figures of the two submissions.
//!
//! A weight is a pair of a computation time, in picoseconds, and a proof
//! size. Both submissions claim no proof size.

use vstd::prelude::*;

verus! {

/// Picoseconds in a microsecond.
pub const WEIGHT_REF_TIME_PER_MICROS: u64 = 1_000;

/// Computation time charged for each kilobyte of proof: 200 microseconds.
pub const WEIGHT_PROOF_TIME_PER_KB: u64 = 200_000;

/// The cost of a submission.
#[derive(Clone, Copy, PartialEq, Eq, Debug, Structural)]
pub struct Weight {
    /// Computation time, in picoseconds.
    pub ref_time: u64,
    /// Proof size, in bytes.
    pub proof_size: u64,
}

impl Weight {
    /// A weight of the two parts given.
    pub fn from_parts(ref_time: u64, proof_size: u64) -> (weight: Weight)
        ensures
            weight == (Weight { ref_time, proof_size }),
    {
        Weight { ref_time, proof_size }
    }
}

/// The weights that this library proposes.
pub struct WeightInfo;

impl crate::pallet::WeightInfo for WeightInfo {
    /// 100 microseconds.
    fn submit_board() -> (weight: Weight)
        ensures
            weight == (Weight { ref_time: 100_000, proof_size: 0 }),
    {
        Weight::from_parts(100 * WEIGHT_REF_TIME_PER_MICROS, 0)
    }

    /// 100 microseconds, and 200 more for each kilobyte of proof.
    fn submit_proof(c: u32) -> (weight: Weight)
        ensures
            weight.ref_time == 100_000 + 200_000 * c,
            weight.proof_size == 0,
    {
        let base: u64 = 100 * WEIGHT_REF_TIME_PER_MICROS;
        let proof_size_cost: u64 = match WEIGHT_PROOF_TIME_PER_KB.checked_mul(c as u64) {
            Some(cost) => cost,
            None => u64::MAX,
        };
        Weight::from_parts(base.saturating_add(proof_size_cost), 0)
    }
}

/// The size in kilobytes that a proof of `proof_len` bytes is charged for:
/// the whole kilobytes of the length, counted modulo 2^32, and one more.
pub fn proof_size_kb(proof_len: usize) -> (c: u32)
    ensures
        c == (proof_len as int % 0x1_0000_0000) / 1024 + 1,
{
    let low: u64 = (proof_len as u64) % 0x1_0000_0000;
    (low as u32) / 1024 + 1
}

} // verus!
