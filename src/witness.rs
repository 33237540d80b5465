//! Random witnesses for the primality tests.
use rand::Rng;
use vstd::prelude::*;

verus! {

/// Largest candidate the testers accept: below it every product of two
/// residues modulo the candidate fits in 64 bits.
pub const MAX_CANDIDATE: u64 = 4294967296;

/// Number of witnesses each tester draws.
pub const ATTEMPTS: u8 = 3;

/// Every witness lies in `[2, candidate - 2]`.
pub open spec fn witnesses_in_range(candidate: nat, witnesses: Seq<u64>) -> bool {
    forall|i: int| 0 <= i < witnesses.len() ==> 2 <= #[trigger] witnesses[i] <= candidate - 2
}

/// Relies on rand's `thread_rng().gen_range(low, high)`: a value drawn from the
/// half-open range `[low, high)`, which panics unless `low < high`.
#[verifier::external_body]
fn random_in_range(low: u64, high: u64) -> (r: u64)
    requires
        low < high,
    ensures
        low <= r < high,
{
    rand::thread_rng().gen_range(low, high)
}

/// Draws a fresh witness from `[2, candidate - 2]`.
pub fn draw_witness(candidate: u64) -> (a: u64)
    requires
        candidate >= 4,
    ensures
        2 <= a <= candidate - 2,
{
    random_in_range(2, candidate - 1)
}

} // verus!
