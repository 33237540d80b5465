//! The Solovay–Strassen test: for a prime `n`, `a^((n-1)/2)` is congruent to
//! the Jacobi symbol `(a | n)` modulo `n`.
use crate::jacobi_symbol::{jacobi, jacobi_symbol};
use crate::utils::{mod_pow, pow_mod};
use crate::witness::{draw_witness, witnesses_in_range, ATTEMPTS, MAX_CANDIDATE};
use vstd::prelude::*;

verus! {

/// `a^((candidate-1)/2) mod candidate`, the residue Euler's criterion looks at.
pub open spec fn euler_residue(candidate: nat, a: nat) -> int {
    pow_mod(a as int, ((candidate - 1) / 2) as nat, candidate as int)
}

/// Witness `a` does not refute the primality of `candidate`: the residue is
/// 1 or `candidate - 1`, and it equals the Jacobi symbol taken modulo `candidate`.
pub open spec fn solovay_strassen_passes(candidate: nat, a: nat) -> bool {
    let r = euler_residue(candidate, a);
    &&& (r == 1 || r == candidate - 1)
    &&& r == (jacobi(a as int, candidate as int) + candidate) % (candidate as int)
}

/// The verdict on `candidate` for the given witnesses: small cases are
/// settled directly, even candidates are composite, and otherwise every
/// witness must pass.
pub open spec fn solovay_strassen_verdict(candidate: nat, witnesses: Seq<u64>) -> bool {
    if candidate <= 1 {
        false
    } else if candidate <= 3 {
        true
    } else if candidate % 2 == 0 {
        false
    } else {
        forall|i: int| 0 <= i < witnesses.len() ==> solovay_strassen_passes(candidate, #[trigger] witnesses[i] as nat)
    }
}

/// The Solovay–Strassen test on `candidate`, with three random witnesses.
pub fn is_prime(candidate: u64) -> (r: bool)
    requires
        candidate <= MAX_CANDIDATE,
    ensures
        candidate <= 1 ==> !r,
        candidate == 2 || candidate == 3 ==> r,
        candidate > 2 && candidate % 2 == 0 ==> !r,
        exists|ws: Seq<u64>|
            #![trigger solovay_strassen_verdict(candidate as nat, ws)]
            ws.len() <= ATTEMPTS && (r && candidate >= 4 ==> ws.len() == ATTEMPTS)
                && witnesses_in_range(candidate as nat, ws) && r == solovay_strassen_verdict(candidate as nat, ws),
{
    solovay_strassen(candidate)
}

/// Settles the small and even candidates, then runs the witness trials.
/// Even candidates above 2 are rejected before any witness is drawn.
pub fn solovay_strassen(candidate: u64) -> (r: bool)
    requires
        candidate <= MAX_CANDIDATE,
    ensures
        candidate <= 1 ==> !r,
        candidate == 2 || candidate == 3 ==> r,
        candidate > 2 && candidate % 2 == 0 ==> !r,
        exists|ws: Seq<u64>|
            #![trigger solovay_strassen_verdict(candidate as nat, ws)]
            ws.len() <= ATTEMPTS && (r && candidate >= 4 ==> ws.len() == ATTEMPTS)
                && witnesses_in_range(candidate as nat, ws) && r == solovay_strassen_verdict(candidate as nat, ws),
{
    let r = match candidate {
        0 | 1 => false,
        2 => true,
        3 => true,
        n if n % 2 == 0 => false,
        _ => solovay_strassen_core(candidate, ATTEMPTS),
    };
    assert(candidate < 4 || candidate % 2 == 0 ==> witnesses_in_range(
        candidate as nat,
        Seq::<u64>::empty(),
    ) && solovay_strassen_verdict(candidate as nat, Seq::<u64>::empty()) == r);
    r
}

/// One trial: whether witness `a` passes.
pub fn solovay_strassen_trial(candidate: u64, a: u64) -> (r: bool)
    requires
        2 <= candidate <= MAX_CANDIDATE,
        candidate % 2 == 1,
        a < candidate,
    ensures
        r == solovay_strassen_passes(candidate as nat, a as nat),
{
    assert(a * a <= u64::MAX && (candidate - 1) * (candidate - 1) <= u64::MAX) by (nonlinear_arith)
        requires
            a < candidate,
            candidate <= 4294967296,
    ;
    let r = mod_pow(a, (candidate - 1) / 2, candidate);
    if r != 1 && r != candidate - 1 {
        return false;
    }
    let s = jacobi_symbol(a, candidate);
    // Shift the symbol into [0, candidate) before reducing.
    let s = (s + candidate as i64) as u64;
    r == s % candidate
}

/// The Solovay–Strassen test with the witnesses given, so that a run can be reproduced.
pub fn solovay_strassen_with(candidate: u64, witnesses: &[u64]) -> (r: bool)
    requires
        candidate <= MAX_CANDIDATE,
        candidate >= 4 ==> witnesses_in_range(candidate as nat, witnesses@),
    ensures
        r == solovay_strassen_verdict(candidate as nat, witnesses@),
{
    if candidate <= 1 {
        return false;
    }
    if candidate <= 3 {
        return true;
    }
    if candidate % 2 == 0 {
        return false;
    }
    let mut i: usize = 0;
    while i < witnesses.len()
        invariant
            4 <= candidate <= MAX_CANDIDATE,
            candidate % 2 == 1,
            witnesses_in_range(candidate as nat, witnesses@),
            i <= witnesses@.len(),
            forall|j: int| 0 <= j < i ==> solovay_strassen_passes(candidate as nat, #[trigger] witnesses@[j] as nat),
        decreases witnesses@.len() - i,
    {
        if !solovay_strassen_trial(candidate, witnesses[i]) {
            return false;
        }
        i += 1;
    }
    true
}

/// Runs `attempts` trials with fresh random witnesses, stopping at the first
/// that refutes primality.
fn solovay_strassen_core(candidate: u64, attempts: u8) -> (r: bool)
    requires
        4 <= candidate <= MAX_CANDIDATE,
        candidate % 2 == 1,
    ensures
        exists|ws: Seq<u64>|
            #![trigger solovay_strassen_verdict(candidate as nat, ws)]
            ws.len() <= attempts && (r ==> ws.len() == attempts) && witnesses_in_range(
                candidate as nat,
                ws,
            ) && r == solovay_strassen_verdict(candidate as nat, ws),
{
    let ghost mut drawn: Seq<u64> = Seq::empty();
    let mut k: u8 = 0;
    while k < attempts
        invariant
            4 <= candidate <= MAX_CANDIDATE,
            candidate % 2 == 1,
            k <= attempts,
            drawn.len() == k,
            witnesses_in_range(candidate as nat, drawn),
            solovay_strassen_verdict(candidate as nat, drawn),
        decreases attempts - k,
    {
        let a = draw_witness(candidate);
        let passes = solovay_strassen_trial(candidate, a);
        proof {
            drawn = drawn.push(a);
            assert(drawn[drawn.len() - 1] == a);
        }
        if !passes {
            assert(!solovay_strassen_verdict(candidate as nat, drawn));
            return false;
        }
        k += 1;
    }
    true
}

} // verus!
