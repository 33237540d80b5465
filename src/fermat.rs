//! Fermat's test: a prime `n` has `a^(n-1) = 1 (mod n)` for every `a` coprime to it.
use crate::utils::{mod_pow, pow_mod};
use crate::witness::{draw_witness, witnesses_in_range, ATTEMPTS, MAX_CANDIDATE};
use vstd::prelude::*;

verus! {

/// Witness `a` does not refute the primality of `candidate`.
pub open spec fn fermat_passes(candidate: nat, a: nat) -> bool {
    pow_mod(a as int, (candidate - 1) as nat, candidate as int) == 1
}

/// The verdict on `candidate` for the given witnesses: small cases are
/// settled directly, even candidates are composite, and otherwise every
/// witness must pass.
pub open spec fn fermat_verdict(candidate: nat, witnesses: Seq<u64>) -> bool {
    if candidate <= 1 {
        false
    } else if candidate <= 3 {
        true
    } else if candidate % 2 == 0 {
        false
    } else {
        forall|i: int| 0 <= i < witnesses.len() ==> fermat_passes(candidate, #[trigger] witnesses[i] as nat)
    }
}

/// Fermat's test on `candidate`, with three random witnesses.
pub fn is_prime(candidate: u64) -> (r: bool)
    requires
        candidate <= MAX_CANDIDATE,
    ensures
        candidate <= 1 ==> !r,
        candidate == 2 || candidate == 3 ==> r,
        candidate > 2 && candidate % 2 == 0 ==> !r,
        exists|ws: Seq<u64>|
            #![trigger fermat_verdict(candidate as nat, ws)]
            ws.len() <= ATTEMPTS && (r && candidate >= 4 ==> ws.len() == ATTEMPTS)
                && witnesses_in_range(candidate as nat, ws) && r == fermat_verdict(candidate as nat, ws),
{
    fermat_test(candidate)
}

/// Settles the small and even candidates, then runs the witness trials.
/// Even candidates above 2 are rejected before any witness is drawn.
pub fn fermat_test(candidate: u64) -> (r: bool)
    requires
        candidate <= MAX_CANDIDATE,
    ensures
        candidate <= 1 ==> !r,
        candidate == 2 || candidate == 3 ==> r,
        candidate > 2 && candidate % 2 == 0 ==> !r,
        exists|ws: Seq<u64>|
            #![trigger fermat_verdict(candidate as nat, ws)]
            ws.len() <= ATTEMPTS && (r && candidate >= 4 ==> ws.len() == ATTEMPTS)
                && witnesses_in_range(candidate as nat, ws) && r == fermat_verdict(candidate as nat, ws),
{
    let r = match candidate {
        0 | 1 => false,
        2 => true,
        3 => true,
        n if n % 2 == 0 => false,
        _ => fermat_test_core(candidate, ATTEMPTS),
    };
    assert(candidate < 4 || candidate % 2 == 0 ==> witnesses_in_range(
        candidate as nat,
        Seq::<u64>::empty(),
    ) && fermat_verdict(candidate as nat, Seq::<u64>::empty()) == r);
    r
}

/// One trial: whether witness `a` passes.
pub fn fermat_trial(candidate: u64, a: u64) -> (r: bool)
    requires
        2 <= candidate <= MAX_CANDIDATE,
        a < candidate,
    ensures
        r == fermat_passes(candidate as nat, a as nat),
{
    assert(a * a <= u64::MAX && (candidate - 1) * (candidate - 1) <= u64::MAX) by (nonlinear_arith)
        requires
            a < candidate,
            candidate <= 4294967296,
    ;
    mod_pow(a, candidate - 1, candidate) == 1
}

/// Fermat's test with the witnesses given, so that a run can be reproduced.
pub fn fermat_test_with(candidate: u64, witnesses: &[u64]) -> (r: bool)
    requires
        candidate <= MAX_CANDIDATE,
        candidate >= 4 ==> witnesses_in_range(candidate as nat, witnesses@),
    ensures
        r == fermat_verdict(candidate as nat, witnesses@),
{
    if candidate <= 1 {
        return false;
    }
    if candidate <= 3 {
        return true;
    }
    if candidate % 2 == 0 {
        return false;
    }
    let mut i: usize = 0;
    while i < witnesses.len()
        invariant
            4 <= candidate <= MAX_CANDIDATE,
            candidate % 2 == 1,
            witnesses_in_range(candidate as nat, witnesses@),
            i <= witnesses@.len(),
            forall|j: int| 0 <= j < i ==> fermat_passes(candidate as nat, #[trigger] witnesses@[j] as nat),
        decreases witnesses@.len() - i,
    {
        if !fermat_trial(candidate, witnesses[i]) {
            return false;
        }
        i += 1;
    }
    true
}

/// Runs `attempts` trials with fresh random witnesses, stopping at the first
/// that refutes primality.
fn fermat_test_core(candidate: u64, attempts: u8) -> (r: bool)
    requires
        4 <= candidate <= MAX_CANDIDATE,
        candidate % 2 == 1,
    ensures
        exists|ws: Seq<u64>|
            #![trigger fermat_verdict(candidate as nat, ws)]
            ws.len() <= attempts && (r ==> ws.len() == attempts) && witnesses_in_range(
                candidate as nat,
                ws,
            ) && r == fermat_verdict(candidate as nat, ws),
{
    let ghost mut drawn: Seq<u64> = Seq::empty();
    let mut k: u8 = 0;
    while k < attempts
        invariant
            4 <= candidate <= MAX_CANDIDATE,
            candidate % 2 == 1,
            k <= attempts,
            drawn.len() == k,
            witnesses_in_range(candidate as nat, drawn),
            fermat_verdict(candidate as nat, drawn),
        decreases attempts - k,
    {
        let a = draw_witness(candidate);
        let passes = fermat_trial(candidate, a);
        proof {
            drawn = drawn.push(a);
            assert(drawn[drawn.len() - 1] == a);
        }
        if !passes {
            assert(!fermat_verdict(candidate as nat, drawn));
            return false;
        }
        k += 1;
    }
    true
}

} // verus!
