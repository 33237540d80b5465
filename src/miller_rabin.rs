//! The Miller–Rabin test: writing `n - 1 = d * 2^s` with `d` odd, a prime `n`
//! has `a^d = 1` or `a^(d * 2^j) = -1 (mod n)` for some `j`.
use crate::utils::{mod_pow, pow_mod};
use crate::witness::{draw_witness, witnesses_in_range, ATTEMPTS, MAX_CANDIDATE};
use vstd::arithmetic::power::*;
use vstd::prelude::*;

verus! {

/// `n` with every factor two removed (0 stays 0).
pub open spec fn odd_part(n: nat) -> nat
    decreases n,
{
    if n > 0 && n % 2 == 0 {
        odd_part(n / 2)
    } else {
        n
    }
}

/// How many times two divides `n` (0 for `n == 0`).
pub open spec fn two_exponent(n: nat) -> nat
    decreases n,
{
    if n > 0 && n % 2 == 0 {
        1 + two_exponent(n / 2)
    } else {
        0
    }
}

/// `a^(d * 2^j) mod candidate`: the `j`-th term of the squaring chain.
pub open spec fn chain_term(candidate: nat, a: nat, d: nat, j: nat) -> int {
    pow_mod(a as int, (d * pow(2, j)) as nat, candidate as int)
}

/// Witness `a` does not refute the primality of `candidate`: with
/// `candidate - 1 = d * 2^s`, either `a^d = 1` or some term `a^(d * 2^j)`,
/// `j <= s`, is `candidate - 1`.
pub open spec fn miller_rabin_passes(candidate: nat, a: nat) -> bool {
    let d = odd_part((candidate - 1) as nat);
    let s = two_exponent((candidate - 1) as nat);
    pow_mod(a as int, d, candidate as int) == 1 || exists|j: nat|
        j <= s && #[trigger] chain_term(candidate, a, d, j) == candidate - 1
}

/// The verdict on `candidate` for the given witnesses: small cases are
/// settled directly, even candidates are composite, and otherwise every
/// witness must pass.
pub open spec fn miller_rabin_verdict(candidate: nat, witnesses: Seq<u64>) -> bool {
    if candidate <= 1 {
        false
    } else if candidate <= 3 {
        true
    } else if candidate % 2 == 0 {
        false
    } else {
        forall|i: int|
            0 <= i < witnesses.len() ==> miller_rabin_passes(
                candidate,
                #[trigger] witnesses[i] as nat,
            )
    }
}

/// The Miller–Rabin test on `candidate`, with three random witnesses.
pub fn is_prime(candidate: u64) -> (r: bool)
    requires
        candidate <= MAX_CANDIDATE,
    ensures
        candidate <= 1 ==> !r,
        candidate == 2 || candidate == 3 ==> r,
        candidate > 2 && candidate % 2 == 0 ==> !r,
        exists|ws: Seq<u64>|
            #![trigger miller_rabin_verdict(candidate as nat, ws)]
            ws.len() <= ATTEMPTS && (r && candidate >= 4 ==> ws.len() == ATTEMPTS)
                && witnesses_in_range(candidate as nat, ws) && r == miller_rabin_verdict(candidate as nat, ws),
{
    miller_rabin(candidate)
}

/// Settles the small and even candidates, then runs the witness trials.
/// Even candidates above 2 are rejected before any witness is drawn.
pub fn miller_rabin(candidate: u64) -> (r: bool)
    requires
        candidate <= MAX_CANDIDATE,
    ensures
        candidate <= 1 ==> !r,
        candidate == 2 || candidate == 3 ==> r,
        candidate > 2 && candidate % 2 == 0 ==> !r,
        exists|ws: Seq<u64>|
            #![trigger miller_rabin_verdict(candidate as nat, ws)]
            ws.len() <= ATTEMPTS && (r && candidate >= 4 ==> ws.len() == ATTEMPTS)
                && witnesses_in_range(candidate as nat, ws) && r == miller_rabin_verdict(candidate as nat, ws),
{
    assert(candidate & 1 == candidate % 2) by (bit_vector);
    let r = match candidate {
        0 | 1 => false,
        2 => true,
        3 => true,
        n if n & 1 == 0 => false,
        _ => miller_rabin_core(candidate, ATTEMPTS),
    };
    assert(candidate < 4 || candidate % 2 == 0 ==> witnesses_in_range(
        candidate as nat,
        Seq::<u64>::empty(),
    ) && miller_rabin_verdict(candidate as nat, Seq::<u64>::empty()) == r);
    r
}

/// Writes `n` as `d * 2^s` with `d` odd, returning `(d, s)`.
pub fn split_twos(n: u64) -> (res: (u64, u64))
    requires
        n > 0,
    ensures
        res.0 == odd_part(n as nat),
        res.1 == two_exponent(n as nat),
        res.0 % 2 == 1,
{
    let mut r: u64 = 0;
    let mut d = n;
    while d % 2 == 0
        invariant
            d > 0,
            r + d <= n,
            odd_part(d as nat) == odd_part(n as nat),
            two_exponent(d as nat) + r == two_exponent(n as nat),
        decreases d,
    {
        d /= 2;
        r += 1;
    }
    (d, r)
}

/// The next term of the squaring chain is the square of the last one.
proof fn lemma_chain_step(candidate: nat, a: nat, d: nat, j: nat)
    requires
        candidate > 0,
    ensures
        pow(chain_term(candidate, a, d, j), 2) % (candidate as int) == chain_term(
            candidate,
            a,
            d,
            j + 1,
        ),
{
    let c = candidate as int;
    lemma_pow_positive(2, j);
    let e = (d * pow(2, j)) as nat;
    assert(pow(2, j + 1) == 2 * pow(2, j)) by {
        reveal(pow);
    }
    assert(d * pow(2, (j + 1) as nat) == e * 2) by (nonlinear_arith)
        requires
            pow(2, (j + 1) as nat) == 2 * pow(2, j),
            e == d * pow(2, j),
    ;
    lemma_pow_mod_noop(pow(a as int, e), 2, c);
    lemma_pow_multiplies(a as int, e, 2);
}

/// One trial: whether witness `a` passes, given `candidate - 1 = d * 2^s`.
pub fn miller_rabin_trial(candidate: u64, a: u64, d: u64, s: u64) -> (r: bool)
    requires
        4 <= candidate <= MAX_CANDIDATE,
        a < candidate,
        d == odd_part((candidate - 1) as nat),
        s == two_exponent((candidate - 1) as nat),
    ensures
        r == miller_rabin_passes(candidate as nat, a as nat),
{
    assert(a * a <= u64::MAX && (candidate - 1) * (candidate - 1) <= u64::MAX) by (nonlinear_arith)
        requires
            a < candidate,
            candidate <= 4294967296,
    ;
    let mut x = mod_pow(a, d, candidate);
    proof {
        reveal_with_fuel(pow, 1);
        assert(pow(2, 0) == 1);
        assert(chain_term(candidate as nat, a as nat, d as nat, 0) == x);
    }
    if x == 1 || x == candidate - 1 {
        return true;
    }
    let mut i: u64 = 0;
    while i < s && x != candidate - 1
        invariant
            4 <= candidate <= MAX_CANDIDATE,
            (candidate - 1) * (candidate - 1) <= u64::MAX,
            i <= s,
            x < candidate,
            x == chain_term(candidate as nat, a as nat, d as nat, i as nat),
            forall|j: nat| j < i ==> #[trigger] chain_term(candidate as nat, a as nat, d as nat, j) != candidate - 1,
        decreases s - i,
    {
        proof {
            lemma_chain_step(candidate as nat, a as nat, d as nat, i as nat);
        }
        assert(x * x <= u64::MAX) by (nonlinear_arith)
            requires
                x < candidate,
                (candidate - 1) * (candidate - 1) <= u64::MAX,
        ;
        x = mod_pow(x, 2, candidate);
        i += 1;
    }
    x == candidate - 1
}

/// The Miller–Rabin test with the witnesses given, so that a run can be
/// reproduced.
pub fn miller_rabin_with(candidate: u64, witnesses: &[u64]) -> (r: bool)
    requires
        candidate <= MAX_CANDIDATE,
        candidate >= 4 ==> witnesses_in_range(candidate as nat, witnesses@),
    ensures
        r == miller_rabin_verdict(candidate as nat, witnesses@),
{
    if candidate <= 1 {
        return false;
    }
    if candidate <= 3 {
        return true;
    }
    if candidate % 2 == 0 {
        return false;
    }
    let (d, s) = split_twos(candidate - 1);
    let mut i: usize = 0;
    while i < witnesses.len()
        invariant
            4 <= candidate <= MAX_CANDIDATE,
            candidate % 2 == 1,
            d == odd_part((candidate - 1) as nat),
            s == two_exponent((candidate - 1) as nat),
            witnesses_in_range(candidate as nat, witnesses@),
            i <= witnesses@.len(),
            forall|j: int|
                0 <= j < i ==> miller_rabin_passes(candidate as nat, #[trigger] witnesses@[j] as nat),
        decreases witnesses@.len() - i,
    {
        if !miller_rabin_trial(candidate, witnesses[i], d, s) {
            return false;
        }
        i += 1;
    }
    true
}

/// Runs `attempts` trials with fresh random witnesses, stopping at the first
/// that refutes primality.
fn miller_rabin_core(candidate: u64, attempts: u8) -> (r: bool)
    requires
        4 <= candidate <= MAX_CANDIDATE,
        candidate % 2 == 1,
    ensures
        exists|ws: Seq<u64>|
            #![trigger miller_rabin_verdict(candidate as nat, ws)]
            ws.len() <= attempts && (r ==> ws.len() == attempts) && witnesses_in_range(
                candidate as nat,
                ws,
            ) && r == miller_rabin_verdict(candidate as nat, ws),
{
    let (d, s) = split_twos(candidate - 1);
    let ghost mut drawn: Seq<u64> = Seq::empty();
    let mut k: u8 = 0;
    while k < attempts
        invariant
            4 <= candidate <= MAX_CANDIDATE,
            candidate % 2 == 1,
            d == odd_part((candidate - 1) as nat),
            s == two_exponent((candidate - 1) as nat),
            k <= attempts,
            drawn.len() == k,
            witnesses_in_range(candidate as nat, drawn),
            miller_rabin_verdict(candidate as nat, drawn),
        decreases attempts - k,
    {
        let a = draw_witness(candidate);
        let passes = miller_rabin_trial(candidate, a, d, s);
        proof {
            drawn = drawn.push(a);
            assert(drawn[drawn.len() - 1] == a);
        }
        if !passes {
            assert(!miller_rabin_verdict(candidate as nat, drawn));
            return false;
        }
        k += 1;
    }
    true
}

} // verus!
