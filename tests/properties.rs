use prust::{fermat, miller_rabin, solovay_strassen};
use prust::witness::draw_witness;

const PRIMES: [u64; 8] = [5, 11, 307, 839, 1151, 10499, 423425347, 4194304903];

#[test]
fn zero_and_one_are_never_prime() {
    for c in [0u64, 1] {
        assert!(!fermat::is_prime(c));
        assert!(!solovay_strassen::is_prime(c));
        assert!(!miller_rabin::is_prime(c));
    }
}

#[test]
fn two_and_three_are_always_prime() {
    for c in [2u64, 3] {
        assert!(fermat::is_prime(c));
        assert!(solovay_strassen::is_prime(c));
        assert!(miller_rabin::is_prime(c));
    }
}

#[test]
fn primes_pass_on_every_repetition() {
    // No witness refutes a prime, so the verdict is stable.
    for p in PRIMES {
        for _ in 0..100 {
            assert!(fermat::is_prime(p), "p={}", p);
            assert!(solovay_strassen::is_prime(p), "p={}", p);
            assert!(miller_rabin::is_prime(p), "p={}", p);
        }
    }
}

#[test]
fn small_composites_fail_on_every_repetition() {
    for _ in 0..100 {
        for c in [4u64, 400] {
            assert!(!fermat::is_prime(c));
            assert!(!solovay_strassen::is_prime(c));
            assert!(!miller_rabin::is_prime(c));
        }
        // 15 and 155 have no Euler or strong liars.
        for c in [15u64, 155] {
            assert!(!solovay_strassen::is_prime(c));
            assert!(!miller_rabin::is_prime(c));
        }
    }
}

#[test]
fn drawn_witnesses_stay_in_range_and_vary() {
    assert_eq!(draw_witness(4), 2);
    let mut seen_other = false;
    for _ in 0..200 {
        let a = draw_witness(1_000_000);
        assert!((2..=999_998).contains(&a));
        if a != 2 {
            seen_other = true;
        }
    }
    assert!(seen_other);
}
