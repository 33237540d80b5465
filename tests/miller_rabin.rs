use prust::miller_rabin::{is_prime, miller_rabin, miller_rabin_trial, miller_rabin_with, split_twos};

#[test]
fn miller_rabin_for_border_cases() {
    assert_eq!(miller_rabin(0), false);
    assert_eq!(miller_rabin(1), false);
    assert_eq!(miller_rabin(2), true);
}

#[test]
fn miller_rabin_for_primes() {
    assert_eq!(miller_rabin(3), true);
    assert_eq!(miller_rabin(5), true);
    assert_eq!(miller_rabin(11), true);
    assert_eq!(miller_rabin(307), true);
    assert_eq!(miller_rabin(839), true);
    assert_eq!(miller_rabin(1151), true);
    assert_eq!(miller_rabin(10499), true);
    assert_eq!(miller_rabin(423425347), true);
    assert_eq!(miller_rabin(4194304903), true);
}

#[test]
fn miller_rabin_for_composites() {
    assert_eq!(miller_rabin(4), false);
    assert_eq!(miller_rabin(15), false);
    assert_eq!(miller_rabin(155), false);
    assert_eq!(miller_rabin(400), false);
    assert_eq!(miller_rabin(4009), false);
}

#[test]
fn miller_rabin_entry_point_matches_small_cases() {
    assert!(!is_prime(0));
    assert!(!is_prime(1));
    assert!(is_prime(2));
    assert!(is_prime(3));
    assert!(!is_prime(1000));
}

#[test]
fn miller_rabin_refutes_pseudoprimes_with_small_witnesses() {
    let pseudoprimes: [u64; 12] = [
        121, 703, 1891, 3281, 8321, 15841, 29341, 42799, 49141, 52633, 65281, 74665,
    ];
    for n in pseudoprimes {
        assert!(!miller_rabin_with(n, &[2, 3, 5]), "n={}", n);
    }
}

#[test]
fn miller_rabin_strong_liars_pass_alone() {
    // 121 is a strong pseudoprime to base 3, 8321 to base 2.
    assert!(miller_rabin_with(121, &[3]));
    assert!(!miller_rabin_with(121, &[3, 2]));
    assert!(miller_rabin_with(8321, &[2]));
    assert!(!miller_rabin_with(8321, &[2, 3]));
}

#[test]
fn split_twos_of_even_and_odd() {
    assert_eq!(split_twos(1), (1, 0));
    assert_eq!(split_twos(12), (3, 2));
    assert_eq!(split_twos(838), (419, 1));
    assert_eq!(split_twos(1024), (1, 10));
}

#[test]
fn miller_rabin_trial_on_fixed_witnesses() {
    // 15 - 1 = 7 * 2: 2^7 = 8, 8^2 = 4 (mod 15), never -1.
    assert!(!miller_rabin_trial(15, 2, 7, 1));
    // 13 - 1 = 3 * 4: 2^3 = 8, 8^2 = 12 = -1 (mod 13).
    assert!(miller_rabin_trial(13, 2, 3, 2));
    // 5^3 = 8 (mod 13), 8^2 = 12 = -1.
    assert!(miller_rabin_trial(13, 5, 3, 2));
    assert!(miller_rabin_trial(13, 3, 3, 2));
}

#[test]
fn miller_rabin_with_given_witnesses() {
    assert!(!miller_rabin_with(0, &[]));
    assert!(miller_rabin_with(2, &[]));
    assert!(!miller_rabin_with(400, &[]));
    assert!(miller_rabin_with(839, &[2, 3, 837]));
}
