use prust::solovay_strassen::{solovay_strassen, solovay_strassen_with, solovay_strassen_trial, is_prime};

#[test]
fn solovay_strassen_for_border_cases() {
    assert_eq!(solovay_strassen(0), false);
    assert_eq!(solovay_strassen(1), false);
    assert_eq!(solovay_strassen(2), true);
}

#[test]
fn solovay_strassen_for_primes() {
    assert_eq!(solovay_strassen(3), true);
    assert_eq!(solovay_strassen(5), true);
    assert_eq!(solovay_strassen(11), true);
    assert_eq!(solovay_strassen(307), true);
    assert_eq!(solovay_strassen(839), true);
    assert_eq!(solovay_strassen(1151), true);
    assert_eq!(solovay_strassen(10499), true);
    assert_eq!(solovay_strassen(423425347), true);
}

#[test]
fn solovay_strassen_for_composites() {
    assert_eq!(solovay_strassen(4), false);
    assert_eq!(solovay_strassen(15), false);
    assert_eq!(solovay_strassen(155), false);
    assert_eq!(solovay_strassen(400), false);
    assert_eq!(solovay_strassen(4009), false);
}

#[test]
fn solovay_strassen_entry_point_matches_small_cases() {
    assert!(!is_prime(0));
    assert!(!is_prime(1));
    assert!(is_prime(2));
    assert!(is_prime(3));
    assert!(is_prime(4194304903));
}

#[test]
fn solovay_strassen_trial_on_fixed_witnesses() {
    // 4^7 = 4 (mod 15): neither 1 nor 14.
    assert!(!solovay_strassen_trial(15, 4));
    // 2^5 = 10 = -1 (mod 11) and (2 | 11) = -1.
    assert!(solovay_strassen_trial(11, 2));
    // 3^5 = 1 (mod 11) and (3 | 11) = 1.
    assert!(solovay_strassen_trial(11, 3));
    // 1891 = 31 * 61: 3^945 = -1 (mod 1891) and (3 | 1891) = -1.
    assert!(solovay_strassen_trial(1891, 3));
    assert!(!solovay_strassen_trial(1891, 2));
}

#[test]
fn solovay_strassen_with_given_witnesses() {
    assert!(solovay_strassen_with(1891, &[3, 9]));
    assert!(!solovay_strassen_with(1891, &[3, 2]));
    assert!(solovay_strassen_with(839, &[2, 3, 837]));
    assert!(!solovay_strassen_with(10, &[3]));
    assert!(!solovay_strassen_with(1, &[]));
    assert!(solovay_strassen_with(3, &[]));
    assert!(solovay_strassen_with(4009, &[]));
}
