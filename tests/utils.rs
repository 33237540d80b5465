use prust::utils::{gcd, mod_pow, mod_pow_checked};

#[test]
fn mod_pow_unchecked_asserts() {
    assert_eq!(mod_pow(5, 2, 7), 4);
    assert_eq!(mod_pow(500, 2000, 50323), 12847);
    assert_eq!(mod_pow(37527821, 18764, 234234), 991);
    assert_eq!(mod_pow(3752127821, 18764, 234234), 28561);
}

#[test]
fn mod_pow_checked_asserts() {
    assert_eq!(mod_pow_checked(-1, 1, 1), None);
    assert_eq!(mod_pow_checked(1, -1, 1), None);
    assert_eq!(mod_pow_checked(1, 1, -1), None);

    assert_eq!(mod_pow_checked(5, 2, 7), Some(4));
    assert_eq!(mod_pow_checked(500, 2000, 50323), Some(12847));
    assert_eq!(mod_pow_checked(37527821, 18764, 234234), Some(991));
    assert_eq!(mod_pow_checked(3752127821, 18764, 234234), None);
}

#[test]
fn gcd_asserts() {
    assert_eq!(gcd(1, 27), 1);
    assert_eq!(gcd(121, 45), 1);
    assert_eq!(gcd(90, 36), 18);
    assert_eq!(gcd(21, 217), 7);
    assert_eq!(gcd(-12, 6), 6);
    assert_eq!(gcd(12, -6), 6);
    assert_eq!(gcd(-12, -6), 6);
    assert_eq!(gcd(-<i64>::max_value(), 7), 7);
}

#[test]
fn mod_pow_exponent_zero_and_one() {
    assert_eq!(mod_pow(12345, 0, 2), 1);
    assert_eq!(mod_pow(0, 0, 97), 1);
    assert_eq!(mod_pow(7, 0, 1), 0);
    assert_eq!(mod_pow(100, 1, 7), 2);
    assert_eq!(mod_pow(2, 10, 1000), 24);
    assert_eq!(mod_pow_checked(9, 0, 5), Some(1));
}

#[test]
fn mod_pow_checked_near_the_bound() {
    // 3037000499^2 fits in i64, 3037000500^2 does not.
    assert_eq!(mod_pow_checked(3037000499, 2, 3037000500), Some(1));
    assert_eq!(mod_pow_checked(3037000500, 2, 7), None);
    assert_eq!(mod_pow_checked(0, 5, 3), Some(0));
}

#[test]
fn gcd_more_cases() {
    assert_eq!(gcd(0, 5), 5);
    assert_eq!(gcd(0, -5), 5);
    assert_eq!(gcd(i64::MIN, 7), 1);
    assert_eq!(gcd(i64::MIN, 6), 2);
    assert_eq!(gcd(48, 18), 6);
}
