use prust::jacobi_symbol::{jacobi_symbol, jacobi_symbol_loop, jacobi_symbol_rec};

fn get_jacobi_test_cases() -> Vec<(i8, i64, i64)> {
    vec![
        (-1, 1001, 9907),
        (1, 219, 383),
        (1, 1236, 20003),
        (-1, 23, 1343),
        (1, 2423, 123123),
    ]
}

#[test]
fn jacobi_symbol_recursive_function() {
    for c in get_jacobi_test_cases() {
        assert!(c.0 == jacobi_symbol_rec(c.1, c.2), "a={}, n={}, s={}", c.1, c.2, c.0);
    }
}

#[test]
fn jacobi_symbol_loop_based_function() {
    for c in get_jacobi_test_cases() {
        assert!(c.0 == jacobi_symbol_loop(c.1, c.2), "a={}, n={}, s={}", c.1, c.2, c.0);
    }
}

#[test]
fn jacobi_symbol_implementations_agree() {
    for n in (1..200i64).step_by(2) {
        for a in 0..400i64 {
            if a == 0 && n == 1 {
                continue;
            }
            assert_eq!(jacobi_symbol_rec(a, n), jacobi_symbol_loop(a, n), "a={}, n={}", a, n);
            assert_eq!(jacobi_symbol(a as u64, n as u64), jacobi_symbol_rec(a, n) as i64);
        }
    }
}

#[test]
fn jacobi_symbol_small_values() {
    assert_eq!(jacobi_symbol(0, 1), 1);
    assert_eq!(jacobi_symbol(0, 3), 0);
    assert_eq!(jacobi_symbol(2, 7), 1);
    assert_eq!(jacobi_symbol(2, 3), -1);
    assert_eq!(jacobi_symbol(3, 9), 0);
    assert_eq!(jacobi_symbol(5, 3), -1);
    assert_eq!(jacobi_symbol_loop(6, 9), 0);
    // (-1 | n) is -1 exactly when n = 3 (mod 4).
    assert_eq!(jacobi_symbol_loop(-1, 7), -1);
    assert_eq!(jacobi_symbol_loop(-1, 5), 1);
}
