//! The Jacobi symbol `(a | n)` for odd positive `n`.
use crate::utils::{
    abs, gcd, gcd_spec, lemma_coprime_half, lemma_divides_remainder, lemma_gcd_divides,
    lemma_gcd_swap,
};
use vstd::arithmetic::div_mod::{
    lemma_fundamental_div_mod, lemma_mod_multiples_basic, lemma_mod_self_0, lemma_mul_mod_noop,
    lemma_small_mod,
};
use vstd::prelude::*;

verus! {

/// Well-founded measure for the reduction rules: the sum of both arguments
/// drops on every reduction, and a swap to the larger numerator drops the
/// tie-breaker.
pub open spec fn jacobi_measure(a: int, n: int) -> nat {
    if a >= 0 && n > 0 {
        (2 * (a + n) + if a < n {
            1int
        } else {
            0int
        }) as nat
    } else {
        0
    }
}

/// The Jacobi symbol, defined by its reduction rules, taken in this order:
/// `(0 | n)`, `(2 | n)`, reduction of the numerator modulo `n`, factoring out
/// a two, and reciprocity. Outside `a >= 0` and odd `n > 0` it is taken as 0.
pub open spec fn jacobi(a: int, n: int) -> int
    decreases jacobi_measure(a, n),
{
    if a < 0 || n <= 0 || n % 2 == 0 {
        0
    } else if a == 0 {
        if n == 1 {
            1
        } else {
            0
        }
    } else if a == 2 {
        if n % 8 == 1 || n % 8 == 7 {
            1
        } else {
            -1
        }
    } else if a >= n {
        jacobi(a % n, n)
    } else if a % 2 == 0 {
        jacobi(2, n) * jacobi(a / 2, n)
    } else if a % 4 == 3 && n % 4 == 3 {
        -jacobi(n, a)
    } else {
        jacobi(n, a)
    }
}

/// `(1 | m) = 1`.
pub proof fn lemma_jacobi_one(m: int)
    requires
        m > 0,
        m % 2 == 1,
    ensures
        jacobi(1, m) == 1,
{
    reveal_with_fuel(jacobi, 3);
}

/// A factor two comes out of an even numerator below `m`, as `(2 | m)`,
/// which is -1 exactly when `m` is 3 or 5 modulo 8.
pub proof fn lemma_jacobi_halve(x: int, m: int)
    requires
        0 < x < m,
        x % 2 == 0,
        m % 2 == 1,
    ensures
        jacobi(x, m) == if m % 8 == 3 || m % 8 == 5 {
            -jacobi(x / 2, m)
        } else {
            jacobi(x / 2, m)
        },
{
    let j2 = jacobi(2, m);
    assert(j2 == if m % 8 == 3 || m % 8 == 5 {
        -1int
    } else {
        1int
    });
    if x == 2 {
        lemma_jacobi_one(m);
    } else {
        assert(jacobi(x, m) == j2 * jacobi(x / 2, m));
    }
}

/// Reciprocity and reduction in one step: for odd `x` and `m`, not equal
/// unless both are 1, `(x | m) = ±(m mod x | x)`, negated when both are 3
/// modulo 4.
pub proof fn lemma_jacobi_swap(x: int, m: int)
    requires
        x > 0,
        m > 0,
        x % 2 == 1,
        m % 2 == 1,
        x != m || x == 1,
    ensures
        jacobi(x, m) == if x % 4 == 3 && m % 4 == 3 {
            -jacobi(m % x, x)
        } else {
            jacobi(m % x, x)
        },
{
    if x < m {
        assert(jacobi(m, x) == jacobi(m % x, x));
    } else if x > m {
        lemma_small_mod(m as nat, x as nat);
        assert(m % x == m);
        if m % 4 == 3 && x % 4 == 3 {
            assert(jacobi(m, x) == -jacobi(x, m));
        } else {
            assert(jacobi(m, x) == jacobi(x, m));
        }
    } else {
        reveal_with_fuel(jacobi, 2);
    }
}

/// A divisor of an odd number is odd.
proof fn lemma_divisor_of_odd_is_odd(n: int, g: int)
    requires
        n > 0,
        g > 0,
        n % 2 == 1,
        n % g == 0,
    ensures
        g % 2 == 1,
{
    lemma_fundamental_div_mod(n, g);
    let k = n / g;
    if g % 2 == 0 {
        lemma_fundamental_div_mod(g, 2);
        assert(n == ((g / 2) * k) * 2) by (nonlinear_arith)
            requires
                n == g * k,
                g == 2 * (g / 2),
        ;
        lemma_mod_multiples_basic((g / 2) * k, 2);
    }
}

/// An odd divisor of an even number divides its half.
proof fn lemma_odd_divisor_of_half(a: int, g: int)
    requires
        a > 0,
        g > 0,
        a % 2 == 0,
        g % 2 == 1,
        a % g == 0,
    ensures
        (a / 2) % g == 0,
{
    lemma_fundamental_div_mod(a, g);
    let k = a / g;
    lemma_mul_mod_noop(g, k, 2);
    if k % 2 == 1 {
        assert((g % 2) * (k % 2) % 2 == 1);
    }
    lemma_fundamental_div_mod(k, 2);
    assert(a / 2 == (k / 2) * g) by (nonlinear_arith)
        requires
            a == g * k,
            k == 2 * (k / 2),
    ;
    lemma_mod_multiples_basic(k / 2, g);
}

/// A common divisor above 1 makes the symbol 0.
pub proof fn lemma_jacobi_common_divisor(a: int, n: int, g: int)
    requires
        a >= 0,
        n > 0,
        n % 2 == 1,
        g > 1,
        a % g == 0,
        n % g == 0,
    ensures
        jacobi(a, n) == 0,
    decreases jacobi_measure(a, n),
{
    lemma_divisor_of_odd_is_odd(n, g);
    if n < g {
        lemma_small_mod(n as nat, g as nat);
    }
    if a == 0 {
    } else if a == 2 {
        if g > 2 {
            lemma_small_mod(2, g as nat);
        }
    } else if a >= n {
        lemma_divides_remainder(a as nat, n as nat, g as nat);
        lemma_jacobi_common_divisor(a % n, n, g);
    } else if a % 2 == 0 {
        lemma_odd_divisor_of_half(a, g);
        lemma_jacobi_common_divisor(a / 2, n, g);
    } else {
        lemma_jacobi_common_divisor(n, a, g);
    }
}

/// The Jacobi symbol of two unsigned integers.
pub fn jacobi_symbol(a: u64, n: u64) -> (r: i64)
    requires
        a <= i64::MAX,
        n <= i64::MAX,
        n % 2 == 1,
    ensures
        r == jacobi(a as int, n as int),
        -1 <= r <= 1,
{
    jacobi_symbol_rec(a as i64, n as i64) as i64
}

/// The Jacobi symbol by direct recursion on its reduction rules.
pub fn jacobi_symbol_rec(a: i64, n: i64) -> (r: i8)
    requires
        a >= 0,
        n > 0,
        n % 2 == 1,
    ensures
        r == jacobi(a as int, n as int),
        -1 <= r <= 1,
    decreases jacobi_measure(a as int, n as int),
{
    if a == 0 {
        if n == 1 {
            1
        } else {
            0
        }
    } else if a == 2 {
        if n % 8 == 1 || n % 8 == 7 {
            1
        } else {
            -1
        }
    } else if a >= n {
        jacobi_symbol_rec(a % n, n)
    } else if a % 2 == 0 {
        jacobi_symbol_rec(2, n) * jacobi_symbol_rec(a / 2, n)
    } else if a % 4 == 3 && n % 4 == 3 {
        -1 * jacobi_symbol_rec(n, a)
    } else {
        jacobi_symbol_rec(n, a)
    }
}

/// The Jacobi symbol by the iterative method: after a coprimality check,
/// repeatedly factor out twos, apply reciprocity and swap, keeping the sign.
/// Negative numerators are accepted through `(-1 | n)`.
///
/// It agrees with the reduction rules whenever `a >= 0` and either `a < n`,
/// `a` is odd, or `a` and `n` share a factor (both give 0 then).
pub fn jacobi_symbol_loop(a: i64, n: i64) -> (r: i8)
    requires
        n > 0,
        n % 2 == 1,
        a != i64::MIN,
        !(a == 0 && n == 1),
    ensures
        -1 <= r <= 1,
        r == 0 <==> gcd_spec(abs(a as int), n as nat) != 1,
        a >= 0 && (a < n || a % 2 == 1 || gcd_spec(a as nat, n as nat) != 1) ==> r == jacobi(
            a as int,
            n as int,
        ),
{
    assert(abs(n as int) == n as nat);
    if gcd(a, n) != 1 {
        proof {
            if a >= 0 {
                let g = gcd_spec(a as nat, n as nat);
                lemma_gcd_divides(a as nat, n as nat);
                lemma_jacobi_common_divisor(a as int, n as int, g as int);
            }
        }
        return 0;
    }
    assert(a == 0 ==> gcd_spec(0, n as nat) == gcd_spec(n as nat, 0));
    let mut x = a;
    let mut m = n;
    let mut s: i8 = 1;
    if x < 0 {
        x = -x;
        if m % 4 == 3 {
            s = -s;
        }
    }
    assert(x > 0);
    let ghost tracked_case = a >= 0 && (a < n || a % 2 == 1);
    let ghost target = jacobi(a as int, n as int);
    loop
        invariant
            x > 0,
            m > 0,
            m % 2 == 1,
            s == 1 || s == -1,
            gcd_spec(abs(a as int), n as nat) == 1,
            gcd_spec(x as nat, m as nat) == 1,
            tracked_case == (a >= 0 && (a < n || a % 2 == 1)),
            target == jacobi(a as int, n as int),
            tracked_case ==> (x < m || x % 2 == 1) && target == if s == 1 {
                jacobi(x as int, m as int)
            } else {
                -jacobi(x as int, m as int)
            },
        decreases x,
    {
        let ghost x0 = x;
        let mut t: u64 = 0;
        while x % 2 == 0
            invariant
                0 < x <= x0,
                t + x <= x0,
                m > 0,
                m % 2 == 1,
                gcd_spec(x as nat, m as nat) == 1,
                tracked_case ==> x < m || x % 2 == 1,
                tracked_case ==> jacobi(x0 as int, m as int) == if t % 2 == 1 && (m % 8 == 3 || m
                    % 8 == 5) {
                    -jacobi(x as int, m as int)
                } else {
                    jacobi(x as int, m as int)
                },
            decreases x,
        {
            proof {
                lemma_coprime_half(x as nat, m as nat);
                if tracked_case {
                    lemma_jacobi_halve(x as int, m as int);
                }
            }
            t += 1;
            x = x / 2;
        }
        if t % 2 != 0 {
            if m % 8 == 3 || m % 8 == 5 {
                s = -s;
            }
        }
        if x % 4 == 3 && m % 4 == 3 {
            s = -s;
        }
        proof {
            lemma_gcd_swap(x as nat, m as nat);
            if x == m {
                lemma_mod_self_0(x as int);
                assert(gcd_spec(x as nat, x as nat) == gcd_spec(x as nat, 0));
            }
            if tracked_case {
                lemma_jacobi_swap(x as int, m as int);
            }
        }
        let tmp = x;
        x = m % tmp;
        m = tmp;
        if x == 0 {
            proof {
                lemma_small_mod(0, m as nat);
            }
            assert(gcd_spec(0, m as nat) == gcd_spec(m as nat, 0));
            return s;
        }
    }
}

} // verus!
