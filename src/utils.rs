//! Modular exponentiation and the greatest common divisor.
use vstd::arithmetic::div_mod::*;
use vstd::arithmetic::power::*;
use vstd::prelude::*;

verus! {

/// `base^exponent mod modulus`, computed in the integers.
pub open spec fn pow_mod(base: int, exponent: nat, modulus: int) -> int {
    pow(base, exponent) % modulus
}

/// One round of square-and-multiply keeps `result * value^power` fixed modulo `m`:
/// the odd bit goes into the result, the rest into the squared value.
proof fn lemma_square_and_multiply_step(r: int, v: int, p: nat, m: int)
    requires
        m > 0,
        p > 0,
    ensures
        (r * pow(v, p)) % m == ((if p % 2 == 1 { (r * v) % m } else { r }) * pow(
            (v * v) % m,
            p / 2,
        )) % m,
{
    let k = p / 2;
    let r2 = if p % 2 == 1 { (r * v) % m } else { r };
    reveal(pow);
    assert(pow(v, 2) == v * v) by {
        reveal_with_fuel(pow, 3);
    }
    lemma_pow_multiplies(v, 2, k);
    lemma_pow_mod_noop(v * v, k, m);
    let q = pow(v * v, k);
    assert(pow(v, 2 * k) == q);
    if p % 2 == 1 {
        assert(pow(v, p) == v * pow(v, 2 * k));
        assert(r * pow(v, p) == (r * v) * q) by (nonlinear_arith)
            requires
                pow(v, p) == v * q,
        ;
        lemma_mul_mod_noop(r * v, q, m);
        lemma_mul_mod_noop(r2, pow((v * v) % m, k), m);
        lemma_mod_twice(r * v, m);
    } else {
        assert(p == 2 * k);
        lemma_mul_mod_noop(r, q, m);
        lemma_mul_mod_noop(r, pow((v * v) % m, k), m);
    }
}

/// Computes `value^power mod modulus` by square-and-multiply over the bits of
/// `power`, least significant first; the final squaring is skipped.
///
/// Every intermediate product must fit in 64 bits: residues are below
/// `modulus`, and `value` itself is squared once before it is reduced.
pub fn mod_pow(value: u64, power: u64, modulus: u64) -> (r: u64)
    requires
        modulus >= 1,
        (modulus - 1) * (modulus - 1) <= u64::MAX,
        power > 1 ==> value * value <= u64::MAX,
    ensures
        r as int == pow_mod(value as int, power as nat, modulus as int),
{
    let ghost b0 = value as int;
    let ghost e0 = power as nat;
    let ghost m = modulus as int;
    let mut value = value;
    let mut power = power;
    let mut result: u64 = 1;
    while power != 0
        invariant
            m == modulus as int,
            m >= 1,
            (m - 1) * (m - 1) <= u64::MAX,
            e0 > 1 ==> b0 * b0 <= u64::MAX,
            result == 1 || result < modulus,
            value >= modulus ==> value as int == b0 && ((power as nat == e0 && result == 1)
                || power == 0),
            (result * pow(value as int, power as nat)) % m == pow(b0, e0) % m,
        decreases power,
    {
        assert(power & 1 == power % 2) by (bit_vector);
        assert(power >> 1 == power / 2) by (bit_vector);
        proof {
            lemma_square_and_multiply_step(result as int, value as int, power as nat, m);
        }
        let ghost r_old = result as int;
        let ghost v_old = value as int;
        if power & 1 == 1 {
            assert(result * value <= u64::MAX) by (nonlinear_arith)
                requires
                    result == 1 || result < modulus,
                    value < modulus || result == 1,
                    (modulus - 1) * (modulus - 1) <= u64::MAX,
                    value <= u64::MAX,
            ;
            result = (result * value) % modulus;
        }
        if power != 1 {
            assert(value * value <= u64::MAX) by (nonlinear_arith)
                requires
                    value < modulus || value * value <= u64::MAX,
                    (modulus - 1) * (modulus - 1) <= u64::MAX,
            ;
            value = (value * value) % modulus;
        } else {
            assert(pow(value as int, 0) == pow((v_old * v_old) % m, 0)) by {
                lemma_pow0(value as int);
                lemma_pow0((v_old * v_old) % m);
            }
        }
        power = power >> 1;
    }
    proof {
        lemma_pow0(value as int);
    }
    result % modulus
}

/// Any value raised to the power zero is 1 modulo every modulus above 1.
pub proof fn lemma_mod_pow_exponent_zero(base: int, modulus: int)
    requires
        modulus > 1,
    ensures
        pow_mod(base, 0, modulus) == 1,
{
    lemma_pow0(base);
    lemma_small_mod(1, modulus as nat);
}

/// Whether every product that square-and-multiply forms, starting from
/// `result` and `value` with `power` left, stays at or below `i64::MAX`.
pub open spec fn products_fit(result: int, value: int, power: nat, modulus: int) -> bool
    decreases power,
{
    if power == 0 {
        true
    } else {
        &&& (power % 2 == 1 ==> result * value <= i64::MAX)
        &&& (power != 1 ==> value * value <= i64::MAX)
        &&& products_fit(
            if power % 2 == 1 { (result * value) % modulus } else { result },
            if power != 1 { (value * value) % modulus } else { value },
            power / 2,
            modulus,
        )
    }
}

/// Products stay in range when residues below `modulus` square within
/// `i64`, and a value not yet reduced is squared within `i64` too.
pub proof fn lemma_products_fit_when_small(result: int, value: int, power: nat, modulus: int)
    requires
        modulus > 0,
        (modulus - 1) * (modulus - 1) <= i64::MAX,
        0 <= value <= i64::MAX,
        result == 1 || 0 <= result < modulus,
        value >= modulus ==> result == 1 && (power > 1 ==> value * value <= i64::MAX),
    ensures
        products_fit(result, value, power, modulus),
    decreases power,
{
    if power > 0 {
        assert(power % 2 == 1 ==> result * value <= i64::MAX) by (nonlinear_arith)
            requires
                (modulus - 1) * (modulus - 1) <= i64::MAX,
                0 <= value <= i64::MAX,
                result == 1 || 0 <= result < modulus,
                value >= modulus ==> result == 1,
        ;
        assert(power != 1 ==> value * value <= i64::MAX) by (nonlinear_arith)
            requires
                (modulus - 1) * (modulus - 1) <= i64::MAX,
                0 <= value,
                value >= modulus ==> (power > 1 ==> value * value <= i64::MAX),
                power > 0,
        ;
        let r2 = if power % 2 == 1 { (result * value) % modulus } else { result };
        let v2 = if power != 1 { (value * value) % modulus } else { value };
        if power == 1 {
            assert(products_fit(r2, v2, 0, modulus));
        } else {
            lemma_mod_bound(result * value, modulus);
            lemma_mod_bound(value * value, modulus);
            assert((modulus - 1) * (modulus - 1) >= modulus - 1) by (nonlinear_arith)
                requires
                    modulus > 0,
            ;
            lemma_products_fit_when_small(r2, v2, power / 2, modulus);
        }
        assert(products_fit(r2, v2, power / 2, modulus));
    }
}

/// `mod_pow` with every multiplication checked: `None` on a negative
/// argument or as soon as a product would overflow `i64`.
pub fn mod_pow_checked(value: i64, power: i64, modulus: i64) -> (r: Option<i64>)
    requires
        modulus != 0,
    ensures
        value < 0 || power < 0 || modulus < 0 ==> r is None,
        value >= 0 && power >= 0 && modulus > 0 ==> (r is Some <==> products_fit(
            1,
            value as int,
            power as nat,
            modulus as int,
        )),
        r matches Some(x) ==> x as int == pow_mod(value as int, power as nat, modulus as int),
        value >= 0 && power >= 0 && modulus > 0 && (modulus - 1) * (modulus - 1) <= i64::MAX && (
        power > 1 ==> value * value <= i64::MAX) ==> r is Some,
{
    proof {
        if value >= 0 && power >= 0 && modulus > 0 && (modulus - 1) * (modulus - 1) <= i64::MAX && (
        power > 1 ==> value * value <= i64::MAX) {
            lemma_products_fit_when_small(1, value as int, power as nat, modulus as int);
        }
    }
    if value < 0 || power < 0 || modulus < 0 {
        return None;
    }
    let ghost b0 = value as int;
    let ghost e0 = power as nat;
    let ghost m = modulus as int;
    let mut base = value;
    let mut exp = power;
    let mut result: i64 = 1;
    while exp != 0
        invariant
            m == modulus as int,
            b0 == value as int,
            power >= 0,
            e0 == power as nat,
            m >= 1,
            result >= 0,
            base >= 0,
            exp >= 0,
            products_fit(result as int, base as int, exp as nat, m) == products_fit(1, b0, e0, m),
            (m - 1) * (m - 1) <= i64::MAX && (e0 > 1 ==> b0 * b0 <= i64::MAX) ==> products_fit(
                1,
                b0,
                e0,
                m,
            ),
            (result * pow(base as int, exp as nat)) % m == pow(b0, e0) % m,
        decreases exp,
    {
        assert(exp & 1 == exp % 2) by (bit_vector)
            requires
                exp >= 0,
        ;
        assert(exp >> 1 == exp / 2) by (bit_vector)
            requires
                exp >= 0,
        ;
        proof {
            lemma_square_and_multiply_step(result as int, base as int, exp as nat, m);
        }
        let ghost v_old = base as int;
        let ghost r_old = result as int;
        let ghost p_old = exp as nat;
        assert(products_fit(r_old, v_old, p_old, m) == ((p_old % 2 == 1 ==> r_old * v_old
            <= i64::MAX) && (p_old != 1 ==> v_old * v_old <= i64::MAX) && products_fit(
            if p_old % 2 == 1 { (r_old * v_old) % m } else { r_old },
            if p_old != 1 { (v_old * v_old) % m } else { v_old },
            p_old / 2,
            m,
        )));
        if exp & 1 == 1 {
            match result.checked_mul(base) {
                Some(product) => result = product % modulus,
                None => return None,
            }
        }
        if exp != 1 {
            match base.checked_mul(base) {
                Some(product) => base = product % modulus,
                None => return None,
            }
        } else {
            assert(pow(base as int, 0) == pow((v_old * v_old) % m, 0)) by {
                lemma_pow0(base as int);
                lemma_pow0((v_old * v_old) % m);
            }
        }
        exp = exp >> 1;
    }
    proof {
        lemma_pow0(base as int);
    }
    Some(result % modulus)
}

/// Euclid's algorithm on natural numbers.
pub open spec fn gcd_spec(a: nat, b: nat) -> nat
    decreases b,
{
    if b == 0 {
        a
    } else {
        gcd_spec(b, a % b)
    }
}

/// `d` divides `y` and `x % y`, hence `x`.
proof fn lemma_divides_from_remainder(x: nat, y: nat, d: nat)
    requires
        d > 0,
        y > 0,
        y % d == 0,
        (x % y) % d == 0,
    ensures
        x % d == 0,
{
    lemma_fundamental_div_mod(x as int, y as int);
    lemma_fundamental_div_mod(y as int, d as int);
    lemma_fundamental_div_mod((x % y) as int, d as int);
    let q = x / y;
    let k1 = y / d;
    let k2 = (x % y) / d;
    assert(x == d * (k1 * q + k2)) by (nonlinear_arith)
        requires
            x == y * q + x % y,
            y == d * k1,
            x % y == d * k2,
    ;
    lemma_mod_multiples_basic((k1 * q + k2) as int, d as int);
}

/// From `x = y*q + r`, `x = d*k1` and `y = d*k2`: `r = (k1 - k2*q) * d`.
proof fn lemma_remainder_as_multiple(x: int, y: int, d: int, q: int, k1: int, k2: int, r: int)
    requires
        x == y * q + r,
        x == d * k1,
        y == d * k2,
    ensures
        r == (k1 - k2 * q) * d,
{
    assert(r == (k1 - k2 * q) * d) by (nonlinear_arith)
        requires
            x == y * q + r,
            x == d * k1,
            y == d * k2,
    ;
}

/// `d` divides `x` and `y`, hence `x % y`.
pub proof fn lemma_divides_remainder(x: nat, y: nat, d: nat)
    requires
        d > 0,
        y > 0,
        x % d == 0,
        y % d == 0,
    ensures
        (x % y) % d == 0,
{
    lemma_fundamental_div_mod(x as int, y as int);
    lemma_fundamental_div_mod(x as int, d as int);
    lemma_fundamental_div_mod(y as int, d as int);
    lemma_remainder_as_multiple(
        x as int,
        y as int,
        d as int,
        (x / y) as int,
        (x / d) as int,
        (y / d) as int,
        (x % y) as int,
    );
    lemma_mod_multiples_basic((x / d) as int - ((y / d) * (x / y)) as int, d as int);
}

/// The gcd divides both arguments.
pub proof fn lemma_gcd_divides(x: nat, y: nat)
    requires
        x > 0 || y > 0,
    ensures
        gcd_spec(x, y) > 0,
        x % gcd_spec(x, y) == 0,
        y % gcd_spec(x, y) == 0,
    decreases y,
{
    if y == 0 {
        lemma_mod_self_0(x as int);
        lemma_small_mod(0, x);
    } else {
        lemma_gcd_divides(y, x % y);
        lemma_divides_from_remainder(x, y, gcd_spec(x, y));
    }
}

/// Every common divisor of the arguments divides their gcd.
pub proof fn lemma_common_divisor_divides_gcd(x: nat, y: nat, d: nat)
    requires
        d > 0,
        x % d == 0,
        y % d == 0,
    ensures
        gcd_spec(x, y) % d == 0,
    decreases y,
{
    if y > 0 {
        lemma_divides_remainder(x, y, d);
        lemma_common_divisor_divides_gcd(y, x % y, d);
    }
}

/// Halving an even number keeps it coprime to `m`.
pub proof fn lemma_coprime_half(x: nat, m: nat)
    requires
        x % 2 == 0,
        m > 0,
        gcd_spec(x, m) == 1,
    ensures
        gcd_spec(x / 2, m) == 1,
{
    let g = gcd_spec(x / 2, m);
    lemma_gcd_divides(x / 2, m);
    lemma_fundamental_div_mod((x / 2) as int, g as int);
    let k = (x / 2) / g;
    assert(x == g * (2 * k)) by (nonlinear_arith)
        requires
            x == 2 * (x / 2),
            x / 2 == g * k,
    ;
    lemma_mod_multiples_basic((2 * k) as int, g as int);
    lemma_common_divisor_divides_gcd(x, m, g);
    if g > 1 {
        lemma_small_mod(1, g);
    }
}

/// One step of Euclid's algorithm from either order of the arguments.
pub proof fn lemma_gcd_swap(x: nat, m: nat)
    requires
        x > 0,
        m > 0,
    ensures
        gcd_spec(m % x, x) == gcd_spec(x, m),
{
    lemma_mod_twice(m as int, x as int);
    assert(gcd_spec(m % x, x) == gcd_spec(x, m % x));
    if x < m {
        lemma_small_mod(x, m);
        assert(gcd_spec(x, m) == gcd_spec(m, x));
    } else if x > m {
        lemma_small_mod(m, x);
    } else {
        lemma_mod_self_0(x as int);
        assert(gcd_spec(x, x) == gcd_spec(x, 0));
    }
}

/// Absolute value.
pub open spec fn abs(x: int) -> nat {
    if x < 0 {
        (-x) as nat
    } else {
        x as nat
    }
}

/// A negative divisor leaves the same (non-negative) remainder as its magnitude.
proof fn lemma_mod_negated_divisor(x: int, d: int)
    requires
        d < 0,
    ensures
        x % d == x % (-d),
        0 <= x % d < -d,
{
    lemma_fundamental_div_mod(x, d);
    let q = x / d;
    let r = x % d;
    assert(x == (-q) * (-d) + r) by (nonlinear_arith)
        requires
            x == d * q + r,
    ;
    lemma_fundamental_div_mod_converse_mod(x, -d, -q, r);
}

/// Greatest common divisor of two signed integers, always non-negative.
///
/// Rust's remainder takes the sign of the dividend, so the magnitudes follow
/// Euclid's algorithm on `|a|` and `|b|`; the last non-zero term is negated when
/// negative. `i64::MIN % -1` overflows and a result of `2^63` does not fit, so
/// those inputs are left out.
pub fn gcd(a: i64, b: i64) -> (g: i64)
    requires
        b != 0,
        !(a == i64::MIN && b == -1),
        !(a == -1 && b == i64::MIN),
        !(b == i64::MIN && (a == 0 || a == i64::MIN)),
    ensures
        g >= 0,
        g as int == gcd_spec(abs(a as int), abs(b as int)),
{
    let ghost target = gcd_spec(abs(a as int), abs(b as int));
    let mut x = a;
    let mut y = b;
    loop
        invariant
            y != 0,
            !(x == i64::MIN && y == -1),
            !(x == -1 && y == i64::MIN),
            !(y == i64::MIN && (x == 0 || x == i64::MIN)),
            gcd_spec(abs(x as int), abs(y as int)) == target,
            target == gcd_spec(abs(a as int), abs(b as int)),
        decreases abs(y as int),
    {
        let rem = x % y;
        proof {
            if y < 0 {
                lemma_mod_negated_divisor(x as int, y as int);
                lemma_mod_negated_divisor(-(x as int), y as int);
            }
            if x >= 0 {
                assert(rem as int == (x as int) % (y as int));
            } else {
                assert(rem as int == -((-(x as int)) % (y as int)));
            }
        }
        assert(abs(rem as int) == abs(x as int) % abs(y as int));
        assert(x < 0 ==> rem <= 0);
        assert(x >= 0 ==> rem >= 0);
        if y == i64::MIN && x != i64::MIN {
            proof {
                lemma_small_mod(abs(x as int), abs(y as int));
            }
        }
        let ghost a_old = x as int;
        x = rem;
        if x == 0 {
            assert(gcd_spec(abs(a_old), abs(y as int)) == gcd_spec(abs(y as int), 0));
            assert(gcd_spec(abs(y as int), 0) == abs(y as int));
            assert(target == abs(y as int));
            if y < 0 {
                return -y;
            }
            return y;
        }
        let t = y;
        y = x;
        x = t;
    }
}

} // verus!
