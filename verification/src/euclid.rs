//! Integer facts behind the Euclidean machinery: truncating division and
//! remainder as mathematical functions, the greatest common divisor of
//! non-negative integers, and divisibility lemmas about it.

use vstd::prelude::*;
use vstd::arithmetic::div_mod::*;
use vstd::math::abs;

verus! {

/// The absolute value, as an `int`.
pub open spec fn mag(x: int) -> int {
    abs(x) as int
}

/// The quotient of truncating (round-toward-zero) division, as Rust's `/`
/// computes it on signed integers.
pub open spec fn t_div(a: int, b: int) -> int {
    if (a >= 0) == (b >= 0) {
        mag(a) / mag(b)
    } else {
        -(mag(a) / mag(b))
    }
}

/// The remainder of truncating division, as Rust's `%` computes it on signed
/// integers: its magnitude is `|a| % |b|` and its sign is the sign of `a`.
pub open spec fn t_mod(a: int, b: int) -> int {
    if a >= 0 {
        mag(a) % mag(b)
    } else {
        -(mag(a) % mag(b))
    }
}

/// Truncating division and remainder reconstruct the dividend, and the
/// remainder's magnitude is strictly below the divisor's.
pub proof fn lemma_t_div_mod(a: int, b: int)
    requires
        b != 0,
    ensures
        a == b * t_div(a, b) + t_mod(a, b),
        mag(t_mod(a, b)) < mag(b),
        mag(t_div(a, b)) <= mag(a),
{
    let m = mag(a);
    let n = mag(b);
    lemma_fundamental_div_mod(m, n);
    lemma_div_pos_is_pos(m, n);
    lemma_div_is_ordered_by_denominator(m, 1, n);
    lemma_div_by_self(n);
    assert(m == n * (m / n) + m % n);
    assert(b * t_div(a, b) == (if a >= 0 { n * (m / n) } else { -(n * (m / n)) }))
        by (nonlinear_arith)
        requires
            b != 0,
            n == mag(b),
            m == mag(a),
        ;
}

/// The greatest common divisor of two non-negative integers, by the
/// Euclidean recursion on the first argument.
pub open spec fn gcd_e(a: int, b: int) -> int
    recommends
        a >= 0,
        b >= 0,
    decreases a,
    when a >= 0
{
    if a == 0 {
        b
    } else {
        gcd_e(b % a, a)
    }
}

/// `gcd_e(a, b)` divides both of its arguments, and is positive unless both
/// are zero.
pub proof fn lemma_gcd_e_divides(a: int, b: int)
    requires
        a >= 0,
        b >= 0,
    ensures
        a > 0 || b > 0 ==> gcd_e(a, b) >= 1,
        gcd_e(a, b) >= 1 ==> a % gcd_e(a, b) == 0 && b % gcd_e(a, b) == 0,
    decreases a,
{
    if a == 0 {
        if b > 0 {
            lemma_mod_self_0(b);
            assert(0int % b == 0) by {
                lemma_small_mod(0nat, b as nat);
            }
        }
    } else {
        lemma_mod_bound(b, a);
        lemma_gcd_e_divides(b % a, a);
        let g = gcd_e(a, b);
        assert(g == gcd_e(b % a, a));
        assert(g >= 1);
        assert((b % a) % g == 0 && a % g == 0);
        // b == a * (b / a) + b % a, and g divides both summands.
        lemma_fundamental_div_mod(b, a);
        lemma_add_mod_noop(a * (b / a), b % a, g);
        lemma_mul_mod_noop_left(a, b / a, g);
        assert((a * (b / a)) % g == ((a % g) * (b / a)) % g);
        assert((a % g) * (b / a) == 0) by (nonlinear_arith)
            requires
                a % g == 0,
            ;
        lemma_small_mod(0nat, g as nat);
        assert(b % g == 0);
    }
}

/// Any common divisor of `a` and `b` divides `gcd_e(a, b)`.
pub proof fn lemma_gcd_e_greatest(a: int, b: int, d: int)
    requires
        a >= 0,
        b >= 0,
        d >= 1,
        a % d == 0,
        b % d == 0,
    ensures
        gcd_e(a, b) % d == 0,
    decreases a,
{
    if a == 0 {
    } else {
        // b % a == b - a * (b / a) is also a multiple of d.
        lemma_mod_bound(b, a);
        lemma_fundamental_div_mod(b, a);
        lemma_sub_mod_noop(b, a * (b / a), d);
        lemma_mul_mod_noop_left(a, b / a, d);
        assert((a % d) * (b / a) == 0) by (nonlinear_arith)
            requires
                a % d == 0,
            ;
        lemma_small_mod(0nat, d as nat);
        assert((b % a) % d == (b % d - (a * (b / a)) % d) % d);
        assert((b % a) % d == 0);
        lemma_gcd_e_greatest(b % a, a, d);
    }
}

/// A positive number with no divisor strictly between one and itself.
pub open spec fn is_prime(p: int) -> bool {
    p >= 2 && forall|d: int| 2 <= d < p ==> #[trigger] (p % d) != 0
}

/// A positive divisor of a positive number is no larger than it.
pub proof fn lemma_divisor_le(x: int, d: int)
    requires
        x >= 1,
        d >= 1,
        x % d == 0,
    ensures
        d <= x,
{
    if d > x {
        lemma_small_mod(x as nat, d as nat);
    }
}

/// A residue `1 <= a < q` of a prime `q` is coprime to it.
pub proof fn lemma_gcd_e_prime(a: int, q: int)
    requires
        1 <= a < q,
        is_prime(q),
    ensures
        gcd_e(a, q) == 1,
{
    let g = gcd_e(a, q);
    lemma_gcd_e_divides(a, q);
    lemma_divisor_le(a, g);
    assert(g < q);
    if g >= 2 {
        assert(q % g != 0);
        assert(false);
    }
}

} // verus!
