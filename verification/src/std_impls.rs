//! Concrete instances of the algebraic capabilities: the machine signed
//! integers as rings (with 64-bit integers as a Euclidean domain), the
//! fixed-modulus field type `ZM`, and the additive group `AdditiveGroupZM`.

use vstd::prelude::*;
use vstd::arithmetic::div_mod::*;
use vstd::arithmetic::power::*;
use vstd::math::abs;

use rand::{Rng, SeedableRng};

use crate::algebra::{AlgebraError, EuclideanDomain, Field, Group, OrderedRing, PoRing, Ring, ext_gcd};
use crate::euclid::{gcd_e, is_prime, lemma_divisor_le, lemma_gcd_e_divides, lemma_gcd_e_greatest,
    lemma_gcd_e_prime, lemma_t_div_mod, mag, t_div, t_mod};

verus! {

/// Whether a mathematical integer fits a 64-bit signed representation.
pub open spec fn i64_in_range(x: int) -> bool {
    i64::MIN <= x <= i64::MAX
}

/// What truncating division-with-remainder returns on 64-bit integers.
pub open spec fn i64_qr(a: i64, b: i64) -> (i64, i64) {
    (t_div(a as int, b as int) as i64, t_mod(a as int, b as int) as i64)
}

/// The mirror of the Euclidean algorithm on 64-bit integers: divide the
/// size-larger operand by the size-smaller one and recurse on the remainder.
pub open spec fn i64_gcd(a: i64, b: i64) -> i64
    decreases mag(b as int), mag(a as int),
    via i64_gcd_decreases
{
    if a == 0 {
        b
    } else if b == 0 {
        a
    } else if mag(a as int) < mag(b as int) {
        i64_gcd(b, a)
    } else {
        i64_gcd(b, i64_qr(a, b).1)
    }
}

#[via_fn]
proof fn i64_gcd_decreases(a: i64, b: i64) {
    if a != 0 && b != 0 && mag(a as int) >= mag(b as int) {
        lemma_t_div_mod(a as int, b as int);
    }
}

/// The mirror of the extended Euclidean algorithm on 64-bit integers,
/// reporting `Overflow` where a Bézout coefficient computation would not
/// fit the representation.
pub open spec fn i64_ext_gcd(a: i64, b: i64) -> Result<(i64, i64, i64), AlgebraError>
    decreases mag(a as int),
    via i64_ext_gcd_decreases
{
    if a == 0 {
        Ok((b, 0i64, 1i64))
    } else {
        let (q, r) = i64_qr(b, a);
        match i64_ext_gcd(r, a) {
            Ok((g, x1, y1)) => {
                if i64_in_range(q * x1) && i64_in_range(y1 - q * x1) {
                    Ok((g, (y1 - q * x1) as i64, x1))
                } else {
                    Err(AlgebraError::Overflow)
                }
            },
            Err(e) => Err(e),
        }
    }
}

#[via_fn]
proof fn i64_ext_gcd_decreases(a: i64, b: i64) {
    if a != 0 {
        lemma_t_div_mod(b as int, a as int);
    }
}

/// The magnitude of a product is the product of the magnitudes.
proof fn lemma_mag_mul(x: int, y: int)
    ensures
        mag(x * y) == mag(x) * mag(y),
{
    let mx = mag(x);
    let my = mag(y);
    assert((x * y == mx * my) || (x * y == -(mx * my))) by (nonlinear_arith)
        requires
            mx == x || mx == -x,
            my == y || my == -y,
        ;
    assert(mx * my >= 0) by (nonlinear_arith)
        requires
            mx >= 0,
            my >= 0,
        ;
}

/// The magnitude of a power is the power of the magnitude.
proof fn lemma_pow_mag(b: int, e: nat)
    ensures
        mag(pow(b, e)) == pow(mag(b), e),
    decreases e,
{
    reveal(pow);
    if e == 0 {
    } else {
        lemma_pow_mag(b, (e - 1) as nat);
        lemma_mag_mul(b, pow(b, (e - 1) as nat));
    }
}

/// Once a power of `b` has left the symmetric range `[-hi - 1, hi]`, no
/// later power returns to it.
proof fn lemma_pow_escape(b: int, i: nat, n: nat, hi: int)
    requires
        hi >= 1,
        1 <= i <= n,
        !(-hi - 1 <= pow(b, i) <= hi),
    ensures
        !(-hi - 1 <= pow(b, n) <= hi),
{
    lemma_pow_mag(b, i);
    lemma_pow_mag(b, n);
    let m = mag(b);
    if m <= 1 {
        // powers of 0, 1 and -1 have magnitude at most 1 and never escape
        if m == 0 {
            lemma0_pow(i);
        } else {
            lemma1_pow(i);
        }
        assert(false);
    } else {
        let mi = pow(m, i) as int;
        let mn = pow(m, n) as int;
        assert(mi >= hi + 1);
        if n > i {
            lemma_pow_adds(m, i, (n - i) as nat);
            lemma_pow_increases(m as nat, 1nat, (n - i) as nat);
            lemma_pow1(m);
            assert(pow(m, (n - i) as nat) >= 2);
            assert(mn >= 2 * mi) by (nonlinear_arith)
                requires
                    mn == mi * pow(m, (n - i) as nat),
                    pow(m, (n - i) as nat) >= 2,
                    mi >= 0,
                ;
            assert(mn >= 2 * hi + 2);
            let vn = pow(b, n);
            assert(vn == mn || vn == -mn);
        }
    }
}

/// Raises `base` to the `n`-th power by repeated multiplication, reporting
/// `Overflow` as soon as the running product leaves `[lo, hi]`, which for a
/// symmetric-plus-one machine range happens exactly when the final power
/// would not fit it.
fn pow_within(base: i128, n: u64, lo: i128, hi: i128) -> (r: Result<i128, AlgebraError>)
    requires
        lo == -hi - 1,
        hi >= 1,
        lo <= base <= hi,
    ensures
        (match r {
            Ok(v) => v == pow(base as int, n as nat) && lo <= v <= hi,
            Err(e) => e == AlgebraError::Overflow && !(lo <= pow(base as int, n as nat) <= hi),
        }),
{
    let mut p: i128 = 1;
    let mut i: u64 = 0;
    proof {
        lemma_pow0(base as int);
    }
    while i < n
        invariant
            lo == -hi - 1,
            hi >= 1,
            lo <= base <= hi,
            i <= n,
            p == pow(base as int, i as nat),
            lo <= p <= hi,
        decreases n - i,
    {
        match p.checked_mul(base) {
            None => {
                proof {
                    reveal(pow);
                    assert(pow(base as int, (i + 1) as nat) == (base as int) * pow(
                        base as int,
                        i as nat,
                    ));
                    lemma_pow_escape(base as int, (i + 1) as nat, n as nat, hi as int);
                }
                return Err(AlgebraError::Overflow);
            },
            Some(v) => {
                proof {
                    reveal(pow);
                    assert(pow(base as int, (i + 1) as nat) == (base as int) * pow(
                        base as int,
                        i as nat,
                    ));
                }
                if v < lo || v > hi {
                    proof {
                        lemma_pow_escape(base as int, (i + 1) as nat, n as nat, hi as int);
                    }
                    return Err(AlgebraError::Overflow);
                }
                p = v;
            },
        }
        i = i + 1;
    }
    Ok(p)
}

impl Ring for i64 {
    open spec fn params_ok() -> bool {
        true
    }

    open spec fn wf(&self) -> bool {
        true
    }

    open spec fn sp_zero(a: i64) -> i64 {
        0i64
    }

    open spec fn sp_one(a: i64) -> i64 {
        1i64
    }

    open spec fn sp_add(a: i64, b: i64) -> i64 {
        (a + b) as i64
    }

    open spec fn sp_sub(a: i64, b: i64) -> i64 {
        (a - b) as i64
    }

    open spec fn sp_neg(a: i64) -> i64 {
        (-a) as i64
    }

    open spec fn sp_mul(a: i64, b: i64) -> i64 {
        (a * b) as i64
    }

    open spec fn add_ok(a: i64, b: i64) -> bool {
        i64_in_range(a + b)
    }

    open spec fn sub_ok(a: i64, b: i64) -> bool {
        i64_in_range(a - b)
    }

    open spec fn mul_ok(a: i64, b: i64) -> bool {
        i64_in_range(a * b)
    }

    open spec fn neg_ok(a: i64) -> bool {
        i64_in_range(-a)
    }

    open spec fn sp_pow_res(a: i64, n: i64) -> Result<i64, AlgebraError> {
        if n < 0 {
            Err(AlgebraError::UnsupportedOperation)
        } else if i64_in_range(pow(a as int, n as nat)) {
            Ok(pow(a as int, n as nat) as i64)
        } else {
            Err(AlgebraError::Overflow)
        }
    }

    fn zero(&self) -> i64 {
        0
    }

    fn one(&self) -> i64 {
        1
    }

    fn is_zero(&self) -> bool {
        *self == 0
    }

    fn add(&self, rhs: &Self) -> i64 {
        *self + *rhs
    }

    fn sub(&self, rhs: &Self) -> i64 {
        *self - *rhs
    }

    fn neg(&self) -> i64 {
        -*self
    }

    fn mul(&self, rhs: &Self) -> i64 {
        *self * *rhs
    }

    fn checked_mul(&self, rhs: &Self) -> Option<i64> {
        i64::checked_mul(*self, *rhs)
    }

    fn checked_sub(&self, rhs: &Self) -> Option<i64> {
        i64::checked_sub(*self, *rhs)
    }

    fn power(&self, n: i64) -> Result<i64, AlgebraError> {
        if n < 0 {
            return Err(AlgebraError::UnsupportedOperation);
        }
        match pow_within(*self as i128, n as u64, i64::MIN as i128, i64::MAX as i128) {
            Ok(v) => Ok(v as i64),
            Err(e) => Err(e),
        }
    }

    proof fn lemma_add_zero(a: Self) {
    }

    proof fn lemma_mul_one(a: Self) {
    }

    proof fn lemma_sub_self(a: Self) {
    }
}

impl PoRing for i64 {

}

impl OrderedRing for i64 {

}

impl EuclideanDomain for i64 {
    open spec fn euc_ok(a: i64) -> bool {
        a != i64::MIN
    }

    open spec fn sp_size(a: i64) -> nat {
        abs(a as int)
    }

    open spec fn sp_qr(a: i64, b: i64) -> (i64, i64) {
        i64_qr(a, b)
    }

    open spec fn sp_gcd(a: i64, b: i64) -> i64 {
        i64_gcd(a, b)
    }

    open spec fn sp_ext_gcd(a: i64, b: i64) -> Result<(i64, i64, i64), AlgebraError> {
        i64_ext_gcd(a, b)
    }

    open spec fn sp_bezout(a: i64, b: i64, g: i64, x: i64, y: i64) -> bool {
        a * x + b * y == g
    }

    fn euc_size(&self) -> u64 {
        if *self >= 0 {
            *self as u64
        } else {
            (-*self) as u64
        }
    }

    fn quotient_and_remainder(&self, divisor: &Self) -> (qr: (i64, i64)) {
        let a = *self;
        let b = *divisor;
        let ma: u64 = if a >= 0 {
            a as u64
        } else {
            (-a) as u64
        };
        let mb: u64 = if b >= 0 {
            b as u64
        } else {
            (-b) as u64
        };
        let mq: u64 = ma / mb;
        let mr: u64 = ma % mb;
        proof {
            lemma_div_nonincreasing(ma as int, mb as int);
        }
        let q: i64 = if (a >= 0) == (b >= 0) {
            mq as i64
        } else {
            -(mq as i64)
        };
        let r: i64 = if a >= 0 {
            mr as i64
        } else {
            -(mr as i64)
        };
        (q, r)
    }

    proof fn lemma_qr(a: Self, b: Self) {
        lemma_t_div_mod(a as int, b as int);
        let qi = t_div(a as int, b as int);
        let ri = t_mod(a as int, b as int);
        // The remainder's magnitude is at most the dividend's, so the
        // product b * qi == a - ri also fits the representation.
        if mag(a as int) < mag(b as int) {
            lemma_small_mod(abs(a as int), abs(b as int));
        }
        assert(mag(ri) <= mag(a as int));
        assert(b * qi == a - ri);
        assert(i64_in_range(b * qi));
    }

    proof fn lemma_gcd_unfold(a: Self, b: Self) {
        if a != 0 && b != 0 && abs(a as int) >= abs(b as int) {
            lemma_t_div_mod(a as int, b as int);
        }
    }

    proof fn lemma_ext_gcd_unfold(a: Self, b: Self) {
        if a != 0 {
            lemma_t_div_mod(b as int, a as int);
        }
    }

    proof fn lemma_ext_gcd_bezout(a: Self, b: Self) {
        lemma_i64_ext_gcd_bezout(a, b);
    }
}

/// Bézout's identity for the 64-bit extended Euclidean algorithm: whenever
/// the algorithm succeeds with `(g, x, y)`, then `a*x + b*y == g` over the
/// integers, and it only ever fails with an overflow report.
pub proof fn lemma_i64_ext_gcd_bezout(a: i64, b: i64)
    requires
        a != i64::MIN,
        b != i64::MIN,
    ensures
        (match i64_ext_gcd(a, b) {
            Ok((g, x, y)) => a * x + b * y == g,
            Err(e) => e == AlgebraError::Overflow,
        }),
    decreases mag(a as int),
{
    if a == 0 {
    } else {
        let (q, r) = i64_qr(b, a);
        lemma_t_div_mod(b as int, a as int);
        assert(mag(t_mod(b as int, a as int)) < mag(a as int));
        assert(r as int == t_mod(b as int, a as int));
        assert(q as int == t_div(b as int, a as int));
        lemma_i64_ext_gcd_bezout(r, a);
        match i64_ext_gcd(r, a) {
            Ok((g, x1, y1)) => {
                if i64_in_range(q * x1) && i64_in_range(y1 - q * x1) {
                    let x = (y1 - q * x1) as i64;
                    assert(a * x + b * x1 == g) by (nonlinear_arith)
                        requires
                            b == a * q + r,
                            r * x1 + a * y1 == g,
                            x == y1 - q * x1,
                        ;
                }
            },
            Err(_) => {},
        }
    }
}

/// The modular inverse of `x` modulo `m`: the coefficient of `x` in Bézout's
/// identity for `(x, m)`. It is a true multiplicative inverse only when
/// `gcd(x, m) == 1`; when the operands are not coprime the returned value is
/// not an inverse, and, as in the interface's description, no coprimality
/// check is made — callers must not assume otherwise.
pub fn mod_inv<R: EuclideanDomain>(x: R, m: R) -> (out: Result<R, AlgebraError>)
    requires
        R::params_ok(),
        x.wf(),
        m.wf(),
        R::euc_ok(x),
        R::euc_ok(m),
    ensures
        out == (match R::sp_ext_gcd(x, m) {
            Ok((g, i, y)) => Ok::<R, AlgebraError>(i),
            Err(e) => Err::<R, AlgebraError>(e),
        }),
        (out matches Ok(v) ==> v.wf()),
{
    match ext_gcd(x, m) {
        Ok((_, i, _)) => Ok(i),
        Err(e) => Err(e),
    }
}

/// On non-negative inputs the extended Euclidean algorithm always succeeds:
/// its Bézout coefficients stay within `max(b, 1)` and `max(a, 1)`, so no
/// intermediate computation overflows, and its first component is the
/// greatest common divisor.
pub proof fn lemma_i64_ext_gcd_nonneg(a: i64, b: i64)
    requires
        0 <= a,
        0 <= b,
    ensures
        (match i64_ext_gcd(a, b) {
            Ok((g, x, y)) => g == gcd_e(a as int, b as int) && 0 <= g && mag(x as int) <= (if b > 0 {
                b as int
            } else {
                1
            }) && mag(y as int) <= (if a > 0 {
                a as int
            } else {
                1
            }),
            Err(_) => false,
        }),
    decreases a as int,
{
    if a == 0 {
    } else {
        let (q, r) = i64_qr(b, a);
        lemma_t_div_mod(b as int, a as int);
        let qi = t_div(b as int, a as int);
        let ri = t_mod(b as int, a as int);
        assert(qi >= 0 && 0 <= ri < a);
        assert(q == qi && r == ri);
        lemma_i64_ext_gcd_nonneg(r, a);
        match i64_ext_gcd(r, a) {
            Ok((g, x1, y1)) => {
                // q * a <= b, so the new coefficient y1 - q * x1 stays within b.
                assert(q * x1 <= q * (a as int) && -(q * (a as int)) <= q * x1) by (nonlinear_arith)
                    requires
                        q >= 0,
                        -(a as int) <= x1 <= a as int,
                    ;
                assert(q * (a as int) <= b as int) by (nonlinear_arith)
                    requires
                        b == a * q + r,
                        r >= 0,
                        q == q * 1,
                    ;
                if r == 0 {
                    assert(i64_ext_gcd(r, a) == Ok::<(i64, i64, i64), AlgebraError>((a, 0i64, 1i64)));
                    assert(x1 == 0 && y1 == 1);
                    assert(q * x1 == 0) by (nonlinear_arith)
                        requires
                            x1 == 0,
                        ;
                    assert(y1 - q * x1 == 1);
                } else {
                    assert(mag(y1 as int) <= r as int);
                    assert(-(r as int) <= y1 <= r as int);
                    assert(-(b as int) <= y1 - q * x1 <= b as int) by (nonlinear_arith)
                        requires
                            b == a * q + r,
                            -(r as int) <= y1 <= r as int,
                            q >= 0,
                            -(a as int) <= x1 <= a as int,
                        ;
                }
                assert(i64_in_range(q * x1));
                assert(i64_in_range(y1 - q * x1));
                let xn = (y1 - q * x1) as i64;
                assert(i64_ext_gcd(a, b) == Ok::<(i64, i64, i64), AlgebraError>((g, xn, x1)));
                assert(mag(xn as int) <= (if b > 0 { b as int } else { 1 }));
                // The recursion follows the Euclidean gcd recursion exactly.
                assert(ri == b as int % a as int);
                assert(gcd_e(a as int, b as int) == gcd_e(b as int % a as int, a as int));
            },
            Err(_) => {},
        }
    }
}

} // verus!

verus! {

/// Relies on `rand::Rng::gen_range` over `0..n`: a uniformly distributed
/// value below `n`; the range is non-empty because `n >= 1`. Not suitable
/// for cryptographic use.
#[verifier::external_body]
fn rand_below(n: u64) -> (r: u64)
    requires
        n >= 1,
    ensures
        r < n,
{
    rand::thread_rng().gen_range(0..n)
}

/// Relies on `rand::rngs::StdRng` seeded from entropy and `rand::Rng::gen`:
/// an arbitrary 64-bit value, of which nothing is assumed. Aborts only if
/// the operating system's entropy source fails. Not suitable for
/// cryptographic use.
#[verifier::external_body]
fn rand_i64() -> i64 {
    rand::rngs::StdRng::from_entropy().gen::<i64>()
}

/// Reduces a 64-bit signed integer into the canonical residue range
/// `[0, m)` with a true (never negative) modulo.
fn reduce_i64(x: i64, m: u64) -> (r: u64)
    requires
        1 <= m <= 0x7fff_ffff_ffff_ffffu64,
    ensures
        r == (x as int) % (m as int),
        r < m,
{
    if x >= 0 {
        (x as u64) % m
    } else {
        let mx: u64 = (-(x as i128)) as u64;
        let mr: u64 = mx % m;
        proof {
            let mi = mx as int;
            let q = m as int;
            lemma_fundamental_div_mod(mi, q);
            assert(q * (mi / q + 1) == q * (mi / q) + q) by (nonlinear_arith);
            lemma_mod_multiples_vanish(mi / q + 1, -mi, q);
            assert((q - mi % q) % q == (-mi) % q);
            if mr == 0 {
                lemma_mod_self_0(q);
            } else {
                lemma_small_mod((m - mr) as nat, m as nat);
            }
        }
        if mr == 0 {
            0
        } else {
            m - mr
        }
    }
}

} // verus!

verus! {

/// The coefficient `mod_inv` returns for `(x, q)`, reduced into `[0, q)`.
/// It is the multiplicative inverse of `x` modulo `q` exactly when
/// `gcd(x, q) == 1`.
pub open spec fn zm_inv_val(x: i64, q: i64) -> int {
    match i64_ext_gcd(x, q) {
        Ok((g, i, y)) => (i as int) % (q as int),
        Err(_) => 0,
    }
}

} // verus!

verus! {

/// An element of the field of the integers modulo a prime.
///
/// The modulus is fixed at construction and never mutated; the stored value
/// is always the canonical residue in `[0, modulus)`. Arithmetic between
/// elements of different moduli is a caller error, excluded by precondition.
/// The field structure (division, inversion) is mathematically sound only
/// when the modulus is prime; that is a caller-guaranteed invariant, not
/// checked at runtime.
#[derive(Clone, Copy, Debug, PartialEq, Eq, Structural)]
pub struct ZM {
    pub val: u64,
    pub modulus: u64,
}

impl ZM {
    /// The modulus is usable: positive, and within the signed 64-bit range
    /// that the Euclidean algorithms run on.
    pub open spec fn modulus_ok(m: u64) -> bool {
        1 <= m <= 0x7fff_ffff_ffff_ffffu64
    }

    /// Creates the canonical residue of an arbitrary integer modulo `m`,
    /// reducing with a true (never negative) modulo.
    pub fn from_int(m: u64, x: i64) -> (r: ZM)
        requires
            Self::modulus_ok(m),
        ensures
            r.modulus == m,
            r.val == (x as int) % (m as int),
            r.wf(),
    {
        ZM { val: reduce_i64(x, m), modulus: m }
    }

    /// Re-reduces a residue from its own modulus into the modulus `m`.
    pub fn convert(m: u64, other: ZM) -> (r: ZM)
        requires
            Self::modulus_ok(m),
            other.wf(),
        ensures
            r.modulus == m,
            r.val == (other.val as int) % (m as int),
            r.wf(),
    {
        Self::from_int(m, other.val as i64)
    }

    /// A random residue modulo `m`, drawn from a non-cryptographic source.
    pub fn rnd(m: u64) -> (r: ZM)
        requires
            Self::modulus_ok(m),
        ensures
            r.modulus == m,
            r.wf(),
    {
        Self::from_int(m, rand_i64())
    }

    /// Raises to a non-negative power by repeated multiplication (linear in
    /// the exponent; a known inefficiency, kept as the interface describes).
    pub fn pow_nonneg(&self, e: u64) -> (r: Self)
        requires
            self.wf(),
        ensures
            r.modulus == self.modulus,
            r.val == pow(self.val as int, e as nat) % (self.modulus as int),
            r.wf(),
    {
        let mut acc: Self = Ring::one(self);
        let mut i: u64 = 0;
        proof {
            lemma_pow0(self.val as int);
            if self.modulus > 1 {
                lemma_small_mod(1nat, self.modulus as nat);
            }
        }
        while i < e
            invariant
                self.wf(),
                i <= e,
                acc.wf(),
                acc.modulus == self.modulus,
                acc.val == pow(self.val as int, i as nat) % (self.modulus as int),
            decreases e - i,
        {
            acc = acc.mul(self);
            proof {
                reveal(pow);
                let v = self.val as int;
                let m = self.modulus as int;
                let pi = pow(v, i as nat);
                assert(pow(v, (i + 1) as nat) == v * pi);
                assert(acc.val == ((pi % m) * v) % m);
                lemma_mul_mod_noop_left(pi, v, m);
                assert(acc.val == (pi * v) % m);
                assert(acc.val == pow(v, (i + 1) as nat) % m);
            }
            i = i + 1;
        }
        acc
    }

    /// In-place addition.
    pub fn add_assign(&mut self, rhs: &Self)
        requires
            old(self).wf(),
            rhs.wf(),
            old(self).modulus == rhs.modulus,
        ensures
            *final(self) == Self::sp_add(*old(self), *rhs),
            final(self).wf(),
    {
        *self = self.add(rhs);
    }

    /// In-place subtraction.
    pub fn sub_assign(&mut self, rhs: &Self)
        requires
            old(self).wf(),
            rhs.wf(),
            old(self).modulus == rhs.modulus,
        ensures
            *final(self) == Self::sp_sub(*old(self), *rhs),
            final(self).wf(),
    {
        *self = self.sub(rhs);
    }

    /// In-place multiplication.
    pub fn mul_assign(&mut self, rhs: &Self)
        requires
            old(self).wf(),
            rhs.wf(),
            old(self).modulus == rhs.modulus,
        ensures
            *final(self) == Self::sp_mul(*old(self), *rhs),
            final(self).wf(),
    {
        *self = self.mul(rhs);
    }

    /// In-place division; fails with `DivisionByZero` on a zero divisor and
    /// then leaves the value unchanged.
    pub fn div_assign(&mut self, rhs: &Self) -> (r: Result<(), AlgebraError>)
        requires
            old(self).wf(),
            rhs.wf(),
            old(self).modulus == rhs.modulus,
        ensures
            (match Self::sp_div_res(*old(self), *rhs) {
                Ok(v) => r == Ok::<(), AlgebraError>(()) && *final(self) == v,
                Err(e) => r == Err::<(), AlgebraError>(e) && *final(self) == *old(self),
            }),
            final(self).wf(),
    {
        match self.div(rhs) {
            Ok(v) => {
                *self = v;
                Ok(())
            },
            Err(e) => Err(e),
        }
    }
}

impl Ring for ZM {
    open spec fn params_ok() -> bool {
        true
    }

    open spec fn wf(&self) -> bool {
        Self::modulus_ok(self.modulus) && self.val < self.modulus
    }

    open spec fn sp_zero(a: Self) -> Self {
        ZM { val: 0u64, modulus: a.modulus }
    }

    open spec fn sp_one(a: Self) -> Self {
        ZM { val: (1int % (a.modulus as int)) as u64, modulus: a.modulus }
    }

    open spec fn sp_add(a: Self, b: Self) -> Self {
        ZM { val: ((a.val + b.val) % (a.modulus as int)) as u64, modulus: a.modulus }
    }

    open spec fn sp_sub(a: Self, b: Self) -> Self {
        ZM { val: ((a.val - b.val) % (a.modulus as int)) as u64, modulus: a.modulus }
    }

    open spec fn sp_neg(a: Self) -> Self {
        ZM { val: ((0 - a.val as int) % (a.modulus as int)) as u64, modulus: a.modulus }
    }

    open spec fn sp_mul(a: Self, b: Self) -> Self {
        ZM { val: ((a.val * b.val) % (a.modulus as int)) as u64, modulus: a.modulus }
    }

    open spec fn add_ok(a: Self, b: Self) -> bool {
        a.modulus == b.modulus
    }

    open spec fn sub_ok(a: Self, b: Self) -> bool {
        a.modulus == b.modulus
    }

    open spec fn mul_ok(a: Self, b: Self) -> bool {
        a.modulus == b.modulus
    }

    open spec fn neg_ok(a: Self) -> bool {
        true
    }

    open spec fn sp_pow_res(a: Self, n: i64) -> Result<Self, AlgebraError> {
        if n >= 0 {
            Ok(ZM { val: (pow(a.val as int, n as nat) % (a.modulus as int)) as u64, modulus: a.modulus })
        } else if a.val == 0 {
            Err(AlgebraError::DivisionByZero)
        } else {
            Ok(
                ZM {
                    val: (pow(zm_inv_val(a.val as i64, a.modulus as i64), (-(n as int)) as nat) % (
                    a.modulus as int)) as u64,
                    modulus: a.modulus,
                },
            )
        }
    }

    fn zero(&self) -> Self {
        ZM { val: 0, modulus: self.modulus }
    }

    fn one(&self) -> Self {
        proof {
            if self.modulus > 1 {
                lemma_small_mod(1nat, self.modulus as nat);
            }
        }
        if self.modulus == 1 {
            ZM { val: 0, modulus: self.modulus }
        } else {
            ZM { val: 1, modulus: self.modulus }
        }
    }

    fn is_zero(&self) -> bool {
        self.val == 0
    }

    fn add(&self, rhs: &Self) -> Self {
        ZM { val: (self.val + rhs.val) % self.modulus, modulus: self.modulus }
    }

    fn sub(&self, rhs: &Self) -> Self {
        proof {
            lemma_mod_add_multiples_vanish(self.val - rhs.val, self.modulus as int);
        }
        ZM { val: (self.val + (self.modulus - rhs.val)) % self.modulus, modulus: self.modulus }
    }

    fn neg(&self) -> Self {
        proof {
            lemma_mod_add_multiples_vanish(0 - self.val as int, self.modulus as int);
        }
        ZM { val: (self.modulus - self.val) % self.modulus, modulus: self.modulus }
    }

    fn mul(&self, rhs: &Self) -> Self {
        proof {
            assert((self.val as int) * (rhs.val as int)
                < 0x4000_0000_0000_0000_0000_0000_0000_0000int) by (nonlinear_arith)
                requires
                    self.val < 0x8000_0000_0000_0000u64,
                    rhs.val < 0x8000_0000_0000_0000u64,
                ;
        }
        let prod: u128 = (self.val as u128) * (rhs.val as u128);
        ZM { val: (prod % (self.modulus as u128)) as u64, modulus: self.modulus }
    }

    fn checked_mul(&self, rhs: &Self) -> Option<Self> {
        if self.modulus == rhs.modulus {
            Some(self.mul(rhs))
        } else {
            None
        }
    }

    fn checked_sub(&self, rhs: &Self) -> Option<Self> {
        if self.modulus == rhs.modulus {
            Some(self.sub(rhs))
        } else {
            None
        }
    }

    fn power(&self, n: i64) -> Result<Self, AlgebraError> {
        if n >= 0 {
            Ok(self.pow_nonneg(n as u64))
        } else {
            match self.inverse() {
                Err(e) => Err(e),
                Ok(v) => {
                    let m: u64 = if n == i64::MIN {
                        9223372036854775808u64
                    } else {
                        (-n) as u64
                    };
                    Ok(v.pow_nonneg(m))
                },
            }
        }
    }

    proof fn lemma_add_zero(a: Self) {
        lemma_small_mod(a.val as nat, a.modulus as nat);
    }

    proof fn lemma_mul_one(a: Self) {
        if a.modulus == 1 {
            assert(a.val == 0);
            assert((a.val * Self::sp_one(a).val) % (a.modulus as int) == 0) by (nonlinear_arith)
                requires
                    a.val == 0,
                    a.modulus == 1,
                ;
        } else {
            lemma_small_mod(1nat, a.modulus as nat);
            assert(a.val * 1int == a.val) by (nonlinear_arith);
            lemma_small_mod(a.val as nat, a.modulus as nat);
        }
    }

    proof fn lemma_sub_self(a: Self) {
        lemma_small_mod(0nat, a.modulus as nat);
    }
}

impl Field for ZM {
    open spec fn field_ok(a: Self) -> bool {
        is_prime(a.modulus as int)
    }

    open spec fn sp_inverse_res(a: Self) -> Result<Self, AlgebraError> {
        if a.val == 0 {
            Err(AlgebraError::DivisionByZero)
        } else {
            Ok(ZM { val: zm_inv_val(a.val as i64, a.modulus as i64) as u64, modulus: a.modulus })
        }
    }

    open spec fn sp_div_res(a: Self, b: Self) -> Result<Self, AlgebraError> {
        if b.val == 0 {
            Err(AlgebraError::DivisionByZero)
        } else if a.modulus != b.modulus {
            Err(AlgebraError::PreconditionViolation)
        } else {
            match Self::sp_inverse_res(b) {
                Ok(v) => Ok(Self::sp_mul(a, v)),
                Err(e) => Err(e),
            }
        }
    }

    fn inverse(&self) -> Result<Self, AlgebraError> {
        if self.val == 0 {
            return Err(AlgebraError::DivisionByZero);
        }
        let x: i64 = self.val as i64;
        let m: i64 = self.modulus as i64;
        proof {
            lemma_i64_ext_gcd_nonneg(x, m);
        }
        match mod_inv(x, m) {
            Ok(i) => Ok(Self::from_int(self.modulus, i)),
            Err(e) => {
                // never reached: on a canonical residue and its modulus the
                // extended Euclidean algorithm cannot overflow
                proof {
                    assert(false);
                }
                Err(e)
            },
        }
    }

    fn div(&self, rhs: &Self) -> Result<Self, AlgebraError> {
        if rhs.val == 0 {
            return Err(AlgebraError::DivisionByZero);
        }
        if self.modulus != rhs.modulus {
            return Err(AlgebraError::PreconditionViolation);
        }
        match rhs.inverse() {
            Ok(v) => Ok(self.mul(&v)),
            Err(e) => Err(e),
        }
    }

    proof fn lemma_inverse_zero(a: Self) {
    }

    proof fn lemma_div_by_zero(a: Self, b: Self) {
    }

    proof fn lemma_mul_inverse(a: Self) {
        let x: i64 = a.val as i64;
        let m: i64 = a.modulus as i64;
        let q = a.modulus as int;
        lemma_i64_ext_gcd_nonneg(x, m);
        lemma_i64_ext_gcd_bezout(x, m);
        match i64_ext_gcd(x, m) {
            Ok((g, s, y)) => {
                lemma_gcd_e_prime(x as int, q);
                assert(g == 1);
                // x*s + q*y == 1, so x*s is congruent to 1 modulo q.
                assert(x * s == q * (-(y as int)) + 1) by (nonlinear_arith)
                    requires
                        x * s + m * y == 1,
                        m == q,
                    ;
                lemma_mod_multiples_vanish(-(y as int), 1, q);
                lemma_small_mod(1nat, a.modulus as nat);
                assert((x * s) % q == 1);
                let v = zm_inv_val(x, m);
                assert(v == (s as int) % q);
                lemma_mul_mod_noop_right(x as int, s as int, q);
                assert((x * v) % q == 1);
            },
            Err(_) => {
                // never reached: on a canonical residue and its modulus the
                // extended Euclidean algorithm cannot overflow
                assert(false);
            },
        }
    }
}

} // verus!

verus! {

/// An element of the additive group of the integers modulo an integer
/// (which need not be prime).
///
/// The modulus is fixed at construction and never mutated; the stored value
/// is always the canonical residue in `[0, modulus)`. The multiplicative
/// operator surface of this type is deliberately degenerate: `mul` is an
/// alias of `add` and `div` an alias of `sub`, so that the type composes
/// with the shared operator interfaces while its algebraic content is only
/// the additive group.
#[derive(Clone, Copy, Debug, PartialEq, Eq, Structural)]
pub struct AdditiveGroupZM {
    pub val: u64,
    pub modulus: u64,
}

impl AdditiveGroupZM {
    /// The modulus is usable: positive, and within the signed 64-bit range.
    pub open spec fn modulus_ok(m: u64) -> bool {
        1 <= m <= 0x7fff_ffff_ffff_ffffu64
    }

    /// Creates a group element of `Z/(m)` from the integer `x`, reducing
    /// with a true (never negative) modulo.
    pub fn from_int(m: u64, x: i64) -> (r: AdditiveGroupZM)
        requires
            Self::modulus_ok(m),
        ensures
            r.modulus == m,
            r.val == (x as int) % (m as int),
            r.wf(),
    {
        AdditiveGroupZM { val: reduce_i64(x, m), modulus: m }
    }

    /// Generates a random group element, uniformly distributed over the
    /// residues. NOT cryptographically secure!
    pub fn random(m: u64) -> (r: AdditiveGroupZM)
        requires
            Self::modulus_ok(m),
        ensures
            r.modulus == m,
            r.wf(),
    {
        AdditiveGroupZM { val: rand_below(m), modulus: m }
    }

    /// Addition modulo the modulus: the group operation.
    pub fn add(&self, rhs: &Self) -> (r: Self)
        requires
            self.wf(),
            rhs.wf(),
            self.modulus == rhs.modulus,
        ensures
            r == Self::sp_op(*self, *rhs),
            r.wf(),
    {
        self.op(rhs)
    }

    /// Subtraction modulo the modulus: combination with the inverse.
    pub fn sub(&self, rhs: &Self) -> (r: Self)
        requires
            self.wf(),
            rhs.wf(),
            self.modulus == rhs.modulus,
        ensures
            r == Self::sp_op(*self, Self::sp_inverse(*rhs)),
            r.wf(),
    {
        proof {
            lemma_add_mod_noop_right(
                self.val as int,
                0 - rhs.val as int,
                self.modulus as int,
            );
            lemma_mod_add_multiples_vanish(
                self.val - rhs.val,
                self.modulus as int,
            );
        }
        AdditiveGroupZM {
            val: (self.val + (self.modulus - rhs.val)) % self.modulus,
            modulus: self.modulus,
        }
    }

    /// The additive inverse, an alias of the group inverse.
    pub fn neg(&self) -> (r: Self)
        requires
            self.wf(),
        ensures
            r == Self::sp_inverse(*self),
            r.wf(),
    {
        self.inverse()
    }

    /// An alias of `add`: this type's multiplicative operator surface is
    /// intentionally the additive group operation.
    pub fn mul(&self, rhs: &Self) -> (r: Self)
        requires
            self.wf(),
            rhs.wf(),
            self.modulus == rhs.modulus,
        ensures
            r == Self::sp_op(*self, *rhs),
            r.wf(),
    {
        self.add(rhs)
    }

    /// An alias of `sub`, for the same structural reason as `mul`.
    pub fn div(&self, rhs: &Self) -> (r: Self)
        requires
            self.wf(),
            rhs.wf(),
            self.modulus == rhs.modulus,
        ensures
            r == Self::sp_op(*self, Self::sp_inverse(*rhs)),
            r.wf(),
    {
        self.sub(rhs)
    }

    /// In-place addition.
    pub fn add_assign(&mut self, rhs: &Self)
        requires
            old(self).wf(),
            rhs.wf(),
            old(self).modulus == rhs.modulus,
        ensures
            *final(self) == Self::sp_op(*old(self), *rhs),
            final(self).wf(),
    {
        *self = self.add(rhs);
    }

    /// In-place subtraction.
    pub fn sub_assign(&mut self, rhs: &Self)
        requires
            old(self).wf(),
            rhs.wf(),
            old(self).modulus == rhs.modulus,
        ensures
            *final(self) == Self::sp_op(*old(self), Self::sp_inverse(*rhs)),
            final(self).wf(),
    {
        *self = self.sub(rhs);
    }

    /// In-place alias of `add`.
    pub fn mul_assign(&mut self, rhs: &Self)
        requires
            old(self).wf(),
            rhs.wf(),
            old(self).modulus == rhs.modulus,
        ensures
            *final(self) == Self::sp_op(*old(self), *rhs),
            final(self).wf(),
    {
        *self = self.add(rhs);
    }

    /// In-place alias of `sub`.
    pub fn div_assign(&mut self, rhs: &Self)
        requires
            old(self).wf(),
            rhs.wf(),
            old(self).modulus == rhs.modulus,
        ensures
            *final(self) == Self::sp_op(*old(self), Self::sp_inverse(*rhs)),
            final(self).wf(),
    {
        *self = self.sub(rhs);
    }
}

impl Group for AdditiveGroupZM {
    open spec fn params_ok() -> bool {
        true
    }

    open spec fn wf(&self) -> bool {
        Self::modulus_ok(self.modulus) && self.val < self.modulus
    }

    open spec fn sp_identity(a: Self) -> Self {
        AdditiveGroupZM { val: 0u64, modulus: a.modulus }
    }

    open spec fn sp_inverse(a: Self) -> Self {
        AdditiveGroupZM {
            val: ((0 - a.val as int) % (a.modulus as int)) as u64,
            modulus: a.modulus,
        }
    }

    open spec fn sp_op(a: Self, b: Self) -> Self {
        AdditiveGroupZM {
            val: ((a.val + b.val) % (a.modulus as int)) as u64,
            modulus: a.modulus,
        }
    }

    open spec fn op_ok(a: Self, b: Self) -> bool {
        a.modulus == b.modulus
    }

    fn identity(&self) -> Self {
        AdditiveGroupZM { val: 0, modulus: self.modulus }
    }

    fn inverse(&self) -> Self {
        proof {
            lemma_mod_add_multiples_vanish(0 - self.val as int, self.modulus as int);
        }
        AdditiveGroupZM {
            val: (self.modulus - self.val) % self.modulus,
            modulus: self.modulus,
        }
    }

    fn op(&self, rhs: &Self) -> Self {
        AdditiveGroupZM {
            val: (self.val + rhs.val) % self.modulus,
            modulus: self.modulus,
        }
    }

    proof fn lemma_op_identity(a: Self) {
        lemma_small_mod(a.val as nat, a.modulus as nat);
    }

    proof fn lemma_op_inverse(a: Self) {
        lemma_add_mod_noop_right(a.val as int, 0 - a.val as int, a.modulus as int);
        lemma_small_mod(0nat, a.modulus as nat);
    }
}

} // verus!

verus! {

/// The greatest common divisor of non-negative integers is symmetric.
proof fn lemma_gcd_e_sym(a: int, b: int)
    requires
        a >= 0,
        b >= 0,
    ensures
        gcd_e(a, b) == gcd_e(b, a),
{
    if a == 0 && b == 0 {
    } else {
        let g1 = gcd_e(a, b);
        let g2 = gcd_e(b, a);
        lemma_gcd_e_divides(a, b);
        lemma_gcd_e_divides(b, a);
        lemma_gcd_e_greatest(b, a, g1);
        lemma_gcd_e_greatest(a, b, g2);
        lemma_divisor_le(g2, g1);
        lemma_divisor_le(g1, g2);
    }
}

/// On non-negative inputs the Euclidean algorithm's mirror agrees with the
/// mathematical greatest common divisor.
pub proof fn lemma_i64_gcd_is_gcd_e(a: i64, b: i64)
    requires
        0 <= a,
        0 <= b,
    ensures
        i64_gcd(a, b) == gcd_e(a as int, b as int),
    decreases mag(b as int), mag(a as int),
{
    if a == 0 {
    } else if b == 0 {
        assert(0int % (a as int) == 0) by {
            lemma_small_mod(0nat, a as nat);
        }
        assert(gcd_e(a as int, 0) == gcd_e(0int % (a as int), a as int));
        assert(gcd_e(0int % (a as int), a as int) == gcd_e(0int, a as int));
        assert(gcd_e(0int, a as int) == a as int);
    } else if a < b {
        lemma_i64_gcd_is_gcd_e(b, a);
        lemma_gcd_e_sym(a as int, b as int);
        assert(i64_gcd(a, b) == i64_gcd(b, a));
    } else {
        lemma_t_div_mod(a as int, b as int);
        let r = i64_qr(a, b).1;
        assert(r as int == a as int % b as int);
        lemma_i64_gcd_is_gcd_e(b, r);
        assert(i64_gcd(a, b) == i64_gcd(b, r));
        lemma_gcd_e_sym(a as int, b as int);
        assert(gcd_e(b as int, a as int) == gcd_e(a as int % b as int, b as int));
        lemma_gcd_e_sym(a as int % b as int, b as int);
        assert(gcd_e(a as int, b as int) == gcd_e(b as int, r as int));
    }
}

/// The round trip of the two Euclidean algorithms on non-negative operands:
/// `ext_gcd` succeeds, its first component is exactly what `gcd` computes,
/// and its coefficients satisfy Bézout's identity `a*x + b*y == g` over the
/// integers.
pub proof fn lemma_ext_gcd_matches_gcd(a: i64, b: i64)
    requires
        0 <= a,
        0 <= b,
    ensures
        (match i64_ext_gcd(a, b) {
            Ok((g, x, y)) => g == i64_gcd(a, b) && a * x + b * y == g,
            Err(_) => false,
        }),
{
    lemma_i64_ext_gcd_nonneg(a, b);
    lemma_i64_ext_gcd_bezout(a, b);
    lemma_i64_gcd_is_gcd_e(a, b);
}

} // verus!

verus! {

impl Ring for i8 {
    open spec fn params_ok() -> bool {
        true
    }

    open spec fn wf(&self) -> bool {
        true
    }

    open spec fn sp_zero(a: i8) -> i8 {
        0i8
    }

    open spec fn sp_one(a: i8) -> i8 {
        1i8
    }

    open spec fn sp_add(a: i8, b: i8) -> i8 {
        (a + b) as i8
    }

    open spec fn sp_sub(a: i8, b: i8) -> i8 {
        (a - b) as i8
    }

    open spec fn sp_neg(a: i8) -> i8 {
        (-a) as i8
    }

    open spec fn sp_mul(a: i8, b: i8) -> i8 {
        (a * b) as i8
    }

    open spec fn add_ok(a: i8, b: i8) -> bool {
        i8::MIN <= a + b <= i8::MAX
    }

    open spec fn sub_ok(a: i8, b: i8) -> bool {
        i8::MIN <= a - b <= i8::MAX
    }

    open spec fn mul_ok(a: i8, b: i8) -> bool {
        i8::MIN <= a * b <= i8::MAX
    }

    open spec fn neg_ok(a: i8) -> bool {
        i8::MIN <= -a <= i8::MAX
    }

    open spec fn sp_pow_res(a: i8, n: i64) -> Result<i8, AlgebraError> {
        if n < 0 {
            Err(AlgebraError::UnsupportedOperation)
        } else if i8::MIN <= pow(a as int, n as nat) <= i8::MAX {
            Ok(pow(a as int, n as nat) as i8)
        } else {
            Err(AlgebraError::Overflow)
        }
    }

    fn zero(&self) -> i8 {
        0
    }

    fn one(&self) -> i8 {
        1
    }

    fn is_zero(&self) -> bool {
        *self == 0
    }

    fn add(&self, rhs: &Self) -> i8 {
        *self + *rhs
    }

    fn sub(&self, rhs: &Self) -> i8 {
        *self - *rhs
    }

    fn neg(&self) -> i8 {
        -*self
    }

    fn mul(&self, rhs: &Self) -> i8 {
        *self * *rhs
    }

    fn checked_mul(&self, rhs: &Self) -> Option<i8> {
        i8::checked_mul(*self, *rhs)
    }

    fn checked_sub(&self, rhs: &Self) -> Option<i8> {
        i8::checked_sub(*self, *rhs)
    }

    fn power(&self, n: i64) -> Result<i8, AlgebraError> {
        if n < 0 {
            return Err(AlgebraError::UnsupportedOperation);
        }
        match pow_within(*self as i128, n as u64, i8::MIN as i128, i8::MAX as i128) {
            Ok(v) => Ok(v as i8),
            Err(e) => Err(e),
        }
    }

    proof fn lemma_add_zero(a: Self) {
    }

    proof fn lemma_mul_one(a: Self) {
    }

    proof fn lemma_sub_self(a: Self) {
    }
}

impl PoRing for i8 {

}

impl OrderedRing for i8 {

}

impl Ring for i16 {
    open spec fn params_ok() -> bool {
        true
    }

    open spec fn wf(&self) -> bool {
        true
    }

    open spec fn sp_zero(a: i16) -> i16 {
        0i16
    }

    open spec fn sp_one(a: i16) -> i16 {
        1i16
    }

    open spec fn sp_add(a: i16, b: i16) -> i16 {
        (a + b) as i16
    }

    open spec fn sp_sub(a: i16, b: i16) -> i16 {
        (a - b) as i16
    }

    open spec fn sp_neg(a: i16) -> i16 {
        (-a) as i16
    }

    open spec fn sp_mul(a: i16, b: i16) -> i16 {
        (a * b) as i16
    }

    open spec fn add_ok(a: i16, b: i16) -> bool {
        i16::MIN <= a + b <= i16::MAX
    }

    open spec fn sub_ok(a: i16, b: i16) -> bool {
        i16::MIN <= a - b <= i16::MAX
    }

    open spec fn mul_ok(a: i16, b: i16) -> bool {
        i16::MIN <= a * b <= i16::MAX
    }

    open spec fn neg_ok(a: i16) -> bool {
        i16::MIN <= -a <= i16::MAX
    }

    open spec fn sp_pow_res(a: i16, n: i64) -> Result<i16, AlgebraError> {
        if n < 0 {
            Err(AlgebraError::UnsupportedOperation)
        } else if i16::MIN <= pow(a as int, n as nat) <= i16::MAX {
            Ok(pow(a as int, n as nat) as i16)
        } else {
            Err(AlgebraError::Overflow)
        }
    }

    fn zero(&self) -> i16 {
        0
    }

    fn one(&self) -> i16 {
        1
    }

    fn is_zero(&self) -> bool {
        *self == 0
    }

    fn add(&self, rhs: &Self) -> i16 {
        *self + *rhs
    }

    fn sub(&self, rhs: &Self) -> i16 {
        *self - *rhs
    }

    fn neg(&self) -> i16 {
        -*self
    }

    fn mul(&self, rhs: &Self) -> i16 {
        *self * *rhs
    }

    fn checked_mul(&self, rhs: &Self) -> Option<i16> {
        i16::checked_mul(*self, *rhs)
    }

    fn checked_sub(&self, rhs: &Self) -> Option<i16> {
        i16::checked_sub(*self, *rhs)
    }

    fn power(&self, n: i64) -> Result<i16, AlgebraError> {
        if n < 0 {
            return Err(AlgebraError::UnsupportedOperation);
        }
        match pow_within(*self as i128, n as u64, i16::MIN as i128, i16::MAX as i128) {
            Ok(v) => Ok(v as i16),
            Err(e) => Err(e),
        }
    }

    proof fn lemma_add_zero(a: Self) {
    }

    proof fn lemma_mul_one(a: Self) {
    }

    proof fn lemma_sub_self(a: Self) {
    }
}

impl PoRing for i16 {

}

impl OrderedRing for i16 {

}

impl Ring for i32 {
    open spec fn params_ok() -> bool {
        true
    }

    open spec fn wf(&self) -> bool {
        true
    }

    open spec fn sp_zero(a: i32) -> i32 {
        0i32
    }

    open spec fn sp_one(a: i32) -> i32 {
        1i32
    }

    open spec fn sp_add(a: i32, b: i32) -> i32 {
        (a + b) as i32
    }

    open spec fn sp_sub(a: i32, b: i32) -> i32 {
        (a - b) as i32
    }

    open spec fn sp_neg(a: i32) -> i32 {
        (-a) as i32
    }

    open spec fn sp_mul(a: i32, b: i32) -> i32 {
        (a * b) as i32
    }

    open spec fn add_ok(a: i32, b: i32) -> bool {
        i32::MIN <= a + b <= i32::MAX
    }

    open spec fn sub_ok(a: i32, b: i32) -> bool {
        i32::MIN <= a - b <= i32::MAX
    }

    open spec fn mul_ok(a: i32, b: i32) -> bool {
        i32::MIN <= a * b <= i32::MAX
    }

    open spec fn neg_ok(a: i32) -> bool {
        i32::MIN <= -a <= i32::MAX
    }

    open spec fn sp_pow_res(a: i32, n: i64) -> Result<i32, AlgebraError> {
        if n < 0 {
            Err(AlgebraError::UnsupportedOperation)
        } else if i32::MIN <= pow(a as int, n as nat) <= i32::MAX {
            Ok(pow(a as int, n as nat) as i32)
        } else {
            Err(AlgebraError::Overflow)
        }
    }

    fn zero(&self) -> i32 {
        0
    }

    fn one(&self) -> i32 {
        1
    }

    fn is_zero(&self) -> bool {
        *self == 0
    }

    fn add(&self, rhs: &Self) -> i32 {
        *self + *rhs
    }

    fn sub(&self, rhs: &Self) -> i32 {
        *self - *rhs
    }

    fn neg(&self) -> i32 {
        -*self
    }

    fn mul(&self, rhs: &Self) -> i32 {
        *self * *rhs
    }

    fn checked_mul(&self, rhs: &Self) -> Option<i32> {
        i32::checked_mul(*self, *rhs)
    }

    fn checked_sub(&self, rhs: &Self) -> Option<i32> {
        i32::checked_sub(*self, *rhs)
    }

    fn power(&self, n: i64) -> Result<i32, AlgebraError> {
        if n < 0 {
            return Err(AlgebraError::UnsupportedOperation);
        }
        match pow_within(*self as i128, n as u64, i32::MIN as i128, i32::MAX as i128) {
            Ok(v) => Ok(v as i32),
            Err(e) => Err(e),
        }
    }

    proof fn lemma_add_zero(a: Self) {
    }

    proof fn lemma_mul_one(a: Self) {
    }

    proof fn lemma_sub_self(a: Self) {
    }
}

impl PoRing for i32 {

}

impl OrderedRing for i32 {

}

impl Ring for i128 {
    open spec fn params_ok() -> bool {
        true
    }

    open spec fn wf(&self) -> bool {
        true
    }

    open spec fn sp_zero(a: i128) -> i128 {
        0i128
    }

    open spec fn sp_one(a: i128) -> i128 {
        1i128
    }

    open spec fn sp_add(a: i128, b: i128) -> i128 {
        (a + b) as i128
    }

    open spec fn sp_sub(a: i128, b: i128) -> i128 {
        (a - b) as i128
    }

    open spec fn sp_neg(a: i128) -> i128 {
        (-a) as i128
    }

    open spec fn sp_mul(a: i128, b: i128) -> i128 {
        (a * b) as i128
    }

    open spec fn add_ok(a: i128, b: i128) -> bool {
        i128::MIN <= a + b <= i128::MAX
    }

    open spec fn sub_ok(a: i128, b: i128) -> bool {
        i128::MIN <= a - b <= i128::MAX
    }

    open spec fn mul_ok(a: i128, b: i128) -> bool {
        i128::MIN <= a * b <= i128::MAX
    }

    open spec fn neg_ok(a: i128) -> bool {
        i128::MIN <= -a <= i128::MAX
    }

    open spec fn sp_pow_res(a: i128, n: i64) -> Result<i128, AlgebraError> {
        if n < 0 {
            Err(AlgebraError::UnsupportedOperation)
        } else if i128::MIN <= pow(a as int, n as nat) <= i128::MAX {
            Ok(pow(a as int, n as nat) as i128)
        } else {
            Err(AlgebraError::Overflow)
        }
    }

    fn zero(&self) -> i128 {
        0
    }

    fn one(&self) -> i128 {
        1
    }

    fn is_zero(&self) -> bool {
        *self == 0
    }

    fn add(&self, rhs: &Self) -> i128 {
        *self + *rhs
    }

    fn sub(&self, rhs: &Self) -> i128 {
        *self - *rhs
    }

    fn neg(&self) -> i128 {
        -*self
    }

    fn mul(&self, rhs: &Self) -> i128 {
        *self * *rhs
    }

    fn checked_mul(&self, rhs: &Self) -> Option<i128> {
        i128::checked_mul(*self, *rhs)
    }

    fn checked_sub(&self, rhs: &Self) -> Option<i128> {
        i128::checked_sub(*self, *rhs)
    }

    fn power(&self, n: i64) -> Result<i128, AlgebraError> {
        if n < 0 {
            return Err(AlgebraError::UnsupportedOperation);
        }
        match pow_within(*self, n as u64, i128::MIN as i128, i128::MAX as i128) {
            Ok(v) => Ok(v as i128),
            Err(e) => Err(e),
        }
    }

    proof fn lemma_add_zero(a: Self) {
    }

    proof fn lemma_mul_one(a: Self) {
    }

    proof fn lemma_sub_self(a: Self) {
    }
}

impl PoRing for i128 {

}

impl OrderedRing for i128 {

}

} // verus!

verus! {

/// The magnitude of what the Euclidean algorithm returns is the greatest
/// common divisor of the operand magnitudes, for every admissible pair.
pub proof fn lemma_i64_gcd_mag(a: i64, b: i64)
    requires
        a != i64::MIN,
        b != i64::MIN,
    ensures
        mag(i64_gcd(a, b) as int) == gcd_e(mag(a as int), mag(b as int)),
    decreases mag(b as int), mag(a as int),
{
    if a == 0 {
    } else if b == 0 {
        assert(0int % mag(a as int) == 0) by {
            lemma_small_mod(0nat, abs(a as int));
        }
        assert(gcd_e(mag(a as int), 0) == gcd_e(0int % mag(a as int), mag(a as int)));
        assert(gcd_e(0int % mag(a as int), mag(a as int)) == gcd_e(0int, mag(a as int)));
        assert(gcd_e(0int, mag(a as int)) == mag(a as int));
    } else if mag(a as int) < mag(b as int) {
        lemma_i64_gcd_mag(b, a);
        lemma_gcd_e_sym(mag(a as int), mag(b as int));
    } else {
        lemma_t_div_mod(a as int, b as int);
        let r = i64_qr(a, b).1;
        assert(mag(r as int) == mag(a as int) % mag(b as int));
        lemma_i64_gcd_mag(b, r);
        assert(i64_gcd(a, b) == i64_gcd(b, r));
        lemma_gcd_e_sym(mag(a as int), mag(b as int));
        assert(gcd_e(mag(b as int), mag(a as int)) == gcd_e(
            mag(a as int) % mag(b as int),
            mag(b as int),
        ));
        lemma_gcd_e_sym(mag(a as int) % mag(b as int), mag(b as int));
        assert(gcd_e(mag(a as int), mag(b as int)) == gcd_e(mag(b as int), mag(r as int)));
    }
}

/// Whenever the extended Euclidean algorithm succeeds, the magnitude of its
/// first component is the greatest common divisor of the operand
/// magnitudes, for every admissible pair.
pub proof fn lemma_i64_ext_gcd_mag(a: i64, b: i64)
    requires
        a != i64::MIN,
        b != i64::MIN,
    ensures
        (match i64_ext_gcd(a, b) {
            Ok((g, x, y)) => mag(g as int) == gcd_e(mag(a as int), mag(b as int)),
            Err(e) => e == AlgebraError::Overflow,
        }),
    decreases mag(a as int),
{
    if a == 0 {
    } else {
        lemma_t_div_mod(b as int, a as int);
        let (q, r) = i64_qr(b, a);
        assert(mag(r as int) == mag(b as int) % mag(a as int));
        lemma_i64_ext_gcd_mag(r, a);
        match i64_ext_gcd(r, a) {
            Ok((g, x1, y1)) => {
                assert(gcd_e(mag(a as int), mag(b as int)) == gcd_e(
                    mag(b as int) % mag(a as int),
                    mag(a as int),
                ));
            },
            Err(_) => {},
        }
    }
}

/// The round trip of the two Euclidean algorithms on every admissible pair:
/// whenever `ext_gcd` succeeds, its first component agrees with what `gcd`
/// computes up to sign, and its coefficients satisfy Bézout's identity over
/// the integers.
pub proof fn lemma_ext_gcd_matches_gcd_all(a: i64, b: i64)
    requires
        a != i64::MIN,
        b != i64::MIN,
    ensures
        (match i64_ext_gcd(a, b) {
            Ok((g, x, y)) => mag(g as int) == mag(i64_gcd(a, b) as int) && a * x + b * y == g,
            Err(e) => e == AlgebraError::Overflow,
        }),
{
    lemma_i64_ext_gcd_mag(a, b);
    lemma_i64_gcd_mag(a, b);
    lemma_i64_ext_gcd_bezout(a, b);
}

} // verus!
