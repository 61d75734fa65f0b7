//! Capability traits for algebraic structures — Group, Ring, Field, their
//! ordered variants, Euclidean domains, inner-product and norm spaces — and
//! the generic Euclidean algorithms that work over any Euclidean domain.
//!
//! Each trait pairs its executable methods with specification functions that
//! implementors define (`sp_add`, `sp_mul`, ...) and with proof obligations
//! stating the algebraic laws every implementor must establish.

use vstd::prelude::*;

verus! {

/// The ways an algebraic operation can fail. Operations either succeed with
/// a mathematically exact result or report one of these; they never return a
/// silently wrapped or truncated value.
#[derive(Clone, Copy, Debug, PartialEq, Eq, Structural)]
pub enum AlgebraError {
    /// Dividing by, or inverting, the zero element of a field.
    DivisionByZero,
    /// A negative exponent was requested of a ring that has no inverses.
    UnsupportedOperation,
    /// A caller-guaranteed assumption (such as a field modulus being prime)
    /// was violated. Never detected at runtime by this crate: callers must
    /// guarantee it, and the variant exists so that they can report it.
    PreconditionViolation,
    /// An intermediate result does not fit the underlying representation.
    Overflow,
}

/// An algebraic ring: addition, subtraction, negation and multiplication,
/// with an additive identity `zero` and a multiplicative identity `one`.
///
/// Implementors define the specification-level meaning of each operation
/// (`sp_add` and friends), say on which operands the machine representation
/// can carry it out (`add_ok` and friends), and prove the ring laws.
pub trait Ring: Sized + Copy {
    /// Whether the type-level parameters (such as a modulus) are usable.
    spec fn params_ok() -> bool;

    /// Whether a value is a well-formed element, e.g. a canonical residue.
    spec fn wf(&self) -> bool;

    /// The additive identity of the ring `a` belongs to.
    spec fn sp_zero(a: Self) -> Self;

    /// The multiplicative identity of the ring `a` belongs to.
    spec fn sp_one(a: Self) -> Self;

    /// What addition returns.
    spec fn sp_add(a: Self, b: Self) -> Self;

    /// What subtraction returns.
    spec fn sp_sub(a: Self, b: Self) -> Self;

    /// What negation returns.
    spec fn sp_neg(a: Self) -> Self;

    /// What multiplication returns.
    spec fn sp_mul(a: Self, b: Self) -> Self;

    /// Whether `a + b` is representable.
    spec fn add_ok(a: Self, b: Self) -> bool;

    /// Whether `a - b` is representable.
    spec fn sub_ok(a: Self, b: Self) -> bool;

    /// Whether `a * b` is representable.
    spec fn mul_ok(a: Self, b: Self) -> bool;

    /// Whether `-a` is representable.
    spec fn neg_ok(a: Self) -> bool;

    /// What `power` returns, including the error cases.
    spec fn sp_pow_res(a: Self, n: i64) -> Result<Self, AlgebraError>;

    /// The additive identity of this element's ring.
    fn zero(&self) -> (r: Self)
        requires
            Self::params_ok(),
            self.wf(),
        ensures
            r == Self::sp_zero(*self),
            r.wf(),
    ;

    /// The multiplicative identity of this element's ring.
    fn one(&self) -> (r: Self)
        requires
            Self::params_ok(),
            self.wf(),
        ensures
            r == Self::sp_one(*self),
            r.wf(),
    ;

    /// Whether or not this ring element is zero.
    fn is_zero(&self) -> (r: bool)
        requires
            Self::params_ok(),
            self.wf(),
        ensures
            r == (*self == Self::sp_zero(*self)),
    ;

    /// Ring addition.
    fn add(&self, rhs: &Self) -> (r: Self)
        requires
            Self::params_ok(),
            self.wf(),
            rhs.wf(),
            Self::add_ok(*self, *rhs),
        ensures
            r == Self::sp_add(*self, *rhs),
            r.wf(),
    ;

    /// Ring subtraction.
    fn sub(&self, rhs: &Self) -> (r: Self)
        requires
            Self::params_ok(),
            self.wf(),
            rhs.wf(),
            Self::sub_ok(*self, *rhs),
        ensures
            r == Self::sp_sub(*self, *rhs),
            r.wf(),
    ;

    /// Additive inverse.
    fn neg(&self) -> (r: Self)
        requires
            Self::params_ok(),
            self.wf(),
            Self::neg_ok(*self),
        ensures
            r == Self::sp_neg(*self),
            r.wf(),
    ;

    /// Ring multiplication.
    fn mul(&self, rhs: &Self) -> (r: Self)
        requires
            Self::params_ok(),
            self.wf(),
            rhs.wf(),
            Self::mul_ok(*self, *rhs),
        ensures
            r == Self::sp_mul(*self, *rhs),
            r.wf(),
    ;

    /// Multiplication that reports an unrepresentable product instead of
    /// requiring the caller to rule it out.
    fn checked_mul(&self, rhs: &Self) -> (r: Option<Self>)
        requires
            Self::params_ok(),
            self.wf(),
            rhs.wf(),
        ensures
            r == (if Self::mul_ok(*self, *rhs) {
                Some(Self::sp_mul(*self, *rhs))
            } else {
                None::<Self>
            }),
            (r matches Some(v) ==> v.wf()),
    ;

    /// Subtraction that reports an unrepresentable difference instead of
    /// requiring the caller to rule it out.
    fn checked_sub(&self, rhs: &Self) -> (r: Option<Self>)
        requires
            Self::params_ok(),
            self.wf(),
            rhs.wf(),
        ensures
            r == (if Self::sub_ok(*self, *rhs) {
                Some(Self::sp_sub(*self, *rhs))
            } else {
                None::<Self>
            }),
            (r matches Some(v) ==> v.wf()),
    ;

    /// A ring element raised to a power. A negative exponent is an error on
    /// a ring without inverses; fields route it through inversion.
    fn power(&self, n: i64) -> (r: Result<Self, AlgebraError>)
        requires
            Self::params_ok(),
            self.wf(),
        ensures
            r == Self::sp_pow_res(*self, n),
            (r matches Ok(v) ==> v.wf()),
    ;

    /// Law: adding zero changes nothing.
    proof fn lemma_add_zero(a: Self)
        requires
            Self::params_ok(),
            a.wf(),
        ensures
            Self::sp_add(a, Self::sp_zero(a)) == a,
    ;

    /// Law: multiplying by one changes nothing.
    proof fn lemma_mul_one(a: Self)
        requires
            Self::params_ok(),
            a.wf(),
        ensures
            Self::sp_mul(a, Self::sp_one(a)) == a,
    ;

    /// Law: subtracting an element from itself gives zero.
    proof fn lemma_sub_self(a: Self)
        requires
            Self::params_ok(),
            a.wf(),
        ensures
            Self::sp_sub(a, a) == Self::sp_zero(a),
    ;
}

/// A field: a ring in which every non-zero element has a multiplicative
/// inverse. Inverting zero fails with `DivisionByZero`.
pub trait Field: Ring {
    /// The caller-guaranteed condition under which `a`'s ring really is a
    /// field (for a modular type: the modulus is prime). It is not checked
    /// at runtime.
    spec fn field_ok(a: Self) -> bool;

    /// What `inverse` returns, including the error cases.
    spec fn sp_inverse_res(a: Self) -> Result<Self, AlgebraError>;

    /// What `div` returns, including the error cases.
    spec fn sp_div_res(a: Self, b: Self) -> Result<Self, AlgebraError>;

    /// The multiplicative inverse of a non-zero element.
    fn inverse(&self) -> (r: Result<Self, AlgebraError>)
        requires
            Self::params_ok(),
            self.wf(),
        ensures
            r == Self::sp_inverse_res(*self),
            (r matches Ok(v) ==> v.wf()),
    ;

    /// Field division.
    fn div(&self, rhs: &Self) -> (r: Result<Self, AlgebraError>)
        requires
            Self::params_ok(),
            self.wf(),
            rhs.wf(),
        ensures
            r == Self::sp_div_res(*self, *rhs),
            (r matches Ok(v) ==> v.wf()),
    ;

    /// Law: inverting an element fails with `DivisionByZero` exactly when the
    /// element is zero.
    proof fn lemma_inverse_zero(a: Self)
        requires
            Self::params_ok(),
            a.wf(),
        ensures
            (a == Self::sp_zero(a)) <==> (Self::sp_inverse_res(a) == Err::<
                Self,
                AlgebraError,
            >(AlgebraError::DivisionByZero)),
    ;

    /// Law: dividing by an element fails with `DivisionByZero` exactly when
    /// the divisor is zero.
    proof fn lemma_div_by_zero(a: Self, b: Self)
        requires
            Self::params_ok(),
            a.wf(),
            b.wf(),
        ensures
            (b == Self::sp_zero(b)) <==> (Self::sp_div_res(a, b) == Err::<
                Self,
                AlgebraError,
            >(AlgebraError::DivisionByZero)),
    ;

    /// Law: a non-zero element times its inverse is one.
    proof fn lemma_mul_inverse(a: Self)
        requires
            Self::params_ok(),
            Self::field_ok(a),
            a.wf(),
            a != Self::sp_zero(a),
        ensures
            (match Self::sp_inverse_res(a) {
                Ok(v) => Self::sp_mul(a, v) == Self::sp_one(a),
                Err(_) => false,
            }),
    ;
}

/// A group: one associative operation with an identity and inverses.
pub trait Group: Sized + Copy {
    /// Whether the type-level parameters (such as a modulus) are usable.
    spec fn params_ok() -> bool;

    /// Whether a value is a well-formed element.
    spec fn wf(&self) -> bool;

    /// The identity element of the group `a` belongs to.
    spec fn sp_identity(a: Self) -> Self;

    /// What the inverse is.
    spec fn sp_inverse(a: Self) -> Self;

    /// What the group operation returns.
    spec fn sp_op(a: Self, b: Self) -> Self;

    /// Whether two elements may be combined (they belong to the same group).
    spec fn op_ok(a: Self, b: Self) -> bool;

    /// The identity element of this element's group.
    fn identity(&self) -> (r: Self)
        requires
            Self::params_ok(),
            self.wf(),
        ensures
            r == Self::sp_identity(*self),
            r.wf(),
    ;

    /// The inverse of this element.
    fn inverse(&self) -> (r: Self)
        requires
            Self::params_ok(),
            self.wf(),
        ensures
            r == Self::sp_inverse(*self),
            r.wf(),
    ;

    /// The group operation.
    fn op(&self, rhs: &Self) -> (r: Self)
        requires
            Self::params_ok(),
            self.wf(),
            rhs.wf(),
            Self::op_ok(*self, *rhs),
        ensures
            r == Self::sp_op(*self, *rhs),
            r.wf(),
    ;

    /// Law: the identity is neutral.
    proof fn lemma_op_identity(a: Self)
        requires
            Self::params_ok(),
            a.wf(),
        ensures
            Self::sp_op(a, Self::sp_identity(a)) == a,
    ;

    /// Law: an element combined with its inverse gives the identity.
    proof fn lemma_op_inverse(a: Self)
        requires
            Self::params_ok(),
            a.wf(),
        ensures
            Self::sp_op(a, Self::sp_inverse(a)) == Self::sp_identity(a),
    ;
}

/// A partially ordered ring.
pub trait PoRing: Ring {

}

/// A totally ordered ring.
pub trait OrderedRing: PoRing {

}

/// A partially ordered field.
pub trait PoField: Field {

}

/// A totally ordered field.
pub trait OrderedField: PoField {

}

/// A space with an inner product valued in a ring.
pub trait InnerProductSpace<R: Ring>: Sized {
    /// The inner product of two vectors.
    fn inner_product(&self, other: Self) -> R;
}

/// A space with a norm.
pub trait NormSpace {
    /// The type norms are measured in.
    type NormType;

    /// The norm of this element.
    fn norm(&self) -> Self::NormType;
}

/// A Euclidean domain: a ring with division-with-remainder and a size
/// function that strictly decreases through repeated remainder-taking,
/// enabling the Euclidean algorithm.
pub trait EuclideanDomain: Ring {
    /// Whether an element is admissible to the Euclidean operations (it
    /// excludes the values whose size the representation cannot carry, such
    /// as the most negative machine integer).
    spec fn euc_ok(a: Self) -> bool;

    /// The Euclidean size of an element.
    spec fn sp_size(a: Self) -> nat;

    /// What `quotient_and_remainder` returns.
    spec fn sp_qr(a: Self, b: Self) -> (Self, Self);

    /// What `gcd` returns, mirroring the Euclidean algorithm.
    spec fn sp_gcd(a: Self, b: Self) -> Self;

    /// What `ext_gcd` returns, mirroring the extended Euclidean algorithm,
    /// including the coefficient overflow reports.
    spec fn sp_ext_gcd(a: Self, b: Self) -> Result<(Self, Self, Self), AlgebraError>;

    /// Bézout's identity `a*x + b*y == g`, stated in the domain's exact
    /// arithmetic (for machine integers: over the unbounded integers).
    spec fn sp_bezout(a: Self, b: Self, g: Self, x: Self, y: Self) -> bool;

    /// The Euclidean size of this element. Avoids the name "size", which is
    /// often taken for other properties.
    fn euc_size(&self) -> (s: u64)
        requires
            Self::params_ok(),
            self.wf(),
            Self::euc_ok(*self),
        ensures
            s as nat == Self::sp_size(*self),
    ;

    /// Finds `q` and `r` such that `self == divisor * q + r`.
    fn quotient_and_remainder(&self, divisor: &Self) -> (qr: (Self, Self))
        requires
            Self::params_ok(),
            self.wf(),
            divisor.wf(),
            Self::euc_ok(*self),
            Self::euc_ok(*divisor),
            *divisor != Self::sp_zero(*divisor),
        ensures
            qr == Self::sp_qr(*self, *divisor),
    ;

    /// Law: division with remainder reconstructs the dividend, and the
    /// remainder's size is strictly below the divisor's.
    proof fn lemma_qr(a: Self, b: Self)
        requires
            Self::params_ok(),
            a.wf(),
            b.wf(),
            Self::euc_ok(a),
            Self::euc_ok(b),
            b != Self::sp_zero(b),
        ensures
            ({
                let (q, r) = Self::sp_qr(a, b);
                q.wf() && r.wf() && Self::euc_ok(q) && Self::euc_ok(r) && Self::sp_add(
                    Self::sp_mul(b, q),
                    r,
                ) == a && Self::sp_size(r) < Self::sp_size(b)
            }),
    ;

    /// Law: how `sp_gcd` unfolds, following the Euclidean algorithm with its
    /// swap of a size-smaller dividend.
    proof fn lemma_gcd_unfold(a: Self, b: Self)
        requires
            Self::params_ok(),
            a.wf(),
            b.wf(),
            Self::euc_ok(a),
            Self::euc_ok(b),
        ensures
            Self::sp_gcd(a, b).wf(),
            a == Self::sp_zero(a) ==> Self::sp_gcd(a, b) == b,
            a != Self::sp_zero(a) && b == Self::sp_zero(b) ==> Self::sp_gcd(a, b) == a,
            a != Self::sp_zero(a) && b != Self::sp_zero(b) && Self::sp_size(a) < Self::sp_size(b)
                ==> Self::sp_gcd(a, b) == Self::sp_gcd(b, a),
            a != Self::sp_zero(a) && b != Self::sp_zero(b) && Self::sp_size(a) >= Self::sp_size(b)
                ==> Self::sp_gcd(a, b) == Self::sp_gcd(b, Self::sp_qr(a, b).1),
    ;

    /// Law: how `sp_ext_gcd` unfolds, following the extended Euclidean
    /// algorithm.
    proof fn lemma_ext_gcd_unfold(a: Self, b: Self)
        requires
            Self::params_ok(),
            a.wf(),
            b.wf(),
            Self::euc_ok(a),
            Self::euc_ok(b),
        ensures
            a == Self::sp_zero(a) ==> Self::sp_ext_gcd(a, b) == Ok::<
                (Self, Self, Self),
                AlgebraError,
            >((b, Self::sp_zero(b), Self::sp_one(b))),
            a != Self::sp_zero(a) ==> ({
                let (q, r) = Self::sp_qr(b, a);
                match Self::sp_ext_gcd(r, a) {
                    Ok((g, x1, y1)) => Self::sp_ext_gcd(a, b) == (if Self::mul_ok(q, x1)
                        && Self::sub_ok(y1, Self::sp_mul(q, x1)) {
                        Ok::<(Self, Self, Self), AlgebraError>(
                            (g, Self::sp_sub(y1, Self::sp_mul(q, x1)), x1),
                        )
                    } else {
                        Err::<(Self, Self, Self), AlgebraError>(AlgebraError::Overflow)
                    }),
                    Err(e) => Self::sp_ext_gcd(a, b) == Err::<(Self, Self, Self), AlgebraError>(e),
                }
            }),
    ;

    /// Law (Bézout): when the extended Euclidean algorithm succeeds with
    /// `(g, x, y)`, then `a*x + b*y == g`; it only ever fails with an
    /// overflow report.
    proof fn lemma_ext_gcd_bezout(a: Self, b: Self)
        requires
            Self::params_ok(),
            a.wf(),
            b.wf(),
            Self::euc_ok(a),
            Self::euc_ok(b),
        ensures
            (match Self::sp_ext_gcd(a, b) {
                Ok((g, x, y)) => g.wf() && x.wf() && y.wf() && Self::sp_bezout(a, b, g, x, y),
                Err(e) => e == AlgebraError::Overflow,
            }),
    ;
}

/// Returns `(g, x, y)` so that `g == gcd(a, b)` and `a*x + b*y == g` in the
/// domain's arithmetic. Reports `Overflow` if a Bézout coefficient does not
/// fit the representation.
pub fn ext_gcd<R: EuclideanDomain>(a: R, b: R) -> (out: Result<(R, R, R), AlgebraError>)
    requires
        R::params_ok(),
        a.wf(),
        b.wf(),
        R::euc_ok(a),
        R::euc_ok(b),
    ensures
        out == R::sp_ext_gcd(a, b),
        (match out {
            Ok((g, x, y)) => g.wf() && x.wf() && y.wf() && R::sp_bezout(a, b, g, x, y),
            Err(e) => e == AlgebraError::Overflow,
        }),
    decreases R::sp_size(a),
{
    proof {
        R::lemma_ext_gcd_unfold(a, b);
        R::lemma_ext_gcd_bezout(a, b);
    }
    if a.is_zero() {
        let z = b.zero();
        let o = b.one();
        return Ok((b, z, o));
    }
    let (q, r) = b.quotient_and_remainder(&a);
    proof {
        R::lemma_qr(b, a);
    }
    match ext_gcd(r, a) {
        Err(e) => Err(e),
        Ok((g, x1, y1)) => {
            match q.checked_mul(&x1) {
                None => Err(AlgebraError::Overflow),
                Some(p) => {
                    match y1.checked_sub(&p) {
                        None => Err(AlgebraError::Overflow),
                        Some(x) => Ok((g, x, x1)),
                    }
                },
            }
        },
    }
}

/// The Euclidean algorithm: the greatest common divisor of two elements of a
/// Euclidean domain. Divides the size-larger operand by the size-smaller one
/// so that the sizes strictly decrease.
pub fn gcd<R: EuclideanDomain>(a: &R, b: &R) -> (g: R)
    requires
        R::params_ok(),
        a.wf(),
        b.wf(),
        R::euc_ok(*a),
        R::euc_ok(*b),
    ensures
        g == R::sp_gcd(*a, *b),
        g.wf(),
    decreases R::sp_size(*b), R::sp_size(*a),
{
    proof {
        R::lemma_gcd_unfold(*a, *b);
    }
    if a.is_zero() {
        *b
    } else if b.is_zero() {
        *a
    } else if a.euc_size() < b.euc_size() {
        gcd(b, a)
    } else {
        let (q, r) = a.quotient_and_remainder(b);
        proof {
            R::lemma_qr(*a, *b);
        }
        gcd(b, &r)
    }
}

} // verus!
