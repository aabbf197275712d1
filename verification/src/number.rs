//! Single-precision numbers as bit patterns, and the formulas over them that a
//! simulation asks its host to evaluate.

use vstd::prelude::*;

verus! {

/// An IEEE 754 binary32 number, held as its bit pattern.
///
/// The library classifies, compares, stores and moves such numbers. It leaves
/// arithmetic on them to the host and describes it with [`Scalar`].
#[derive(Clone, Copy, Debug)]
pub struct F32 {
    pub bits: u32,
}

impl F32 {
    /// `0.0`.
    #[verifier::allow_in_spec]
    pub fn zero() -> F32
        returns
            (F32 { bits: 0 }),
    {
        F32 { bits: 0 }
    }

    /// `1.0`.
    #[verifier::allow_in_spec]
    pub fn one() -> F32
        returns
            (F32 { bits: 0x3f80_0000 }),
    {
        F32 { bits: 0x3f80_0000 }
    }

    /// Positive infinity.
    #[verifier::allow_in_spec]
    pub fn infinity() -> F32
        returns
            (F32 { bits: 0x7f80_0000 }),
    {
        F32 { bits: 0x7f80_0000 }
    }

    /// The quiet NaN that marks an unset number.
    #[verifier::allow_in_spec]
    pub fn nan() -> F32
        returns
            (F32 { bits: 0x7fc0_0000 }),
    {
        F32 { bits: 0x7fc0_0000 }
    }

    /// The exponent and fraction fields, without the sign.
    pub open spec fn magnitude(self) -> int {
        self.bits as int % 0x8000_0000
    }

    /// Whether this is no number.
    pub open spec fn spec_is_nan(self) -> bool {
        self.magnitude() > 0x7f80_0000
    }

    /// Whether this is a number and no infinity.
    pub open spec fn spec_is_finite(self) -> bool {
        self.magnitude() < 0x7f80_0000
    }

    /// The number in units of the smallest positive one, which makes every finite
    /// number an integer. An infinity comes out beyond every finite number of its
    /// sign.
    pub open spec fn units(self) -> int {
        if self.bits >= 0x8000_0000 {
            -magnitude_units(self.magnitude())
        } else {
            magnitude_units(self.magnitude())
        }
    }

    /// Whether `self >= other` as numbers. A NaN is not comparable.
    pub open spec fn spec_at_least(self, other: F32) -> bool {
        &&& !self.spec_is_nan()
        &&& !other.spec_is_nan()
        &&& self.units() >= other.units()
    }

    /// Whether the two are equal as numbers. A NaN equals nothing, and the two
    /// zeros are equal.
    pub open spec fn same_number(self, other: F32) -> bool {
        &&& !self.spec_is_nan()
        &&& !other.spec_is_nan()
        &&& self.units() == other.units()
    }

    fn unsigned(self) -> (m: u32)
        ensures
            m == self.magnitude(),
    {
        if self.bits >= 0x8000_0000 {
            self.bits - 0x8000_0000
        } else {
            self.bits
        }
    }

    /// Whether this is no number.
    #[verifier::when_used_as_spec(spec_is_nan)]
    pub fn is_nan(self) -> (r: bool)
        ensures
            r == self.spec_is_nan(),
    {
        self.unsigned() > 0x7f80_0000
    }

    /// Whether this is a number and no infinity.
    #[verifier::when_used_as_spec(spec_is_finite)]
    pub fn is_finite(self) -> (r: bool)
        ensures
            r == self.spec_is_finite(),
    {
        self.unsigned() < 0x7f80_0000
    }

    /// `self >= other`.
    #[verifier::when_used_as_spec(spec_at_least)]
    pub fn at_least(self, other: F32) -> (r: bool)
        ensures
            r == self.spec_at_least(other),
    {
        if self.is_nan() || other.is_nan() {
            return false;
        }
        let a: u32 = self.unsigned();
        let b: u32 = other.unsigned();
        proof {
            lemma_units_order(a as int, b as int);
            lemma_units_order(b as int, a as int);
            lemma_units_order(0, a as int);
            lemma_units_order(0, b as int);
        }
        if self.bits >= 0x8000_0000 {
            if other.bits >= 0x8000_0000 {
                a <= b
            } else {
                a == 0 && b == 0
            }
        } else {
            other.bits >= 0x8000_0000 || a >= b
        }
    }
}

impl PartialEq for F32 {
    fn eq(&self, other: &F32) -> (r: bool) {
        let a: u32 = self.unsigned();
        let b: u32 = other.unsigned();
        proof {
            lemma_units_order(a as int, b as int);
            lemma_units_order(b as int, a as int);
            lemma_units_order(0, a as int);
            lemma_units_order(0, b as int);
        }
        !self.is_nan() && !other.is_nan() && (self.bits == other.bits || (a == 0 && b == 0))
    }
}

impl vstd::std_specs::cmp::PartialEqSpecImpl for F32 {
    open spec fn obeys_eq_spec() -> bool {
        true
    }

    open spec fn eq_spec(&self, other: &F32) -> bool {
        self.same_number(*other)
    }
}

/// A number that the host works out in single-precision arithmetic.
#[derive(Clone, Copy, Debug, PartialEq)]
pub enum Scalar {
    /// The number itself.
    Value(F32),
    /// The first coordinate of node `i` on the phyllotaxis spiral.
    SpiralX(usize),
    /// The second coordinate of node `i` on the phyllotaxis spiral.
    SpiralY(usize),
    /// `1 - v`.
    OneMinus(F32),
    /// `1 - (1 - v)`, with both subtractions rounded.
    TwiceOneMinus(F32),
    /// `v * v`.
    Square(F32),
    /// `num / den`, with both counts converted to numbers first.
    Quotient { num: u32, den: u32 },
    /// `from + (to - from) * rate`.
    Approach { from: F32, to: F32, rate: F32 },
}

/// Whether a host evaluates every formula.
pub open spec fn total<E: Fn(Scalar) -> F32>(eval: E) -> bool {
    forall|s: Scalar| call_requires(eval, (s,))
}

/// Whether `v` is the number that a formula stands for on a host. A number stands
/// for itself, and the host works out the rest.
pub open spec fn resolves<E: Fn(Scalar) -> F32>(eval: E, s: Scalar, v: F32) -> bool {
    match s {
        Scalar::Value(x) => v == x,
        _ => call_ensures(eval, (s,), v),
    }
}

/// The number that a formula stands for on a host.
pub fn resolve<E: Fn(Scalar) -> F32>(eval: &E, s: Scalar) -> (v: F32)
    requires
        total(*eval),
    ensures
        resolves(*eval, s, v),
{
    match s {
        Scalar::Value(x) => x,
        _ => eval(s),
    }
}

/// The size of a number with exponent and fraction fields `m`, in units of the
/// smallest positive number.
pub open spec fn magnitude_units(m: int) -> int {
    let exponent = m / 0x80_0000;
    let fraction = m % 0x80_0000;
    if exponent == 0 {
        fraction
    } else {
        (0x80_0000 + fraction) * vstd::arithmetic::power2::pow2((exponent - 1) as nat)
    }
}

pub(crate) proof fn lemma_units_order(a: int, b: int)
    requires
        0 <= a,
        0 <= b,
    ensures
        a < b ==> magnitude_units(a) < magnitude_units(b),
        magnitude_units(0) == 0,
{
    if a < b {
        let ea = a / 0x80_0000;
        let eb = b / 0x80_0000;
        let fa = a % 0x80_0000;
        let fb = b % 0x80_0000;
        if ea > 0 {
            vstd::arithmetic::power2::lemma_pow2_pos((ea - 1) as nat);
            let p = vstd::arithmetic::power2::pow2((ea - 1) as nat);
            if ea == eb {
                assert((0x80_0000 + fa) * p < (0x80_0000 + fb) * p) by (nonlinear_arith)
                    requires
                        fa < fb,
                        p > 0,
                ;
            } else {
                vstd::arithmetic::power2::lemma_pow2_unfold(ea as nat);
                let q = vstd::arithmetic::power2::pow2((eb - 1) as nat);
                if ea < eb - 1 {
                    vstd::arithmetic::power2::lemma_pow2_strictly_increases(
                        ea as nat,
                        (eb - 1) as nat,
                    );
                }
                assert((0x80_0000 + fa) * p < (0x80_0000 + fb) * q) by (nonlinear_arith)
                    requires
                        fa < 0x80_0000,
                        0 <= fb,
                        p > 0,
                        2 * p <= q,
                ;
            }
        } else if eb > 0 {
            vstd::arithmetic::power2::lemma_pow2_pos((eb - 1) as nat);
            let q = vstd::arithmetic::power2::pow2((eb - 1) as nat);
            assert((0x80_0000 + fb) * q >= 0x80_0000) by (nonlinear_arith)
                requires
                    0 <= fb,
                    q > 0,
            ;
        }
    }
}

/// Numbers are totally ordered, and those that are each at least the other are
/// equal.
pub proof fn law_order_total(a: F32, b: F32)
    requires
        !a.spec_is_nan(),
        !b.spec_is_nan(),
    ensures
        a.spec_at_least(b) || b.spec_at_least(a),
        a.spec_at_least(b) && b.spec_at_least(a) <==> a.same_number(b),
{
}

/// The order is transitive.
pub proof fn law_order_transitive(a: F32, b: F32, c: F32)
    requires
        a.spec_at_least(b),
        b.spec_at_least(c),
    ensures
        a.spec_at_least(c),
{
}

/// A NaN is neither at least nor at most anything, and equals nothing.
pub proof fn law_nan_unordered(a: F32, b: F32)
    requires
        a.spec_is_nan(),
    ensures
        !a.spec_at_least(b),
        !b.spec_at_least(a),
        !a.same_number(b),
        !b.same_number(a),
{
}

/// Between zero and a finite number there are only finite numbers.
pub proof fn law_finite_between(a: F32, b: F32)
    requires
        a.spec_is_finite(),
        a.spec_at_least(b),
        b.spec_at_least(F32::zero()),
    ensures
        b.spec_is_finite(),
{
    lemma_units_order(a.magnitude(), b.magnitude());
    lemma_units_order(0, a.magnitude());
    lemma_units_order(0, b.magnitude());
}

/// Infinity is at least every number, and only infinity is at least infinity.
pub proof fn law_infinity_largest(a: F32)
    requires
        !a.spec_is_nan(),
    ensures
        F32::infinity().spec_at_least(a),
        a.spec_at_least(F32::infinity()) ==> a == F32::infinity(),
{
    let m = a.magnitude();
    lemma_units_order(m, 0x7f80_0000);
    lemma_units_order(0, m);
    lemma_units_order(0, 0x7f80_0000);
}

} // verus!
