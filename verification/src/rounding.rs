//! Hosts that compute in single precision, and what holds on them.

use crate::gpu::GpuState;
use crate::laws;
use crate::number;
use crate::number::{Scalar, F32};
use vstd::arithmetic::power2;
use vstd::prelude::*;

verus! {

/// How far two numbers are apart.
pub open spec fn distance(a: int, b: int) -> int {
    if a <= b {
        b - a
    } else {
        a - b
    }
}

/// Whether `r` is a finite number that is nearest to `num / den`, which counts units
/// of the smallest positive number.
pub open spec fn nearest(num: int, den: int, r: F32) -> bool {
    &&& r.spec_is_finite()
    &&& forall|w: F32|
        w.spec_is_finite() ==> distance(r.units() * den, num) <= distance(
            #[trigger] w.units() * den,
            num,
        )
}

/// The largest finite number.
pub open spec fn largest() -> F32 {
    F32 { bits: 0x7f7f_ffff }
}

/// One half.
pub open spec fn half() -> F32 {
    F32 { bits: 0x3f00_0000 }
}

/// Whether `r` is `num / den` after rounding: a nearest number, unless the exact one
/// is beyond all finite numbers.
pub open spec fn rounded(num: int, den: int, r: F32) -> bool {
    -largest().units() * den <= num <= largest().units() * den ==> nearest(num, den, r)
}

/// Whether `r` is `1 - v` after rounding.
pub open spec fn one_minus(v: F32, r: F32) -> bool {
    rounded(F32::one().units() - v.units(), 1, r)
}

/// Whether `r` is `1 - (1 - v)`, where the inner difference is rounded to `a`.
pub open spec fn one_minus_twice(v: F32, a: F32, r: F32) -> bool {
    one_minus(v, a) && (a.spec_is_finite() ==> one_minus(a, r))
}

/// Whether `r` is `from + (to - from) * rate`, where the difference is rounded to `d`
/// and the product to `p`.
pub open spec fn approach(from: F32, to: F32, rate: F32, d: F32, p: F32, r: F32) -> bool {
    &&& rounded(to.units() - from.units(), 1, d)
    &&& d.spec_is_finite() ==> rounded(d.units() * rate.units(), F32::one().units(), p)
    &&& p.spec_is_finite() ==> rounded(from.units() + p.units(), 1, r)
}

/// Whether a host computes in single precision: it works out differences and steps
/// of finite numbers operation by operation, and rounds every result to a nearest
/// number.
pub open spec fn rounds<E: Fn(Scalar) -> F32>(eval: E) -> bool {
    &&& forall|v: F32, r: F32|
        v.spec_is_finite() && #[trigger] call_ensures(eval, (Scalar::OneMinus(v),), r) ==> one_minus(
            v,
            r,
        )
    &&& forall|v: F32, r: F32|
        v.spec_is_finite() && #[trigger] call_ensures(eval, (Scalar::TwiceOneMinus(v),), r)
            ==> exists|a: F32| #[trigger] one_minus_twice(v, a, r)
    &&& forall|from: F32, to: F32, rate: F32, r: F32|
        from.spec_is_finite() && to.spec_is_finite() && rate.spec_is_finite()
            && #[trigger] call_ensures(eval, (Scalar::Approach { from, to, rate },), r)
            ==> exists|d: F32, p: F32| #[trigger] approach(from, to, rate, d, p, r)
}

/// The number `k * 2^e`, in units of the smallest positive number.
pub open spec fn dyadic(k: int, e: nat) -> F32
    decreases e,
{
    if k >= 0x80_0000 {
        F32 { bits: ((e + 1) * 0x80_0000 + (k - 0x80_0000)) as u32 }
    } else if e == 0 {
        F32 { bits: k as u32 }
    } else {
        dyadic(2 * k, (e - 1) as nat)
    }
}

proof fn lemma_dyadic(k: int, e: nat)
    requires
        0 <= k <= 0x100_0000,
        e <= 125,
    ensures
        dyadic(k, e).spec_is_finite(),
        dyadic(k, e).units() == k * power2::pow2(e),
    decreases e,
{
    power2::lemma_pow2_pos(e);
    if k == 0x100_0000 {
        power2::lemma_pow2_unfold(e + 1);
        let r = dyadic(k, e);
        assert(r.bits == (e + 2) * 0x80_0000);
        assert(r.magnitude() / 0x80_0000 == e + 2);
        assert(r.magnitude() % 0x80_0000 == 0);
        assert(r.units() == 0x80_0000 * power2::pow2(e + 1));
    } else if k >= 0x80_0000 {
        let r = dyadic(k, e);
        assert(r.magnitude() / 0x80_0000 == e + 1);
        assert(r.magnitude() % 0x80_0000 == k - 0x80_0000);
    } else if e == 0 {
        power2::lemma2_to64();
    } else {
        lemma_dyadic(2 * k, (e - 1) as nat);
        power2::lemma_pow2_unfold(e);
        let q = power2::pow2((e - 1) as nat);
        assert((2 * k) * q == k * (2 * q)) by (nonlinear_arith);
    }
}

/// A rounded number lies between the finite numbers between which the exact one lies.
proof fn lemma_between(num: int, den: int, r: F32, low: F32, high: F32)
    requires
        nearest(num, den, r),
        den > 0,
        low.spec_is_finite(),
        high.spec_is_finite(),
        low.units() * den <= num <= high.units() * den,
    ensures
        low.units() <= r.units() <= high.units(),
{
    let (x, l, h) = (r.units(), low.units(), high.units());
    assert(distance(x * den, num) <= distance(l * den, num));
    assert(distance(x * den, num) <= distance(h * den, num));
    if x < l {
        assert(x * den < l * den) by (nonlinear_arith)
            requires
                x < l,
                den > 0,
        ;
    }
    if x > h {
        assert(x * den > h * den) by (nonlinear_arith)
            requires
                x > h,
                den > 0,
        ;
    }
}

proof fn lemma_largest(v: F32)
    requires
        v.spec_is_finite(),
    ensures
        -largest().units() <= v.units() <= largest().units(),
        F32::one().units() > 0,
        F32::zero().units() == 0,
        largest().units() > 0,
{
    number::lemma_units_order(largest().magnitude(), v.magnitude());
    number::lemma_units_order(v.magnitude(), largest().magnitude());
    number::lemma_units_order(0, v.magnitude());
    number::lemma_units_order(0, F32::one().magnitude());
    number::lemma_units_order(0, largest().magnitude());
}

proof fn lemma_opposite(v: F32) -> (w: F32)
    requires
        v.spec_is_finite(),
    ensures
        w.spec_is_finite(),
        w.units() == -v.units(),
{
    let w = if v.bits >= 0x8000_0000 {
        F32 { bits: (v.bits - 0x8000_0000) as u32 }
    } else {
        F32 { bits: (v.bits + 0x8000_0000) as u32 }
    };
    assert(w.magnitude() == v.magnitude());
    w
}

/// In single precision, a step towards zero neither rises nor undershoots.
pub proof fn law_rounding_cools<E: Fn(Scalar) -> F32>(eval: E)
    requires
        rounds(eval),
    ensures
        laws::cools(eval),
{
    assert forall|from: F32, to: F32, rate: F32, v: F32|
        {
            &&& from.spec_is_finite()
            &&& from.spec_at_least(F32::zero())
            &&& to.same_number(F32::zero())
            &&& rate.spec_at_least(F32::zero())
            &&& F32::one().spec_at_least(rate)
            &&& #[trigger] call_ensures(eval, (Scalar::Approach { from, to, rate },), v)
        } implies v.spec_at_least(F32::zero()) && from.spec_at_least(v) by {
        number::law_finite_between(F32::one(), rate);
        number::law_finite_between(F32::zero(), to);
        let (d, p) = choose|d: F32, p: F32| #[trigger] approach(from, to, rate, d, p, v);
        let one = F32::one().units();
        let f = from.units();
        let top = largest().units();
        lemma_largest(from);
        let low = lemma_opposite(from);
        lemma_between(-f, 1, d, low, low);
        let t = rate.units();
        assert(d.units() == -f);
        assert(-f * one <= (-f) * t <= 0 && -top * one <= (-f) * t <= top * one) by (nonlinear_arith)
            requires
                0 <= f <= top,
                0 <= t <= one,
        ;
        assert(low.units() * one == -f * one);
        assert(F32::zero().units() * one == 0);
        lemma_between((-f) * t, one, p, low, F32::zero());
        lemma_between(f + p.units(), 1, v, F32::zero(), from);
    }
}

/// In single precision, cooling never reverses and never undershoots: after a run of
/// ticks towards zero, alpha is at least zero and at most what it was before.
pub proof fn law_single_precision_cools<E: Fn(Scalar) -> F32>(
    eval: E,
    state: GpuState,
    alphas: Seq<F32>,
)
    requires
        rounds(eval),
        laws::cooling(state),
        state.follows(eval, alphas),
    ensures
        state.after_ticks(alphas).params.alpha.spec_at_least(F32::zero()),
        state.params.alpha.spec_at_least(state.after_ticks(alphas).params.alpha),
        laws::cooling(state.after_ticks(alphas)),
{
    law_rounding_cools(eval);
    laws::law_ticks_cool(state, eval, alphas);
}

proof fn lemma_scale()
    ensures
        power2::pow2(125) == 2 * power2::pow2(124),
        power2::pow2(124) > 0,
        F32::one().units() == 0x100_0000 * power2::pow2(125),
        half().units() == 0x80_0000 * power2::pow2(125),
{
    power2::lemma_pow2_pos(124);
    power2::lemma_pow2_unfold(125);
    power2::lemma_pow2_unfold(126);
    assert(F32::one().magnitude() / 0x80_0000 == 127);
    assert(F32::one().magnitude() % 0x80_0000 == 0);
    assert(half().magnitude() / 0x80_0000 == 126);
    assert(half().magnitude() % 0x80_0000 == 0);
}

/// From one half to one, numbers are the multiples of `2^-24`.
proof fn lemma_upper_half(v: F32) -> (k: int)
    requires
        v.spec_is_finite(),
        half().units() <= v.units() <= F32::one().units(),
    ensures
        v.units() == k * power2::pow2(125),
        0 <= k <= 0x100_0000,
{
    lemma_scale();
    power2::lemma_pow2_unfold(126);
    let m = v.magnitude();
    number::lemma_units_order(0, m);
    number::lemma_units_order(m, half().magnitude());
    number::lemma_units_order(F32::one().magnitude(), m);
    assert(v.bits < 0x8000_0000);
    assert(0x3f00_0000 <= m <= 0x3f80_0000);
    if m == 0x3f80_0000 {
        0x100_0000
    } else {
        assert(m / 0x80_0000 == 126);
        0x80_0000 + m % 0x80_0000
    }
}

/// A difference that is a multiple of `2^-24` is exact.
proof fn lemma_exact(v: F32, k: int, r: F32)
    requires
        v.units() == k * power2::pow2(125),
        0 <= k <= 0x100_0000,
        one_minus(v, r),
    ensures
        r.spec_is_finite(),
        r.units() == (0x100_0000 - k) * power2::pow2(125),
{
    lemma_scale();
    lemma_dyadic(0x100_0000 - k, 125);
    let p = power2::pow2(125) as int;
    let w = dyadic(0x100_0000 - k, 125);
    assert(0x100_0000 * p - k * p == (0x100_0000 - k) * p) by (nonlinear_arith);
    lemma_largest(w);
    lemma_between(F32::one().units() - v.units(), 1, r, w, w);
}

/// In single precision the velocity decay comes back: what is read is at most
/// `2^-25` off what was set between zero and one, and exactly what was set from one
/// half on and for every multiple of `2^-24`. In units of the smallest positive
/// number, which is `2^-149`, these are `2^124` and `2^125`.
pub proof fn law_velocity_decay_comes_back<E: Fn(Scalar) -> F32>(
    eval: E,
    state: GpuState,
    v: F32,
    r: F32,
)
    requires
        rounds(eval),
        state.params.velocity_decay == Scalar::OneMinus(v),
        v.spec_at_least(F32::zero()),
        F32::one().spec_at_least(v),
        number::resolves(
            eval,
            Scalar::TwiceOneMinus(state.params.velocity_decay->OneMinus_0),
            r,
        ),
    ensures
        r.spec_is_finite(),
        distance(r.units(), v.units()) <= power2::pow2(124),
        v.spec_at_least(half()) || v.units() % power2::pow2(125) as int == 0 ==> r.same_number(v),
{
    number::law_finite_between(F32::one(), v);
    let a = choose|a: F32| #[trigger] one_minus_twice(v, a, r);
    lemma_scale();
    lemma_largest(F32::one());
    lemma_largest(v);
    let p = power2::pow2(125) as int;
    let q = power2::pow2(124) as int;
    let one = F32::one().units();
    let x = one - v.units();
    if v.spec_at_least(half()) || v.units() % p == 0 {
        let k = if v.spec_at_least(half()) {
            lemma_upper_half(v)
        } else {
            let k = v.units() / p;
            assert(v.units() == k * p && 0 <= k <= 0x100_0000) by (nonlinear_arith)
                requires
                    p > 0,
                    0 <= v.units() <= 0x100_0000 * p,
                    v.units() % p == 0,
                    k == v.units() / p,
            ;
            k
        };
        lemma_exact(v, k, a);
        lemma_exact(a, 0x100_0000 - k, r);
    } else {
        lemma_between(x, 1, a, half(), F32::one());
        let k = lemma_upper_half(a);
        lemma_exact(a, k, r);
        assert(0x100_0000 * p - k * p == (0x100_0000 - k) * p) by (nonlinear_arith);
        assert(r.units() == one - a.units());
        // The exact difference has a number within half a step of it.
        let j = (x + q) / p;
        assert(distance(j * p, x) <= q && 0 <= j <= 0x100_0000) by (nonlinear_arith)
            requires
                p == 2 * q,
                q > 0,
                0 <= x <= 0x100_0000 * p,
                j == (x + q) / p,
        ;
        lemma_dyadic(j, 125);
        let w = dyadic(j, 125);
        assert(distance(a.units() * 1, x) <= distance(w.units() * 1, x));
    }
}

} // verus!
