//! Fixed-point scalar arithmetic.
//!
//! Physical quantities (lengths, velocities, masses) are `Fx` values:
//! `i64` counts of one millionth of a unit.  Every operation saturates at
//! `FX_MAX` raw counts, so results always stay in a range where products
//! fit the machine word and no operation can overflow or panic.
//! Multiplication and division round toward zero, which keeps them odd
//! functions: negating an operand negates the result exactly.  That fact
//! is what makes the narrow-phase symmetry law provable.

use vstd::prelude::*;

verus! {

/// Raw counts per one unit: `Fx` has six decimal places.
pub const SCALE: i64 = 1_000_000;

/// Largest representable raw count (one billion units).
pub const FX_MAX: i64 = 1_000_000_000_000_000;

/// A raw count is representable.
pub open spec fn fx_ok(x: int) -> bool {
    -(FX_MAX as int) <= x <= FX_MAX as int
}

/// Clamp a mathematical integer into the representable range.
pub open spec fn sat64(x: int) -> int {
    if x > FX_MAX as int {
        FX_MAX as int
    } else if x < -(FX_MAX as int) {
        -(FX_MAX as int)
    } else {
        x
    }
}

/// Division rounding toward zero, as the machine division does.
pub open spec fn tdiv(x: int, d: int) -> int
    recommends
        d != 0,
{
    if x == 0 {
        0
    } else if x > 0 && d > 0 {
        x / d
    } else if x < 0 && d < 0 {
        (x * -1) / (d * -1)
    } else if x < 0 {
        ((x * -1) / d) * -1
    } else {
        (x / (d * -1)) * -1
    }
}

/// Saturating fixed-point addition.
pub open spec fn fx_add(a: int, b: int) -> int {
    sat64(a + b)
}

/// Saturating fixed-point subtraction.
pub open spec fn fx_sub(a: int, b: int) -> int {
    sat64(a - b)
}

/// Fixed-point negation (exact: the range is symmetric).
pub open spec fn fx_neg(a: int) -> int {
    -a
}

/// Saturating fixed-point multiplication, rounding toward zero.
pub open spec fn fx_mul(a: int, b: int) -> int {
    sat64(tdiv(a * b, SCALE as int))
}

/// Saturating fixed-point division, rounding toward zero.
pub open spec fn fx_div(a: int, b: int) -> int
    recommends
        b != 0,
{
    sat64(tdiv(a * (SCALE as int), b))
}

/// Divide a fixed-point value by a plain integer, rounding toward zero.
pub open spec fn fx_divn(a: int, n: int) -> int
    recommends
        n != 0,
{
    tdiv(a, n)
}

/// Absolute value.
pub open spec fn fx_abs(a: int) -> int {
    if a < 0 {
        -a
    } else {
        a
    }
}

/// Clamp into a closed interval.
pub open spec fn fx_clamp(a: int, lo: int, hi: int) -> int
    recommends
        lo <= hi,
{
    if a < lo {
        lo
    } else if a > hi {
        hi
    } else {
        a
    }
}

/// `r` is the integer square root (floor) of `x`.
pub open spec fn is_sqrt(x: int, r: int) -> bool {
    &&& 0 <= r
    &&& r * r <= x
    &&& x < (r + 1) * (r + 1)
}

/// The integer square root (floor) of a non-negative integer.
pub open spec fn sqrt_floor(x: int) -> int
    recommends
        x >= 0,
{
    choose|r: int| is_sqrt(x, r)
}

/// Saturating fixed-point length of a two-dimensional raw vector:
/// the raw scale is linear, so the root of the raw sum of squares is
/// the raw length.
pub open spec fn fx_hypot(x: int, y: int) -> int {
    sat64(sqrt_floor(x * x + y * y))
}

/// The integer square root is unique.
pub proof fn lemma_sqrt_unique(x: int, r1: int, r2: int)
    requires
        is_sqrt(x, r1),
        is_sqrt(x, r2),
    ensures
        r1 == r2,
{
    assert(r1 == r2) by (nonlinear_arith)
        requires
            0 <= r1,
            0 <= r2,
            r1 * r1 <= x,
            x < (r1 + 1) * (r1 + 1),
            r2 * r2 <= x,
            x < (r2 + 1) * (r2 + 1),
    ;
}

/// Truncating division shrinks magnitudes when the divisor is at least one.
pub proof fn lemma_tdiv_bound(x: int, d: int)
    requires
        d >= 1,
    ensures
        fx_abs(tdiv(x, d)) <= fx_abs(x),
        x >= 0 ==> 0 <= tdiv(x, d) <= x,
        x < 0 ==> x <= tdiv(x, d) <= 0,
{
    if x >= 0 {
        assert(0 <= x / d <= x) by (nonlinear_arith)
            requires
                x >= 0,
                d >= 1,
        ;
    } else {
        assert(0 <= (x * -1) / d <= x * -1) by (nonlinear_arith)
            requires
                x < 0,
                d >= 1,
        ;
    }
}

/// A fixed-point scalar: a saturating count of millionths of a unit.
#[derive(Clone, Copy, Debug, PartialEq, Eq, Structural)]
pub struct Fx {
    raw: i64,
}

impl View for Fx {
    type V = int;

    closed spec fn view(&self) -> int {
        self.raw as int
    }
}

impl Fx {
    #[verifier::type_invariant]
    spec fn wf(self) -> bool {
        fx_ok(self.raw as int)
    }

    /// The zero scalar.
    pub fn zero() -> (r: Fx)
        ensures
            r@ == 0,
    {
        Fx { raw: 0 }
    }

    /// The unit scalar.
    pub fn one() -> (r: Fx)
        ensures
            r@ == SCALE as int,
    {
        Fx { raw: SCALE }
    }

    /// Build a scalar from a raw count of millionths, saturating.
    pub fn from_raw(raw: i64) -> (r: Fx)
        ensures
            r@ == sat64(raw as int),
    {
        if raw > FX_MAX {
            Fx { raw: FX_MAX }
        } else if raw < -FX_MAX {
            Fx { raw: -FX_MAX }
        } else {
            Fx { raw }
        }
    }

    /// Build a scalar from a count of whole units, saturating.
    pub fn from_units(u: i64) -> (r: Fx)
        ensures
            r@ == sat64(u * (SCALE as int)),
    {
        proof {
            assert((u as int) * (SCALE as int) <= i128::MAX as int && -(i128::MAX as int) <= (
            u as int) * (SCALE as int)) by (nonlinear_arith)
                requires
                    i64::MIN as int <= u as int <= i64::MAX as int,
            ;
        }
        let p: i128 = (u as i128) * (SCALE as i128);
        Fx::sat_i128(p)
    }

    /// The raw count of millionths.
    pub fn raw(self) -> (r: i64)
        ensures
            r as int == self@,
            fx_ok(r as int),
    {
        proof {
            use_type_invariant(&self);
        }
        self.raw
    }

    /// Clamp a wide intermediate result into the representable range.
    fn sat_i128(p: i128) -> (r: Fx)
        ensures
            r@ == sat64(p as int),
    {
        if p > FX_MAX as i128 {
            Fx { raw: FX_MAX }
        } else if p < -(FX_MAX as i128) {
            Fx { raw: -FX_MAX }
        } else {
            Fx { raw: p as i64 }
        }
    }

    /// Saturating addition.
    pub fn plus(self, o: Fx) -> (r: Fx)
        ensures
            r@ == fx_add(self@, o@),
    {
        proof {
            use_type_invariant(&self);
            use_type_invariant(&o);
        }
        let s: i128 = (self.raw as i128) + (o.raw as i128);
        Fx::sat_i128(s)
    }

    /// Saturating subtraction.
    pub fn minus(self, o: Fx) -> (r: Fx)
        ensures
            r@ == fx_sub(self@, o@),
    {
        proof {
            use_type_invariant(&self);
            use_type_invariant(&o);
        }
        let s: i128 = (self.raw as i128) - (o.raw as i128);
        Fx::sat_i128(s)
    }

    /// Exact negation.
    pub fn neg(self) -> (r: Fx)
        ensures
            r@ == fx_neg(self@),
    {
        proof {
            use_type_invariant(&self);
        }
        Fx { raw: -self.raw }
    }

    /// Saturating multiplication, rounding toward zero.
    pub fn times(self, o: Fx) -> (r: Fx)
        ensures
            r@ == fx_mul(self@, o@),
    {
        proof {
            use_type_invariant(&self);
            use_type_invariant(&o);
            lemma_fx_product_in_range(self@, o@);
        }
        let p: i128 = (self.raw as i128) * (o.raw as i128);
        let q: i128 = Fx::tdiv_i128(p, SCALE as i128);
        Fx::sat_i128(q)
    }

    /// Saturating division, rounding toward zero.
    pub fn over(self, o: Fx) -> (r: Fx)
        requires
            o@ != 0,
        ensures
            r@ == fx_div(self@, o@),
    {
        proof {
            use_type_invariant(&self);
            use_type_invariant(&o);
            lemma_fx_product_in_range(self@, SCALE as int);
        }
        let p: i128 = (self.raw as i128) * (SCALE as i128);
        let q: i128 = Fx::tdiv_i128(p, o.raw as i128);
        Fx::sat_i128(q)
    }

    /// Divide by a plain positive integer, rounding toward zero.
    pub fn divn(self, n: i64) -> (r: Fx)
        requires
            n >= 1,
        ensures
            r@ == fx_divn(self@, n as int),
    {
        proof {
            use_type_invariant(&self);
            lemma_tdiv_bound(self@, n as int);
        }
        let q: i128 = Fx::tdiv_i128(self.raw as i128, n as i128);
        Fx { raw: q as i64 }
    }

    /// Truncating division on wide intermediates.
    fn tdiv_i128(p: i128, d: i128) -> (q: i128)
        requires
            d != 0,
            -(i128::MAX as int) <= p,
        ensures
            q as int == tdiv(p as int, d as int),
    {
        proof {
            lemma_tdiv_in_range(p as int, d as int);
        }
        p.checked_div(d).unwrap()
    }

    /// Absolute value.
    pub fn abs_val(self) -> (r: Fx)
        ensures
            r@ == fx_abs(self@),
    {
        proof {
            use_type_invariant(&self);
        }
        if self.raw < 0 {
            Fx { raw: -self.raw }
        } else {
            self
        }
    }

    /// Clamp into a closed interval.
    pub fn clamp_to(self, lo: Fx, hi: Fx) -> (r: Fx)
        requires
            lo@ <= hi@,
        ensures
            r@ == fx_clamp(self@, lo@, hi@),
    {
        if self.raw < lo.raw {
            lo
        } else if self.raw > hi.raw {
            hi
        } else {
            self
        }
    }
}

/// Products of two representable raw counts fit the wide machine word.
proof fn lemma_fx_product_in_range(a: int, b: int)
    requires
        fx_ok(a),
        fx_ok(b),
    ensures
        -(i128::MAX as int) <= a * b <= i128::MAX as int,
{
    assert(-(i128::MAX as int) <= a * b <= i128::MAX as int) by (nonlinear_arith)
        requires
            -1_000_000_000_000_000 <= a <= 1_000_000_000_000_000,
            -1_000_000_000_000_000 <= b <= 1_000_000_000_000_000,
    ;
}

/// Truncating division never leaves the wide machine range when the
/// dividend is above the smallest wide value.
proof fn lemma_tdiv_in_range(p: int, d: int)
    requires
        d != 0,
        -(i128::MAX as int) <= p <= i128::MAX as int,
    ensures
        fx_abs(tdiv(p, d)) <= fx_abs(p),
        i128::MIN as int <= tdiv(p, d) <= i128::MAX as int,
{
    if d >= 1 {
        lemma_tdiv_bound(p, d);
    } else {
        lemma_tdiv_bound(p, -d);
        assert(tdiv(p, d) == -tdiv(p, -d));
    }
}

/// Multiplying by the unit scalar is exact.
pub proof fn lemma_fx_mul_one(x: int)
    requires
        fx_ok(x),
    ensures
        fx_mul(x, SCALE as int) == x,
        fx_mul(SCALE as int, x) == x,
{
    let s = SCALE as int;
    if x == 0 {
        assert(x * s == 0 && s * x == 0);
    } else if x > 0 {
        assert(x * s == s * x) by (nonlinear_arith);
        assert(x * s > 0) by (nonlinear_arith)
            requires
                x > 0,
                s > 0,
        ;
        vstd::arithmetic::div_mod::lemma_div_multiples_vanish(x, s);
        assert(tdiv(x * s, s) == x);
    } else {
        assert(x * s == s * x) by (nonlinear_arith);
        assert(x * s < 0) by (nonlinear_arith)
            requires
                x < 0,
                s > 0,
        ;
        assert((x * s) * -1 == s * (-x)) by (nonlinear_arith);
        vstd::arithmetic::div_mod::lemma_div_multiples_vanish(-x, s);
        assert(tdiv(x * s, s) == ((x * s * -1) / s) * -1);
        assert(tdiv(x * s, s) == x);
    }
}

/// Multiplying by zero gives zero.
pub proof fn lemma_fx_mul_zero(x: int)
    ensures
        fx_mul(x, 0) == 0,
        fx_mul(0, x) == 0,
{
    assert(x * 0 == 0 && 0 * x == 0) by (nonlinear_arith);
}

/// Splitting a non-negative value in half by fixed-point division
/// leaves a remainder of at most one raw count.
pub proof fn lemma_fx_half_remainder(v: int)
    requires
        0 <= v,
    ensures
        0 <= v - 2 * tdiv(v * (SCALE as int), 2 * (SCALE as int)) <= 1,
{
    let s = SCALE as int;
    if v == 0 {
        assert(tdiv(0, 2 * s) == 0);
    } else {
        assert(v * s > 0) by (nonlinear_arith)
            requires
                v > 0,
                s > 0,
        ;
        let q = (v * s) / (2 * s);
        assert(tdiv(v * s, 2 * s) == q);
        vstd::arithmetic::div_mod::lemma_fundamental_div_mod(v * s, 2 * s);
        let r = (v * s) % (2 * s);
        vstd::arithmetic::div_mod::lemma_mod_bound(v * s, 2 * s);
        assert(v * s == 2 * s * q + r);
        let d = v - 2 * q;
        assert(s * d == r) by (nonlinear_arith)
            requires
                v * s == 2 * s * q + r,
                d == v - 2 * q,
        ;
        assert(0 <= d <= 1) by (nonlinear_arith)
            requires
                s * d == r,
                0 <= r < 2 * s,
                s == 1_000_000,
        ;
    }
}

/// Floor integer square root by binary search.
pub fn isqrt_u128(x: u128) -> (r: u128)
    ensures
        is_sqrt(x as int, r as int),
        r as int == sqrt_floor(x as int),
{
    let mut lo: u128 = 0;
    let mut hi: u128 = 1u128 << 64;
    proof {
        assert((1u128 << 64) == 0x1_0000_0000_0000_0000u128) by (bit_vector);
        assert((hi as int) * (hi as int) > x as int) by (nonlinear_arith)
            requires
                hi as int == 0x1_0000_0000_0000_0000,
                x <= u128::MAX,
        ;
    }
    while lo + 1 < hi
        invariant
            lo < hi,
            hi <= 0x1_0000_0000_0000_0000u128,
            (lo as int) * (lo as int) <= x as int,
            (hi as int) * (hi as int) > x as int,
        decreases hi - lo,
    {
        let mid: u128 = lo + (hi - lo) / 2;
        proof {
            assert((mid as int) * (mid as int) < u128::MAX as int) by (nonlinear_arith)
                requires
                    mid < 0x1_0000_0000_0000_0000u128,
            ;
        }
        if mid * mid <= x {
            lo = mid;
        } else {
            hi = mid;
        }
    }
    proof {
        assert(is_sqrt(x as int, lo as int));
        let w: int = choose|r: int| is_sqrt(x as int, r);
        lemma_sqrt_unique(x as int, lo as int, w);
    }
    lo
}

} // verus!
