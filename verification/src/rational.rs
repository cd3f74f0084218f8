//! Exact rational scalars.
//!
//! Every curve computation in this crate runs over `Rat`, a fraction of two
//! `i128` values kept within `i64` range so that products and sums of cross
//! products always fit in `i128`. Results are reduced by a common divisor
//! after every operation; an operation whose reduced result still does not
//! fit reports `None` instead of overflowing.

use vstd::arithmetic::div_mod::{lemma_fundamental_div_mod, lemma_mod_multiples_basic};
use vstd::prelude::*;

verus! {

/// Magnitude bound on a well-formed numerator and denominator (2^63).
pub const RAT_BOUND: i128 = 0x8000_0000_0000_0000;

/// Magnitude under which chained cubic evaluation is guaranteed to stay in
/// range (2^8; seven chained operations then stay below 2^63).
pub const RAT_SMALL: i128 = 0x100;

/// Mathematical value of a fraction: `a.0 / a.1` with the denominator kept
/// symbolic. Two fractions are equal exactly when their cross products agree.
pub open spec fn rat_eqv(a: (int, int), b: (int, int)) -> bool {
    a.0 * b.1 == b.0 * a.1
}

/// Exact sum of two fractions.
pub open spec fn rat_add(a: (int, int), b: (int, int)) -> (int, int) {
    (a.0 * b.1 + b.0 * a.1, a.1 * b.1)
}

/// Exact difference of two fractions.
pub open spec fn rat_sub(a: (int, int), b: (int, int)) -> (int, int) {
    (a.0 * b.1 - b.0 * a.1, a.1 * b.1)
}

/// Exact product of two fractions.
pub open spec fn rat_mul(a: (int, int), b: (int, int)) -> (int, int) {
    (a.0 * b.0, a.1 * b.1)
}

/// Exact negation of a fraction.
pub open spec fn rat_neg(a: (int, int)) -> (int, int) {
    (-a.0, a.1)
}

/// Exact quotient of two fractions (meaningful only for `b.0 != 0`).
pub open spec fn rat_div(a: (int, int), b: (int, int)) -> (int, int) {
    (a.0 * b.1, a.1 * b.0)
}

/// Absolute value of an integer.
pub open spec fn abs_i(x: int) -> int {
    if x < 0 {
        -x
    } else {
        x
    }
}

/// Magnitude bound of an exact sum's numerator, before reduction.
pub open spec fn add_mag(a: Rat, b: Rat) -> int {
    abs_i(a.num as int) * (b.den as int) + abs_i(b.num as int) * (a.den as int)
}

/// Magnitude bound of an exact product's numerator, before reduction.
pub open spec fn mul_mag(a: Rat, b: Rat) -> int {
    abs_i(a.num as int) * abs_i(b.num as int)
}

/// Magnitude bound of an exact quotient's numerator, before reduction.
pub open spec fn div_mag(a: Rat, b: Rat) -> int {
    abs_i(a.num as int) * (b.den as int)
}

/// Magnitude bound of an exact quotient's denominator, before reduction.
pub open spec fn div_den(a: Rat, b: Rat) -> int {
    (a.den as int) * abs_i(b.num as int)
}

/// The denominator of an exact sum or product, before reduction.
pub open spec fn den_prod(a: Rat, b: Rat) -> int {
    (a.den as int) * (b.den as int)
}

/// The scalar's numerator magnitude is at most `m` and its denominator at
/// most `d`.
pub open spec fn fits(q: Rat, m: int, d: int) -> bool {
    &&& -m <= q.num as int <= m
    &&& q.den as int <= d
}

/// Commutativity of a single product.
proof fn lemma_mul_comm(x: int, y: int)
    by (nonlinear_arith)
    ensures
        x * y == y * x,
{
}

/// Distribution of a sum over a product.
proof fn lemma_distrib(x: int, y: int, z: int)
    by (nonlinear_arith)
    ensures
        (x + y) * z == x * z + y * z,
{
}

/// Regroupings of a product of four factors.
proof fn lemma_mul_pair(x: int, y: int, z: int, w: int)
    by (nonlinear_arith)
    ensures
        (x * y) * (z * w) == (x * z) * (y * w),
        (x * y) * (z * w) == (x * w) * (y * z),
{
}

/// Regroupings of a product of three factors.
proof fn lemma_mul_rotate(x: int, y: int, z: int)
    by (nonlinear_arith)
    ensures
        (x * y) * z == (x * z) * y,
        (x * y) * z == (y * z) * x,
{
}

/// A common nonzero factor cancels from an equality of products.
proof fn lemma_mul_cancel(x: int, y: int, z: int)
    by (nonlinear_arith)
    requires
        x * z == y * z,
        z != 0,
    ensures
        x == y,
{
}

/// Fraction equivalence is transitive when the middle denominator is nonzero.
pub proof fn lemma_eqv_trans(a: (int, int), b: (int, int), c: (int, int))
    requires
        rat_eqv(a, b),
        rat_eqv(b, c),
        b.1 != 0,
    ensures
        rat_eqv(a, c),
{
    lemma_mul_rotate(a.0, b.1, c.1);
    assert((a.0 * b.1) * c.1 == (b.0 * a.1) * c.1);
    lemma_mul_rotate(b.0, a.1, c.1);
    assert((b.0 * c.1) * a.1 == (c.0 * b.1) * a.1);
    lemma_mul_rotate(c.0, b.1, a.1);
    assert((a.0 * c.1) * b.1 == (c.0 * a.1) * b.1);
    lemma_mul_cancel(a.0 * c.1, c.0 * a.1, b.1);
}

/// Replacing the left operand of a sum by an equivalent fraction keeps the
/// sum equivalent.
proof fn lemma_add_eqv_left(a: (int, int), a2: (int, int), b: (int, int))
    requires
        rat_eqv(a, a2),
    ensures
        rat_eqv(rat_add(a, b), rat_add(a2, b)),
{
    lemma_distrib(a.0 * b.1, b.0 * a.1, a2.1 * b.1);
    lemma_mul_pair(a.0, b.1, a2.1, b.1);
    lemma_mul_pair(b.0, a.1, a2.1, b.1);
    lemma_distrib(a2.0 * b.1, b.0 * a2.1, a.1 * b.1);
    lemma_mul_pair(a2.0, b.1, a.1, b.1);
    lemma_mul_pair(b.0, a2.1, a.1, b.1);
    lemma_mul_comm(a.1, a2.1);
    assert((a.0 * b.1 + b.0 * a.1) * (a2.1 * b.1) == (a.0 * a2.1) * (b.1 * b.1) + (b.0 * b.1) * (
    a.1 * a2.1));
    assert((a2.0 * b.1 + b.0 * a2.1) * (a.1 * b.1) == (a2.0 * a.1) * (b.1 * b.1) + (b.0 * b.1) * (
    a2.1 * a.1));
}

/// A sum of fractions is equivalent to the sum taken in the other order.
proof fn lemma_add_comm(a: (int, int), b: (int, int))
    ensures
        rat_eqv(rat_add(a, b), rat_add(b, a)),
{
    lemma_mul_comm(b.1, a.1);
}

/// Sums of equivalent fractions are equivalent.
pub proof fn lemma_add_eqv(a: (int, int), b: (int, int), a2: (int, int), b2: (int, int))
    requires
        rat_eqv(a, a2),
        rat_eqv(b, b2),
        a2.1 != 0,
        b.1 != 0,
        b2.1 != 0,
    ensures
        rat_eqv(rat_add(a, b), rat_add(a2, b2)),
{
    lemma_add_eqv_left(a, a2, b);
    lemma_add_comm(a2, b);
    lemma_add_eqv_left(b, b2, a2);
    lemma_add_comm(b2, a2);
    assert(a2.1 * b.1 != 0 && b.1 * a2.1 != 0 && b2.1 * a2.1 != 0) by (nonlinear_arith)
        requires
            a2.1 != 0,
            b.1 != 0,
            b2.1 != 0,
    ;
    lemma_eqv_trans(rat_add(a, b), rat_add(a2, b), rat_add(b, a2));
    lemma_eqv_trans(rat_add(a, b), rat_add(b, a2), rat_add(b2, a2));
    lemma_eqv_trans(rat_add(a, b), rat_add(b2, a2), rat_add(a2, b2));
}

/// Products of equivalent fractions are equivalent.
pub proof fn lemma_mul_eqv(a: (int, int), b: (int, int), a2: (int, int), b2: (int, int))
    requires
        rat_eqv(a, a2),
        rat_eqv(b, b2),
    ensures
        rat_eqv(rat_mul(a, b), rat_mul(a2, b2)),
{
    lemma_mul_pair(a.0, b.0, a2.1, b2.1);
    lemma_mul_pair(a2.0, b2.0, a.1, b.1);
    assert((a.0 * a2.1) * (b.0 * b2.1) == (a2.0 * a.1) * (b2.0 * b.1));
}

/// A product of two values below the bound stays strictly within 2^126.
proof fn lemma_prod_range(x: int, y: int)
    by (nonlinear_arith)
    requires
        -0x8000_0000_0000_0000 < x < 0x8000_0000_0000_0000,
        -0x8000_0000_0000_0000 < y < 0x8000_0000_0000_0000,
    ensures
        -0x4000_0000_0000_0000_0000_0000_0000_0000 < x * y
            < 0x4000_0000_0000_0000_0000_0000_0000_0000,
{
}

/// A computed sum stays equivalent when both operands are replaced by
/// equivalent fractions.
pub proof fn lemma_add_step(yv: (int, int), xv: (int, int), zv: (int, int), xt: (int, int), zt: (int, int))
    requires
        rat_eqv(yv, rat_add(xv, zv)),
        rat_eqv(xv, xt),
        rat_eqv(zv, zt),
        xv.1 >= 1,
        zv.1 >= 1,
        xt.1 >= 1,
        zt.1 >= 1,
    ensures
        rat_eqv(yv, rat_add(xt, zt)),
{
    lemma_add_eqv(xv, zv, xt, zt);
    lemma_pos_prod(xv.1, zv.1);
    lemma_eqv_trans(yv, rat_add(xv, zv), rat_add(xt, zt));
}

/// A computed product stays equivalent when both operands are replaced by
/// equivalent fractions.
pub proof fn lemma_mul_step(yv: (int, int), xv: (int, int), zv: (int, int), xt: (int, int), zt: (int, int))
    requires
        rat_eqv(yv, rat_mul(xv, zv)),
        rat_eqv(xv, xt),
        rat_eqv(zv, zt),
        xv.1 >= 1,
        zv.1 >= 1,
    ensures
        rat_eqv(yv, rat_mul(xt, zt)),
{
    lemma_mul_eqv(xv, zv, xt, zt);
    lemma_pos_prod(xv.1, zv.1);
    lemma_eqv_trans(yv, rat_mul(xv, zv), rat_mul(xt, zt));
}

/// A product of values within symmetric bounds stays within the bounds'
/// product.
pub proof fn lemma_prod_within(x: int, y: int, bx: int, by: int)
    by (nonlinear_arith)
    requires
        -bx <= x <= bx,
        -by <= y <= by,
        0 <= bx,
        0 <= by,
    ensures
        -(bx * by) <= x * y <= bx * by,
{
}

/// Products of nonnegative values grow monotonically with their factors.
pub proof fn lemma_mul_le(x: int, y: int, bx: int, by: int)
    by (nonlinear_arith)
    requires
        0 <= x <= bx,
        0 <= y <= by,
    ensures
        x * y <= bx * by,
{
}

/// A product of two positive values is positive.
pub proof fn lemma_pos_prod(x: int, y: int)
    by (nonlinear_arith)
    requires
        1 <= x,
        1 <= y,
    ensures
        1 <= x * y,
{
}

/// An exact rational scalar: `num / den`.
#[derive(Clone, Copy, Debug)]
pub struct Rat {
    pub num: i128,
    pub den: i128,
}

impl Rat {
    /// The fraction this scalar stands for.
    pub open spec fn v(self) -> (int, int) {
        (self.num as int, self.den as int)
    }

    /// The scalar lies in the closed unit interval.
    pub open spec fn in_unit(self) -> bool {
        0 <= self.num <= self.den
    }

    /// Numerator and denominator within `RAT_SMALL`: small enough that a
    /// chained cubic evaluation never leaves the representable range.
    pub open spec fn small(self) -> bool {
        &&& -RAT_SMALL <= self.num <= RAT_SMALL
        &&& 1 <= self.den <= RAT_SMALL
    }

    /// Well-formed: both components within `i64` magnitude, denominator positive.
    pub open spec fn wf(self) -> bool {
        &&& -RAT_BOUND < self.num < RAT_BOUND
        &&& 1 <= self.den < RAT_BOUND
    }

    /// Builds the fraction `num / den`.
    pub fn new(num: i64, den: i64) -> (r: Rat)
        requires
            den >= 1,
            num as int > -0x8000_0000_0000_0000,
        ensures
            r.wf(),
            r.v() == (num as int, den as int),
    {
        Rat { num: num as i128, den: den as i128 }
    }

    /// Builds the integer `num` as a fraction.
    pub fn from_int(num: i64) -> (r: Rat)
        requires
            num as int > -0x8000_0000_0000_0000,
        ensures
            r.wf(),
            r.v() == (num as int, 1int),
    {
        Rat::new(num, 1)
    }

    /// The zero scalar.
    pub fn zero() -> (r: Rat)
        ensures
            r.wf(),
            r.v() == (0int, 1int),
    {
        Rat::new(0, 1)
    }

    /// The one scalar.
    pub fn one() -> (r: Rat)
        ensures
            r.wf(),
            r.v() == (1int, 1int),
    {
        Rat::new(1, 1)
    }

    /// True exactly when this scalar equals zero.
    pub fn is_zero(&self) -> (r: bool)
        requires
            self.wf(),
        ensures
            r <==> rat_eqv(self.v(), (0int, 1int)),
    {
        self.num == 0
    }

    /// Reduces `num / den` by a common divisor and packs it into a `Rat`,
    /// or reports `None` if the reduced fraction is still out of range.
    /// Reduction never grows a component, and a fraction already within the
    /// representable range always packs.
    fn norm(num: i128, den: i128) -> (r: Option<Rat>)
        requires
            1 <= den,
            num as int > -0x8000_0000_0000_0000_0000_0000_0000_0000,
        ensures
            r matches Some(q) ==> q.wf() && rat_eqv(q.v(), (num as int, den as int)) && fits(
                q,
                abs_i(num as int),
                den as int,
            ),
            -RAT_BOUND < num < RAT_BOUND && den < RAT_BOUND ==> r is Some,
    {
        if num == 0 {
            proof {
                assert(0int * den as int == 0 * 1) by (nonlinear_arith);
            }
            return Some(Rat { num: 0, den: 1 });
        }
        let neg = num < 0;
        let na: u128 = if neg {
            (-num) as u128
        } else {
            num as u128
        };
        let da: u128 = den as u128;
        let g = gcd_u128(na, da);
        let nr = na / g;
        let dr = da / g;
        proof {
            lemma_fundamental_div_mod(na as int, g as int);
            lemma_fundamental_div_mod(da as int, g as int);
            assert(nr as int <= na as int && dr as int <= da as int && 1 <= dr as int)
                by (nonlinear_arith)
                requires
                    na as int == g as int * (nr as int),
                    da as int == g as int * (dr as int),
                    g >= 1,
                    nr >= 0,
                    dr >= 0,
                    da >= 1,
            ;
        }
        if nr < 0x8000_0000_0000_0000 && 1 <= dr && dr < 0x8000_0000_0000_0000 {
            let rn: i128 = if neg {
                -(nr as i128)
            } else {
                nr as i128
            };
            let q = Rat { num: rn, den: dr as i128 };
            proof {
                assert(rn as int * (den as int) == (num as int) * (dr as int))
                    by (nonlinear_arith)
                    requires
                        na as int == g as int * (nr as int),
                        da as int == g as int * (dr as int),
                        den as int == da as int,
                        (num as int == na as int && rn as int == nr as int) || (num as int == -(
                        na as int) && rn as int == -(nr as int)),
                ;
            }
            Some(q)
        } else {
            None
        }
    }

    /// Exact sum; `None` only when the reduced result does not fit, which
    /// cannot happen while the pre-reduction magnitudes stay in range.
    pub fn add(self, other: Rat) -> (r: Option<Rat>)
        requires
            self.wf(),
            other.wf(),
        ensures
            r matches Some(q) ==> q.wf() && rat_eqv(q.v(), rat_add(self.v(), other.v())) && fits(
                q,
                add_mag(self, other),
                den_prod(self, other),
            ),
            add_mag(self, other) < RAT_BOUND && den_prod(self, other) < RAT_BOUND ==> r is Some,
    {
        proof {
            lemma_prod_range(self.num as int, other.den as int);
            lemma_prod_range(other.num as int, self.den as int);
            lemma_prod_range(self.den as int, other.den as int);
            lemma_pos_prod(self.den as int, other.den as int);
            lemma_prod_within(
                self.num as int,
                other.den as int,
                abs_i(self.num as int),
                other.den as int,
            );
            lemma_prod_within(
                other.num as int,
                self.den as int,
                abs_i(other.num as int),
                self.den as int,
            );
        }
        let n = self.num * other.den + other.num * self.den;
        let d = self.den * other.den;
        Rat::norm(n, d)
    }

    /// Exact difference; `None` only when the reduced result does not fit,
    /// which cannot happen while the pre-reduction magnitudes stay in range.
    pub fn sub(self, other: Rat) -> (r: Option<Rat>)
        requires
            self.wf(),
            other.wf(),
        ensures
            r matches Some(q) ==> q.wf() && rat_eqv(q.v(), rat_sub(self.v(), other.v())) && fits(
                q,
                add_mag(self, other),
                den_prod(self, other),
            ),
            add_mag(self, other) < RAT_BOUND && den_prod(self, other) < RAT_BOUND ==> r is Some,
    {
        let m = other.neg();
        let r = self.add(m);
        proof {
            assert(add_mag(self, m) == add_mag(self, other));
            assert(den_prod(self, m) == den_prod(self, other));
            if r is Some {
                assert((-(other.num as int)) * self.den as int == -(other.num as int
                    * self.den as int)) by (nonlinear_arith);
            }
        }
        r
    }

    /// Exact product; `None` only when the reduced result does not fit,
    /// which cannot happen while the pre-reduction magnitudes stay in range.
    pub fn mul(self, other: Rat) -> (r: Option<Rat>)
        requires
            self.wf(),
            other.wf(),
        ensures
            r matches Some(q) ==> q.wf() && rat_eqv(q.v(), rat_mul(self.v(), other.v())) && fits(
                q,
                mul_mag(self, other),
                den_prod(self, other),
            ),
            mul_mag(self, other) < RAT_BOUND && den_prod(self, other) < RAT_BOUND ==> r is Some,
    {
        proof {
            lemma_prod_range(self.num as int, other.num as int);
            lemma_prod_range(self.den as int, other.den as int);
            lemma_pos_prod(self.den as int, other.den as int);
            lemma_prod_within(
                self.num as int,
                other.num as int,
                abs_i(self.num as int),
                abs_i(other.num as int),
            );
        }
        let n = self.num * other.num;
        let d = self.den * other.den;
        Rat::norm(n, d)
    }

    /// Exact negation; never fails.
    pub fn neg(self) -> (r: Rat)
        requires
            self.wf(),
        ensures
            r.wf(),
            r.v() == rat_neg(self.v()),
    {
        Rat { num: -self.num, den: self.den }
    }

    /// Exact quotient by a nonzero scalar; `None` only when the reduced
    /// result does not fit, which cannot happen while the pre-reduction
    /// magnitudes stay in range.
    pub fn div(self, other: Rat) -> (r: Option<Rat>)
        requires
            self.wf(),
            other.wf(),
            other.num != 0,
        ensures
            r matches Some(q) ==> q.wf() && rat_eqv(q.v(), rat_div(self.v(), other.v())) && fits(
                q,
                div_mag(self, other),
                div_den(self, other),
            ),
            div_mag(self, other) < RAT_BOUND && div_den(self, other) < RAT_BOUND ==> r is Some,
    {
        proof {
            lemma_prod_range(self.num as int, other.den as int);
            lemma_prod_range(self.den as int, other.num as int);
            lemma_prod_within(
                self.num as int,
                other.den as int,
                abs_i(self.num as int),
                other.den as int,
            );
            lemma_prod_within(
                self.den as int,
                other.num as int,
                self.den as int,
                abs_i(other.num as int),
            );
        }
        let n0 = self.num * other.den;
        let d0 = self.den * other.num;
        proof {
            assert(d0 != 0) by (nonlinear_arith)
                requires
                    d0 == self.den as int * other.num as int,
                    self.den >= 1,
                    other.num != 0,
            ;
        }
        let (n, d) = if d0 < 0 {
            (-n0, -d0)
        } else {
            (n0, d0)
        };
        let r = Rat::norm(n, d);
        proof {
            if r is Some {
                assert((-n0) as int * (d0 as int) == (n0 as int) * ((-d0) as int))
                    by (nonlinear_arith);
                lemma_eqv_trans(r.unwrap().v(), (n as int, d as int), (n0 as int, d0 as int));
            }
        }
        r
    }

    /// Exact equality test of two scalars.
    pub fn eq_val(self, other: Rat) -> (r: bool)
        requires
            self.wf(),
            other.wf(),
        ensures
            r == rat_eqv(self.v(), other.v()),
    {
        proof {
            lemma_prod_range(self.num as int, other.den as int);
            lemma_prod_range(other.num as int, self.den as int);
        }
        self.num * other.den == other.num * self.den
    }
}

/// A positive common divisor of `a` and `b`, by Euclid's algorithm. The
/// ghost coefficients carry `a` and `b` as integer combinations of the
/// working pair, which at the end shows the result divides both.
fn gcd_u128(a: u128, b: u128) -> (g: u128)
    requires
        b >= 1,
    ensures
        g >= 1,
        a % g == 0,
        b % g == 0,
{
    let mut x = a;
    let mut y = b;
    let ghost mut cax: int = 1;
    let ghost mut cay: int = 0;
    let ghost mut cbx: int = 0;
    let ghost mut cby: int = 1;
    while y != 0
        invariant
            x >= 1 || y >= 1,
            a as int == cax * (x as int) + cay * (y as int),
            b as int == cbx * (x as int) + cby * (y as int),
        decreases y,
    {
        let t = x % y;
        proof {
            lemma_fundamental_div_mod(x as int, y as int);
            let q = x as int / y as int;
            assert(a as int == (cax * q + cay) * (y as int) + cax * (t as int))
                by (nonlinear_arith)
                requires
                    a as int == cax * (x as int) + cay * (y as int),
                    x as int == (y as int) * q + (t as int),
            ;
            assert(b as int == (cbx * q + cby) * (y as int) + cbx * (t as int))
                by (nonlinear_arith)
                requires
                    b as int == cbx * (x as int) + cby * (y as int),
                    x as int == (y as int) * q + (t as int),
            ;
            let oax = cax;
            cax = cax * q + cay;
            cay = oax;
            let obx = cbx;
            cbx = cbx * q + cby;
            cby = obx;
        }
        x = y;
        y = t;
    }
    proof {
        lemma_mod_multiples_basic(cax, x as int);
        lemma_mod_multiples_basic(cbx, x as int);
    }
    x
}

} // verus!
