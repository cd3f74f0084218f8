//! Cubic polynomials over exact rational coefficients.
//!
//! A `Poly` stands for `a + b·t + c·t² + d·t³`, defined only for the
//! normalized parameter `t` in `[0, 1]`. Evaluation and the three derivatives
//! are computed with exact rational arithmetic; each returns `None` when an
//! intermediate value leaves the representable range.

use crate::rational::{
    abs_i, lemma_add_step, lemma_mul_le, lemma_mul_step, lemma_pos_prod, rat_add, rat_eqv,
    rat_mul, Rat,
};
use vstd::prelude::*;

verus! {

/// A cubic `a + b·t + c·t² + d·t³` on `t` in `[0, 1]`. Immutable once built.
#[derive(Clone, Copy, Debug)]
pub struct Poly {
    pub a: Rat,
    pub b: Rat,
    pub c: Rat,
    pub d: Rat,
}

/// Value of the cubic at the fraction `t`, as an exact fraction
/// (Horner form: `a + t·(b + t·(c + t·d))`).
pub open spec fn eval_frac(p: Poly, t: (int, int)) -> (int, int) {
    rat_add(
        p.a.v(),
        rat_mul(rat_add(p.b.v(), rat_mul(rat_add(p.c.v(), rat_mul(p.d.v(), t)), t)), t),
    )
}

/// Value of the first derivative `b + 2c·t + 3d·t²` at the fraction `t`
/// (Horner form: `b + t·(2c + t·3d)`).
pub open spec fn deriv_frac(p: Poly, t: (int, int)) -> (int, int) {
    rat_add(
        p.b.v(),
        rat_mul(rat_add(rat_mul((2int, 1int), p.c.v()), rat_mul(rat_mul((3int, 1int), p.d.v()), t)), t),
    )
}

/// Value of the second derivative `2c + 6d·t` at the fraction `t`.
pub open spec fn deriv2_frac(p: Poly, t: (int, int)) -> (int, int) {
    rat_add(rat_mul((2int, 1int), p.c.v()), rat_mul(rat_mul((6int, 1int), p.d.v()), t))
}

/// Value of the third derivative, the constant `6d`.
pub open spec fn deriv3_frac(p: Poly) -> (int, int) {
    rat_mul((6int, 1int), p.d.v())
}

impl Poly {
    /// All four coefficients are well-formed scalars.
    pub open spec fn wf(self) -> bool {
        self.a.wf() && self.b.wf() && self.c.wf() && self.d.wf()
    }

    /// All four coefficients are small: evaluation and the derivatives are
    /// then guaranteed to succeed.
    pub open spec fn small_coeffs(self) -> bool {
        self.a.small() && self.b.small() && self.c.small() && self.d.small()
    }

    /// Evaluates the cubic at `t`; exact, `None` on range overflow, which
    /// small coefficients and a small `t` rule out.
    pub fn get(&self, t: Rat) -> (r: Option<Rat>)
        requires
            self.wf(),
            t.wf(),
            t.in_unit(),
        ensures
            r matches Some(q) ==> q.wf() && rat_eqv(q.v(), eval_frac(*self, t.v())),
            self.small_coeffs() && t.small() ==> r is Some,
    {
        let ghost e3 = rat_mul(self.d.v(), t.v());
        let ghost e2 = rat_add(self.c.v(), e3);
        let ghost e2t = rat_mul(e2, t.v());
        let ghost e1 = rat_add(self.b.v(), e2t);
        let ghost e1t = rat_mul(e1, t.v());
        let r3 = self.d.mul(t);
        proof {
            if self.small_coeffs() && t.small() {
                lemma_mul_le(abs_i(self.d.num as int), abs_i(t.num as int), 0x100, 0x100);
                lemma_mul_le(self.d.den as int, t.den as int, 0x100, 0x100);
                assert(r3 is Some);
            }
        }
        let m3 = match r3 {
            Some(v) => v,
            None => {
                return None;
            },
        };
        let r2 = self.c.add(m3);
        proof {
            if self.small_coeffs() && t.small() {
                lemma_mul_le(abs_i(self.c.num as int), m3.den as int, 0x100, 0x1_0000);
                lemma_mul_le(abs_i(m3.num as int), self.c.den as int, 0x1_0000, 0x100);
                lemma_mul_le(self.c.den as int, m3.den as int, 0x100, 0x1_0000);
                assert(r2 is Some);
            }
        }
        let s2 = match r2 {
            Some(v) => v,
            None => {
                return None;
            },
        };
        proof {
            lemma_pos_prod(self.d.den as int, t.den as int);
            lemma_add_step(s2.v(), self.c.v(), m3.v(), self.c.v(), e3);
        }
        let r2t = s2.mul(t);
        proof {
            if self.small_coeffs() && t.small() {
                lemma_mul_le(abs_i(s2.num as int), abs_i(t.num as int), 0x200_0000, 0x100);
                lemma_mul_le(s2.den as int, t.den as int, 0x100_0000, 0x100);
                assert(r2t is Some);
            }
        }
        let m2 = match r2t {
            Some(v) => v,
            None => {
                return None;
            },
        };
        proof {
            lemma_mul_step(m2.v(), s2.v(), t.v(), e2, t.v());
            lemma_pos_prod(self.c.den as int, e3.1);
            lemma_pos_prod(e2.1, t.den as int);
        }
        let r1 = self.b.add(m2);
        proof {
            if self.small_coeffs() && t.small() {
                lemma_mul_le(abs_i(self.b.num as int), m2.den as int, 0x100, 0x1_0000_0000);
                lemma_mul_le(abs_i(m2.num as int), self.b.den as int, 0x2_0000_0000, 0x100);
                lemma_mul_le(self.b.den as int, m2.den as int, 0x100, 0x1_0000_0000);
                assert(r1 is Some);
            }
        }
        let s1 = match r1 {
            Some(v) => v,
            None => {
                return None;
            },
        };
        proof {
            lemma_add_step(s1.v(), self.b.v(), m2.v(), self.b.v(), e2t);
        }
        let r1t = s1.mul(t);
        proof {
            if self.small_coeffs() && t.small() {
                lemma_mul_le(abs_i(s1.num as int), abs_i(t.num as int), 0x300_0000_0000, 0x100);
                lemma_mul_le(s1.den as int, t.den as int, 0x100_0000_0000, 0x100);
                assert(r1t is Some);
            }
        }
        let m1 = match r1t {
            Some(v) => v,
            None => {
                return None;
            },
        };
        proof {
            lemma_mul_step(m1.v(), s1.v(), t.v(), e1, t.v());
            lemma_pos_prod(self.b.den as int, e2t.1);
            lemma_pos_prod(e1.1, t.den as int);
        }
        let r0 = self.a.add(m1);
        proof {
            if self.small_coeffs() && t.small() {
                lemma_mul_le(abs_i(self.a.num as int), m1.den as int, 0x100, 0x1_0000_0000_0000);
                lemma_mul_le(abs_i(m1.num as int), self.a.den as int, 0x3_0000_0000_0000, 0x100);
                lemma_mul_le(self.a.den as int, m1.den as int, 0x100, 0x1_0000_0000_0000);
                assert(r0 is Some);
            }
        }
        let s0 = match r0 {
            Some(v) => v,
            None => {
                return None;
            },
        };
        proof {
            lemma_add_step(s0.v(), self.a.v(), m1.v(), self.a.v(), e1t);
        }
        Some(s0)
    }

    /// First derivative at `t`; exact, `None` on range overflow, which
    /// small coefficients and a small `t` rule out.
    pub fn deriv(&self, t: Rat) -> (r: Option<Rat>)
        requires
            self.wf(),
            t.wf(),
            t.in_unit(),
        ensures
            r matches Some(q) ==> q.wf() && rat_eqv(q.v(), deriv_frac(*self, t.v())),
            self.small_coeffs() && t.small() ==> r is Some,
    {
        let ghost g3 = rat_mul((3int, 1int), self.d.v());
        let ghost g3t = rat_mul(g3, t.v());
        let ghost g2 = rat_mul((2int, 1int), self.c.v());
        let ghost gs = rat_add(g2, g3t);
        let ghost gst = rat_mul(gs, t.v());
        let two = Rat::from_int(2);
        let three = Rat::from_int(3);
        let rc2 = two.mul(self.c);
        proof {
            if self.small_coeffs() && t.small() {
                lemma_mul_le(abs_i(two.num as int), abs_i(self.c.num as int), 2, 0x100);
                lemma_mul_le(two.den as int, self.c.den as int, 1, 0x100);
                assert(rc2 is Some);
            }
        }
        let c2 = match rc2 {
            Some(v) => v,
            None => {
                return None;
            },
        };
        let rd3 = three.mul(self.d);
        proof {
            if self.small_coeffs() && t.small() {
                lemma_mul_le(abs_i(three.num as int), abs_i(self.d.num as int), 3, 0x100);
                lemma_mul_le(three.den as int, self.d.den as int, 1, 0x100);
                assert(rd3 is Some);
            }
        }
        let d3 = match rd3 {
            Some(v) => v,
            None => {
                return None;
            },
        };
        let rd3t = d3.mul(t);
        proof {
            if self.small_coeffs() && t.small() {
                lemma_mul_le(abs_i(d3.num as int), abs_i(t.num as int), 0x300, 0x100);
                lemma_mul_le(d3.den as int, t.den as int, 0x100, 0x100);
                assert(rd3t is Some);
            }
        }
        let d3t = match rd3t {
            Some(v) => v,
            None => {
                return None;
            },
        };
        proof {
            lemma_mul_step(d3t.v(), d3.v(), t.v(), g3, t.v());
        }
        let rs = c2.add(d3t);
        proof {
            if self.small_coeffs() && t.small() {
                lemma_mul_le(abs_i(c2.num as int), d3t.den as int, 0x200, 0x1_0000);
                lemma_mul_le(abs_i(d3t.num as int), c2.den as int, 0x3_0000, 0x100);
                lemma_mul_le(c2.den as int, d3t.den as int, 0x100, 0x1_0000);
                assert(rs is Some);
            }
        }
        let s = match rs {
            Some(v) => v,
            None => {
                return None;
            },
        };
        proof {
            lemma_pos_prod(g3.1, t.den as int);
            lemma_add_step(s.v(), c2.v(), d3t.v(), g2, g3t);
        }
        let rst = s.mul(t);
        proof {
            if self.small_coeffs() && t.small() {
                lemma_mul_le(abs_i(s.num as int), abs_i(t.num as int), 0x500_0000, 0x100);
                lemma_mul_le(s.den as int, t.den as int, 0x100_0000, 0x100);
                assert(rst is Some);
            }
        }
        let st = match rst {
            Some(v) => v,
            None => {
                return None;
            },
        };
        proof {
            lemma_mul_step(st.v(), s.v(), t.v(), gs, t.v());
            lemma_pos_prod(g2.1, g3t.1);
            lemma_pos_prod(gs.1, t.den as int);
        }
        let rr = self.b.add(st);
        proof {
            if self.small_coeffs() && t.small() {
                lemma_mul_le(abs_i(self.b.num as int), st.den as int, 0x100, 0x1_0000_0000);
                lemma_mul_le(abs_i(st.num as int), self.b.den as int, 0x5_0000_0000, 0x100);
                lemma_mul_le(self.b.den as int, st.den as int, 0x100, 0x1_0000_0000);
                assert(rr is Some);
            }
        }
        let r = match rr {
            Some(v) => v,
            None => {
                return None;
            },
        };
        proof {
            lemma_add_step(r.v(), self.b.v(), st.v(), self.b.v(), gst);
        }
        Some(r)
    }

    /// Second derivative at `t`; exact, `None` on range overflow, which
    /// small coefficients and a small `t` rule out.
    pub fn deriv2(&self, t: Rat) -> (r: Option<Rat>)
        requires
            self.wf(),
            t.wf(),
            t.in_unit(),
        ensures
            r matches Some(q) ==> q.wf() && rat_eqv(q.v(), deriv2_frac(*self, t.v())),
            self.small_coeffs() && t.small() ==> r is Some,
    {
        let ghost h6 = rat_mul((6int, 1int), self.d.v());
        let ghost h6t = rat_mul(h6, t.v());
        let ghost h2 = rat_mul((2int, 1int), self.c.v());
        let two = Rat::from_int(2);
        let six = Rat::from_int(6);
        let rc2 = two.mul(self.c);
        proof {
            if self.small_coeffs() && t.small() {
                lemma_mul_le(abs_i(two.num as int), abs_i(self.c.num as int), 2, 0x100);
                lemma_mul_le(two.den as int, self.c.den as int, 1, 0x100);
                assert(rc2 is Some);
            }
        }
        let c2 = match rc2 {
            Some(v) => v,
            None => {
                return None;
            },
        };
        let rd6 = six.mul(self.d);
        proof {
            if self.small_coeffs() && t.small() {
                lemma_mul_le(abs_i(six.num as int), abs_i(self.d.num as int), 6, 0x100);
                lemma_mul_le(six.den as int, self.d.den as int, 1, 0x100);
                assert(rd6 is Some);
            }
        }
        let d6 = match rd6 {
            Some(v) => v,
            None => {
                return None;
            },
        };
        let rd6t = d6.mul(t);
        proof {
            if self.small_coeffs() && t.small() {
                lemma_mul_le(abs_i(d6.num as int), abs_i(t.num as int), 0x600, 0x100);
                lemma_mul_le(d6.den as int, t.den as int, 0x100, 0x100);
                assert(rd6t is Some);
            }
        }
        let d6t = match rd6t {
            Some(v) => v,
            None => {
                return None;
            },
        };
        proof {
            lemma_mul_step(d6t.v(), d6.v(), t.v(), h6, t.v());
        }
        let rr = c2.add(d6t);
        proof {
            if self.small_coeffs() && t.small() {
                lemma_mul_le(abs_i(c2.num as int), d6t.den as int, 0x200, 0x1_0000);
                lemma_mul_le(abs_i(d6t.num as int), c2.den as int, 0x6_0000, 0x100);
                lemma_mul_le(c2.den as int, d6t.den as int, 0x100, 0x1_0000);
                assert(rr is Some);
            }
        }
        let r = match rr {
            Some(v) => v,
            None => {
                return None;
            },
        };
        proof {
            lemma_pos_prod(h6.1, t.den as int);
            lemma_add_step(r.v(), c2.v(), d6t.v(), h2, h6t);
        }
        Some(r)
    }

    /// Third derivative, the constant `6d`; exact, `None` on range overflow,
    /// which a small `d` rules out.
    pub fn deriv3(&self) -> (r: Option<Rat>)
        requires
            self.wf(),
        ensures
            r matches Some(q) ==> q.wf() && rat_eqv(q.v(), deriv3_frac(*self)),
            self.d.small() ==> r is Some,
    {
        let six = Rat::from_int(6);
        let r = six.mul(self.d);
        proof {
            if self.d.small() {
                lemma_mul_le(abs_i(six.num as int), abs_i(self.d.num as int), 6, 0x100);
                lemma_mul_le(six.den as int, self.d.den as int, 1, 0x100);
            }
        }
        r
    }
}

} // verus!
