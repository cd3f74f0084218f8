//! Spline solver.
//!
//! Given an ordered sequence of scalar control values, `polyline` builds one
//! linear equation per interpolation, smoothness and clamped-end constraint,
//! assembles the dense square system, solves it by Gaussian elimination over
//! exact rationals, and unpacks one cubic per segment. A verified checker
//! then confirms, equation by equation, that the result satisfies every
//! constraint, so the contract of `polyline` guarantees the spline properties
//! of whatever it returns.

use crate::poly::{deriv2_frac, deriv_frac, eval_frac, Poly};
use crate::rational::{lemma_eqv_trans, lemma_pos_prod, rat_eqv, Rat};
use vstd::prelude::*;

verus! {

/// Every scalar in the sequence is well-formed.
pub open spec fn rats_wf(s: Seq<Rat>) -> bool {
    forall|i: int| 0 <= i < s.len() ==> (#[trigger] s[i]).wf()
}

/// Every polynomial in the sequence is well-formed.
pub open spec fn polys_wf(s: Seq<Poly>) -> bool {
    forall|i: int| 0 <= i < s.len() ==> (#[trigger] s[i]).wf()
}

/// Number of segments a control sequence of length `n` produces.
pub open spec fn seg_count(n: int) -> int {
    if n < 2 {
        0
    } else {
        n - 1
    }
}

/// The spline constraints, stated exactly over fractions:
/// each segment interpolates its two control values, first and second
/// derivatives agree at every interior joint, and the first derivative
/// vanishes at both open ends.
pub open spec fn spline_ok(ps: Seq<Rat>, cs: Seq<Poly>) -> bool {
    &&& forall|i: int|
        0 <= i < cs.len() ==> rat_eqv(eval_frac(#[trigger] cs[i], (0int, 1int)), ps[i].v())
    &&& forall|i: int|
        0 <= i < cs.len() ==> rat_eqv(eval_frac(#[trigger] cs[i], (1int, 1int)), ps[i + 1].v())
    &&& forall|i: int|
        0 <= i < cs.len() - 1 ==> rat_eqv(
            deriv_frac(#[trigger] cs[i], (1int, 1int)),
            deriv_frac(cs[i + 1], (0int, 1int)),
        )
    &&& forall|i: int|
        0 <= i < cs.len() - 1 ==> rat_eqv(
            deriv2_frac(#[trigger] cs[i], (1int, 1int)),
            deriv2_frac(cs[i + 1], (0int, 1int)),
        )
    &&& cs.len() > 0 ==> rat_eqv(deriv_frac(cs[0], (0int, 1int)), (0int, 1int))
    &&& cs.len() > 0 ==> rat_eqv(deriv_frac(cs[cs.len() - 1], (1int, 1int)), (0int, 1int))
}

/// Law: a single solved segment from value 0 to value 1 is exactly the
/// cubic `3t^2 - 2t^3`. The four constraints of `spline_ok` — value 0 at
/// t=0, value 1 at t=1, zero slope at both ends — admit no other
/// coefficients, so any successful solve of that input returns this curve.
#[verifier::rlimit(100)]
pub proof fn lemma_two_point_closed_form(ps: Seq<Rat>, cs: Seq<Poly>)
    requires
        ps.len() == 2,
        cs.len() == 1,
        ps[0].wf(),
        ps[1].wf(),
        cs[0].wf(),
        rat_eqv(ps[0].v(), (0int, 1int)),
        rat_eqv(ps[1].v(), (1int, 1int)),
        spline_ok(ps, cs),
    ensures
        rat_eqv(cs[0].a.v(), (0int, 1int)),
        rat_eqv(cs[0].b.v(), (0int, 1int)),
        rat_eqv(cs[0].c.v(), (3int, 1int)),
        rat_eqv(cs[0].d.v(), (-2int, 1int)),
{
    broadcast use vstd::arithmetic::mul::group_mul_basics;
    broadcast use vstd::arithmetic::mul::lemma_mul_by_zero_is_zero;

    let p = cs[0];
    let a0 = p.a.num as int;
    let a1 = p.a.den as int;
    let b0 = p.b.num as int;
    let b1 = p.b.den as int;
    let c0 = p.c.num as int;
    let c1 = p.c.den as int;
    let d0 = p.d.num as int;
    let d1 = p.d.den as int;
    lemma_pos_prod(c1, d1);
    lemma_pos_prod(b1, c1 * d1);
    lemma_pos_prod(a1, b1 * (c1 * d1));
    // The control values are exactly 0 and 1.
    assert(ps[0].num == 0);
    assert(ps[1].num as int == ps[1].den as int);
    // Value at t=0 is a itself: a == 0.
    assert(rat_eqv(eval_frac(p, (0int, 1int)), ps[0].v()));
    assert(eval_frac(p, (0int, 1int)) == (a0 * (b1 * (c1 * d1)), a1 * (b1 * (c1 * d1))));
    assert(a0 == 0) by (nonlinear_arith)
        requires
            (a0 * (b1 * (c1 * d1))) * (ps[0].den as int) == 0,
            b1 * (c1 * d1) >= 1,
            ps[0].den as int >= 1,
    ;
    // Slope at t=0 is b itself: b == 0.
    assert(rat_eqv(deriv_frac(p, (0int, 1int)), (0int, 1int)));
    assert(deriv_frac(p, (0int, 1int)) == (b0 * (c1 * d1), b1 * (c1 * d1)));
    assert(b0 == 0) by (nonlinear_arith)
        requires
            b0 * (c1 * d1) == 0,
            c1 * d1 >= 1,
    ;
    // Value at t=1: c/c1 + d/d1 == 1.
    assert(rat_eqv(eval_frac(p, (1int, 1int)), ps[1].v()));
    let w0 = b0 * (c1 * d1) + (c0 * d1 + d0 * c1) * b1;
    let w1 = b1 * (c1 * d1);
    assert(eval_frac(p, (1int, 1int)) == (a0 * w1 + w0 * a1, a1 * w1));
    assert(a0 * w1 + w0 * a1 == a1 * w1) by (nonlinear_arith)
        requires
            (a0 * w1 + w0 * a1) * (ps[1].den as int) == (ps[1].num as int) * (a1 * w1),
            ps[1].num as int == ps[1].den as int,
            ps[1].den as int >= 1,
    ;
    assert(c0 * d1 + d0 * c1 == c1 * d1) by (nonlinear_arith)
        requires
            a0 == 0,
            b0 == 0,
            a0 * w1 + w0 * a1 == a1 * w1,
            w0 == b0 * (c1 * d1) + (c0 * d1 + d0 * c1) * b1,
            w1 == b1 * (c1 * d1),
            a1 >= 1,
            b1 >= 1,
    ;
    // Slope at t=1: 2c/c1 + 3d/d1 == 0.
    assert(rat_eqv(deriv_frac(p, (1int, 1int)), (0int, 1int)));
    assert(deriv_frac(p, (1int, 1int)) == (
        b0 * (c1 * d1) + (2 * c0 * d1 + 3 * d0 * c1) * b1,
        b1 * (c1 * d1),
    ));
    assert(2 * c0 * d1 + 3 * d0 * c1 == 0) by (nonlinear_arith)
        requires
            b0 == 0,
            (b0 * (c1 * d1) + (2 * c0 * d1 + 3 * d0 * c1) * b1) * 1 == 0,
            b1 >= 1,
    ;
    // The two joint equations force d == -2 and c == 3.
    assert(d0 == -2 * d1) by (nonlinear_arith)
        requires
            c0 * d1 + d0 * c1 == c1 * d1,
            2 * c0 * d1 + 3 * d0 * c1 == 0,
            c1 >= 1,
    ;
    assert(c0 == 3 * c1) by (nonlinear_arith)
        requires
            c0 * d1 + d0 * c1 == c1 * d1,
            d0 == -2 * d1,
            d1 >= 1,
    ;
}

/// One unknown of the linear system: coefficient slot `coe` (0..4, ordered
/// a, b, c, d) of segment `line`.
#[derive(Clone, Copy, Debug)]
pub struct Var {
    pub line: usize,
    pub coe: usize,
}

/// One linear equation: a weighted sum of unknowns equal to `eq`.
#[derive(Debug)]
pub struct Constraint {
    pub sum: Vec<(Rat, Var)>,
    pub eq: Rat,
}

/// Every term has a well-formed weight and indexes a real unknown.
pub open spec fn constraint_wf(c: Constraint, lines: int) -> bool {
    &&& c.eq.wf()
    &&& forall|k: int|
        0 <= k < c.sum.len() ==> (#[trigger] c.sum@[k]).0.wf() && c.sum@[k].1.line < lines
            && c.sum@[k].1.coe < 4
}

/// Emits the constraint equations in the fixed order that keeps the system
/// square and the result deterministic: value constraints per segment, then
/// derivative continuity per interior joint, then the two end conditions.
fn build_constraints(points: &Vec<Rat>, lines: usize) -> (cs: Vec<Constraint>)
    requires
        rats_wf(points@),
        points@.len() >= 2,
        lines == points@.len() - 1,
    ensures
        cs@.len() == 4 * (lines as int),
        forall|i: int| 0 <= i < cs@.len() ==> constraint_wf(#[trigger] cs@[i], lines as int),
{
    let mut cs: Vec<Constraint> = Vec::new();
    // Value at t=0 equals the left control value; value at t=1 the right one.
    let mut i: usize = 0;
    while i < lines
        invariant
            rats_wf(points@),
            points@.len() >= 2,
            lines == points@.len() - 1,
            i <= lines,
            cs@.len() == 2 * (i as int),
            forall|k: int| 0 <= k < cs@.len() ==> constraint_wf(#[trigger] cs@[k], lines as int),
        decreases lines - i,
    {
        let p1 = points[i];
        let p2 = points[i + 1];
        let mut sum1: Vec<(Rat, Var)> = Vec::new();
        sum1.push((Rat::from_int(1), Var { line: i, coe: 0 }));
        cs.push(Constraint { sum: sum1, eq: p1 });
        let mut sum2: Vec<(Rat, Var)> = Vec::new();
        sum2.push((Rat::from_int(1), Var { line: i, coe: 0 }));
        sum2.push((Rat::from_int(1), Var { line: i, coe: 1 }));
        sum2.push((Rat::from_int(1), Var { line: i, coe: 2 }));
        sum2.push((Rat::from_int(1), Var { line: i, coe: 3 }));
        cs.push(Constraint { sum: sum2, eq: p2 });
        i += 1;
    }
    // First and second derivatives agree where two segments meet.
    let mut j: usize = 0;
    while j + 1 < lines
        invariant
            rats_wf(points@),
            points@.len() >= 2,
            lines == points@.len() - 1,
            j + 1 <= lines,
            cs@.len() == 2 * (lines as int) + 2 * (j as int),
            forall|k: int| 0 <= k < cs@.len() ==> constraint_wf(#[trigger] cs@[k], lines as int),
        decreases lines - j,
    {
        let mut sum3: Vec<(Rat, Var)> = Vec::new();
        sum3.push((Rat::from_int(1), Var { line: j, coe: 1 }));
        sum3.push((Rat::from_int(2), Var { line: j, coe: 2 }));
        sum3.push((Rat::from_int(3), Var { line: j, coe: 3 }));
        sum3.push((Rat::from_int(-1), Var { line: j + 1, coe: 1 }));
        cs.push(Constraint { sum: sum3, eq: Rat::zero() });
        let mut sum4: Vec<(Rat, Var)> = Vec::new();
        sum4.push((Rat::from_int(2), Var { line: j, coe: 2 }));
        sum4.push((Rat::from_int(6), Var { line: j, coe: 3 }));
        sum4.push((Rat::from_int(-2), Var { line: j + 1, coe: 2 }));
        cs.push(Constraint { sum: sum4, eq: Rat::zero() });
        j += 1;
    }
    // Clamped ends: first derivative zero at the very start and the very end.
    let mut sum5: Vec<(Rat, Var)> = Vec::new();
    sum5.push((Rat::from_int(1), Var { line: 0, coe: 1 }));
    cs.push(Constraint { sum: sum5, eq: Rat::zero() });
    let mut sum6: Vec<(Rat, Var)> = Vec::new();
    sum6.push((Rat::from_int(1), Var { line: lines - 1, coe: 1 }));
    sum6.push((Rat::from_int(2), Var { line: lines - 1, coe: 2 }));
    sum6.push((Rat::from_int(3), Var { line: lines - 1, coe: 3 }));
    cs.push(Constraint { sum: sum6, eq: Rat::zero() });
    cs
}

/// A row of `n` zero scalars.
fn zero_row(n: usize) -> (r: Vec<Rat>)
    ensures
        r@.len() == n,
        rats_wf(r@),
{
    let mut r: Vec<Rat> = Vec::new();
    let mut i: usize = 0;
    while i < n
        invariant
            i <= n,
            r@.len() == i,
            rats_wf(r@),
        decreases n - i,
    {
        r.push(Rat::zero());
        i += 1;
    }
    r
}

/// Scatters each constraint into one dense augmented row: the weight of
/// unknown `line * 4 + coe` in its column, the right-hand side last.
fn assemble(cs: &Vec<Constraint>, lines: usize, vars: usize) -> (rows: Vec<Vec<Rat>>)
    requires
        lines as int <= usize::MAX as int / 8,
        vars == 4 * (lines as int),
        forall|i: int| 0 <= i < cs@.len() ==> constraint_wf(#[trigger] cs@[i], lines as int),
    ensures
        rows@.len() == cs@.len(),
        forall|i: int|
            0 <= i < rows@.len() ==> (#[trigger] rows@[i])@.len() == vars + 1 && rats_wf(
                rows@[i]@,
            ),
{
    let w = vars + 1;
    let mut rows: Vec<Vec<Rat>> = Vec::new();
    let mut ci: usize = 0;
    while ci < cs.len()
        invariant
            lines as int <= usize::MAX as int / 8,
            vars == 4 * (lines as int),
            w == vars + 1,
            forall|i: int| 0 <= i < cs@.len() ==> constraint_wf(#[trigger] cs@[i], lines as int),
            ci <= cs@.len(),
            rows@.len() == ci,
            forall|i: int|
                0 <= i < rows@.len() ==> (#[trigger] rows@[i])@.len() == vars + 1 && rats_wf(
                    rows@[i]@,
                ),
        decreases cs@.len() - ci,
    {
        let mut row = zero_row(w);
        let mut ti: usize = 0;
        while ti < cs[ci].sum.len()
            invariant
                lines as int <= usize::MAX as int / 8,
                vars == 4 * (lines as int),
                w == vars + 1,
                ci < cs@.len(),
                forall|i: int|
                    0 <= i < cs@.len() ==> constraint_wf(#[trigger] cs@[i], lines as int),
                ti <= cs@[ci as int].sum.len(),
                row@.len() == w,
                rats_wf(row@),
            decreases cs@[ci as int].sum.len() - ti,
        {
            let (m, vr) = cs[ci].sum[ti];
            let col = vr.line * 4 + vr.coe;
            row[col] = m;
            ti += 1;
        }
        row[vars] = cs[ci].eq;
        rows.push(row);
        ci += 1;
    }
    rows
}

/// Solves the square system held in augmented rows (`n` coefficients, then
/// the right-hand side) by Gaussian elimination with exact arithmetic.
/// `None` means a zero pivot column or an out-of-range intermediate value.
fn eliminate(rows_in: Vec<Vec<Rat>>, n: usize) -> (r: Option<Vec<Rat>>)
    requires
        n < usize::MAX,
        rows_in@.len() == n,
        forall|i: int|
            0 <= i < rows_in@.len() ==> (#[trigger] rows_in@[i])@.len() == n + 1 && rats_wf(
                rows_in@[i]@,
            ),
    ensures
        r matches Some(x) ==> x@.len() == n && rats_wf(x@),
{
    let w = n + 1;
    let mut rest = rows_in;
    let mut done: Vec<Vec<Rat>> = Vec::new();
    let mut k: usize = 0;
    while k < n
        invariant
            n < usize::MAX,
            w == n + 1,
            k <= n,
            done@.len() == k,
            rest@.len() == n - k,
            forall|i: int|
                0 <= i < done@.len() ==> (#[trigger] done@[i])@.len() == n + 1 && rats_wf(
                    done@[i]@,
                ) && done@[i]@[i].num != 0,
            forall|i: int|
                0 <= i < rest@.len() ==> (#[trigger] rest@[i])@.len() == n + 1 && rats_wf(
                    rest@[i]@,
                ),
        decreases n - k,
    {
        // Pick the first remaining row whose entry in the pivot column is
        // nonzero; a column with none makes the system singular.
        let rest_len = rest.len();
        let mut p: usize = 0;
        while p < rest_len && rest[p][k].num == 0
            invariant
                p <= rest_len,
                rest_len == rest@.len(),
                k < n,
                w == n + 1,
                forall|i: int|
                    0 <= i < rest@.len() ==> (#[trigger] rest@[i])@.len() == n + 1 && rats_wf(
                        rest@[i]@,
                    ),
            decreases rest_len - p,
        {
            p += 1;
        }
        if p == rest_len {
            return None;
        }
        let piv = rest.swap_remove(p);
        // Clear the pivot column from every remaining row.
        let mut new_rest: Vec<Vec<Rat>> = Vec::new();
        let mut ri: usize = 0;
        while ri < rest.len()
            invariant
                n < usize::MAX,
                w == n + 1,
                k < n,
                piv@.len() == n + 1,
                rats_wf(piv@),
                piv@[k as int].num != 0,
                ri <= rest@.len(),
                forall|i: int|
                    0 <= i < rest@.len() ==> (#[trigger] rest@[i])@.len() == n + 1 && rats_wf(
                        rest@[i]@,
                    ),
                new_rest@.len() == ri,
                forall|i: int|
                    0 <= i < new_rest@.len() ==> (#[trigger] new_rest@[i])@.len() == n + 1
                        && rats_wf(new_rest@[i]@),
            decreases rest@.len() - ri,
        {
            let factor = match rest[ri][k].div(piv[k]) {
                Some(f) => f,
                None => {
                    return None;
                },
            };
            let mut nr: Vec<Rat> = Vec::new();
            let mut j: usize = 0;
            while j < w
                invariant
                    n < usize::MAX,
                    w == n + 1,
                    ri < rest@.len(),
                    piv@.len() == n + 1,
                    rats_wf(piv@),
                    factor.wf(),
                    forall|i: int|
                        0 <= i < rest@.len() ==> (#[trigger] rest@[i])@.len() == n + 1 && rats_wf(
                            rest@[i]@,
                        ),
                    j <= w,
                    nr@.len() == j,
                    rats_wf(nr@),
                decreases w - j,
            {
                let prod = match factor.mul(piv[j]) {
                    Some(v) => v,
                    None => {
                        return None;
                    },
                };
                let val = match rest[ri][j].sub(prod) {
                    Some(v) => v,
                    None => {
                        return None;
                    },
                };
                nr.push(val);
                j += 1;
            }
            new_rest.push(nr);
            ri += 1;
        }
        rest = new_rest;
        done.push(piv);
        k += 1;
    }
    // Back substitution up the pivot rows.
    let mut x = zero_row(n);
    let mut k2: usize = n;
    while k2 > 0
        invariant
            n < usize::MAX,
            w == n + 1,
            k2 <= n,
            x@.len() == n,
            rats_wf(x@),
            done@.len() == n,
            forall|i: int|
                0 <= i < done@.len() ==> (#[trigger] done@[i])@.len() == n + 1 && rats_wf(
                    done@[i]@,
                ) && done@[i]@[i].num != 0,
        decreases k2,
    {
        k2 -= 1;
        let mut s = done[k2][n];
        let mut j = k2 + 1;
        while j < n
            invariant
                n < usize::MAX,
                k2 < n,
                k2 < j <= n,
                s.wf(),
                x@.len() == n,
                rats_wf(x@),
                done@.len() == n,
                forall|i: int|
                    0 <= i < done@.len() ==> (#[trigger] done@[i])@.len() == n + 1 && rats_wf(
                        done@[i]@,
                    ) && done@[i]@[i].num != 0,
            decreases n - j,
        {
            let prod = match done[k2][j].mul(x[j]) {
                Some(v) => v,
                None => {
                    return None;
                },
            };
            s = match s.sub(prod) {
                Some(v) => v,
                None => {
                    return None;
                },
            };
            j += 1;
        }
        let xk = match s.div(done[k2][k2]) {
            Some(v) => v,
            None => {
                return None;
            },
        };
        x[k2] = xk;
    }
    Some(x)
}

/// Packs the solution vector into one cubic per segment, four consecutive
/// entries each, in the slot order a, b, c, d.
fn unpack(x: &Vec<Rat>, lines: usize) -> (cs: Vec<Poly>)
    requires
        lines as int <= usize::MAX as int / 8,
        x@.len() == 4 * (lines as int),
        rats_wf(x@),
    ensures
        cs@.len() == lines,
        polys_wf(cs@),
{
    let mut cs: Vec<Poly> = Vec::new();
    let mut i: usize = 0;
    while i < lines
        invariant
            lines as int <= usize::MAX as int / 8,
            x@.len() == 4 * (lines as int),
            rats_wf(x@),
            i <= lines,
            cs@.len() == i,
            polys_wf(cs@),
        decreases lines - i,
    {
        cs.push(Poly { a: x[4 * i], b: x[4 * i + 1], c: x[4 * i + 2], d: x[4 * i + 3] });
        i += 1;
    }
    cs
}

/// Checks every spline constraint of the candidate solution by exact
/// evaluation; `true` guarantees `spline_ok`.
fn check_spline(points: &Vec<Rat>, cs: &Vec<Poly>) -> (ok: bool)
    requires
        rats_wf(points@),
        polys_wf(cs@),
        cs@.len() + 1 == points@.len(),
    ensures
        ok ==> spline_ok(points@, cs@),
{
    let zero = Rat::zero();
    let one = Rat::one();
    let mut i: usize = 0;
    while i < cs.len()
        invariant
            rats_wf(points@),
            polys_wf(cs@),
            cs@.len() + 1 == points@.len(),
            zero.wf() && zero.v() == (0int, 1int),
            one.wf() && one.v() == (1int, 1int),
            i <= cs@.len(),
            forall|q: int|
                0 <= q < i ==> rat_eqv(eval_frac(#[trigger] cs@[q], (0int, 1int)), points@[q].v()),
            forall|q: int|
                0 <= q < i ==> rat_eqv(
                    eval_frac(#[trigger] cs@[q], (1int, 1int)),
                    points@[q + 1].v(),
                ),
        decreases cs@.len() - i,
    {
        let e0 = match cs[i].get(zero) {
            Some(v) => v,
            None => {
                return false;
            },
        };
        if !e0.eq_val(points[i]) {
            return false;
        }
        proof {
            lemma_eqv_trans(eval_frac(cs@[i as int], (0int, 1int)), e0.v(), points@[i as int].v());
        }
        let e1 = match cs[i].get(one) {
            Some(v) => v,
            None => {
                return false;
            },
        };
        if !e1.eq_val(points[i + 1]) {
            return false;
        }
        proof {
            lemma_eqv_trans(
                eval_frac(cs@[i as int], (1int, 1int)),
                e1.v(),
                points@[i as int + 1].v(),
            );
        }
        i += 1;
    }
    let m = cs.len();
    let mut j: usize = 0;
    while m >= 2 && j < m - 1
        invariant
            rats_wf(points@),
            polys_wf(cs@),
            cs@.len() + 1 == points@.len(),
            zero.wf() && zero.v() == (0int, 1int),
            one.wf() && one.v() == (1int, 1int),
            m == cs@.len(),
            m >= 2 ==> j <= m - 1,
            m < 2 ==> j == 0,
            forall|q: int|
                0 <= q < j ==> rat_eqv(
                    deriv_frac(#[trigger] cs@[q], (1int, 1int)),
                    deriv_frac(cs@[q + 1], (0int, 1int)),
                ),
            forall|q: int|
                0 <= q < j ==> rat_eqv(
                    deriv2_frac(#[trigger] cs@[q], (1int, 1int)),
                    deriv2_frac(cs@[q + 1], (0int, 1int)),
                ),
        decreases cs@.len() - j,
    {
        let d1 = match cs[j].deriv(one) {
            Some(v) => v,
            None => {
                return false;
            },
        };
        let d0 = match cs[j + 1].deriv(zero) {
            Some(v) => v,
            None => {
                return false;
            },
        };
        if !d1.eq_val(d0) {
            return false;
        }
        proof {
            lemma_eqv_trans(deriv_frac(cs@[j as int], (1int, 1int)), d1.v(), d0.v());
            lemma_eqv_trans(
                deriv_frac(cs@[j as int], (1int, 1int)),
                d0.v(),
                deriv_frac(cs@[j as int + 1], (0int, 1int)),
            );
        }
        let s1 = match cs[j].deriv2(one) {
            Some(v) => v,
            None => {
                return false;
            },
        };
        let s0 = match cs[j + 1].deriv2(zero) {
            Some(v) => v,
            None => {
                return false;
            },
        };
        if !s1.eq_val(s0) {
            return false;
        }
        proof {
            lemma_eqv_trans(deriv2_frac(cs@[j as int], (1int, 1int)), s1.v(), s0.v());
            lemma_eqv_trans(
                deriv2_frac(cs@[j as int], (1int, 1int)),
                s0.v(),
                deriv2_frac(cs@[j as int + 1], (0int, 1int)),
            );
        }
        j += 1;
    }
    if cs.len() > 0 {
        let b0 = match cs[0].deriv(zero) {
            Some(v) => v,
            None => {
                return false;
            },
        };
        if !b0.eq_val(zero) {
            return false;
        }
        proof {
            lemma_eqv_trans(deriv_frac(cs@[0], (0int, 1int)), b0.v(), (0int, 1int));
        }
        let bl = match cs[cs.len() - 1].deriv(one) {
            Some(v) => v,
            None => {
                return false;
            },
        };
        if !bl.eq_val(zero) {
            return false;
        }
        proof {
            lemma_eqv_trans(
                deriv_frac(cs@[cs@.len() - 1], (1int, 1int)),
                bl.v(),
                (0int, 1int),
            );
        }
    }
    true
}

/// Solves the clamped cubic spline through the given control values: one
/// cubic per segment between consecutive values. Fewer than two values yield
/// no segments. `Some` is exact: the returned cubics satisfy every
/// interpolation, continuity and end constraint. `None` reports an
/// unsolvable system or an out-of-range intermediate value.
pub fn polyline(points: &Vec<Rat>) -> (r: Option<Vec<Poly>>)
    requires
        rats_wf(points@),
    ensures
        points@.len() < 2 ==> (r matches Some(cs) && cs@.len() == 0),
        r matches Some(cs) ==> cs@.len() == seg_count(points@.len() as int) && polys_wf(cs@)
            && spline_ok(points@, cs@),
{
    if points.len() < 2 {
        return Some(Vec::new());
    }
    let lines = points.len() - 1;
    if lines > usize::MAX / 8 {
        return None;
    }
    let vars = 4 * lines;
    let cs = build_constraints(points, lines);
    // The constraint count always equals the unknown count: proved, not
    // merely asserted at run time.
    assert(cs@.len() == vars);
    let rows = assemble(&cs, lines, vars);
    let x = match eliminate(rows, vars) {
        Some(v) => v,
        None => {
            return None;
        },
    };
    let polys = unpack(&x, lines);
    if check_spline(points, &polys) {
        Some(polys)
    } else {
        None
    }
}

} // verus!
