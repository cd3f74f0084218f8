use spline::poly::Poly;
use spline::rational::Rat;
use spline::sampler::samples;
use spline::solver::polyline;

fn rat(n: i64, d: i64) -> Rat {
    Rat::new(n, d)
}

fn ints(vals: &[i64]) -> Vec<Rat> {
    vals.iter().map(|&v| Rat::from_int(v)).collect()
}

fn is_int(r: Rat, v: i64) -> bool {
    r.eq_val(Rat::from_int(v))
}

#[test]
fn empty_input_yields_empty_outputs() {
    let polys = polyline(&Vec::new()).expect("no points is not an error");
    assert_eq!(polys.len(), 0);

    let mut out: Vec<(Rat, Rat)> = vec![(rat(7, 1), rat(7, 1))];
    let ok = samples(&Vec::new(), &mut out);
    assert!(ok);
    assert_eq!(out.len(), 0);
}

#[test]
fn single_point_yields_empty_outputs() {
    let polys = polyline(&ints(&[5])).expect("one point is not an error");
    assert_eq!(polys.len(), 0);
}

#[test]
fn solver_returns_one_polynomial_per_segment() {
    let polys = polyline(&ints(&[0, 1, 2, 3])).expect("well-formed input");
    assert_eq!(polys.len(), 3);
}

#[test]
fn two_points_closed_form() {
    // One segment from 0 to 1 with zero end slopes: 3t^2 - 2t^3.
    let polys = polyline(&ints(&[0, 1])).expect("two points solve");
    assert_eq!(polys.len(), 1);
    let p = polys[0];
    assert!(is_int(p.a, 0));
    assert!(is_int(p.b, 0));
    assert!(is_int(p.c, 3));
    assert!(is_int(p.d, -2));

    let zero = Rat::zero();
    let one = Rat::one();
    assert!(is_int(p.get(zero).unwrap(), 0));
    assert!(is_int(p.get(one).unwrap(), 1));
    assert!(is_int(p.deriv(zero).unwrap(), 0));
    assert!(is_int(p.deriv(one).unwrap(), 0));
    // Midpoint value of 3t^2 - 2t^3 is exactly 1/2.
    let mid = p.get(rat(1, 2)).unwrap();
    assert!(mid.eq_val(rat(1, 2)));
}

#[test]
fn derivatives_of_closed_form() {
    let polys = polyline(&ints(&[0, 1])).expect("two points solve");
    let p = polys[0];
    // 3t^2 - 2t^3: p' = 6t - 6t^2, p'' = 6 - 12t, p''' = -12.
    assert!(p.deriv(rat(1, 2)).unwrap().eq_val(rat(3, 2)));
    assert!(is_int(p.deriv2(Rat::zero()).unwrap(), 6));
    assert!(is_int(p.deriv2(Rat::one()).unwrap(), -6));
    assert!(is_int(p.deriv3().unwrap(), -12));
}

#[test]
fn three_points_joint_is_exact() {
    let polys = polyline(&ints(&[0, 1, 0])).expect("three points solve");
    assert_eq!(polys.len(), 2);
    let one = Rat::one();
    let zero = Rat::zero();
    // Both segments meet the shared control value exactly.
    assert!(is_int(polys[0].get(one).unwrap(), 1));
    assert!(is_int(polys[1].get(zero).unwrap(), 1));
    // First and second derivatives agree at the joint.
    let d_left = polys[0].deriv(one).unwrap();
    let d_right = polys[1].deriv(zero).unwrap();
    assert!(d_left.eq_val(d_right));
    let s_left = polys[0].deriv2(one).unwrap();
    let s_right = polys[1].deriv2(zero).unwrap();
    assert!(s_left.eq_val(s_right));
    // Clamped ends: zero slope at both open ends.
    assert!(is_int(polys[0].deriv(zero).unwrap(), 0));
    assert!(is_int(polys[1].deriv(one).unwrap(), 0));
}

#[test]
fn interpolation_holds_for_longer_input() {
    let values = ints(&[2, -3, 7, 0, 4]);
    let polys = polyline(&values).expect("five points solve");
    assert_eq!(polys.len(), 4);
    let zero = Rat::zero();
    let one = Rat::one();
    for (i, p) in polys.iter().enumerate() {
        assert!(p.get(zero).unwrap().eq_val(values[i]));
        assert!(p.get(one).unwrap().eq_val(values[i + 1]));
    }
}

#[test]
fn solve_is_idempotent() {
    // Same input twice: bit-for-bit identical coefficients.
    let values = ints(&[0, 1, 0, 5, -2]);
    let first = polyline(&values).expect("solves");
    let second = polyline(&values).expect("solves");
    assert_eq!(first.len(), second.len());
    for (p, q) in first.iter().zip(second.iter()) {
        assert_eq!(p.a.num, q.a.num);
        assert_eq!(p.a.den, q.a.den);
        assert_eq!(p.b.num, q.b.num);
        assert_eq!(p.b.den, q.b.den);
        assert_eq!(p.c.num, q.c.num);
        assert_eq!(p.c.den, q.c.den);
        assert_eq!(p.d.num, q.d.num);
        assert_eq!(p.d.den, q.d.den);
    }
}

#[test]
fn sampler_yields_100_points_per_segment() {
    let px = polyline(&ints(&[0, 1, 2])).expect("solves");
    let py = polyline(&ints(&[0, 1, 0])).expect("solves");
    let pairs: Vec<(Poly, Poly)> = px.into_iter().zip(py).collect();
    let mut out: Vec<(Rat, Rat)> = Vec::new();
    let ok = samples(&pairs, &mut out);
    assert!(ok);
    assert_eq!(out.len(), 200);
    // Segment ends land exactly on the control points.
    assert!(is_int(out[0].0, 0) && is_int(out[0].1, 0));
    assert!(is_int(out[99].0, 1) && is_int(out[99].1, 1));
    assert!(is_int(out[100].0, 1) && is_int(out[100].1, 1));
    assert!(is_int(out[199].0, 2) && is_int(out[199].1, 0));
}

#[test]
fn sampler_replaces_previous_output() {
    let px = polyline(&ints(&[0, 1])).expect("solves");
    let pairs: Vec<(Poly, Poly)> = px.iter().map(|p| (*p, *p)).collect();
    let mut out: Vec<(Rat, Rat)> = Vec::new();
    assert!(samples(&pairs, &mut out));
    assert_eq!(out.len(), 100);
    // A second call replaces, never appends.
    assert!(samples(&pairs, &mut out));
    assert_eq!(out.len(), 100);
}

#[test]
fn out_of_range_input_reports_failure() {
    // 2^62: the solved cubic coefficient 3*2^62 leaves the representable
    // range, which the solver reports instead of returning a wrong curve.
    let huge = rat(4611686018427387904, 1);
    let r = polyline(&vec![Rat::zero(), huge]);
    assert!(r.is_none());
}

#[test]
fn sampler_reports_out_of_range_values() {
    // Coefficients of 2^62 make the evaluation at t = 1/99 leave the
    // representable range; the sampler reports that instead of clamping.
    let big = rat(4611686018427387904, 1);
    let p = Poly { a: big, b: big, c: big, d: big };
    let mut out: Vec<(Rat, Rat)> = Vec::new();
    let ok = samples(&vec![(p, p)], &mut out);
    assert!(!ok);
}

#[test]
fn small_polynomials_always_evaluate() {
    // Coefficients within 256 carry a guarantee: evaluation and the
    // derivatives succeed at every sampling step.
    let p = Poly { a: rat(256, 1), b: rat(-256, 1), c: rat(255, 256), d: rat(1, 3) };
    for i in 0..100i64 {
        assert!(p.get(rat(i, 99)).is_some());
        assert!(p.deriv(rat(i, 99)).is_some());
        assert!(p.deriv2(rat(i, 99)).is_some());
    }
    assert!(p.deriv3().is_some());
}

#[test]
fn rational_arithmetic_is_exact() {
    let half = rat(1, 2);
    let third = rat(1, 3);
    assert!(half.add(third).unwrap().eq_val(rat(5, 6)));
    assert!(half.sub(third).unwrap().eq_val(rat(1, 6)));
    assert!(half.mul(third).unwrap().eq_val(rat(1, 6)));
    assert!(half.div(third).unwrap().eq_val(rat(3, 2)));
    assert!(rat(2, 4).eq_val(rat(1, 2)));
    assert!(half.neg().eq_val(rat(-1, 2)));
    assert!(!half.eq_val(third));
    assert!(Rat::zero().is_zero());
    assert!(!Rat::one().is_zero());
}
