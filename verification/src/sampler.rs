//! Curve sampler.
//!
//! Evaluates each segment's pair of cubics (one for each axis) at 100 evenly
//! spaced parameter values `t = i / 99`, writing the resulting 2D points into
//! the caller's buffer in segment order. The buffer is fully replaced on
//! every call.

use crate::poly::{eval_frac, Poly};
use crate::rational::{rat_eqv, Rat};
use vstd::arithmetic::div_mod::lemma_fundamental_div_mod_converse;
use vstd::prelude::*;

verus! {

/// Both cubics of every segment pair are well-formed.
pub open spec fn pairs_wf(s: Seq<(Poly, Poly)>) -> bool {
    forall|i: int| 0 <= i < s.len() ==> (#[trigger] s[i]).0.wf() && s[i].1.wf()
}

/// Both cubics of every segment pair have small coefficients: sampling is
/// then guaranteed to succeed.
pub open spec fn pairs_small(s: Seq<(Poly, Poly)>) -> bool {
    forall|i: int| 0 <= i < s.len() ==> (#[trigger] s[i]).0.small_coeffs() && s[i].1.small_coeffs()
}

/// The 2D point `pt` is the exact evaluation of the segment pair at the
/// `i`-th of the 100 parameter steps, `t = i / 99`.
pub open spec fn sample_ok(pair: (Poly, Poly), i: int, pt: (Rat, Rat)) -> bool {
    &&& rat_eqv(pt.0.v(), eval_frac(pair.0, (i, 99)))
    &&& rat_eqv(pt.1.v(), eval_frac(pair.1, (i, 99)))
}

/// Samples every segment pair at 100 evenly spaced parameter values,
/// replacing `out` with the concatenated points in segment order. On success
/// the output holds exactly 100 points per segment, each the exact value of
/// the pair at its step. `false` reports an out-of-range intermediate value;
/// an empty input always succeeds with an empty output.
pub fn samples(lines: &Vec<(Poly, Poly)>, out: &mut Vec<(Rat, Rat)>) -> (ok: bool)
    requires
        pairs_wf(lines@),
    ensures
        ok ==> final(out)@.len() == 100 * lines@.len(),
        final(out)@.len() <= 100 * lines@.len(),
        forall|k: int|
            0 <= k < final(out)@.len() ==> sample_ok(
                lines@[k / 100],
                k % 100,
                #[trigger] final(out)@[k],
            ),
        lines@.len() == 0 ==> ok,
        pairs_small(lines@) ==> ok,
    {
    out.clear();
    let mut s: usize = 0;
    while s < lines.len()
        invariant
            pairs_wf(lines@),
            s <= lines@.len(),
            out@.len() == 100 * (s as int),
            forall|k: int|
                0 <= k < out@.len() ==> sample_ok(lines@[k / 100], k % 100, #[trigger] out@[k]),
        decreases lines@.len() - s,
    {
        let mut i: usize = 0;
        while i < 100
            invariant
                pairs_wf(lines@),
                s < lines@.len(),
                i <= 100,
                out@.len() == 100 * (s as int) + i,
                forall|k: int|
                    0 <= k < out@.len() ==> sample_ok(
                        lines@[k / 100],
                        k % 100,
                        #[trigger] out@[k],
                    ),
            decreases 100 - i,
        {
            let t = Rat::new(i as i64, 99);
            let rx = lines[s].0.get(t);
            let ry = lines[s].1.get(t);
            proof {
                if pairs_small(lines@) {
                    assert(lines@[s as int].0.small_coeffs() && lines@[s as int].1.small_coeffs());
                    assert(t.small());
                    assert(rx is Some && ry is Some);
                }
            }
            let px = match rx {
                Some(v) => v,
                None => {
                    return false;
                },
            };
            let py = match ry {
                Some(v) => v,
                None => {
                    return false;
                },
            };
            out.push((px, py));
            proof {
                let k = 100 * (s as int) + i;
                lemma_fundamental_div_mod_converse(k, 100, s as int, i as int);
                assert(sample_ok(lines@[k / 100], k % 100, out@[k]));
            }
            i += 1;
        }
        s += 1;
    }
    true
}

} // verus!
