//! The distance scorer.
//!
//! The dissimilarity of two patterns is `1 - matches / max_len`, where
//! `matches` counts the positions (up to the shorter length) whose elements
//! are exactly equal, and `max_len` is the longer length — so trailing
//! elements of the longer pattern always count against similarity.  The
//! scan stops early once the running distance has fallen strictly below the
//! threshold: the value returned from that exit differs from the full score,
//! but compares to the threshold the same way ([`lemma_distance_le_equiv`]).
//!
//! Two patterns of length zero are an exact match with distance `0`.

use vstd::prelude::*;

use crate::pattern::lemma_vec_deep_view_index;
use crate::pattern::lemma_vec_deep_view_len;
use crate::pattern::ElemView;
use crate::pattern::Pattern;
use crate::ratio::lemma_mul_fits_u128;
use crate::ratio::ratio_le_spec;
use crate::ratio::Ratio;

verus! {

/// The shorter of the two lengths.
pub open spec fn min_len(a: Seq<ElemView>, b: Seq<ElemView>) -> int {
    if a.len() <= b.len() {
        a.len() as int
    } else {
        b.len() as int
    }
}

/// The longer of the two lengths.
pub open spec fn max_len(a: Seq<ElemView>, b: Seq<ElemView>) -> int {
    if a.len() >= b.len() {
        a.len() as int
    } else {
        b.len() as int
    }
}

/// How many of the first `k` positions of `a` and `b` hold equal elements.
pub open spec fn eq_count(a: Seq<ElemView>, b: Seq<ElemView>, k: int) -> int
    decreases k,
{
    if k <= 0 {
        0
    } else {
        eq_count(a, b, k - 1) + if a[k - 1] == b[k - 1] {
            1int
        } else {
            0int
        }
    }
}

/// The full distance between `a` and `b` is within the threshold `d`:
/// `(max_len - matches) / max_len <= d.num / d.den`, by cross-multiplication.
/// Two empty patterns are an exact match.
pub open spec fn dist_le(a: Seq<ElemView>, b: Seq<ElemView>, d: Ratio) -> bool {
    let ml = max_len(a, b);
    if ml == 0 {
        true
    } else {
        (ml - eq_count(a, b, min_len(a, b))) * d.den <= d.num * ml
    }
}

/// Whether the scan exits after position `k`: the running distance has
/// fallen strictly below the threshold.
pub open spec fn exits_at(a: Seq<ElemView>, b: Seq<ElemView>, d: Ratio, k: int) -> bool {
    (max_len(a, b) - eq_count(a, b, k)) * d.den < d.num * max_len(a, b)
}

/// The position after which the scan stops, starting from `k`: the first
/// position whose running distance is strictly below the threshold, or the
/// shorter length if the scan runs to its end.
pub open spec fn stop_index_from(a: Seq<ElemView>, b: Seq<ElemView>, d: Ratio, k: int) -> int
    decreases min_len(a, b) - k,
    when 0 <= k <= min_len(a, b)
{
    if k >= min_len(a, b) {
        min_len(a, b)
    } else if exits_at(a, b, d, k + 1) {
        k + 1
    } else {
        stop_index_from(a, b, d, k + 1)
    }
}

/// The position after which the scan stops.
pub open spec fn stop_index(a: Seq<ElemView>, b: Seq<ElemView>, d: Ratio) -> int {
    stop_index_from(a, b, d, 0)
}

/// The exact value the scorer returns, as a (numerator, denominator) pair
/// over mathematical integers.
pub open spec fn distance_val(a: Seq<ElemView>, b: Seq<ElemView>, d: Ratio) -> (int, int) {
    let ml = max_len(a, b);
    if ml == 0 {
        (0int, 1int)
    } else {
        (ml - eq_count(a, b, stop_index(a, b, d)), ml)
    }
}

/// Matches never exceed the positions compared, and never decrease.
pub proof fn lemma_eq_count_bounds(a: Seq<ElemView>, b: Seq<ElemView>, k: int)
    ensures
        0 <= eq_count(a, b, k) <= if k >= 0 {
            k
        } else {
            0int
        },
    decreases k,
{
    if k > 0 {
        lemma_eq_count_bounds(a, b, k - 1);
    }
}

/// Matches over a longer prefix are at least the matches over a shorter one.
pub proof fn lemma_eq_count_mono(a: Seq<ElemView>, b: Seq<ElemView>, k1: int, k2: int)
    requires
        k1 <= k2,
    ensures
        eq_count(a, b, k1) <= eq_count(a, b, k2),
    decreases k2 - k1,
{
    if k1 < k2 {
        lemma_eq_count_mono(a, b, k1, k2 - 1);
    }
}

proof fn lemma_stop_index_props(a: Seq<ElemView>, b: Seq<ElemView>, d: Ratio, k: int)
    requires
        0 <= k <= min_len(a, b),
    ensures
        k <= stop_index_from(a, b, d, k) <= min_len(a, b),
        stop_index_from(a, b, d, k) < min_len(a, b) ==> exits_at(a, b, d, stop_index_from(a, b, d, k)),
    decreases min_len(a, b) - k,
{
    if k < min_len(a, b) && !exits_at(a, b, d, k + 1) {
        lemma_stop_index_props(a, b, d, k + 1);
    }
}

/// The early-exit value compares to the threshold exactly as the full
/// distance does: callers that only test the returned value against the
/// threshold observe the full score's decision.
pub proof fn lemma_distance_le_equiv(a: Seq<ElemView>, b: Seq<ElemView>, d: Ratio)
    ensures
        ({
            let (vn, vd) = distance_val(a, b, d);
            vn * d.den <= d.num * vd
        }) <==> dist_le(a, b, d),
{
    let ml = max_len(a, b);
    if ml == 0 {
        assert(distance_val(a, b, d) == (0int, 1int));
        assert(0 * d.den == 0) by (nonlinear_arith);
        assert(d.num * 1 == d.num) by (nonlinear_arith);
    } else {
        let s = stop_index_from(a, b, d, 0);
        lemma_stop_index_props(a, b, d, 0);
        lemma_eq_count_mono(a, b, s, min_len(a, b));
        lemma_eq_count_bounds(a, b, min_len(a, b));
        let vn = ml - eq_count(a, b, s);
        assert(distance_val(a, b, d).0 == vn);
        assert(distance_val(a, b, d).1 == ml);
        if vn * d.den <= d.num * ml {
            assert((ml - eq_count(a, b, min_len(a, b))) * d.den <= vn * d.den) by (nonlinear_arith)
                requires
                    ml - eq_count(a, b, min_len(a, b)) <= vn,
                    d.den >= 0,
            ;
            assert(dist_le(a, b, d));
        }
        if dist_le(a, b, d) {
            if s < min_len(a, b) {
                assert(exits_at(a, b, d, s));
                assert(vn * d.den < d.num * ml);
            } else {
                assert(s == min_len(a, b));
                assert(vn * d.den <= d.num * ml);
            }
        }
    }
}

/// The distance between `a` and `b`, compared against `max_dist` with an
/// early exit: the scan stops as soon as the running distance is strictly
/// below the threshold, so the returned value is the running distance at the
/// stopping point ([`distance_val`]), not always the full score — but it
/// compares to `max_dist` exactly as the full score does.
pub fn distance(a: &Pattern, b: &Pattern, max_dist: &Ratio) -> (r: Ratio)
    ensures
        r.num as int == distance_val(a@, b@, *max_dist).0,
        r.den as int == distance_val(a@, b@, *max_dist).1,
        ratio_le_spec(r, *max_dist) <==> dist_le(a@, b@, *max_dist),
{
    proof {
        lemma_distance_le_equiv(a@, b@, *max_dist);
    }
    let va = a.iter();
    let vb = b.iter();
    proof {
        lemma_vec_deep_view_len(*va);
        lemma_vec_deep_view_len(*vb);
    }
    let la = va.len();
    let lb = vb.len();
    let ml: usize = if la >= lb {
        la
    } else {
        lb
    };
    let minl: usize = if la <= lb {
        la
    } else {
        lb
    };
    if ml == 0 {
        return Ratio::new(0, 1);
    }
    let mut eqc: usize = 0;
    let mut k: usize = 0;
    while k < minl
        invariant
            la == a@.len(),
            lb == b@.len(),
            va.deep_view() == a@,
            vb.deep_view() == b@,
            la == va@.len(),
            lb == vb@.len(),
            ml == max_len(a@, b@),
            minl == min_len(a@, b@),
            ml > 0,
            k <= minl,
            eqc <= k,
            eqc as int == eq_count(a@, b@, k as int),
            stop_index(a@, b@, *max_dist) == stop_index_from(a@, b@, *max_dist, k as int),
        decreases minl - k,
    {
        proof {
            lemma_vec_deep_view_index(*va, k as int);
            lemma_vec_deep_view_index(*vb, k as int);
        }
        let matched = va[k] == vb[k];
        let eqc2 = eqc + if matched {
            1
        } else {
            0
        };
        proof {
            assert(eqc2 as int == eq_count(a@, b@, k as int + 1));
            lemma_eq_count_bounds(a@, b@, k as int + 1);
            lemma_mul_fits_u128((ml - eqc2) as int, max_dist.den as int);
            lemma_mul_fits_u128(max_dist.num as int, ml as int);
        }
        let run_part: u128 = ((ml - eqc2) as u128) * (max_dist.den as u128);
        let thr_part: u128 = (max_dist.num as u128) * (ml as u128);
        if run_part < thr_part {
            proof {
                assert(exits_at(a@, b@, *max_dist, k as int + 1));
                assert(stop_index_from(a@, b@, *max_dist, k as int) == k as int + 1);
                assert(distance_val(a@, b@, *max_dist).0 == ml - eqc2);
                lemma_distance_le_equiv(a@, b@, *max_dist);
            }
            return Ratio::new((ml - eqc2) as u64, ml as u64);
        }
        eqc = eqc2;
        proof {
            assert(!exits_at(a@, b@, *max_dist, k as int + 1));
            assert(stop_index_from(a@, b@, *max_dist, k as int) == stop_index_from(
                a@,
                b@,
                *max_dist,
                k as int + 1,
            ));
        }
        k += 1;
    }
    proof {
        assert(stop_index(a@, b@, *max_dist) == minl as int);
        assert(distance_val(a@, b@, *max_dist).0 == ml - eqc);
    }
    Ratio::new((ml - eqc) as u64, ml as u64)
}

proof fn lemma_eq_count_sym(a: Seq<ElemView>, b: Seq<ElemView>, k: int)
    ensures
        eq_count(a, b, k) == eq_count(b, a, k),
    decreases k,
{
    if k > 0 {
        lemma_eq_count_sym(a, b, k - 1);
    }
}

proof fn lemma_stop_index_sym(a: Seq<ElemView>, b: Seq<ElemView>, d: Ratio, k: int)
    requires
        0 <= k <= min_len(a, b),
    ensures
        stop_index_from(a, b, d, k) == stop_index_from(b, a, d, k),
    decreases min_len(a, b) - k,
{
    lemma_eq_count_sym(a, b, k + 1);
    if k < min_len(a, b) && !exits_at(a, b, d, k + 1) {
        lemma_stop_index_sym(a, b, d, k + 1);
    }
}

/// The distance is symmetric in its two patterns, both as the full score and
/// as the exact early-exit value the scorer returns.
pub proof fn lemma_distance_symmetric(a: Seq<ElemView>, b: Seq<ElemView>, d: Ratio)
    ensures
        distance_val(a, b, d) == distance_val(b, a, d),
        dist_le(a, b, d) == dist_le(b, a, d),
{
    lemma_eq_count_sym(a, b, min_len(a, b));
    if max_len(a, b) > 0 {
        lemma_stop_index_sym(a, b, d, 0);
        lemma_eq_count_sym(a, b, stop_index(a, b, d));
    }
}

proof fn lemma_eq_count_self(p: Seq<ElemView>, k: int)
    ensures
        k >= 0 ==> eq_count(p, p, k) == k,
    decreases k,
{
    if k > 0 {
        lemma_eq_count_self(p, k - 1);
    }
}

proof fn lemma_stop_index_self(p: Seq<ElemView>, d: Ratio, k: int)
    requires
        0 <= k <= p.len(),
        d.num * p.len() <= d.den,
    ensures
        stop_index_from(p, p, d, k) == p.len(),
    decreases p.len() - k,
{
    if k < p.len() {
        lemma_eq_count_self(p, k + 1);
        if exits_at(p, p, d, k + 1) {
            assert(k + 1 == p.len()) by {
                if k + 1 < p.len() {
                    assert((p.len() - (k + 1)) * d.den >= 1 * d.den) by (nonlinear_arith)
                        requires
                            p.len() - (k + 1) >= 1,
                            d.den >= 0,
                    ;
                    assert(d.num * (p.len() as int) < 1 * d.den);
                }
            }
        } else {
            lemma_stop_index_self(p, d, k + 1);
        }
    }
}

/// A pattern is always within any threshold of itself; and whenever the
/// threshold is small enough that the scan cannot exit early
/// (`d <= 1 / len`), the returned value is exactly zero.
pub proof fn lemma_distance_self(p: Seq<ElemView>, d: Ratio)
    ensures
        dist_le(p, p, d),
        d.num * p.len() <= d.den ==> distance_val(p, p, d) == (
            0int,
            if p.len() == 0 {
                1int
            } else {
                p.len() as int
            },
        ),
{
    lemma_eq_count_self(p, p.len() as int);
    if p.len() > 0 {
        assert((max_len(p, p) - eq_count(p, p, min_len(p, p))) * d.den == 0 * d.den);
        assert(0 * d.den == 0) by (nonlinear_arith);
        assert(d.num * max_len(p, p) >= 0) by (nonlinear_arith)
            requires
                d.num >= 0,
                max_len(p, p) >= 0,
        ;
        if d.num * p.len() <= d.den {
            lemma_stop_index_self(p, d, 0);
        }
    }
}

} // verus!
