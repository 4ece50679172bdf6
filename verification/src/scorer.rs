//! A scorer over raw token lists.
//!
//! [`Scorer`] compares two lists of string fields with the same distance as
//! [`crate::scoring::distance`] computes over patterns: each field is one
//! literal element.

use vstd::prelude::*;

use crate::pattern::pattern_of_tokens;
use crate::pattern::Pattern;
use crate::ratio::ratio_le_spec;
use crate::ratio::Ratio;
use crate::scoring::dist_le;
use crate::scoring::distance_val;

verus! {

/// Scores the dissimilarity of two token lists.
#[derive(Debug, Clone, Copy)]
pub struct Scorer {}

fn clone_tokens(v: &Vec<String>) -> (r: Vec<String>)
    ensures
        r@ == v@,
{
    let n = v.len();
    let mut out: Vec<String> = Vec::new();
    let mut i: usize = 0;
    while i < n
        invariant
            i <= n,
            n == v@.len(),
            out@ =~= v@.take(i as int),
        decreases n - i,
    {
        out.push(v[i].clone());
        proof {
            assert(out@ =~= v@.take(i + 1));
        }
        i += 1;
    }
    proof {
        assert(out@ =~= v@);
    }
    out
}

impl Scorer {
    /// A new scorer.
    pub fn new() -> (r: Self) {
        Scorer {  }
    }

    /// The distance between two lists of fields, with the scorer's early
    /// exit against `max_dist`; equal fields count as matches.
    pub fn distance(&self, fields1: &Vec<String>, fields2: &Vec<String>, max_dist: &Ratio) -> (r:
        Ratio)
        ensures
            ({
                let a = pattern_of_tokens(fields1.deep_view());
                let b = pattern_of_tokens(fields2.deep_view());
                &&& r.num as int == distance_val(a, b, *max_dist).0
                &&& r.den as int == distance_val(a, b, *max_dist).1
                &&& (ratio_le_spec(r, *max_dist) <==> dist_le(a, b, *max_dist))
            }),
    {
        let t1 = clone_tokens(fields1);
        let t2 = clone_tokens(fields2);
        proof {
            assert(t1.deep_view() =~= fields1.deep_view());
            assert(t2.deep_view() =~= fields2.deep_view());
        }
        let a = Pattern::from_tokens(t1);
        let b = Pattern::from_tokens(t2);
        crate::scoring::distance(&a, &b, max_dist)
    }
}

} // verus!
