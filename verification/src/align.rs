//! Pattern merging by global sequence alignment.
//!
//! Two patterns are aligned so that as many equal elements as possible are
//! paired (gaps are free, unequal pairings are never taken), then the merged
//! template emits each aligned element literally and collapses every maximal
//! run of unaligned positions into a single placeholder.
//!
//! The merged result is specified exactly by [`merged`]: the alignment is the
//! standard longest-common-subsequence recurrence ([`lcs_len`]), the emission
//! in alignment order is [`raw_merge`], and the collapsing of adjacent
//! placeholders is [`collapse`].

use vstd::prelude::*;

use crate::pattern::lemma_vec_deep_view_index;
use crate::pattern::lemma_vec_deep_view_len;
use crate::pattern::lemma_vec_deep_view_push;
use crate::pattern::ElemView;
use crate::pattern::Pattern;
use crate::pattern::PatternElement;

verus! {

/// True of the placeholder's view.
pub open spec fn is_ph(e: ElemView) -> bool {
    e is None
}

/// Length of a longest common subsequence of `a` and `b`.
pub open spec fn lcs_len(a: Seq<ElemView>, b: Seq<ElemView>) -> int
    decreases a.len() + b.len(),
{
    if a.len() == 0 || b.len() == 0 {
        0
    } else if a.last() == b.last() {
        lcs_len(a.drop_last(), b.drop_last()) + 1
    } else {
        let x = lcs_len(a.drop_last(), b);
        let y = lcs_len(a, b.drop_last());
        if x >= y {
            x
        } else {
            y
        }
    }
}

/// The merge emission in alignment order, before collapsing: aligned equal
/// elements are emitted literally, every unaligned position emits one
/// placeholder.  The alignment pairs the last elements whenever they are
/// equal, and otherwise leaves unpaired whichever side keeps the
/// longest-common-subsequence length.
pub open spec fn raw_merge(a: Seq<ElemView>, b: Seq<ElemView>) -> Seq<ElemView>
    decreases a.len() + b.len(),
{
    if a.len() == 0 && b.len() == 0 {
        Seq::empty()
    } else if a.len() > 0 && b.len() > 0 && a.last() == b.last() {
        raw_merge(a.drop_last(), b.drop_last()).push(a.last())
    } else if a.len() > 0 && (b.len() == 0 || lcs_len(a, b) == lcs_len(a.drop_last(), b)) {
        raw_merge(a.drop_last(), b).push(None)
    } else {
        raw_merge(a, b.drop_last()).push(None)
    }
}

/// Collapses every run of adjacent placeholders to its first one.
pub open spec fn collapse(s: Seq<ElemView>) -> Seq<ElemView>
    decreases s.len(),
{
    if s.len() == 0 {
        Seq::empty()
    } else if s.len() >= 2 && is_ph(s.last()) && is_ph(s[s.len() - 2]) {
        collapse(s.drop_last())
    } else {
        collapse(s.drop_last()).push(s.last())
    }
}

/// The merged template of `a` and `b`.
pub open spec fn merged(a: Seq<ElemView>, b: Seq<ElemView>) -> Seq<ElemView> {
    collapse(raw_merge(a, b))
}

/// No two adjacent elements are both placeholders.
pub open spec fn no_adjacent_ph(s: Seq<ElemView>) -> bool {
    forall|i: int| 0 < i < s.len() ==> !(is_ph(#[trigger] s[i]) && is_ph(s[i - 1]))
}

/// The number of non-placeholder elements.
pub open spec fn count_nonph(s: Seq<ElemView>) -> int
    decreases s.len(),
{
    if s.len() == 0 {
        0
    } else {
        count_nonph(s.drop_last()) + if is_ph(s.last()) {
            0int
        } else {
            1int
        }
    }
}

/// A common subsequence is never longer than either sequence.
pub proof fn lemma_lcs_le_min(a: Seq<ElemView>, b: Seq<ElemView>)
    ensures
        lcs_len(a, b) >= 0,
        lcs_len(a, b) <= a.len(),
        lcs_len(a, b) <= b.len(),
    decreases a.len() + b.len(),
{
    if a.len() == 0 || b.len() == 0 {
    } else if a.last() == b.last() {
        lemma_lcs_le_min(a.drop_last(), b.drop_last());
    } else {
        lemma_lcs_le_min(a.drop_last(), b);
        lemma_lcs_le_min(a, b.drop_last());
    }
}

/// Unfolds `lcs_len` on prefixes: the standard dynamic-programming step.
pub proof fn lemma_lcs_take_step(a: Seq<ElemView>, b: Seq<ElemView>, i: int, j: int)
    requires
        1 <= i <= a.len(),
        1 <= j <= b.len(),
    ensures
        a[i - 1] == b[j - 1] ==> lcs_len(a.take(i), b.take(j)) == lcs_len(
            a.take(i - 1),
            b.take(j - 1),
        ) + 1,
        a[i - 1] != b[j - 1] ==> lcs_len(a.take(i), b.take(j)) == {
            let x = lcs_len(a.take(i - 1), b.take(j));
            let y = lcs_len(a.take(i), b.take(j - 1));
            if x >= y {
                x
            } else {
                y
            }
        },
{
    assert(a.take(i).last() == a[i - 1]);
    assert(b.take(j).last() == b[j - 1]);
    assert(a.take(i).drop_last() =~= a.take(i - 1));
    assert(b.take(j).drop_last() =~= b.take(j - 1));
}

/// The raw merge is no longer than both inputs together.
pub proof fn lemma_raw_merge_len(a: Seq<ElemView>, b: Seq<ElemView>)
    ensures
        raw_merge(a, b).len() <= a.len() + b.len(),
    decreases a.len() + b.len(),
{
    if a.len() == 0 && b.len() == 0 {
    } else if a.len() > 0 && b.len() > 0 && a.last() == b.last() {
        lemma_raw_merge_len(a.drop_last(), b.drop_last());
    } else if a.len() > 0 && (b.len() == 0 || lcs_len(a, b) == lcs_len(a.drop_last(), b)) {
        lemma_raw_merge_len(a.drop_last(), b);
    } else {
        lemma_raw_merge_len(a, b.drop_last());
    }
}

/// Collapsing never lengthens a sequence.
pub proof fn lemma_collapse_len(s: Seq<ElemView>)
    ensures
        collapse(s).len() <= s.len(),
    decreases s.len(),
{
    if s.len() == 0 {
    } else {
        lemma_collapse_len(s.drop_last());
    }
}

/// The raw merge pairs each non-placeholder emission with one element of each
/// input, so it has at most `min(|a|, |b|)` of them.
pub proof fn lemma_raw_merge_nonph(a: Seq<ElemView>, b: Seq<ElemView>)
    ensures
        count_nonph(raw_merge(a, b)) >= 0,
        count_nonph(raw_merge(a, b)) <= a.len(),
        count_nonph(raw_merge(a, b)) <= b.len(),
    decreases a.len() + b.len(),
{
    if a.len() == 0 && b.len() == 0 {
    } else if a.len() > 0 && b.len() > 0 && a.last() == b.last() {
        lemma_raw_merge_nonph(a.drop_last(), b.drop_last());
        assert(raw_merge(a, b).drop_last() =~= raw_merge(a.drop_last(), b.drop_last()));
    } else if a.len() > 0 && (b.len() == 0 || lcs_len(a, b) == lcs_len(a.drop_last(), b)) {
        lemma_raw_merge_nonph(a.drop_last(), b);
        assert(raw_merge(a, b).drop_last() =~= raw_merge(a.drop_last(), b));
    } else {
        lemma_raw_merge_nonph(a, b.drop_last());
        assert(raw_merge(a, b).drop_last() =~= raw_merge(a, b.drop_last()));
    }
}

/// After collapsing, placeholders never outnumber the other elements by more
/// than the alternation allows.
pub proof fn lemma_collapse_nonph_len(s: Seq<ElemView>)
    ensures
        collapse(s).len() <= 2 * count_nonph(s) + if s.len() > 0 && is_ph(s.last()) {
            1int
        } else {
            0int
        },
    decreases s.len(),
{
    if s.len() == 0 {
    } else {
        lemma_collapse_nonph_len(s.drop_last());
    }
}

/// Collapsing keeps a sequence that already has no adjacent placeholders.
pub proof fn lemma_collapse_id(s: Seq<ElemView>)
    requires
        no_adjacent_ph(s),
    ensures
        collapse(s) == s,
    decreases s.len(),
{
    if s.len() == 0 {
        assert(collapse(s) =~= s);
    } else {
        assert(no_adjacent_ph(s.drop_last())) by {
            assert(forall|i: int|
                0 < i < s.len() - 1 ==> #[trigger] s.drop_last()[i] == s[i] && s.drop_last()[i - 1]
                    == s[i - 1]);
        }
        lemma_collapse_id(s.drop_last());
        assert(collapse(s) =~= s);
    }
}

/// The collapsed sequence has no adjacent placeholders.
pub proof fn lemma_collapse_no_adjacent(s: Seq<ElemView>)
    ensures
        no_adjacent_ph(collapse(s)),
        collapse(s).len() > 0 ==> s.len() > 0 && (is_ph(collapse(s).last()) <==> is_ph(s.last())),
        s.len() > 0 ==> collapse(s).len() > 0,
    decreases s.len(),
{
    if s.len() == 0 {
    } else {
        lemma_collapse_no_adjacent(s.drop_last());
    }
}

/// Aligning a pattern with itself pairs every position, so the raw merge
/// returns the pattern unchanged.
pub proof fn lemma_raw_merge_self(p: Seq<ElemView>)
    ensures
        raw_merge(p, p) == p,
    decreases p.len(),
{
    if p.len() == 0 {
        assert(raw_merge(p, p) =~= p);
    } else {
        lemma_raw_merge_self(p.drop_last());
        assert(raw_merge(p, p) =~= p);
    }
}

/// Merging a pattern with itself returns it unchanged, provided it has no
/// adjacent placeholders (as every pattern this library produces has).
pub proof fn lemma_merge_self(p: Seq<ElemView>)
    requires
        no_adjacent_ph(p),
    ensures
        merged(p, p) == p,
{
    lemma_raw_merge_self(p);
    lemma_collapse_id(p);
}

/// The merged template is never longer than both inputs together.
pub proof fn lemma_merged_len(a: Seq<ElemView>, b: Seq<ElemView>)
    ensures
        merged(a, b).len() <= a.len() + b.len(),
{
    lemma_raw_merge_len(a, b);
    lemma_collapse_len(raw_merge(a, b));
}

/// The merged template never has two adjacent placeholders.
pub proof fn lemma_merged_no_adjacent(a: Seq<ElemView>, b: Seq<ElemView>)
    ensures
        no_adjacent_ph(merged(a, b)),
{
    lemma_collapse_no_adjacent(raw_merge(a, b));
}

/// The merged template is short: literal positions come one per aligned pair,
/// and placeholders never run together.
pub proof fn lemma_merged_len_min(a: Seq<ElemView>, b: Seq<ElemView>)
    ensures
        merged(a, b).len() <= 2 * a.len() + 1,
        merged(a, b).len() <= 2 * b.len() + 1,
{
    lemma_raw_merge_nonph(a, b);
    lemma_collapse_nonph_len(raw_merge(a, b));
}

proof fn lemma_reverse_push(s: Seq<ElemView>, x: ElemView)
    ensures
        s.push(x).reverse() == seq![x] + s.reverse(),
{
    assert(s.push(x).reverse() =~= seq![x] + s.reverse());
}

fn is_placeholder(e: &PatternElement) -> (r: bool)
    ensures
        r == is_ph(e@),
{
    match e {
        PatternElement::Placeholder => true,
        PatternElement::Text(_) => false,
    }
}

impl Pattern {
    /// Merges `self` with `other` into a template: aligned equal elements are
    /// kept literally, and each maximal run of unaligned positions becomes a
    /// single placeholder.
    pub fn merge(self, other: Pattern) -> (r: Pattern)
        requires
            self@.len() < usize::MAX,
            other@.len() < usize::MAX,
        ensures
            r@ == merged(self@, other@),
    {
        let ghost av = self@;
        let ghost bv = other@;
        let a = self.into_iter();
        let b = other.into_iter();
        proof {
            lemma_vec_deep_view_len(a);
            lemma_vec_deep_view_len(b);
        }
        let n = a.len();
        let m = b.len();
        if n == 0 && m == 0 {
            proof {
                assert(merged(av, bv) =~= Seq::<ElemView>::empty());
            }
            let empty: Vec<PatternElement> = Vec::new();
            proof {
                assert(empty.deep_view() =~= Seq::<ElemView>::empty());
            }
            return Pattern::new(empty);
        }
        // Alignment scores of every prefix pair, by the
        // longest-common-subsequence recurrence.
        let mut h: Vec<Vec<usize>> = Vec::new();
        let mut i: usize = 0;
        while i <= n
            invariant
                n == av.len(),
                m == bv.len(),
                n < usize::MAX,
                m < usize::MAX,
                a.deep_view() == av,
                b.deep_view() == bv,
                n == a@.len(),
                m == b@.len(),
                i <= n + 1,
                h@.len() == i,
                forall|ii: int| 0 <= ii < i ==> (#[trigger] h@[ii])@.len() == m + 1,
                forall|ii: int, jj: int|
                    0 <= ii < i && 0 <= jj <= m ==> #[trigger] h@[ii]@[jj] == lcs_len(
                        av.take(ii),
                        bv.take(jj),
                    ),
            decreases n + 1 - i,
        {
            let mut row: Vec<usize> = Vec::new();
            row.push(0);
            let mut j: usize = 1;
            while j <= m
                invariant
                    n == av.len(),
                    m == bv.len(),
                    n < usize::MAX,
                    m < usize::MAX,
                    a.deep_view() == av,
                    b.deep_view() == bv,
                    n == a@.len(),
                    m == b@.len(),
                    i <= n,
                    h@.len() == i,
                    forall|ii: int| 0 <= ii < i ==> (#[trigger] h@[ii])@.len() == m + 1,
                    forall|ii: int, jj: int|
                        0 <= ii < i && 0 <= jj <= m ==> #[trigger] h@[ii]@[jj] == lcs_len(
                            av.take(ii),
                            bv.take(jj),
                        ),
                    1 <= j <= m + 1,
                    row@.len() == j,
                    forall|jj: int|
                        0 <= jj < j ==> #[trigger] row@[jj] == lcs_len(
                            av.take(i as int),
                            bv.take(jj),
                        ),
                decreases m + 1 - j,
            {
                let v: usize;
                if i == 0 {
                    v = 0;
                } else {
                    proof {
                        lemma_vec_deep_view_index(a, i - 1);
                        lemma_vec_deep_view_index(b, j - 1);
                        lemma_lcs_take_step(av, bv, i as int, j as int);
                        lemma_lcs_le_min(av.take(i - 1), bv.take(j - 1));
                    }
                    if a[i - 1] == b[j - 1] {
                        v = h[i - 1][j - 1] + 1;
                    } else {
                        let x = h[i - 1][j];
                        let y = row[j - 1];
                        v = if x >= y {
                            x
                        } else {
                            y
                        };
                    }
                }
                row.push(v);
                j += 1;
            }
            h.push(row);
            i += 1;
        }
        // Trace the alignment back from the full lengths, collecting the
        // emitted elements in reverse order.
        let mut rev: Vec<PatternElement> = Vec::new();
        let mut ti: usize = n;
        let mut tj: usize = m;
        proof {
            assert(av.take(n as int) =~= av);
            assert(bv.take(m as int) =~= bv);
            assert(rev.deep_view() =~= Seq::<ElemView>::empty());
            assert(rev.deep_view().reverse() =~= Seq::<ElemView>::empty());
            assert(raw_merge(av, bv) =~= raw_merge(av.take(ti as int), bv.take(tj as int))
                + rev.deep_view().reverse());
        }
        while ti > 0 || tj > 0
            invariant
                n == av.len(),
                m == bv.len(),
                a.deep_view() == av,
                b.deep_view() == bv,
                n == a@.len(),
                m == b@.len(),
                ti <= n,
                tj <= m,
                h@.len() == n + 1,
                forall|ii: int| 0 <= ii <= n ==> (#[trigger] h@[ii])@.len() == m + 1,
                forall|ii: int, jj: int|
                    0 <= ii <= n && 0 <= jj <= m ==> #[trigger] h@[ii]@[jj] == lcs_len(
                        av.take(ii),
                        bv.take(jj),
                    ),
                raw_merge(av, bv) == raw_merge(av.take(ti as int), bv.take(tj as int))
                    + rev.deep_view().reverse(),
            decreases ti + tj,
        {
            let ghost ta = av.take(ti as int);
            let ghost tb = bv.take(tj as int);
            let ghost pre = raw_merge(ta, tb);
            let ghost rv = rev.deep_view();
            proof {
                if ti > 0 {
                    assert(ta.last() == av[ti - 1]);
                    assert(ta.drop_last() =~= av.take(ti - 1));
                }
                if tj > 0 {
                    assert(tb.last() == bv[tj - 1]);
                    assert(tb.drop_last() =~= bv.take(tj - 1));
                }
            }
            let ghost x: ElemView;
            if ti > 0 && tj > 0 && a[ti - 1] == b[tj - 1] {
                proof {
                    lemma_vec_deep_view_index(a, ti - 1);
                    lemma_vec_deep_view_index(b, tj - 1);
                    x = av[ti - 1];
                    assert(pre == raw_merge(av.take(ti - 1), bv.take(tj - 1)).push(x));
                }
                let ghost prev_rev = rev;
                rev.push(a[ti - 1].clone());
                proof {
                    lemma_vec_deep_view_push(prev_rev, rev, rev@.last());
                    assert(rev.deep_view() == rv.push(x));
                }
                ti -= 1;
                tj -= 1;
            } else if ti > 0 && (tj == 0 || h[ti][tj] == h[ti - 1][tj]) {
                proof {
                    if ti > 0 && tj > 0 {
                        lemma_vec_deep_view_index(a, ti - 1);
                        lemma_vec_deep_view_index(b, tj - 1);
                    }
                    x = None;
                    if tj > 0 {
                        assert(lcs_len(ta, tb) == lcs_len(av.take(ti - 1), tb));
                    }
                    assert(pre == raw_merge(av.take(ti - 1), tb).push(x));
                }
                let ghost prev_rev = rev;
                rev.push(PatternElement::Placeholder);
                proof {
                    lemma_vec_deep_view_push(prev_rev, rev, rev@.last());
                    assert(rev.deep_view() == rv.push(x));
                }
                ti -= 1;
            } else {
                proof {
                    if ti > 0 && tj > 0 {
                        lemma_vec_deep_view_index(a, ti - 1);
                        lemma_vec_deep_view_index(b, tj - 1);
                    }
                    x = None;
                    assert(tj > 0);
                    if ti > 0 {
                        assert(lcs_len(ta, tb) != lcs_len(av.take(ti - 1), tb));
                    }
                    assert(pre == raw_merge(ta, bv.take(tj - 1)).push(x));
                }
                let ghost prev_rev = rev;
                rev.push(PatternElement::Placeholder);
                proof {
                    lemma_vec_deep_view_push(prev_rev, rev, rev@.last());
                    assert(rev.deep_view() == rv.push(x));
                }
                tj -= 1;
            }
            proof {
                lemma_reverse_push(rv, x);
                assert(raw_merge(av, bv) == raw_merge(av.take(ti as int), bv.take(tj as int))
                    + rev.deep_view().reverse()) by {
                    assert(pre + rv.reverse() == raw_merge(av.take(ti as int), bv.take(tj as int))
                        + (rv.push(x)).reverse()) by {
                        assert(raw_merge(av.take(ti as int), bv.take(tj as int)).push(x)
                            + rv.reverse() =~= raw_merge(av.take(ti as int), bv.take(tj as int)) + (
                        seq![x] + rv.reverse()));
                    }
                }
            }
        }
        let ghost raw = raw_merge(av, bv);
        proof {
            assert(av.take(0) =~= Seq::<ElemView>::empty());
            assert(bv.take(0) =~= Seq::<ElemView>::empty());
            assert(raw_merge(av.take(0), bv.take(0)) =~= Seq::<ElemView>::empty());
            assert(raw == rev.deep_view().reverse()) by {
                assert(raw_merge(av.take(0), bv.take(0)) + rev.deep_view().reverse()
                    =~= rev.deep_view().reverse());
            }
            lemma_vec_deep_view_len(rev);
        }
        // Emit in order, collapsing each run of placeholders to one.
        let nr = rev.len();
        let mut out: Vec<PatternElement> = Vec::new();
        proof {
            assert(out.deep_view() =~= Seq::<ElemView>::empty());
            assert(raw.take(0) =~= Seq::<ElemView>::empty());
            assert(collapse(raw.take(0)) =~= Seq::<ElemView>::empty());
        }
        let mut k: usize = 0;
        while k < nr
            invariant
                k <= nr,
                nr == rev@.len(),
                raw == rev.deep_view().reverse(),
                raw.len() == nr,
                raw == raw_merge(av, bv),
                out.deep_view() == collapse(raw.take(k as int)),
                k > 0 ==> out@.len() > 0 && (is_ph(out.deep_view().last()) <==> is_ph(
                    raw[k - 1],
                )),
            decreases nr - k,
        {
            let el = &rev[nr - 1 - k];
            proof {
                lemma_vec_deep_view_index(rev, nr - 1 - k);
                lemma_vec_deep_view_len(rev);
                assert(raw[k as int] == rev.deep_view()[nr - 1 - k]);
                lemma_vec_deep_view_len(out);
                if out@.len() > 0 {
                    lemma_vec_deep_view_index(out, out@.len() - 1);
                }
            }
            let skip = out.len() > 0 && is_placeholder(el) && is_placeholder(
                &out[out.len() - 1],
            );
            let ghost prev_out = out;
            if !skip {
                out.push(el.clone());
            }
            proof {
                let tk = raw.take(k as int);
                let tk1 = raw.take(k as int + 1);
                assert(tk1.last() == raw[k as int]);
                assert(tk1.drop_last() =~= tk);
                if k > 0 {
                    assert(tk1[k as int - 1] == raw[k as int - 1]);
                }
                if !skip {
                    lemma_vec_deep_view_push(prev_out, out, out@.last());
                    assert(out.deep_view() == collapse(tk).push(raw[k as int]));
                    assert(collapse(tk1) == collapse(tk).push(tk1.last()));
                } else {
                    assert(collapse(tk1) == collapse(tk));
                }
                lemma_vec_deep_view_len(out);
                if out@.len() > 0 {
                    lemma_vec_deep_view_index(out, out@.len() - 1);
                }
            }
            k += 1;
        }
        proof {
            assert(raw.take(nr as int) =~= raw);
            assert(out.deep_view() == merged(av, bv));
        }
        Pattern::new(out)
    }
}

} // verus!
