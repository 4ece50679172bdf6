//! Cross-worker reduction.
//!
//! Each worker runs its own clusterer over the lines it pulled; the
//! coordinator folds the per-worker cluster lists into one final list with
//! the same first-match rule as online clustering, except that matching
//! compares the representatives of two already-aggregated clusters, counts
//! are summed, and the templates are merged — exactly as if the incoming
//! cluster's members had been fed one by one into the matched cluster.

use vstd::prelude::*;

use crate::align::lemma_merged_len_min;
use crate::align::lemma_merged_no_adjacent;
use crate::align::merged;
use crate::align::no_adjacent_ph;
use crate::clusterer::lemma_spec_filter_far;
use crate::clusterer::lemma_spec_run_far;
use crate::clusterer::spec_filter;
use crate::clusterer::spec_run;
use crate::clusterer::tidy_cluster;
use crate::clusterer::tidy_clusters;
use crate::clusterer::pairwise_far;
use crate::clusterer::Cluster;
use crate::clusterer::ClusterModel;
use crate::clusterer::ClustererOptions;
use crate::clusterer::TOKEN_LIMIT;
use crate::pattern::lemma_vec_deep_view_index;
use crate::pattern::ElemView;
use crate::pattern::lemma_vec_deep_view_len;
use crate::pattern::lemma_vec_deep_view_push;
use crate::pattern::lemma_vec_deep_view_update;
use crate::ratio::Ratio;
use crate::scoring::dist_le;

verus! {

/// The cluster of the running total after absorbing an incoming cluster:
/// counts are summed (saturating), the incoming template is merged into the
/// total's, and the total's representative stays canonical.
pub open spec fn spec_combine(total_c: ClusterModel, c: ClusterModel) -> ClusterModel {
    ClusterModel {
        rep: total_c.rep,
        count: if total_c.count + c.count <= u32::MAX {
            total_c.count + c.count
        } else {
            u32::MAX as int
        },
        pattern: merged(c.pattern, total_c.pattern),
    }
}

/// One incoming cluster folded into the running total: the first cluster of
/// the total whose representative is within the threshold of the incoming
/// representative absorbs it, and if none is, it is appended.
pub open spec fn spec_absorb_one(total: Seq<ClusterModel>, c: ClusterModel, d: Ratio) -> Seq<
    ClusterModel,
>
    decreases total.len(),
{
    if total.len() == 0 {
        seq![c]
    } else if dist_le(c.rep, total[0].rep, d) {
        seq![spec_combine(total[0], c)] + total.drop_first()
    } else {
        seq![total[0]] + spec_absorb_one(total.drop_first(), c, d)
    }
}

/// A whole worker result folded into the running total, cluster by cluster,
/// in order.
pub open spec fn spec_reduce(
    total: Seq<ClusterModel>,
    incoming: Seq<ClusterModel>,
    d: Ratio,
) -> Seq<ClusterModel>
    decreases incoming.len(),
{
    if incoming.len() == 0 {
        total
    } else {
        spec_reduce(spec_absorb_one(total, incoming[0], d), incoming.drop_first(), d)
    }
}

/// The bounds of a cluster in the reduced total: as a worker's cluster, with
/// a template bounded by one further merge.
pub open spec fn reduced_cluster(c: ClusterModel) -> bool {
    &&& c.count >= 1
    &&& c.rep.len() <= TOKEN_LIMIT
    &&& c.pattern.len() <= 4 * (TOKEN_LIMIT as int) + 3
    &&& no_adjacent_ph(c.pattern)
}

pub open spec fn reduced_clusters(cs: Seq<ClusterModel>) -> bool {
    forall|i: int| 0 <= i < cs.len() ==> reduced_cluster(#[trigger] cs[i])
}

/// If the first match in the total stands at position `k`, absorbing updates
/// exactly that cluster.
pub proof fn lemma_absorb_one_match(total: Seq<ClusterModel>, c: ClusterModel, d: Ratio, k: int)
    requires
        0 <= k < total.len(),
        dist_le(c.rep, total[k].rep, d),
        forall|j: int| 0 <= j < k ==> !dist_le(c.rep, (#[trigger] total[j]).rep, d),
    ensures
        spec_absorb_one(total, c, d) == total.update(k, spec_combine(total[k], c)),
    decreases k,
{
    if k == 0 {
        assert(spec_absorb_one(total, c, d) =~= total.update(0, spec_combine(total[0], c)));
    } else {
        assert(forall|j: int|
            0 <= j < k - 1 ==> #[trigger] total.drop_first()[j] == total[j + 1] && !dist_le(
                c.rep,
                total[j + 1].rep,
                d,
            ));
        lemma_absorb_one_match(total.drop_first(), c, d, k - 1);
        assert(spec_absorb_one(total, c, d) =~= total.update(k, spec_combine(total[k], c)));
    }
}

/// If nothing in the total matches, absorbing appends the incoming cluster.
pub proof fn lemma_absorb_one_nomatch(total: Seq<ClusterModel>, c: ClusterModel, d: Ratio)
    requires
        forall|j: int| 0 <= j < total.len() ==> !dist_le(c.rep, (#[trigger] total[j]).rep, d),
    ensures
        spec_absorb_one(total, c, d) == total.push(c),
    decreases total.len(),
{
    if total.len() == 0 {
        assert(spec_absorb_one(total, c, d) =~= total.push(c));
    } else {
        assert(forall|j: int|
            0 <= j < total.len() - 1 ==> #[trigger] total.drop_first()[j] == total[j + 1]
                && !dist_le(c.rep, total[j + 1].rep, d));
        lemma_absorb_one_nomatch(total.drop_first(), c, d);
        assert(spec_absorb_one(total, c, d) =~= total.push(c));
    }
}

#[verifier::loop_isolation(false)]
fn absorb_one(total: &mut Vec<Cluster>, c: Cluster, d: &Ratio)
    requires
        reduced_clusters(old(total).deep_view()),
        tidy_cluster(c@),
    ensures
        final(total).deep_view() == spec_absorb_one(old(total).deep_view(), c@, *d),
        reduced_clusters(final(total).deep_view()),
{
    let ghost old_model = total.deep_view();
    let ghost cm = c@;
    let n = total.len();
    proof {
        lemma_vec_deep_view_len(*total);
    }
    let mut k: usize = 0;
    while k < n
        invariant
            k <= n,
            n == total@.len(),
            total.deep_view() == old_model,
            reduced_clusters(old_model),
            tidy_cluster(cm),
            c@ == cm,
            forall|j: int| 0 <= j < k ==> !dist_le(cm.rep, (#[trigger] old_model[j]).rep, *d),
        decreases n - k,
    {
        let score = crate::scoring::distance(&c.representative, &total[k].representative, d);
        proof {
            lemma_vec_deep_view_index(*total, k as int);
        }
        if score.le(d) {
            let mut taken = Cluster {
                representative: crate::pattern::Pattern::default(),
                count: 1,
                pattern: crate::pattern::Pattern::default(),
            };
            let ghost before_swap = *total;
            core::mem::swap(&mut total[k], &mut taken);
            proof {
                lemma_vec_deep_view_index(before_swap, k as int);
                assert(taken@ == old_model[k as int]);
                assert(reduced_cluster(old_model[k as int]));
            }
            let summed = if taken.count <= u32::MAX - c.count {
                taken.count + c.count
            } else {
                u32::MAX
            };
            proof {
                lemma_merged_len_min(c.pattern@, taken.pattern@);
                lemma_merged_no_adjacent(c.pattern@, taken.pattern@);
            }
            let merged_pattern = c.pattern.merge(taken.pattern);
            let updated = Cluster {
                representative: taken.representative,
                count: summed,
                pattern: merged_pattern,
            };
            let ghost updc = updated;
            proof {
                assert(updc@ == spec_combine(old_model[k as int], cm));
            }
            let mut put = updated;
            core::mem::swap(&mut total[k], &mut put);
            proof {
                assert(total@ =~= before_swap@.update(k as int, updc));
                lemma_vec_deep_view_update(before_swap, *total, k as int, updc);
                lemma_absorb_one_match(old_model, cm, *d, k as int);
                assert(total.deep_view() == spec_absorb_one(old_model, cm, *d));
                assert(reduced_clusters(total.deep_view())) by {
                    assert(forall|i: int|
                        0 <= i < total.deep_view().len() && i != k as int
                            ==> #[trigger] total.deep_view()[i] == old_model[i]);
                    assert(reduced_cluster(updc@));
                }
            }
            return ;
        }
        k += 1;
    }
    let ghost before_push = *total;
    total.push(c);
    proof {
        lemma_vec_deep_view_push(before_push, *total, total@.last());
        assert(total.deep_view() == old_model.push(cm));
        lemma_absorb_one_nomatch(old_model, cm, *d);
        assert(reduced_clusters(total.deep_view())) by {
            assert(forall|i: int|
                0 <= i < old_model.len() ==> #[trigger] total.deep_view()[i] == old_model[i]);
            assert(reduced_cluster(cm));
        }
    }
}

/// Folds one worker's filtered cluster list into the running total, with the
/// first-match rule over representatives; on a match the counts are summed
/// and the incoming template is merged into the total's.
#[verifier::loop_isolation(false)]
pub fn merge(total: &mut Vec<Cluster>, thread_results: Vec<Cluster>, options: ClustererOptions)
    requires
        reduced_clusters(old(total).deep_view()),
        tidy_clusters(thread_results.deep_view()),
    ensures
        final(total).deep_view() == spec_reduce(
            old(total).deep_view(),
            thread_results.deep_view(),
            options.max_dist,
        ),
        reduced_clusters(final(total).deep_view()),
{
    let ghost incoming = thread_results.deep_view();
    let ghost d = options.max_dist;
    let n = thread_results.len();
    proof {
        lemma_vec_deep_view_len(thread_results);
        assert(incoming.skip(0) =~= incoming);
    }
    let mut i: usize = 0;
    while i < n
        invariant
            i <= n,
            n == thread_results@.len(),
            incoming == thread_results.deep_view(),
            tidy_clusters(incoming),
            reduced_clusters(total.deep_view()),
            spec_reduce(old(total).deep_view(), incoming, d) == spec_reduce(
                total.deep_view(),
                incoming.skip(i as int),
                d,
            ),
        decreases n - i,
    {
        proof {
            lemma_vec_deep_view_index(thread_results, i as int);
        }
        let c = thread_results[i].clone();
        let ghost before = total.deep_view();
        absorb_one(total, c, &options.max_dist);
        proof {
            assert(incoming.skip(i as int)[0] == incoming[i as int]);
            assert(incoming.skip(i as int).drop_first() =~= incoming.skip(i as int + 1));
            assert(spec_reduce(before, incoming.skip(i as int), d) == spec_reduce(
                spec_absorb_one(before, incoming[i as int], d),
                incoming.skip(i as int + 1),
                d,
            ));
        }
        i += 1;
    }
    proof {
        assert(incoming.skip(n as int) =~= Seq::<ClusterModel>::empty());
    }
}

/// Reducing a single worker's cluster list into an empty total returns the
/// list unchanged: with one worker, the parallel fold reports exactly what
/// the worker's own clusterer reported.  The hypothesis holds of every
/// clusterer's output: a new cluster is founded only when its record is
/// farther than the threshold from every existing representative.
pub proof fn lemma_reduce_single(l: Seq<ClusterModel>, d: Ratio)
    requires
        pairwise_far(l, d),
    ensures
        spec_reduce(Seq::<ClusterModel>::empty(), l, d) == l,
{
    assert(Seq::<ClusterModel>::empty() =~= l.take(0));
    assert(l.skip(0) =~= l);
    lemma_reduce_prefix(l, d, 0);
}

/// With a single worker, the parallel mode reports exactly what the worker's
/// own clusterer reports: reducing the filtered result of any one run into
/// an empty total leaves it unchanged, whatever the records and the minimum
/// member count were.
pub proof fn lemma_single_worker_reduce(records: Seq<Seq<ElemView>>, d: Ratio, min_members: u32)
    ensures
        spec_reduce(
            Seq::<ClusterModel>::empty(),
            spec_filter(spec_run(records, d), min_members),
            d,
        ) == spec_filter(spec_run(records, d), min_members),
{
    lemma_spec_run_far(records, d);
    lemma_spec_filter_far(spec_run(records, d), min_members, d);
    lemma_reduce_single(spec_filter(spec_run(records, d), min_members), d);
}

proof fn lemma_reduce_prefix(l: Seq<ClusterModel>, d: Ratio, i: int)
    requires
        pairwise_far(l, d),
        0 <= i <= l.len(),
    ensures
        spec_reduce(l.take(i), l.skip(i), d) == l,
    decreases l.len() - i,
{
    if i == l.len() {
        assert(l.skip(i).len() == 0);
        assert(l.take(i) =~= l);
    } else {
        assert(l.skip(i)[0] == l[i]);
        assert(forall|j: int| 0 <= j < i ==> #[trigger] l.take(i)[j] == l[j]);
        assert(forall|j: int| 0 <= j < i ==> !dist_le(l[i].rep, (#[trigger] l.take(i)[j]).rep, d));
        lemma_absorb_one_nomatch(l.take(i), l[i], d);
        assert(l.take(i).push(l[i]) =~= l.take(i + 1));
        assert(l.skip(i).drop_first() =~= l.skip(i + 1));
        lemma_reduce_prefix(l, d, i + 1);
        assert(spec_reduce(l.take(i), l.skip(i), d) == spec_reduce(
            l.take(i + 1),
            l.skip(i + 1),
            d,
        ));
    }
}

} // verus!
