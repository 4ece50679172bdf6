//! The online clusterer.
//!
//! Lines are consumed one at a time.  Each line's pattern is tested, in
//! insertion order, against the immutable *representative* of every existing
//! cluster; the first cluster within the distance threshold absorbs the line
//! (its count grows and its running template merges the new pattern), and if
//! none is within the threshold a new cluster is founded.  Matching is always
//! against the representative — the literal tokens of the founding line —
//! never against the evolving template, which anchors membership to the
//! original exemplar.

use vstd::prelude::*;

use crate::align::lemma_merged_len_min;
use crate::align::lemma_merged_no_adjacent;
use crate::align::merged;
use crate::align::no_adjacent_ph;
use crate::pattern::lemma_vec_deep_view_index;
use crate::pattern::lemma_vec_deep_view_len;
use crate::pattern::lemma_vec_deep_view_push;
use crate::pattern::lemma_vec_deep_view_update;
use crate::pattern::pattern_of_tokens;
use crate::pattern::ElemView;
use crate::pattern::Pattern;
use crate::ratio::Ratio;
use crate::scoring::dist_le;
use crate::scoring::lemma_distance_symmetric;
use crate::tokenize::lemma_tokenize_count;
use crate::tokenize::spec_tokenize;
use crate::tokenize::tokenize;

verus! {

/// The longest token list a single record may hold: far beyond any real log
/// line, while keeping every template length comfortably inside `usize`.
pub const TOKEN_LIMIT: usize = usize::MAX / 8;

#[verifier::external_type_specification]
#[verifier::external_body]
pub struct ExRegex(regex::Regex);

/// Relies on `regex::Regex::split`: yields the substrings of `line` between
/// successive matches of the separator pattern.  The pattern is arbitrary, so
/// nothing is assumed of the returned token list.
#[verifier::external_body]
fn regex_split(re: &regex::Regex, line: &str) -> (r: Vec<String>) {
    re.split(line).map(|piece| piece.to_string()).collect()
}

/// The specification-level model of a cluster.
pub struct ClusterModel {
    /// The literal tokens of the founding record; never changes.
    pub rep: Seq<ElemView>,
    /// How many records the cluster has absorbed.
    pub count: int,
    /// The running template.
    pub pattern: Seq<ElemView>,
}

/// A cluster: the immutable representative of its founding record, the count
/// of records absorbed, and the running template that absorbs each member by
/// merging.
#[derive(Debug)]
pub struct Cluster {
    pub representative: Pattern,
    pub count: u32,
    pub pattern: Pattern,
}

impl View for Cluster {
    type V = ClusterModel;

    open spec fn view(&self) -> ClusterModel {
        ClusterModel {
            rep: self.representative@,
            count: self.count as int,
            pattern: self.pattern@,
        }
    }
}

impl DeepView for Cluster {
    type V = ClusterModel;

    open spec fn deep_view(&self) -> ClusterModel {
        self.view()
    }
}

impl Clone for Cluster {
    fn clone(&self) -> (r: Self)
        ensures
            r@ == self@,
    {
        Cluster {
            representative: self.representative.clone(),
            count: self.count,
            pattern: self.pattern.clone(),
        }
    }
}

impl PartialEq for Cluster {
    fn eq(&self, other: &Self) -> (r: bool) {
        self.representative == other.representative && self.count == other.count && self.pattern
            == other.pattern
    }
}

impl vstd::std_specs::cmp::PartialEqSpecImpl for Cluster {
    open spec fn obeys_eq_spec() -> bool {
        true
    }

    open spec fn eq_spec(&self, other: &Self) -> bool {
        self@ == other@
    }
}

/// Configuration of a clusterer: the inclusive distance threshold for a
/// record to join a cluster, and the minimum member count for a cluster to be
/// reported.
#[derive(Debug, Clone, Copy)]
pub struct ClustererOptions {
    pub max_dist: Ratio,
    pub min_members: u32,
}

impl Default for ClustererOptions {
    /// The engine defaults: threshold `1/100`, and every cluster reported.
    fn default() -> (r: Self)
        ensures
            r.max_dist == (Ratio { num: 1, den: 100 }),
            r.min_members == 1,
    {
        ClustererOptions { max_dist: Ratio::new(1, 100), min_members: 1 }
    }
}

impl ClustererOptions {
    /// Replaces the distance threshold.
    pub fn with_max_dist(self, max_dist: Ratio) -> (r: Self)
        ensures
            r.max_dist == max_dist,
            r.min_members == self.min_members,
    {
        ClustererOptions { max_dist, ..self }
    }

    /// Replaces the minimum member count.
    pub fn with_min_members(self, min_members: u32) -> (r: Self)
        ensures
            r.max_dist == self.max_dist,
            r.min_members == min_members,
    {
        ClustererOptions { min_members, ..self }
    }
}

/// Whether the record pattern `p` belongs to the cluster `c`: within the
/// threshold of the representative.
pub open spec fn cluster_matches(c: ClusterModel, p: Seq<ElemView>, d: Ratio) -> bool {
    dist_le(c.rep, p, d)
}

/// A cluster after absorbing the record `p`: the count grows (saturating),
/// the template merges the record, the representative stays.
pub open spec fn spec_absorb(c: ClusterModel, p: Seq<ElemView>) -> ClusterModel {
    ClusterModel {
        rep: c.rep,
        count: if c.count < u32::MAX {
            c.count + 1
        } else {
            c.count
        },
        pattern: merged(c.pattern, p),
    }
}

/// The cluster founded by the record `p`.
pub open spec fn spec_new_cluster(p: Seq<ElemView>) -> ClusterModel {
    ClusterModel { rep: p, count: 1, pattern: p }
}

/// One processing step: the first cluster within the threshold absorbs the
/// record, and if none is, a new cluster is appended.
pub open spec fn spec_process(cs: Seq<ClusterModel>, p: Seq<ElemView>, d: Ratio) -> Seq<
    ClusterModel,
>
    decreases cs.len(),
{
    if cs.len() == 0 {
        seq![spec_new_cluster(p)]
    } else if cluster_matches(cs[0], p, d) {
        seq![spec_absorb(cs[0], p)] + cs.drop_first()
    } else {
        seq![cs[0]] + spec_process(cs.drop_first(), p, d)
    }
}

/// The clusters whose member count reaches the minimum, in order.
pub open spec fn spec_filter(cs: Seq<ClusterModel>, min_members: u32) -> Seq<ClusterModel> {
    cs.filter(|c: ClusterModel| c.count >= min_members)
}

/// Every cluster's internal bounds: a positive count, a representative no
/// longer than a record may be, a template bounded by the merge, and no two
/// adjacent placeholders in the template.
pub open spec fn tidy_cluster(c: ClusterModel) -> bool {
    &&& c.count >= 1
    &&& c.rep.len() <= TOKEN_LIMIT
    &&& c.pattern.len() <= 2 * (TOKEN_LIMIT as int) + 1
    &&& no_adjacent_ph(c.pattern)
}

pub open spec fn tidy_clusters(cs: Seq<ClusterModel>) -> bool {
    forall|i: int| 0 <= i < cs.len() ==> tidy_cluster(#[trigger] cs[i])
}

/// Representatives of distinct clusters are never within the threshold of
/// one another: a record matching one cluster's representative exactly can
/// match no other cluster first.
pub open spec fn pairwise_far(cs: Seq<ClusterModel>, d: Ratio) -> bool {
    forall|i: int, j: int|
        0 <= i < cs.len() && 0 <= j < cs.len() && i != j ==> !dist_le(
            #[trigger] cs[i].rep,
            #[trigger] cs[j].rep,
            d,
        )
}

/// If the first match stands at position `k`, processing updates exactly that
/// cluster.
pub proof fn lemma_spec_process_match(cs: Seq<ClusterModel>, p: Seq<ElemView>, d: Ratio, k: int)
    requires
        0 <= k < cs.len(),
        cluster_matches(cs[k], p, d),
        forall|j: int| 0 <= j < k ==> !cluster_matches(#[trigger] cs[j], p, d),
    ensures
        spec_process(cs, p, d) == cs.update(k, spec_absorb(cs[k], p)),
    decreases k,
{
    if k == 0 {
        assert(spec_process(cs, p, d) =~= cs.update(0, spec_absorb(cs[0], p)));
    } else {
        assert(forall|j: int|
            0 <= j < k - 1 ==> #[trigger] cs.drop_first()[j] == cs[j + 1]
                && !cluster_matches(cs[j + 1], p, d));
        lemma_spec_process_match(cs.drop_first(), p, d, k - 1);
        assert(spec_process(cs, p, d) =~= cs.update(k, spec_absorb(cs[k], p)));
    }
}

/// If no cluster matches, processing appends a new one.
pub proof fn lemma_spec_process_nomatch(cs: Seq<ClusterModel>, p: Seq<ElemView>, d: Ratio)
    requires
        forall|j: int| 0 <= j < cs.len() ==> !cluster_matches(#[trigger] cs[j], p, d),
    ensures
        spec_process(cs, p, d) == cs.push(spec_new_cluster(p)),
    decreases cs.len(),
{
    if cs.len() == 0 {
        assert(spec_process(cs, p, d) =~= cs.push(spec_new_cluster(p)));
    } else {
        assert(forall|j: int|
            0 <= j < cs.len() - 1 ==> #[trigger] cs.drop_first()[j] == cs[j + 1]
                && !cluster_matches(cs[j + 1], p, d));
        lemma_spec_process_nomatch(cs.drop_first(), p, d);
        assert(spec_process(cs, p, d) =~= cs.push(spec_new_cluster(p)));
    }
}

/// The online clusterer: the evolving cluster list, its configuration, and
/// the separator rule (the default whitespace tokenizer, or a split regex).
pub struct Clusterer {
    clusters: Vec<Cluster>,
    options: ClustererOptions,
    split: Option<regex::Regex>,
}

impl Clusterer {
    /// The model of the current cluster list, in insertion order.
    pub closed spec fn model(&self) -> Seq<ClusterModel> {
        self.clusters.deep_view()
    }

    /// The distance threshold in force.
    pub closed spec fn max_dist_spec(&self) -> Ratio {
        self.options.max_dist
    }

    /// The minimum member count in force.
    pub closed spec fn min_members_spec(&self) -> u32 {
        self.options.min_members
    }

    /// Whether lines are split by the default whitespace tokenizer.
    pub closed spec fn uses_default_split(&self) -> bool {
        self.split is None
    }

    #[verifier::type_invariant]
    spec fn inv(&self) -> bool {
        tidy_clusters(self.model())
    }

    /// A clusterer with the engine defaults and the default whitespace
    /// tokenizer, and no clusters yet.
    pub fn new() -> (r: Self)
        ensures
            r.model() == Seq::<ClusterModel>::empty(),
            r.max_dist_spec() == (Ratio { num: 1, den: 100 }),
            r.min_members_spec() == 1,
            r.uses_default_split(),
    {
        let r = Clusterer {
            clusters: Vec::new(),
            options: ClustererOptions::default(),
            split: None,
        };
        proof {
            assert(r.model() =~= Seq::<ClusterModel>::empty());
        }
        r
    }

    /// Replaces the whole configuration.
    pub fn with_options(self, options: ClustererOptions) -> (r: Self)
        ensures
            r.model() == self.model(),
            r.max_dist_spec() == options.max_dist,
            r.min_members_spec() == options.min_members,
            r.uses_default_split() == self.uses_default_split(),
    {
        proof {
            use_type_invariant(&self);
        }
        Clusterer { options, ..self }
    }

    /// Replaces the distance threshold.
    pub fn with_max_dist(self, max_dist: Ratio) -> (r: Self)
        ensures
            r.model() == self.model(),
            r.max_dist_spec() == max_dist,
            r.min_members_spec() == self.min_members_spec(),
            r.uses_default_split() == self.uses_default_split(),
    {
        proof {
            use_type_invariant(&self);
        }
        let options = self.options.with_max_dist(max_dist);
        Clusterer { options, ..self }
    }

    /// Replaces the minimum member count.
    pub fn with_min_members(self, min_members: u32) -> (r: Self)
        ensures
            r.model() == self.model(),
            r.max_dist_spec() == self.max_dist_spec(),
            r.min_members_spec() == min_members,
            r.uses_default_split() == self.uses_default_split(),
    {
        proof {
            use_type_invariant(&self);
        }
        let options = self.options.with_min_members(min_members);
        Clusterer { options, ..self }
    }

    /// Replaces the default whitespace tokenizer with a split regex.
    pub fn with_split_regex(self, split_regex: regex::Regex) -> (r: Self)
        ensures
            r.model() == self.model(),
            r.max_dist_spec() == self.max_dist_spec(),
            r.min_members_spec() == self.min_members_spec(),
            !r.uses_default_split(),
    {
        proof {
            use_type_invariant(&self);
        }
        Clusterer { split: Some(split_regex), ..self }
    }

    /// Consumes one record, already tokenized: the first cluster whose
    /// representative is within the threshold absorbs it, else it founds a
    /// new cluster.
    pub fn process_tokens(&mut self, tokens: Vec<String>)
        requires
            tokens@.len() <= TOKEN_LIMIT,
        ensures
            final(self).model() == spec_process(
                old(self).model(),
                pattern_of_tokens(tokens.deep_view()),
                old(self).max_dist_spec(),
            ),
            final(self).max_dist_spec() == old(self).max_dist_spec(),
            final(self).min_members_spec() == old(self).min_members_spec(),
            final(self).uses_default_split() == old(self).uses_default_split(),
    {
        proof {
            use_type_invariant(&*self);
            lemma_vec_deep_view_len(tokens);
        }
        let ghost p = pattern_of_tokens(tokens.deep_view());
        let ghost d = self.options.max_dist;
        let record = Pattern::from_tokens(tokens);
        proof {
            assert(p.len() <= TOKEN_LIMIT);
            assert(no_adjacent_ph(p)) by {
                assert(forall|i: int| 0 <= i < p.len() ==> (#[trigger] p[i]) is Some);
            }
        }
        let mut cl: Vec<Cluster> = Vec::new();
        core::mem::swap(&mut self.clusters, &mut cl);
        proof {
            assert(self.model() =~= Seq::<ClusterModel>::empty());
            assert(tidy_clusters(self.model()));
        }
        let ghost old_model = cl.deep_view();
        match Self::find_match(&cl, &record, &self.options.max_dist) {
            Some(k) => {
                let mut taken = Cluster {
                    representative: Pattern::default(),
                    count: 1,
                    pattern: Pattern::default(),
                };
                let ghost before_swap = cl;
                core::mem::swap(&mut cl[k], &mut taken);
                proof {
                    lemma_vec_deep_view_index(before_swap, k as int);
                    assert(taken@ == old_model[k as int]);
                    assert(tidy_cluster(old_model[k as int]));
                }
                let new_count = if taken.count < u32::MAX {
                    taken.count + 1
                } else {
                    taken.count
                };
                proof {
                    lemma_merged_len_min(taken.pattern@, p);
                    lemma_merged_no_adjacent(taken.pattern@, p);
                }
                let merged_pattern = taken.pattern.merge(record);
                let updated = Cluster {
                    representative: taken.representative,
                    count: new_count,
                    pattern: merged_pattern,
                };
                let ghost updc = updated;
                proof {
                    assert(updc@ == spec_absorb(old_model[k as int], p));
                }
                let mut put = updated;
                core::mem::swap(&mut cl[k], &mut put);
                proof {
                    assert(cl@ =~= before_swap@.update(k as int, updc));
                    lemma_vec_deep_view_update(before_swap, cl, k as int, updc);
                    lemma_spec_process_match(old_model, p, d, k as int);
                    assert(cl.deep_view() == spec_process(old_model, p, d));
                    assert(tidy_clusters(cl.deep_view())) by {
                        assert(forall|i: int|
                            0 <= i < cl.deep_view().len() && i != k as int
                                ==> #[trigger] cl.deep_view()[i] == old_model[i]);
                        assert(tidy_cluster(updc@));
                    }
                }
            },
            None => {
                let rep = record.clone();
                let ghost before_push = cl;
                cl.push(Cluster { representative: rep, count: 1, pattern: record });
                proof {
                    lemma_vec_deep_view_push(before_push, cl, cl@.last());
                    assert(cl@.last()@ == spec_new_cluster(p));
                    assert(cl.deep_view() == old_model.push(spec_new_cluster(p)));
                    lemma_spec_process_nomatch(old_model, p, d);
                    assert(tidy_clusters(cl.deep_view())) by {
                        assert(forall|i: int|
                            0 <= i < old_model.len() ==> cl.deep_view()[i] == old_model[i]);
                        assert(tidy_cluster(spec_new_cluster(p)));
                    }
                }
            },
        }
        core::mem::swap(&mut self.clusters, &mut cl);
    }

    fn find_match(clusters: &Vec<Cluster>, record: &Pattern, d: &Ratio) -> (r: Option<usize>)
        ensures
            match r {
                Some(k) => 0 <= k < clusters@.len() && cluster_matches(
                    clusters.deep_view()[k as int],
                    record@,
                    *d,
                ) && forall|j: int|
                    0 <= j < k ==> !cluster_matches(#[trigger] clusters.deep_view()[j], record@, *d),
                None => forall|j: int|
                    0 <= j < clusters@.len() ==> !cluster_matches(
                        #[trigger] clusters.deep_view()[j],
                        record@,
                        *d,
                    ),
            },
    {
        let n = clusters.len();
        let mut i: usize = 0;
        while i < n
            invariant
                i <= n,
                n == clusters@.len(),
                forall|j: int|
                    0 <= j < i ==> !cluster_matches(#[trigger] clusters.deep_view()[j], record@, *d),
            decreases n - i,
        {
            let score = crate::scoring::distance(&clusters[i].representative, record, d);
            proof {
                lemma_vec_deep_view_index(*clusters, i as int);
            }
            if score.le(d) {
                return Some(i);
            }
            i += 1;
        }
        None
    }

    /// Consumes one raw line: tokenizes it with the separator rule in force,
    /// then processes the tokens.
    pub fn process_line(&mut self, line: &str)
        requires
            line@.len() <= TOKEN_LIMIT,
        ensures
            old(self).uses_default_split() ==> final(self).model() == spec_process(
                old(self).model(),
                pattern_of_tokens(spec_tokenize(line@)),
                old(self).max_dist_spec(),
            ),
            exists|ts: Seq<Seq<char>>|
                final(self).model() == spec_process(
                    old(self).model(),
                    #[trigger] pattern_of_tokens(ts),
                    old(self).max_dist_spec(),
                ),
            final(self).max_dist_spec() == old(self).max_dist_spec(),
            final(self).min_members_spec() == old(self).min_members_spec(),
            final(self).uses_default_split() == old(self).uses_default_split(),
    {
        let tokens: Vec<String> = match &self.split {
            Option::None => {
                proof {
                    lemma_tokenize_count(line@);
                }
                tokenize(line)
            },
            Option::Some(re) => {
                let mut raw = regex_split(re, line);
                if raw.len() > TOKEN_LIMIT {
                    // Unreachable for any line that fits in memory; keeps the
                    // record within the bound the engine supports.
                    raw.truncate(TOKEN_LIMIT);
                }
                raw
            },
        };
        let ghost ts = tokens.deep_view();
        proof {
            lemma_vec_deep_view_len(tokens);
        }
        self.process_tokens(tokens);
        proof {
            assert(self.model() == spec_process(
                old(self).model(),
                pattern_of_tokens(ts),
                old(self).max_dist_spec(),
            ));
        }
    }

    /// The clusters whose member count reaches the configured minimum, in
    /// insertion order, consuming the clusterer.
    pub fn result(self) -> (r: Vec<Cluster>)
        ensures
            r.deep_view() == spec_filter(self.model(), self.min_members_spec()),
            tidy_clusters(r.deep_view()),
    {
        let mut this = self;
        this.take_result()
    }

    /// As [`Self::result`], but drains the clusterer in place, leaving it
    /// empty.
    pub fn take_result(&mut self) -> (r: Vec<Cluster>)
        ensures
            r.deep_view() == spec_filter(old(self).model(), old(self).min_members_spec()),
            tidy_clusters(r.deep_view()),
            final(self).model() == Seq::<ClusterModel>::empty(),
            final(self).max_dist_spec() == old(self).max_dist_spec(),
            final(self).min_members_spec() == old(self).min_members_spec(),
            final(self).uses_default_split() == old(self).uses_default_split(),
    {
        proof {
            use_type_invariant(&*self);
        }
        let mut cl: Vec<Cluster> = Vec::new();
        core::mem::swap(&mut self.clusters, &mut cl);
        proof {
            assert(self.model() =~= Seq::<ClusterModel>::empty());
        }
        Self::filter_clusters(cl, self.options.min_members)
    }

    fn filter_clusters(clusters: Vec<Cluster>, min_members: u32) -> (r: Vec<Cluster>)
        requires
            tidy_clusters(clusters.deep_view()),
        ensures
            r.deep_view() == spec_filter(clusters.deep_view(), min_members),
            tidy_clusters(r.deep_view()),
    {
        let ghost cs = clusters.deep_view();
        let n = clusters.len();
        proof {
            lemma_vec_deep_view_len(clusters);
        }
        let mut out: Vec<Cluster> = Vec::new();
        proof {
            reveal(Seq::filter);
            assert(out.deep_view() =~= Seq::<ClusterModel>::empty());
            assert(cs.take(0) =~= Seq::<ClusterModel>::empty());
            assert(spec_filter(cs.take(0), min_members) == Seq::<ClusterModel>::empty());
        }
        let mut i: usize = 0;
        while i < n
            invariant
                i <= n,
                n == clusters@.len(),
                cs == clusters.deep_view(),
                tidy_clusters(cs),
                out.deep_view() == spec_filter(cs.take(i as int), min_members),
                tidy_clusters(out.deep_view()),
            decreases n - i,
        {
            proof {
                reveal(Seq::filter);
                lemma_vec_deep_view_index(clusters, i as int);
                assert(cs.take(i as int + 1).drop_last() =~= cs.take(i as int));
                assert(cs.take(i as int + 1).last() == cs[i as int]);
            }
            let ghost prev_dv = out.deep_view();
            if clusters[i].count >= min_members {
                let ghost before = out;
                out.push(clusters[i].clone());
                proof {
                    reveal(Seq::filter);
                    lemma_vec_deep_view_push(before, out, out@.last());
                    assert(out.deep_view() == prev_dv.push(cs[i as int]));
                    assert(spec_filter(cs.take(i as int + 1), min_members) == spec_filter(
                        cs.take(i as int),
                        min_members,
                    ).push(cs[i as int]));
                    assert(tidy_clusters(out.deep_view())) by {
                        assert(forall|j: int|
                            0 <= j < prev_dv.len() ==> #[trigger] out.deep_view()[j] == prev_dv[j]);
                        assert(tidy_cluster(cs[i as int]));
                    }
                }
            } else {
                proof {
                    reveal(Seq::filter);
                    assert(spec_filter(cs.take(i as int + 1), min_members) == spec_filter(
                        cs.take(i as int),
                        min_members,
                    ));
                }
            }
            i += 1;
        }
        proof {
            assert(cs.take(n as int) =~= cs);
        }
        out
    }
}

/// Filtering with a minimum of one keeps every cluster: each has at least
/// its founding record.
pub proof fn lemma_filter_min_one(cs: Seq<ClusterModel>)
    requires
        forall|i: int| 0 <= i < cs.len() ==> (#[trigger] cs[i]).count >= 1,
    ensures
        spec_filter(cs, 1) == cs,
    decreases cs.len(),
{
    reveal(Seq::filter);
    if cs.len() > 0 {
        assert(forall|i: int|
            0 <= i < cs.len() - 1 ==> (#[trigger] cs.drop_last()[i]).count >= 1);
        lemma_filter_min_one(cs.drop_last());
        assert(spec_filter(cs, 1) =~= cs);
    } else {
        assert(spec_filter(cs, 1) =~= cs);
    }
}

/// Processing a record keeps every existing representative, and appends the
/// record itself as a representative only when it matched none of them.
pub proof fn lemma_spec_process_shape(cs: Seq<ClusterModel>, p: Seq<ElemView>, d: Ratio)
    ensures
        ({
            let r = spec_process(cs, p, d);
            &&& (r.len() == cs.len() || r.len() == cs.len() + 1)
            &&& forall|i: int| 0 <= i < cs.len() ==> (#[trigger] r[i]).rep == cs[i].rep
            &&& (r.len() == cs.len() + 1 ==> r[cs.len() as int].rep == p && forall|j: int|
                0 <= j < cs.len() ==> !cluster_matches(#[trigger] cs[j], p, d))
        }),
    decreases cs.len(),
{
    let r = spec_process(cs, p, d);
    if cs.len() == 0 {
        assert(r[0].rep == p);
    } else if cluster_matches(cs[0], p, d) {
        assert(r[0].rep == cs[0].rep);
        assert(forall|i: int| 0 < i < r.len() ==> #[trigger] r[i] == cs.drop_first()[i - 1]);
        assert(forall|i: int| 0 < i < cs.len() ==> #[trigger] cs.drop_first()[i - 1] == cs[i]);
    } else {
        lemma_spec_process_shape(cs.drop_first(), p, d);
        let rr = spec_process(cs.drop_first(), p, d);
        assert(r[0] == cs[0]);
        assert(forall|i: int| 0 < i < r.len() ==> #[trigger] r[i] == rr[i - 1]);
        assert(forall|j: int|
            0 <= j < cs.len() - 1 ==> #[trigger] cs.drop_first()[j] == cs[j + 1]);
        assert(forall|i: int| 0 < i < cs.len() ==> (#[trigger] r[i]).rep == cs[i].rep);
        if r.len() == cs.len() + 1 {
            assert(rr.len() == cs.drop_first().len() + 1);
            assert(r[cs.len() as int] == rr[cs.len() - 1]);
            assert forall|j: int| 0 <= j < cs.len() implies !cluster_matches(
                cs[j],
                p,
                d,
            ) by {
                if j > 0 {
                    assert(cs.drop_first()[j - 1] == cs[j]);
                    assert(!cluster_matches(cs.drop_first()[j - 1], p, d));
                }
            }
        }
    }
}

/// Processing keeps distinct representatives farther apart than the
/// threshold: a new representative is admitted only when it matched no
/// existing one.
pub proof fn lemma_spec_process_far(cs: Seq<ClusterModel>, p: Seq<ElemView>, d: Ratio)
    requires
        pairwise_far(cs, d),
    ensures
        pairwise_far(spec_process(cs, p, d), d),
{
    let r = spec_process(cs, p, d);
    lemma_spec_process_shape(cs, p, d);
    assert forall|i: int, j: int|
        0 <= i < r.len() && 0 <= j < r.len() && i != j implies !dist_le(r[i].rep, r[j].rep, d) by {
        if i < cs.len() && j < cs.len() {
        } else if j == cs.len() && r.len() == cs.len() + 1 {
            assert(!cluster_matches(cs[i], p, d));
            assert(!dist_le(cs[i].rep, p, d));
        } else {
            assert(i == cs.len() && r.len() == cs.len() + 1);
            assert(!cluster_matches(cs[j], p, d));
            lemma_distance_symmetric(p, cs[j].rep, d);
        }
    }
}

/// The cluster list a single clusterer holds after consuming the given
/// records in order, starting from no clusters.
pub open spec fn spec_run(records: Seq<Seq<ElemView>>, d: Ratio) -> Seq<ClusterModel>
    decreases records.len(),
{
    if records.len() == 0 {
        Seq::empty()
    } else {
        spec_process(spec_run(records.drop_last(), d), records.last(), d)
    }
}

/// Every run keeps distinct representatives farther apart than the
/// threshold, whatever the records were.
pub proof fn lemma_spec_run_far(records: Seq<Seq<ElemView>>, d: Ratio)
    ensures
        pairwise_far(spec_run(records, d), d),
    decreases records.len(),
{
    if records.len() == 0 {
    } else {
        lemma_spec_run_far(records.drop_last(), d);
        lemma_spec_process_far(spec_run(records.drop_last(), d), records.last(), d);
    }
}

/// Every filtered cluster stands somewhere in the unfiltered list.
pub proof fn lemma_spec_filter_elements(cs: Seq<ClusterModel>, m: u32)
    ensures
        forall|i: int|
            0 <= i < spec_filter(cs, m).len() ==> exists|j: int|
                0 <= j < cs.len() && #[trigger] spec_filter(cs, m)[i] == cs[j],
    decreases cs.len(),
{
    reveal(Seq::filter);
    if cs.len() > 0 {
        lemma_spec_filter_elements(cs.drop_last(), m);
        let f = spec_filter(cs, m);
        let fd = spec_filter(cs.drop_last(), m);
        assert forall|i: int| 0 <= i < f.len() implies exists|j: int|
            0 <= j < cs.len() && #[trigger] f[i] == cs[j] by {
            if i < fd.len() {
                assert(f[i] == fd[i]);
                let j = choose|j: int| 0 <= j < cs.len() - 1 && fd[i] == cs.drop_last()[j];
                assert(cs.drop_last()[j] == cs[j]);
                assert(f[i] == cs[j]);
            } else {
                assert(f[i] == cs.last());
                assert(f[i] == cs[cs.len() - 1]);
            }
        }
    }
}

/// Filtering keeps distinct representatives farther apart than the
/// threshold.
pub proof fn lemma_spec_filter_far(cs: Seq<ClusterModel>, m: u32, d: Ratio)
    requires
        pairwise_far(cs, d),
    ensures
        pairwise_far(spec_filter(cs, m), d),
    decreases cs.len(),
{
    reveal(Seq::filter);
    if cs.len() > 0 {
        assert(pairwise_far(cs.drop_last(), d)) by {
            assert(forall|i: int|
                0 <= i < cs.len() - 1 ==> #[trigger] cs.drop_last()[i] == cs[i]);
        }
        lemma_spec_filter_far(cs.drop_last(), m, d);
        lemma_spec_filter_elements(cs.drop_last(), m);
        let f = spec_filter(cs, m);
        let fd = spec_filter(cs.drop_last(), m);
        assert forall|i: int, j: int|
            0 <= i < f.len() && 0 <= j < f.len() && i != j implies !dist_le(
            f[i].rep,
            f[j].rep,
            d,
        ) by {
            if i < fd.len() && j < fd.len() {
                assert(f[i] == fd[i] && f[j] == fd[j]);
            } else if j == fd.len() && f.len() == fd.len() + 1 {
                assert(f[i] == fd[i]);
                let jj = choose|jj: int| 0 <= jj < cs.len() - 1 && fd[i] == cs.drop_last()[jj];
                assert(cs.drop_last()[jj] == cs[jj]);
                assert(f[j] == cs.last());
                assert(!dist_le(cs[jj].rep, cs[cs.len() - 1].rep, d));
            } else {
                assert(i == fd.len() && f.len() == fd.len() + 1);
                assert(f[j] == fd[j]);
                let jj = choose|jj: int| 0 <= jj < cs.len() - 1 && fd[j] == cs.drop_last()[jj];
                assert(cs.drop_last()[jj] == cs[jj]);
                assert(f[i] == cs.last());
                assert(!dist_le(cs[cs.len() - 1].rep, cs[jj].rep, d));
            }
        }
    }
}

/// Raising the minimum only removes clusters: filtering at the higher
/// minimum gives the same list whether or not the lower filter ran first, so
/// survivors keep their order, counts and templates.
pub proof fn lemma_filter_monotone(cs: Seq<ClusterModel>, m1: u32, m2: u32)
    requires
        m1 <= m2,
    ensures
        spec_filter(cs, m2) == spec_filter(spec_filter(cs, m1), m2),
    decreases cs.len(),
{
    reveal(Seq::filter);
    if cs.len() == 0 {
        assert(spec_filter(cs, m2) =~= spec_filter(spec_filter(cs, m1), m2));
    } else {
        lemma_filter_monotone(cs.drop_last(), m1, m2);
        let lower = |c: ClusterModel| c.count >= m1;
        let higher = |c: ClusterModel| c.count >= m2;
        let last = cs.last();
        if lower(last) {
            assert(cs.filter(lower) == cs.drop_last().filter(lower).push(last));
            assert(cs.filter(lower).drop_last() =~= cs.drop_last().filter(lower));
            if higher(last) {
                assert(spec_filter(cs, m2) == spec_filter(spec_filter(cs, m1), m2));
            } else {
                assert(spec_filter(cs, m2) == spec_filter(spec_filter(cs, m1), m2));
            }
        } else {
            assert(cs.filter(lower) == cs.drop_last().filter(lower));
            assert(!higher(last));
            assert(spec_filter(cs, m2) == spec_filter(spec_filter(cs, m1), m2));
        }
    }
}

} // verus!
