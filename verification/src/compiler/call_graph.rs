//! The program's named functions, organized as a call graph.

use vstd::prelude::*;

use crate::compiler::location::FunctionIndexInRootContext;

verus! {

/// # A cluster of functions
///
/// During compilation, all named functions are grouped into clusters. A
/// cluster consists of a single function, or of a group of mutually recursive
/// functions.
#[derive(Clone, Debug, PartialEq, Eq)]
pub struct Cluster {
    /// # The functions in the cluster, by their index in the root context
    ///
    /// The function at position `i` has the index `i` within the cluster.
    pub functions: Vec<FunctionIndexInRootContext>,
}

/// The functions of the clusters, from the last cluster to the first, each
/// paired with its cluster
pub open spec fn from_leaves(clusters: Seq<Cluster>) -> Seq<(FunctionIndexInRootContext, Cluster)>
    decreases clusters.len(),
{
    if clusters.len() == 0 {
        Seq::empty()
    } else {
        let last = clusters.last();
        last.functions@.map_values(|f: FunctionIndexInRootContext| (f, last)) + from_leaves(
            clusters.drop_last(),
        )
    }
}

/// The index of the cluster that the function at a position of
/// [`from_leaves`] comes from
pub open spec fn leaves_cluster_index(clusters: Seq<Cluster>, position: int) -> int
    decreases clusters.len(),
{
    if clusters.len() == 0 {
        0
    } else {
        let n = clusters.last().functions@.len() as int;
        if position < n {
            clusters.len() - 1
        } else {
            leaves_cluster_index(clusters.drop_last(), position - n)
        }
    }
}

/// Whether the function at a position of [`from_leaves`] is paired with the
/// cluster of the index that [`leaves_cluster_index`] gives, and is one of
/// its functions
pub open spec fn placed(clusters: Seq<Cluster>, position: int) -> bool {
    let c = leaves_cluster_index(clusters, position);
    &&& 0 <= c < clusters.len()
    &&& from_leaves(clusters)[position].1 == clusters[c]
    &&& clusters[c].functions@.contains(from_leaves(clusters)[position].0)
}

/// Each function of [`from_leaves`] is one of the cluster it is paired
/// with, and the clusters come from the last to the first
proof fn lemma_from_leaves_positions(clusters: Seq<Cluster>)
    ensures
        forall|p: int| 0 <= p < from_leaves(clusters).len() ==> #[trigger] placed(clusters, p),
        forall|p: int, q: int|
            0 <= p <= q < from_leaves(clusters).len() ==> #[trigger] leaves_cluster_index(clusters, p)
                >= #[trigger] leaves_cluster_index(clusters, q),
    decreases clusters.len(),
{
    if clusters.len() > 0 {
        let rest = clusters.drop_last();
        let last = clusters.last();
        let n = last.functions@.len() as int;
        lemma_from_leaves_positions(rest);
        let own = last.functions@.map_values(|f: FunctionIndexInRootContext| (f, last));
        assert(from_leaves(clusters) == own + from_leaves(rest));
        assert forall|p: int| 0 <= p < from_leaves(clusters).len() implies #[trigger] placed(clusters, p) by {
            if p < n {
                assert(from_leaves(clusters)[p] == own[p]);
                assert(last.functions@[p] == own[p].0);
            } else {
                assert(from_leaves(clusters)[p] == from_leaves(rest)[p - n]);
                let c = leaves_cluster_index(rest, p - n);
                assert(leaves_cluster_index(clusters, p) == c);
                assert(placed(rest, p - n));
                assert(rest[c] == clusters[c]);
            }
        }
        assert forall|p: int, q: int|
            0 <= p <= q < from_leaves(clusters).len() implies #[trigger] leaves_cluster_index(clusters, p)
            >= #[trigger] leaves_cluster_index(clusters, q) by {
            if q >= n {
                assert(placed(rest, q - n));
                assert(leaves_cluster_index(rest, q - n) < rest.len());
                if p >= n {
                    assert(leaves_cluster_index(rest, p - n) >= leaves_cluster_index(rest, q - n));
                }
            }
        }
    } else {
        assert(from_leaves(clusters) =~= Seq::<(FunctionIndexInRootContext, Cluster)>::empty());
    }
}

/// Whether clusters are ordered such that a cluster only calls clusters that
/// come after it: calls are pairs of caller and callee
pub open spec fn clusters_ordered(
    clusters: Seq<Cluster>,
    calls: Seq<(FunctionIndexInRootContext, FunctionIndexInRootContext)>,
) -> bool {
    forall|e: int, i: int, j: int|
        #![trigger calls[e], clusters[i], clusters[j]]
        0 <= e < calls.len() && 0 <= i < clusters.len() && 0 <= j < clusters.len()
            && clusters[i].functions@.contains(calls[e].0) && clusters[j].functions@.contains(
            calls[e].1,
        ) ==> i <= j
}

/// Where clusters are ordered such that a cluster only calls clusters that
/// come after it, the functions from the leaves up only call functions, other
/// than those of their own cluster, that came before
pub proof fn law_from_leaves_callees_come_first(
    clusters: Seq<Cluster>,
    calls: Seq<(FunctionIndexInRootContext, FunctionIndexInRootContext)>,
)
    requires
        clusters_ordered(clusters, calls),
    ensures
        forall|e: int, p: int, q: int|
            0 <= e < calls.len() && 0 <= p < from_leaves(clusters).len() && 0 <= q < from_leaves(
                clusters,
            ).len() && #[trigger] from_leaves(clusters)[p].0 == (#[trigger] calls[e]).0 && #[trigger] from_leaves(
                clusters,
            )[q].0 == calls[e].1 && !cluster_contains(from_leaves(clusters)[p].1, calls[e].1) ==> q < p,
{
    lemma_from_leaves_positions(clusters);
    assert forall|e: int, p: int, q: int|
        0 <= e < calls.len() && 0 <= p < from_leaves(clusters).len() && 0 <= q < from_leaves(
            clusters,
        ).len() && #[trigger] from_leaves(clusters)[p].0 == (#[trigger] calls[e]).0 && #[trigger] from_leaves(
            clusters,
        )[q].0 == calls[e].1 && !cluster_contains(from_leaves(clusters)[p].1, calls[e].1) implies q < p by {
        assert(placed(clusters, p));
        assert(placed(clusters, q));
        let cp = leaves_cluster_index(clusters, p);
        let cq = leaves_cluster_index(clusters, q);
        assert(from_leaves(clusters)[p].1 == clusters[cp]);
        assert(from_leaves(clusters)[q].1 == clusters[cq]);
        assert(cp <= cq);
        assert(cp != cq);
        if p <= q {
            assert(leaves_cluster_index(clusters, p) >= leaves_cluster_index(clusters, q));
        }
    }
}

/// Whether a cluster contains a function
pub open spec fn cluster_contains(cluster: Cluster, index: FunctionIndexInRootContext) -> bool {
    cluster.functions@.contains(index)
}

/// # The program's named functions, organized as a call graph
#[derive(Clone, Debug)]
pub struct CallGraph {
    clusters: Vec<Cluster>,
}

impl CallGraph {
    /// The clusters, ordered such that a cluster only calls clusters that come
    /// after it
    pub closed spec fn cluster_list(&self) -> Seq<Cluster> {
        self.clusters@
    }

    /// # A call graph made of the given clusters
    pub fn new(clusters: Vec<Cluster>) -> (result: Self)
        ensures
            result.cluster_list() == clusters@,
    {
        CallGraph { clusters }
    }

    /// # All named functions, from the leaves up
    ///
    /// A function that comes out only calls functions, other than those of
    /// its own cluster, that came out before.
    pub fn functions_from_leaves(&self) -> (result: Vec<(FunctionIndexInRootContext, &Cluster)>)
        ensures
            result@.len() == from_leaves(self.cluster_list()).len(),
            forall|i: int|
                0 <= i < result@.len() ==> result@[i].0 == from_leaves(self.cluster_list())[i].0
                    && *result@[i].1 == from_leaves(self.cluster_list())[i].1,
    {
        let ghost all = from_leaves(self.clusters@);
        let mut result: Vec<(FunctionIndexInRootContext, &Cluster)> = Vec::new();
        let mut n: usize = self.clusters.len();
        assert(self.clusters@.take(n as int) =~= self.clusters@);
        while n > 0
            invariant
                n <= self.clusters@.len(),
                all == from_leaves(self.clusters@),
                result@.len() + from_leaves(self.clusters@.take(n as int)).len() == all.len(),
                forall|i: int|
                    0 <= i < result@.len() ==> result@[i].0 == all[i].0 && *result@[i].1 == all[i].1,
                forall|i: int|
                    0 <= i < from_leaves(self.clusters@.take(n as int)).len() ==> all[result@.len() + i]
                        == from_leaves(self.clusters@.take(n as int))[i],
            decreases n,
        {
            let cluster = &self.clusters[n - 1];
            let ghost rest = from_leaves(self.clusters@.take(n - 1));
            let ghost entries = cluster.functions@.map_values(
                |f: FunctionIndexInRootContext| (f, *cluster),
            );
            proof {
                let taken = self.clusters@.take(n as int);
                assert(taken.drop_last() =~= self.clusters@.take(n - 1));
                assert(taken.last() == *cluster);
                assert(from_leaves(taken) == entries + rest);
            }
            let ghost start = result@.len();
            proof {
                let taken = self.clusters@.take(n as int);
                assert forall|i: int| 0 <= i < entries.len() implies all[start + i] == entries[i] by {
                    assert(from_leaves(taken)[i] == (entries + rest)[i]);
                }
                assert forall|i: int| 0 <= i < rest.len() implies all[start + entries.len() + i]
                    == rest[i] by {
                    assert(from_leaves(taken)[entries.len() + i] == (entries + rest)[entries.len() + i]);
                }
            }
            let mut j: usize = 0;
            while j < cluster.functions.len()
                invariant
                    j <= cluster.functions@.len(),
                    entries == cluster.functions@.map_values(
                        |f: FunctionIndexInRootContext| (f, *cluster),
                    ),
                    result@.len() == start + j,
                    start + entries.len() + rest.len() == all.len(),
                    forall|i: int|
                        0 <= i < result@.len() ==> result@[i].0 == all[i].0 && *result@[i].1
                            == all[i].1,
                    forall|i: int| 0 <= i < entries.len() ==> all[start + i] == entries[i],
                    forall|i: int| 0 <= i < rest.len() ==> all[start + entries.len() + i] == rest[i],
                decreases cluster.functions@.len() - j,
            {
                assert(all[start + j] == entries[j as int]);
                result.push((cluster.functions[j], cluster));
                j = j + 1;
            }
            n = n - 1;
        }
        result
    }

    /// # Find the cluster that contains the given function
    ///
    /// The index must refer to a named function of some cluster.
    pub fn find_cluster_by_named_function(&self, index: &FunctionIndexInRootContext) -> (result: Option<&Cluster>)
        requires
            exists|i: int|
                0 <= i < self.cluster_list().len() && cluster_contains(
                    #[trigger] self.cluster_list()[i],
                    *index,
                ),
        ensures
            result is Some,
            match result {
                Some(cluster) => exists|i: int|
                    0 <= i < self.cluster_list().len() && *cluster == self.cluster_list()[i]
                        && cluster_contains(*cluster, *index) && forall|j: int|
                        0 <= j < i ==> !cluster_contains(self.cluster_list()[j], *index),
                None => forall|i: int|
                    0 <= i < self.cluster_list().len() ==> !cluster_contains(
                        #[trigger] self.cluster_list()[i],
                        *index,
                    ),
            },
    {
        let mut i: usize = 0;
        while i < self.clusters.len()
            invariant
                i <= self.clusters@.len(),
                forall|j: int| 0 <= j < i ==> !cluster_contains(#[trigger] self.clusters@[j], *index),
            decreases self.clusters@.len() - i,
        {
            let cluster = &self.clusters[i];
            let mut k: usize = 0;
            while k < cluster.functions.len()
                invariant
                    i < self.clusters@.len(),
                    *cluster == self.clusters@[i as int],
                    forall|j: int| 0 <= j < i ==> !cluster_contains(#[trigger] self.clusters@[j], *index),
                    k <= cluster.functions@.len(),
                    forall|m: int| 0 <= m < k ==> cluster.functions@[m] != *index,
                decreases cluster.functions@.len() - k,
            {
                if cluster.functions[k].0 == index.0 {
                    assert(cluster.functions@[k as int] == *index);
                    assert(cluster_contains(*cluster, *index));
                    assert(0 <= i < self.cluster_list().len() && *cluster == self.cluster_list()[i as int]
                        && cluster_contains(*cluster, *index) && forall|j: int|
                        0 <= j < i ==> !cluster_contains(self.cluster_list()[j], *index));
                    return Some(cluster);
                }
                k = k + 1;
            }
            assert(!cluster.functions@.contains(*index));
            i = i + 1;
        }
        None
    }

    /// # The clusters, in order
    pub fn clusters(&self) -> (result: &Vec<Cluster>)
        ensures
            result@ == self.cluster_list(),
    {
        &self.clusters
    }
}

} // verus!
